//! Optional XML re-formatting: an XML-family entry can be reserialized with
//! canonical indentation for readability. Reformatting is best-effort — on
//! any failure the original bytes are used unchanged — and the choice is made
//! by verified code; only the reserialization itself is a trusted call.

use vstd::prelude::*;
use vstd::utf8::valid_utf8;
use crate::names::{is_xml_name, spec_is_xml_name};

verus! {

/// The indented reserialization of the given XML bytes, or `None` when they
/// do not parse as XML.
pub uninterp spec fn pretty_xml_of(b: Seq<u8>) -> Option<Seq<u8>>;

/// Relies on `xmltree::Element::parse` and `Element::write_with_config` with
/// indentation and a document declaration switched on: parsing and emitting
/// are functions of the input bytes alone (attributes are kept sorted, so
/// their emission order is fixed too).
#[verifier::external_body]
fn reformat_xml(bytes: &[u8]) -> (r: Option<Vec<u8>>)
    ensures
        r is Some <==> pretty_xml_of(bytes@) is Some,
        r matches Some(v) ==> pretty_xml_of(bytes@) matches Some(m) && v@ == m,
{
    let element = xmltree::Element::parse(bytes).ok()?;
    let config = xmltree::EmitterConfig::new()
        .perform_indent(true)
        .write_document_declaration(true);
    let mut out = Vec::new();
    element.write_with_config(&mut out, config).ok()?;
    Some(out)
}

/// Relies on `core::str::from_utf8`: it succeeds exactly on valid UTF-8.
#[verifier::external_body]
pub fn is_valid_utf8(b: &[u8]) -> (r: bool)
    ensures
        r == valid_utf8(b@),
{
    core::str::from_utf8(b).is_ok()
}

/// The bytes written for one entry: reformatted when a pretty run meets an
/// XML-family name and the bytes parse, the original bytes otherwise.
pub open spec fn spec_processed_bytes(name: Seq<u8>, data: Seq<u8>, pretty: bool) -> Seq<u8> {
    if pretty && spec_is_xml_name(name) {
        match pretty_xml_of(data) {
            Some(v) => v,
            None => data,
        }
    } else {
        data
    }
}

/// Applies the reformatting policy to one entry's content.
pub fn process_entry_bytes(name: &[u8], data: Vec<u8>, pretty: bool) -> (r: Vec<u8>)
    ensures
        r@ == spec_processed_bytes(name@, data@, pretty),
{
    if pretty && is_xml_name(name) {
        match reformat_xml(data.as_slice()) {
            Some(v) => v,
            None => data,
        }
    } else {
        data
    }
}

} // verus!
