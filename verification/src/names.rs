//! Classification of archive entry names: which entries are XML-family files
//! (candidates for reformatting) and which one is the package's model document.

use vstd::prelude::*;
use crate::bytes::{ends_with_ci, has_suffix_ci};

verus! {

/// Lower-case `.xml` as bytes.
pub open spec fn xml_ext() -> Seq<u8> {
    seq![46u8, 120u8, 109u8, 108u8]
}

/// Lower-case `.model` as bytes.
pub open spec fn model_ext() -> Seq<u8> {
    seq![46u8, 109u8, 111u8, 100u8, 101u8, 108u8]
}

/// Lower-case `.rels` as bytes.
pub open spec fn rels_ext() -> Seq<u8> {
    seq![46u8, 114u8, 101u8, 108u8, 115u8]
}

/// An entry name that should be treated as XML for reformatting purposes:
/// it ends (ASCII-case-insensitively) in `.xml`, `.model` or `.rels`.
pub open spec fn spec_is_xml_name(name: Seq<u8>) -> bool {
    ||| ends_with_ci(name, xml_ext())
    ||| ends_with_ci(name, model_ext())
    ||| ends_with_ci(name, rels_ext())
}

/// An entry name that identifies the package's model document: it ends
/// (ASCII-case-insensitively) in `.model`.
pub open spec fn spec_is_model_name(name: Seq<u8>) -> bool {
    ends_with_ci(name, model_ext())
}

pub fn is_xml_name(name: &[u8]) -> (r: bool)
    ensures
        r == spec_is_xml_name(name@),
{
    let xml: Vec<u8> = vec![46u8, 120u8, 109u8, 108u8];
    let rels: Vec<u8> = vec![46u8, 114u8, 101u8, 108u8, 115u8];
    has_suffix_ci(name, xml.as_slice()) || is_model_name(name)
        || has_suffix_ci(name, rels.as_slice())
}

pub fn is_model_name(name: &[u8]) -> (r: bool)
    ensures
        r == spec_is_model_name(name@),
{
    let model: Vec<u8> = vec![46u8, 109u8, 111u8, 100u8, 101u8, 108u8];
    has_suffix_ci(name, model.as_slice())
}

} // verus!
