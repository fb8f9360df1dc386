//! The model-summary extractor.
//!
//! The model document's XML text is flattened (by a trusted parser call) into
//! the list of its elements in document order, each with its ancestor count,
//! local tag name and `unit` attribute. All structural reasoning is verified
//! over that list: the first `model` element is located, its subtree is the
//! run of following elements of greater depth, a direct child is a subtree
//! element one level deeper, and the summary counts elements by tag within
//! the model subtree.

use vstd::prelude::*;
use crate::bytes::{bytes_eq, clone_bytes};

verus! {

/// One XML element in document order: its ancestor count, its local tag name
/// and its `unit` attribute, if any.
pub struct XmlElem {
    pub depth: usize,
    pub tag: Vec<u8>,
    pub unit: Option<Vec<u8>>,
}

/// The mathematical shape of one flattened element.
pub ghost struct XmlElemModel {
    pub depth: nat,
    pub tag: Seq<u8>,
    pub unit: Option<Seq<u8>>,
}

impl View for XmlElem {
    type V = XmlElemModel;

    open spec fn view(&self) -> XmlElemModel {
        XmlElemModel {
            depth: self.depth as nat,
            tag: self.tag@,
            unit: self.unit.deep_view(),
        }
    }
}

impl DeepView for XmlElem {
    type V = XmlElemModel;

    open spec fn deep_view(&self) -> XmlElemModel {
        self.view()
    }
}

/// The element list that parsing a given byte text yields, in document
/// order, or `None` when the text is not valid UTF-8 or not well-formed XML.
pub uninterp spec fn xml_elements_of(text: Seq<u8>) -> Option<Seq<XmlElemModel>>;

/// Relies on `str::from_utf8` (succeeds exactly on valid UTF-8) and on
/// `roxmltree::Document::parse` and the `descendants`, `ancestors`,
/// `tag_name` and `attribute` accessors: parsing is a function of the input
/// bytes alone, `descendants` yields nodes in document order, `ancestors`
/// counts the chain up from the node, and `tag_name().name()` is the local
/// name, so the element list returned here is determined by `text`.
#[verifier::external_body]
fn parse_xml_elements(text: &[u8]) -> (r: Option<Vec<XmlElem>>)
    ensures
        r is Some <==> xml_elements_of(text@) is Some,
        r matches Some(v) ==> xml_elements_of(text@) matches Some(m) && v.deep_view() == m,
{
    let s = core::str::from_utf8(text).ok()?;
    let doc = roxmltree::Document::parse(s).ok()?;
    let mut out = Vec::new();
    for node in doc.descendants().filter(|n| n.is_element()) {
        out.push(XmlElem {
            depth: node.ancestors().count(),
            tag: node.tag_name().name().as_bytes().to_vec(),
            unit: node.attribute("unit").map(|u| u.as_bytes().to_vec()),
        });
    }
    Some(out)
}

/// Lower-case `model` as bytes.
pub open spec fn tag_model() -> Seq<u8> {
    seq![109u8, 111u8, 100u8, 101u8, 108u8]
}

/// Lower-case `object` as bytes.
pub open spec fn tag_object() -> Seq<u8> {
    seq![111u8, 98u8, 106u8, 101u8, 99u8, 116u8]
}

/// Lower-case `mesh` as bytes.
pub open spec fn tag_mesh() -> Seq<u8> {
    seq![109u8, 101u8, 115u8, 104u8]
}

/// Lower-case `components` as bytes.
pub open spec fn tag_components() -> Seq<u8> {
    seq![99u8, 111u8, 109u8, 112u8, 111u8, 110u8, 101u8, 110u8, 116u8, 115u8]
}

/// Lower-case `item` as bytes.
pub open spec fn tag_item() -> Seq<u8> {
    seq![105u8, 116u8, 101u8, 109u8]
}

/// Lower-case `metadata` as bytes.
pub open spec fn tag_metadata() -> Seq<u8> {
    seq![109u8, 101u8, 116u8, 97u8, 100u8, 97u8, 116u8, 97u8]
}

/// The first index at or after `i` whose element has the given tag, or the
/// list's length when there is none.
pub open spec fn find_tag_from(es: Seq<XmlElemModel>, tag: Seq<u8>, i: int) -> int
    decreases es.len() - i,
{
    if i < 0 || i >= es.len() {
        es.len() as int
    } else if es[i].tag == tag {
        i
    } else {
        find_tag_from(es, tag, i + 1)
    }
}

/// The first index at or after `j` whose element is at depth `d` or
/// shallower, or the list's length: one past the subtree of an element of
/// depth `d` that ends right before `j`.
pub open spec fn subtree_end_from(es: Seq<XmlElemModel>, d: nat, j: int) -> int
    decreases es.len() - j,
{
    if j < 0 || j >= es.len() {
        es.len() as int
    } else if es[j].depth <= d {
        j
    } else {
        subtree_end_from(es, d, j + 1)
    }
}

/// One past the last element of the subtree rooted at index `i`.
pub open spec fn subtree_end(es: Seq<XmlElemModel>, i: int) -> int {
    subtree_end_from(es, es[i].depth, i + 1)
}

/// The element at `j` has, within its own subtree, a direct child (one level
/// deeper) with the given tag.
pub open spec fn elem_has_child_tag(es: Seq<XmlElemModel>, j: int, tag: Seq<u8>) -> bool {
    exists|k: int|
        j < k < subtree_end(es, j)
        && (#[trigger] es[k]).depth == es[j].depth + 1
        && es[k].tag == tag
}

/// How many indices in `[lo, hi)` satisfy `p`.
pub open spec fn count_matching(
    es: Seq<XmlElemModel>,
    p: spec_fn(Seq<XmlElemModel>, int) -> bool,
    lo: int,
    hi: int,
) -> nat
    decreases hi - lo,
{
    if lo >= hi {
        0
    } else {
        count_matching(es, p, lo, hi - 1) + if p(es, hi - 1) {
            1nat
        } else {
            0nat
        }
    }
}

pub open spec fn object_pred() -> spec_fn(Seq<XmlElemModel>, int) -> bool {
    |es: Seq<XmlElemModel>, j: int| es[j].tag == tag_object()
}

pub open spec fn mesh_object_pred() -> spec_fn(Seq<XmlElemModel>, int) -> bool {
    |es: Seq<XmlElemModel>, j: int|
        es[j].tag == tag_object() && elem_has_child_tag(es, j, tag_mesh())
}

pub open spec fn components_object_pred() -> spec_fn(Seq<XmlElemModel>, int) -> bool {
    |es: Seq<XmlElemModel>, j: int|
        es[j].tag == tag_object() && elem_has_child_tag(es, j, tag_components())
}

pub open spec fn item_pred() -> spec_fn(Seq<XmlElemModel>, int) -> bool {
    |es: Seq<XmlElemModel>, j: int| es[j].tag == tag_item()
}

pub open spec fn metadata_pred() -> spec_fn(Seq<XmlElemModel>, int) -> bool {
    |es: Seq<XmlElemModel>, j: int| es[j].tag == tag_metadata()
}

/// The aggregate structural counts of one model document.
pub struct ModelSummary {
    pub unit: Option<Vec<u8>>,
    pub object_count: usize,
    pub mesh_object_count: usize,
    pub components_object_count: usize,
    pub build_item_count: usize,
    pub metadata_count: usize,
}

/// The mathematical shape of a summary.
pub ghost struct SummaryModel {
    pub unit: Option<Seq<u8>>,
    pub object_count: nat,
    pub mesh_object_count: nat,
    pub components_object_count: nat,
    pub build_item_count: nat,
    pub metadata_count: nat,
}

impl View for ModelSummary {
    type V = SummaryModel;

    open spec fn view(&self) -> SummaryModel {
        SummaryModel {
            unit: self.unit.deep_view(),
            object_count: self.object_count as nat,
            mesh_object_count: self.mesh_object_count as nat,
            components_object_count: self.components_object_count as nat,
            build_item_count: self.build_item_count as nat,
            metadata_count: self.metadata_count as nat,
        }
    }
}

impl DeepView for ModelSummary {
    type V = SummaryModel;

    open spec fn deep_view(&self) -> SummaryModel {
        self.view()
    }
}

/// The all-zero summary with no unit, used when no model document is found
/// or its statistics cannot be computed.
pub open spec fn spec_zero_summary() -> SummaryModel {
    SummaryModel {
        unit: None,
        object_count: 0,
        mesh_object_count: 0,
        components_object_count: 0,
        build_item_count: 0,
        metadata_count: 0,
    }
}

/// What the extractor computes from a flattened element list: `None` when no
/// `model` element exists, else the counts over the model subtree and the
/// model element's `unit` attribute.
pub open spec fn spec_extract_summary(es: Seq<XmlElemModel>) -> Option<SummaryModel> {
    let m = find_tag_from(es, tag_model(), 0);
    if m >= es.len() {
        None
    } else {
        let end = subtree_end(es, m);
        Some(SummaryModel {
            unit: es[m].unit,
            object_count: count_matching(es, object_pred(), m + 1, end),
            mesh_object_count: count_matching(es, mesh_object_pred(), m + 1, end),
            components_object_count: count_matching(es, components_object_pred(), m + 1, end),
            build_item_count: count_matching(es, item_pred(), m + 1, end),
            metadata_count: count_matching(es, metadata_pred(), m + 1, end),
        })
    }
}

/// A pointwise-weaker predicate counts no more matches.
pub proof fn lemma_count_mono(
    es: Seq<XmlElemModel>,
    p: spec_fn(Seq<XmlElemModel>, int) -> bool,
    q: spec_fn(Seq<XmlElemModel>, int) -> bool,
    lo: int,
    hi: int,
)
    requires
        forall|j: int| lo <= j < hi && #[trigger] p(es, j) ==> q(es, j),
    ensures
        count_matching(es, p, lo, hi) <= count_matching(es, q, lo, hi),
    decreases hi - lo,
{
    if lo < hi {
        lemma_count_mono(es, p, q, lo, hi - 1);
    }
}

/// Each of the mesh-object and components-object counts is bounded by the
/// object count, and their sum by twice the object count: both predicates
/// pick objects, so neither can outnumber them.
pub proof fn lemma_summary_counts_bounded(es: Seq<XmlElemModel>)
    ensures
        spec_extract_summary(es) matches Some(s) ==> {
            &&& s.mesh_object_count <= s.object_count
            &&& s.components_object_count <= s.object_count
            &&& s.mesh_object_count + s.components_object_count <= 2 * s.object_count
        },
{
    let m = find_tag_from(es, tag_model(), 0);
    if m < es.len() {
        let end = subtree_end(es, m);
        lemma_count_mono(es, mesh_object_pred(), object_pred(), m + 1, end);
        lemma_count_mono(es, components_object_pred(), object_pred(), m + 1, end);
    }
}

/// One past the subtree of depth-`d` elements starting at `start`.
fn subtree_end_exec(elems: &Vec<XmlElem>, d: usize, start: usize) -> (r: usize)
    requires
        start <= elems@.len(),
    ensures
        r == subtree_end_from(elems.deep_view(), d as nat, start as int),
        start <= r <= elems@.len(),
{
    let ghost es = elems.deep_view();
    proof {
        assert(es.len() == elems@.len());
    }
    let mut k: usize = start;
    while k < elems.len()
        invariant
            es == elems.deep_view(),
            es.len() == elems@.len(),
            start <= k <= es.len(),
            subtree_end_from(es, d as nat, start as int)
                == subtree_end_from(es, d as nat, k as int),
        decreases es.len() - k,
    {
        proof {
            assert(es[k as int] == elems@[k as int].deep_view());
        }
        if elems[k].depth <= d {
            return k;
        }
        k += 1;
    }
    k
}

/// Whether the element at `j` (of depth `d`, with subtree ending at `end`)
/// has a direct child with the given tag.
fn has_child_tag_exec(elems: &Vec<XmlElem>, j: usize, end: usize, tag: &[u8]) -> (r: bool)
    requires
        j < elems@.len(),
        end == subtree_end(elems.deep_view(), j as int),
        end <= elems@.len(),
    ensures
        r == elem_has_child_tag(elems.deep_view(), j as int, tag@),
{
    let ghost es = elems.deep_view();
    let _len = elems.len();
    let d = elems[j].depth;
    proof {
        assert(es[j as int] == elems@[j as int].deep_view());
    }
    let mut k: usize = j + 1;
    if k > end {
        return false;
    }
    while k < end
        invariant
            es == elems.deep_view(),
            es.len() == elems@.len(),
            j < k <= end,
            end <= es.len(),
            d as nat == es[j as int].depth,
            end == subtree_end(es, j as int),
            forall|k2: int| j < k2 < k ==> !((#[trigger] es[k2]).depth == es[j as int].depth + 1
                && es[k2].tag == tag@),
        decreases end - k,
    {
        proof {
            assert(es[k as int] == elems@[k as int].deep_view());
        }
        if elems[k].depth > d && elems[k].depth - d == 1 && bytes_eq(elems[k].tag.as_slice(), tag) {
            return true;
        }
        k += 1;
    }
    false
}

/// Computes the model summary from a flattened element list: the counts over
/// the first `model` element's subtree, or `None` when no `model` element
/// exists. The mesh-object and components-object counts never exceed the
/// object count.
pub fn extract_summary(elems: &Vec<XmlElem>) -> (r: Option<ModelSummary>)
    ensures
        r matches Some(s) ==> spec_extract_summary(elems.deep_view()) == Some(s@),
        r is None <==> spec_extract_summary(elems.deep_view()) is None,
{
    let ghost es = elems.deep_view();
    proof {
        assert(es.len() == elems@.len());
    }
    let tag_model_v: Vec<u8> = vec![109u8, 111u8, 100u8, 101u8, 108u8];
    let tag_object_v: Vec<u8> = vec![111u8, 98u8, 106u8, 101u8, 99u8, 116u8];
    let tag_mesh_v: Vec<u8> = vec![109u8, 101u8, 115u8, 104u8];
    let tag_components_v: Vec<u8> =
        vec![99u8, 111u8, 109u8, 112u8, 111u8, 110u8, 101u8, 110u8, 116u8, 115u8];
    let tag_item_v: Vec<u8> = vec![105u8, 116u8, 101u8, 109u8];
    let tag_metadata_v: Vec<u8> = vec![109u8, 101u8, 116u8, 97u8, 100u8, 97u8, 116u8, 97u8];
    proof {
        assert(tag_model_v@ =~= tag_model());
        assert(tag_object_v@ =~= tag_object());
        assert(tag_mesh_v@ =~= tag_mesh());
        assert(tag_components_v@ =~= tag_components());
        assert(tag_item_v@ =~= tag_item());
        assert(tag_metadata_v@ =~= tag_metadata());
    }

    // locate the first `model` element
    let mut m: usize = 0;
    let mut found = false;
    while m < elems.len() && !found
        invariant
            es == elems.deep_view(),
            es.len() == elems@.len(),
            m <= es.len(),
            tag_model_v@ == tag_model(),
            !found ==> find_tag_from(es, tag_model(), 0) == find_tag_from(es, tag_model(), m as int),
            found ==> m < es.len() && find_tag_from(es, tag_model(), 0) == m as int,
        decreases es.len() - m, if found { 0int } else { 1int },
    {
        proof {
            assert(es[m as int] == elems@[m as int].deep_view());
        }
        if bytes_eq(elems[m].tag.as_slice(), tag_model_v.as_slice()) {
            found = true;
        } else {
            m += 1;
        }
    }
    if !found {
        proof {
            assert(find_tag_from(es, tag_model(), es.len() as int) == es.len() as int);
        }
        return None;
    }

    let ghost mi = m as int;
    proof {
        assert(es[mi] == elems@[mi].deep_view());
    }
    let d = elems[m].depth;
    let end = subtree_end_exec(elems, d, m + 1);
    proof {
        assert(end as int == subtree_end(es, mi));
    }

    let mut object_count: usize = 0;
    let mut mesh_object_count: usize = 0;
    let mut components_object_count: usize = 0;
    let mut build_item_count: usize = 0;
    let mut metadata_count: usize = 0;
    let mut j: usize = m + 1;
    while j < end
        invariant
            es == elems.deep_view(),
            es.len() == elems@.len(),
            mi == m as int,
            m < es.len(),
            m + 1 <= j <= end,
            end <= es.len(),
            end as int == subtree_end(es, mi),
            tag_object_v@ == tag_object(),
            tag_mesh_v@ == tag_mesh(),
            tag_components_v@ == tag_components(),
            tag_item_v@ == tag_item(),
            tag_metadata_v@ == tag_metadata(),
            object_count as nat == count_matching(es, object_pred(), mi + 1, j as int),
            mesh_object_count as nat == count_matching(es, mesh_object_pred(), mi + 1, j as int),
            components_object_count as nat
                == count_matching(es, components_object_pred(), mi + 1, j as int),
            build_item_count as nat == count_matching(es, item_pred(), mi + 1, j as int),
            metadata_count as nat == count_matching(es, metadata_pred(), mi + 1, j as int),
            object_count <= j - m - 1,
            mesh_object_count <= j - m - 1,
            components_object_count <= j - m - 1,
            build_item_count <= j - m - 1,
            metadata_count <= j - m - 1,
        decreases end - j,
    {
        proof {
            assert(es[j as int] == elems@[j as int].deep_view());
        }
        if bytes_eq(elems[j].tag.as_slice(), tag_object_v.as_slice()) {
            object_count += 1;
            let end_j = subtree_end_exec(elems, elems[j].depth, j + 1);
            proof {
                assert(end_j as int == subtree_end(es, j as int));
            }
            if has_child_tag_exec(elems, j, end_j, tag_mesh_v.as_slice()) {
                mesh_object_count += 1;
            }
            if has_child_tag_exec(elems, j, end_j, tag_components_v.as_slice()) {
                components_object_count += 1;
            }
        } else {
            if bytes_eq(elems[j].tag.as_slice(), tag_item_v.as_slice()) {
                build_item_count += 1;
            }
            if bytes_eq(elems[j].tag.as_slice(), tag_metadata_v.as_slice()) {
                metadata_count += 1;
            }
        }
        j += 1;
    }

    let unit = match &elems[m].unit {
        Some(u) => Some(clone_bytes(u)),
        None => None,
    };
    let result = ModelSummary {
        unit,
        object_count,
        mesh_object_count,
        components_object_count,
        build_item_count,
        metadata_count,
    };
    proof {
        assert(result@ == spec_extract_summary(es)->Some_0);
    }
    Some(result)
}

impl ModelSummary {
    /// The all-zero summary with no unit, the default when no model document
    /// is found or its statistics cannot be computed.
    pub fn zero() -> (r: ModelSummary)
        ensures
            r@ == spec_zero_summary(),
    {
        ModelSummary {
            unit: None,
            object_count: 0,
            mesh_object_count: 0,
            components_object_count: 0,
            build_item_count: 0,
            metadata_count: 0,
        }
    }
}

/// Parses a model document's bytes and computes its summary, or reports why
/// it cannot: the text is not parseable XML (or not UTF-8), or holds no
/// `model` element.
#[derive(Debug)]
pub enum SummaryError {
    /// The text is not valid UTF-8 or not well-formed XML.
    ParseFailed,
    /// The document is well-formed but holds no `model` element.
    MissingModelElement,
}

/// What `parse_model_summary` returns for every input, stated over the named
/// parse result.
pub open spec fn spec_model_summary(text: Seq<u8>) -> Result<SummaryModel, SummaryError> {
    match xml_elements_of(text) {
        None => Err(SummaryError::ParseFailed),
        Some(es) => match spec_extract_summary(es) {
            None => Err(SummaryError::MissingModelElement),
            Some(s) => Ok(s),
        },
    }
}

/// Parses the model document and computes the aggregate structural counts.
pub fn parse_model_summary(text: &[u8]) -> (r: Result<ModelSummary, SummaryError>)
    ensures
        r matches Ok(s) ==> spec_model_summary(text@) matches Ok(m) && s@ == m,
        r matches Err(e) ==> spec_model_summary(text@) matches Err(e2) && e == e2,
        r matches Ok(s) ==> {
            &&& s@.mesh_object_count <= s@.object_count
            &&& s@.components_object_count <= s@.object_count
            &&& s@.mesh_object_count + s@.components_object_count <= 2 * s@.object_count
        },
{
    match parse_xml_elements(text) {
        None => Err(SummaryError::ParseFailed),
        Some(elems) => match extract_summary(&elems) {
            None => Err(SummaryError::MissingModelElement),
            Some(s) => {
                proof {
                    lemma_summary_counts_bounded(elems.deep_view());
                }
                Ok(s)
            },
        },
    }
}

} // verus!
