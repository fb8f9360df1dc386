//! The decompile and inspect pipelines.
//!
//! Decompiling turns one archive's bytes into a plan of filesystem actions
//! (directories to create, files to write under the output root), the count
//! of files written, the model summary and the serialized side-car
//! descriptor. The caller performs the actions; everything decided here —
//! path safety, reformatting policy, model capture, summary and descriptor —
//! is verified. Inspecting computes archive statistics without planning any
//! writes.

use vstd::prelude::*;
use crate::archive::{read_archive_entries, zip_entries_of, ArchiveEntry, ArchiveError, EntryModel};
use crate::bytes::clone_bytes;
use crate::fmt::{is_valid_utf8, process_entry_bytes, spec_processed_bytes};
use crate::json::{spec_summary_json, summary_to_json};
use crate::names::{is_model_name, spec_is_model_name};
use crate::paths::{resolve_entry_name, spec_resolve_entry_name};
use crate::xml::{
    parse_model_summary, spec_model_summary, spec_zero_summary, ModelSummary, SummaryModel,
};
use vstd::utf8::valid_utf8;

verus! {

/// One filesystem action of a decompile plan, relative to the output root.
pub enum PlanAction {
    /// Create this directory chain.
    MakeDir { segments: Vec<Vec<u8>> },
    /// Create the parent chain and write these bytes.
    WriteFile { segments: Vec<Vec<u8>>, data: Vec<u8> },
}

/// The mathematical shape of one action.
pub ghost enum ActionModel {
    MakeDir { segments: Seq<Seq<u8>> },
    WriteFile { segments: Seq<Seq<u8>>, data: Seq<u8> },
}

impl DeepView for PlanAction {
    type V = ActionModel;

    open spec fn deep_view(&self) -> ActionModel {
        match self {
            PlanAction::MakeDir { segments } => ActionModel::MakeDir {
                segments: segments.deep_view(),
            },
            PlanAction::WriteFile { segments, data } => ActionModel::WriteFile {
                segments: segments.deep_view(),
                data: data@,
            },
        }
    }
}

/// The running state of planning one archive, folded entry by entry: the
/// actions so far, the written-file count, whether a model-document entry was
/// already met, and the captured model text, if any.
pub ghost struct PlanModel {
    pub actions: Seq<ActionModel>,
    pub file_count: nat,
    pub saw_model: bool,
    pub captured: Option<Seq<u8>>,
}

/// What planning decides for a list of entries: the folded plan, or the index
/// of the first entry whose name is unsafe.
pub open spec fn spec_plan_fold(es: Seq<EntryModel>, pretty: bool) -> Result<PlanModel, int>
    decreases es.len(),
{
    if es.len() == 0 {
        Ok(
            PlanModel {
                actions: Seq::empty(),
                file_count: 0,
                saw_model: false,
                captured: None,
            },
        )
    } else {
        match spec_plan_fold(es.drop_last(), pretty) {
            Err(i) => Err(i),
            Ok(p) => {
                let e = es.last();
                match spec_resolve_entry_name(e.name) {
                    None => Err(es.len() - 1),
                    Some(segs) => if e.is_dir {
                        Ok(
                            PlanModel {
                                actions: p.actions.push(ActionModel::MakeDir { segments: segs }),
                                file_count: p.file_count,
                                saw_model: p.saw_model,
                                captured: p.captured,
                            },
                        )
                    } else {
                        let pb = spec_processed_bytes(e.name, e.data, pretty);
                        let model_name = spec_is_model_name(e.name);
                        Ok(
                            PlanModel {
                                actions: p.actions.push(
                                    ActionModel::WriteFile { segments: segs, data: pb },
                                ),
                                file_count: p.file_count + 1,
                                saw_model: p.saw_model || model_name,
                                captured: if !p.saw_model && model_name && valid_utf8(pb) {
                                    Some(pb)
                                } else {
                                    p.captured
                                },
                            },
                        )
                    },
                }
            },
        }
    }
}

/// The summary derived from a captured model text: extraction failures fall
/// back to the all-zero summary, extraction never aborts a decompile run.
pub open spec fn spec_summary_of_capture(captured: Option<Seq<u8>>) -> SummaryModel {
    match captured {
        None => spec_zero_summary(),
        Some(b) => match spec_model_summary(b) {
            Ok(s) => s,
            Err(_) => spec_zero_summary(),
        },
    }
}

/// Why a decompile run failed before any action was planned.
#[derive(Debug)]
pub enum DecompileError {
    /// The input bytes are not a valid zip container.
    NotAnArchive,
    /// The entry at this index could not be read or decompressed.
    EntryRead { index: usize },
    /// The entry at this index has a name that could escape the output root.
    UnsafePath { index: usize },
}

/// A planned decompile run: the actions to perform under the output root in
/// order, the count of files written by them, the model summary, and the
/// serialized side-car descriptor to store alongside.
pub struct DecompilePlan {
    pub actions: Vec<PlanAction>,
    pub file_count: usize,
    pub summary: ModelSummary,
    pub summary_json: Vec<u8>,
}

/// Once planning has failed on a prefix of the entries, it fails the same
/// way on the whole list.
proof fn lemma_plan_err_persists(es: Seq<EntryModel>, pretty: bool, n: int)
    requires
        0 <= n <= es.len(),
        spec_plan_fold(es.take(n), pretty) is Err,
    ensures
        spec_plan_fold(es, pretty) == spec_plan_fold(es.take(n), pretty),
    decreases es.len() - n,
{
    if n == es.len() {
        assert(es.take(n) =~= es);
    } else {
        assert(es.take(n + 1).drop_last() =~= es.take(n));
        lemma_plan_err_persists(es, pretty, n + 1);
    }
}

/// Plans the decompilation of one archive, given its bytes: every entry name
/// is resolved safely, directory entries become directories, file entries
/// become writes of their (possibly reformatted) content, the first
/// model-document entry's UTF-8 text determines the summary, and the side-car
/// descriptor is exactly the serialization of that summary.
pub fn plan_decompile(data: &Vec<u8>, pretty: bool) -> (r: Result<DecompilePlan, DecompileError>)
    ensures
        r matches Err(DecompileError::NotAnArchive) <==> zip_entries_of(data@) is None,
        r matches Ok(p) ==> zip_entries_of(data@) matches Some(es)
            && spec_plan_fold(es, pretty) matches Ok(pm)
            && p.actions.deep_view() == pm.actions
            && p.file_count as nat == pm.file_count
            && p.summary@ == spec_summary_of_capture(pm.captured)
            && p.summary_json@ == spec_summary_json(p.summary@),
        r matches Err(DecompileError::UnsafePath { index }) ==> zip_entries_of(data@)
            matches Some(es) && spec_plan_fold(es, pretty) == Err::<PlanModel, int>(index as int),
        r matches Err(DecompileError::EntryRead { index }) ==> zip_entries_of(data@)
            matches Some(es) && index < es.len(),
{
    let entries = match read_archive_entries(data) {
        Err(ArchiveError::NotAnArchive) => {
            return Err(DecompileError::NotAnArchive);
        },
        Err(ArchiveError::EntryRead { index }) => {
            return Err(DecompileError::EntryRead { index });
        },
        Ok(v) => v,
    };
    let ghost es = entries.deep_view();
    let mut actions: Vec<PlanAction> = Vec::new();
    let mut file_count: usize = 0;
    let mut saw_model = false;
    let mut captured: Option<Vec<u8>> = None;
    let mut i: usize = 0;
    proof {
        assert(es.take(0) =~= Seq::<EntryModel>::empty());
        assert(es.len() == entries@.len());
        assert(actions.deep_view() =~= Seq::<ActionModel>::empty());
    }
    while i < entries.len()
        invariant
            es == entries.deep_view(),
            es.len() == entries@.len(),
            zip_entries_of(data@) == Some(es),
            i <= es.len(),
            file_count <= i,
            spec_plan_fold(es.take(i as int), pretty) is Ok,
            spec_plan_fold(es.take(i as int), pretty)->Ok_0.actions == actions.deep_view(),
            spec_plan_fold(es.take(i as int), pretty)->Ok_0.file_count == file_count as nat,
            spec_plan_fold(es.take(i as int), pretty)->Ok_0.saw_model == saw_model,
            spec_plan_fold(es.take(i as int), pretty)->Ok_0.captured == captured.deep_view(),
        decreases es.len() - i,
    {
        proof {
            assert(es[i as int] == entries@[i as int].deep_view());
            assert(es.take(i + 1 as int).drop_last() =~= es.take(i as int));
            assert(es.take(i + 1 as int).last() == es[i as int]);
        }
        let e = &entries[i];
        match resolve_entry_name(e.name.as_slice()) {
            None => {
                proof {
                    assert(spec_plan_fold(es.take(i + 1 as int), pretty)
                        == Err::<PlanModel, int>(i as int));
                    lemma_plan_err_persists(es, pretty, i + 1 as int);
                }
                return Err(DecompileError::UnsafePath { index: i });
            },
            Some(segments) => {
                if e.is_dir {
                    let ghost old_actions = actions.deep_view();
                    let ghost segs_m = segments.deep_view();
                    actions.push(PlanAction::MakeDir { segments });
                    proof {
                        assert(actions.deep_view() =~~= old_actions.push(
                            ActionModel::MakeDir { segments: segs_m },
                        ));
                    }
                } else {
                    let pb = process_entry_bytes(
                        e.name.as_slice(),
                        clone_bytes(&e.data),
                        pretty,
                    );
                    let model_name = is_model_name(e.name.as_slice());
                    if !saw_model && model_name && is_valid_utf8(pb.as_slice()) {
                        captured = Some(clone_bytes(&pb));
                    }
                    saw_model = saw_model || model_name;
                    let ghost old_actions = actions.deep_view();
                    let ghost segs_m = segments.deep_view();
                    let ghost pb_m = pb@;
                    actions.push(PlanAction::WriteFile { segments, data: pb });
                    file_count += 1;
                    proof {
                        assert(actions.deep_view() =~~= old_actions.push(
                            ActionModel::WriteFile { segments: segs_m, data: pb_m },
                        ));
                    }
                }
            },
        }
        i += 1;
    }
    proof {
        assert(es.take(es.len() as int) =~= es);
    }
    let ghost cap_m = captured.deep_view();
    let summary = match captured {
        None => {
            proof {
                assert(cap_m is None);
                assert(spec_summary_of_capture(cap_m) == spec_zero_summary());
            }
            ModelSummary::zero()
        },
        Some(b) => {
            proof {
                assert(cap_m == Some(b@));
            }
            match parse_model_summary(b.as_slice()) {
                Ok(s) => {
                    proof {
                        assert(s@ == spec_summary_of_capture(cap_m));
                    }
                    s
                },
                Err(_) => {
                    proof {
                        assert(spec_summary_of_capture(cap_m) == spec_zero_summary());
                    }
                    ModelSummary::zero()
                },
            }
        },
    };
    let summary_json = summary_to_json(&summary);
    Ok(DecompilePlan { actions, file_count, summary, summary_json })
}

/// Decompiling the same container bytes twice with the same settings plans
/// the same actions and yields the same file count and summary: the whole
/// plan is a function of the input alone, so a second run with overwriting
/// reproduces the first's output exactly.
pub proof fn lemma_decompile_idempotent(
    es: Seq<EntryModel>,
    pretty: bool,
    p1: PlanModel,
    p2: PlanModel,
)
    requires
        spec_plan_fold(es, pretty) == Ok::<PlanModel, int>(p1),
        spec_plan_fold(es, pretty) == Ok::<PlanModel, int>(p2),
    ensures
        p1 == p2,
        p1.file_count == p2.file_count,
        spec_summary_of_capture(p1.captured) == spec_summary_of_capture(p2.captured),
{
}

/// Saturating 64-bit addition: totals clamp at the representable maximum
/// rather than wrapping.
pub open spec fn sat_add_u64(a: u64, b: u64) -> u64 {
    if a + b > u64::MAX {
        u64::MAX
    } else {
        (a + b) as u64
    }
}

/// The saturating total of the archive-reported compressed sizes.
pub open spec fn total_compressed(es: Seq<EntryModel>) -> u64
    decreases es.len(),
{
    if es.len() == 0 {
        0
    } else {
        sat_add_u64(total_compressed(es.drop_last()), es.last().compressed_size)
    }
}

/// The saturating total of the archive-reported uncompressed sizes.
pub open spec fn total_uncompressed(es: Seq<EntryModel>) -> u64
    decreases es.len(),
{
    if es.len() == 0 {
        0
    } else {
        sat_add_u64(total_uncompressed(es.drop_last()), es.last().uncompressed_size)
    }
}

/// The index of the first entry whose name marks the model document, at or
/// after `i`, or the list's length when there is none.
pub open spec fn first_model_entry(es: Seq<EntryModel>, i: int) -> int
    decreases es.len() - i,
{
    if i < 0 || i >= es.len() {
        es.len() as int
    } else if spec_is_model_name(es[i].name) {
        i
    } else {
        first_model_entry(es, i + 1)
    }
}

/// The summary an inspection reports: the first model-document entry's
/// summary when that entry exists, decodes and parses and holds a model
/// element; `None` (no model document found) otherwise.
pub open spec fn spec_inspect_summary(es: Seq<EntryModel>) -> Option<SummaryModel> {
    let i = first_model_entry(es, 0);
    if i >= es.len() {
        None
    } else {
        match spec_model_summary(es[i].data) {
            Ok(s) => Some(s),
            Err(_) => None,
        }
    }
}

/// The read-only statistics of one archive: entry count, saturating byte
/// totals, and the model summary when a model document was found and usable.
pub struct InspectReport {
    pub entry_count: usize,
    pub compressed_bytes: u64,
    pub uncompressed_bytes: u64,
    pub summary: Option<ModelSummary>,
}

/// Inspects one archive's bytes without planning any filesystem action:
/// counts entries, totals the archive-reported sizes (clamping at the maximum
/// rather than wrapping), and summarizes the first model-document entry.
pub fn inspect_archive(data: &Vec<u8>) -> (r: Result<InspectReport, ArchiveError>)
    ensures
        r matches Err(ArchiveError::NotAnArchive) <==> zip_entries_of(data@) is None,
        r matches Ok(rep) ==> zip_entries_of(data@) matches Some(es) && {
            &&& rep.entry_count == es.len()
            &&& rep.compressed_bytes == total_compressed(es)
            &&& rep.uncompressed_bytes == total_uncompressed(es)
            &&& rep.summary.deep_view() == spec_inspect_summary(es)
        },
        r matches Err(ArchiveError::EntryRead { index }) ==> zip_entries_of(data@)
            matches Some(es) && index < es.len(),
{
    let entries = match read_archive_entries(data) {
        Err(e) => {
            return Err(e);
        },
        Ok(v) => v,
    };
    let ghost es = entries.deep_view();
    let mut compressed: u64 = 0;
    let mut uncompressed: u64 = 0;
    let mut model_idx: usize = 0;
    let mut model_found = false;
    let mut i: usize = 0;
    proof {
        assert(es.take(0) =~= Seq::<EntryModel>::empty());
        assert(es.len() == entries@.len());
    }
    while i < entries.len()
        invariant
            es == entries.deep_view(),
            es.len() == entries@.len(),
            zip_entries_of(data@) == Some(es),
            i <= es.len(),
            compressed == total_compressed(es.take(i as int)),
            uncompressed == total_uncompressed(es.take(i as int)),
            !model_found ==> first_model_entry(es, 0) == first_model_entry(es, i as int),
            model_found ==> model_idx < es.len() && first_model_entry(es, 0) == model_idx as int,
        decreases es.len() - i,
    {
        proof {
            assert(es[i as int] == entries@[i as int].deep_view());
            assert(es.take(i + 1 as int).drop_last() =~= es.take(i as int));
            assert(es.take(i + 1 as int).last() == es[i as int]);
        }
        let e = &entries[i];
        compressed = compressed.saturating_add(e.compressed_size);
        uncompressed = uncompressed.saturating_add(e.uncompressed_size);
        if !model_found && is_model_name(e.name.as_slice()) {
            model_found = true;
            model_idx = i;
        }
        i += 1;
    }
    proof {
        assert(es.take(es.len() as int) =~= es);
    }
    let summary = if model_found {
        match parse_model_summary(entries[model_idx].data.as_slice()) {
            Ok(s) => Some(s),
            Err(_) => None,
        }
    } else {
        None
    };
    proof {
        assert(summary.deep_view() == spec_inspect_summary(es));
    }
    Ok(
        InspectReport {
            entry_count: entries.len(),
            compressed_bytes: compressed,
            uncompressed_bytes: uncompressed,
            summary,
        },
    )
}

/// How the caller must treat the output directory before performing a plan.
pub enum OutputDirPlan {
    /// The directory exists and overwriting was not requested: fail without
    /// touching it.
    RefuseExisting,
    /// The directory exists and overwriting was requested: remove it, then
    /// create it anew.
    RemoveThenCreate,
    /// The directory does not exist: create it (with its ancestors).
    Create,
}

/// The overwrite policy: an existing output directory is refused unless
/// overwriting was requested, and is then removed before recreation; nothing
/// is ever removed or created when the refusal applies.
pub fn plan_output_dir(already_exists: bool, overwrite: bool) -> (r: OutputDirPlan)
    ensures
        already_exists && !overwrite <==> r matches OutputDirPlan::RefuseExisting,
        already_exists && overwrite <==> r matches OutputDirPlan::RemoveThenCreate,
        !already_exists <==> r matches OutputDirPlan::Create,
{
    if already_exists {
        if overwrite {
            OutputDirPlan::RemoveThenCreate
        } else {
            OutputDirPlan::RefuseExisting
        }
    } else {
        OutputDirPlan::Create
    }
}

/// A worker count is acceptable when it is not the explicit zero: zero
/// workers is rejected before any work starts.
pub fn worker_count_valid(jobs: Option<usize>) -> (r: bool)
    ensures
        r == !(jobs == Some(0usize)),
{
    match jobs {
        Some(n) => n != 0,
        None => true,
    }
}


/// `output` as bytes: the fallback folder name.
pub open spec fn default_folder_name() -> Seq<u8> {
    seq![111u8, 117u8, 116u8, 112u8, 117u8, 116u8]
}

/// The largest index in `[1, j]` holding a dot, or `-1` when there is none:
/// the split point between a file name's stem and its extension (a dot at
/// index zero opens a hidden name and does not count).
pub open spec fn last_dot(s: Seq<u8>, j: int) -> int
    decreases j,
{
    if j < 1 || j >= s.len() {
        -1
    } else if s[j] == 46 {
        j
    } else {
        last_dot(s, j - 1)
    }
}

/// The stem of a file name: everything before the last dot, or the whole
/// name when there is no dot past the first byte.
pub open spec fn spec_stem(s: Seq<u8>) -> Seq<u8> {
    let d = last_dot(s, s.len() - 1);
    if d >= 1 {
        s.take(d)
    } else {
        s
    }
}

/// A space replaced by an underscore, any other byte unchanged.
pub open spec fn space_to_underscore(b: u8) -> u8 {
    if b == 32 {
        95u8
    } else {
        b
    }
}

/// The per-input output folder name in a multi-input run: the input file
/// name's stem with spaces replaced by underscores, or the fallback name when
/// that would be empty.
pub open spec fn spec_folder_name(s: Seq<u8>) -> Seq<u8> {
    let t = spec_stem(s).map_values(|b: u8| space_to_underscore(b));
    if t.len() == 0 {
        default_folder_name()
    } else {
        t
    }
}

/// `last_dot` is the largest dot index: knowing the dots above `d` are
/// absent pins it down.
proof fn lemma_last_dot_char(s: Seq<u8>, j: int, d: int)
    requires
        0 <= j < s.len(),
        d == -1 || (1 <= d <= j && s[d] == 46),
        forall|k: int| 1 <= k <= j && k > d ==> s[k] != 46,
    ensures
        last_dot(s, j) == d,
    decreases j,
{
    if j >= 1 && s[j] != 46 {
        lemma_last_dot_char(s, j - 1, d);
    }
}

/// Derives the output folder name for one input from its file name.
pub fn output_folder_name(file_name: &[u8]) -> (r: Vec<u8>)
    ensures
        r@ == spec_folder_name(file_name@),
{
    let ghost s = file_name@;
    let mut dot: usize = 0;
    let mut has_dot = false;
    let mut i: usize = 1;
    while i < file_name.len()
        invariant
            1 <= i,
            i <= s.len() || (i == 1 && s.len() <= 1),
            s == file_name@,
            has_dot ==> 1 <= dot < i && dot < s.len() && s[dot as int] == 46,
            forall|k: int| 1 <= k < i && k < s.len() && k > dot ==> s[k] != 46,
            !has_dot ==> forall|k: int| 1 <= k < i && k < s.len() ==> s[k] != 46,
        decreases s.len() - i,
    {
        if file_name[i] == 46 {
            dot = i;
            has_dot = true;
        }
        i += 1;
    }
    proof {
        if s.len() > 0 {
            if has_dot {
                lemma_last_dot_char(s, s.len() - 1, dot as int);
            } else {
                lemma_last_dot_char(s, s.len() - 1, -1);
            }
        }
    }
    let stem_len = if has_dot {
        dot
    } else {
        file_name.len()
    };
    proof {
        assert(spec_stem(s) =~= s.take(stem_len as int));
    }
    let mut out: Vec<u8> = Vec::new();
    let mut k: usize = 0;
    while k < stem_len
        invariant
            stem_len <= s.len(),
            s == file_name@,
            k <= stem_len,
            out@.len() == k,
            forall|m: int| 0 <= m < k ==> out@[m] == space_to_underscore(s[m]),
        decreases stem_len - k,
    {
        let b = file_name[k];
        if b == 32 {
            out.push(95);
        } else {
            out.push(b);
        }
        k += 1;
    }
    proof {
        assert(out@ =~= spec_stem(s).map_values(|b: u8| space_to_underscore(b)));
    }
    if out.len() == 0 {
        let fallback: Vec<u8> = vec![111u8, 117u8, 116u8, 112u8, 117u8, 116u8];
        proof {
            assert(fallback@ =~= default_folder_name());
        }
        return fallback;
    }
    out
}


} // verus!
