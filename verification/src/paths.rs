//! Safe path resolution for untrusted archive entry names.
//!
//! An entry name is decomposed into segments at separator bytes. A plain named
//! segment is kept; an empty or current-directory (`.`) segment is skipped; a
//! parent-directory segment (`..`), a leading separator (an absolute-path
//! root) or a segment holding a volume-prefix colon makes the whole name
//! unsafe. The resolved value is the list of kept segments, to be joined
//! under the output root by the caller; rejection is a hard error, never a
//! silent rewrite, so a crafted name can never escape the root.

use vstd::prelude::*;

verus! {

/// Path separators recognized in entry names: `/` (the archive convention)
/// and `\` (treated as a separator rather than as a name byte, the safe
/// reading of Windows-style names).
pub open spec fn is_sep(b: u8) -> bool {
    b == 47 || b == 92
}

/// Splits `s` at separator bytes, keeping empty segments; the result always
/// holds at least one (possibly empty) segment.
pub open spec fn split_segments(s: Seq<u8>) -> Seq<Seq<u8>>
    decreases s.len(),
{
    if s.len() == 0 {
        seq![Seq::<u8>::empty()]
    } else {
        let init = split_segments(s.drop_last());
        let b = s.last();
        if is_sep(b) {
            init.push(Seq::<u8>::empty())
        } else {
            init.drop_last().push(init.last().push(b))
        }
    }
}

/// A current-directory segment.
pub open spec fn is_cur_dir(g: Seq<u8>) -> bool {
    g == seq![46u8]
}

/// A parent-directory segment.
pub open spec fn is_parent_dir(g: Seq<u8>) -> bool {
    g == seq![46u8, 46u8]
}

/// A segment that must cause rejection: parent-directory traversal, or a
/// volume prefix (any segment holding a colon, as in `c:`).
pub open spec fn is_unsafe_segment(g: Seq<u8>) -> bool {
    is_parent_dir(g) || g.contains(58u8)
}

/// A segment that is kept in the resolved path: non-empty and neither the
/// current-directory segment nor an unsafe one.
pub open spec fn is_kept_segment(g: Seq<u8>) -> bool {
    g.len() > 0 && !is_cur_dir(g) && !is_unsafe_segment(g)
}

/// The kept segments of a segment list, in order.
pub open spec fn kept_segments(gs: Seq<Seq<u8>>) -> Seq<Seq<u8>>
    decreases gs.len(),
{
    if gs.len() == 0 {
        Seq::empty()
    } else if is_kept_segment(gs.last()) {
        kept_segments(gs.drop_last()).push(gs.last())
    } else {
        kept_segments(gs.drop_last())
    }
}

/// Whether some segment of `gs` is unsafe.
pub open spec fn has_unsafe_segment(gs: Seq<Seq<u8>>) -> bool {
    exists|i: int| 0 <= i < gs.len() && is_unsafe_segment(gs[i])
}

/// The contract of the safe path resolver: `None` when the name is absolute
/// or holds an unsafe segment, else the kept segments in order.
pub open spec fn spec_resolve_entry_name(s: Seq<u8>) -> Option<Seq<Seq<u8>>> {
    if s.len() > 0 && is_sep(s[0]) {
        None
    } else if has_unsafe_segment(split_segments(s)) {
        None
    } else {
        Some(kept_segments(split_segments(s)))
    }
}

proof fn lemma_split_nonempty(s: Seq<u8>)
    ensures
        split_segments(s).len() >= 1,
    decreases s.len(),
{
    if s.len() > 0 {
        lemma_split_nonempty(s.drop_last());
    }
}

/// A segment other than the last one never changes as the name grows, so an
/// unsafe segment already closed by a separator stays in every extension.
proof fn lemma_unsafe_persists(s: Seq<u8>, i: int, j: int)
    requires
        0 <= i <= s.len(),
        0 <= j < split_segments(s.take(i)).len() - 1,
        is_unsafe_segment(split_segments(s.take(i))[j]),
    ensures
        has_unsafe_segment(split_segments(s)),
    decreases s.len() - i,
{
    if i == s.len() {
        assert(s.take(i) =~= s);
    } else {
        assert(s.take(i + 1).drop_last() =~= s.take(i));
        let prev = split_segments(s.take(i));
        let next = split_segments(s.take(i + 1));
        lemma_split_nonempty(s.take(i));
        if is_sep(s.take(i + 1).last()) {
            assert(next == prev.push(Seq::<u8>::empty()));
            assert(next[j] == prev[j]);
        } else {
            assert(next == prev.drop_last().push(prev.last().push(s.take(i + 1).last())));
            assert(next[j] == prev.drop_last()[j]);
            assert(next[j] == prev[j]);
        }
        lemma_unsafe_persists(s, i + 1, j);
    }
}

/// No segment produced by splitting ever holds a separator byte.
proof fn lemma_split_no_sep(s: Seq<u8>)
    ensures
        forall|i: int, j: int|
            0 <= i < split_segments(s).len()
            && 0 <= j < split_segments(s)[i].len()
            ==> !is_sep(#[trigger] split_segments(s)[i][j]),
    decreases s.len(),
{
    if s.len() > 0 {
        lemma_split_no_sep(s.drop_last());
        lemma_split_nonempty(s.drop_last());
        let init = split_segments(s.drop_last());
        if !is_sep(s.last()) {
            let grown = init.last().push(s.last());
            assert(forall|j: int| 0 <= j < grown.len() - 1
                ==> #[trigger] grown[j] == init.last()[j]);
        }
    }
}

/// Every kept segment is one of the split segments, and satisfies the kept
/// predicate.
proof fn lemma_kept_are_segments(gs: Seq<Seq<u8>>)
    ensures
        forall|i: int| 0 <= i < kept_segments(gs).len()
            ==> is_kept_segment(#[trigger] kept_segments(gs)[i])
                && exists|j: int| 0 <= j < gs.len() && gs[j] == kept_segments(gs)[i],
    decreases gs.len(),
{
    if gs.len() > 0 {
        lemma_kept_are_segments(gs.drop_last());
        assert(forall|j: int| 0 <= j < gs.len() - 1
            ==> #[trigger] gs.drop_last()[j] == gs[j]);
        assert(forall|i: int| 0 <= i < kept_segments(gs.drop_last()).len()
            ==> (exists|j: int| 0 <= j < gs.len() - 1
                    && gs.drop_last()[j] == #[trigger] kept_segments(gs.drop_last())[i])
                ==> (exists|j: int| 0 <= j < gs.len()
                    && gs[j] == kept_segments(gs.drop_last())[i]));
        if is_kept_segment(gs.last()) {
            assert(gs[gs.len() - 1] == gs.last());
        }
    }
}

/// Any entry name holding a parent-directory segment, or opening with an
/// absolute-path root, is refused by the resolver.
pub proof fn lemma_resolver_rejects_escape(name: Seq<u8>)
    requires
        (name.len() > 0 && is_sep(name[0]))
        || exists|i: int| 0 <= i < split_segments(name).len()
            && is_parent_dir(#[trigger] split_segments(name)[i]),
    ensures
        spec_resolve_entry_name(name) is None,
{
}

/// Any entry name made only of safe segments (named segments without colon,
/// current-directory segments, empty segments) and no absolute root resolves
/// to a list of plain named segments: each is non-empty, is neither `.` nor
/// `..`, and holds no separator and no colon, so the joined path is a strict
/// descendant of the output root.
pub proof fn lemma_resolver_stays_inside(name: Seq<u8>)
    requires
        !(name.len() > 0 && is_sep(name[0])),
        forall|i: int| 0 <= i < split_segments(name).len()
            ==> !is_unsafe_segment(#[trigger] split_segments(name)[i]),
    ensures
        spec_resolve_entry_name(name) matches Some(segs)
            && forall|i: int| 0 <= i < segs.len() ==> {
                let g = #[trigger] segs[i];
                &&& g.len() > 0
                &&& !is_cur_dir(g)
                &&& !is_parent_dir(g)
                &&& !g.contains(58u8)
                &&& forall|j: int| 0 <= j < g.len() ==> !is_sep(#[trigger] g[j])
            },
{
    lemma_split_no_sep(name);
    lemma_kept_are_segments(split_segments(name));
}

/// Classifies one fully-assembled segment the way the resolver does:
/// whether it is unsafe, and whether it is kept.
fn classify_segment(g: &Vec<u8>) -> (r: (bool, bool))
    ensures
        r.0 == is_unsafe_segment(g@),
        r.1 == is_kept_segment(g@),
{
    let mut has_colon = false;
    let mut i: usize = 0;
    while i < g.len()
        invariant
            i <= g@.len(),
            has_colon == exists|j: int| 0 <= j < i && g@[j] == 58u8,
        decreases g@.len() - i,
    {
        if g[i] == 58u8 {
            has_colon = true;
        }
        i += 1;
    }
    assert(has_colon == g@.contains(58u8));
    let parent = g.len() == 2 && g[0] == 46 && g[1] == 46;
    assert(parent == is_parent_dir(g@)) by {
        if g@.len() == 2 && g@[0] == 46 && g@[1] == 46 {
            assert(g@ =~= seq![46u8, 46u8]);
        }
        if g@ == seq![46u8, 46u8] {
            assert(g@.len() == 2 && g@[0] == 46 && g@[1] == 46);
        }
    }
    let cur = g.len() == 1 && g[0] == 46;
    assert(cur == is_cur_dir(g@)) by {
        if g@.len() == 1 && g@[0] == 46 {
            assert(g@ =~= seq![46u8]);
        }
        if g@ == seq![46u8] {
            assert(g@.len() == 1 && g@[0] == 46);
        }
    }
    let bad = parent || has_colon;
    (bad, g.len() > 0 && !cur && !bad)
}

/// Resolves an untrusted archive entry name to the list of path segments to
/// be joined under the output root, or `None` when the name could escape it.
pub fn resolve_entry_name(name: &[u8]) -> (r: Option<Vec<Vec<u8>>>)
    ensures
        r matches Some(segs) ==> spec_resolve_entry_name(name@) matches Some(m)
            && segs.deep_view() == m,
        r is None <==> spec_resolve_entry_name(name@) is None,
{
    if name.len() > 0 && (name[0] == 47 || name[0] == 92) {
        return None;
    }
    let ghost n = name@;
    let mut kept: Vec<Vec<u8>> = Vec::new();
    let mut cur: Vec<u8> = Vec::new();
    let mut i: usize = 0;
    proof {
        assert(n.take(0) =~= Seq::<u8>::empty());
    }
    while i < name.len()
        invariant
            n == name@,
            i <= n.len(),
            !(n.len() > 0 && is_sep(n[0])),
            split_segments(n.take(i as int)).last() == cur@,
            kept.deep_view() =~~= kept_segments(split_segments(n.take(i as int)).drop_last()),
            forall|j: int| 0 <= j < split_segments(n.take(i as int)).len() - 1
                ==> !is_unsafe_segment(#[trigger] split_segments(n.take(i as int))[j]),
        decreases n.len() - i,
    {
        let ghost prev = split_segments(n.take(i as int));
        proof {
            lemma_split_nonempty(n.take(i as int));
            assert(n.take(i + 1 as int).drop_last() =~= n.take(i as int));
            assert(n.take(i + 1 as int).last() == n[i as int]);
        }
        let b = name[i];
        if b == 47 || b == 92 {
            let ghost next = split_segments(n.take(i + 1 as int));
            proof {
                assert(next == prev.push(Seq::<u8>::empty()));
            }
            let (bad, keep) = classify_segment(&cur);
            if bad {
                proof {
                    assert(next[prev.len() - 1] == cur@);
                    lemma_unsafe_persists(n, i + 1 as int, prev.len() - 1);
                }
                return None;
            }
            if keep {
                let ghost old_kept = kept.deep_view();
                kept.push(cur);
                proof {
                    assert(kept.deep_view() =~~= old_kept.push(cur@));
                    assert(next.drop_last() =~= prev);
                    assert(kept_segments(prev) == kept_segments(prev.drop_last()).push(cur@));
                }
            } else {
                proof {
                    assert(next.drop_last() =~= prev);
                    assert(kept_segments(prev) == kept_segments(prev.drop_last()));
                }
            }
            cur = Vec::new();
            proof {
                assert(forall|j: int| 0 <= j < next.len() - 1
                    ==> !is_unsafe_segment(#[trigger] next[j]));
            }
        } else {
            let ghost old_cur = cur@;
            cur.push(b);
            proof {
                let next = split_segments(n.take(i + 1 as int));
                assert(next == prev.drop_last().push(prev.last().push(n[i as int])));
                assert(next.last() == cur@);
                assert(next.drop_last() =~= prev.drop_last());
                assert(forall|j: int| 0 <= j < next.len() - 1
                    ==> #[trigger] next[j] == prev[j]);
            }
        }
        i += 1;
    }
    proof {
        assert(n.take(n.len() as int) =~= n);
        lemma_split_nonempty(n);
    }
    let (bad, keep) = classify_segment(&cur);
    let ghost full = split_segments(n);
    if bad {
        proof {
            assert(full[full.len() - 1] == cur@);
        }
        return None;
    }
    if keep {
        let ghost old_kept = kept.deep_view();
        kept.push(cur);
        proof {
            assert(kept.deep_view() =~~= old_kept.push(cur@));
            assert(kept_segments(full) == kept_segments(full.drop_last()).push(cur@));
        }
    } else {
        proof {
            assert(kept_segments(full) == kept_segments(full.drop_last()));
        }
    }
    proof {
        assert(!has_unsafe_segment(full)) by {
            assert(forall|j: int| 0 <= j < full.len() - 1
                ==> !is_unsafe_segment(#[trigger] full[j]));
            assert(full[full.len() - 1] == cur@);
        }
        assert(kept.deep_view() =~~= kept_segments(full));
    }
    Some(kept)
}

} // verus!
