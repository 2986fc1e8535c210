//! Two captures of one file system that differ in times of modification
//! only, and what a walk without an age filter makes of them.
use crate::model::{first_index_of, CandidateView, FsNode, Snapshot};
use crate::path::excluded_by;
use crate::size::{entries_size, entry_size, measured_size};
use crate::walk::{
    dir_entered, dir_flagged, entered_entries, flagged_entries, level_entered, level_found,
    matching_dirs_found, root_found, roots_found, walk_levels,
};
use vstd::prelude::*;

verus! {

/// Whether two names are both missing or the same text.
pub open spec fn same_name(a: Option<String>, b: Option<String>) -> bool {
    match (a, b) {
        (Some(x), Some(y)) => x@ == y@,
        (None, None) => true,
        _ => false,
    }
}

/// Whether two nodes are the same but for times of modification, theirs
/// and those of everything below them.
pub open spec fn retimed(a: FsNode, b: FsNode) -> bool
    decreases a,
{
    &&& a.path@ == b.path@
    &&& a.canonical@ == b.canonical@
    &&& same_name(a.name, b.name)
    &&& a.exists == b.exists
    &&& a.is_dir == b.is_dir
    &&& match (a.meta, b.meta) {
        (Some(x), Some(y)) => x.kind == y.kind && x.len == y.len,
        (None, None) => true,
        _ => false,
    }
    &&& match (a.entries, b.entries) {
        (Some(x), Some(y)) => x@.len() == y@.len() && retimed_lists(x, y, x@.len()),
        (None, None) => true,
        _ => false,
    }
}

/// Whether the first `count` entries of two listings are the same but for
/// times, one by one.
pub open spec fn retimed_lists(x: Vec<FsNode>, y: Vec<FsNode>, count: nat) -> bool
    decreases x, count,
{
    if count == 0 || count > x@.len() || count > y@.len() {
        true
    } else {
        retimed_lists(x, y, (count - 1) as nat) && retimed(x@[count - 1], y@[count - 1])
    }
}

/// Whether two rows of nodes are the same but for times, one by one.
pub open spec fn retimed_each(x: Seq<FsNode>, y: Seq<FsNode>) -> bool {
    x.len() == y.len() && forall|i: int| 0 <= i < x.len() ==> retimed(#[trigger] x[i], y[i])
}

/// Whether two rows of directories are the same but for times, one by one.
pub open spec fn retimed_dirs(x: Seq<&FsNode>, y: Seq<&FsNode>) -> bool {
    x.len() == y.len() && forall|i: int| 0 <= i < x.len() ==> retimed(*#[trigger] x[i], *y[i])
}

/// Whether two captures hold nodes that are the same but for times, one by
/// one. When they were taken plays no part.
pub open spec fn retimed_snapshots(a: &Snapshot, b: &Snapshot) -> bool {
    retimed_each(a.nodes@, b.nodes@)
}

/// Whether two candidates agree in all but the time of last use.
pub open spec fn same_find(a: CandidateView, b: CandidateView) -> bool {
    &&& a.path == b.path
    &&& a.canonical == b.canonical
    &&& a.size_bytes == b.size_bytes
    &&& a.category == b.category
    &&& a.reason == b.reason
}

/// Whether two lists of candidates agree, one by one, in all but the times
/// of last use.
pub open spec fn same_finds(x: Seq<CandidateView>, y: Seq<CandidateView>) -> bool {
    x.len() == y.len() && forall|i: int| 0 <= i < x.len() ==> same_find(#[trigger] x[i], y[i])
}

proof fn lists_agree_each(x: Vec<FsNode>, y: Vec<FsNode>, count: nat, i: int)
    requires
        retimed_lists(x, y, count),
        0 <= i < count <= x@.len(),
        count <= y@.len(),
    ensures
        retimed(x@[i], y@[i]),
    decreases count,
{
    if i < count - 1 {
        lists_agree_each(x, y, (count - 1) as nat, i);
    }
}

proof fn entry_size_agrees(a: FsNode, b: FsNode)
    requires
        retimed(a, b),
    ensures
        entry_size(a) == entry_size(b),
        measured_size(a) == measured_size(b),
    decreases a,
{
    match (a.entries, b.entries) {
        (Some(x), Some(y)) => {
            entries_size_agrees(x, y, x@.len());
        },
        _ => {},
    }
}

proof fn entries_size_agrees(x: Vec<FsNode>, y: Vec<FsNode>, count: nat)
    requires
        retimed_lists(x, y, count),
        count <= x@.len(),
        count <= y@.len(),
    ensures
        entries_size(x, count) == entries_size(y, count),
    decreases x, count,
{
    if count > 0 {
        entries_size_agrees(x, y, (count - 1) as nat);
        entry_size_agrees(x@[count - 1], y@[count - 1]);
    }
}

proof fn finds_agree_joined(
    a1: Seq<CandidateView>,
    a2: Seq<CandidateView>,
    b1: Seq<CandidateView>,
    b2: Seq<CandidateView>,
)
    requires
        same_finds(a1, b1),
        same_finds(a2, b2),
    ensures
        same_finds(a1 + a2, b1 + b2),
{
    assert forall|i: int| 0 <= i < (a1 + a2).len() implies same_find(
        #[trigger] (a1 + a2)[i],
        (b1 + b2)[i],
    ) by {
        if i < a1.len() {
            assert(same_find(a1[i], b1[i]));
        } else {
            assert(same_find(a2[i - a1.len()], b2[i - a1.len()]));
        }
    }
}

proof fn dirs_agree_joined(a1: Seq<&FsNode>, a2: Seq<&FsNode>, b1: Seq<&FsNode>, b2: Seq<&FsNode>)
    requires
        retimed_dirs(a1, b1),
        retimed_dirs(a2, b2),
    ensures
        retimed_dirs(a1 + a2, b1 + b2),
{
    assert forall|i: int| 0 <= i < (a1 + a2).len() implies retimed(
        *#[trigger] (a1 + a2)[i],
        *(b1 + b2)[i],
    ) by {
        if i < a1.len() {
            assert(retimed(*a1[i], *b1[i]));
        } else {
            assert(retimed(*a2[i - a1.len()], *b2[i - a1.len()]));
        }
    }
}

proof fn flagged_entries_agree(
    x: Seq<FsNode>,
    y: Seq<FsNode>,
    count: nat,
    category: Seq<char>,
    base_reason: Seq<char>,
    excludes: Seq<String>,
)
    requires
        retimed_each(x, y),
        count <= x.len(),
    ensures
        same_finds(
            flagged_entries(x, count, category, base_reason, None, excludes),
            flagged_entries(y, count, category, base_reason, None, excludes),
        ),
    decreases count,
{
    if count > 0 {
        flagged_entries_agree(x, y, (count - 1) as nat, category, base_reason, excludes);
        assert(retimed(x[count - 1], y[count - 1]));
        entry_size_agrees(x[count - 1], y[count - 1]);
    }
}

proof fn entered_entries_agree(
    x: &Vec<FsNode>,
    y: &Vec<FsNode>,
    count: nat,
    base_reason: Seq<char>,
    excludes: Seq<String>,
)
    requires
        retimed_each(x@, y@),
        count <= x@.len(),
    ensures
        retimed_dirs(
            entered_entries(x, count, base_reason, None, excludes),
            entered_entries(y, count, base_reason, None, excludes),
        ),
    decreases count,
{
    if count > 0 {
        entered_entries_agree(x, y, (count - 1) as nat, base_reason, excludes);
        assert(retimed(x@[count - 1], y@[count - 1]));
    }
}

proof fn dirs_agree(
    a: &FsNode,
    b: &FsNode,
    category: Seq<char>,
    base_reason: Seq<char>,
    excludes: Seq<String>,
)
    requires
        retimed(*a, *b),
    ensures
        same_finds(
            dir_flagged(a, category, base_reason, None, excludes),
            dir_flagged(b, category, base_reason, None, excludes),
        ),
        retimed_dirs(
            dir_entered(a, base_reason, None, excludes),
            dir_entered(b, base_reason, None, excludes),
        ),
{
    match (a.entries, b.entries) {
        (Some(x), Some(y)) => {
            assert forall|i: int| 0 <= i < x@.len() implies retimed(#[trigger] x@[i], y@[i]) by {
                lists_agree_each(x, y, x@.len(), i);
            }
            flagged_entries_agree(x@, y@, x@.len(), category, base_reason, excludes);
            entered_entries_agree(&x, &y, x@.len(), base_reason, excludes);
        },
        _ => {},
    }
}

proof fn levels_agree(
    fa: Seq<&FsNode>,
    fb: Seq<&FsNode>,
    count: nat,
    category: Seq<char>,
    base_reason: Seq<char>,
    excludes: Seq<String>,
)
    requires
        retimed_dirs(fa, fb),
        count <= fa.len(),
    ensures
        same_finds(
            level_found(fa, count, category, base_reason, None, excludes),
            level_found(fb, count, category, base_reason, None, excludes),
        ),
        retimed_dirs(
            level_entered(fa, count, base_reason, None, excludes),
            level_entered(fb, count, base_reason, None, excludes),
        ),
    decreases count,
{
    if count > 0 {
        levels_agree(fa, fb, (count - 1) as nat, category, base_reason, excludes);
        assert(retimed(*fa[count - 1], *fb[count - 1]));
        dirs_agree(fa[count - 1], fb[count - 1], category, base_reason, excludes);
        finds_agree_joined(
            level_found(fa, (count - 1) as nat, category, base_reason, None, excludes),
            dir_flagged(fa[count - 1], category, base_reason, None, excludes),
            level_found(fb, (count - 1) as nat, category, base_reason, None, excludes),
            dir_flagged(fb[count - 1], category, base_reason, None, excludes),
        );
        dirs_agree_joined(
            level_entered(fa, (count - 1) as nat, base_reason, None, excludes),
            dir_entered(fa[count - 1], base_reason, None, excludes),
            level_entered(fb, (count - 1) as nat, base_reason, None, excludes),
            dir_entered(fb[count - 1], base_reason, None, excludes),
        );
    }
}

proof fn walks_agree_from(
    fa: Seq<&FsNode>,
    fb: Seq<&FsNode>,
    depth: nat,
    max_depth: nat,
    category: Seq<char>,
    base_reason: Seq<char>,
    excludes: Seq<String>,
)
    requires
        retimed_dirs(fa, fb),
    ensures
        same_finds(
            walk_levels(fa, depth, max_depth, category, base_reason, None, excludes),
            walk_levels(fb, depth, max_depth, category, base_reason, None, excludes),
        ),
    decreases max_depth - depth,
{
    levels_agree(fa, fb, fa.len(), category, base_reason, excludes);
    if depth < max_depth {
        let na = level_entered(fa, fa.len(), base_reason, None, excludes);
        let nb = level_entered(fb, fb.len(), base_reason, None, excludes);
        walks_agree_from(na, nb, depth + 1, max_depth, category, base_reason, excludes);
        finds_agree_joined(
            level_found(fa, fa.len(), category, base_reason, None, excludes),
            walk_levels(na, depth + 1, max_depth, category, base_reason, None, excludes),
            level_found(fb, fb.len(), category, base_reason, None, excludes),
            walk_levels(nb, depth + 1, max_depth, category, base_reason, None, excludes),
        );
    }
}

/// Of two trees that are the same but for times, a walk without an age
/// filter finds the same, in the same order.
pub proof fn walk_of_a_root_ignores_times(
    a: &FsNode,
    b: &FsNode,
    max_depth: nat,
    category: Seq<char>,
    base_reason: Seq<char>,
    excludes: Seq<String>,
)
    requires
        retimed(*a, *b),
    ensures
        same_finds(
            root_found(a, max_depth, category, base_reason, None, excludes),
            root_found(b, max_depth, category, base_reason, None, excludes),
        ),
{
    if !(excluded_by(a.canonical@, excludes) || !a.is_dir) {
        assert(retimed_dirs(seq![a], seq![b]));
        walks_agree_from(seq![a], seq![b], 0, max_depth, category, base_reason, excludes);
    }
}

proof fn lookups_agree(x: Seq<FsNode>, y: Seq<FsNode>, path: Seq<char>)
    requires
        retimed_each(x, y),
    ensures
        first_index_of(x, path) == first_index_of(y, path),
        0 <= first_index_of(x, path) <= x.len(),
    decreases x.len(),
{
    if x.len() > 0 {
        assert(retimed(x[0], y[0]));
        if x[0].path@ != path {
            assert forall|i: int| 0 <= i < x.drop_first().len() implies retimed(
                #[trigger] x.drop_first()[i],
                y.drop_first()[i],
            ) by {
                assert(retimed(x[i + 1], y[i + 1]));
            }
            lookups_agree(x.drop_first(), y.drop_first(), path);
        }
    }
}

proof fn roots_agree(
    roots: Seq<String>,
    count: nat,
    a: &Snapshot,
    b: &Snapshot,
    max_depth: nat,
    category: Seq<char>,
    base_reason: Seq<char>,
    excludes: Seq<String>,
)
    requires
        retimed_snapshots(a, b),
        count <= roots.len(),
    ensures
        same_finds(
            roots_found(roots, count, a, max_depth, category, base_reason, None, excludes),
            roots_found(roots, count, b, max_depth, category, base_reason, None, excludes),
        ),
    decreases count,
{
    if count > 0 {
        roots_agree(roots, (count - 1) as nat, a, b, max_depth, category, base_reason, excludes);
        let path = roots[count - 1]@;
        lookups_agree(a.nodes@, b.nodes@, path);
        if a.holds(path) {
            assert(retimed(a.node_at(path), b.node_at(path)));
            walk_of_a_root_ignores_times(
                &a.node_at(path),
                &b.node_at(path),
                max_depth,
                category,
                base_reason,
                excludes,
            );
            finds_agree_joined(
                roots_found(
                    roots,
                    (count - 1) as nat,
                    a,
                    max_depth,
                    category,
                    base_reason,
                    None,
                    excludes,
                ),
                root_found(&a.node_at(path), max_depth, category, base_reason, None, excludes),
                roots_found(
                    roots,
                    (count - 1) as nat,
                    b,
                    max_depth,
                    category,
                    base_reason,
                    None,
                    excludes,
                ),
                root_found(&b.node_at(path), max_depth, category, base_reason, None, excludes),
            );
        }
    }
}

/// Age: with a minimum age of 0 days the walk of the project trees finds
/// the same in two captures that differ in times of modification only:
/// the same paths, sizes, categories and reasons in the same order. Age
/// never filters then; only the times of last use may differ.
pub proof fn walk_without_age_filter_ignores_times(
    roots: Seq<String>,
    a: &Snapshot,
    b: &Snapshot,
    category: Seq<char>,
    base_reason: Seq<char>,
    max_depth: u32,
    excludes: Seq<String>,
)
    requires
        retimed_snapshots(a, b),
    ensures
        same_finds(
            matching_dirs_found(roots, a, category, base_reason, 0, max_depth, excludes),
            matching_dirs_found(roots, b, category, base_reason, 0, max_depth, excludes),
        ),
{
    roots_agree(
        roots,
        roots.len(),
        a,
        b,
        max_depth as nat,
        category,
        base_reason,
        excludes,
    );
}

} // verus!
