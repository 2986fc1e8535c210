//! The walk through project trees, breadth first.
use crate::classify::{
    age_cutoff, classification, classify_project_dir, cutoff_for, name_in, project_pattern_names,
    project_patterns, skip_dir_names, skip_dirs,
};
use crate::discover::{
    accepts_part, accepts_progress, all_clean, candidate_of, never_stops, pollable, report, told,
    views_push, was_told,
};
use crate::model::{Candidate, CandidateView, FsNode, NodeKind, Snapshot, candidate_views};
use crate::path::{excluded_by, is_excluded};
use crate::size::{calculate_size, capped, measured_size};
use crate::text::texts;
use std::collections::VecDeque;
use vstd::prelude::*;

verus! {

/// Whether a walk that skips the names `skip` looks at a listed entry at
/// all: it is a directory itself (no link), not excluded, has a name that
/// is text, and that name is not one of those that are skipped.
pub open spec fn walkable_with(entry: FsNode, excludes: Seq<String>, skip: Seq<Seq<char>>) -> bool {
    &&& entry.meta is Some
    &&& entry.meta->0.kind == NodeKind::Directory
    &&& !excluded_by(entry.canonical@, excludes)
    &&& entry.name is Some
    &&& !skip.contains(entry.name->0@)
}

/// Whether a walk looks at a listed entry at all; see [`walkable_with`].
pub open spec fn walkable(entry: FsNode, excludes: Seq<String>) -> bool {
    walkable_with(entry, excludes, skip_dir_names())
}

/// Why a walkable entry is flagged, if it is, where `patterns` are the
/// names that mark project artifacts.
pub open spec fn reason_with(
    entry: FsNode,
    base_reason: Seq<char>,
    cutoff: Option<i128>,
    patterns: Seq<Seq<char>>,
) -> Option<Seq<char>> {
    classification(entry.name->0@, base_reason, patterns, cutoff, entry.meta->0.modified)
}

/// Why a walkable entry is flagged, if it is.
pub open spec fn entry_reason(entry: FsNode, base_reason: Seq<char>, cutoff: Option<i128>) -> Option<
    Seq<char>,
> {
    reason_with(entry, base_reason, cutoff, project_pattern_names())
}

/// Whether the walk enters an entry: it is walkable and not flagged.
pub open spec fn entered(
    entry: FsNode,
    base_reason: Seq<char>,
    cutoff: Option<i128>,
    excludes: Seq<String>,
) -> bool {
    walkable(entry, excludes) && entry_reason(entry, base_reason, cutoff) is None
}

/// Whether an entry becomes a candidate: it is walkable, flagged, and holds
/// any bytes.
pub open spec fn flagged(
    entry: FsNode,
    base_reason: Seq<char>,
    cutoff: Option<i128>,
    excludes: Seq<String>,
) -> bool {
    walkable(entry, excludes) && entry_reason(entry, base_reason, cutoff) is Some && capped(
        measured_size(entry),
    ) > 0
}

/// The candidates among the first `count` entries of a listing, in listing
/// order.
pub open spec fn flagged_entries(
    list: Seq<FsNode>,
    count: nat,
    category: Seq<char>,
    base_reason: Seq<char>,
    cutoff: Option<i128>,
    excludes: Seq<String>,
) -> Seq<CandidateView>
    decreases count,
{
    if count == 0 || count > list.len() {
        Seq::empty()
    } else {
        let head = flagged_entries(
            list,
            (count - 1) as nat,
            category,
            base_reason,
            cutoff,
            excludes,
        );
        let entry = list[count - 1];
        if flagged(entry, base_reason, cutoff, excludes) {
            head.push(
                candidate_of(
                    entry,
                    category,
                    entry_reason(entry, base_reason, cutoff)->0,
                    entry.meta->0.modified,
                ),
            )
        } else {
            head
        }
    }
}

/// The directories among the first `count` entries of a listing that the
/// walk enters, in listing order.
pub open spec fn entered_entries(
    list: &Vec<FsNode>,
    count: nat,
    base_reason: Seq<char>,
    cutoff: Option<i128>,
    excludes: Seq<String>,
) -> Seq<&FsNode>
    decreases count,
{
    if count == 0 || count > list@.len() {
        Seq::empty()
    } else {
        let head = entered_entries(list, (count - 1) as nat, base_reason, cutoff, excludes);
        if entered(list@[count - 1], base_reason, cutoff, excludes) {
            head.push(&list@[count - 1])
        } else {
            head
        }
    }
}

/// The candidates that a visit to `dir` yields: the flagged ones among its
/// entries, none where it cannot be listed.
pub open spec fn dir_flagged(
    dir: &FsNode,
    category: Seq<char>,
    base_reason: Seq<char>,
    cutoff: Option<i128>,
    excludes: Seq<String>,
) -> Seq<CandidateView> {
    match dir.entries {
        Some(list) => flagged_entries(list@, list@.len(), category, base_reason, cutoff, excludes),
        None => Seq::empty(),
    }
}

/// The directories one level below `dir` that the walk enters.
pub open spec fn dir_entered(
    dir: &FsNode,
    base_reason: Seq<char>,
    cutoff: Option<i128>,
    excludes: Seq<String>,
) -> Seq<&FsNode> {
    match dir.entries {
        Some(list) => entered_entries(&list, list@.len(), base_reason, cutoff, excludes),
        None => Seq::empty(),
    }
}

/// The candidates found in the first `count` directories of one level.
pub open spec fn level_found(
    frontier: Seq<&FsNode>,
    count: nat,
    category: Seq<char>,
    base_reason: Seq<char>,
    cutoff: Option<i128>,
    excludes: Seq<String>,
) -> Seq<CandidateView>
    decreases count,
{
    if count == 0 || count > frontier.len() {
        Seq::empty()
    } else {
        level_found(frontier, (count - 1) as nat, category, base_reason, cutoff, excludes)
            + dir_flagged(frontier[count - 1], category, base_reason, cutoff, excludes)
    }
}

/// The directories of the next level that are reached from the first
/// `count` directories of this one.
pub open spec fn level_entered(
    frontier: Seq<&FsNode>,
    count: nat,
    base_reason: Seq<char>,
    cutoff: Option<i128>,
    excludes: Seq<String>,
) -> Seq<&FsNode>
    decreases count,
{
    if count == 0 || count > frontier.len() {
        Seq::empty()
    } else {
        level_entered(frontier, (count - 1) as nat, base_reason, cutoff, excludes) + dir_entered(
            frontier[count - 1],
            base_reason,
            cutoff,
            excludes,
        )
    }
}

/// What a breadth-first walk finds from the directories `frontier` of level
/// `depth` on: the candidates of this level, then those of the levels
/// below, down to level `max_depth`.
pub open spec fn walk_levels(
    frontier: Seq<&FsNode>,
    depth: nat,
    max_depth: nat,
    category: Seq<char>,
    base_reason: Seq<char>,
    cutoff: Option<i128>,
    excludes: Seq<String>,
) -> Seq<CandidateView>
    decreases max_depth - depth,
{
    let here = level_found(frontier, frontier.len(), category, base_reason, cutoff, excludes);
    if depth < max_depth {
        here + walk_levels(
            level_entered(frontier, frontier.len(), base_reason, cutoff, excludes),
            depth + 1,
            max_depth,
            category,
            base_reason,
            cutoff,
            excludes,
        )
    } else {
        here
    }
}

/// What the walk of one root finds: nothing where the root is excluded or
/// no directory, otherwise everything from level 0, the root itself, down.
pub open spec fn root_found(
    root: &FsNode,
    max_depth: nat,
    category: Seq<char>,
    base_reason: Seq<char>,
    cutoff: Option<i128>,
    excludes: Seq<String>,
) -> Seq<CandidateView> {
    if excluded_by(root.canonical@, excludes) || !root.is_dir {
        Seq::empty()
    } else {
        walk_levels(seq![root], 0, max_depth, category, base_reason, cutoff, excludes)
    }
}

/// What the walks of the first `count` roots find, root after root. A root
/// that was not captured counts as missing.
pub open spec fn roots_found(
    roots: Seq<String>,
    count: nat,
    fs: &Snapshot,
    max_depth: nat,
    category: Seq<char>,
    base_reason: Seq<char>,
    cutoff: Option<i128>,
    excludes: Seq<String>,
) -> Seq<CandidateView>
    decreases count,
{
    if count == 0 || count > roots.len() {
        Seq::empty()
    } else {
        let head = roots_found(
            roots,
            (count - 1) as nat,
            fs,
            max_depth,
            category,
            base_reason,
            cutoff,
            excludes,
        );
        if fs.holds(roots[count - 1]@) {
            head + root_found(
                &fs.node_at(roots[count - 1]@),
                max_depth,
                category,
                base_reason,
                cutoff,
                excludes,
            )
        } else {
            head
        }
    }
}

/// The paths of the first `count` directories of one level.
pub open spec fn level_told(frontier: Seq<&FsNode>, count: nat) -> Set<Seq<char>>
    decreases count,
{
    if count == 0 || count > frontier.len() {
        Set::empty()
    } else {
        level_told(frontier, (count - 1) as nat).insert(frontier[count - 1].path@)
    }
}

/// The paths that a walk reports from the directories `frontier` of level
/// `depth` on: those of the directories that it visits, down to level
/// `max_depth`.
pub open spec fn walk_told(
    frontier: Seq<&FsNode>,
    depth: nat,
    max_depth: nat,
    base_reason: Seq<char>,
    cutoff: Option<i128>,
    excludes: Seq<String>,
) -> Set<Seq<char>>
    decreases max_depth - depth,
{
    let here = level_told(frontier, frontier.len());
    if depth < max_depth {
        here.union(
            walk_told(
                level_entered(frontier, frontier.len(), base_reason, cutoff, excludes),
                depth + 1,
                max_depth,
                base_reason,
                cutoff,
                excludes,
            ),
        )
    } else {
        here
    }
}

/// The paths that the walk of one root reports: none where the root is
/// excluded or no directory, otherwise the root and every directory that
/// the walk enters.
pub open spec fn root_told(
    root: &FsNode,
    max_depth: nat,
    base_reason: Seq<char>,
    cutoff: Option<i128>,
    excludes: Seq<String>,
) -> Set<Seq<char>> {
    if excluded_by(root.canonical@, excludes) || !root.is_dir {
        Set::empty()
    } else {
        walk_told(seq![root], 0, max_depth, base_reason, cutoff, excludes)
    }
}

/// The paths that the walks of the first `count` roots report.
pub open spec fn roots_told(
    roots: Seq<String>,
    count: nat,
    fs: &Snapshot,
    max_depth: nat,
    base_reason: Seq<char>,
    cutoff: Option<i128>,
    excludes: Seq<String>,
) -> Set<Seq<char>>
    decreases count,
{
    if count == 0 || count > roots.len() {
        Set::empty()
    } else {
        let head = roots_told(roots, (count - 1) as nat, fs, max_depth, base_reason, cutoff, excludes);
        if fs.holds(roots[count - 1]@) {
            head.union(
                root_told(&fs.node_at(roots[count - 1]@), max_depth, base_reason, cutoff, excludes),
            )
        } else {
            head
        }
    }
}

/// The paths that the walk of all `roots` reports.
pub open spec fn matching_dirs_told(
    roots: Seq<String>,
    fs: &Snapshot,
    base_reason: Seq<char>,
    min_age_days: u64,
    max_depth: u32,
    excludes: Seq<String>,
) -> Set<Seq<char>> {
    roots_told(
        roots,
        roots.len(),
        fs,
        max_depth as nat,
        base_reason,
        cutoff_for(fs.taken_at, min_age_days),
        excludes,
    )
}

/// Each directory of a level is among those that the level reports.
pub proof fn level_told_holds(frontier: Seq<&FsNode>, i: int, count: nat)
    requires
        0 <= i < count <= frontier.len(),
    ensures
        level_told(frontier, count).contains(frontier[i].path@),
    decreases count,
{
    if i < count - 1 {
        level_told_holds(frontier, i, (count - 1) as nat);
    }
}

/// What the walk of one root reports is part of what the walks of all
/// roots report.
pub proof fn roots_told_holds(
    roots: Seq<String>,
    i: int,
    count: nat,
    fs: &Snapshot,
    max_depth: nat,
    base_reason: Seq<char>,
    cutoff: Option<i128>,
    excludes: Seq<String>,
)
    requires
        0 <= i < count <= roots.len(),
        fs.holds(roots[i]@),
    ensures
        root_told(&fs.node_at(roots[i]@), max_depth, base_reason, cutoff, excludes).subset_of(
            roots_told(roots, count, fs, max_depth, base_reason, cutoff, excludes),
        ),
    decreases count,
{
    if i < count - 1 {
        roots_told_holds(roots, i, (count - 1) as nat, fs, max_depth, base_reason, cutoff, excludes);
    }
}

/// A walk that starts from no directory reports nothing.
proof fn walk_told_of_nothing(
    depth: nat,
    max_depth: nat,
    base_reason: Seq<char>,
    cutoff: Option<i128>,
    excludes: Seq<String>,
)
    ensures
        walk_told(Seq::empty(), depth, max_depth, base_reason, cutoff, excludes) =~= Set::<
            Seq<char>,
        >::empty(),
    decreases max_depth - depth,
{
    let none = Seq::<&FsNode>::empty();
    assert(level_entered(none, 0, base_reason, cutoff, excludes) == none);
    if depth < max_depth {
        walk_told_of_nothing(depth + 1, max_depth, base_reason, cutoff, excludes);
    }
}

/// Whether the age filter was honoured: every candidate is flagged for
/// the base reason alone (the mark of `__pycache__`), or has no known time
/// of modification, or was modified before the cutoff.
pub open spec fn all_aged(
    found: Seq<CandidateView>,
    base_reason: Seq<char>,
    cutoff: Option<i128>,
) -> bool {
    forall|i: int|
        0 <= i < found.len() ==> {
            ||| (#[trigger] found[i]).reason == base_reason
            ||| cutoff is None
            ||| found[i].last_used is None
            ||| found[i].last_used->0 < cutoff->0
        }
}

/// What a walk does with a listed entry.
#[derive(Debug)]
pub enum Verdict {
    /// The walk passes over it.
    Skip,
    /// It becomes a candidate, for the reason given, if it holds any bytes;
    /// the walk does not enter it.
    Flag(String),
    /// The walk enters it on the next level.
    Enter,
}

/// Decides what a walk does with a listed entry, given the names that mark
/// project artifacts and those that are skipped. Only the entry itself is
/// looked at, not what is below it.
pub fn examine(
    entry: &FsNode,
    base_reason: &str,
    patterns: &Vec<String>,
    skip: &Vec<String>,
    cutoff: Option<i128>,
    excludes: &Vec<String>,
) -> (verdict: Verdict)
    ensures
        match verdict {
            Verdict::Skip => !walkable_with(*entry, excludes@, texts(skip@)),
            Verdict::Flag(text) => walkable_with(*entry, excludes@, texts(skip@)) && reason_with(
                *entry,
                base_reason@,
                cutoff,
                texts(patterns@),
            ) == Some(text@) && (text@ == base_reason@ || cutoff is None || entry.meta->0.modified
                is None || entry.meta->0.modified->0 < cutoff->0),
            Verdict::Enter => walkable_with(*entry, excludes@, texts(skip@)) && reason_with(
                *entry,
                base_reason@,
                cutoff,
                texts(patterns@),
            ) is None,
        },
{
    let meta = match entry.meta {
        Some(meta) => meta,
        None => {
            return Verdict::Skip;
        },
    };
    match meta.kind {
        NodeKind::Directory => {},
        _ => {
            return Verdict::Skip;
        },
    }
    if is_excluded(entry.canonical.as_str(), excludes) {
        return Verdict::Skip;
    }
    let name = match &entry.name {
        Some(name) => name,
        None => {
            return Verdict::Skip;
        },
    };
    if name_in(name.as_str(), skip) {
        return Verdict::Skip;
    }
    match classify_project_dir(name.as_str(), base_reason, patterns, cutoff, meta.modified) {
        Some(text) => Verdict::Flag(text),
        None => Verdict::Enter,
    }
}

/// How much of a listed entry a capture for a walk has to read.
#[derive(Clone, Copy, Debug, PartialEq, Eq, Structural)]
pub enum CaptureNeed {
    /// The entry itself is enough.
    Nothing,
    /// Everything below it, to measure it.
    Tree,
    /// Its listing, to walk on.
    Listing,
}

/// What a walk needs of an entry with the given verdict that is listed by
/// a directory on level `depth`: all of a flagged one, the listing of one
/// that is entered while the limit is not reached, and no more than itself
/// of any other.
pub open spec fn need_for(verdict: Verdict, depth: u32, max_depth: u32) -> CaptureNeed {
    match verdict {
        Verdict::Skip => CaptureNeed::Nothing,
        Verdict::Flag(_) => CaptureNeed::Tree,
        Verdict::Enter => if depth < max_depth {
            CaptureNeed::Listing
        } else {
            CaptureNeed::Nothing
        },
    }
}

/// Says how much of an entry a capture has to read; see [`need_for`].
pub fn capture_need(verdict: &Verdict, depth: u32, max_depth: u32) -> (need: CaptureNeed)
    ensures
        need == need_for(*verdict, depth, max_depth),
{
    match verdict {
        Verdict::Skip => CaptureNeed::Nothing,
        Verdict::Flag(_) => CaptureNeed::Tree,
        Verdict::Enter => if depth < max_depth {
            CaptureNeed::Listing
        } else {
            CaptureNeed::Nothing
        },
    }
}

/// A row of directories, each with the level that it lies on.
pub open spec fn tagged(dirs: Seq<&FsNode>, depth: u32) -> Seq<(&FsNode, u32)> {
    Seq::new(dirs.len(), |i: int| (dirs[i], depth))
}

/// Visits one directory of level `depth` unless the stop signal, asked
/// first, says stop: flags the stale entries, and queues the others for
/// the next level while the limit is not reached. Says whether the signal
/// said stop; nothing was done then.
fn scan_dir<'a, C: Fn() -> bool, F: Fn(&str) -> ()>(
    dir: &'a FsNode,
    depth: u32,
    max_depth: u32,
    category: &str,
    base_reason: &str,
    patterns: &Vec<String>,
    skip: &Vec<String>,
    cutoff: Option<i128>,
    excludes: &Vec<String>,
    cancelled: &C,
    sink: &F,
    found: &mut Vec<Candidate>,
    queue: &mut VecDeque<(&'a FsNode, u32)>,
) -> (stopped: bool)
    requires
        texts(patterns@) == project_pattern_names(),
        texts(skip@) == skip_dir_names(),
        pollable(cancelled),
        accepts_progress(sink, set![dir.path@]),
        all_clean(candidate_views(old(found)@), excludes@),
        all_aged(candidate_views(old(found)@), base_reason@, cutoff),
    ensures
        stopped ==> !never_stops(cancelled),
        stopped ==> candidate_views(final(found)@) == candidate_views(old(found)@) && final(queue)@
            == old(queue)@,
        !stopped ==> was_told(sink, dir.path@),
        !stopped ==> candidate_views(final(found)@) == candidate_views(old(found)@) + dir_flagged(
            dir,
            category@,
            base_reason@,
            cutoff,
            excludes@,
        ),
        !stopped && depth < max_depth ==> final(queue)@ == old(queue)@ + tagged(
            dir_entered(dir, base_reason@, cutoff, excludes@),
            (depth + 1) as u32,
        ),
        !stopped && depth >= max_depth ==> final(queue)@ == old(queue)@,
        all_clean(candidate_views(final(found)@), excludes@),
        all_aged(candidate_views(final(found)@), base_reason@, cutoff),
{
    if cancelled() {
        return true;
    }
    report(sink, dir.path.as_str());
    let descend = depth < max_depth;
    let ghost found_before = candidate_views(found@);
    let ghost queue_before = queue@;
    let ghost below: u32 = if descend {
        (depth + 1) as u32
    } else {
        depth
    };
    let list = match &dir.entries {
        Some(list) => list,
        None => {
            assert(candidate_views(found@) =~= found_before + Seq::empty());
            assert(queue@ =~= queue_before + tagged(Seq::empty(), below));
            return false;
        },
    };
    let mut i: usize = 0;
    assert(candidate_views(found@) =~= found_before + Seq::empty());
    assert(queue@ =~= queue_before + tagged(Seq::empty(), below));
    while i < list.len()
        invariant
            i <= list@.len(),
            dir.entries == Some(*list),
            descend == (depth < max_depth),
            descend ==> below == depth + 1,
            texts(patterns@) == project_pattern_names(),
            texts(skip@) == skip_dir_names(),
            candidate_views(found@) == found_before + flagged_entries(
                list@,
                i as nat,
                category@,
                base_reason@,
                cutoff,
                excludes@,
            ),
            descend ==> queue@ == queue_before + tagged(
                entered_entries(list, i as nat, base_reason@, cutoff, excludes@),
                below,
            ),
            !descend ==> queue@ == queue_before,
            all_clean(candidate_views(found@), excludes@),
            all_aged(candidate_views(found@), base_reason@, cutoff),
        decreases list@.len() - i,
    {
        let entry = &list[i];
        let ghost flagged_so_far = flagged_entries(
            list@,
            i as nat,
            category@,
            base_reason@,
            cutoff,
            excludes@,
        );
        let ghost entered_so_far = entered_entries(
            list,
            i as nat,
            base_reason@,
            cutoff,
            excludes@,
        );
        match examine(entry, base_reason, patterns, skip, cutoff, excludes) {
            Verdict::Skip => {},
            Verdict::Flag(text) => {
                let size = calculate_size(entry);
                if size > 0 {
                    let candidate = Candidate {
                        path: entry.path.clone(),
                        canonical: entry.canonical.clone(),
                        size_bytes: size,
                        category: crate::text::owned(category),
                        reason: text,
                        last_used: match entry.meta {
                            Some(meta) => meta.modified,
                            None => None,
                        },
                    };
                    proof {
                        views_push(found@, candidate);
                        assert(candidate@ == candidate_of(
                            *entry,
                            category@,
                            entry_reason(*entry, base_reason@, cutoff)->0,
                            entry.meta->0.modified,
                        ));
                        assert((found_before + flagged_so_far).push(candidate@) =~= found_before
                            + flagged_so_far.push(candidate@));
                    }
                    found.push(candidate);
                }
            },
            Verdict::Enter => {
                if descend {
                    queue.push_back((entry, depth + 1));
                    assert((queue_before + tagged(entered_so_far, below)).push((entry, below))
                        =~= queue_before + tagged(entered_so_far.push(entry), below));
                }
            },
        }
        i += 1;
    }
    false
}

/// A walk that starts from no directory finds nothing.
proof fn walk_of_nothing(
    depth: nat,
    max_depth: nat,
    category: Seq<char>,
    base_reason: Seq<char>,
    cutoff: Option<i128>,
    excludes: Seq<String>,
)
    ensures
        walk_levels(
            Seq::empty(),
            depth,
            max_depth,
            category,
            base_reason,
            cutoff,
            excludes,
        ) == Seq::<CandidateView>::empty(),
    decreases max_depth - depth,
{
    let none = Seq::<&FsNode>::empty();
    assert(level_entered(none, 0, base_reason, cutoff, excludes) == none);
    if depth < max_depth {
        walk_of_nothing(depth + 1, max_depth, category, base_reason, cutoff, excludes);
    }
}

/// The queue of a walk that has visited the first `done` directories of
/// the level `frontier`: the rest of that level, then what was entered
/// from the visited ones, which lies one level further down.
pub open spec fn queue_at(
    frontier: Seq<&FsNode>,
    done: nat,
    depth: u32,
    max_depth: u32,
    base_reason: Seq<char>,
    cutoff: Option<i128>,
    excludes: Seq<String>,
) -> Seq<(&FsNode, u32)> {
    if depth < max_depth {
        tagged(frontier.skip(done as int), depth) + tagged(
            level_entered(frontier, done, base_reason, cutoff, excludes),
            (depth + 1) as u32,
        )
    } else {
        tagged(frontier.skip(done as int), depth)
    }
}

/// Walks the tree below one root breadth first, with one queue, until the
/// stop signal says stop; see [`root_found`].
fn walk_root<C: Fn() -> bool, F: Fn(&str) -> ()>(
    root: &FsNode,
    max_depth: u32,
    category: &str,
    base_reason: &str,
    patterns: &Vec<String>,
    skip: &Vec<String>,
    cutoff: Option<i128>,
    excludes: &Vec<String>,
    cancelled: &C,
    sink: &F,
    found: &mut Vec<Candidate>,
) -> (stopped: bool)
    requires
        texts(patterns@) == project_pattern_names(),
        texts(skip@) == skip_dir_names(),
        pollable(cancelled),
        accepts_progress(sink, root_told(root, max_depth as nat, base_reason@, cutoff, excludes@)),
        all_clean(candidate_views(old(found)@), excludes@),
        all_aged(candidate_views(old(found)@), base_reason@, cutoff),
    ensures
        !stopped ==> told(sink, root_told(root, max_depth as nat, base_reason@, cutoff, excludes@)),
        stopped ==> !never_stops(cancelled),
        !stopped ==> candidate_views(final(found)@) == candidate_views(old(found)@) + root_found(
            root,
            max_depth as nat,
            category@,
            base_reason@,
            cutoff,
            excludes@,
        ),
        candidate_views(final(found)@).is_prefix_of(
            candidate_views(old(found)@) + root_found(
                root,
                max_depth as nat,
                category@,
                base_reason@,
                cutoff,
                excludes@,
            ),
        ),
        all_clean(candidate_views(final(found)@), excludes@),
        all_aged(candidate_views(final(found)@), base_reason@, cutoff),
{
    let ghost found_before = candidate_views(found@);
    assert(candidate_views(found@) =~= found_before + Seq::empty());
    if is_excluded(root.canonical.as_str(), excludes) || !root.is_dir {
        return false;
    }
    let ghost whole_told = walk_told(
        seq![root],
        0,
        max_depth as nat,
        base_reason@,
        cutoff,
        excludes@,
    );
    proof {
        level_told_holds(seq![root], 0, 1);
        accepts_part(sink, whole_told, set![root.path@]);
    }
    report(sink, root.path.as_str());
    let mut queue: VecDeque<(&FsNode, u32)> = VecDeque::new();
    queue.push_back((root, 0));
    let mut stopped = false;
    let ghost whole = walk_levels(
        seq![root],
        0,
        max_depth as nat,
        category@,
        base_reason@,
        cutoff,
        excludes@,
    );
    let ghost mut frontier: Seq<&FsNode> = seq![root];
    let ghost mut done: nat = 0;
    let ghost mut depth: u32 = 0;
    let ghost mut settled: Seq<CandidateView> = found_before;
    proof {
        assert(frontier.skip(0) =~= frontier);
        assert(queue@ =~= queue_at(frontier, 0, 0, max_depth, base_reason@, cutoff, excludes@));
        assert(candidate_views(found@) =~= settled + Seq::empty());
    }
    loop
        invariant_except_break
            !stopped,
            done <= frontier.len(),
            queue@ == queue_at(frontier, done, depth, max_depth, base_reason@, cutoff, excludes@),
            candidate_views(found@) == settled + level_found(
                frontier,
                done,
                category@,
                base_reason@,
                cutoff,
                excludes@,
            ),
            settled + walk_levels(
                frontier,
                depth as nat,
                max_depth as nat,
                category@,
                base_reason@,
                cutoff,
                excludes@,
            ) == found_before + whole,
            told(sink, level_told(frontier, done)),
            forall|path: Seq<char>|
                whole_told.contains(path) ==> #[trigger] was_told(sink, path) || walk_told(
                    frontier,
                    depth as nat,
                    max_depth as nat,
                    base_reason@,
                    cutoff,
                    excludes@,
                ).contains(path),
        invariant
            depth <= max_depth,
            found_before == candidate_views(old(found)@),
            texts(patterns@) == project_pattern_names(),
            texts(skip@) == skip_dir_names(),
            pollable(cancelled),
            accepts_progress(
                sink,
                walk_told(frontier, depth as nat, max_depth as nat, base_reason@, cutoff, excludes@),
            ),
            all_clean(candidate_views(found@), excludes@),
            all_aged(candidate_views(found@), base_reason@, cutoff),
        ensures
            stopped ==> !never_stops(cancelled),
            !stopped ==> candidate_views(found@) == found_before + whole,
            !stopped ==> told(sink, whole_told),
            candidate_views(found@).is_prefix_of(found_before + whole),
        decreases max_depth - depth, frontier.len() - done,
    {
        let ghost here = level_found(
            frontier,
            frontier.len(),
            category@,
            base_reason@,
            cutoff,
            excludes@,
        );
        let ghost next = level_entered(frontier, frontier.len(), base_reason@, cutoff, excludes@);
        let ghost below = walk_levels(
            next,
            (depth + 1) as nat,
            max_depth as nat,
            category@,
            base_reason@,
            cutoff,
            excludes@,
        );
        let (current, level) = match queue.pop_front() {
            Some(first) => first,
            None => {
                proof {
                    // Nothing is left of this level and nothing was entered from it.
                    assert(frontier.skip(done as int).len() == 0);
                    if depth < max_depth {
                        assert(next.len() == 0);
                        assert(next =~= Seq::empty());
                        walk_of_nothing(
                            (depth + 1) as nat,
                            max_depth as nat,
                            category@,
                            base_reason@,
                            cutoff,
                            excludes@,
                        );
                        walk_told_of_nothing(
                            (depth + 1) as nat,
                            max_depth as nat,
                            base_reason@,
                            cutoff,
                            excludes@,
                        );
                        assert(settled + (here + below) =~= settled + here);
                    }
                }
                break ;
            },
        };
        proof {
            if done == frontier.len() {
                // The level is through: what was entered from it is the next one.
                assert(frontier.skip(done as int) =~= Seq::empty());
                assert(depth < max_depth);
                assert((settled + here) + below =~= settled + (here + below));
                settled = settled + here;
                frontier = next;
                depth = (depth + 1) as u32;
                done = 0;
                assert(frontier.skip(0) =~= frontier);
                assert(candidate_views(found@) =~= settled + Seq::empty());
                assert(level_told(frontier, 0) =~= Set::empty());
            }
            assert(told(sink, level_told(frontier, done)));
        }
        let ghost so_far = level_found(frontier, done, category@, base_reason@, cutoff, excludes@);
        let ghost visit = dir_flagged(frontier[done as int], category@, base_reason@, cutoff, excludes@);
        proof {
            assert(current == frontier[done as int] && level == depth) by {
                assert(tagged(frontier.skip(done as int), depth)[0] == (frontier[done as int], depth));
            }
            level_told_holds(frontier, done as int, frontier.len());
            accepts_part(
                sink,
                walk_told(frontier, depth as nat, max_depth as nat, base_reason@, cutoff, excludes@),
                set![current.path@],
            );
        }
        let ghost queue_popped = queue@;
        let halted = scan_dir(
            current,
            level,
            max_depth,
            category,
            base_reason,
            patterns,
            skip,
            cutoff,
            excludes,
            cancelled,
            sink,
            found,
            &mut queue,
        );
        if halted {
            stopped = true;
            proof {
                let all_here = level_found(
                    frontier,
                    frontier.len(),
                    category@,
                    base_reason@,
                    cutoff,
                    excludes@,
                );
                crate::partial::level_found_grows(
                    frontier,
                    done,
                    frontier.len(),
                    category@,
                    base_reason@,
                    cutoff,
                    excludes@,
                );
                crate::partial::begins_behind(settled, so_far, all_here);
                if depth < max_depth {
                    let deeper = walk_levels(
                        level_entered(frontier, frontier.len(), base_reason@, cutoff, excludes@),
                        (depth + 1) as nat,
                        max_depth as nat,
                        category@,
                        base_reason@,
                        cutoff,
                        excludes@,
                    );
                    assert((settled + all_here) + deeper =~= settled + (all_here + deeper));
                }
            }
            break ;
        }
        proof {
            assert((settled + so_far) + visit =~= settled + (so_far + visit));
            assert(frontier.skip(done as int).subrange(1, frontier.len() - done) =~= frontier.skip(
                (done + 1) as int,
            ));
            assert(queue_popped =~= queue_at(
                frontier,
                done,
                depth,
                max_depth,
                base_reason@,
                cutoff,
                excludes@,
            ).subrange(
                1,
                queue_at(frontier, done, depth, max_depth, base_reason@, cutoff, excludes@).len() as int,
            ));
            let entered_before = level_entered(frontier, done, base_reason@, cutoff, excludes@);
            let entered_here = dir_entered(frontier[done as int], base_reason@, cutoff, excludes@);
            if depth < max_depth {
                assert(tagged(entered_before, (depth + 1) as u32) + tagged(
                    entered_here,
                    (depth + 1) as u32,
                ) =~= tagged(entered_before + entered_here, (depth + 1) as u32));
            }
            assert(queue@ =~= queue_at(
                frontier,
                done + 1,
                depth,
                max_depth,
                base_reason@,
                cutoff,
                excludes@,
            ));
            assert(level_told(frontier, done + 1) == level_told(frontier, done).insert(
                current.path@,
            ));
            done = done + 1;
            assert(told(sink, level_told(frontier, done)));
        }
    }
    stopped
}

/// What the walk of all `roots` finds in `fs`, with the age filter that
/// `min_age_days` sets at the time of capture.
pub open spec fn matching_dirs_found(
    roots: Seq<String>,
    fs: &Snapshot,
    category: Seq<char>,
    base_reason: Seq<char>,
    min_age_days: u64,
    max_depth: u32,
    excludes: Seq<String>,
) -> Seq<CandidateView> {
    roots_found(
        roots,
        roots.len(),
        fs,
        max_depth as nat,
        category,
        base_reason,
        cutoff_for(fs.taken_at, min_age_days),
        excludes,
    )
}

/// Walks the trees below `roots` as [`collect_matching_dirs`] does, for as
/// long as the stop signal allows: it is asked before each directory is
/// visited. The second result says whether it said stop; what was found
/// until then is handed out.
pub fn collect_matching_dirs_with_cancel<C: Fn() -> bool, F: Fn(&str) -> ()>(
    roots: &Vec<String>,
    fs: &Snapshot,
    category: &str,
    base_reason: &str,
    min_age_days: u64,
    max_depth: u32,
    excludes: &Vec<String>,
    cancelled: &C,
    sink: &F,
) -> (out: (Vec<Candidate>, bool))
    requires
        pollable(cancelled),
        accepts_progress(
            sink,
            matching_dirs_told(roots@, fs, base_reason@, min_age_days, max_depth, excludes@),
        ),
    ensures
        !out.1 ==> told(sink, matching_dirs_told(roots@, fs, base_reason@, min_age_days, max_depth, excludes@)),
        out.1 ==> !never_stops(cancelled),
        !out.1 ==> candidate_views(out.0@) == matching_dirs_found(
            roots@,
            fs,
            category@,
            base_reason@,
            min_age_days,
            max_depth,
            excludes@,
        ),
        candidate_views(out.0@).is_prefix_of(
            matching_dirs_found(
                roots@,
                fs,
                category@,
                base_reason@,
                min_age_days,
                max_depth,
                excludes@,
            ),
        ),
        all_clean(candidate_views(out.0@), excludes@),
        all_aged(candidate_views(out.0@), base_reason@, cutoff_for(fs.taken_at, min_age_days)),
{
    let mut found: Vec<Candidate> = Vec::new();
    let cutoff = age_cutoff(fs.taken_at, min_age_days);
    let patterns = project_patterns();
    let skip = skip_dirs();
    let mut i: usize = 0;
    assert(candidate_views(found@) =~= Seq::empty());
    while i < roots.len()
        invariant
            i <= roots@.len(),
            texts(patterns@) == project_pattern_names(),
            texts(skip@) == skip_dir_names(),
            pollable(cancelled),
            accepts_progress(
                sink,
                roots_told(roots@, roots@.len(), fs, max_depth as nat, base_reason@, cutoff, excludes@),
            ),
            told(
                sink,
                roots_told(roots@, i as nat, fs, max_depth as nat, base_reason@, cutoff, excludes@),
            ),
            cutoff == cutoff_for(fs.taken_at, min_age_days),
            candidate_views(found@) == roots_found(
                roots@,
                i as nat,
                fs,
                max_depth as nat,
                category@,
                base_reason@,
                cutoff,
                excludes@,
            ),
            all_clean(candidate_views(found@), excludes@),
            all_aged(candidate_views(found@), base_reason@, cutoff),
        decreases roots@.len() - i,
    {
        match fs.find(roots[i].as_str()) {
            Some(root) => {
                proof {
                    roots_told_holds(
                        roots@,
                        i as int,
                        roots@.len(),
                        fs,
                        max_depth as nat,
                        base_reason@,
                        cutoff,
                        excludes@,
                    );
                    accepts_part(
                        sink,
                        roots_told(
                            roots@,
                            roots@.len(),
                            fs,
                            max_depth as nat,
                            base_reason@,
                            cutoff,
                            excludes@,
                        ),
                        root_told(root, max_depth as nat, base_reason@, cutoff, excludes@),
                    );
                }
                let stopped = walk_root(
                    root,
                    max_depth,
                    category,
                    base_reason,
                    &patterns,
                    &skip,
                    cutoff,
                    excludes,
                    cancelled,
                    sink,
                    &mut found,
                );
                if stopped {
                    proof {
                        crate::partial::roots_found_grows(
                            roots@,
                            (i + 1) as nat,
                            roots@.len(),
                            fs,
                            max_depth as nat,
                            category@,
                            base_reason@,
                            cutoff,
                            excludes@,
                        );
                    }
                    return (found, true);
                }
            },
            None => {},
        }
        i += 1;
    }
    (found, false)
}

/// Walks the trees below `roots` breadth first and flags the directories
/// whose names mark build outputs and caches. A flagged directory is not
/// entered, a link is never followed, and excluded or skipped directories
/// are passed over; entries are examined down to level `max_depth`, the
/// root being level 0.
pub fn collect_matching_dirs<F: Fn(&str) -> ()>(
    roots: &Vec<String>,
    fs: &Snapshot,
    category: &str,
    base_reason: &str,
    min_age_days: u64,
    max_depth: u32,
    excludes: &Vec<String>,
    sink: &F,
) -> (found: Vec<Candidate>)
    requires
        accepts_progress(
            sink,
            matching_dirs_told(roots@, fs, base_reason@, min_age_days, max_depth, excludes@),
        ),
    ensures
        told(sink, matching_dirs_told(roots@, fs, base_reason@, min_age_days, max_depth, excludes@)),
        candidate_views(found@) == matching_dirs_found(
            roots@,
            fs,
            category@,
            base_reason@,
            min_age_days,
            max_depth,
            excludes@,
        ),
        all_clean(candidate_views(found@), excludes@),
        all_aged(candidate_views(found@), base_reason@, cutoff_for(fs.taken_at, min_age_days)),
{
    let never = || -> (stop: bool)
        ensures
            !stop,
        { false };
    let (found, _stopped) = collect_matching_dirs_with_cancel(
        roots,
        fs,
        category,
        base_reason,
        min_age_days,
        max_depth,
        excludes,
        &never,
        sink,
    );
    found
}

} // verus!
