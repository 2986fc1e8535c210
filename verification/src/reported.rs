//! What a scan reports to its progress sink never belongs to an excluded
//! node.
use crate::classify::CacheTargetView;
use crate::discover::{keep_latest_told, listed_told, whole_directory_told};
use crate::model::{FsNode, ScanConfig, Snapshot};
use crate::path::excluded_by;
use crate::scan::{cache_targets_told, keep_latest_told_at, scan_told, whole_directory_told_at};
use crate::walk::{
    dir_entered, entered_entries, level_entered, level_told, root_told,
    roots_told, walk_told,
};
use vstd::prelude::*;

verus! {

/// Whether `node` goes by `path` and is not excluded.
pub open spec fn goes_by(node: FsNode, path: Seq<char>, excludes: Seq<String>) -> bool {
    node.path@ == path && !excluded_by(node.canonical@, excludes)
}

/// Whether `path` is that of some node that is not excluded.
pub open spec fn reportable(path: Seq<char>, excludes: Seq<String>) -> bool {
    exists|node: FsNode| #[trigger] goes_by(node, path, excludes)
}

/// Whether each of `paths` is that of some node that is not excluded.
pub open spec fn all_reportable(paths: Set<Seq<char>>, excludes: Seq<String>) -> bool {
    forall|path: Seq<char>| paths.contains(path) ==> #[trigger] reportable(path, excludes)
}

/// Whether no directory of a row is excluded.
pub open spec fn none_excluded(dirs: Seq<&FsNode>, excludes: Seq<String>) -> bool {
    forall|i: int| 0 <= i < dirs.len() ==> !excluded_by((#[trigger] dirs[i]).canonical@, excludes)
}

proof fn listed_is_reportable(list: Seq<FsNode>, excludes: Seq<String>, count: nat)
    requires
        count <= list.len(),
    ensures
        all_reportable(listed_told(list, excludes, count), excludes),
    decreases count,
{
    if count > 0 {
        listed_is_reportable(list, excludes, (count - 1) as nat);
        let entry = list[count - 1];
        if !excluded_by(entry.canonical@, excludes) {
            assert(goes_by(entry, entry.path@, excludes));
        }
    }
}

proof fn keep_latest_is_reportable(base: FsNode, excludes: Seq<String>)
    ensures
        all_reportable(keep_latest_told(base, excludes), excludes),
{
    if !(excluded_by(base.canonical@, excludes) || !base.exists) {
        assert(goes_by(base, base.path@, excludes));
        match base.entries {
            Some(list) => {
                listed_is_reportable(list@, excludes, list@.len());
            },
            None => {},
        }
    }
}

proof fn whole_directory_is_reportable(node: FsNode, excludes: Seq<String>)
    ensures
        all_reportable(whole_directory_told(node, excludes), excludes),
{
    if !(excluded_by(node.canonical@, excludes) || !node.exists) {
        assert(goes_by(node, node.path@, excludes));
    }
}

proof fn level_is_reportable(frontier: Seq<&FsNode>, count: nat, excludes: Seq<String>)
    requires
        none_excluded(frontier, excludes),
        count <= frontier.len(),
    ensures
        all_reportable(level_told(frontier, count), excludes),
    decreases count,
{
    if count > 0 {
        level_is_reportable(frontier, (count - 1) as nat, excludes);
        let dir = frontier[count - 1];
        assert(goes_by(*dir, dir.path@, excludes));
    }
}

proof fn entered_are_not_excluded(
    list: &Vec<FsNode>,
    count: nat,
    base_reason: Seq<char>,
    cutoff: Option<i128>,
    excludes: Seq<String>,
)
    requires
        count <= list@.len(),
    ensures
        none_excluded(entered_entries(list, count, base_reason, cutoff, excludes), excludes),
    decreases count,
{
    if count > 0 {
        entered_are_not_excluded(list, (count - 1) as nat, base_reason, cutoff, excludes);
    }
}

proof fn next_level_is_not_excluded(
    frontier: Seq<&FsNode>,
    count: nat,
    base_reason: Seq<char>,
    cutoff: Option<i128>,
    excludes: Seq<String>,
)
    requires
        count <= frontier.len(),
    ensures
        none_excluded(level_entered(frontier, count, base_reason, cutoff, excludes), excludes),
    decreases count,
{
    if count > 0 {
        next_level_is_not_excluded(frontier, (count - 1) as nat, base_reason, cutoff, excludes);
        let head = level_entered(frontier, (count - 1) as nat, base_reason, cutoff, excludes);
        let more = dir_entered(frontier[count - 1], base_reason, cutoff, excludes);
        match frontier[count - 1].entries {
            Some(list) => {
                entered_are_not_excluded(&list, list@.len(), base_reason, cutoff, excludes);
            },
            None => {},
        }
        assert forall|i: int| 0 <= i < (head + more).len() implies !excluded_by(
            (#[trigger] (head + more)[i]).canonical@,
            excludes,
        ) by {
            if i < head.len() {
                assert((head + more)[i] == head[i]);
            } else {
                assert((head + more)[i] == more[i - head.len()]);
            }
        }
    }
}

proof fn walk_is_reportable(
    frontier: Seq<&FsNode>,
    depth: nat,
    max_depth: nat,
    base_reason: Seq<char>,
    cutoff: Option<i128>,
    excludes: Seq<String>,
)
    requires
        none_excluded(frontier, excludes),
    ensures
        all_reportable(
            walk_told(frontier, depth, max_depth, base_reason, cutoff, excludes),
            excludes,
        ),
    decreases max_depth - depth,
{
    level_is_reportable(frontier, frontier.len(), excludes);
    if depth < max_depth {
        next_level_is_not_excluded(frontier, frontier.len(), base_reason, cutoff, excludes);
        walk_is_reportable(
            level_entered(frontier, frontier.len(), base_reason, cutoff, excludes),
            depth + 1,
            max_depth,
            base_reason,
            cutoff,
            excludes,
        );
    }
}

proof fn root_is_reportable(
    root: &FsNode,
    max_depth: nat,
    base_reason: Seq<char>,
    cutoff: Option<i128>,
    excludes: Seq<String>,
)
    ensures
        all_reportable(root_told(root, max_depth, base_reason, cutoff, excludes), excludes),
{
    if !(excluded_by(root.canonical@, excludes) || !root.is_dir) {
        assert(none_excluded(seq![root], excludes));
        walk_is_reportable(seq![root], 0, max_depth, base_reason, cutoff, excludes);
    }
}

proof fn roots_are_reportable(
    roots: Seq<String>,
    count: nat,
    fs: &Snapshot,
    max_depth: nat,
    base_reason: Seq<char>,
    cutoff: Option<i128>,
    excludes: Seq<String>,
)
    requires
        count <= roots.len(),
    ensures
        all_reportable(
            roots_told(roots, count, fs, max_depth, base_reason, cutoff, excludes),
            excludes,
        ),
    decreases count,
{
    if count > 0 {
        roots_are_reportable(roots, (count - 1) as nat, fs, max_depth, base_reason, cutoff, excludes);
        if fs.holds(roots[count - 1]@) {
            root_is_reportable(
                &fs.node_at(roots[count - 1]@),
                max_depth,
                base_reason,
                cutoff,
                excludes,
            );
        }
    }
}

proof fn cache_targets_are_reportable(
    fs: &Snapshot,
    targets: Seq<CacheTargetView>,
    count: nat,
    excludes: Seq<String>,
)
    requires
        count <= targets.len(),
    ensures
        all_reportable(cache_targets_told(fs, targets, count, excludes), excludes),
    decreases count,
{
    if count > 0 {
        cache_targets_are_reportable(fs, targets, (count - 1) as nat, excludes);
        if fs.holds(targets[count - 1].path) {
            whole_directory_is_reportable(fs.node_at(targets[count - 1].path), excludes);
        }
    }
}

proof fn keep_latest_at_is_reportable(fs: &Snapshot, path: Seq<char>, excludes: Seq<String>)
    ensures
        all_reportable(keep_latest_told_at(fs, path, excludes), excludes),
{
    if fs.holds(path) {
        keep_latest_is_reportable(fs.node_at(path), excludes);
    }
}

proof fn whole_directory_at_is_reportable(fs: &Snapshot, path: Seq<char>, excludes: Seq<String>)
    ensures
        all_reportable(whole_directory_told_at(fs, path, excludes), excludes),
{
    if fs.holds(path) {
        whole_directory_is_reportable(fs.node_at(path), excludes);
    }
}

/// Every path that a scan reports is that of a node that is not excluded:
/// the sink is never told of a path because of an excluded node.
pub proof fn scan_reports_nothing_excluded(config: &ScanConfig, fs: &Snapshot)
    ensures
        all_reportable(scan_told(config, fs), config.exclude_paths@),
{
    let home = crate::scan::home_of(fs);
    let excludes = config.exclude_paths@;
    let targets = crate::classify::cache_targets_for(home);
    keep_latest_at_is_reportable(
        fs,
        crate::path::joined(home, "Library/Developer/Xcode/DerivedData"@),
        excludes,
    );
    keep_latest_at_is_reportable(
        fs,
        crate::path::joined(home, "Library/Developer/Xcode/Archives"@),
        excludes,
    );
    whole_directory_at_is_reportable(
        fs,
        crate::path::joined(home, "Library/Developer/CoreSimulator/Caches"@),
        excludes,
    );
    keep_latest_at_is_reportable(
        fs,
        crate::path::joined(home, "Library/Caches/Homebrew"@),
        excludes,
    );
    cache_targets_are_reportable(fs, targets, targets.len(), excludes);
    roots_are_reportable(
        config.roots@,
        config.roots@.len(),
        fs,
        config.max_depth as nat,
        "Stale build or cache"@,
        crate::classify::cutoff_for(fs.taken_at, config.min_age_days),
        excludes,
    );
}

} // verus!
