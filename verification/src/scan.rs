//! A whole scan: every strategy in turn, then one ordered list.
use crate::aggregate::{dedupe_candidates, deduped, distinct_paths, drawn_from, ordered, sort_candidates};
use crate::classify::{CacheTargetView, build_cache_targets, cache_targets_for, target_views};
use crate::discover::{
    accepts_part, accepts_progress, all_clean, collect_keep_latest_with_cancel,
    collect_whole_directory_with_cancel, keep_latest_found, keep_latest_told, never_stops,
    pollable, told, whole_directory_found, whole_directory_told,
};
use crate::model::{Candidate, CandidateView, ScanConfig, Snapshot, candidate_views};
use crate::order::in_order;
use crate::path::{join_path, joined};
use crate::walk::{collect_matching_dirs_with_cancel, matching_dirs_found, matching_dirs_told};
use vstd::prelude::*;

verus! {

/// The directory below which the known cache locations are looked for: the
/// home directory, or the current directory where none is known.
pub open spec fn home_of(fs: &Snapshot) -> Seq<char> {
    match fs.home {
        Some(home) => home@,
        None => "."@,
    }
}

/// What a keep-latest scan finds at `path`; nothing where no node was
/// captured for it.
pub open spec fn keep_latest_at(
    fs: &Snapshot,
    path: Seq<char>,
    keep: nat,
    category: Seq<char>,
    reason: Seq<char>,
    excludes: Seq<String>,
) -> Seq<CandidateView> {
    if fs.holds(path) {
        keep_latest_found(fs.node_at(path), keep, category, reason, excludes)
    } else {
        Seq::empty()
    }
}

/// What a whole-directory scan finds at `path`; nothing where no node was
/// captured for it.
pub open spec fn whole_directory_at(
    fs: &Snapshot,
    path: Seq<char>,
    category: Seq<char>,
    reason: Seq<char>,
    excludes: Seq<String>,
) -> Seq<CandidateView> {
    if fs.holds(path) {
        whole_directory_found(fs.node_at(path), category, reason, excludes)
    } else {
        Seq::empty()
    }
}

/// What whole-directory scans of the first `count` cache locations find.
pub open spec fn cache_targets_found(
    fs: &Snapshot,
    targets: Seq<CacheTargetView>,
    count: nat,
    excludes: Seq<String>,
) -> Seq<CandidateView>
    decreases count,
{
    if count == 0 || count > targets.len() {
        Seq::empty()
    } else {
        cache_targets_found(fs, targets, (count - 1) as nat, excludes) + whole_directory_at(
            fs,
            targets[count - 1].path,
            targets[count - 1].category,
            targets[count - 1].reason,
            excludes,
        )
    }
}

/// Everything that the strategies find, in the order in which a scan runs
/// them: derived data, archives, simulator caches, the download cache of
/// the package manager, the table of cache locations, the project trees.
pub open spec fn gathered(config: &ScanConfig, fs: &Snapshot) -> Seq<CandidateView> {
    let home = home_of(fs);
    let excludes = config.exclude_paths@;
    let targets = cache_targets_for(home);
    keep_latest_at(
        fs,
        joined(home, "Library/Developer/Xcode/DerivedData"@),
        config.keep_latest_derived as nat,
        "Xcode"@,
        "Old DerivedData projects"@,
        excludes,
    ) + keep_latest_at(
        fs,
        joined(home, "Library/Developer/Xcode/Archives"@),
        config.keep_latest_derived as nat,
        "Xcode"@,
        "Old Xcode archives"@,
        excludes,
    ) + whole_directory_at(
        fs,
        joined(home, "Library/Developer/CoreSimulator/Caches"@),
        "Xcode"@,
        "CoreSimulator caches"@,
        excludes,
    ) + keep_latest_at(
        fs,
        joined(home, "Library/Caches/Homebrew"@),
        config.keep_latest_cache as nat,
        "Homebrew"@,
        "Homebrew download cache"@,
        excludes,
    ) + cache_targets_found(fs, targets, targets.len(), excludes) + matching_dirs_found(
        config.roots@,
        fs,
        "Project"@,
        "Stale build or cache"@,
        config.min_age_days,
        config.max_depth,
        excludes,
    )
}

/// The paths that a keep-latest scan at `path` reports.
pub open spec fn keep_latest_told_at(fs: &Snapshot, path: Seq<char>, excludes: Seq<String>) -> Set<
    Seq<char>,
> {
    if fs.holds(path) {
        keep_latest_told(fs.node_at(path), excludes)
    } else {
        Set::empty()
    }
}

/// The paths that a whole-directory scan at `path` reports.
pub open spec fn whole_directory_told_at(
    fs: &Snapshot,
    path: Seq<char>,
    excludes: Seq<String>,
) -> Set<Seq<char>> {
    if fs.holds(path) {
        whole_directory_told(fs.node_at(path), excludes)
    } else {
        Set::empty()
    }
}

/// The paths that whole-directory scans of the first `count` cache
/// locations report.
pub open spec fn cache_targets_told(
    fs: &Snapshot,
    targets: Seq<CacheTargetView>,
    count: nat,
    excludes: Seq<String>,
) -> Set<Seq<char>>
    decreases count,
{
    if count == 0 || count > targets.len() {
        Set::empty()
    } else {
        cache_targets_told(fs, targets, (count - 1) as nat, excludes).union(
            whole_directory_told_at(fs, targets[count - 1].path, excludes),
        )
    }
}

/// Every path that a scan reports to its progress sink: each known
/// location and each root that was captured and is not excluded, the
/// entries of the keep-latest locations that are not excluded, and the
/// directories that the walk enters. No path of an excluded node is among
/// them, unless a node that is not excluded goes by the same path.
pub open spec fn scan_told(config: &ScanConfig, fs: &Snapshot) -> Set<Seq<char>> {
    let home = home_of(fs);
    let excludes = config.exclude_paths@;
    let targets = cache_targets_for(home);
    keep_latest_told_at(fs, joined(home, "Library/Developer/Xcode/DerivedData"@), excludes).union(
        keep_latest_told_at(fs, joined(home, "Library/Developer/Xcode/Archives"@), excludes),
    ).union(
        whole_directory_told_at(
            fs,
            joined(home, "Library/Developer/CoreSimulator/Caches"@),
            excludes,
        ),
    ).union(keep_latest_told_at(fs, joined(home, "Library/Caches/Homebrew"@), excludes)).union(
        cache_targets_told(fs, targets, targets.len(), excludes),
    ).union(
        matching_dirs_told(
            config.roots@,
            fs,
            "Stale build or cache"@,
            config.min_age_days,
            config.max_depth,
            excludes,
        ),
    )
}

/// What is reported of one cache location is part of what is reported of
/// all of them.
proof fn cache_targets_told_holds(
    fs: &Snapshot,
    targets: Seq<CacheTargetView>,
    i: int,
    count: nat,
    excludes: Seq<String>,
)
    requires
        0 <= i < count <= targets.len(),
    ensures
        whole_directory_told_at(fs, targets[i].path, excludes).subset_of(
            cache_targets_told(fs, targets, count, excludes),
        ),
    decreases count,
{
    if i < count - 1 {
        cache_targets_told_holds(fs, targets, i, (count - 1) as nat, excludes);
    }
}

/// The result of a scan: everything gathered, each canonical path once,
/// in the order of [`crate::order::ranks_before`].
pub open spec fn scan_result(config: &ScanConfig, fs: &Snapshot) -> Seq<CandidateView> {
    let found = gathered(config, fs);
    let unique = deduped(found, found.len());
    ordered(unique, unique.len())
}

proof fn views_concat(a: Seq<Candidate>, b: Seq<Candidate>)
    ensures
        candidate_views(a + b) == candidate_views(a) + candidate_views(b),
{
    assert(candidate_views(a + b) =~= candidate_views(a) + candidate_views(b));
}

proof fn clean_concat(a: Seq<CandidateView>, b: Seq<CandidateView>, excludes: Seq<String>)
    requires
        all_clean(a, excludes),
        all_clean(b, excludes),
    ensures
        all_clean(a + b, excludes),
{
    assert forall|i: int| 0 <= i < (a + b).len() implies (#[trigger] (a + b)[i]).size_bytes > 0
        && !crate::path::excluded_by((a + b)[i].canonical, excludes) by {
        if i < a.len() {
            assert((a + b)[i] == a[i]);
        } else {
            assert((a + b)[i] == b[i - a.len()]);
        }
    }
}

proof fn clean_drawn(out: Seq<CandidateView>, source: Seq<CandidateView>, excludes: Seq<String>)
    requires
        all_clean(source, excludes),
        drawn_from(out, source),
    ensures
        all_clean(out, excludes),
{
    assert forall|i: int| 0 <= i < out.len() implies (#[trigger] out[i]).size_bytes > 0
        && !crate::path::excluded_by(out[i].canonical, excludes) by {
        assert(source.contains(out[i]));
        let j = choose|j: int| 0 <= j < source.len() && source[j] == out[i];
        assert(source[j].size_bytes > 0);
    }
}

fn keep_latest_in<C: Fn() -> bool, F: Fn(&str) -> ()>(
    fs: &Snapshot,
    path: &str,
    keep: usize,
    category: &str,
    reason: &str,
    excludes: &Vec<String>,
    cancelled: &C,
    sink: &F,
    found: &mut Vec<Candidate>,
) -> (stopped: bool)
    requires
        pollable(cancelled),
        accepts_progress(sink, keep_latest_told_at(fs, path@, excludes@)),
        all_clean(candidate_views(old(found)@), excludes@),
    ensures
        !stopped ==> told(sink, keep_latest_told_at(fs, path@, excludes@)),
        stopped ==> !never_stops(cancelled),
        !stopped ==> candidate_views(final(found)@) == candidate_views(old(found)@)
            + keep_latest_at(fs, path@, keep as nat, category@, reason@, excludes@),
        candidate_views(final(found)@).is_prefix_of(
            candidate_views(old(found)@) + keep_latest_at(
                fs,
                path@,
                keep as nat,
                category@,
                reason@,
                excludes@,
            ),
        ),
        all_clean(candidate_views(final(found)@), excludes@),
{
    let ghost before = found@;
    match fs.find(path) {
        Some(node) => {
            let (mut more, stopped) = collect_keep_latest_with_cancel(
                node,
                keep,
                category,
                reason,
                excludes,
                cancelled,
                sink,
            );
            proof {
                views_concat(before, more@);
                clean_concat(candidate_views(before), candidate_views(more@), excludes@);
            }
            found.append(&mut more);
            stopped
        },
        None => {
            assert(candidate_views(found@) =~= candidate_views(before) + Seq::empty());
            false
        },
    }
}

fn whole_directory_in<C: Fn() -> bool, F: Fn(&str) -> ()>(
    fs: &Snapshot,
    path: &str,
    category: &str,
    reason: &str,
    excludes: &Vec<String>,
    cancelled: &C,
    sink: &F,
    found: &mut Vec<Candidate>,
) -> (stopped: bool)
    requires
        pollable(cancelled),
        accepts_progress(sink, whole_directory_told_at(fs, path@, excludes@)),
        all_clean(candidate_views(old(found)@), excludes@),
    ensures
        !stopped ==> told(sink, whole_directory_told_at(fs, path@, excludes@)),
        stopped ==> !never_stops(cancelled),
        !stopped ==> candidate_views(final(found)@) == candidate_views(old(found)@)
            + whole_directory_at(fs, path@, category@, reason@, excludes@),
        candidate_views(final(found)@).is_prefix_of(
            candidate_views(old(found)@) + whole_directory_at(
                fs,
                path@,
                category@,
                reason@,
                excludes@,
            ),
        ),
        all_clean(candidate_views(final(found)@), excludes@),
{
    let ghost before = found@;
    match fs.find(path) {
        Some(node) => {
            let (mut more, stopped) = collect_whole_directory_with_cancel(
                node,
                category,
                reason,
                excludes,
                cancelled,
                sink,
            );
            proof {
                views_concat(before, more@);
                clean_concat(candidate_views(before), candidate_views(more@), excludes@);
            }
            found.append(&mut more);
            stopped
        },
        None => {
            assert(candidate_views(found@) =~= candidate_views(before) + Seq::empty());
            false
        },
    }
}

fn cache_targets_in<C: Fn() -> bool, F: Fn(&str) -> ()>(
    fs: &Snapshot,
    home: &str,
    excludes: &Vec<String>,
    cancelled: &C,
    sink: &F,
    found: &mut Vec<Candidate>,
) -> (stopped: bool)
    requires
        pollable(cancelled),
        accepts_progress(
            sink,
            cache_targets_told(fs, cache_targets_for(home@), cache_targets_for(home@).len(), excludes@),
        ),
        all_clean(candidate_views(old(found)@), excludes@),
    ensures
        !stopped ==> told(
            sink,
            cache_targets_told(fs, cache_targets_for(home@), cache_targets_for(home@).len(), excludes@),
        ),
        stopped ==> !never_stops(cancelled),
        !stopped ==> candidate_views(final(found)@) == candidate_views(old(found)@)
            + cache_targets_found(
            fs,
            cache_targets_for(home@),
            cache_targets_for(home@).len(),
            excludes@,
        ),
        candidate_views(final(found)@).is_prefix_of(
            candidate_views(old(found)@) + cache_targets_found(
                fs,
                cache_targets_for(home@),
                cache_targets_for(home@).len(),
                excludes@,
            ),
        ),
        all_clean(candidate_views(final(found)@), excludes@),
{
    let targets = build_cache_targets(home);
    let ghost fixed = candidate_views(found@);
    let mut i: usize = 0;
    assert(candidate_views(found@) =~= fixed + Seq::empty());
    while i < targets.len()
        invariant
            i <= targets@.len(),
            fixed == candidate_views(old(found)@),
            pollable(cancelled),
            accepts_progress(
                sink,
                cache_targets_told(fs, cache_targets_for(home@), cache_targets_for(home@).len(), excludes@),
            ),
            told(sink, cache_targets_told(fs, cache_targets_for(home@), i as nat, excludes@)),
            target_views(targets@) == cache_targets_for(home@),
            candidate_views(found@) == fixed + cache_targets_found(
                fs,
                target_views(targets@),
                i as nat,
                excludes@,
            ),
            all_clean(candidate_views(found@), excludes@),
        decreases targets@.len() - i,
    {
        let target = &targets[i];
        let ghost so_far = cache_targets_found(fs, target_views(targets@), i as nat, excludes@);
        let ghost here = whole_directory_at(
            fs,
            target.path@,
            target.category@,
            target.reason@,
            excludes@,
        );
        assert(target_views(targets@)[i as int] == target@);
        proof {
            cache_targets_told_holds(
                fs,
                target_views(targets@),
                i as int,
                targets@.len(),
                excludes@,
            );
            accepts_part(
                sink,
                cache_targets_told(
                    fs,
                    cache_targets_for(home@),
                    cache_targets_for(home@).len(),
                    excludes@,
                ),
                whole_directory_told_at(fs, target.path@, excludes@),
            );
        }
        let stopped = whole_directory_in(
            fs,
            target.path.as_str(),
            target.category.as_str(),
            target.reason.as_str(),
            excludes,
            cancelled,
            sink,
            found,
        );
        assert((fixed + so_far) + here =~= fixed + (so_far + here));
        if stopped {
            proof {
                let table = target_views(targets@);
                let whole = cache_targets_found(fs, table, table.len(), excludes@);
                assert(so_far + here == cache_targets_found(fs, table, (i + 1) as nat, excludes@));
                crate::partial::cache_targets_found_grows(
                    fs,
                    table,
                    (i + 1) as nat,
                    table.len(),
                    excludes@,
                );
                crate::partial::begins_behind(fixed, so_far + here, whole);
                crate::partial::begins_chain(
                    candidate_views(found@),
                    fixed + (so_far + here),
                    fixed + whole,
                );
            }
            return true;
        }
        i += 1;
    }
    false
}

fn project_trees_in<C: Fn() -> bool, F: Fn(&str) -> ()>(
    config: &ScanConfig,
    fs: &Snapshot,
    cancelled: &C,
    sink: &F,
    found: &mut Vec<Candidate>,
) -> (stopped: bool)
    requires
        pollable(cancelled),
        accepts_progress(
            sink,
            matching_dirs_told(
                config.roots@,
                fs,
                "Stale build or cache"@,
                config.min_age_days,
                config.max_depth,
                config.exclude_paths@,
            ),
        ),
        all_clean(candidate_views(old(found)@), config.exclude_paths@),
    ensures
        !stopped ==> told(
            sink,
            matching_dirs_told(
                config.roots@,
                fs,
                "Stale build or cache"@,
                config.min_age_days,
                config.max_depth,
                config.exclude_paths@,
            ),
        ),
        stopped ==> !never_stops(cancelled),
        !stopped ==> candidate_views(final(found)@) == candidate_views(old(found)@)
            + matching_dirs_found(
            config.roots@,
            fs,
            "Project"@,
            "Stale build or cache"@,
            config.min_age_days,
            config.max_depth,
            config.exclude_paths@,
        ),
        candidate_views(final(found)@).is_prefix_of(
            candidate_views(old(found)@) + matching_dirs_found(
                config.roots@,
                fs,
                "Project"@,
                "Stale build or cache"@,
                config.min_age_days,
                config.max_depth,
                config.exclude_paths@,
            ),
        ),
        all_clean(candidate_views(final(found)@), config.exclude_paths@),
{
    let (mut projects, stopped) = collect_matching_dirs_with_cancel(
        &config.roots,
        fs,
        "Project",
        "Stale build or cache",
        config.min_age_days,
        config.max_depth,
        &config.exclude_paths,
        cancelled,
        sink,
    );
    proof {
        views_concat(found@, projects@);
        clean_concat(
            candidate_views(found@),
            candidate_views(projects@),
            config.exclude_paths@,
        );
    }
    found.append(&mut projects);
    stopped
}

/// Runs the strategies in order until one is stopped; says whether one
/// was.
fn gather_all<C: Fn() -> bool, F: Fn(&str) -> ()>(
    config: &ScanConfig,
    fs: &Snapshot,
    cancelled: &C,
    sink: &F,
    found: &mut Vec<Candidate>,
) -> (stopped: bool)
    requires
        pollable(cancelled),
        accepts_progress(sink, scan_told(config, fs)),
        old(found)@.len() == 0,
    ensures
        !stopped ==> told(sink, scan_told(config, fs)),
        stopped ==> !never_stops(cancelled),
        !stopped ==> candidate_views(final(found)@) == gathered(config, fs),
        candidate_views(final(found)@).is_prefix_of(gathered(config, fs)),
        all_clean(candidate_views(final(found)@), config.exclude_paths@),
{
    let excludes = &config.exclude_paths;
    let home: String = match &fs.home {
        Some(home) => home.clone(),
        None => crate::text::owned("."),
    };
    assert(candidate_views(found@) =~= Seq::empty());
    let ghost nothing = Seq::<CandidateView>::empty();

    let derived = join_path(home.as_str(), "Library/Developer/Xcode/DerivedData");
    proof {
        accepts_part(sink, scan_told(config, fs), keep_latest_told_at(fs, derived@, excludes@));
    }
    if keep_latest_in(
        fs,
        derived.as_str(),
        config.keep_latest_derived,
        "Xcode",
        "Old DerivedData projects",
        excludes,
        cancelled,
        sink,
        found,
    ) {
        return true;
    }
    let ghost first = candidate_views(found@);
    assert(first =~= nothing + first);

    let archives = join_path(home.as_str(), "Library/Developer/Xcode/Archives");
    proof {
        accepts_part(sink, scan_told(config, fs), keep_latest_told_at(fs, archives@, excludes@));
    }
    if keep_latest_in(
        fs,
        archives.as_str(),
        config.keep_latest_derived,
        "Xcode",
        "Old Xcode archives",
        excludes,
        cancelled,
        sink,
        found,
    ) {
        return true;
    }

    let core_sim = join_path(home.as_str(), "Library/Developer/CoreSimulator/Caches");
    proof {
        accepts_part(sink, scan_told(config, fs), whole_directory_told_at(fs, core_sim@, excludes@));
    }
    if whole_directory_in(
        fs,
        core_sim.as_str(),
        "Xcode",
        "CoreSimulator caches",
        excludes,
        cancelled,
        sink,
        found,
    ) {
        return true;
    }

    let brew_cache = join_path(home.as_str(), "Library/Caches/Homebrew");
    proof {
        accepts_part(sink, scan_told(config, fs), keep_latest_told_at(fs, brew_cache@, excludes@));
    }
    if keep_latest_in(
        fs,
        brew_cache.as_str(),
        config.keep_latest_cache,
        "Homebrew",
        "Homebrew download cache",
        excludes,
        cancelled,
        sink,
        found,
    ) {
        return true;
    }

    proof {
        accepts_part(
            sink,
            scan_told(config, fs),
            cache_targets_told(
                fs,
                cache_targets_for(home@),
                cache_targets_for(home@).len(),
                excludes@,
            ),
        );
    }
    if cache_targets_in(fs, home.as_str(), excludes, cancelled, sink, found) {
        return true;
    }
    proof {
        accepts_part(
            sink,
            scan_told(config, fs),
            matching_dirs_told(
                config.roots@,
                fs,
                "Stale build or cache"@,
                config.min_age_days,
                config.max_depth,
                config.exclude_paths@,
            ),
        );
    }
    project_trees_in(config, fs, cancelled, sink, found)
}

/// Runs every strategy for as long as the stop signal allows, then drops
/// duplicates and orders what was found. The second result says whether
/// the signal said stop.
pub fn gather_candidates_with_cancel<C: Fn() -> bool, F: Fn(&str) -> ()>(
    config: &ScanConfig,
    fs: &Snapshot,
    cancelled: &C,
    sink: &F,
) -> (out: (Vec<Candidate>, bool))
    requires
        pollable(cancelled),
        accepts_progress(sink, scan_told(config, fs)),
    ensures
        !out.1 ==> told(sink, scan_told(config, fs)),
        out.1 ==> !never_stops(cancelled),
        !out.1 ==> candidate_views(out.0@) == scan_result(config, fs),
        drawn_from(candidate_views(out.0@), scan_result(config, fs)),
        all_clean(candidate_views(out.0@), config.exclude_paths@),
        distinct_paths(candidate_views(out.0@)),
        in_order(candidate_views(out.0@)),
{
    let mut found: Vec<Candidate> = Vec::new();
    let stopped = gather_all(config, fs, cancelled, sink, &mut found);
    let ghost all = candidate_views(found@);
    let unique = dedupe_candidates(found);
    proof {
        clean_drawn(candidate_views(unique@), all, config.exclude_paths@);
    }
    let sorted = sort_candidates(unique);
    proof {
        clean_drawn(candidate_views(sorted@), candidate_views(unique@), config.exclude_paths@);
        crate::partial::part_is_drawn_from_whole(all, gathered(config, fs));
        let kept = candidate_views(unique@);
        let out = candidate_views(sorted@);
        assert forall|k: int| 0 <= k < out.len() implies scan_result(config, fs).contains(
            #[trigger] out[k],
        ) by {
            assert(kept.contains(out[k]));
            let j = choose|j: int| 0 <= j < kept.len() && kept[j] == out[k];
            assert(scan_result(config, fs).contains(kept[j]));
        }
    }
    (sorted, stopped)
}

/// Runs every strategy, then drops duplicates and orders what is left;
/// see [`scan_result`].
pub fn gather_candidates<F: Fn(&str) -> ()>(config: &ScanConfig, fs: &Snapshot, sink: &F) -> (found:
    Vec<Candidate>)
    requires
        accepts_progress(sink, scan_told(config, fs)),
    ensures
        told(sink, scan_told(config, fs)),
        candidate_views(found@) == scan_result(config, fs),
        all_clean(candidate_views(found@), config.exclude_paths@),
        distinct_paths(candidate_views(found@)),
        in_order(candidate_views(found@)),
{
    let never = || -> (stop: bool)
        ensures
            !stop,
        { false };
    let (found, _stopped) = gather_candidates_with_cancel(config, fs, &never, sink);
    found
}

/// Scans the captured file system for as long as `cancelled` allows and
/// tells `sink` of every path it turns to. The stop signal is asked before
/// each directory is looked at or measured, never in the middle of one.
/// Once it says stop the scan ends with what it has found until then; if
/// it never does, the result is that of a whole scan. Either way the result
/// holds each canonical path once, largest first, and nothing in it is
/// excluded or empty.
pub fn scan_with_cancel<C: Fn() -> bool, F: Fn(&str) -> ()>(
    config: &ScanConfig,
    fs: &Snapshot,
    cancelled: C,
    sink: F,
) -> (found: Vec<Candidate>)
    requires
        pollable(&cancelled),
        accepts_progress(&sink, scan_told(config, fs)),
    ensures
        never_stops(&cancelled) ==> told(&sink, scan_told(config, fs)),
        never_stops(&cancelled) ==> candidate_views(found@) == scan_result(config, fs),
        drawn_from(candidate_views(found@), scan_result(config, fs)),
        all_clean(candidate_views(found@), config.exclude_paths@),
        distinct_paths(candidate_views(found@)),
        in_order(candidate_views(found@)),
{
    let (found, _stopped) = gather_candidates_with_cancel(config, fs, &cancelled, &sink);
    found
}

/// Scans the captured file system and tells `sink` of every path it turns
/// to. The result holds each canonical path once, largest first; nothing
/// in it is excluded or empty.
pub fn scan_with_callback<F: Fn(&str) -> ()>(config: &ScanConfig, fs: &Snapshot, sink: F) -> (found:
    Vec<Candidate>)
    requires
        accepts_progress(&sink, scan_told(config, fs)),
    ensures
        told(&sink, scan_told(config, fs)),
        candidate_views(found@) == scan_result(config, fs),
        all_clean(candidate_views(found@), config.exclude_paths@),
        distinct_paths(candidate_views(found@)),
        in_order(candidate_views(found@)),
{
    gather_candidates(config, fs, &sink)
}

/// Scans the captured file system. The result holds each canonical path
/// once, largest first; nothing in it is excluded or empty.
pub fn scan(config: &ScanConfig, fs: &Snapshot) -> (found: Vec<Candidate>)
    ensures
        candidate_views(found@) == scan_result(config, fs),
        all_clean(candidate_views(found@), config.exclude_paths@),
        distinct_paths(candidate_views(found@)),
        in_order(candidate_views(found@)),
{
    let quiet = |_message: &str| {};
    gather_candidates(config, fs, &quiet)
}

} // verus!
