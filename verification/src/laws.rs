//! What holds of every scan, whatever the file system looks like.
use crate::classify::{classification, cutoff_for};
use crate::discover::{
    candidate_of, dated_dir, keep_latest_found, rank_position, ranking, stale_found,
};
use crate::model::{CandidateView, FsNode};
use crate::path::excluded_by;
use crate::size::{capped, measured_size};
use crate::walk::{level_entered, level_found, walk_levels};
use vstd::prelude::*;

verus! {

/// Whether every place of `ranked` is a dated directory among the first
/// `count` entries of `list`, with its own time.
pub open spec fn places_are_dated(
    ranked: Seq<(i128, usize)>,
    list: Seq<FsNode>,
    excludes: Seq<String>,
    count: nat,
) -> bool {
    forall|j: int|
        0 <= j < ranked.len() ==> (#[trigger] ranked[j]).1 < count && dated_dir(
            list[ranked[j].1 as int],
            excludes,
        ) == Some(ranked[j].0)
}

/// Whether every dated directory among the first `count` entries of `list`
/// has a place in `ranked`.
pub open spec fn dated_are_placed(
    ranked: Seq<(i128, usize)>,
    list: Seq<FsNode>,
    excludes: Seq<String>,
    count: nat,
) -> bool {
    forall|i: int|
        0 <= i < count && dated_dir(#[trigger] list[i], excludes) is Some ==> exists|j: int|
            0 <= j < ranked.len() && (#[trigger] ranked[j]).1 == i
}

/// Whether a more recent directory never stands behind an older one, and
/// of two of one time the one listed first stands first. No directory then
/// stands in two places.
pub open spec fn most_recent_first(ranked: Seq<(i128, usize)>) -> bool {
    forall|a: int, b: int|
        0 <= a < b < ranked.len() ==> (#[trigger] ranked[a]).0 > (#[trigger] ranked[b]).0 || (
        ranked[a].0 == ranked[b].0 && ranked[a].1 < ranked[b].1)
}

/// Whether `ranked` ranks exactly the dated directories among the first
/// `count` entries of `list` by recency.
pub open spec fn ranks_dated_dirs(
    ranked: Seq<(i128, usize)>,
    list: Seq<FsNode>,
    excludes: Seq<String>,
    count: nat,
) -> bool {
    &&& places_are_dated(ranked, list, excludes, count)
    &&& dated_are_placed(ranked, list, excludes, count)
    &&& most_recent_first(ranked)
}

/// A directory enters a ranking behind everything that is not older than
/// it and in front of everything that is.
pub proof fn rank_position_splits(ranked: Seq<(i128, usize)>, modified: i128)
    ensures
        rank_position(ranked, modified) <= ranked.len(),
        forall|k: int|
            rank_position(ranked, modified) <= k < ranked.len() ==> (#[trigger] ranked[k]).0
                < modified,
        rank_position(ranked, modified) > 0 ==> ranked[rank_position(ranked, modified) - 1].0
            >= modified,
    decreases ranked.len(),
{
    if ranked.len() > 0 && ranked.last().0 < modified {
        rank_position_splits(ranked.drop_last(), modified);
        let at = rank_position(ranked.drop_last(), modified);
        assert forall|k: int| at <= k < ranked.len() implies (#[trigger] ranked[k]).0
            < modified by {
            if k < ranked.len() - 1 {
                assert(ranked.drop_last()[k] == ranked[k]);
            }
        }
        if at > 0 {
            assert(ranked.drop_last()[at - 1] == ranked[at - 1]);
        }
    }
}

proof fn ranking_places_are_dated(list: Seq<FsNode>, excludes: Seq<String>, count: nat)
    requires
        count <= list.len(),
        list.len() <= usize::MAX,
    ensures
        places_are_dated(ranking(list, excludes, count), list, excludes, count),
    decreases count,
{
    if count > 0 {
        ranking_places_are_dated(list, excludes, (count - 1) as nat);
        let earlier = ranking(list, excludes, (count - 1) as nat);
        let ranked = ranking(list, excludes, count);
        match dated_dir(list[count - 1], excludes) {
            Some(modified) => {
                rank_position_splits(earlier, modified);
                let at = rank_position(earlier, modified) as int;
                assert forall|j: int| 0 <= j < ranked.len() implies (#[trigger] ranked[j]).1
                    < count && dated_dir(list[ranked[j].1 as int], excludes) == Some(
                    ranked[j].0,
                ) by {
                    if j < at {
                        assert(ranked[j] == earlier[j]);
                    } else if j > at {
                        assert(ranked[j] == earlier[j - 1]);
                    }
                }
            },
            None => {},
        }
    }
}

proof fn ranking_places_all_dated(list: Seq<FsNode>, excludes: Seq<String>, count: nat)
    requires
        count <= list.len(),
        list.len() <= usize::MAX,
    ensures
        dated_are_placed(ranking(list, excludes, count), list, excludes, count),
    decreases count,
{
    if count > 0 {
        ranking_places_all_dated(list, excludes, (count - 1) as nat);
        let earlier = ranking(list, excludes, (count - 1) as nat);
        let ranked = ranking(list, excludes, count);
        match dated_dir(list[count - 1], excludes) {
            Some(modified) => {
                rank_position_splits(earlier, modified);
                let at = rank_position(earlier, modified) as int;
                assert forall|i: int|
                    0 <= i < count && dated_dir(#[trigger] list[i], excludes) is Some implies exists|
                    j: int,
                | 0 <= j < ranked.len() && (#[trigger] ranked[j]).1 == i by {
                    if i == count - 1 {
                        assert(ranked[at].1 == i);
                    } else {
                        let j0 = choose|j: int|
                            0 <= j < earlier.len() && (#[trigger] earlier[j]).1 == i;
                        if j0 < at {
                            assert(ranked[j0] == earlier[j0]);
                        } else {
                            assert(ranked[j0 + 1] == earlier[j0]);
                        }
                    }
                }
            },
            None => {},
        }
    }
}

proof fn ranking_is_most_recent_first(list: Seq<FsNode>, excludes: Seq<String>, count: nat)
    requires
        count <= list.len(),
        list.len() <= usize::MAX,
    ensures
        most_recent_first(ranking(list, excludes, count)),
    decreases count,
{
    if count > 0 {
        ranking_is_most_recent_first(list, excludes, (count - 1) as nat);
        ranking_places_are_dated(list, excludes, (count - 1) as nat);
        let earlier = ranking(list, excludes, (count - 1) as nat);
        let ranked = ranking(list, excludes, count);
        match dated_dir(list[count - 1], excludes) {
            Some(modified) => {
                rank_position_splits(earlier, modified);
                let at = rank_position(earlier, modified) as int;
                assert forall|a: int, b: int| 0 <= a < b < ranked.len() implies (
                #[trigger] ranked[a]).0 > (#[trigger] ranked[b]).0 || (ranked[a].0 == ranked[b].0
                    && ranked[a].1 < ranked[b].1) by {
                    if b < at {
                        assert(ranked[a] == earlier[a] && ranked[b] == earlier[b]);
                    } else if a > at {
                        assert(ranked[a] == earlier[a - 1] && ranked[b] == earlier[b - 1]);
                    } else if a == at {
                        assert(ranked[b] == earlier[b - 1]);
                    } else if b == at {
                        assert(ranked[a] == earlier[a]);
                        assert(earlier[a].1 < count - 1);
                        if a < at - 1 {
                            assert(earlier[a].0 >= earlier[at - 1].0);
                        }
                    } else {
                        assert(ranked[a] == earlier[a] && ranked[b] == earlier[b - 1]);
                    }
                }
            },
            None => {},
        }
    }
}

/// The ranking of a listing ranks its dated directories, most recent
/// first.
pub proof fn ranking_is_by_recency(list: Seq<FsNode>, excludes: Seq<String>, count: nat)
    requires
        count <= list.len(),
        list.len() <= usize::MAX,
    ensures
        ranks_dated_dirs(ranking(list, excludes, count), list, excludes, count),
{
    ranking_places_are_dated(list, excludes, count);
    ranking_places_all_dated(list, excludes, count);
    ranking_is_most_recent_first(list, excludes, count);
}

/// Where every ranked directory holds bytes, the candidates are the places
/// of the ranking behind the first `keep`, one for one.
proof fn stale_found_is_the_tail(
    list: Seq<FsNode>,
    ranked: Seq<(i128, usize)>,
    upto: nat,
    keep: nat,
    category: Seq<char>,
    reason: Seq<char>,
)
    requires
        upto <= ranked.len(),
        forall|j: int|
            0 <= j < ranked.len() ==> (#[trigger] ranked[j]).1 < list.len() && capped(
                measured_size(list[ranked[j].1 as int]),
            ) > 0,
    ensures
        stale_found(list, ranked, upto, keep, category, reason).len() == if upto > keep {
            upto - keep
        } else {
            0
        },
        forall|j: int|
            0 <= j < upto - keep ==> #[trigger] stale_found(
                list,
                ranked,
                upto,
                keep,
                category,
                reason,
            )[j] == candidate_of(
                list[ranked[keep + j].1 as int],
                category,
                reason,
                Some(ranked[keep + j].0),
            ),
    decreases upto,
{
    if upto > 0 {
        stale_found_is_the_tail(list, ranked, (upto - 1) as nat, keep, category, reason);
        assert(ranked[upto - 1].1 < list.len());
    }
}

/// Keep-latest: of a directory with `n` dated directories among its
/// entries, each holding bytes, a scan that keeps `keep < n` flags exactly
/// `n - keep`: in the ranking of the `n` by recency, those behind the first
/// `keep`. So no flagged directory is more recent than one that stays.
/// What else the directory lists, files or links, plays no part.
pub proof fn keep_latest_flags_the_least_recent(
    base: FsNode,
    keep: nat,
    category: Seq<char>,
    reason: Seq<char>,
    excludes: Seq<String>,
)
    requires
        !excluded_by(base.canonical@, excludes),
        base.exists,
        base.entries is Some,
        keep < ranking(base.entries->0@, excludes, base.entries->0@.len()).len(),
        forall|i: int|
            0 <= i < base.entries->0@.len() && dated_dir(
                #[trigger] base.entries->0@[i],
                excludes,
            ) is Some ==> capped(measured_size(base.entries->0@[i])) > 0,
    ensures
        ({
            let list = base.entries->0@;
            let ranked = ranking(list, excludes, list.len());
            let found = keep_latest_found(base, keep, category, reason, excludes);
            &&& ranks_dated_dirs(ranked, list, excludes, list.len())
            &&& found.len() == ranked.len() - keep
            &&& forall|j: int|
                0 <= j < found.len() ==> #[trigger] found[j] == candidate_of(
                    list[ranked[keep + j].1 as int],
                    category,
                    reason,
                    Some(ranked[keep + j].0),
                )
            &&& forall|kept: int, flagged: int|
                0 <= kept < keep <= flagged < ranked.len() ==> (#[trigger] ranked[kept]).0 >= (
                #[trigger] ranked[flagged]).0
        }),
{
    let list = base.entries->0@;
    let ranked = ranking(list, excludes, list.len());
    assert(list.len() <= usize::MAX) by {
        vstd::std_specs::vec::axiom_spec_len(&base.entries->0);
    }
    ranking_is_by_recency(list, excludes, list.len());
    assert forall|j: int| 0 <= j < ranked.len() implies (#[trigger] ranked[j]).1 < list.len()
        && capped(measured_size(list[ranked[j].1 as int])) > 0 by {
        assert(dated_dir(list[ranked[j].1 as int], excludes) is Some);
    }
    stale_found_is_the_tail(list, ranked, ranked.len(), keep, category, reason);
}

/// The directories that a walk from `root` visits on `level`: the root
/// itself on level 0, and on each further level the entries that the walk
/// enters from the directories one level up.
pub open spec fn dirs_at_level(
    root: &FsNode,
    level: nat,
    base_reason: Seq<char>,
    cutoff: Option<i128>,
    excludes: Seq<String>,
) -> Seq<&FsNode>
    decreases level,
{
    if level == 0 {
        seq![root]
    } else {
        let above = dirs_at_level(root, (level - 1) as nat, base_reason, cutoff, excludes);
        level_entered(above, above.len(), base_reason, cutoff, excludes)
    }
}

/// The candidates among the entries of the directories on the levels 0 to
/// `level` below `root`, level after level.
pub open spec fn found_down_to(
    root: &FsNode,
    level: nat,
    category: Seq<char>,
    base_reason: Seq<char>,
    cutoff: Option<i128>,
    excludes: Seq<String>,
) -> Seq<CandidateView>
    decreases level,
{
    let dirs = dirs_at_level(root, level, base_reason, cutoff, excludes);
    let here = level_found(dirs, dirs.len(), category, base_reason, cutoff, excludes);
    if level == 0 {
        here
    } else {
        found_down_to(root, (level - 1) as nat, category, base_reason, cutoff, excludes) + here
    }
}

proof fn walk_continues(
    root: &FsNode,
    level: nat,
    max_depth: nat,
    category: Seq<char>,
    base_reason: Seq<char>,
    cutoff: Option<i128>,
    excludes: Seq<String>,
)
    requires
        level <= max_depth,
    ensures
        found_down_to(root, max_depth, category, base_reason, cutoff, excludes) == (if level == 0 {
            Seq::<CandidateView>::empty()
        } else {
            found_down_to(root, (level - 1) as nat, category, base_reason, cutoff, excludes)
        }) + walk_levels(
            dirs_at_level(root, level, base_reason, cutoff, excludes),
            level,
            max_depth,
            category,
            base_reason,
            cutoff,
            excludes,
        ),
    decreases max_depth - level,
{
    let before = if level == 0 {
        Seq::<CandidateView>::empty()
    } else {
        found_down_to(root, (level - 1) as nat, category, base_reason, cutoff, excludes)
    };
    let dirs = dirs_at_level(root, level, base_reason, cutoff, excludes);
    let here = level_found(dirs, dirs.len(), category, base_reason, cutoff, excludes);
    assert(found_down_to(root, level, category, base_reason, cutoff, excludes) =~= before + here);
    if level < max_depth {
        walk_continues(root, level + 1, max_depth, category, base_reason, cutoff, excludes);
        let below = walk_levels(
            dirs_at_level(root, level + 1, base_reason, cutoff, excludes),
            level + 1,
            max_depth,
            category,
            base_reason,
            cutoff,
            excludes,
        );
        assert((before + here) + below =~= before + (here + below));
    }
}

/// Depth: a walk with the limit `max_depth` finds what lies among the
/// entries of the directories on the levels 0 to `max_depth` below the
/// root, and nothing else. A candidate is thus never more than one level
/// below a directory on level `max_depth`.
pub proof fn walk_stays_within_depth(
    root: &FsNode,
    max_depth: nat,
    category: Seq<char>,
    base_reason: Seq<char>,
    cutoff: Option<i128>,
    excludes: Seq<String>,
)
    ensures
        walk_levels(seq![root], 0, max_depth, category, base_reason, cutoff, excludes)
            == found_down_to(root, max_depth, category, base_reason, cutoff, excludes),
{
    walk_continues(root, 0, max_depth, category, base_reason, cutoff, excludes);
    assert(Seq::<CandidateView>::empty() + walk_levels(
        seq![root],
        0,
        max_depth,
        category,
        base_reason,
        cutoff,
        excludes,
    ) =~= walk_levels(seq![root], 0, max_depth, category, base_reason, cutoff, excludes));
}

/// Age: with a minimum age of 0 days there is no cutoff, and whether a
/// directory is flagged, and why, does not depend on when it was modified.
pub proof fn age_plays_no_part_without_days(
    now: i128,
    name: Seq<char>,
    base_reason: Seq<char>,
    patterns: Seq<Seq<char>>,
    modified: Option<i128>,
    other: Option<i128>,
)
    ensures
        cutoff_for(now, 0) is None,
        classification(name, base_reason, patterns, cutoff_for(now, 0), modified)
            == classification(name, base_reason, patterns, cutoff_for(now, 0), other),
{
}

/// Age: with a minimum age of `days > 0` whose cutoff can be represented,
/// a directory that was modified at the cutoff or later is flagged only if
/// it is `__pycache__`.
pub proof fn recent_directories_are_spared(
    now: i128,
    days: u64,
    name: Seq<char>,
    base_reason: Seq<char>,
    patterns: Seq<Seq<char>>,
    modified: i128,
)
    requires
        days > 0,
        now - days * 86_400_000_000_000 >= i128::MIN,
        modified >= now - days * 86_400_000_000_000,
        name != "__pycache__"@,
    ensures
        classification(name, base_reason, patterns, cutoff_for(now, days), Some(modified)) is None,
{
}

} // verus!
