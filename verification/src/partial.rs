//! What a scan has found when it is stopped is part of what it finds when
//! it runs to its end.
use crate::aggregate::{deduped, drawn_from, order_position, ordered, seen_among};
use crate::classify::CacheTargetView;
use crate::discover::stale_found;
use crate::model::{CandidateView, FsNode, Snapshot};
use crate::scan::cache_targets_found;
use crate::walk::{level_found, roots_found};
use vstd::prelude::*;

verus! {

/// What begins a list still begins it behind a common front.
pub proof fn begins_behind(
    front: Seq<CandidateView>,
    part: Seq<CandidateView>,
    whole: Seq<CandidateView>,
)
    requires
        part.is_prefix_of(whole),
    ensures
        (front + part).is_prefix_of(front + whole),
{
}

/// A beginning of a beginning is a beginning.
pub proof fn begins_chain(
    part: Seq<CandidateView>,
    middle: Seq<CandidateView>,
    whole: Seq<CandidateView>,
)
    requires
        part.is_prefix_of(middle),
        middle.is_prefix_of(whole),
    ensures
        part.is_prefix_of(whole),
{
}

/// The candidates of a ranking come in the order of its places.
pub proof fn stale_found_grows(
    list: Seq<FsNode>,
    ranked: Seq<(i128, usize)>,
    part: nat,
    upto: nat,
    keep: nat,
    category: Seq<char>,
    reason: Seq<char>,
)
    requires
        part <= upto <= ranked.len(),
    ensures
        stale_found(list, ranked, part, keep, category, reason).is_prefix_of(
            stale_found(list, ranked, upto, keep, category, reason),
        ),
    decreases upto - part,
{
    if part < upto {
        stale_found_grows(list, ranked, part, (upto - 1) as nat, keep, category, reason);
    }
}

/// The candidates of a level come directory by directory.
pub proof fn level_found_grows(
    frontier: Seq<&FsNode>,
    part: nat,
    upto: nat,
    category: Seq<char>,
    base_reason: Seq<char>,
    cutoff: Option<i128>,
    excludes: Seq<String>,
)
    requires
        part <= upto <= frontier.len(),
    ensures
        level_found(frontier, part, category, base_reason, cutoff, excludes).is_prefix_of(
            level_found(frontier, upto, category, base_reason, cutoff, excludes),
        ),
    decreases upto - part,
{
    if part < upto {
        level_found_grows(
            frontier,
            part,
            (upto - 1) as nat,
            category,
            base_reason,
            cutoff,
            excludes,
        );
    }
}

/// The candidates of the project trees come root by root.
pub proof fn roots_found_grows(
    roots: Seq<String>,
    part: nat,
    upto: nat,
    fs: &Snapshot,
    max_depth: nat,
    category: Seq<char>,
    base_reason: Seq<char>,
    cutoff: Option<i128>,
    excludes: Seq<String>,
)
    requires
        part <= upto <= roots.len(),
    ensures
        roots_found(
            roots,
            part,
            fs,
            max_depth,
            category,
            base_reason,
            cutoff,
            excludes,
        ).is_prefix_of(
            roots_found(roots, upto, fs, max_depth, category, base_reason, cutoff, excludes),
        ),
    decreases upto - part,
{
    if part < upto {
        roots_found_grows(
            roots,
            part,
            (upto - 1) as nat,
            fs,
            max_depth,
            category,
            base_reason,
            cutoff,
            excludes,
        );
    }
}

/// The candidates of the cache locations come location by location.
pub proof fn cache_targets_found_grows(
    fs: &Snapshot,
    targets: Seq<CacheTargetView>,
    part: nat,
    upto: nat,
    excludes: Seq<String>,
)
    requires
        part <= upto <= targets.len(),
    ensures
        cache_targets_found(fs, targets, part, excludes).is_prefix_of(
            cache_targets_found(fs, targets, upto, excludes),
        ),
    decreases upto - part,
{
    if part < upto {
        cache_targets_found_grows(fs, targets, part, (upto - 1) as nat, excludes);
    }
}

/// What stays of the first candidates does not depend on those that
/// follow.
pub proof fn deduped_of_beginning(
    part: Seq<CandidateView>,
    whole: Seq<CandidateView>,
    count: nat,
)
    requires
        part.is_prefix_of(whole),
        count <= part.len(),
    ensures
        deduped(part, count) == deduped(whole, count),
    decreases count,
{
    if count > 0 {
        deduped_of_beginning(part, whole, (count - 1) as nat);
        let key = part[count - 1].canonical;
        assert(part[count - 1] == whole[count - 1]);
        if seen_among(part, (count - 1) as nat, key) {
            let j = choose|j: int|
                0 <= j < count - 1 && j < part.len() && (#[trigger] part[j]).canonical == key;
            assert(whole[j].canonical == key);
        }
        if seen_among(whole, (count - 1) as nat, key) {
            let j = choose|j: int|
                0 <= j < count - 1 && j < whole.len() && (#[trigger] whole[j]).canonical == key;
            assert(part[j].canonical == key);
        }
    }
}

/// What stays of the first candidates stays when more are considered.
pub proof fn deduped_grows(list: Seq<CandidateView>, part: nat, upto: nat)
    requires
        part <= upto <= list.len(),
    ensures
        deduped(list, part).is_prefix_of(deduped(list, upto)),
    decreases upto - part,
{
    if part < upto {
        deduped_grows(list, part, (upto - 1) as nat);
    }
}

/// A candidate enters an ordered list at one of its places or at its end.
pub proof fn order_position_is_a_place(sorted: Seq<CandidateView>, item: CandidateView)
    ensures
        order_position(sorted, item) <= sorted.len(),
    decreases sorted.len(),
{
    if sorted.len() > 0 {
        order_position_is_a_place(sorted.drop_last(), item);
    }
}

/// Ordering loses no candidate.
pub proof fn ordered_holds_all(list: Seq<CandidateView>, count: nat, k: int)
    requires
        0 <= k < count <= list.len(),
    ensures
        ordered(list, count).contains(list[k]),
    decreases count,
{
    let head = ordered(list, (count - 1) as nat);
    let at = order_position(head, list[count - 1]) as int;
    order_position_is_a_place(head, list[count - 1]);
    let grown = head.insert(at, list[count - 1]);
    if k == count - 1 {
        assert(grown[at] == list[k]);
    } else {
        ordered_holds_all(list, (count - 1) as nat, k);
        let j = choose|j: int| 0 <= j < head.len() && head[j] == list[k];
        if j < at {
            assert(grown[j] == list[k]);
        } else {
            assert(grown[j + 1] == list[k]);
        }
    }
}

/// Whatever stays of a beginning of the finds is in the ordered result of
/// all of them.
pub proof fn part_is_drawn_from_whole(part: Seq<CandidateView>, whole: Seq<CandidateView>)
    requires
        part.is_prefix_of(whole),
    ensures
        drawn_from(
            deduped(part, part.len()),
            ordered(deduped(whole, whole.len()), deduped(whole, whole.len()).len()),
        ),
{
    let unique = deduped(whole, whole.len());
    let some = deduped(part, part.len());
    deduped_of_beginning(part, whole, part.len());
    deduped_grows(whole, part.len(), whole.len());
    assert forall|k: int| 0 <= k < some.len() implies ordered(unique, unique.len()).contains(
        #[trigger] some[k],
    ) by {
        assert(some[k] == unique[k]);
        ordered_holds_all(unique, unique.len(), k);
    }
}

} // verus!
