//! Brings the finds of all strategies into one list: without duplicates,
//! in a fixed order, with a total.
use crate::model::{Candidate, CandidateView, candidate_views};
use crate::order::{goes_before, in_order, ranks_before, ranks_before_carries, ranks_before_is_one_way};
use crate::size::capped;
use crate::text::same_text;
use vstd::prelude::*;

verus! {

/// Whether one of the first `count` candidates has the canonical path `key`.
pub open spec fn seen_among(list: Seq<CandidateView>, count: nat, key: Seq<char>) -> bool {
    exists|j: int| 0 <= j < count && j < list.len() && (#[trigger] list[j]).canonical == key
}

/// The first `count` candidates without those whose canonical path an
/// earlier one has: of each path the first find stays.
pub open spec fn deduped(list: Seq<CandidateView>, count: nat) -> Seq<CandidateView>
    decreases count,
{
    if count == 0 || count > list.len() {
        Seq::empty()
    } else {
        let head = deduped(list, (count - 1) as nat);
        if seen_among(list, (count - 1) as nat, list[count - 1].canonical) {
            head
        } else {
            head.push(list[count - 1])
        }
    }
}

/// Whether no two candidates share a canonical path.
pub open spec fn distinct_paths(list: Seq<CandidateView>) -> bool {
    forall|i: int, j: int|
        0 <= i < j < list.len() ==> (#[trigger] list[i]).canonical != (#[trigger] list[j]).canonical
}

/// Whether every candidate of `out` is one of `source`.
pub open spec fn drawn_from(out: Seq<CandidateView>, source: Seq<CandidateView>) -> bool {
    forall|k: int| 0 <= k < out.len() ==> source.contains(#[trigger] out[k])
}

fn holds_key(list: &Vec<Candidate>, key: &str) -> (found: bool)
    ensures
        found == seen_among(candidate_views(list@), list@.len(), key@),
{
    let mut k: usize = 0;
    while k < list.len()
        invariant
            k <= list@.len(),
            forall|j: int| 0 <= j < k ==> (#[trigger] candidate_views(list@)[j]).canonical != key@,
        decreases list@.len() - k,
    {
        if same_text(list[k].canonical.as_str(), key) {
            assert(candidate_views(list@)[k as int].canonical == key@);
            return true;
        }
        k += 1;
    }
    false
}

/// Drops every candidate whose canonical path an earlier one has.
pub fn dedupe_candidates(candidates: Vec<Candidate>) -> (unique: Vec<Candidate>)
    ensures
        candidate_views(unique@) == deduped(candidate_views(candidates@), candidates@.len()),
        distinct_paths(candidate_views(unique@)),
        drawn_from(candidate_views(unique@), candidate_views(candidates@)),
{
    let mut unique: Vec<Candidate> = Vec::new();
    let ghost source = candidate_views(candidates@);
    let ghost mut origin: Seq<int> = Seq::empty();
    let ghost mut kept_as: Seq<int> = Seq::empty();
    let mut i: usize = 0;
    assert(candidate_views(unique@) =~= Seq::empty());
    while i < candidates.len()
        invariant
            i <= candidates@.len(),
            source == candidate_views(candidates@),
            candidate_views(unique@) == deduped(source, i as nat),
            origin.len() == unique@.len(),
            forall|k: int|
                0 <= k < origin.len() ==> 0 <= #[trigger] origin[k] < i && candidate_views(
                    unique@,
                )[k] == source[origin[k]],
            kept_as.len() == i,
            forall|j: int|
                0 <= j < i ==> 0 <= #[trigger] kept_as[j] < unique@.len() && candidate_views(
                    unique@,
                )[kept_as[j]].canonical == source[j].canonical,
            distinct_paths(candidate_views(unique@)),
        decreases candidates@.len() - i,
    {
        let candidate = &candidates[i];
        let ghost held = candidate_views(unique@);
        let known = holds_key(&unique, candidate.canonical.as_str());
        proof {
            let key = source[i as int].canonical;
            if seen_among(held, unique@.len(), key) {
                let k = choose|k: int| 0 <= k < unique@.len() && (#[trigger] held[k]).canonical == key;
                assert(source[origin[k]].canonical == key);
                assert(seen_among(source, i as nat, key));
            }
            if seen_among(source, i as nat, key) {
                let j = choose|j: int| 0 <= j < i && (#[trigger] source[j]).canonical == key;
                assert(held[kept_as[j]].canonical == key);
                assert(seen_among(held, unique@.len(), key));
            }
        }
        if known {
            proof {
                let k = choose|k: int|
                    0 <= k < unique@.len() && (#[trigger] held[k]).canonical
                        == source[i as int].canonical;
                kept_as = kept_as.push(k);
            }
        } else {
            let copy = candidate.clone();
            proof {
                crate::discover::views_push(unique@, copy);
                origin = origin.push(i as int);
                kept_as = kept_as.push(unique@.len() as int);
                assert forall|a: int, b: int| 0 <= a < b < held.len() + 1 implies (
                #[trigger] held.push(copy@)[a]).canonical != (#[trigger] held.push(
                    copy@,
                )[b]).canonical by {
                    if b == held.len() {
                        assert(held[a].canonical != source[i as int].canonical);
                    }
                }
            }
            unique.push(copy);
        }
        i += 1;
    }
    proof {
        assert forall|k: int| 0 <= k < unique@.len() implies source.contains(
            #[trigger] candidate_views(unique@)[k],
        ) by {
            assert(source[origin[k]] == candidate_views(unique@)[k]);
        }
    }
    unique
}

/// Where a candidate enters an ordered list: behind every one that it does
/// not come before.
pub open spec fn order_position(sorted: Seq<CandidateView>, item: CandidateView) -> nat
    decreases sorted.len(),
{
    if sorted.len() == 0 {
        0
    } else if ranks_before(item, sorted.last()) {
        order_position(sorted.drop_last(), item)
    } else {
        sorted.len()
    }
}

/// The first `count` candidates in the order of [`ranks_before`];
/// candidates that this order does not tell apart keep their places
/// relative to each other.
pub open spec fn ordered(list: Seq<CandidateView>, count: nat) -> Seq<CandidateView>
    decreases count,
{
    if count == 0 || count > list.len() {
        Seq::empty()
    } else {
        let head = ordered(list, (count - 1) as nat);
        head.insert(order_position(head, list[count - 1]) as int, list[count - 1])
    }
}

/// Puts the candidates in order: largest first, then by category, then by
/// path.
pub fn sort_candidates(candidates: Vec<Candidate>) -> (sorted: Vec<Candidate>)
    ensures
        candidate_views(sorted@) == ordered(candidate_views(candidates@), candidates@.len()),
        in_order(candidate_views(sorted@)),
        sorted@.len() == candidates@.len(),
        drawn_from(candidate_views(sorted@), candidate_views(candidates@)),
        distinct_paths(candidate_views(candidates@)) ==> distinct_paths(candidate_views(sorted@)),
{
    let mut sorted: Vec<Candidate> = Vec::new();
    let ghost source = candidate_views(candidates@);
    let ghost mut origin: Seq<int> = Seq::empty();
    let mut i: usize = 0;
    assert(candidate_views(sorted@) =~= Seq::empty());
    while i < candidates.len()
        invariant
            i <= candidates@.len(),
            source == candidate_views(candidates@),
            candidate_views(sorted@) == ordered(source, i as nat),
            in_order(candidate_views(sorted@)),
            sorted@.len() == i,
            origin.len() == i,
            forall|k: int|
                0 <= k < i ==> 0 <= #[trigger] origin[k] < i && candidate_views(sorted@)[k]
                    == source[origin[k]],
            forall|a: int, b: int| 0 <= a < b < i ==> #[trigger] origin[a] != #[trigger] origin[b],
        decreases candidates@.len() - i,
    {
        let item = candidates[i].clone();
        let ghost held = candidate_views(sorted@);
        let mut at: usize = sorted.len();
        assert(held.subrange(0, at as int) =~= held);
        while at > 0 && goes_before(&item, &sorted[at - 1])
            invariant
                at <= sorted@.len(),
                held == candidate_views(sorted@),
                order_position(held.subrange(0, at as int), item@) == order_position(held, item@),
                forall|k: int| at <= k < held.len() ==> ranks_before(item@, #[trigger] held[k]),
            decreases at,
        {
            assert(held.subrange(0, at as int).drop_last() =~= held.subrange(0, at - 1));
            at -= 1;
        }
        let ghost old_origin = origin;
        proof {
            assert(order_position(held, item@) == at) by {
                if at > 0 {
                    assert(held.subrange(0, at as int).last() == held[at - 1]);
                }
            }
            origin = origin.insert(at as int, i as int);
            let grown = held.insert(at as int, item@);
            assert forall|a: int, b: int| 0 <= a < b < grown.len() implies !ranks_before(
                grown[b],
                grown[a],
            ) by {
                if b == at {
                    if ranks_before(item@, held[a]) {
                        if a < at - 1 {
                            ranks_before_carries(item@, held[a], held[at - 1]);
                        }
                    }
                } else if a == at {
                    ranks_before_is_one_way(item@, held[b - 1]);
                } else {
                    let a0 = if a < at { a } else { a - 1 };
                    let b0 = if b < at { b } else { b - 1 };
                    assert(!ranks_before(held[b0], held[a0]));
                }
            }
            assert(candidate_views(sorted@.insert(at as int, item)) =~= grown);
            assert forall|k: int| 0 <= k < i + 1 implies 0 <= #[trigger] origin[k] < i + 1
                && grown[k] == source[origin[k]] by {
                if k < at {
                    assert(origin[k] == old_origin[k]);
                } else if k > at {
                    assert(origin[k] == old_origin[k - 1]);
                }
            }
            assert forall|a: int, b: int| 0 <= a < b < i + 1 implies #[trigger] origin[a]
                != #[trigger] origin[b] by {
                let a0 = if a < at { a } else { a - 1 };
                let b0 = if b < at { b } else { b - 1 };
                if a != at && b != at {
                    assert(old_origin[a0] != old_origin[b0]);
                } else if a == at {
                    assert(origin[b] == old_origin[b0]);
                } else {
                    assert(origin[a] == old_origin[a0]);
                }
            }
        }
        sorted.insert(at, item);
        i += 1;
    }
    proof {
        let out = candidate_views(sorted@);
        assert forall|k: int| 0 <= k < out.len() implies source.contains(#[trigger] out[k]) by {
            assert(source[origin[k]] == out[k]);
        }
        if distinct_paths(source) {
            assert forall|a: int, b: int| 0 <= a < b < out.len() implies (#[trigger] out[a]).canonical
                != (#[trigger] out[b]).canonical by {
                assert(origin[a] != origin[b]);
                if origin[a] < origin[b] {
                    assert(source[origin[a]].canonical != source[origin[b]].canonical);
                } else {
                    assert(source[origin[b]].canonical != source[origin[a]].canonical);
                }
            }
        }
    }
    sorted
}

/// The sizes of the first `count` candidates, added up.
pub open spec fn total_size(list: Seq<CandidateView>, count: nat) -> nat
    decreases count,
{
    if count == 0 || count > list.len() {
        0
    } else {
        total_size(list, (count - 1) as nat) + list[count - 1].size_bytes as nat
    }
}

/// The bytes that removing all `candidates` reclaims; the sum stops at
/// `u64::MAX`.
pub fn scan_total_size(candidates: &Vec<Candidate>) -> (total: u64)
    ensures
        total == capped(total_size(candidate_views(candidates@), candidates@.len())),
{
    let mut total: u64 = 0;
    let mut i: usize = 0;
    while i < candidates.len()
        invariant
            i <= candidates@.len(),
            total == capped(total_size(candidate_views(candidates@), i as nat)),
        decreases candidates@.len() - i,
    {
        let size = candidates[i].size_bytes;
        assert(candidate_views(candidates@)[i as int].size_bytes == size);
        total = if size > u64::MAX - total {
            u64::MAX
        } else {
            total + size
        };
        i += 1;
    }
    total
}

} // verus!
