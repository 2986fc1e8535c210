//! The three ways in which removable directories are found.
use crate::model::{Candidate, CandidateView, FsNode, NodeKind, candidate_views};
use crate::path::{excluded_by, is_excluded};
use crate::size::{calculate_size, capped, measured_size};
use crate::text::{concat2, owned, starts_with};
use vstd::prelude::*;

verus! {

/// Whether `text` is the progress message for one of `paths`: the words
/// `Scanning: ` and the path.
pub open spec fn reports_one_of(text: Seq<char>, paths: Set<Seq<char>>) -> bool {
    starts_with(text, "Scanning: "@) && paths.contains(text.skip("Scanning: "@.len() as int))
}

/// Whether a progress sink can be handed the message for each of `paths`.
/// A scan that is to report these paths hands it nothing else.
pub open spec fn accepts_progress<F: Fn(&str) -> ()>(sink: &F, paths: Set<Seq<char>>) -> bool {
    forall|message: &str| reports_one_of(message@, paths) ==> (*sink).requires((message,))
}

/// Whether the sink was handed the progress message for `path`.
pub open spec fn was_told<F: Fn(&str) -> ()>(sink: &F, path: Seq<char>) -> bool {
    exists|message: &str| message@ == "Scanning: "@ + path && (*sink).ensures((message,), ())
}

/// Whether the sink was handed the progress message for each of `paths`.
pub open spec fn told<F: Fn(&str) -> ()>(sink: &F, paths: Set<Seq<char>>) -> bool {
    forall|path: Seq<char>| paths.contains(path) ==> #[trigger] was_told(sink, path)
}

/// A sink that takes the messages for some paths takes those for a part
/// of them.
pub proof fn accepts_part<F: Fn(&str) -> ()>(sink: &F, whole: Set<Seq<char>>, part: Set<Seq<char>>)
    requires
        accepts_progress(sink, whole),
        part.subset_of(whole),
    ensures
        accepts_progress(sink, part),
{
}

/// Whether a stop signal can be asked at any time.
pub open spec fn pollable<C: Fn() -> bool>(cancelled: &C) -> bool {
    (*cancelled).requires(())
}

/// Whether a stop signal never says stop.
pub open spec fn never_stops<C: Fn() -> bool>(cancelled: &C) -> bool {
    forall|stop: bool| (*cancelled).ensures((), stop) ==> !stop
}

/// Tells the sink that the scan turns to `path`.
pub(crate) fn report<F: Fn(&str) -> ()>(sink: &F, path: &str)
    requires
        accepts_progress(sink, set![path@]),
    ensures
        was_told(sink, path@),
{
    let message = concat2("Scanning: ", path);
    let text = message.as_str();
    assert(text@.subrange(0, "Scanning: "@.len() as int) =~= "Scanning: "@);
    assert(text@.skip("Scanning: "@.len() as int) =~= path@);
    assert(reports_one_of(text@, set![path@]));
    sink(text);
}

/// The candidate that stands for `node`.
pub open spec fn candidate_of(
    node: FsNode,
    category: Seq<char>,
    reason: Seq<char>,
    last_used: Option<i128>,
) -> CandidateView {
    CandidateView {
        path: node.path@,
        canonical: node.canonical@,
        size_bytes: capped(measured_size(node)),
        category,
        reason,
        last_used,
    }
}

/// Whether every candidate reclaims space and none is excluded.
pub open spec fn all_clean(found: Seq<CandidateView>, excludes: Seq<String>) -> bool {
    forall|i: int|
        0 <= i < found.len() ==> (#[trigger] found[i]).size_bytes > 0 && !excluded_by(
            found[i].canonical,
            excludes,
        )
}

/// The views of a list that grew by one candidate.
pub proof fn views_push(list: Seq<Candidate>, item: Candidate)
    ensures
        candidate_views(list.push(item)) == candidate_views(list).push(item@),
{
    assert(candidate_views(list.push(item)) =~= candidate_views(list).push(item@));
}

fn make_candidate(
    node: &FsNode,
    size: u64,
    category: &str,
    reason: String,
    last_used: Option<i128>,
) -> (candidate: Candidate)
    requires
        size == capped(measured_size(*node)),
    ensures
        candidate@ == candidate_of(*node, category@, reason@, last_used),
{
    Candidate {
        path: node.path.clone(),
        canonical: node.canonical.clone(),
        size_bytes: size,
        category: owned(category),
        reason,
        last_used,
    }
}

/// The time of modification of an entry that takes part in a ranking by
/// recency: it is not excluded, its metadata can be read, it is a directory
/// itself, and the time is known. `None` for every other entry.
pub open spec fn dated_dir(entry: FsNode, excludes: Seq<String>) -> Option<i128> {
    if excluded_by(entry.canonical@, excludes) {
        None
    } else {
        match entry.meta {
            Some(meta) => if meta.kind == NodeKind::Directory {
                meta.modified
            } else {
                None
            },
            None => None,
        }
    }
}

/// Where a directory modified at `modified` enters a ranking: behind every
/// entry that is not older than it.
pub open spec fn rank_position(ranked: Seq<(i128, usize)>, modified: i128) -> nat
    decreases ranked.len(),
{
    if ranked.len() == 0 {
        0
    } else if ranked.last().0 < modified {
        rank_position(ranked.drop_last(), modified)
    } else {
        ranked.len()
    }
}

/// The dated directories among the first `count` entries of `list`, most
/// recently modified first, each with its time and its place in `list`.
/// Directories of one time keep their listing order.
pub open spec fn ranking(list: Seq<FsNode>, excludes: Seq<String>, count: nat) -> Seq<
    (i128, usize),
>
    decreases count,
{
    if count == 0 || count > list.len() {
        Seq::empty()
    } else {
        let earlier = ranking(list, excludes, (count - 1) as nat);
        match dated_dir(list[count - 1], excludes) {
            Some(modified) => earlier.insert(
                rank_position(earlier, modified) as int,
                (modified, (count - 1) as usize),
            ),
            None => earlier,
        }
    }
}

/// The candidates among the first `upto` places of a ranking: every
/// directory behind the first `keep` that holds any bytes.
pub open spec fn stale_found(
    list: Seq<FsNode>,
    ranked: Seq<(i128, usize)>,
    upto: nat,
    keep: nat,
    category: Seq<char>,
    reason: Seq<char>,
) -> Seq<CandidateView>
    decreases upto,
{
    if upto == 0 || upto > ranked.len() {
        Seq::empty()
    } else {
        let head = stale_found(list, ranked, (upto - 1) as nat, keep, category, reason);
        let place = ranked[upto - 1];
        if upto - 1 >= keep && 0 <= place.1 < list.len() && capped(
            measured_size(list[place.1 as int]),
        ) > 0 {
            head.push(candidate_of(list[place.1 as int], category, reason, Some(place.0)))
        } else {
            head
        }
    }
}

/// The paths among the first `count` entries of a listing that a ranking
/// reports: those of the entries that are not excluded.
pub open spec fn listed_told(list: Seq<FsNode>, excludes: Seq<String>, count: nat) -> Set<Seq<char>>
    decreases count,
{
    if count == 0 || count > list.len() {
        Set::empty()
    } else {
        let head = listed_told(list, excludes, (count - 1) as nat);
        if excluded_by(list[count - 1].canonical@, excludes) {
            head
        } else {
            head.insert(list[count - 1].path@)
        }
    }
}

/// The paths that a keep-latest scan of `base` reports: none where `base`
/// is excluded or missing, otherwise `base` and every entry of it that is
/// not excluded.
pub open spec fn keep_latest_told(base: FsNode, excludes: Seq<String>) -> Set<Seq<char>> {
    if excluded_by(base.canonical@, excludes) || !base.exists {
        Set::empty()
    } else {
        match base.entries {
            None => set![base.path@],
            Some(list) => listed_told(list@, excludes, list@.len()).insert(base.path@),
        }
    }
}

/// The paths that a whole-directory scan of `node` reports: its own, unless
/// it is excluded or missing.
pub open spec fn whole_directory_told(node: FsNode, excludes: Seq<String>) -> Set<Seq<char>> {
    if excluded_by(node.canonical@, excludes) || !node.exists {
        Set::empty()
    } else {
        set![node.path@]
    }
}

/// An entry that is not excluded is among those that a ranking reports.
pub proof fn listed_told_holds(list: Seq<FsNode>, excludes: Seq<String>, i: int, count: nat)
    requires
        0 <= i < count <= list.len(),
        !excluded_by(list[i].canonical@, excludes),
    ensures
        listed_told(list, excludes, count).contains(list[i].path@),
    decreases count,
{
    if i < count - 1 {
        listed_told_holds(list, excludes, i, (count - 1) as nat);
    }
}

/// What a keep-latest scan of `base` finds: nothing where `base` is
/// excluded, missing or cannot be listed; otherwise its dated directories
/// ranked by recency, without the first `keep` and without the empty ones.
pub open spec fn keep_latest_found(
    base: FsNode,
    keep: nat,
    category: Seq<char>,
    reason: Seq<char>,
    excludes: Seq<String>,
) -> Seq<CandidateView> {
    if excluded_by(base.canonical@, excludes) || !base.exists {
        Seq::empty()
    } else {
        match base.entries {
            None => Seq::empty(),
            Some(list) => {
                let ranked = ranking(list@, excludes, list@.len());
                stale_found(list@, ranked, ranked.len(), keep, category, reason)
            },
        }
    }
}

/// Ranks the dated directories of a listing; see [`ranking`]. Every entry
/// that is not excluded is reported to the sink. The stop signal is asked
/// before each entry; once it says stop, the ranking is left unfinished.
fn rank_entries<C: Fn() -> bool, F: Fn(&str) -> ()>(
    list: &Vec<FsNode>,
    excludes: &Vec<String>,
    cancelled: &C,
    sink: &F,
) -> (out: (Vec<(i128, usize)>, bool))
    requires
        pollable(cancelled),
        accepts_progress(sink, listed_told(list@, excludes@, list@.len())),
    ensures
        out.1 ==> !never_stops(cancelled),
        !out.1 ==> out.0@ == ranking(list@, excludes@, list@.len()),
        !out.1 ==> told(sink, listed_told(list@, excludes@, list@.len())),
        forall|j: int| 0 <= j < out.0@.len() ==> (#[trigger] out.0@[j]).1 < list@.len(),
        forall|j: int|
            0 <= j < out.0@.len() ==> !excluded_by(
                list@[(#[trigger] out.0@[j]).1 as int].canonical@,
                excludes@,
            ),
{
    let mut ranked: Vec<(i128, usize)> = Vec::new();
    let mut i: usize = 0;
    while i < list.len()
        invariant
            i <= list@.len(),
            pollable(cancelled),
            accepts_progress(sink, listed_told(list@, excludes@, list@.len())),
            told(sink, listed_told(list@, excludes@, i as nat)),
            ranked@ == ranking(list@, excludes@, i as nat),
            forall|j: int| 0 <= j < ranked@.len() ==> (#[trigger] ranked@[j]).1 < i,
            forall|j: int|
                0 <= j < ranked@.len() ==> !excluded_by(
                    list@[(#[trigger] ranked@[j]).1 as int].canonical@,
                    excludes@,
                ),
        decreases list@.len() - i,
    {
        if cancelled() {
            return (ranked, true);
        }
        let entry = &list[i];
        if !is_excluded(entry.canonical.as_str(), excludes) {
            proof {
                listed_told_holds(list@, excludes@, i as int, list@.len());
            }
            report(sink, entry.path.as_str());
            let dated: Option<i128> = match entry.meta {
                Some(meta) => match meta.kind {
                    NodeKind::Directory => meta.modified,
                    _ => None,
                },
                None => None,
            };
            match dated {
                Some(modified) => {
                    let mut at: usize = ranked.len();
                    assert(ranked@.subrange(0, at as int) =~= ranked@);
                    while at > 0 && ranked[at - 1].0 < modified
                        invariant
                            at <= ranked@.len(),
                            rank_position(ranked@.subrange(0, at as int), modified)
                                == rank_position(ranked@, modified),
                        decreases at,
                    {
                        assert(ranked@.subrange(0, at as int).drop_last() =~= ranked@.subrange(
                            0,
                            at - 1,
                        ));
                        at -= 1;
                    }
                    let ghost before = ranked@;
                    ranked.insert(at, (modified, i));
                    assert forall|j: int| 0 <= j < ranked@.len() implies (#[trigger] ranked@[j]).1
                        < i + 1 && !excluded_by(
                        list@[ranked@[j].1 as int].canonical@,
                        excludes@,
                    ) by {
                        if j < at {
                            assert(ranked@[j] == before[j]);
                        } else if j > at {
                            assert(ranked@[j] == before[j - 1]);
                        }
                    }
                },
                None => {},
            }
        }
        i += 1;
    }
    (ranked, false)
}

/// Flags the directories below `base` that are not among the `keep` most
/// recently modified, for as long as the stop signal allows. The signal is
/// asked before `base` is listed, before each entry is looked at and
/// before each directory is measured. The second result says whether it
/// said stop; what was found until then is handed out, and nothing at all
/// where the ranking was not finished.
pub fn collect_keep_latest_with_cancel<C: Fn() -> bool, F: Fn(&str) -> ()>(
    base: &FsNode,
    keep: usize,
    category: &str,
    reason: &str,
    excludes: &Vec<String>,
    cancelled: &C,
    sink: &F,
) -> (out: (Vec<Candidate>, bool))
    requires
        pollable(cancelled),
        accepts_progress(sink, keep_latest_told(*base, excludes@)),
    ensures
        out.1 ==> !never_stops(cancelled),
        !out.1 ==> told(sink, keep_latest_told(*base, excludes@)),
        !out.1 ==> candidate_views(out.0@) == keep_latest_found(
            *base,
            keep as nat,
            category@,
            reason@,
            excludes@,
        ),
        candidate_views(out.0@).is_prefix_of(
            keep_latest_found(*base, keep as nat, category@, reason@, excludes@),
        ),
        all_clean(candidate_views(out.0@), excludes@),
{
    let mut found: Vec<Candidate> = Vec::new();
    assert(candidate_views(found@) =~= Seq::empty());
    if cancelled() {
        return (found, true);
    }
    if is_excluded(base.canonical.as_str(), excludes) || !base.exists {
        return (found, false);
    }
    report(sink, base.path.as_str());
    let list = match &base.entries {
        Some(list) => list,
        None => {
            return (found, false);
        },
    };
    proof {
        accepts_part(
            sink,
            keep_latest_told(*base, excludes@),
            listed_told(list@, excludes@, list@.len()),
        );
    }
    let (ranked, unfinished) = rank_entries(list, excludes, cancelled, sink);
    if unfinished {
        return (found, true);
    }
    let mut index: usize = 0;
    while index < ranked.len()
        invariant
            index <= ranked@.len(),
            pollable(cancelled),
            told(sink, keep_latest_told(*base, excludes@)),
            !excluded_by(base.canonical@, excludes@),
            base.exists,
            base.entries == Some(*list),
            ranked@ == ranking(list@, excludes@, list@.len()),
            forall|j: int| 0 <= j < ranked@.len() ==> (#[trigger] ranked@[j]).1 < list@.len(),
            forall|j: int|
                0 <= j < ranked@.len() ==> !excluded_by(
                    list@[(#[trigger] ranked@[j]).1 as int].canonical@,
                    excludes@,
                ),
            candidate_views(found@) == stale_found(
                list@,
                ranked@,
                index as nat,
                keep as nat,
                category@,
                reason@,
            ),
            all_clean(candidate_views(found@), excludes@),
        decreases ranked@.len() - index,
    {
        let place = ranked[index];
        if index >= keep {
            if cancelled() {
                proof {
                    crate::partial::stale_found_grows(
                        list@,
                        ranked@,
                        index as nat,
                        ranked@.len(),
                        keep as nat,
                        category@,
                        reason@,
                    );
                }
                return (found, true);
            }
            let entry = &list[place.1];
            let size = calculate_size(entry);
            if size > 0 {
                let candidate = make_candidate(entry, size, category, owned(reason), Some(place.0));
                proof {
                    views_push(found@, candidate);
                }
                found.push(candidate);
            }
        }
        index += 1;
    }
    (found, false)
}

/// Flags the directories below `base` that are not among the `keep` most
/// recently modified; see [`keep_latest_found`].
pub fn collect_keep_latest<F: Fn(&str) -> ()>(
    base: &FsNode,
    keep: usize,
    category: &str,
    reason: &str,
    excludes: &Vec<String>,
    sink: &F,
) -> (found: Vec<Candidate>)
    requires
        accepts_progress(sink, keep_latest_told(*base, excludes@)),
    ensures
        told(sink, keep_latest_told(*base, excludes@)),
        candidate_views(found@) == keep_latest_found(
            *base,
            keep as nat,
            category@,
            reason@,
            excludes@,
        ),
        all_clean(candidate_views(found@), excludes@),
{
    let never = || -> (stop: bool)
        ensures
            !stop,
        { false };
    let (found, _stopped) = collect_keep_latest_with_cancel(
        base,
        keep,
        category,
        reason,
        excludes,
        &never,
        sink,
    );
    found
}

/// What a whole-directory scan of `node` finds: the path itself, with its
/// own time of modification, unless it is excluded, missing or empty.
pub open spec fn whole_directory_found(
    node: FsNode,
    category: Seq<char>,
    reason: Seq<char>,
    excludes: Seq<String>,
) -> Seq<CandidateView> {
    if excluded_by(node.canonical@, excludes) || !node.exists || capped(measured_size(node)) == 0 {
        Seq::empty()
    } else {
        seq![
            candidate_of(
                node,
                category,
                reason,
                match node.meta {
                    Some(meta) => meta.modified,
                    None => None,
                },
            ),
        ]
    }
}

/// Flags one known location as a whole unless the stop signal, asked
/// first, says stop; the second result says whether it did.
pub fn collect_whole_directory_with_cancel<C: Fn() -> bool, F: Fn(&str) -> ()>(
    node: &FsNode,
    category: &str,
    reason: &str,
    excludes: &Vec<String>,
    cancelled: &C,
    sink: &F,
) -> (out: (Vec<Candidate>, bool))
    requires
        pollable(cancelled),
        accepts_progress(sink, whole_directory_told(*node, excludes@)),
    ensures
        out.1 ==> !never_stops(cancelled) && out.0@.len() == 0,
        !out.1 ==> told(sink, whole_directory_told(*node, excludes@)),
        !out.1 ==> candidate_views(out.0@) == whole_directory_found(
            *node,
            category@,
            reason@,
            excludes@,
        ),
        candidate_views(out.0@).is_prefix_of(
            whole_directory_found(*node, category@, reason@, excludes@),
        ),
        all_clean(candidate_views(out.0@), excludes@),
{
    let mut found: Vec<Candidate> = Vec::new();
    assert(candidate_views(found@) =~= Seq::empty());
    if cancelled() {
        return (found, true);
    }
    if is_excluded(node.canonical.as_str(), excludes) || !node.exists {
        return (found, false);
    }
    report(sink, node.path.as_str());
    let size = calculate_size(node);
    if size == 0 {
        return (found, false);
    }
    let last_used: Option<i128> = match node.meta {
        Some(meta) => meta.modified,
        None => None,
    };
    let candidate = make_candidate(node, size, category, owned(reason), last_used);
    proof {
        views_push(found@, candidate);
    }
    found.push(candidate);
    assert(candidate_views(found@) =~= whole_directory_found(
        *node,
        category@,
        reason@,
        excludes@,
    ));
    (found, false)
}

/// Flags one known location as a whole; see [`whole_directory_found`].
pub fn collect_whole_directory<F: Fn(&str) -> ()>(
    node: &FsNode,
    category: &str,
    reason: &str,
    excludes: &Vec<String>,
    sink: &F,
) -> (found: Vec<Candidate>)
    requires
        accepts_progress(sink, whole_directory_told(*node, excludes@)),
    ensures
        told(sink, whole_directory_told(*node, excludes@)),
        candidate_views(found@) == whole_directory_found(*node, category@, reason@, excludes@),
        all_clean(candidate_views(found@), excludes@),
{
    let never = || -> (stop: bool)
        ensures
            !stop,
        { false };
    let (found, _stopped) = collect_whole_directory_with_cancel(
        node,
        category,
        reason,
        excludes,
        &never,
        sink,
    );
    found
}

} // verus!
