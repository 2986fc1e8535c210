//! Removes candidates, or pretends to, one after the other.
use crate::discover::{never_stops, pollable};
use crate::size::capped;
use crate::model::{Candidate, NodeKind};
use vstd::prelude::*;

verus! {

/// The outcome for one candidate.
#[derive(Debug)]
pub struct CleanupResult {
    pub candidate: Candidate,
    pub success: bool,
    /// What the system said where removal failed.
    pub error: Option<String>,
}

/// Notice that the candidate at `index` of `total` is being turned to.
#[derive(Debug)]
pub struct CleanupProgress<'a> {
    pub index: usize,
    pub total: usize,
    pub candidate: &'a Candidate,
}

/// How a path is removed.
#[derive(Clone, Copy, Debug, PartialEq, Eq, Structural)]
pub enum Removal {
    /// A directory with all that is below it.
    Tree,
    /// A single file or link.
    File,
}

/// The way to remove what was found at a path: a directory goes with its
/// tree, anything else alone.
pub open spec fn removal_for(kind: NodeKind) -> Removal {
    if kind == NodeKind::Directory {
        Removal::Tree
    } else {
        Removal::File
    }
}

/// Chooses the way to remove what was found at a path; see [`removal_for`].
pub fn plan_removal(kind: NodeKind) -> (how: Removal)
    ensures
        how == removal_for(kind),
{
    match kind {
        NodeKind::Directory => Removal::Tree,
        _ => Removal::File,
    }
}

/// Whether `outcome` is what removing `candidate` can come to, given what
/// `probe` reports of its path and what `remove` answers: success where
/// nothing is there any more, otherwise the answer of the removal that
/// matches what is there.
pub open spec fn removal_outcome<P, R>(
    candidate: &Candidate,
    probe: &P,
    remove: &R,
    outcome: Result<(), String>,
) -> bool where P: Fn(&Candidate) -> Option<NodeKind>, R: Fn(&Candidate, Removal) -> Result<(), String> {
    exists|seen: Option<NodeKind>| #[trigger]
        (*probe).ensures((candidate,), seen) && match seen {
            None => outcome is Ok,
            Some(kind) => (*remove).ensures((candidate, removal_for(kind)), outcome),
        }
}

/// Whether a candidate can be removed with these two: `probe` can be asked
/// about it, and `remove` can be called in the way that matches whatever
/// `probe` may answer. Of a path that `probe` finds gone, `remove` is asked
/// nothing.
pub open spec fn can_remove<P, R>(candidate: &Candidate, probe: &P, remove: &R) -> bool where
    P: Fn(&Candidate) -> Option<NodeKind>,
    R: Fn(&Candidate, Removal) -> Result<(), String>,
 {
    &&& (*probe).requires((candidate,))
    &&& forall|kind: NodeKind| #[trigger]
        (*probe).ensures((candidate,), Some(kind)) ==> (*remove).requires(
            (candidate, removal_for(kind)),
        )
}

/// Whether the progress sink was told that the candidate at `index` is
/// being turned to.
pub open spec fn announced<F>(callback: &F, candidates: Seq<Candidate>, index: int) -> bool where
    F: Fn(CleanupProgress<'_>) -> (),
 {
    (*callback).ensures(
        (
            (CleanupProgress {
                index: index as usize,
                total: candidates.len() as usize,
                candidate: &candidates[index],
            }),
        ),
        (),
    )
}

/// Removes what is at the candidate's path. A path that is gone already
/// counts as removed, and nothing is asked of `remove` then.
pub fn delete_path<P, R>(candidate: &Candidate, probe: &P, remove: &R) -> (outcome: Result<
    (),
    String,
>) where P: Fn(&Candidate) -> Option<NodeKind>, R: Fn(&Candidate, Removal) -> Result<(), String>
    requires
        can_remove(candidate, probe, remove),
    ensures
        removal_outcome(candidate, probe, remove, outcome),
{
    match probe(candidate) {
        None => Ok(()),
        Some(kind) => remove(candidate, plan_removal(kind)),
    }
}

/// Whether `result` records `outcome` for `candidate`.
pub open spec fn records(result: CleanupResult, candidate: &Candidate, outcome: Result<(), String>) -> bool {
    &&& result.candidate@ == candidate@
    &&& match outcome {
        Ok(_) => result.success && result.error is None,
        Err(text) => !result.success && result.error == Some(text),
    }
}

/// Whether `result` is what a run in the given mode can record for
/// `candidate`: success in a dry run, otherwise an outcome of
/// [`removal_outcome`].
pub open spec fn cleaned<P, R>(
    result: CleanupResult,
    candidate: &Candidate,
    dry_run: bool,
    probe: &P,
    remove: &R,
) -> bool where P: Fn(&Candidate) -> Option<NodeKind>, R: Fn(&Candidate, Removal) -> Result<(), String> {
    if dry_run {
        records(result, candidate, Ok(()))
    } else {
        exists|outcome: Result<(), String>| #[trigger]
            removal_outcome(candidate, probe, remove, outcome) && records(result, candidate, outcome)
    }
}

/// Turns to each candidate in the given order for as long as `cancelled`
/// allows: asks the stop signal, tells `callback`, then removes the path
/// unless this is a dry run, and records the outcome. A failure is recorded
/// and the run goes on; once the signal says stop, the run ends before the
/// next candidate and hands out the results it has. In a dry run neither
/// `probe` nor `remove` is called: they need not even be callable.
pub fn cleanup_with_cancel<C, F, P, R>(
    candidates: &Vec<Candidate>,
    dry_run: bool,
    cancelled: C,
    callback: F,
    probe: P,
    remove: R,
) -> (results: Vec<CleanupResult>) where
    C: Fn() -> bool,
    F: Fn(CleanupProgress<'_>) -> (),
    P: Fn(&Candidate) -> Option<NodeKind>,
    R: Fn(&Candidate, Removal) -> Result<(), String>,

    requires
        pollable(&cancelled),
        forall|progress: CleanupProgress<'_>|
            progress.total == candidates@.len() && progress.index < progress.total
                && progress.candidate == &candidates@[progress.index as int]
                ==> #[trigger] callback.requires((progress,)),
        !dry_run ==> forall|i: int|
            0 <= i < candidates@.len() ==> can_remove(#[trigger] &candidates@[i], &probe, &remove),
    ensures
        results@.len() <= candidates@.len(),
        never_stops(&cancelled) ==> results@.len() == candidates@.len(),
        forall|i: int| 0 <= i < results@.len() ==> announced(&callback, candidates@, i),
        forall|i: int|
            0 <= i < results@.len() ==> cleaned(
                #[trigger] results@[i],
                &candidates@[i],
                dry_run,
                &probe,
                &remove,
            ),
{
    let total = candidates.len();
    let mut results: Vec<CleanupResult> = Vec::new();
    let mut index: usize = 0;
    while index < total
        invariant_except_break
            results@.len() == index,
        invariant
            index <= total,
            total == candidates@.len(),
            pollable(&cancelled),
            forall|progress: CleanupProgress<'_>|
                progress.total == candidates@.len() && progress.index < progress.total
                    && progress.candidate == &candidates@[progress.index as int]
                    ==> #[trigger] callback.requires((progress,)),
            !dry_run ==> forall|i: int|
                0 <= i < candidates@.len() ==> can_remove(
                    #[trigger] &candidates@[i],
                    &probe,
                    &remove,
                ),
            forall|i: int| 0 <= i < results@.len() ==> announced(&callback, candidates@, i),
            forall|i: int|
                0 <= i < results@.len() ==> cleaned(
                    #[trigger] results@[i],
                    &candidates@[i],
                    dry_run,
                    &probe,
                    &remove,
                ),
        ensures
            results@.len() <= total,
            never_stops(&cancelled) ==> results@.len() == total,
        decreases total - index,
    {
        if cancelled() {
            break ;
        }
        let candidate = &candidates[index];
        callback(CleanupProgress { index, total, candidate });
        let outcome: Result<(), String> = if dry_run {
            Ok(())
        } else {
            delete_path(candidate, &probe, &remove)
        };
        let result = match outcome {
            Ok(_) => CleanupResult { candidate: candidate.clone(), success: true, error: None },
            Err(text) => CleanupResult {
                candidate: candidate.clone(),
                success: false,
                error: Some(text),
            },
        };
        assert(records(result, candidate, outcome));
        assert(cleaned(result, candidate, dry_run, &probe, &remove));
        results.push(result);
        index += 1;
    }
    results
}

/// Turns to each candidate in the given order: tells `callback`, then
/// removes the path unless this is a dry run, and records the outcome. A
/// failure is recorded and the run goes on to the end. In a dry run neither
/// `probe` nor `remove` is called: they need not even be callable.
pub fn cleanup_with_callback<F, P, R>(
    candidates: &Vec<Candidate>,
    dry_run: bool,
    callback: F,
    probe: P,
    remove: R,
) -> (results: Vec<CleanupResult>) where
    F: Fn(CleanupProgress<'_>) -> (),
    P: Fn(&Candidate) -> Option<NodeKind>,
    R: Fn(&Candidate, Removal) -> Result<(), String>,

    requires
        forall|progress: CleanupProgress<'_>|
            progress.total == candidates@.len() && progress.index < progress.total
                && progress.candidate == &candidates@[progress.index as int]
                ==> #[trigger] callback.requires((progress,)),
        !dry_run ==> forall|i: int|
            0 <= i < candidates@.len() ==> can_remove(#[trigger] &candidates@[i], &probe, &remove),
    ensures
        results@.len() == candidates@.len(),
        forall|i: int| 0 <= i < results@.len() ==> announced(&callback, candidates@, i),
        forall|i: int|
            0 <= i < results@.len() ==> cleaned(
                #[trigger] results@[i],
                &candidates@[i],
                dry_run,
                &probe,
                &remove,
            ),
{
    let never = || -> (stop: bool)
        ensures
            !stop,
        { false };
    cleanup_with_cancel(candidates, dry_run, never, callback, probe, remove)
}

/// Turns to each candidate in the given order and records the outcome;
/// see [`cleanup_with_callback`].
pub fn cleanup<P, R>(candidates: &Vec<Candidate>, dry_run: bool, probe: P, remove: R) -> (results:
    Vec<CleanupResult>) where
    P: Fn(&Candidate) -> Option<NodeKind>,
    R: Fn(&Candidate, Removal) -> Result<(), String>,

    requires
        !dry_run ==> forall|i: int|
            0 <= i < candidates@.len() ==> can_remove(#[trigger] &candidates@[i], &probe, &remove),
    ensures
        results@.len() == candidates@.len(),
        forall|i: int|
            0 <= i < results@.len() ==> cleaned(
                #[trigger] results@[i],
                &candidates@[i],
                dry_run,
                &probe,
                &remove,
            ),
{
    let quiet = |_progress: CleanupProgress<'_>| {};
    cleanup_with_callback(candidates, dry_run, quiet, probe, remove)
}

/// What a run came to, in numbers.
#[derive(Clone, Copy, Debug)]
pub struct CleanupSummary {
    /// How many candidates were removed.
    pub removed: usize,
    /// How many could not be removed.
    pub failed: usize,
    /// The bytes that the removed ones held; stops at `u64::MAX`.
    pub freed: u64,
}

/// How many of the first `count` results are successes.
pub open spec fn removed_count(results: Seq<CleanupResult>, count: nat) -> nat
    decreases count,
{
    if count == 0 || count > results.len() {
        0
    } else {
        removed_count(results, (count - 1) as nat) + if results[count - 1].success {
            1nat
        } else {
            0nat
        }
    }
}

/// The bytes of the successes among the first `count` results.
pub open spec fn freed_bytes(results: Seq<CleanupResult>, count: nat) -> nat
    decreases count,
{
    if count == 0 || count > results.len() {
        0
    } else {
        freed_bytes(results, (count - 1) as nat) + if results[count - 1].success {
            results[count - 1].candidate.size_bytes as nat
        } else {
            0nat
        }
    }
}

/// Counts the successes and the failures of a run and adds up what the
/// successes reclaimed. The run as a whole succeeded if nothing failed.
pub fn summarize(results: &Vec<CleanupResult>) -> (summary: CleanupSummary)
    ensures
        summary.removed == removed_count(results@, results@.len()),
        summary.removed + summary.failed == results@.len(),
        summary.freed == capped(freed_bytes(results@, results@.len())),
{
    let mut removed: usize = 0;
    let mut failed: usize = 0;
    let mut freed: u64 = 0;
    let mut i: usize = 0;
    while i < results.len()
        invariant
            i <= results@.len(),
            removed == removed_count(results@, i as nat),
            removed + failed == i,
            freed == capped(freed_bytes(results@, i as nat)),
        decreases results@.len() - i,
    {
        if results[i].success {
            let size = results[i].candidate.size_bytes;
            removed += 1;
            freed = if size > u64::MAX - freed {
                u64::MAX
            } else {
                freed + size
            };
        } else {
            failed += 1;
        }
        i += 1;
    }
    CleanupSummary { removed, failed, freed }
}

} // verus!
