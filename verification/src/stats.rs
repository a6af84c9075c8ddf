//! Run statistics: counters accumulated while the pipeline drives the
//! must-fetch list, read once at run completion for reporting.
//!
//! The pipeline hands each activity's outcome to [`record_outcome`];
//! every outcome moves exactly one counter, so no outcome is lost or
//! counted twice whatever order the concurrent tasks finish in.

use vstd::prelude::*;

verus! {

/// The counters one sync run reports.
#[derive(Clone, Copy, PartialEq, Eq, Debug)]
pub struct DownloadStats {
    pub downloaded: usize,
    pub skipped_unchanged: usize,
    pub downloaded_empty: usize,
    pub failed: usize,
    pub deleted: usize,
}

/// What processing one queued activity came to: a converted track, a
/// confirmed lack of location data, or a failure that leaves the
/// activity for the next run.
#[derive(Clone, Copy, PartialEq, Eq, Debug)]
pub enum ActivityOutcome {
    Geometry,
    Empty,
    Failed,
}

/// How many outcomes produced geometry.
pub open spec fn count_geometry(ocs: Seq<ActivityOutcome>) -> nat
    decreases ocs.len(),
{
    if ocs.len() == 0 {
        0
    } else {
        count_geometry(ocs.drop_last())
            + if ocs.last() is Geometry { 1nat } else { 0nat }
    }
}

/// How many outcomes were confirmed empty.
pub open spec fn count_empty(ocs: Seq<ActivityOutcome>) -> nat
    decreases ocs.len(),
{
    if ocs.len() == 0 {
        0
    } else {
        count_empty(ocs.drop_last()) + if ocs.last() is Empty { 1nat } else { 0nat }
    }
}

/// How many outcomes failed.
pub open spec fn count_failed(ocs: Seq<ActivityOutcome>) -> nat
    decreases ocs.len(),
{
    if ocs.len() == 0 {
        0
    } else {
        count_failed(ocs.drop_last()) + if ocs.last() is Failed { 1nat } else { 0nat }
    }
}

/// Law: the three outcome counters account for every outcome exactly
/// once — over any list of outcomes they sum to its length.
pub proof fn lemma_outcomes_accounted(ocs: Seq<ActivityOutcome>)
    ensures
        count_geometry(ocs) + count_empty(ocs) + count_failed(ocs) == ocs.len(),
    decreases ocs.len(),
{
    if ocs.len() > 0 {
        lemma_outcomes_accounted(ocs.drop_last());
    }
}

impl DownloadStats {
    /// Fresh counters, all zero.
    pub fn new() -> (r: DownloadStats)
        ensures
            r.downloaded == 0,
            r.skipped_unchanged == 0,
            r.downloaded_empty == 0,
            r.failed == 0,
            r.deleted == 0,
    {
        DownloadStats {
            downloaded: 0,
            skipped_unchanged: 0,
            downloaded_empty: 0,
            failed: 0,
            deleted: 0,
        }
    }
}

/// Count one activity's outcome: exactly one counter moves, by one.
pub fn record_outcome(stats: &mut DownloadStats, outcome: &ActivityOutcome)
    requires
        old(stats).downloaded < usize::MAX,
        old(stats).downloaded_empty < usize::MAX,
        old(stats).failed < usize::MAX,
    ensures
        final(stats).downloaded == old(stats).downloaded
            + if *outcome is Geometry { 1int } else { 0int },
        final(stats).downloaded_empty == old(stats).downloaded_empty
            + if *outcome is Empty { 1int } else { 0int },
        final(stats).failed == old(stats).failed
            + if *outcome is Failed { 1int } else { 0int },
        final(stats).skipped_unchanged == old(stats).skipped_unchanged,
        final(stats).deleted == old(stats).deleted,
{
    match outcome {
        ActivityOutcome::Geometry => {
            stats.downloaded = stats.downloaded + 1;
        }
        ActivityOutcome::Empty => {
            stats.downloaded_empty = stats.downloaded_empty + 1;
        }
        ActivityOutcome::Failed => {
            stats.failed = stats.failed + 1;
        }
    }
}

/// Count a whole list of outcomes, in order.
pub fn record_outcomes(stats: &mut DownloadStats, outcomes: &Vec<ActivityOutcome>)
    requires
        old(stats).downloaded + outcomes@.len() <= usize::MAX,
        old(stats).downloaded_empty + outcomes@.len() <= usize::MAX,
        old(stats).failed + outcomes@.len() <= usize::MAX,
    ensures
        final(stats).downloaded == old(stats).downloaded + count_geometry(outcomes@),
        final(stats).downloaded_empty
            == old(stats).downloaded_empty + count_empty(outcomes@),
        final(stats).failed == old(stats).failed + count_failed(outcomes@),
        final(stats).skipped_unchanged == old(stats).skipped_unchanged,
        final(stats).deleted == old(stats).deleted,
{
    let n = outcomes.len();
    let mut i: usize = 0;
    while i < n
        invariant
            n == outcomes@.len(),
            i <= n,
            old(stats).downloaded + outcomes@.len() <= usize::MAX,
            old(stats).downloaded_empty + outcomes@.len() <= usize::MAX,
            old(stats).failed + outcomes@.len() <= usize::MAX,
            stats.downloaded
                == old(stats).downloaded + count_geometry(outcomes@.take(i as int)),
            stats.downloaded_empty
                == old(stats).downloaded_empty + count_empty(outcomes@.take(i as int)),
            stats.failed == old(stats).failed + count_failed(outcomes@.take(i as int)),
            stats.skipped_unchanged == old(stats).skipped_unchanged,
            stats.deleted == old(stats).deleted,
        decreases n - i,
    {
        proof {
            lemma_outcomes_accounted(outcomes@.take(i as int));
        }
        record_outcome(stats, &outcomes[i]);
        proof {
            let pre = outcomes@.take(i as int);
            let post = outcomes@.take(i + 1);
            assert(post.drop_last() =~= pre);
            assert(post.last() == outcomes@[i as int]);
        }
        i = i + 1;
    }
    proof {
        assert(outcomes@.take(n as int) =~= outcomes@);
    }
}

} // verus!
