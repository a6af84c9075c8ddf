//! The download-and-convert pipeline's decisions: what one must-fetch
//! activity's processing came to, which artifact it stages, and which
//! counter it moves.
//!
//! The surrounding service performs the downloads and conversions under
//! its concurrency cap and hands each activity's result to
//! [`process_activity`]; every result stages at most one artifact and
//! moves exactly one counter, and a failure stages nothing — the
//! activity is simply absent from the new index and retried next run.
//! [`run_pipeline`] drives a whole result list in order.

use vstd::prelude::*;
use vstd::string::*;
use crate::activity::{Activity, ActivityModel, spec_fingerprint};
use crate::finalize::{StagedArtifact, StagedArtifactModel, artifact_wf, artifacts_model};
use crate::json::{feature_line, feature_line_model};
use crate::stats::{
    ActivityOutcome, DownloadStats, count_geometry, count_empty, count_failed,
    record_outcome, lemma_outcomes_accounted,
};

verus! {

/// What downloading and converting one activity yielded: a rendered
/// geometry text, a confirmed lack of usable track data (the no-data
/// response, or too few coordinates), or a failure.
pub enum FetchConversion {
    Track(String),
    NoUsableTrack,
    Failure,
}

/// Mathematical model of a [`FetchConversion`].
pub enum FetchConversionModel {
    Track(Seq<char>),
    NoUsableTrack,
    Failure,
}

impl View for FetchConversion {
    type V = FetchConversionModel;

    open spec fn view(&self) -> FetchConversionModel {
        match self {
            FetchConversion::Track(g) => FetchConversionModel::Track(g@),
            FetchConversion::NoUsableTrack => FetchConversionModel::NoUsableTrack,
            FetchConversion::Failure => FetchConversionModel::Failure,
        }
    }
}

/// The models of a vector of results.
pub open spec fn results_model(v: Seq<FetchConversion>) -> Seq<FetchConversionModel> {
    v.map_values(|r: FetchConversion| r@)
}

/// The counter a result moves.
pub open spec fn outcome_for(r: FetchConversionModel) -> ActivityOutcome {
    match r {
        FetchConversionModel::Track(_) => ActivityOutcome::Geometry,
        FetchConversionModel::NoUsableTrack => ActivityOutcome::Empty,
        FetchConversionModel::Failure => ActivityOutcome::Failed,
    }
}

/// The outcomes of a result list, in order.
pub open spec fn outcomes_of(rs: Seq<FetchConversionModel>) -> Seq<ActivityOutcome> {
    rs.map_values(|r: FetchConversionModel| outcome_for(r))
}

/// The artifact one activity's result stages, if any.
pub open spec fn staged_for(a: ActivityModel, r: FetchConversionModel)
    -> Option<StagedArtifactModel> {
    match r {
        FetchConversionModel::Track(g) => Some(StagedArtifactModel {
            activity_id: a.id,
            activity_hash: spec_fingerprint(a),
            content: Some(feature_line_model(a, spec_fingerprint(a), g)),
        }),
        FetchConversionModel::NoUsableTrack => Some(StagedArtifactModel {
            activity_id: a.id,
            activity_hash: spec_fingerprint(a),
            content: None,
        }),
        FetchConversionModel::Failure => None,
    }
}

/// The artifacts a whole run stages, in order.
pub open spec fn staged_list(cat: Seq<ActivityModel>, rs: Seq<FetchConversionModel>)
    -> Seq<StagedArtifactModel>
    decreases rs.len(),
{
    if rs.len() == 0 || cat.len() != rs.len() {
        Seq::empty()
    } else {
        let prev = staged_list(cat.drop_last(), rs.drop_last());
        match staged_for(cat.last(), rs.last()) {
            Some(art) => prev.push(art),
            None => prev,
        }
    }
}

/// Process one must-fetch activity's result: stage its artifact — a
/// record line for a track, an empty marker for a confirmed lack of
/// data, nothing for a failure — and move exactly one counter.
pub fn process_activity(
    activity: &Activity,
    result: &FetchConversion,
    stats: &mut DownloadStats,
) -> (artifact: Option<StagedArtifact>)
    requires
        old(stats).downloaded < usize::MAX,
        old(stats).downloaded_empty < usize::MAX,
        old(stats).failed < usize::MAX,
    ensures
        match artifact {
            Some(art) => staged_for(activity@, result@) == Some(art@) && artifact_wf(art@),
            None => staged_for(activity@, result@) is None,
        },
        final(stats).downloaded == old(stats).downloaded
            + if outcome_for(result@) is Geometry { 1int } else { 0int },
        final(stats).downloaded_empty == old(stats).downloaded_empty
            + if outcome_for(result@) is Empty { 1int } else { 0int },
        final(stats).failed == old(stats).failed
            + if outcome_for(result@) is Failed { 1int } else { 0int },
        final(stats).skipped_unchanged == old(stats).skipped_unchanged,
        final(stats).deleted == old(stats).deleted,
{
    let activity_hash = activity.compute_hash();
    match result {
        FetchConversion::Track(geometry_json) => {
            record_outcome(stats, &ActivityOutcome::Geometry);
            let line = feature_line(activity, activity_hash.as_str(),
                geometry_json.as_str());
            let art = StagedArtifact {
                activity_id: activity.id.clone(),
                activity_hash,
                content: Some(line),
            };
            proof {
                assert(art@.content == Some(feature_line_model(activity@,
                    spec_fingerprint(activity@), geometry_json@)));
                assert(artifact_wf(art@)) by {
                    assert(feature_line_model(activity@, art@.activity_hash,
                        geometry_json@) == art@.content->Some_0
                        && activity@.id == art@.activity_id);
                }
            }
            Some(art)
        }
        FetchConversion::NoUsableTrack => {
            record_outcome(stats, &ActivityOutcome::Empty);
            Some(StagedArtifact {
                activity_id: activity.id.clone(),
                activity_hash,
                content: None,
            })
        }
        FetchConversion::Failure => {
            record_outcome(stats, &ActivityOutcome::Failed);
            None
        }
    }
}

/// Drive a whole must-fetch list: stage each activity's artifact and
/// accumulate the run statistics. No activity's failure affects any
/// other's processing; the counters account for every result exactly
/// once.
pub fn run_pipeline(
    queued: &Vec<Activity>,
    results: &Vec<FetchConversion>,
    stats: &mut DownloadStats,
) -> (staged: Vec<StagedArtifact>)
    requires
        queued@.len() == results@.len(),
        old(stats).downloaded + results@.len() <= usize::MAX,
        old(stats).downloaded_empty + results@.len() <= usize::MAX,
        old(stats).failed + results@.len() <= usize::MAX,
    ensures
        artifacts_model(staged@) == staged_list(crate::plan::models_of(queued@),
            results_model(results@)),
        forall|i: int| 0 <= i < staged@.len() ==> artifact_wf(#[trigger] staged@[i]@),
        final(stats).downloaded == old(stats).downloaded
            + count_geometry(outcomes_of(results_model(results@))),
        final(stats).downloaded_empty == old(stats).downloaded_empty
            + count_empty(outcomes_of(results_model(results@))),
        final(stats).failed == old(stats).failed
            + count_failed(outcomes_of(results_model(results@))),
        final(stats).skipped_unchanged == old(stats).skipped_unchanged,
        final(stats).deleted == old(stats).deleted,
{
    let ghost cat = crate::plan::models_of(queued@);
    let ghost rs = results_model(results@);
    let mut staged: Vec<StagedArtifact> = Vec::new();
    let n = queued.len();
    let mut i: usize = 0;
    assert(artifacts_model(staged@) =~= staged_list(cat.take(0), rs.take(0)));
    assert(outcomes_of(rs.take(0)) =~= Seq::<ActivityOutcome>::empty());
    while i < n
        invariant
            n == queued@.len(),
            n == results@.len(),
            i <= n,
            cat == crate::plan::models_of(queued@),
            rs == results_model(results@),
            old(stats).downloaded + results@.len() <= usize::MAX,
            old(stats).downloaded_empty + results@.len() <= usize::MAX,
            old(stats).failed + results@.len() <= usize::MAX,
            artifacts_model(staged@) == staged_list(cat.take(i as int), rs.take(i as int)),
            forall|j: int| 0 <= j < staged@.len() ==> artifact_wf(#[trigger] staged@[j]@),
            stats.downloaded == old(stats).downloaded
                + count_geometry(outcomes_of(rs.take(i as int))),
            stats.downloaded_empty == old(stats).downloaded_empty
                + count_empty(outcomes_of(rs.take(i as int))),
            stats.failed == old(stats).failed + count_failed(outcomes_of(rs.take(i as int))),
            stats.skipped_unchanged == old(stats).skipped_unchanged,
            stats.deleted == old(stats).deleted,
        decreases n - i,
    {
        proof {
            lemma_outcomes_accounted(outcomes_of(rs.take(i as int)));
            assert(outcomes_of(rs.take(i as int)).len() == i);
        }
        let activity = &queued[i];
        let result = &results[i];
        let ghost staged_pre = staged@;
        match process_activity(activity, result, stats) {
            Some(art) => {
                staged.push(art);
                proof {
                    assert(staged@ == staged_pre.push(staged@[staged_pre.len() as int]));
                }
            }
            None => {}
        }
        proof {
            let cpre = cat.take(i as int);
            let cpost = cat.take(i + 1);
            let rpre = rs.take(i as int);
            let rpost = rs.take(i + 1);
            assert(cpost.drop_last() =~= cpre);
            assert(rpost.drop_last() =~= rpre);
            assert(cpost.last() == cat[i as int]);
            assert(rpost.last() == rs[i as int]);
            assert(cat[i as int] == queued@[i as int]@);
            assert(rs[i as int] == results@[i as int]@);
            assert(cpost.len() == rpost.len());
            if staged_for(cat[i as int], rs[i as int]) is Some {
                assert(artifacts_model(staged@) =~= staged_list(cpre, rpre).push(
                    staged_for(cat[i as int], rs[i as int])->Some_0));
            }
            let opre = outcomes_of(rpre);
            let opost = outcomes_of(rpost);
            assert(opost.drop_last() =~= opre);
            assert(opost.last() == outcome_for(rs[i as int]));
        }
        i = i + 1;
    }
    proof {
        assert(cat.take(n as int) =~= cat);
        assert(rs.take(n as int) =~= rs);
    }
    staged
}

} // verus!
