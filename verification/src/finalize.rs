//! The archive finalizer: stream the prior dataset forward, keeping only
//! records whose composite key the carried-forward index holds, then
//! merge in the staged artifacts — appending geometry records and
//! entering every staged key into the new index.
//!
//! The per-line and per-artifact steps work on one record at a time, so
//! a caller can stream a dataset of any size through them with working
//! memory bounded by one record; [`finalize_lines`] drives the same
//! steps over in-memory vectors and carries the exact contract.

use vstd::prelude::*;
use vstd::string::*;
use crate::activity::ActivityModel;
use crate::index::{ActivityIndex, key_model};
use crate::json::{
    parse_feature_key, spec_parse_feature_key, feature_line_model,
    lemma_feature_line_round_trip,
};
use crate::plan::{known_key, planned_geo, planned_empty, planned_queue,
    lemma_planned_geo_membership, lemma_planned_empty_membership,
    lemma_unchanged_catalog_queues_nothing};

verus! {

/// One staged artifact: the outcome of processing one must-fetch
/// activity, waiting in the transient work area for the finalizer. A
/// geometry artifact carries its record line; an empty marker carries
/// none.
pub struct StagedArtifact {
    pub activity_id: String,
    pub activity_hash: String,
    pub content: Option<String>,
}

/// Mathematical model of a [`StagedArtifact`].
pub struct StagedArtifactModel {
    pub activity_id: Seq<char>,
    pub activity_hash: Seq<char>,
    pub content: Option<Seq<char>>,
}

impl View for StagedArtifact {
    type V = StagedArtifactModel;

    open spec fn view(&self) -> StagedArtifactModel {
        StagedArtifactModel {
            activity_id: self.activity_id@,
            activity_hash: self.activity_hash@,
            content: match self.content {
                Option::Some(s) => Option::Some(s@),
                Option::None => Option::None,
            },
        }
    }
}

/// The composite key a staged artifact carries.
pub open spec fn artifact_key(a: StagedArtifactModel) -> Seq<char> {
    key_model(a.activity_id, a.activity_hash)
}

/// A geometry artifact's content is a record line built for its own
/// identifier and fingerprint.
pub open spec fn artifact_wf(a: StagedArtifactModel) -> bool {
    match a.content {
        Some(line) => exists|am: ActivityModel, g: Seq<char>|
            #[trigger] feature_line_model(am, a.activity_hash, g) == line
                && am.id == a.activity_id,
        None => true,
    }
}

/// The models of a vector of lines.
pub open spec fn lines_model(v: Seq<String>) -> Seq<Seq<char>> {
    v.map_values(|s: String| s@)
}

/// The models of a vector of staged artifacts.
pub open spec fn artifacts_model(v: Seq<StagedArtifact>) -> Seq<StagedArtifactModel> {
    v.map_values(|a: StagedArtifact| a@)
}

/// Whether a prior-dataset record line is kept: it parses, and the key
/// it carries is in the given geometry key set.
pub open spec fn line_kept(line: Seq<char>, geo: Set<Seq<char>>) -> bool {
    match spec_parse_feature_key(line) {
        Some(k) => geo.contains(key_model(k.0, k.1)),
        None => false,
    }
}

/// The prior-dataset lines that survive the filter, in order.
pub open spec fn kept_lines(lines: Seq<Seq<char>>, geo: Set<Seq<char>>) -> Seq<Seq<char>>
    decreases lines.len(),
{
    if lines.len() == 0 {
        Seq::empty()
    } else {
        let prev = kept_lines(lines.drop_last(), geo);
        if line_kept(lines.last(), geo) {
            prev.push(lines.last())
        } else {
            prev
        }
    }
}

/// The geometry key set after entering the staged artifacts.
pub open spec fn staged_geo(arts: Seq<StagedArtifactModel>, g0: Set<Seq<char>>)
    -> Set<Seq<char>>
    decreases arts.len(),
{
    if arts.len() == 0 {
        g0
    } else {
        let prev = staged_geo(arts.drop_last(), g0);
        if arts.last().content is Some {
            prev.insert(artifact_key(arts.last()))
        } else {
            prev
        }
    }
}

/// The empty-marker key set after entering the staged artifacts.
pub open spec fn staged_empty(arts: Seq<StagedArtifactModel>, e0: Set<Seq<char>>)
    -> Set<Seq<char>>
    decreases arts.len(),
{
    if arts.len() == 0 {
        e0
    } else {
        let prev = staged_empty(arts.drop_last(), e0);
        if arts.last().content is None {
            prev.insert(artifact_key(arts.last()))
        } else {
            prev
        }
    }
}

/// The record lines the staged artifacts append, in order.
pub open spec fn staged_lines(arts: Seq<StagedArtifactModel>) -> Seq<Seq<char>>
    decreases arts.len(),
{
    if arts.len() == 0 {
        Seq::empty()
    } else {
        let prev = staged_lines(arts.drop_last());
        match arts.last().content {
            Some(line) => prev.push(line),
            None => prev,
        }
    }
}

/// Decide one prior-dataset line: keep it exactly when it parses to a
/// key the carried-forward index holds in its geometry set. One line at
/// a time — the caller streams the dataset through this.
pub fn carry_forward_line(line: &str, index: &ActivityIndex) -> (keep: bool)
    ensures
        keep == line_kept(line@, index.geo_keys()),
{
    match parse_feature_key(line) {
        Some((id, hash)) => {
            let key = ActivityIndex::create_key(id.as_str(), hash.as_str());
            index.has_geojson_key(&key)
        }
        None => false,
    }
}

/// Enter one staged artifact into the new index: its key goes into the
/// geometry set where the artifact carries a record line, into the
/// empty-marker set where it does not.
pub fn apply_staged_artifact(index: &mut ActivityIndex, artifact: &StagedArtifact)
    requires
        old(index).wf(),
    ensures
        final(index).wf(),
        final(index).athlete_id == old(index).athlete_id,
        final(index).last_updated == old(index).last_updated,
        artifact@.content is Some ==> {
            &&& final(index).geo_keys()
                == old(index).geo_keys().insert(artifact_key(artifact@))
            &&& final(index).empty_keys() == old(index).empty_keys()
        },
        artifact@.content is None ==> {
            &&& final(index).empty_keys()
                == old(index).empty_keys().insert(artifact_key(artifact@))
            &&& final(index).geo_keys() == old(index).geo_keys()
        },
{
    match &artifact.content {
        Some(_) => {
            index.insert_geojson(artifact.activity_id.as_str(),
                artifact.activity_hash.as_str());
        }
        None => {
            index.insert_empty(artifact.activity_id.as_str(),
                artifact.activity_hash.as_str());
        }
    }
}

/// Produce the new dataset and index from the prior dataset's lines,
/// the carried-forward index, and the staged artifacts: the prior lines
/// whose keys are carried forward, in order, then the staged record
/// lines, in order; the index gains every staged key in its proper set.
pub fn finalize_lines(
    prior_lines: &Vec<String>,
    staged: &Vec<StagedArtifact>,
    index: &mut ActivityIndex,
) -> (out: Vec<String>)
    requires
        old(index).wf(),
    ensures
        final(index).wf(),
        final(index).athlete_id == old(index).athlete_id,
        final(index).last_updated == old(index).last_updated,
        final(index).geo_keys()
            == staged_geo(artifacts_model(staged@), old(index).geo_keys()),
        final(index).empty_keys()
            == staged_empty(artifacts_model(staged@), old(index).empty_keys()),
        lines_model(out@) == kept_lines(lines_model(prior_lines@),
            old(index).geo_keys()) + staged_lines(artifacts_model(staged@)),
{
    let ghost lines0 = lines_model(prior_lines@);
    let ghost arts = artifacts_model(staged@);
    let ghost g0 = old(index).geo_keys();
    let ghost e0 = old(index).empty_keys();
    let mut out: Vec<String> = Vec::new();
    let n = prior_lines.len();
    let mut i: usize = 0;
    assert(lines_model(out@) =~= kept_lines(lines0.take(0), g0));
    while i < n
        invariant
            n == prior_lines@.len(),
            i <= n,
            lines0 == lines_model(prior_lines@),
            g0 == old(index).geo_keys(),
            e0 == old(index).empty_keys(),
            *index == *old(index),
            lines_model(out@) == kept_lines(lines0.take(i as int), g0),
        decreases n - i,
    {
        let line = &prior_lines[i];
        if carry_forward_line(line.as_str(), index) {
            out.push(line.clone());
        }
        proof {
            let pre = lines0.take(i as int);
            let post = lines0.take(i + 1);
            assert(post.drop_last() =~= pre);
            assert(post.last() == lines0[i as int]);
            assert(lines0[i as int] == prior_lines@[i as int]@);
            if line_kept(lines0[i as int], g0) {
                assert(lines_model(out@) =~= kept_lines(pre, g0).push(lines0[i as int]));
            }
        }
        i = i + 1;
    }
    proof {
        assert(lines0.take(n as int) =~= lines0);
    }
    let m = staged.len();
    let mut j: usize = 0;
    assert(staged_geo(arts.take(0), g0) == g0);
    assert(staged_empty(arts.take(0), e0) == e0);
    assert(staged_lines(arts.take(0)) =~= Seq::<Seq<char>>::empty());
    assert(lines_model(out@) =~= kept_lines(lines0, g0) + staged_lines(arts.take(0)));
    while j < m
        invariant
            m == staged@.len(),
            j <= m,
            arts == artifacts_model(staged@),
            lines0 == lines_model(prior_lines@),
            g0 == old(index).geo_keys(),
            e0 == old(index).empty_keys(),
            index.wf(),
            index.athlete_id == old(index).athlete_id,
            index.last_updated == old(index).last_updated,
            index.geo_keys() == staged_geo(arts.take(j as int), g0),
            index.empty_keys() == staged_empty(arts.take(j as int), e0),
            lines_model(out@) == kept_lines(lines0, g0) + staged_lines(arts.take(j as int)),
        decreases m - j,
    {
        let artifact = &staged[j];
        let ghost out_pre = out@;
        apply_staged_artifact(index, artifact);
        match &artifact.content {
            Some(line) => {
                out.push(line.clone());
                proof {
                    assert(artifact@.content == Some(line@));
                    assert(out@ == out_pre.push(*line));
                    assert(lines_model(out@) =~= lines_model(out_pre).push(line@));
                }
            }
            None => {}
        }
        proof {
            let pre = arts.take(j as int);
            let post = arts.take(j + 1);
            assert(post.drop_last() =~= pre);
            assert(post.last() == arts[j as int]);
            assert(arts[j as int] == staged@[j as int]@);
            if artifact@.content is Some {
                assert(lines_model(out@) =~= kept_lines(lines0, g0)
                    + staged_lines(pre).push(artifact@.content->Some_0));
                assert(staged_lines(post) =~= staged_lines(pre).push(
                    artifact@.content->Some_0));
            }
        }
        j = j + 1;
    }
    proof {
        assert(arts.take(m as int) =~= arts);
    }
    out
}

/// Entering artifacts never removes a geometry key.
proof fn lemma_staged_geo_monotone(
    arts: Seq<StagedArtifactModel>,
    g0: Set<Seq<char>>,
    k: Seq<char>,
)
    requires
        g0.contains(k),
    ensures
        staged_geo(arts, g0).contains(k),
    decreases arts.len(),
{
    if arts.len() > 0 {
        lemma_staged_geo_monotone(arts.drop_last(), g0, k);
    }
}

/// Every geometry artifact's key ends up in the geometry set.
proof fn lemma_staged_geo_covers(
    arts: Seq<StagedArtifactModel>,
    g0: Set<Seq<char>>,
    j: int,
)
    requires
        0 <= j < arts.len(),
        arts[j].content is Some,
    ensures
        staged_geo(arts, g0).contains(artifact_key(arts[j])),
    decreases arts.len(),
{
    if j < arts.len() - 1 {
        lemma_staged_geo_covers(arts.drop_last(), g0, j);
    }
}

/// Every line the filter keeps was kept for a key in the set.
proof fn lemma_kept_lines_elements(lines: Seq<Seq<char>>, geo: Set<Seq<char>>, i: int)
    requires
        0 <= i < kept_lines(lines, geo).len(),
    ensures
        line_kept(kept_lines(lines, geo)[i], geo),
    decreases lines.len(),
{
    if lines.len() > 0 {
        let prev = kept_lines(lines.drop_last(), geo);
        if i < prev.len() {
            lemma_kept_lines_elements(lines.drop_last(), geo, i);
        }
    }
}

/// Every staged record line comes from some geometry artifact.
proof fn lemma_staged_lines_elements(arts: Seq<StagedArtifactModel>, i: int)
    requires
        0 <= i < staged_lines(arts).len(),
    ensures
        exists|j: int| 0 <= j < arts.len() && #[trigger] arts[j].content
            == Some(staged_lines(arts)[i]),
    decreases arts.len(),
{
    if arts.len() > 0 {
        let prev = staged_lines(arts.drop_last());
        if i < prev.len() {
            lemma_staged_lines_elements(arts.drop_last(), i);
            let j = choose|j: int| 0 <= j < arts.drop_last().len()
                && #[trigger] arts.drop_last()[j].content
                    == Some(staged_lines(arts.drop_last())[i]);
            assert(arts[j].content == Some(staged_lines(arts)[i]));
        } else {
            assert(arts[arts.len() - 1].content == Some(staged_lines(arts)[i]));
        }
    }
}

/// Law: every line of a finalized dataset carries a key that the
/// finalized index holds in its geometry set — the dataset and the index
/// never diverge.
pub proof fn lemma_finalized_lines_keyed(
    lines: Seq<Seq<char>>,
    g0: Set<Seq<char>>,
    arts: Seq<StagedArtifactModel>,
    i: int,
)
    requires
        forall|j: int| 0 <= j < arts.len() ==> artifact_wf(#[trigger] arts[j]),
        0 <= i < (kept_lines(lines, g0) + staged_lines(arts)).len(),
    ensures
        line_kept((kept_lines(lines, g0) + staged_lines(arts))[i], staged_geo(arts, g0)),
{
    let kept = kept_lines(lines, g0);
    let appended = staged_lines(arts);
    if i < kept.len() {
        assert((kept + appended)[i] == kept[i]);
        lemma_kept_lines_elements(lines, g0, i);
        let k = spec_parse_feature_key(kept[i])->Some_0;
        lemma_staged_geo_monotone(arts, g0, key_model(k.0, k.1));
    } else {
        let i2 = i - kept.len();
        assert((kept + appended)[i] == appended[i2]);
        lemma_staged_lines_elements(arts, i2);
        let j = choose|j: int| 0 <= j < arts.len() && #[trigger] arts[j].content
            == Some(staged_lines(arts)[i2]);
        let a = arts[j];
        let line = appended[i2];
        assert(artifact_wf(a));
        let (am, g) = choose|am: ActivityModel, g: Seq<char>|
            #[trigger] feature_line_model(am, a.activity_hash, g) == line
                && am.id == a.activity_id;
        lemma_feature_line_round_trip(am, a.activity_hash, g);
        assert(spec_parse_feature_key(line) == Some((a.activity_id, a.activity_hash)));
        lemma_staged_geo_covers(arts, g0, j);
    }
}

/// Whether a record line parses at all.
pub open spec fn line_parses(line: Seq<char>) -> bool {
    spec_parse_feature_key(line) is Some
}

/// The activity identifier a parsing record line carries.
pub open spec fn parsed_line_id(line: Seq<char>) -> Seq<char> {
    (spec_parse_feature_key(line)->Some_0).0
}

/// Every kept line stands somewhere in the prior lines.
proof fn lemma_kept_lines_member(lines: Seq<Seq<char>>, geo: Set<Seq<char>>, i: int)
    requires
        0 <= i < kept_lines(lines, geo).len(),
    ensures
        exists|p: int| 0 <= p < lines.len() && #[trigger] lines[p] == kept_lines(lines, geo)[i],
    decreases lines.len(),
{
    if lines.len() > 0 {
        let prev = kept_lines(lines.drop_last(), geo);
        if i < prev.len() {
            lemma_kept_lines_member(lines.drop_last(), geo, i);
            let p = choose|p: int| 0 <= p < lines.drop_last().len()
                && #[trigger] lines.drop_last()[p] == prev[i];
            assert(lines[p] == kept_lines(lines, geo)[i]);
        } else {
            assert(lines[lines.len() - 1] == kept_lines(lines, geo)[i]);
        }
    }
}

/// Kept lines carry pairwise different identifiers whenever the prior
/// lines did.
proof fn lemma_kept_ids_distinct(lines: Seq<Seq<char>>, geo: Set<Seq<char>>)
    requires
        forall|p: int, q: int| 0 <= p < q < lines.len() && line_parses(#[trigger] lines[p])
            && line_parses(#[trigger] lines[q])
            ==> parsed_line_id(lines[p]) != parsed_line_id(lines[q]),
    ensures
        forall|i: int, j: int| 0 <= i < j < kept_lines(lines, geo).len()
            ==> parsed_line_id(#[trigger] kept_lines(lines, geo)[i])
                != parsed_line_id(#[trigger] kept_lines(lines, geo)[j]),
    decreases lines.len(),
{
    if lines.len() > 0 {
        let pre = lines.drop_last();
        assert(forall|p: int, q: int| 0 <= p < q < pre.len()
            && line_parses(#[trigger] pre[p]) && line_parses(#[trigger] pre[q])
            ==> parsed_line_id(pre[p]) != parsed_line_id(pre[q]));
        lemma_kept_ids_distinct(pre, geo);
        let kept = kept_lines(lines, geo);
        let kprev = kept_lines(pre, geo);
        assert forall|i: int, j: int| 0 <= i < j < kept.len()
            implies parsed_line_id(#[trigger] kept[i]) != parsed_line_id(#[trigger] kept[j]) by {
            if j < kprev.len() {
                assert(kept[i] == kprev[i] && kept[j] == kprev[j]);
            } else {
                assert(line_kept(lines.last(), geo));
                assert(kept[j] == lines.last());
                assert(kept[i] == kprev[i]);
                lemma_kept_lines_elements(pre, geo, i);
                lemma_kept_lines_member(pre, geo, i);
                let p = choose|p: int| 0 <= p < pre.len() && #[trigger] pre[p] == kprev[i];
                assert(lines[p] == kprev[i]);
                assert(line_parses(lines[p]) && line_parses(lines[lines.len() - 1]));
            }
        }
    }
}

/// Every staged record line parses to the identifier of the artifact it
/// came from.
proof fn lemma_staged_line_parses(arts: Seq<StagedArtifactModel>, i: int)
    requires
        forall|p: int| 0 <= p < arts.len() ==> artifact_wf(#[trigger] arts[p]),
        0 <= i < staged_lines(arts).len(),
    ensures
        line_parses(staged_lines(arts)[i]),
        exists|p: int| 0 <= p < arts.len()
            && #[trigger] arts[p].content == Some(staged_lines(arts)[i])
            && parsed_line_id(staged_lines(arts)[i]) == arts[p].activity_id,
{
    lemma_staged_lines_elements(arts, i);
    let line = staged_lines(arts)[i];
    let p = choose|p: int| 0 <= p < arts.len() && #[trigger] arts[p].content == Some(line);
    assert(artifact_wf(arts[p]));
    let (am, g) = choose|am: ActivityModel, g: Seq<char>|
        #[trigger] feature_line_model(am, arts[p].activity_hash, g) == line
            && am.id == arts[p].activity_id;
    lemma_feature_line_round_trip(am, arts[p].activity_hash, g);
}

/// Staged record lines carry pairwise different identifiers whenever
/// the artifacts do.
proof fn lemma_staged_ids_distinct(arts: Seq<StagedArtifactModel>)
    requires
        forall|p: int| 0 <= p < arts.len() ==> artifact_wf(#[trigger] arts[p]),
        forall|p: int, q: int| 0 <= p < q < arts.len()
            ==> #[trigger] arts[p].activity_id != #[trigger] arts[q].activity_id,
    ensures
        forall|i: int, j: int| 0 <= i < j < staged_lines(arts).len()
            ==> parsed_line_id(#[trigger] staged_lines(arts)[i])
                != parsed_line_id(#[trigger] staged_lines(arts)[j]),
    decreases arts.len(),
{
    if arts.len() > 0 {
        let pre = arts.drop_last();
        assert(forall|p: int| 0 <= p < pre.len() ==> artifact_wf(#[trigger] pre[p]));
        assert(forall|p: int, q: int| 0 <= p < q < pre.len()
            ==> #[trigger] pre[p].activity_id != #[trigger] pre[q].activity_id);
        lemma_staged_ids_distinct(pre);
        let all = staged_lines(arts);
        let sprev = staged_lines(pre);
        assert forall|i: int, j: int| 0 <= i < j < all.len()
            implies parsed_line_id(#[trigger] all[i]) != parsed_line_id(#[trigger] all[j]) by {
            if j < sprev.len() {
                assert(all[i] == sprev[i] && all[j] == sprev[j]);
            } else {
                let last = arts[arts.len() - 1];
                assert(last.content == Some(all[j]));
                assert(artifact_wf(last));
                let (am, g) = choose|am: ActivityModel, g: Seq<char>|
                    #[trigger] feature_line_model(am, last.activity_hash, g) == all[j]
                        && am.id == last.activity_id;
                lemma_feature_line_round_trip(am, last.activity_hash, g);
                assert(parsed_line_id(all[j]) == last.activity_id);
                assert(all[i] == sprev[i]);
                lemma_staged_line_parses(pre, i);
                let p = choose|p: int| 0 <= p < pre.len()
                    && #[trigger] pre[p].content == Some(sprev[i])
                    && parsed_line_id(sprev[i]) == pre[p].activity_id;
                assert(arts[p].activity_id != arts[arts.len() - 1].activity_id);
            }
        }
    }
}

/// Law: a finalized dataset holds at most one record per activity
/// identifier. The premises are what one run arranges when the catalog
/// lists each activity once: the prior dataset already had pairwise
/// different identifiers, the staged artifacts carry pairwise different
/// identifiers, and no staged identifier belongs to a record that is
/// carried forward (queued activities are exactly those not carried).
pub proof fn lemma_one_record_per_identifier(
    lines: Seq<Seq<char>>,
    g0: Set<Seq<char>>,
    arts: Seq<StagedArtifactModel>,
    i: int,
    j: int,
)
    requires
        forall|p: int, q: int| 0 <= p < q < lines.len() && line_parses(#[trigger] lines[p])
            && line_parses(#[trigger] lines[q])
            ==> parsed_line_id(lines[p]) != parsed_line_id(lines[q]),
        forall|p: int| 0 <= p < arts.len() ==> artifact_wf(#[trigger] arts[p]),
        forall|p: int, q: int| 0 <= p < q < arts.len()
            ==> #[trigger] arts[p].activity_id != #[trigger] arts[q].activity_id,
        forall|p: int, q: int| 0 <= p < lines.len() && line_kept(#[trigger] lines[p], g0)
            && 0 <= q < arts.len()
            ==> parsed_line_id(lines[p]) != #[trigger] arts[q].activity_id,
        0 <= i < j < (kept_lines(lines, g0) + staged_lines(arts)).len(),
    ensures
        line_parses((kept_lines(lines, g0) + staged_lines(arts))[i]),
        line_parses((kept_lines(lines, g0) + staged_lines(arts))[j]),
        parsed_line_id((kept_lines(lines, g0) + staged_lines(arts))[i])
            != parsed_line_id((kept_lines(lines, g0) + staged_lines(arts))[j]),
{
    let kept = kept_lines(lines, g0);
    let appended = staged_lines(arts);
    if i < kept.len() {
        assert((kept + appended)[i] == kept[i]);
        lemma_kept_lines_elements(lines, g0, i);
    } else {
        assert((kept + appended)[i] == appended[i - kept.len()]);
        lemma_staged_line_parses(arts, i - kept.len());
    }
    if j < kept.len() {
        assert((kept + appended)[j] == kept[j]);
        lemma_kept_lines_elements(lines, g0, j);
    } else {
        assert((kept + appended)[j] == appended[j - kept.len()]);
        lemma_staged_line_parses(arts, j - kept.len());
    }
    if j < kept.len() {
        lemma_kept_ids_distinct(lines, g0);
    } else if i >= kept.len() {
        lemma_staged_ids_distinct(arts);
    } else {
        // One carried line, one staged line: the cross premise decides.
        lemma_kept_lines_member(lines, g0, i);
        let p = choose|p: int| 0 <= p < lines.len() && #[trigger] lines[p] == kept[i];
        assert(line_kept(lines[p], g0));
        let q = choose|q: int| 0 <= q < arts.len()
            && #[trigger] arts[q].content == Some(appended[j - kept.len()])
            && parsed_line_id(appended[j - kept.len()]) == arts[q].activity_id;
    }
}

/// Which keys the geometry set holds after the staged artifacts.
proof fn lemma_staged_geo_membership(
    arts: Seq<StagedArtifactModel>,
    g0: Set<Seq<char>>,
    k: Seq<char>,
)
    ensures
        staged_geo(arts, g0).contains(k) <==> (g0.contains(k) || exists|j: int|
            0 <= j < arts.len() && #[trigger] arts[j].content is Some
                && artifact_key(arts[j]) == k),
    decreases arts.len(),
{
    if arts.len() > 0 {
        lemma_staged_geo_membership(arts.drop_last(), g0, k);
        if exists|j: int| 0 <= j < arts.drop_last().len()
            && #[trigger] arts.drop_last()[j].content is Some
            && artifact_key(arts.drop_last()[j]) == k {
            let j = choose|j: int| 0 <= j < arts.drop_last().len()
                && #[trigger] arts.drop_last()[j].content is Some
                && artifact_key(arts.drop_last()[j]) == k;
            assert(arts[j].content is Some && artifact_key(arts[j]) == k);
        }
        if exists|j: int| 0 <= j < arts.len() && #[trigger] arts[j].content is Some
            && artifact_key(arts[j]) == k {
            let j = choose|j: int| 0 <= j < arts.len()
                && #[trigger] arts[j].content is Some && artifact_key(arts[j]) == k;
            if j < arts.len() - 1 {
                assert(arts.drop_last()[j].content is Some
                    && artifact_key(arts.drop_last()[j]) == k);
            }
        }
    }
}

/// Which keys the empty-marker set holds after the staged artifacts.
proof fn lemma_staged_empty_membership(
    arts: Seq<StagedArtifactModel>,
    e0: Set<Seq<char>>,
    k: Seq<char>,
)
    ensures
        staged_empty(arts, e0).contains(k) <==> (e0.contains(k) || exists|j: int|
            0 <= j < arts.len() && #[trigger] arts[j].content is None
                && artifact_key(arts[j]) == k),
    decreases arts.len(),
{
    if arts.len() > 0 {
        lemma_staged_empty_membership(arts.drop_last(), e0, k);
        if exists|j: int| 0 <= j < arts.drop_last().len()
            && #[trigger] arts.drop_last()[j].content is None
            && artifact_key(arts.drop_last()[j]) == k {
            let j = choose|j: int| 0 <= j < arts.drop_last().len()
                && #[trigger] arts.drop_last()[j].content is None
                && artifact_key(arts.drop_last()[j]) == k;
            assert(arts[j].content is None && artifact_key(arts[j]) == k);
        }
        if exists|j: int| 0 <= j < arts.len() && #[trigger] arts[j].content is None
            && artifact_key(arts[j]) == k {
            let j = choose|j: int| 0 <= j < arts.len()
                && #[trigger] arts[j].content is None && artifact_key(arts[j]) == k;
            if j < arts.len() - 1 {
                assert(arts.drop_last()[j].content is None
                    && artifact_key(arts.drop_last()[j]) == k);
            }
        }
    }
}

/// Law: a finalized index keeps its two key sets disjoint — no key is at
/// once "has geometry" and "empty". This holds whenever the prior sets
/// were disjoint, every staged key was unknown to the prior index (true
/// of every queued activity, by the partition law), and no two staged
/// artifacts share a key (true when the catalog lists each activity
/// once).
pub proof fn lemma_final_sets_disjoint(
    pg: Set<Seq<char>>,
    pe: Set<Seq<char>>,
    cat: Seq<ActivityModel>,
    arts: Seq<StagedArtifactModel>,
    k: Seq<char>,
)
    requires
        forall|x: Seq<char>| !(pg.contains(x) && pe.contains(x)),
        forall|j: int| 0 <= j < arts.len() ==> !pg.contains(artifact_key(#[trigger] arts[j]))
            && !pe.contains(artifact_key(arts[j])),
        forall|i: int, j: int| 0 <= i < j < arts.len()
            ==> artifact_key(arts[i]) != artifact_key(arts[j]),
    ensures
        !(staged_geo(arts, planned_geo(pg, pe, cat, Set::empty())).contains(k)
            && staged_empty(arts, planned_empty(pg, pe, cat, Set::empty())).contains(k)),
{
    let g1 = planned_geo(pg, pe, cat, Set::empty());
    let e1 = planned_empty(pg, pe, cat, Set::empty());
    lemma_staged_geo_membership(arts, g1, k);
    lemma_staged_empty_membership(arts, e1, k);
    lemma_planned_geo_membership(pg, pe, cat, Set::empty(), k);
    lemma_planned_empty_membership(pg, pe, cat, Set::empty(), k);
    if staged_geo(arts, g1).contains(k) && staged_empty(arts, e1).contains(k) {
        if g1.contains(k) {
            // Carried as geometry: the key is in the prior geometry set,
            // so it is neither in the prior empty set nor staged.
            assert(pg.contains(k));
            if !e1.contains(k) {
                let j = choose|j: int| 0 <= j < arts.len()
                    && #[trigger] arts[j].content is None && artifact_key(arts[j]) == k;
                assert(!pg.contains(artifact_key(arts[j])));
            }
        } else {
            // Staged as geometry: the key belongs to one artifact only.
            let j = choose|j: int| 0 <= j < arts.len()
                && #[trigger] arts[j].content is Some && artifact_key(arts[j]) == k;
            if e1.contains(k) {
                assert(pe.contains(k));
                assert(!pe.contains(artifact_key(arts[j])));
            } else {
                let j2 = choose|j2: int| 0 <= j2 < arts.len()
                    && #[trigger] arts[j2].content is None && artifact_key(arts[j2]) == k;
                if j < j2 {
                    assert(artifact_key(arts[j]) != artifact_key(arts[j2]));
                } else if j2 < j {
                    assert(artifact_key(arts[j2]) != artifact_key(arts[j]));
                }
            }
        }
    }
}

/// All lines pass a filter they individually satisfy.
proof fn lemma_kept_lines_all(lines: Seq<Seq<char>>, geo: Set<Seq<char>>)
    requires
        forall|i: int| 0 <= i < lines.len() ==> line_kept(#[trigger] lines[i], geo),
    ensures
        kept_lines(lines, geo) == lines,
    decreases lines.len(),
{
    if lines.len() > 0 {
        lemma_kept_lines_all(lines.drop_last(), geo);
        assert(kept_lines(lines, geo) =~= lines.drop_last().push(lines.last()));
        assert(lines.drop_last().push(lines.last()) =~= lines);
    }
}

/// Law: the sync is idempotent. After a successful run, the prior index
/// knows every catalog key and nothing else, its two sets are disjoint,
/// and every dataset line carries a key of its geometry set. A second
/// run over an unchanged catalog then queues nothing — zero downloads —
/// rebuilds exactly the same two key sets, and keeps every dataset line
/// unchanged and in order.
pub proof fn lemma_sync_idempotent(
    cat: Seq<ActivityModel>,
    prior_geo: Set<Seq<char>>,
    prior_empty: Set<Seq<char>>,
    prior_lines: Seq<Seq<char>>,
)
    requires
        forall|i: int| 0 <= i < cat.len()
            ==> known_key(prior_geo, prior_empty, #[trigger] cat[i]),
        forall|k: Seq<char>| prior_geo.contains(k) ==> exists|i: int| 0 <= i < cat.len()
            && crate::index::activity_key(#[trigger] cat[i]) == k,
        forall|k: Seq<char>| prior_empty.contains(k) ==> exists|i: int| 0 <= i < cat.len()
            && crate::index::activity_key(#[trigger] cat[i]) == k,
        forall|k: Seq<char>| !(prior_geo.contains(k) && prior_empty.contains(k)),
        forall|i: int| 0 <= i < prior_lines.len()
            ==> line_kept(#[trigger] prior_lines[i], prior_geo),
    ensures
        planned_queue(prior_geo, prior_empty, cat).len() == 0,
        planned_geo(prior_geo, prior_empty, cat, Set::empty()) == prior_geo,
        planned_empty(prior_geo, prior_empty, cat, Set::empty()) == prior_empty,
        kept_lines(prior_lines, planned_geo(prior_geo, prior_empty, cat, Set::empty()))
            == prior_lines,
{
    lemma_unchanged_catalog_queues_nothing(prior_geo, prior_empty, cat);
    let pg2 = planned_geo(prior_geo, prior_empty, cat, Set::empty());
    let pe2 = planned_empty(prior_geo, prior_empty, cat, Set::empty());
    assert forall|k: Seq<char>| pg2.contains(k) <==> prior_geo.contains(k) by {
        lemma_planned_geo_membership(prior_geo, prior_empty, cat, Set::empty(), k);
    }
    assert(pg2 =~= prior_geo);
    assert forall|k: Seq<char>| pe2.contains(k) <==> prior_empty.contains(k) by {
        lemma_planned_empty_membership(prior_geo, prior_empty, cat, Set::empty(), k);
    }
    assert(pe2 =~= prior_empty);
    lemma_kept_lines_all(prior_lines, prior_geo);
}

} // verus!
