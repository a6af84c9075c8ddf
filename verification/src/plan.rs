//! The diff engine: partition the current remote catalog against the
//! prior index into entries carried forward unchanged and activities that
//! must be fetched and reprocessed.
//!
//! Deletion needs no tombstone: only the current catalog is walked, so a
//! key absent from it is never copied into the new index.

use vstd::prelude::*;
use crate::activity::{Activity, ActivityModel};
use crate::index::{ActivityIndex, activity_key};

verus! {

/// The models of a catalog of activities.
pub open spec fn models_of(s: Seq<Activity>) -> Seq<ActivityModel> {
    s.map_values(|a: Activity| a@)
}

/// Whether the prior key sets know this activity's current key.
pub open spec fn known_key(pg: Set<Seq<char>>, pe: Set<Seq<char>>, a: ActivityModel) -> bool {
    pg.contains(activity_key(a)) || pe.contains(activity_key(a))
}

/// The geometry key set after carrying the catalog forward, starting
/// from `g0`.
pub open spec fn planned_geo(
    pg: Set<Seq<char>>,
    pe: Set<Seq<char>>,
    cat: Seq<ActivityModel>,
    g0: Set<Seq<char>>,
) -> Set<Seq<char>>
    decreases cat.len(),
{
    if cat.len() == 0 {
        g0
    } else {
        let prev = planned_geo(pg, pe, cat.drop_last(), g0);
        if pg.contains(activity_key(cat.last())) {
            prev.insert(activity_key(cat.last()))
        } else {
            prev
        }
    }
}

/// The empty-marker key set after carrying the catalog forward, starting
/// from `e0`.
pub open spec fn planned_empty(
    pg: Set<Seq<char>>,
    pe: Set<Seq<char>>,
    cat: Seq<ActivityModel>,
    e0: Set<Seq<char>>,
) -> Set<Seq<char>>
    decreases cat.len(),
{
    if cat.len() == 0 {
        e0
    } else {
        let prev = planned_empty(pg, pe, cat.drop_last(), e0);
        let a = cat.last();
        if !pg.contains(activity_key(a)) && pe.contains(activity_key(a)) {
            prev.insert(activity_key(a))
        } else {
            prev
        }
    }
}

/// The activities that must be fetched, in catalog order.
pub open spec fn planned_queue(
    pg: Set<Seq<char>>,
    pe: Set<Seq<char>>,
    cat: Seq<ActivityModel>,
) -> Seq<ActivityModel>
    decreases cat.len(),
{
    if cat.len() == 0 {
        Seq::empty()
    } else {
        let prev = planned_queue(pg, pe, cat.drop_last());
        if known_key(pg, pe, cat.last()) {
            prev
        } else {
            prev.push(cat.last())
        }
    }
}

/// How many catalog entries are carried forward.
pub open spec fn carried_count(
    pg: Set<Seq<char>>,
    pe: Set<Seq<char>>,
    cat: Seq<ActivityModel>,
) -> nat
    decreases cat.len(),
{
    if cat.len() == 0 {
        0
    } else {
        carried_count(pg, pe, cat.drop_last())
            + if known_key(pg, pe, cat.last()) { 1nat } else { 0nat }
    }
}

/// Law: the partition is complete — over a catalog of size K, the
/// carried-forward count plus the queued count is exactly K, and every
/// queued activity's key is unknown to the prior index while every
/// carried one's is known.
pub proof fn lemma_partition_complete(
    pg: Set<Seq<char>>,
    pe: Set<Seq<char>>,
    cat: Seq<ActivityModel>,
)
    ensures
        planned_queue(pg, pe, cat).len() + carried_count(pg, pe, cat) == cat.len(),
        forall|i: int| 0 <= i < planned_queue(pg, pe, cat).len()
            ==> !known_key(pg, pe, #[trigger] planned_queue(pg, pe, cat)[i]),
    decreases cat.len(),
{
    if cat.len() > 0 {
        lemma_partition_complete(pg, pe, cat.drop_last());
    }
}

/// Which keys the planned geometry set holds: what it started with, plus
/// every catalog key the prior geometry set knows.
pub proof fn lemma_planned_geo_membership(
    pg: Set<Seq<char>>,
    pe: Set<Seq<char>>,
    cat: Seq<ActivityModel>,
    g0: Set<Seq<char>>,
    k: Seq<char>,
)
    ensures
        planned_geo(pg, pe, cat, g0).contains(k) <==> (g0.contains(k) || (pg.contains(k)
            && exists|i: int| 0 <= i < cat.len() && activity_key(#[trigger] cat[i]) == k)),
    decreases cat.len(),
{
    if cat.len() > 0 {
        lemma_planned_geo_membership(pg, pe, cat.drop_last(), g0, k);
        if exists|i: int| 0 <= i < cat.drop_last().len()
            && activity_key(#[trigger] cat.drop_last()[i]) == k {
            let i = choose|i: int| 0 <= i < cat.drop_last().len()
                && activity_key(#[trigger] cat.drop_last()[i]) == k;
            assert(activity_key(cat[i]) == k);
        }
        if planned_geo(pg, pe, cat, g0).contains(k) && !g0.contains(k) {
            assert(pg.contains(k));
        }
        if pg.contains(k) && exists|i: int| 0 <= i < cat.len()
            && activity_key(#[trigger] cat[i]) == k {
            let i = choose|i: int| 0 <= i < cat.len() && activity_key(#[trigger] cat[i]) == k;
            if i < cat.len() - 1 {
                assert(activity_key(cat.drop_last()[i]) == k);
            }
        }
    }
}

/// Which keys the planned empty-marker set holds.
pub proof fn lemma_planned_empty_membership(
    pg: Set<Seq<char>>,
    pe: Set<Seq<char>>,
    cat: Seq<ActivityModel>,
    e0: Set<Seq<char>>,
    k: Seq<char>,
)
    ensures
        planned_empty(pg, pe, cat, e0).contains(k) <==> (e0.contains(k) || (!pg.contains(k)
            && pe.contains(k)
            && exists|i: int| 0 <= i < cat.len() && activity_key(#[trigger] cat[i]) == k)),
    decreases cat.len(),
{
    if cat.len() > 0 {
        lemma_planned_empty_membership(pg, pe, cat.drop_last(), e0, k);
        if exists|i: int| 0 <= i < cat.drop_last().len()
            && activity_key(#[trigger] cat.drop_last()[i]) == k {
            let i = choose|i: int| 0 <= i < cat.drop_last().len()
                && activity_key(#[trigger] cat.drop_last()[i]) == k;
            assert(activity_key(cat[i]) == k);
        }
        if !pg.contains(k) && pe.contains(k) && exists|i: int| 0 <= i < cat.len()
            && activity_key(#[trigger] cat[i]) == k {
            let i = choose|i: int| 0 <= i < cat.len() && activity_key(#[trigger] cat[i]) == k;
            if i < cat.len() - 1 {
                assert(activity_key(cat.drop_last()[i]) == k);
            }
        }
    }
}

/// Law: deletion by omission. A key that no activity in the current
/// catalog carries is absent from both key sets of an index planned from
/// empty sets — whatever the prior index knew about it.
pub proof fn lemma_deletion_by_omission(
    pg: Set<Seq<char>>,
    pe: Set<Seq<char>>,
    cat: Seq<ActivityModel>,
    k: Seq<char>,
)
    requires
        forall|i: int| 0 <= i < cat.len() ==> activity_key(#[trigger] cat[i]) != k,
    ensures
        !planned_geo(pg, pe, cat, Set::empty()).contains(k),
        !planned_empty(pg, pe, cat, Set::empty()).contains(k),
{
    lemma_planned_geo_membership(pg, pe, cat, Set::empty(), k);
    lemma_planned_empty_membership(pg, pe, cat, Set::empty(), k);
}

/// Law: a run over a catalog whose every key the prior index already
/// knows queues nothing — the second of two back-to-back runs downloads
/// zero activities.
pub proof fn lemma_unchanged_catalog_queues_nothing(
    pg: Set<Seq<char>>,
    pe: Set<Seq<char>>,
    cat: Seq<ActivityModel>,
)
    requires
        forall|i: int| 0 <= i < cat.len() ==> known_key(pg, pe, #[trigger] cat[i]),
    ensures
        planned_queue(pg, pe, cat).len() == 0,
    decreases cat.len(),
{
    if cat.len() > 0 {
        assert(forall|i: int| 0 <= i < cat.drop_last().len()
            ==> known_key(pg, pe, #[trigger] cat.drop_last()[i]));
        lemma_unchanged_catalog_queues_nothing(pg, pe, cat.drop_last());
    }
}

/// Partition the catalog: carry unchanged entries into `target` and
/// return the activities that must be fetched, in catalog order. With no
/// prior state the caller passes an empty prior index, and everything is
/// queued.
pub fn plan_sync(
    catalog: &Vec<Activity>,
    prior: &ActivityIndex,
    target: &mut ActivityIndex,
) -> (queued: Vec<Activity>)
    requires
        old(target).wf(),
    ensures
        final(target).wf(),
        final(target).athlete_id == old(target).athlete_id,
        final(target).last_updated == old(target).last_updated,
        final(target).geo_keys() == planned_geo(prior.geo_keys(), prior.empty_keys(),
            models_of(catalog@), old(target).geo_keys()),
        final(target).empty_keys() == planned_empty(prior.geo_keys(), prior.empty_keys(),
            models_of(catalog@), old(target).empty_keys()),
        models_of(queued@) == planned_queue(prior.geo_keys(), prior.empty_keys(),
            models_of(catalog@)),
{
    let ghost pg = prior.geo_keys();
    let ghost pe = prior.empty_keys();
    let ghost cat = models_of(catalog@);
    let ghost g0 = old(target).geo_keys();
    let ghost e0 = old(target).empty_keys();
    let mut queued: Vec<Activity> = Vec::new();
    let n = catalog.len();
    let mut i: usize = 0;
    assert(models_of(queued@) =~= planned_queue(pg, pe, cat.take(0)));
    assert(cat.take(0) =~= Seq::<ActivityModel>::empty());
    while i < n
        invariant
            n == catalog@.len(),
            i <= n,
            cat == models_of(catalog@),
            pg == prior.geo_keys(),
            pe == prior.empty_keys(),
            g0 == old(target).geo_keys(),
            e0 == old(target).empty_keys(),
            target.wf(),
            target.athlete_id == old(target).athlete_id,
            target.last_updated == old(target).last_updated,
            target.geo_keys() == planned_geo(pg, pe, cat.take(i as int), g0),
            target.empty_keys() == planned_empty(pg, pe, cat.take(i as int), e0),
            models_of(queued@) == planned_queue(pg, pe, cat.take(i as int)),
        decreases n - i,
    {
        let a = &catalog[i];
        let ghost t0 = *target;
        let copied = prior.try_copy(a, target);
        if !copied {
            queued.push(a.clone_activity());
        }
        proof {
            let pre = cat.take(i as int);
            let post = cat.take(i + 1);
            let k = activity_key(cat[i as int]);
            assert(cat[i as int] == catalog@[i as int]@);
            assert(a@ == cat[i as int]);
            assert(activity_key(a@) == k);
            assert(copied == prior.has_key(k));
            assert(post.drop_last() =~= pre);
            assert(post.last() == cat[i as int]);
            assert(planned_geo(pg, pe, post.drop_last(), g0) == planned_geo(pg, pe, pre, g0));
            assert(planned_empty(pg, pe, post.drop_last(), e0)
                == planned_empty(pg, pe, pre, e0));
            assert(planned_queue(pg, pe, post.drop_last()) == planned_queue(pg, pe, pre));
            if pg.contains(k) {
                assert(target.geo_keys() == t0.geo_keys().insert(k));
                assert(target.empty_keys() == t0.empty_keys());
                assert(planned_geo(pg, pe, post, g0) == planned_geo(pg, pe, pre, g0).insert(k));
                assert(planned_empty(pg, pe, post, e0) == planned_empty(pg, pe, pre, e0));
            } else if pe.contains(k) {
                assert(target.empty_keys() == t0.empty_keys().insert(k));
                assert(target.geo_keys() == t0.geo_keys());
                assert(planned_geo(pg, pe, post, g0) == planned_geo(pg, pe, pre, g0));
                assert(planned_empty(pg, pe, post, e0)
                    == planned_empty(pg, pe, pre, e0).insert(k));
            } else {
                assert(*target == t0);
                assert(planned_geo(pg, pe, post, g0) == planned_geo(pg, pe, pre, g0));
                assert(planned_empty(pg, pe, post, e0) == planned_empty(pg, pe, pre, e0));
            }
            if !copied {
                assert(models_of(queued@) =~= planned_queue(pg, pe, pre).push(cat[i as int]));
            }
        }
        i = i + 1;
    }
    proof {
        assert(cat.take(n as int) =~= cat);
    }
    queued
}

} // verus!

