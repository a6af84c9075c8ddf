//! The change-detection index: two disjoint sets of composite
//! `"{activity_id}:{fingerprint}"` keys, one for activities that produced
//! track geometry and one for activities confirmed to hold no usable
//! location data.
//!
//! The sets are held as vectors of distinct key strings and modelled as
//! sets of character sequences.

use vstd::prelude::*;
use vstd::string::*;
use crate::activity::{Activity, ActivityModel, spec_fingerprint};

verus! {

/// The composite change-detection key `"{activity_id}:{fingerprint}"`.
pub open spec fn key_model(id: Seq<char>, hash: Seq<char>) -> Seq<char> {
    id + seq![':'] + hash
}

/// The key of an activity under the current fingerprint function.
pub open spec fn activity_key(a: ActivityModel) -> Seq<char> {
    key_model(a.id, spec_fingerprint(a))
}

/// The set of keys a vector of key strings holds.
pub open spec fn key_set(v: Seq<String>) -> Set<Seq<char>> {
    Set::new(|k: Seq<char>| exists|i: int| 0 <= i < v.len() && v[i]@ == k)
}

/// No two entries hold the same key.
pub open spec fn distinct_keys(v: Seq<String>) -> bool {
    forall|i: int, j: int| 0 <= i < j < v.len() ==> v[i]@ != v[j]@
}

/// The change-detection index for one user.
pub struct ActivityIndex {
    pub athlete_id: String,
    pub last_updated: String,
    pub geojson_activities: Vec<String>,
    pub empty_activities: Vec<String>,
}

/// An empty key vector holds the empty key set.
proof fn lemma_key_set_empty(v: Seq<String>)
    requires
        v.len() == 0,
    ensures
        key_set(v) == Set::<Seq<char>>::empty(),
{
    assert(key_set(v) =~= Set::<Seq<char>>::empty());
}

/// Pushing a key string adds exactly its key to the set.
proof fn lemma_key_set_push(v: Seq<String>, s: String)
    ensures
        key_set(v.push(s)) == key_set(v).insert(s@),
{
    assert forall|k: Seq<char>| key_set(v.push(s)).contains(k)
        implies key_set(v).insert(s@).contains(k) by {
        let i = choose|i: int| 0 <= i < v.push(s).len() && v.push(s)[i]@ == k;
        if i < v.len() {
            assert(v[i]@ == k);
        } else {
            assert(v.push(s)[i] == s);
        }
    }
    assert forall|k: Seq<char>| key_set(v).insert(s@).contains(k)
        implies key_set(v.push(s)).contains(k) by {
        if k == s@ {
            assert(v.push(s)[v.len() as int]@ == k);
        } else {
            let i = choose|i: int| 0 <= i < v.len() && v[i]@ == k;
            assert(v.push(s)[i]@ == k);
        }
    }
    assert(key_set(v.push(s)) =~= key_set(v).insert(s@));
}

/// A vector of distinct keys holds exactly as many keys as entries.
proof fn lemma_key_set_len(v: Seq<String>)
    requires
        distinct_keys(v),
    ensures
        key_set(v).finite(),
        key_set(v).len() == v.len(),
    decreases v.len(),
{
    if v.len() == 0 {
        lemma_key_set_empty(v);
    } else {
        let pre = v.drop_last();
        assert(distinct_keys(pre));
        lemma_key_set_len(pre);
        assert(v =~= pre.push(v.last()));
        lemma_key_set_push(pre, v.last());
        assert(!key_set(pre).contains(v.last()@)) by {
            if key_set(pre).contains(v.last()@) {
                let i = choose|i: int| 0 <= i < pre.len() && pre[i]@ == v.last()@;
                assert(v[i]@ == v[v.len() - 1]@);
            }
        }
    }
}

/// Law: under the representation invariant, `total_activities` counts
/// exactly the distinct composite keys the index holds — the cardinality
/// of the geometry set plus the cardinality of the empty-marker set.
pub proof fn lemma_total_is_set_cardinality(index: ActivityIndex)
    requires
        index.wf(),
    ensures
        index.geo_keys().finite(),
        index.empty_keys().finite(),
        index.geojson_activities@.len() == index.geo_keys().len(),
        index.empty_activities@.len() == index.empty_keys().len(),
{
    lemma_key_set_len(index.geojson_activities@);
    lemma_key_set_len(index.empty_activities@);
}

/// Whether the vector holds the given key.
fn vec_contains_key(v: &Vec<String>, k: &String) -> (r: bool)
    ensures
        r == key_set(v@).contains(k@),
{
    let n = v.len();
    let mut i: usize = 0;
    while i < n
        invariant
            n == v@.len(),
            i <= n,
            forall|j: int| 0 <= j < i ==> v@[j]@ != k@,
        decreases n - i,
    {
        if v[i].eq(k) {
            assert(key_set(v@).contains(k@));
            return true;
        }
        i = i + 1;
    }
    assert(!key_set(v@).contains(k@)) by {
        if key_set(v@).contains(k@) {
            let j = choose|j: int| 0 <= j < v@.len() && v@[j]@ == k@;
        }
    }
    false
}

/// Insert a key string unless its key is already present.
fn insert_key(v: &mut Vec<String>, k: String)
    requires
        distinct_keys(old(v)@),
    ensures
        key_set(final(v)@) == key_set(old(v)@).insert(k@),
        distinct_keys(final(v)@),
{
    if !vec_contains_key(v, &k) {
        let ghost v0 = v@;
        v.push(k);
        proof {
            lemma_key_set_push(v0, k);
            assert forall|i: int, j: int| 0 <= i < j < final(v)@.len()
                implies final(v)@[i]@ != final(v)@[j]@ by {
                if j < v0.len() {
                    assert(final(v)@[i] == v0[i] && final(v)@[j] == v0[j]);
                } else {
                    assert(final(v)@[j] == k);
                    assert(final(v)@[i] == v0[i]);
                    assert(!key_set(v0).contains(k@));
                    assert(key_set(v0).contains(v0[i]@));
                }
            }
        }
    } else {
        proof {
            assert(key_set(v@) =~= key_set(v@).insert(k@));
        }
    }
}

impl ActivityIndex {
    /// The set of keys whose activities produced track geometry.
    pub open spec fn geo_keys(&self) -> Set<Seq<char>> {
        key_set(self.geojson_activities@)
    }

    /// The set of keys confirmed to hold no usable location data.
    pub open spec fn empty_keys(&self) -> Set<Seq<char>> {
        key_set(self.empty_activities@)
    }

    /// Representation invariant: each vector holds distinct keys.
    pub open spec fn wf(&self) -> bool {
        distinct_keys(self.geojson_activities@) && distinct_keys(self.empty_activities@)
    }

    /// Whether the key is known to the index, in either set.
    pub open spec fn has_key(&self, k: Seq<char>) -> bool {
        self.geo_keys().contains(k) || self.empty_keys().contains(k)
    }

    /// A fresh index with empty key sets. The caller stamps
    /// `last_updated` separately, since the clock is no concern of the
    /// index itself.
    pub fn new_empty(athlete_id: String) -> (r: Self)
        ensures
            r.athlete_id@ == athlete_id@,
            r.last_updated@ == Seq::<char>::empty(),
            r.geo_keys() == Set::<Seq<char>>::empty(),
            r.empty_keys() == Set::<Seq<char>>::empty(),
            r.wf(),
    {
        let r = ActivityIndex {
            athlete_id,
            last_updated: String::new(),
            geojson_activities: Vec::new(),
            empty_activities: Vec::new(),
        };
        proof {
            lemma_key_set_empty(r.geojson_activities@);
            lemma_key_set_empty(r.empty_activities@);
        }
        r
    }

    /// Whether the geometry set holds this composite key.
    pub fn has_geojson_key(&self, key: &String) -> (r: bool)
        ensures
            r == self.geo_keys().contains(key@),
    {
        vec_contains_key(&self.geojson_activities, key)
    }

    /// Stamp the index with the moment it was built.
    pub fn set_last_updated(&mut self, ts: String)
        ensures
            final(self).last_updated == ts,
            final(self).athlete_id == old(self).athlete_id,
            final(self).geojson_activities == old(self).geojson_activities,
            final(self).empty_activities == old(self).empty_activities,
    {
        self.last_updated = ts;
    }

    /// The composite key `"{activity_id}:{activity_hash}"`.
    pub fn create_key(activity_id: &str, activity_hash: &str) -> (r: String)
        ensures
            r@ == key_model(activity_id@, activity_hash@),
    {
        let mut s = String::from_str(activity_id);
        s.append(":");
        s.append(activity_hash);
        proof {
            reveal_strlit(":");
            assert(":"@ =~= seq![':']);
            assert(s@ =~= key_model(activity_id@, activity_hash@));
        }
        s
    }

    /// Record that the keyed activity produced geometry. Idempotent.
    pub fn insert_geojson(&mut self, activity_id: &str, activity_hash: &str)
        requires
            old(self).wf(),
        ensures
            final(self).geo_keys()
                == old(self).geo_keys().insert(key_model(activity_id@, activity_hash@)),
            final(self).empty_keys() == old(self).empty_keys(),
            final(self).athlete_id == old(self).athlete_id,
            final(self).last_updated == old(self).last_updated,
            final(self).wf(),
    {
        let k = Self::create_key(activity_id, activity_hash);
        insert_key(&mut self.geojson_activities, k);
    }

    /// Record that the keyed activity holds no usable location data.
    /// Idempotent.
    pub fn insert_empty(&mut self, activity_id: &str, activity_hash: &str)
        requires
            old(self).wf(),
        ensures
            final(self).empty_keys()
                == old(self).empty_keys().insert(key_model(activity_id@, activity_hash@)),
            final(self).geo_keys() == old(self).geo_keys(),
            final(self).athlete_id == old(self).athlete_id,
            final(self).last_updated == old(self).last_updated,
            final(self).wf(),
    {
        let k = Self::create_key(activity_id, activity_hash);
        insert_key(&mut self.empty_activities, k);
    }

    /// How many activities the index covers, over both sets.
    pub fn total_activities(&self) -> (n: usize)
        requires
            self.geojson_activities@.len() + self.empty_activities@.len() <= usize::MAX,
        ensures
            n == self.geojson_activities@.len() + self.empty_activities@.len(),
    {
        self.geojson_activities.len() + self.empty_activities.len()
    }

    /// Carry one activity's entry forward: if the activity's current key
    /// is known to this index, copy it into the matching set of `target`
    /// and report success; otherwise leave `target` untouched. A carried
    /// activity is never reprocessed in the same run.
    pub fn try_copy(&self, activity: &Activity, target: &mut ActivityIndex) -> (copied: bool)
        requires
            old(target).wf(),
        ensures
            copied == self.has_key(activity_key(activity@)),
            final(target).wf(),
            final(target).athlete_id == old(target).athlete_id,
            final(target).last_updated == old(target).last_updated,
            self.geo_keys().contains(activity_key(activity@)) ==> {
                &&& final(target).geo_keys()
                    == old(target).geo_keys().insert(activity_key(activity@))
                &&& final(target).empty_keys() == old(target).empty_keys()
            },
            (!self.geo_keys().contains(activity_key(activity@))
                && self.empty_keys().contains(activity_key(activity@))) ==> {
                &&& final(target).empty_keys()
                    == old(target).empty_keys().insert(activity_key(activity@))
                &&& final(target).geo_keys() == old(target).geo_keys()
            },
            !self.has_key(activity_key(activity@)) ==> *final(target) == *old(target),
    {
        let activity_hash = activity.compute_hash();
        let key = Self::create_key(activity.id.as_str(), activity_hash.as_str());
        if vec_contains_key(&self.geojson_activities, &key) {
            insert_key(&mut target.geojson_activities, key);
            true
        } else if vec_contains_key(&self.empty_activities, &key) {
            insert_key(&mut target.empty_activities, key);
            true
        } else {
            false
        }
    }
}

} // verus!
