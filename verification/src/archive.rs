//! The archive manager: the by-identifier activity index it keeps, and
//! the naming of staged per-activity files in the transient work area.
//!
//! A staged file is named `activity_{id}_{hash}.{extension}`; the
//! extension tells a geometry record from an empty marker. The name
//! parser mirrors how such names are read back: the extension after the
//! last dot, the fingerprint after the last underscore of the stem.

use vstd::prelude::*;
use vstd::string::*;
use crate::activity::{Activity, spec_fingerprint, push_char};
use crate::json::match_lit;

verus! {

/// Compare two strings by content.
pub fn str_eq(a: &str, b: &str) -> (r: bool)
    ensures
        r == (a@ == b@),
{
    let na = a.unicode_len();
    let nb = b.unicode_len();
    if na != nb {
        return false;
    }
    let mut i: usize = 0;
    while i < na
        invariant
            na == a@.len(),
            na == b@.len(),
            i <= na,
            forall|j: int| 0 <= j < i ==> a@[j] == b@[j],
        decreases na - i,
    {
        if a.get_char(i) != b.get_char(i) {
            return false;
        }
        i = i + 1;
    }
    proof {
        assert(a@ =~= b@);
    }
    true
}

/// One entry of the by-identifier index.
pub struct ActivityIndexEntry {
    pub activity_id: String,
    pub activity_hash: String,
}

/// The by-identifier activity index: at most one fingerprint per
/// activity identifier.
pub struct ActivityIndex {
    pub athlete_id: String,
    pub last_updated: String,
    pub entries: Vec<ActivityIndexEntry>,
}

/// Whether the entries pair this identifier with this fingerprint.
pub open spec fn entry_has(
    entries: Seq<ActivityIndexEntry>,
    id: Seq<char>,
    hash: Seq<char>,
) -> bool {
    exists|i: int| 0 <= i < entries.len() && entries[i].activity_id@ == id
        && entries[i].activity_hash@ == hash
}

impl ActivityIndex {
    /// Whether this index pairs the identifier with the fingerprint.
    pub open spec fn has_entry(&self, id: Seq<char>, hash: Seq<char>) -> bool {
        entry_has(self.entries@, id, hash)
    }

    /// Representation invariant: one entry per activity identifier.
    pub open spec fn wf(&self) -> bool {
        forall|i: int, j: int| 0 <= i < j < self.entries@.len()
            ==> self.entries@[i].activity_id@ != self.entries@[j].activity_id@
    }

    /// Whether the activity is recorded here under exactly this
    /// fingerprint — an unchanged activity.
    pub fn contains_activity_with_hash(&self, activity_id: &str, activity_hash: &str)
        -> (r: bool)
        ensures
            r == self.has_entry(activity_id@, activity_hash@),
    {
        let n = self.entries.len();
        let mut i: usize = 0;
        while i < n
            invariant
                n == self.entries@.len(),
                i <= n,
                forall|j: int| 0 <= j < i ==> !(self.entries@[j].activity_id@
                    == activity_id@ && self.entries@[j].activity_hash@ == activity_hash@),
            decreases n - i,
        {
            let entry = &self.entries[i];
            if str_eq(entry.activity_id.as_str(), activity_id)
                && str_eq(entry.activity_hash.as_str(), activity_hash) {
                return true;
            }
            i = i + 1;
        }
        false
    }
}

/// The archive manager for one user's dataset.
pub struct ActivityArchiveManager {
    pub athlete_id: String,
}

/// The position of the last occurrence of `c`, if any.
pub open spec fn find_last(s: Seq<char>, c: char) -> Option<int>
    decreases s.len(),
{
    if s.len() == 0 {
        None
    } else if s.last() == c {
        Some(s.len() - 1)
    } else {
        find_last(s.drop_last(), c)
    }
}

/// A suffix free of `c` does not move the last occurrence.
proof fn lemma_find_last_from(s: Seq<char>, c: char, k: int)
    requires
        0 <= k <= s.len(),
        forall|j: int| k <= j < s.len() ==> s[j] != c,
    ensures
        find_last(s, c) == find_last(s.take(k), c),
    decreases s.len(),
{
    if k == s.len() {
        assert(s.take(k) =~= s);
    } else {
        assert(s.last() != c);
        lemma_find_last_from(s.drop_last(), c, k);
        assert(s.drop_last() =~= s.take(s.len() - 1));
        assert(s.drop_last().take(k) =~= s.take(k));
    }
}

/// Find the last occurrence of `c`, executable.
pub fn find_last_char(s: &str, c: char) -> (r: Option<usize>)
    ensures
        match r {
            Some(k) => find_last(s@, c) == Some(k as int) && k < s@.len(),
            None => find_last(s@, c) is None,
        },
{
    let n = s.unicode_len();
    let mut k: usize = n;
    while k > 0
        invariant
            n == s@.len(),
            k <= n,
            forall|j: int| k <= j < n ==> s@[j] != c,
        decreases k,
    {
        k = k - 1;
        if s.get_char(k) == c {
            proof {
                lemma_find_last_from(s@, c, k + 1);
                assert(s@.take(k + 1).last() == s@[k as int]);
            }
            return Some(k);
        }
    }
    proof {
        lemma_find_last_from(s@, c, 0);
        assert(s@.take(0) =~= Seq::<char>::empty());
    }
    None
}

/// A staged file's name: `activity_{id}_{hash}.{extension}`.
pub open spec fn staged_name_model(
    id: Seq<char>,
    hash: Seq<char>,
    ext: Seq<char>,
) -> Seq<char> {
    "activity_"@ + id + seq!['_'] + hash + seq!['.'] + ext
}

/// What parsing a staged file name yields: identifier, fingerprint and
/// extension, or `None` where the shape does not fit.
pub open spec fn spec_parse_filename(name: Seq<char>)
    -> Option<(Seq<char>, Seq<char>, Seq<char>)> {
    match find_last(name, '.') {
        None => None,
        Some(d) => {
            let stem = name.take(d);
            let ext = name.skip(d + 1);
            if stem.len() >= 9 && stem.subrange(0, 9) == "activity_"@ {
                let rest = stem.skip(9);
                match find_last(rest, '_') {
                    None => None,
                    Some(u) => Some((rest.take(u), rest.skip(u + 1), ext)),
                }
            } else {
                None
            }
        }
    }
}

impl ActivityArchiveManager {
    /// A manager for this user, with no other state.
    pub fn new_empty(athlete_id: String) -> (r: Self)
        ensures
            r.athlete_id@ == athlete_id@,
    {
        ActivityArchiveManager { athlete_id }
    }

    /// Whether the activity's current fingerprint is already recorded —
    /// in which case it needs no reprocessing.
    pub fn is_activity_unchanged(index: &ActivityIndex, activity: &Activity) -> (r: bool)
        ensures
            r == index.has_entry(activity@.id, spec_fingerprint(activity@)),
    {
        let activity_hash = activity.compute_hash();
        index.contains_activity_with_hash(activity.id.as_str(), activity_hash.as_str())
    }

    /// Parse a staged file name into identifier, fingerprint and
    /// extension.
    pub fn parse_activity_filename(file_name: &str)
        -> (r: Option<(String, String, String)>)
        ensures
            match r {
                Some(p) => spec_parse_filename(file_name@)
                    == Some((p.0@, p.1@, p.2@)),
                None => spec_parse_filename(file_name@) is None,
            },
    {
        let n = file_name.unicode_len();
        let d = match find_last_char(file_name, '.') {
            None => {
                return None;
            }
            Some(d) => d,
        };
        let stem = file_name.substring_char(0, d);
        if !match_lit(stem, 0, "activity_") {
            proof {
                reveal_strlit("activity_");
            }
            return None;
        }
        proof {
            reveal_strlit("activity_");
        }
        let stem_len = stem.unicode_len();
        let rest = stem.substring_char(9, stem_len);
        let u = match find_last_char(rest, '_') {
            None => {
                return None;
            }
            Some(u) => u,
        };
        let rest_len = rest.unicode_len();
        let id = rest.substring_char(0, u).to_owned();
        let hash = rest.substring_char(u + 1, rest_len).to_owned();
        let ext = file_name.substring_char(d + 1, n).to_owned();
        proof {
            assert(stem@ =~= file_name@.take(d as int));
            assert(rest@ =~= stem@.skip(9));
            assert(id@ =~= rest@.take(u as int));
            assert(hash@ =~= rest@.skip(u + 1));
            assert(ext@ =~= file_name@.skip(d + 1));
        }
        Some((id, hash, ext))
    }

    /// The staged file name for an activity and artifact kind.
    pub fn staged_activity_filename(
        activity_id: &str,
        activity_hash: &str,
        extension: &str,
    ) -> (r: String)
        ensures
            r@ == staged_name_model(activity_id@, activity_hash@, extension@),
    {
        let mut out = String::from_str("activity_");
        out.append(activity_id);
        push_char(&mut out, '_');
        out.append(activity_hash);
        push_char(&mut out, '.');
        out.append(extension);
        proof {
            assert(out@ =~= staged_name_model(activity_id@, activity_hash@, extension@));
        }
        out
    }
}

/// The last separator before a clean suffix: where `b` is free of `c`,
/// the last `c` of `a + [c] + b` is the separator itself.
proof fn lemma_find_last_sep(a: Seq<char>, c: char, b: Seq<char>)
    requires
        forall|i: int| 0 <= i < b.len() ==> b[i] != c,
    ensures
        find_last(a + seq![c] + b, c) == Some(a.len() as int),
    decreases b.len(),
{
    let s = a + seq![c] + b;
    if b.len() == 0 {
        assert(s.last() == c);
        assert(s.len() - 1 == a.len());
    } else {
        assert(s.last() == b.last());
        assert(s.drop_last() =~= a + seq![c] + b.drop_last());
        lemma_find_last_sep(a, c, b.drop_last());
    }
}

/// Law: a staged file name parses back to exactly the identifier,
/// fingerprint and extension it was built from, provided the
/// fingerprint holds no underscore and the extension no dot — true of
/// every name this library writes, whose fingerprints are hex and whose
/// extensions are fixed labels.
pub proof fn lemma_staged_name_round_trip(id: Seq<char>, hash: Seq<char>, ext: Seq<char>)
    requires
        forall|i: int| 0 <= i < hash.len() ==> hash[i] != '_',
        forall|i: int| 0 <= i < hash.len() ==> hash[i] != '.',
        forall|i: int| 0 <= i < ext.len() ==> ext[i] != '.',
    ensures
        spec_parse_filename(staged_name_model(id, hash, ext)) == Some((id, hash, ext)),
{
    let name = staged_name_model(id, hash, ext);
    let pre = "activity_"@;
    reveal_strlit("activity_");
    assert(pre.len() == 9);
    let stem0 = pre + id + seq!['_'] + hash;
    assert(name =~= stem0 + seq!['.'] + ext);
    lemma_find_last_sep(stem0, '.', ext);
    assert(find_last(name, '.') == Some(stem0.len() as int));
    let d = stem0.len() as int;
    assert(name.take(d) =~= stem0);
    assert(name.skip(d + 1) =~= ext);
    assert(stem0.subrange(0, 9) =~= pre);
    let rest = stem0.skip(9);
    assert(rest =~= id + seq!['_'] + hash);
    lemma_find_last_sep(id, '_', hash);
    assert(find_last(rest, '_') == Some(id.len() as int));
    assert(rest.take(id.len() as int) =~= id);
    assert(rest.skip(id.len() as int + 1) =~= hash);
}

} // verus!
