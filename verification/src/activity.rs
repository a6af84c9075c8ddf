//! The activity record as the remote catalog reports it, and the
//! fingerprint that detects changes to it.
//!
//! The fingerprint is a 64-bit FNV-1a fold over an injective encoding of
//! the five identity-relevant fields (identifier, name, start timestamp,
//! elapsed duration, distance bits), rendered as sixteen lowercase hex
//! characters. The reported distance is carried as the bit pattern of the
//! remote's 64-bit floating value; an absent distance is encoded apart
//! from every present one, so absence is distinct from zero.

use vstd::prelude::*;
use vstd::string::*;

verus! {

/// FNV-1a 64-bit offset basis.
pub const FNV_OFFSET_BASIS: u64 = 0xcbf29ce484222325;

/// FNV-1a 64-bit prime.
pub const FNV_PRIME: u64 = 0x100000001b3;

/// One activity from the remote catalog: identity plus the metadata whose
/// change forces reprocessing.
pub struct Activity {
    pub id: String,
    pub name: String,
    pub start_date_local: String,
    pub activity_type: String,
    pub elapsed_time: i64,
    pub distance_bits: Option<u64>,
}

/// Mathematical model of an [`Activity`].
pub struct ActivityModel {
    pub id: Seq<char>,
    pub name: Seq<char>,
    pub start_date_local: Seq<char>,
    pub activity_type: Seq<char>,
    pub elapsed_time: i64,
    pub distance_bits: Option<u64>,
}

impl View for Activity {
    type V = ActivityModel;

    open spec fn view(&self) -> ActivityModel {
        ActivityModel {
            id: self.id@,
            name: self.name@,
            start_date_local: self.start_date_local@,
            activity_type: self.activity_type@,
            elapsed_time: self.elapsed_time,
            distance_bits: self.distance_bits,
        }
    }
}

/// The characters of a string as unbounded integers.
pub open spec fn char_words(s: Seq<char>) -> Seq<int> {
    s.map_values(|c: char| c as int)
}

/// A string field encoded as its length followed by its characters.
pub open spec fn field_words(s: Seq<char>) -> Seq<int> {
    seq![s.len() as int] + char_words(s)
}

/// An optional distance encoded as a presence word, then the bits if present.
pub open spec fn distance_words(d: Option<u64>) -> Seq<int> {
    match d {
        Option::None => seq![0int],
        Option::Some(bits) => seq![1int, bits as int],
    }
}

/// The full hash input: an injective encoding of exactly the five fields
/// that mark a recording as changed. The activity-type label is left out.
pub open spec fn hash_words(a: ActivityModel) -> Seq<int> {
    field_words(a.id) + field_words(a.name) + field_words(a.start_date_local)
        + seq![a.elapsed_time as int] + distance_words(a.distance_bits)
}

/// One FNV-1a round; the input word is clipped to 64 bits.
pub open spec fn fnv_step(h: u64, w: int) -> u64 {
    (h ^ (w as u64)).wrapping_mul(FNV_PRIME)
}

/// FNV-1a folded over a word sequence, starting from `h`.
pub open spec fn fnv_fold(h: u64, ws: Seq<int>) -> u64
    decreases ws.len(),
{
    if ws.len() == 0 {
        h
    } else {
        fnv_fold(fnv_step(h, ws[0]), ws.drop_first())
    }
}

/// The lowercase hex character for a value below sixteen.
pub open spec fn hex_digit(n: u64) -> char {
    if n == 0 { '0' }
    else if n == 1 { '1' }
    else if n == 2 { '2' }
    else if n == 3 { '3' }
    else if n == 4 { '4' }
    else if n == 5 { '5' }
    else if n == 6 { '6' }
    else if n == 7 { '7' }
    else if n == 8 { '8' }
    else if n == 9 { '9' }
    else if n == 10 { 'a' }
    else if n == 11 { 'b' }
    else if n == 12 { 'c' }
    else if n == 13 { 'd' }
    else if n == 14 { 'e' }
    else { 'f' }
}

/// A 64-bit value as sixteen lowercase hex characters, high nibble first.
pub open spec fn hex16(h: u64) -> Seq<char> {
    Seq::new(16, |i: int| hex_digit((h >> (((15 - i) * 4) as u64)) & 0xf))
}

/// The fingerprint of an activity: the hex rendering of the FNV-1a fold
/// over the encoded identity-relevant fields.
pub open spec fn spec_fingerprint(a: ActivityModel) -> Seq<char> {
    hex16(fnv_fold(FNV_OFFSET_BASIS, hash_words(a)))
}

/// Relies on std's `String::push`: appends exactly the one character.
#[verifier::external_body]
pub(crate) fn push_char(s: &mut String, c: char)
    ensures
        final(s)@ == old(s)@.push(c),
{
    s.push(c);
}

/// Folding two word sequences one after the other is folding their
/// concatenation.
proof fn lemma_fnv_fold_concat(h: u64, s: Seq<int>, t: Seq<int>)
    ensures
        fnv_fold(h, s + t) == fnv_fold(fnv_fold(h, s), t),
    decreases s.len(),
{
    if s.len() == 0 {
        assert(s + t =~= t);
    } else {
        assert((s + t).drop_first() =~= s.drop_first() + t);
        lemma_fnv_fold_concat(fnv_step(h, s[0]), s.drop_first(), t);
    }
}

/// Folding a one-word sequence is one round.
proof fn lemma_fnv_fold_one(h: u64, a: int)
    ensures
        fnv_fold(h, seq![a]) == fnv_step(h, a),
{
    assert(fnv_fold(h, seq![a]) == fnv_fold(fnv_step(h, a), seq![a].drop_first()));
    assert(seq![a].drop_first() =~= Seq::<int>::empty());
    assert(fnv_fold(fnv_step(h, a), Seq::<int>::empty()) == fnv_step(h, a));
}

/// Folding a two-word sequence is two rounds.
proof fn lemma_fnv_fold_two(h: u64, a: int, b: int)
    ensures
        fnv_fold(h, seq![a, b]) == fnv_step(fnv_step(h, a), b),
{
    assert(seq![a, b].drop_first() =~= seq![b]);
    lemma_fnv_fold_one(fnv_step(h, a), b);
}

/// Folding one more word onto a folded sequence.
proof fn lemma_fnv_fold_push(h: u64, s: Seq<int>, w: int)
    ensures
        fnv_fold(h, s.push(w)) == fnv_step(fnv_fold(h, s), w),
{
    assert(s.push(w) =~= s + seq![w]);
    lemma_fnv_fold_concat(h, s, seq![w]);
    lemma_fnv_fold_one(fnv_fold(h, s), w);
}

/// One FNV-1a round, executable.
fn fnv_push(h: u64, w: u64) -> (r: u64)
    ensures
        r == fnv_step(h, w as int),
{
    (h ^ w).wrapping_mul(FNV_PRIME)
}

/// Fold a string field (length, then characters) into the accumulator.
fn fnv_text(h: u64, s: &str) -> (r: u64)
    ensures
        r == fnv_fold(h, field_words(s@)),
{
    let n = s.unicode_len();
    let mut acc = fnv_push(h, n as u64);
    proof {
        assert(field_words(s@).take(1) =~= seq![s@.len() as int]);
        lemma_fnv_fold_one(h, s@.len() as int);
    }
    assert(acc == fnv_fold(h, field_words(s@).take(1)));
    let mut i: usize = 0;
    while i < n
        invariant
            n == s@.len(),
            i <= n,
            acc == fnv_fold(h, field_words(s@).take(1 + i)),
        decreases n - i,
    {
        let c = s.get_char(i);
        proof {
            lemma_fnv_fold_push(h, field_words(s@).take(1 + i), c as int);
            assert(field_words(s@).take(1 + i).push(c as int)
                =~= field_words(s@).take(2 + i));
        }
        acc = fnv_push(acc, c as u64);
        i = i + 1;
    }
    proof {
        assert(field_words(s@).take(1 + n) =~= field_words(s@));
    }
    acc
}

impl Activity {
    /// A copy of the record, equal to it in the model.
    pub fn clone_activity(&self) -> (r: Activity)
        ensures
            r@ == self@,
    {
        Activity {
            id: self.id.clone(),
            name: self.name.clone(),
            start_date_local: self.start_date_local.clone(),
            activity_type: self.activity_type.clone(),
            elapsed_time: self.elapsed_time,
            distance_bits: self.distance_bits,
        }
    }

    /// The activity's fingerprint: a stable content hash over exactly the
    /// five documented fields, sixteen lowercase hex characters.
    pub fn compute_hash(&self) -> (r: String)
        ensures
            r@ == spec_fingerprint(self@),
    {
        let mut h: u64 = FNV_OFFSET_BASIS;
        h = fnv_text(h, self.id.as_str());
        h = fnv_text(h, self.name.as_str());
        h = fnv_text(h, self.start_date_local.as_str());
        let ghost h3: u64 = h;
        let elapsed_word: u64 = #[verifier::truncate] (self.elapsed_time as u64);
        h = fnv_push(h, elapsed_word);
        proof {
            lemma_fnv_fold_one(h3, self@.elapsed_time as int);
        }
        let ghost h4: u64 = h;
        match self.distance_bits {
            Option::None => {
                h = fnv_push(h, 0);
                proof {
                    lemma_fnv_fold_one(h4, 0);
                }
            }
            Option::Some(bits) => {
                h = fnv_push(h, 1);
                h = fnv_push(h, bits);
                proof {
                    lemma_fnv_fold_two(h4, 1, bits as int);
                }
            }
        }
        proof {
            lemma_fingerprint_fold(self@);
            assert(h == fnv_fold(FNV_OFFSET_BASIS, hash_words(self@)));
        }
        let mut out = String::new();
        let mut i: usize = 0;
        while i < 16
            invariant
                i <= 16,
                h == fnv_fold(FNV_OFFSET_BASIS, hash_words(self@)),
                out@ =~= hex16(h).take(i as int),
            decreases 16 - i,
        {
            let sh: u64 = 60 - 4 * (i as u64);
            let nib: u64 = (h >> sh) & 0xf;
            assert((h >> sh) & 0xf < 16) by (bit_vector);
            let c = hex_char(nib);
            push_char(&mut out, c);
            proof {
                assert(hex16(h).take(i + 1)
                    =~= hex16(h).take(i as int).push(hex16(h)[i as int]));
            }
            i = i + 1;
        }
        proof {
            assert(hex16(h).take(16) =~= hex16(h));
        }
        out
    }
}

/// Stepwise fold of the five fields equals the fold of the whole encoding.
proof fn lemma_fingerprint_fold(a: ActivityModel)
    ensures
        fnv_fold(fnv_fold(fnv_fold(fnv_fold(fnv_fold(FNV_OFFSET_BASIS,
            field_words(a.id)), field_words(a.name)),
            field_words(a.start_date_local)), seq![a.elapsed_time as int]),
            distance_words(a.distance_bits))
            == fnv_fold(FNV_OFFSET_BASIS, hash_words(a)),
{
    let h0 = FNV_OFFSET_BASIS;
    let s1 = field_words(a.id);
    let s2 = field_words(a.name);
    let s3 = field_words(a.start_date_local);
    let s4 = seq![a.elapsed_time as int];
    let s5 = distance_words(a.distance_bits);
    lemma_fnv_fold_concat(h0, s1, s2 + s3 + s4 + s5);
    lemma_fnv_fold_concat(fnv_fold(h0, s1), s2, s3 + s4 + s5);
    lemma_fnv_fold_concat(fnv_fold(fnv_fold(h0, s1), s2), s3, s4 + s5);
    lemma_fnv_fold_concat(fnv_fold(fnv_fold(fnv_fold(h0, s1), s2), s3), s4, s5);
    assert(hash_words(a) =~= s1 + (s2 + s3 + s4 + s5));
    assert(s2 + s3 + s4 + s5 =~= s2 + (s3 + s4 + s5));
    assert(s3 + s4 + s5 =~= s3 + (s4 + s5));
}

/// Splitting a concatenation at a known boundary recovers both parts.
proof fn lemma_concat_parts(s1: Seq<int>, t1: Seq<int>, s2: Seq<int>, t2: Seq<int>)
    requires
        s1 + t1 == s2 + t2,
        s1.len() == s2.len(),
    ensures
        s1 == s2,
        t1 == t2,
{
    assert forall|i: int| 0 <= i < s1.len() implies s1[i] == s2[i] by {
        assert((s1 + t1)[i] == s1[i]);
        assert((s2 + t2)[i] == s2[i]);
    }
    assert(s1 =~= s2);
    assert((s1 + t1).len() == s1.len() + t1.len());
    assert((s2 + t2).len() == s2.len() + t2.len());
    assert(t1.len() == t2.len());
    assert forall|i: int| 0 <= i < t1.len() implies t1[i] == t2[i] by {
        assert((s1 + t1)[s1.len() + i] == t1[i]);
        assert((s2 + t2)[s2.len() + i] == t2[i]);
    }
    assert(t1 =~= t2);
}

/// The length-prefixed encoding of a string field is injective.
proof fn lemma_field_words_injective(s: Seq<char>, t: Seq<char>)
    requires
        field_words(s) == field_words(t),
    ensures
        s == t,
{
    assert(field_words(s)[0] == s.len() as int);
    assert(field_words(t)[0] == t.len() as int);
    assert(s.len() == t.len());
    assert forall|i: int| 0 <= i < s.len() implies s[i] == t[i] by {
        assert(field_words(s)[1 + i] == char_words(s)[i]);
        assert(field_words(t)[1 + i] == char_words(t)[i]);
        assert(char_words(s)[i] == s[i] as int);
        assert(char_words(t)[i] == t[i] as int);
    }
    assert(s =~= t);
}

/// Law: the fingerprint's hash input is an injective encoding of exactly
/// the five documented fields. Two activities whose hash inputs coincide
/// agree on identifier, name, start timestamp, elapsed duration and
/// distance bits — so a change to any one of those five fields changes
/// the hash input, and with it the fingerprint up to hash collision.
pub proof fn lemma_hash_words_injective(a: ActivityModel, b: ActivityModel)
    requires
        hash_words(a) == hash_words(b),
    ensures
        a.id == b.id,
        a.name == b.name,
        a.start_date_local == b.start_date_local,
        a.elapsed_time == b.elapsed_time,
        a.distance_bits == b.distance_bits,
{
    let ra = field_words(a.name) + (field_words(a.start_date_local)
        + (seq![a.elapsed_time as int] + distance_words(a.distance_bits)));
    let rb = field_words(b.name) + (field_words(b.start_date_local)
        + (seq![b.elapsed_time as int] + distance_words(b.distance_bits)));
    assert(hash_words(a) =~= field_words(a.id) + ra);
    assert(hash_words(b) =~= field_words(b.id) + rb);
    assert((field_words(a.id) + ra)[0] == a.id.len() as int);
    assert((field_words(b.id) + rb)[0] == b.id.len() as int);
    assert(a.id.len() == b.id.len());
    lemma_concat_parts(field_words(a.id), ra, field_words(b.id), rb);
    lemma_field_words_injective(a.id, b.id);

    let sa = field_words(a.start_date_local)
        + (seq![a.elapsed_time as int] + distance_words(a.distance_bits));
    let sb = field_words(b.start_date_local)
        + (seq![b.elapsed_time as int] + distance_words(b.distance_bits));
    assert(ra[0] == a.name.len() as int);
    assert(rb[0] == b.name.len() as int);
    assert(a.name.len() == b.name.len());
    lemma_concat_parts(field_words(a.name), sa, field_words(b.name), sb);
    lemma_field_words_injective(a.name, b.name);

    let ta = seq![a.elapsed_time as int] + distance_words(a.distance_bits);
    let tb = seq![b.elapsed_time as int] + distance_words(b.distance_bits);
    assert(sa[0] == a.start_date_local.len() as int);
    assert(sb[0] == b.start_date_local.len() as int);
    assert(a.start_date_local.len() == b.start_date_local.len());
    lemma_concat_parts(field_words(a.start_date_local), ta,
        field_words(b.start_date_local), tb);
    lemma_field_words_injective(a.start_date_local, b.start_date_local);

    lemma_concat_parts(seq![a.elapsed_time as int], distance_words(a.distance_bits),
        seq![b.elapsed_time as int], distance_words(b.distance_bits));
    assert(seq![a.elapsed_time as int][0] == seq![b.elapsed_time as int][0]);
    assert(a.elapsed_time == b.elapsed_time);
    assert(distance_words(a.distance_bits)[0] == distance_words(b.distance_bits)[0]);
    if a.distance_bits is Some {
        assert(distance_words(a.distance_bits)[1] == distance_words(b.distance_bits)[1]);
    }
    assert(a.distance_bits == b.distance_bits);
}

/// Law: the fingerprint reads nothing but the five documented fields —
/// in particular, the activity-type label does not affect it.
pub proof fn lemma_fingerprint_ignores_activity_type(a: ActivityModel, b: ActivityModel)
    requires
        a.id == b.id,
        a.name == b.name,
        a.start_date_local == b.start_date_local,
        a.elapsed_time == b.elapsed_time,
        a.distance_bits == b.distance_bits,
    ensures
        spec_fingerprint(a) == spec_fingerprint(b),
{
    assert(hash_words(a) == hash_words(b));
}

/// The lowercase hex character for a value below sixteen, executable.
pub(crate) fn hex_char(n: u64) -> (c: char)
    requires
        n < 16,
    ensures
        c == hex_digit(n),
{
    if n == 0 { '0' }
    else if n == 1 { '1' }
    else if n == 2 { '2' }
    else if n == 3 { '3' }
    else if n == 4 { '4' }
    else if n == 5 { '5' }
    else if n == 6 { '6' }
    else if n == 7 { '7' }
    else if n == 8 { '8' }
    else if n == 9 { '9' }
    else if n == 10 { 'a' }
    else if n == 11 { 'b' }
    else if n == 12 { 'c' }
    else if n == 13 { 'd' }
    else if n == 14 { 'e' }
    else { 'f' }
}

} // verus!
