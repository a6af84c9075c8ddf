//! The dataset's record format: one self-contained JSON feature per
//! line, with the activity identifier and fingerprint as its first two
//! properties so the finalizer can recover the composite key without
//! parsing geometry.
//!
//! The escaping of string content, the building of a record line, and
//! the parser that recovers identifier and fingerprint from a line are
//! all verified, with a round-trip law tying them together.

use vstd::prelude::*;
use vstd::string::*;
use crate::activity::{Activity, ActivityModel, hex_digit, hex_char, push_char};

verus! {

/// The escape of one character inside a JSON string literal: quote and
/// backslash get a backslash escape, control characters a `\u00xx`
/// escape, and every other character stands for itself.
pub open spec fn esc_char(c: char) -> Seq<char> {
    if c == '"' {
        seq!['\\', '"']
    } else if c == '\\' {
        seq!['\\', '\\']
    } else if 0 <= (c as int) && (c as int) < 32 {
        seq!['\\', 'u', '0', '0',
            hex_digit((c as int / 16) as u64), hex_digit((c as int % 16) as u64)]
    } else {
        seq![c]
    }
}

/// A string's content escaped for a JSON string literal.
pub open spec fn esc_str(s: Seq<char>) -> Seq<char>
    decreases s.len(),
{
    if s.len() == 0 {
        Seq::empty()
    } else {
        esc_char(s[0]) + esc_str(s.drop_first())
    }
}

/// Escaping distributes over concatenation.
proof fn lemma_esc_str_concat(s: Seq<char>, t: Seq<char>)
    ensures
        esc_str(s + t) == esc_str(s) + esc_str(t),
    decreases s.len(),
{
    if s.len() == 0 {
        assert(s + t =~= t);
        assert(esc_str(s) + esc_str(t) =~= esc_str(t));
    } else {
        assert((s + t).drop_first() =~= s.drop_first() + t);
        lemma_esc_str_concat(s.drop_first(), t);
        assert(esc_char(s[0]) + (esc_str(s.drop_first()) + esc_str(t))
            =~= (esc_char(s[0]) + esc_str(s.drop_first())) + esc_str(t));
        assert((s + t)[0] == s[0]);
    }
}

/// Escaping one more character appends its escape.
proof fn lemma_esc_str_push(s: Seq<char>, c: char)
    ensures
        esc_str(s.push(c)) == esc_str(s) + esc_char(c),
{
    assert(s.push(c) =~= s + seq![c]);
    lemma_esc_str_concat(s, seq![c]);
    assert(seq![c].drop_first() =~= Seq::<char>::empty());
    assert(esc_str(seq![c]) == esc_char(c) + esc_str(seq![c].drop_first()));
    assert(esc_str(seq![c].drop_first()) == Seq::<char>::empty());
    assert(esc_char(c) + Seq::<char>::empty() =~= esc_char(c));
}

/// Append the escaped content of `raw`.
pub fn push_escaped(s: &mut String, raw: &str)
    ensures
        final(s)@ == old(s)@ + esc_str(raw@),
{
    let n = raw.unicode_len();
    let mut i: usize = 0;
    proof {
        assert(esc_str(raw@.take(0)) =~= Seq::<char>::empty());
        assert(old(s)@ + esc_str(raw@.take(0)) =~= old(s)@);
    }
    while i < n
        invariant
            n == raw@.len(),
            i <= n,
            s@ == old(s)@ + esc_str(raw@.take(i as int)),
        decreases n - i,
    {
        let c = raw.get_char(i);
        let ghost s_pre = s@;
        if c == '"' {
            push_char(s, '\\');
            push_char(s, '"');
        } else if c == '\\' {
            push_char(s, '\\');
            push_char(s, '\\');
        } else {
            let v = c as u32;
            if v < 32 {
                push_char(s, '\\');
                push_char(s, 'u');
                push_char(s, '0');
                push_char(s, '0');
                push_char(s, hex_char((v / 16) as u64));
                push_char(s, hex_char((v % 16) as u64));
            } else {
                push_char(s, c);
            }
        }
        proof {
            lemma_esc_str_push(raw@.take(i as int), raw@[i as int]);
            assert(raw@.take(i as int).push(raw@[i as int]) =~= raw@.take(i + 1));
            assert(s@ =~= old(s)@ + esc_str(raw@.take(i + 1)));
        }
        i = i + 1;
    }
    proof {
        assert(raw@.take(n as int) =~= raw@);
    }
}

/// Whether the character is a lowercase hex digit.
pub open spec fn is_hex_digit(c: char) -> bool {
    c == '0' || c == '1' || c == '2' || c == '3' || c == '4' || c == '5' || c == '6'
        || c == '7' || c == '8' || c == '9' || c == 'a' || c == 'b' || c == 'c'
        || c == 'd' || c == 'e' || c == 'f'
}

/// The value of a lowercase hex digit.
pub open spec fn hex_val(c: char) -> int {
    if c == '0' { 0 }
    else if c == '1' { 1 }
    else if c == '2' { 2 }
    else if c == '3' { 3 }
    else if c == '4' { 4 }
    else if c == '5' { 5 }
    else if c == '6' { 6 }
    else if c == '7' { 7 }
    else if c == '8' { 8 }
    else if c == '9' { 9 }
    else if c == 'a' { 10 }
    else if c == 'b' { 11 }
    else if c == 'c' { 12 }
    else if c == 'd' { 13 }
    else if c == 'e' { 14 }
    else { 15 }
}

/// The hex digit's value, where it is one.
fn hex_digit_val(c: char) -> (r: Option<u64>)
    ensures
        match r {
            Some(v) => is_hex_digit(c) && v == hex_val(c) && v < 16,
            None => !is_hex_digit(c),
        },
{
    if c == '0' { Some(0) }
    else if c == '1' { Some(1) }
    else if c == '2' { Some(2) }
    else if c == '3' { Some(3) }
    else if c == '4' { Some(4) }
    else if c == '5' { Some(5) }
    else if c == '6' { Some(6) }
    else if c == '7' { Some(7) }
    else if c == '8' { Some(8) }
    else if c == '9' { Some(9) }
    else if c == 'a' { Some(10) }
    else if c == 'b' { Some(11) }
    else if c == 'c' { Some(12) }
    else if c == 'd' { Some(13) }
    else if c == 'e' { Some(14) }
    else if c == 'f' { Some(15) }
    else { None }
}

/// Parse the body of a JSON string literal starting at `i` (just after
/// the opening quote): the decoded content and the position right after
/// the closing quote. Only the escapes this library emits are accepted.
pub open spec fn parse_string_body(s: Seq<char>, i: int) -> Option<(Seq<char>, int)>
    decreases s.len() - i,
{
    if i < 0 || i >= s.len() {
        None
    } else if s[i] == '"' {
        Some((Seq::empty(), i + 1))
    } else if s[i] == '\\' {
        if i + 1 < s.len() && (s[i + 1] == '"' || s[i + 1] == '\\') {
            match parse_string_body(s, i + 2) {
                Some((t, j)) => Some((seq![s[i + 1]] + t, j)),
                None => None,
            }
        } else if i + 5 < s.len() && s[i + 1] == 'u' && s[i + 2] == '0' && s[i + 3] == '0'
            && is_hex_digit(s[i + 4]) && is_hex_digit(s[i + 5]) {
            match parse_string_body(s, i + 6) {
                Some((t, j)) => Some((
                    seq![((hex_val(s[i + 4]) * 16 + hex_val(s[i + 5])) as char)] + t,
                    j,
                )),
                None => None,
            }
        } else {
            None
        }
    } else {
        match parse_string_body(s, i + 1) {
            Some((t, j)) => Some((seq![s[i]] + t, j)),
            None => None,
        }
    }
}

/// Parse a JSON string literal body, executable.
fn parse_string_at(s: &str, i: usize) -> (r: Option<(String, usize)>)
    ensures
        match r {
            Some(p) => parse_string_body(s@, i as int) == Some((p.0@, p.1 as int))
                && i < p.1 <= s@.len(),
            None => parse_string_body(s@, i as int) is None,
        },
    decreases s@.len() - i,
{
    let n = s.unicode_len();
    if i >= n {
        return None;
    }
    let c = s.get_char(i);
    if c == '"' {
        return Some((String::new(), i + 1));
    }
    if c == '\\' {
        if i + 1 < n {
            let d = s.get_char(i + 1);
            if d == '"' || d == '\\' {
                return match parse_string_at(s, i + 2) {
                    Some((t, j)) => {
                        let mut out = String::new();
                        push_char(&mut out, d);
                        out.append(t.as_str());
                        proof {
                            assert(out@ =~= seq![s@[i + 1]] + t@);
                        }
                        Some((out, j))
                    }
                    None => None,
                };
            }
        }
        if n - i > 5 {
            let u = s.get_char(i + 1);
            let z1 = s.get_char(i + 2);
            let z2 = s.get_char(i + 3);
            if u == 'u' && z1 == '0' && z2 == '0' {
                let h1 = hex_digit_val(s.get_char(i + 4));
                let h2 = hex_digit_val(s.get_char(i + 5));
                return match (h1, h2) {
                    (Some(v1), Some(v2)) => {
                        match parse_string_at(s, i + 6) {
                            Some((t, j)) => {
                                let code: u8 = (v1 * 16 + v2) as u8;
                                let decoded = code as char;
                                let mut out = String::new();
                                push_char(&mut out, decoded);
                                out.append(t.as_str());
                                proof {
                                    assert(out@ =~= seq![((hex_val(s@[i + 4]) * 16
                                        + hex_val(s@[i + 5])) as char)] + t@);
                                }
                                Some((out, j))
                            }
                            None => None,
                        }
                    }
                    _ => None,
                };
            } else {
                return None;
            }
        } else {
            return None;
        }
    }
    match parse_string_at(s, i + 1) {
        Some((t, j)) => {
            let mut out = String::new();
            push_char(&mut out, c);
            out.append(t.as_str());
            proof {
                assert(out@ =~= seq![s@[i as int]] + t@);
            }
            Some((out, j))
        }
        None => None,
    }
}

/// Whether `lit` occurs in `s` at position `i`, executable.
pub(crate) fn match_lit(s: &str, i: usize, lit: &str) -> (r: bool)
    requires
        i <= s@.len(),
    ensures
        r == (i + lit@.len() <= s@.len()
            && s@.subrange(i as int, i + lit@.len()) == lit@),
{
    let m = lit.unicode_len();
    let n = s.unicode_len();
    if m > n - i {
        return false;
    }
    let mut k: usize = 0;
    while k < m
        invariant
            m == lit@.len(),
            n == s@.len(),
            i + m <= n,
            k <= m,
            forall|j: int| 0 <= j < k ==> s@[i + j] == lit@[j],
        decreases m - k,
    {
        if s.get_char(i + k) != lit.get_char(k) {
            proof {
                assert(s@.subrange(i as int, i + lit@.len())[k as int] == s@[i + k]);
            }
            return false;
        }
        k = k + 1;
    }
    proof {
        assert(s@.subrange(i as int, i + lit@.len()) =~= lit@);
    }
    true
}

/// The fixed text up to and including the opening quote of the `id`
/// property.
pub open spec fn fl_pre() -> Seq<char> {
    "{\"type\":\"FeatureCollection\",\"features\":[{\"type\":\"Feature\",\"properties\":{\"id\":\""@
}

/// Between the id's closing quote and the fingerprint's opening quote,
/// as the parser sees it after consuming the closing quote.
pub open spec fn fl_hash_tail() -> Seq<char> {
    ",\"activity_hash\":\""@
}

/// From the id's closing quote through the fingerprint's opening quote.
pub open spec fn fl_hash_sep() -> Seq<char> {
    "\",\"activity_hash\":\""@
}

/// From the fingerprint's closing quote through the name's opening quote.
pub open spec fn fl_name_sep() -> Seq<char> {
    "\",\"name\":\""@
}

/// From the name's closing quote through the type label's opening quote.
pub open spec fn fl_type_sep() -> Seq<char> {
    "\",\"type\":\""@
}

/// From the type label's closing quote through the date's opening quote.
pub open spec fn fl_date_sep() -> Seq<char> {
    "\",\"date\":\""@
}

/// From the date's closing quote through the start of the geometry text.
pub open spec fn fl_geom_sep() -> Seq<char> {
    "\"},\"geometry\":"@
}

/// The closing text after the geometry.
pub open spec fn fl_suffix() -> Seq<char> {
    "}]}"@
}

/// One dataset record line: a single-feature collection whose properties
/// open with the activity identifier and fingerprint, followed by the
/// rendered geometry.
pub open spec fn feature_line_model(
    a: ActivityModel,
    hash: Seq<char>,
    geometry: Seq<char>,
) -> Seq<char> {
    fl_pre() + esc_str(a.id) + fl_hash_sep() + esc_str(hash) + fl_name_sep()
        + esc_str(a.name) + fl_type_sep() + esc_str(a.activity_type) + fl_date_sep()
        + esc_str(a.start_date_local) + fl_geom_sep() + geometry + fl_suffix()
}

/// Build one dataset record line for an activity. The geometry text is
/// rendered by the caller and inserted verbatim.
pub fn feature_line(activity: &Activity, activity_hash: &str, geometry_json: &str)
    -> (r: String)
    ensures
        r@ == feature_line_model(activity@, activity_hash@, geometry_json@),
{
    let mut out = String::from_str(
        "{\"type\":\"FeatureCollection\",\"features\":[{\"type\":\"Feature\",\"properties\":{\"id\":\"");
    push_escaped(&mut out, activity.id.as_str());
    out.append("\",\"activity_hash\":\"");
    push_escaped(&mut out, activity_hash);
    out.append("\",\"name\":\"");
    push_escaped(&mut out, activity.name.as_str());
    out.append("\",\"type\":\"");
    push_escaped(&mut out, activity.activity_type.as_str());
    out.append("\",\"date\":\"");
    push_escaped(&mut out, activity.start_date_local.as_str());
    out.append("\"},\"geometry\":");
    out.append(geometry_json);
    out.append("}]}");
    proof {
        assert(out@ =~= feature_line_model(activity@, activity_hash@, geometry_json@));
    }
    out
}

/// The identifier and fingerprint a record line carries, where it is
/// well formed; `None` marks a malformed line, which the finalizer
/// skips.
pub open spec fn spec_parse_feature_key(s: Seq<char>) -> Option<(Seq<char>, Seq<char>)> {
    if fl_pre().len() <= s.len() && s.subrange(0, fl_pre().len() as int) == fl_pre() {
        match parse_string_body(s, fl_pre().len() as int) {
            Some((id, j)) => {
                if j + fl_hash_tail().len() <= s.len()
                    && s.subrange(j, j + fl_hash_tail().len()) == fl_hash_tail() {
                    match parse_string_body(s, j + fl_hash_tail().len()) {
                        Some((hash, _k)) => Some((id, hash)),
                        None => None,
                    }
                } else {
                    None
                }
            }
            None => None,
        }
    } else {
        None
    }
}

/// Recover the activity identifier and fingerprint from a record line.
pub fn parse_feature_key(line: &str) -> (r: Option<(String, String)>)
    ensures
        match r {
            Some(p) => spec_parse_feature_key(line@) == Some((p.0@, p.1@)),
            None => spec_parse_feature_key(line@) is None,
        },
{
    let pre =
        "{\"type\":\"FeatureCollection\",\"features\":[{\"type\":\"Feature\",\"properties\":{\"id\":\"";
    let sep = ",\"activity_hash\":\"";
    let n = line.unicode_len();
    if !match_lit(line, 0, pre) {
        return None;
    }
    match parse_string_at(line, pre.unicode_len()) {
        None => None,
        Some((id, j)) => {
            if !match_lit(line, j, sep) {
                return None;
            }
            match parse_string_at(line, j + sep.unicode_len()) {
                None => None,
                Some((hash, _end)) => Some((id, hash)),
            }
        }
    }
}

/// Parsing from `i` recovers exactly the content whose escape stands
/// there, up to the closing quote.
proof fn lemma_parse_escaped(x: Seq<char>, s: Seq<char>, i: int)
    requires
        0 <= i,
        i + esc_str(x).len() + 1 <= s.len(),
        s.subrange(i, i + esc_str(x).len()) == esc_str(x),
        s[i + esc_str(x).len()] == '"',
    ensures
        parse_string_body(s, i) == Some((x, i + esc_str(x).len() + 1)),
    decreases x.len(),
{
    if x.len() == 0 {
        assert(s[i] == '"');
    } else {
        let c = x[0];
        let rest = x.drop_first();
        let ec = esc_char(c);
        assert(esc_str(x) == ec + esc_str(rest));
        let i2 = i + ec.len();
        assert forall|k: int| 0 <= k < ec.len() implies s[i + k] == ec[k] by {
            assert(s.subrange(i, i + esc_str(x).len())[k] == s[i + k]);
            assert((ec + esc_str(rest))[k] == ec[k]);
        }
        assert forall|k: int| 0 <= k < esc_str(rest).len()
            implies s[i2 + k] == esc_str(rest)[k] by {
            assert(s.subrange(i, i + esc_str(x).len())[ec.len() + k] == s[i2 + k]);
            assert((ec + esc_str(rest))[ec.len() + k] == esc_str(rest)[k]);
        }
        assert(s.subrange(i2, i2 + esc_str(rest).len()) =~= esc_str(rest));
        assert(s[i2 + esc_str(rest).len()] == '"');
        lemma_parse_escaped(rest, s, i2);
        assert(seq![c] + rest =~= x);
        if c == '"' {
            assert(s[i] == '\\' && s[i + 1] == '"');
        } else if c == '\\' {
            assert(s[i] == '\\' && s[i + 1] == '\\');
        } else if 0 <= (c as int) && (c as int) < 32 {
            assert(s[i] == '\\' && s[i + 1] == 'u' && s[i + 2] == '0' && s[i + 3] == '0');
            let v = c as int;
            let d1 = hex_digit((v / 16) as u64);
            let d2 = hex_digit((v % 16) as u64);
            assert(s[i + 4] == d1 && s[i + 5] == d2);
            assert(is_hex_digit(d1) && hex_val(d1) == v / 16);
            assert(is_hex_digit(d2) && hex_val(d2) == v % 16);
            assert(hex_val(d1) * 16 + hex_val(d2) == v);
            assert(((v as char) as int) == v);
            assert((v as char) == c);
        } else {
            assert(s[i] == c);
        }
    }
}

/// Law: a record line built by [`feature_line`] parses back to exactly
/// the identifier and fingerprint it was built from, whatever the
/// geometry text holds — the filter in the finalizer keeps precisely its
/// own records.
#[verifier::rlimit(60)]
pub proof fn lemma_feature_line_round_trip(
    a: ActivityModel,
    hash: Seq<char>,
    geometry: Seq<char>,
)
    ensures
        spec_parse_feature_key(feature_line_model(a, hash, geometry))
            == Some((a.id, hash)),
{
    let s = feature_line_model(a, hash, geometry);
    let p = fl_pre();
    let eid = esc_str(a.id);
    let ehash = esc_str(hash);
    let rest = fl_name_sep() + esc_str(a.name) + fl_type_sep() + esc_str(a.activity_type)
        + fl_date_sep() + esc_str(a.start_date_local) + fl_geom_sep() + geometry
        + fl_suffix();
    proof_strlits();
    assert(s =~= p + eid + fl_hash_sep() + ehash + rest);
    let o2 = p.len() as int;
    let o3 = o2 + eid.len();
    let o4 = o3 + fl_hash_sep().len();
    let o5 = o4 + ehash.len();
    // Where each block of the line sits.
    assert forall|k: int| 0 <= k < p.len() implies s[k] == p[k] by {
        assert((p + eid + fl_hash_sep() + ehash + rest)[k] == p[k]);
    }
    assert forall|k: int| 0 <= k < eid.len() implies s[o2 + k] == eid[k] by {
        assert((p + eid + fl_hash_sep() + ehash + rest)[o2 + k] == eid[k]);
    }
    assert forall|k: int| 0 <= k < fl_hash_sep().len()
        implies s[o3 + k] == fl_hash_sep()[k] by {
        assert((p + eid + fl_hash_sep() + ehash + rest)[o3 + k] == fl_hash_sep()[k]);
    }
    assert forall|k: int| 0 <= k < ehash.len() implies s[o4 + k] == ehash[k] by {
        assert((p + eid + fl_hash_sep() + ehash + rest)[o4 + k] == ehash[k]);
    }
    assert(s[o5] == fl_name_sep()[0]) by {
        assert((p + eid + fl_hash_sep() + ehash).len() == o5);
        assert((p + eid + fl_hash_sep() + ehash + rest)[o5]
            == rest[o5 - (p + eid + fl_hash_sep() + ehash).len()]);
        assert(rest[0] == (fl_name_sep() + (esc_str(a.name) + fl_type_sep()
            + esc_str(a.activity_type) + fl_date_sep() + esc_str(a.start_date_local)
            + fl_geom_sep() + geometry + fl_suffix()))[0]);
        assert(rest =~= fl_name_sep() + (esc_str(a.name) + fl_type_sep()
            + esc_str(a.activity_type) + fl_date_sep() + esc_str(a.start_date_local)
            + fl_geom_sep() + geometry + fl_suffix()));
        assert(fl_name_sep().len() > 0);
    }
    // The fixed prefix matches.
    assert(s.subrange(0, o2) =~= p);
    // The id literal: its escape, then the closing quote — the first
    // character of the fingerprint separator.
    assert(s.subrange(o2, o3) =~= eid);
    assert(s[o3] == '"');
    lemma_parse_escaped(a.id, s, o2);
    // The separator tail follows the id's closing quote.
    let j = o3 + 1;
    assert forall|k: int| 0 <= k < fl_hash_tail().len()
        implies s[j + k] == fl_hash_tail()[k] by {
        assert(s[o3 + (1 + k)] == fl_hash_sep()[1 + k]);
        assert(fl_hash_sep()[1 + k] == (seq!['"'] + fl_hash_tail())[1 + k]);
    }
    assert(s.subrange(j, j + fl_hash_tail().len()) =~= fl_hash_tail());
    // The fingerprint literal: its escape, then the closing quote — the
    // first character of the name separator.
    assert(j + fl_hash_tail().len() == o4);
    assert(s.subrange(o4, o4 + ehash.len()) =~= ehash);
    assert(s[o4 + ehash.len()] == '"');
    lemma_parse_escaped(hash, s, o4);
}

/// Reveal the record-format literals.
proof fn proof_strlits()
    ensures
        fl_pre().len() == 78,
        fl_hash_sep().len() == 19,
        fl_hash_tail().len() == 18,
        fl_hash_sep() == seq!['"'] + fl_hash_tail(),
        fl_hash_sep()[0] == '"',
        fl_name_sep().len() == 10,
        fl_name_sep()[0] == '"',
{
    reveal_strlit(
        "{\"type\":\"FeatureCollection\",\"features\":[{\"type\":\"Feature\",\"properties\":{\"id\":\"");
    reveal_strlit(",\"activity_hash\":\"");
    reveal_strlit("\",\"activity_hash\":\"");
    reveal_strlit("\",\"name\":\"");
    assert(fl_hash_sep() =~= seq!['"'] + fl_hash_tail());
}

} // verus!
