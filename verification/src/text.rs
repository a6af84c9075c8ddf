//! Small text helpers: decimal rendering, the elapsed-time label, and
//! the date part of an ISO timestamp.

use vstd::prelude::*;
use vstd::string::*;
use crate::activity::{hex_digit, push_char};

verus! {

/// The decimal rendering of a nonnegative integer, no leading zeros.
pub open spec fn dec_rep(n: int) -> Seq<char>
    decreases n,
{
    if n < 10 {
        seq![hex_digit(if 0 <= n { n as u64 } else { 0u64 })]
    } else {
        dec_rep(n / 10).push(hex_digit((n % 10) as u64))
    }
}

/// Append the decimal rendering of `n`.
pub fn push_dec(s: &mut String, n: u64)
    ensures
        final(s)@ == old(s)@ + dec_rep(n as int),
    decreases n,
{
    if n < 10 {
        push_char(s, crate::activity::hex_char(n));
        proof {
            assert(old(s)@.push(hex_digit(n)) =~= old(s)@ + dec_rep(n as int));
        }
    } else {
        let ghost s0 = s@;
        push_dec(s, n / 10);
        push_char(s, crate::activity::hex_char(n % 10));
        proof {
            assert((s0 + dec_rep(n as int / 10)).push(hex_digit(n % 10))
                =~= s0 + dec_rep(n as int));
        }
    }
}

/// A nonnegative integer as a decimal string.
pub fn u64_to_dec(n: u64) -> (r: String)
    ensures
        r@ == dec_rep(n as int),
{
    let mut s = String::new();
    push_dec(&mut s, n);
    proof {
        assert(Seq::<char>::empty() + dec_rep(n as int) =~= dec_rep(n as int));
    }
    s
}

/// The elapsed-time label: hours, minutes and seconds, dropping the
/// leading parts that are zero.
pub open spec fn spec_elapsed_time(e: int) -> Seq<char> {
    let h = e / 3600;
    let m = (e % 3600) / 60;
    let s = e % 60;
    if h > 0 {
        dec_rep(h) + seq!['h'] + dec_rep(m) + seq!['m'] + dec_rep(s) + seq!['s']
    } else if m > 0 {
        dec_rep(m) + seq!['m'] + dec_rep(s) + seq!['s']
    } else {
        dec_rep(s) + seq!['s']
    }
}

/// Format a nonnegative duration in seconds as `{h}h{m}m{s}s`, `{m}m{s}s`
/// or `{s}s`, whichever is shortest.
pub fn format_elapsed_time(elapsed_seconds: i64) -> (r: String)
    requires
        elapsed_seconds >= 0,
    ensures
        r@ == spec_elapsed_time(elapsed_seconds as int),
{
    let e = elapsed_seconds as u64;
    let hours = e / 3600;
    let minutes = (e % 3600) / 60;
    let seconds = e % 60;
    let mut out = String::new();
    if hours > 0 {
        push_dec(&mut out, hours);
        push_char(&mut out, 'h');
        push_dec(&mut out, minutes);
        push_char(&mut out, 'm');
        push_dec(&mut out, seconds);
        push_char(&mut out, 's');
    } else if minutes > 0 {
        push_dec(&mut out, minutes);
        push_char(&mut out, 'm');
        push_dec(&mut out, seconds);
        push_char(&mut out, 's');
    } else {
        push_dec(&mut out, seconds);
        push_char(&mut out, 's');
    }
    proof {
        assert(out@ =~= spec_elapsed_time(elapsed_seconds as int));
    }
    out
}

/// The characters before the first `'T'`, or the whole string if it has
/// none.
pub open spec fn date_prefix(s: Seq<char>) -> Seq<char>
    decreases s.len(),
{
    if s.len() == 0 {
        s
    } else if s[0] == 'T' {
        Seq::empty()
    } else {
        seq![s[0]] + date_prefix(s.drop_first())
    }
}

/// A scan that stopped at the first `'T'` found the date prefix.
proof fn lemma_date_prefix_scan(s: Seq<char>, k: int)
    requires
        0 <= k <= s.len(),
        forall|j: int| 0 <= j < k ==> s[j] != 'T',
        k == s.len() || s[k] == 'T',
    ensures
        date_prefix(s) =~= s.take(k),
    decreases s.len(),
{
    if s.len() == 0 {
        assert(s.take(0) =~= s);
    } else if k == 0 {
        assert(s.take(0) =~= Seq::<char>::empty());
    } else {
        lemma_date_prefix_scan(s.drop_first(), k - 1);
        assert(seq![s[0]] + s.drop_first().take(k - 1) =~= s.take(k));
    }
}

/// The date part (`YYYY-MM-DD`) of an ISO datetime: everything before
/// the first `'T'`, or the whole string where none occurs.
pub fn parse_iso_date(date_str: &str) -> (r: String)
    ensures
        r@ == date_prefix(date_str@),
{
    let n = date_str.unicode_len();
    let mut i: usize = 0;
    while i < n
        invariant
            n == date_str@.len(),
            i <= n,
            forall|j: int| 0 <= j < i ==> date_str@[j] != 'T',
        ensures
            i <= n,
            forall|j: int| 0 <= j < i ==> date_str@[j] != 'T',
            i == n || date_str@[i as int] == 'T',
        decreases n - i,
    {
        if date_str.get_char(i) == 'T' {
            break;
        }
        i = i + 1;
    }
    proof {
        lemma_date_prefix_scan(date_str@, i as int);
    }
    let prefix = date_str.substring_char(0, i);
    let r = prefix.to_owned();
    proof {
        assert(prefix@ =~= date_str@.take(i as int));
    }
    r
}

} // verus!
