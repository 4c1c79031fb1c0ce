//! Lenient parsing of `mm:ss.hh` timestamps into hundredths of a second.

use vstd::prelude::*;
use vstd::string::StrSliceExecFns;
use crate::text::{field_after, field_before, split_at_char};

verus! {

pub open spec fn is_digit(c: char) -> bool {
    '0' <= c && c <= '9'
}

pub open spec fn digit_value(c: char) -> nat {
    (c as int - '0' as int) as nat
}

pub open spec fn all_digits(s: Seq<char>) -> bool {
    forall|i: int| 0 <= i < s.len() ==> is_digit(#[trigger] s[i])
}

/// Value of a string of decimal digits, most significant first.
pub open spec fn digits_value(s: Seq<char>) -> nat
    decreases s.len(),
{
    if s.len() == 0 {
        0
    } else {
        digits_value(s.drop_last()) * 10 + digit_value(s.last())
    }
}

/// `s` without one leading `+`.
pub open spec fn unsigned_body(s: Seq<char>) -> Seq<char> {
    if s.len() > 0 && s[0] == '+' {
        s.drop_first()
    } else {
        s
    }
}

/// `s` is an unsigned decimal literal (optional `+`, one or more digits) whose
/// value fits in 32 bits.
pub open spec fn is_u32_literal(s: Seq<char>) -> bool {
    let b = unsigned_body(s);
    b.len() > 0 && all_digits(b) && digits_value(b) <= u32::MAX
}

/// A numeric field read leniently: its value, or 0 when it is not a valid literal.
pub open spec fn field_value(s: Seq<char>) -> nat {
    if is_u32_literal(s) {
        digits_value(unsigned_body(s))
    } else {
        0
    }
}

/// The minutes, seconds and hundredths fields of `mm:ss.hh`.
pub open spec fn minutes_field(s: Seq<char>) -> Seq<char> {
    field_before(s, ':')
}

pub open spec fn seconds_part(s: Seq<char>) -> Seq<char> {
    field_before(field_after(s, ':'), ':')
}

pub open spec fn seconds_field(s: Seq<char>) -> Seq<char> {
    field_before(seconds_part(s), '.')
}

pub open spec fn hundredths_field(s: Seq<char>) -> Seq<char> {
    field_before(field_after(seconds_part(s), '.'), '.')
}

/// `minutes * 60 + seconds + hundredths / 100` seconds, counted in hundredths.
pub open spec fn timestamp_centis(s: Seq<char>) -> nat {
    field_value(minutes_field(s)) * 6000 + field_value(seconds_field(s)) * 100 + field_value(
        hundredths_field(s),
    )
}

pub proof fn lemma_digits_value_prefix(b: Seq<char>, k: int)
    requires
        0 <= k <= b.len(),
    ensures
        digits_value(b.take(k)) <= digits_value(b),
    decreases b.len(),
{
    if k < b.len() {
        let d = b.drop_last();
        assert(d.take(k) =~= b.take(k));
        lemma_digits_value_prefix(d, k);
    } else {
        assert(b.take(k) =~= b);
    }
}

/// Reads a numeric field leniently: a field that is not an unsigned 32-bit
/// decimal literal counts as 0.
pub fn parse_field(s: &str) -> (r: u32)
    ensures
        r as nat == field_value(s@),
{
    let n = s.unicode_len();
    let start: usize = if n > 0 && s.get_char(0) == '+' { 1 } else { 0 };
    let ghost b = unsigned_body(s@);
    assert(b =~= s@.subrange(start as int, n as int));
    if start == n {
        return 0;
    }
    let mut acc: u64 = 0;
    let mut i: usize = start;
    while i < n
        invariant
            n == s@.len(),
            start <= i <= n,
            b == s@.subrange(start as int, n as int),
            b == unsigned_body(s@),
            acc as nat == digits_value(b.take(i - start)),
            acc <= u32::MAX,
            all_digits(b.take(i - start)),
        decreases n - i,
    {
        let c = s.get_char(i);
        assert(b[i - start] == c);
        if c < '0' || c > '9' {
            assert(!is_digit(b[i - start]));
            assert(!all_digits(b));
            assert(!is_u32_literal(s@));
            return 0;
        }
        let ghost p = b.take(i - start + 1);
        assert(p.drop_last() =~= b.take(i - start));
        assert(p.last() == c);
        let next: u64 = acc * 10 + (c as u64 - '0' as u64);
        assert(next as nat == digits_value(p));
        if next > u32::MAX as u64 {
            proof {
                lemma_digits_value_prefix(b, i - start + 1);
            }
            assert(digits_value(b) > u32::MAX);
            assert(!is_u32_literal(s@));
            return 0;
        }
        acc = next;
        i = i + 1;
        assert(all_digits(b.take(i - start)));
    }
    assert(b.take(n - start) =~= b);
    acc as u32
}

/// Parses `mm:ss.hh` into hundredths of a second. Each numeric field that
/// does not read as a number, or is missing, counts as 0.
pub fn parse_timestamp(ts: &str) -> (r: u64)
    ensures
        r as nat == timestamp_centis(ts@),
        r <= 6000 * u32::MAX + 100 * u32::MAX + u32::MAX,
{
    let (minutes, rest) = split_at_char(ts, ':');
    let (sec_part, _) = split_at_char(rest, ':');
    let (seconds, rest2) = split_at_char(sec_part, '.');
    let (hundredths, _) = split_at_char(rest2, '.');
    let m = parse_field(minutes) as u64;
    let s = parse_field(seconds) as u64;
    let h = parse_field(hundredths) as u64;
    m * 6000 + s * 100 + h
}

} // verus!
