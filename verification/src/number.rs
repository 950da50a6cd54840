//! Reading integers from decimal numerals: an optional sign, then ASCII
//! digits and nothing else.

use vstd::prelude::*;
use crate::text::{all_digits, digits_value, is_digit, to_chars};

verus! {

/// The number that the digit string `s` writes, if `s` holds one digit at
/// least, digits only, and writes no more than `max`.
pub open spec fn digits_number(s: Seq<char>, max: nat) -> Option<nat> {
    if s.len() > 0 && all_digits(s) && digits_value(s) <= max {
        Some(digits_value(s))
    } else {
        None
    }
}

/// `s` without its leading plus sign, if it has one.
pub open spec fn after_plus(s: Seq<char>) -> Seq<char> {
    if s.len() > 0 && s[0] == '+' {
        s.drop_first()
    } else {
        s
    }
}

/// `s` without its leading sign, if it has one.
pub open spec fn after_sign(s: Seq<char>) -> Seq<char> {
    if s.len() > 0 && (s[0] == '+' || s[0] == '-') {
        s.drop_first()
    } else {
        s
    }
}

/// Whether `s` starts with a minus sign.
pub open spec fn has_minus(s: Seq<char>) -> bool {
    s.len() > 0 && s[0] == '-'
}

/// The unsigned number that `s` writes: an optional `+`, then digits, up to `max`.
pub open spec fn unsigned_number(s: Seq<char>, max: nat) -> Option<nat> {
    digits_number(after_plus(s), max)
}

/// The 64-bit signed number that `s` writes: an optional `+` or `-`, then digits.
pub open spec fn signed_number(s: Seq<char>) -> Option<int> {
    if has_minus(s) {
        match digits_number(after_sign(s), 0x8000_0000_0000_0000) {
            Some(m) => Some(-(m as int)),
            None => None,
        }
    } else {
        match digits_number(after_sign(s), 0x7fff_ffff_ffff_ffff) {
            Some(m) => Some(m as int),
            None => None,
        }
    }
}

/// The `usize` that `s` writes.
pub open spec fn parse_usize_spec(s: Seq<char>) -> Option<usize> {
    match unsigned_number(s, usize::MAX as nat) {
        Some(v) => Some(v as usize),
        None => None,
    }
}

/// A prefix of a digit string never writes a larger number than the whole.
pub proof fn lemma_digits_value_grows(s: Seq<char>, k: int)
    requires
        0 <= k <= s.len(),
    ensures
        digits_value(s.take(k)) <= digits_value(s),
    decreases s.len() - k,
{
    if k < s.len() {
        let q = s.take(k + 1);
        assert(q.drop_last() =~= s.take(k));
        lemma_digits_value_grows(s, k + 1);
    } else {
        assert(s.take(k) =~= s);
    }
}

/// Reads the digit string `v[from..to]`.
pub fn parse_digits(v: &Vec<char>, from: usize, to: usize, max: u64) -> (r: Option<u64>)
    requires
        from <= to <= v.len(),
    ensures
        match r {
            Some(n) => digits_number(v@.subrange(from as int, to as int), max as nat) == Some(
                n as nat,
            ),
            None => digits_number(v@.subrange(from as int, to as int), max as nat) is None,
        },
{
    let ghost s = v@.subrange(from as int, to as int);
    if from == to {
        return None;
    }
    let mut acc: u64 = 0;
    let mut i: usize = from;
    while i < to
        invariant
            from <= i <= to <= v.len(),
            s == v@.subrange(from as int, to as int),
            all_digits(s.take(i - from)),
            acc == digits_value(s.take(i - from)),
            acc <= max,
        decreases to - i,
    {
        let c = v[i];
        let ghost p = s.take(i - from);
        let ghost q = s.take(i - from + 1);
        assert(q.drop_last() =~= p);
        assert(q.last() == c);
        if !(c >= '0' && c <= '9') {
            assert(!is_digit(s[i - from]));
            return None;
        }
        let d: u64 = (c as u32 - '0' as u32) as u64;
        if d > max || acc > (max - d) / 10 {
            proof {
                assert(digits_value(q) > max);
                lemma_digits_value_grows(s, i - from + 1);
            }
            return None;
        }
        acc = acc * 10 + d;
        assert forall|k: int| 0 <= k < q.len() implies is_digit(#[trigger] q[k]) by {
            if k < p.len() {
                assert(q[k] == p[k]);
            }
        }
        i += 1;
    }
    assert(s.take(to - from) =~= s);
    Some(acc)
}

/// Reads a 64-bit unsigned integer.
pub fn parse_u64(s: &str) -> (r: Option<u64>)
    ensures
        match r {
            Some(n) => unsigned_number(s@, u64::MAX as nat) == Some(n as nat),
            None => unsigned_number(s@, u64::MAX as nat) is None,
        },
{
    let v = to_chars(s);
    let start: usize = if v.len() > 0 && v[0] == '+' {
        1
    } else {
        0
    };
    assert(v@.subrange(start as int, v.len() as int) =~= after_plus(s@));
    parse_digits(&v, start, v.len(), u64::MAX)
}

/// Reads a `usize`.
pub fn parse_usize(s: &str) -> (r: Option<usize>)
    ensures
        r == parse_usize_spec(s@),
{
    let v = to_chars(s);
    let start: usize = if v.len() > 0 && v[0] == '+' {
        1
    } else {
        0
    };
    assert(v@.subrange(start as int, v.len() as int) =~= after_plus(s@));
    match parse_digits(&v, start, v.len(), usize::MAX as u64) {
        Some(n) => Some(n as usize),
        None => None,
    }
}

/// Reads a 64-bit signed integer.
pub fn parse_i64(s: &str) -> (r: Option<i64>)
    ensures
        match r {
            Some(n) => signed_number(s@) == Some(n as int),
            None => signed_number(s@) is None,
        },
{
    let v = to_chars(s);
    let negative = v.len() > 0 && v[0] == '-';
    let start: usize = if v.len() > 0 && (v[0] == '+' || v[0] == '-') {
        1
    } else {
        0
    };
    assert(v@.subrange(start as int, v.len() as int) =~= after_sign(s@));
    if negative {
        match parse_digits(&v, start, v.len(), 0x8000_0000_0000_0000) {
            Some(m) => {
                if m == 0x8000_0000_0000_0000 {
                    Some(i64::MIN)
                } else {
                    Some(-(m as i64))
                }
            },
            None => None,
        }
    } else {
        match parse_digits(&v, start, v.len(), 0x7fff_ffff_ffff_ffff) {
            Some(m) => Some(m as i64),
            None => None,
        }
    }
}

} // verus!
