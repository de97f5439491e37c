//! Reading a decimal number out of a name such as `a12.npy`.

use vstd::prelude::*;
use vstd::string::StrSliceExecFns;

verus! {

/// `c` is one of the ASCII digits `0` to `9`.
pub open spec fn is_digit(c: char) -> bool {
    '0' <= c && c <= '9'
}

/// The value of an ASCII digit.
pub open spec fn digit_value(c: char) -> nat {
    (c as u32 - '0' as u32) as nat
}

/// The index of the first digit of `s` at or after `k`, or `s.len()` if none.
pub open spec fn next_digit(s: Seq<char>, k: int) -> int
    decreases s.len() - k,
{
    if k >= s.len() {
        s.len() as int
    } else if is_digit(s[k]) {
        k
    } else {
        next_digit(s, k + 1)
    }
}

/// The index of the first non-digit of `s` at or after `k`, or `s.len()` if none.
pub open spec fn next_non_digit(s: Seq<char>, k: int) -> int
    decreases s.len() - k,
{
    if k >= s.len() {
        s.len() as int
    } else if !is_digit(s[k]) {
        k
    } else {
        next_non_digit(s, k + 1)
    }
}

/// The number written in decimal by the digits `s[from..to]`.
pub open spec fn digits_value(s: Seq<char>, from: int, to: int) -> nat
    decreases to - from,
{
    if to <= from {
        0
    } else {
        digits_value(s, from, to - 1) * 10 + digit_value(s[to - 1])
    }
}

/// The number written by the first run of digits in `s`, or `None` when `s`
/// holds no digit.
pub open spec fn leading_number(s: Seq<char>) -> Option<nat> {
    let a = next_digit(s, 0);
    if a >= s.len() {
        None
    } else {
        Some(digits_value(s, a, next_non_digit(s, a)))
    }
}

proof fn lemma_next_non_digit_skips(s: Seq<char>, k: int, b: int)
    requires
        0 <= k,
        b == next_non_digit(s, k),
    ensures
        k <= b <= s.len() || (k > s.len() && b == s.len()),
        forall|t: int| k <= t < b ==> is_digit(#[trigger] s[t]),
        k <= b < s.len() ==> !is_digit(s[b]),
    decreases s.len() - k,
{
    if k < s.len() && is_digit(s[k]) {
        lemma_next_non_digit_skips(s, k + 1, b);
    }
}

proof fn lemma_digits_value_grows(s: Seq<char>, from: int, k: int, to: int)
    requires
        from <= k <= to,
    ensures
        digits_value(s, from, k) <= digits_value(s, from, to),
    decreases to - k,
{
    if k < to {
        lemma_digits_value_grows(s, from, k, to - 1);
    }
}

/// The number written by the first run of ASCII digits in `input`, skipping
/// whatever precedes it; `None` when `input` holds no digit or the number does
/// not fit in a `u32`.
pub fn parse_int(input: &str) -> (r: Option<u32>)
    ensures
        r matches Some(v) ==> leading_number(input@) == Some(v as nat),
        r is None ==> (leading_number(input@) matches Some(v) ==> v > u32::MAX),
{
    let ghost s = input@;
    let n = input.unicode_len();
    let mut k: usize = 0;
    while k < n
        invariant
            n == s.len(),
            s == input@,
            k <= n,
            next_digit(s, k as int) == next_digit(s, 0),
        ensures
            k <= n,
            next_digit(s, k as int) == next_digit(s, 0),
            k < n ==> is_digit(s[k as int]),
        decreases n - k,
    {
        if is_ascii_digit(input.get_char(k)) {
            break;
        }
        k = k + 1;
    }
    assert(next_digit(s, k as int) == k);
    if k == n {
        return None;
    }
    let start = k;
    assert(next_digit(s, 0) == start);
    let ghost end = next_non_digit(s, start as int);
    proof {
        lemma_next_non_digit_skips(s, start as int, end);
    }
    let mut v: u32 = 0;
    while k < n
        invariant
            n == s.len(),
            s == input@,
            start <= k <= end <= n,
            end == next_non_digit(s, start as int),
            forall|t: int| start <= t < end ==> is_digit(#[trigger] s[t]),
            end < n ==> !is_digit(s[end]),
            leading_number(s) == Some(digits_value(s, start as int, end)),
            v == digits_value(s, start as int, k as int),
        ensures
            k == end,
            v == digits_value(s, start as int, k as int),
        decreases n - k,
    {
        let c = input.get_char(k);
        if !is_ascii_digit(c) {
            assert(k >= end) by {
                if k < end {
                    assert(is_digit(s[k as int]));
                }
            };
            break;
        }
        assert(k < end) by {
            if k >= end {
                assert(end < n && !is_digit(s[end]));
            }
        };
        let w: u64 = v as u64 * 10 + (c as u32 - '0' as u32) as u64;
        if w > u32::MAX as u64 {
            proof {
                lemma_digits_value_grows(s, start as int, k + 1, end);
            }
            return None;
        }
        v = w as u32;
        k = k + 1;
    }
    assert(k == end);
    Some(v)
}

/// Whether `c` is one of the ASCII digits `0` to `9`.
fn is_ascii_digit(c: char) -> (r: bool)
    ensures
        r == is_digit(c),
{
    '0' <= c && c <= '9'
}

} // verus!
