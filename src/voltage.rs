//! The line that the battery sensor reports: `Result:<digits> Raw:<digits>`,
//! possibly followed by more text. The raw reading is calibrated into volts
//! by the caller.
use vstd::prelude::*;

use crate::errors::GiftError;
use crate::text::{has_prefix, starts_with};

verus! {

pub open spec fn is_digit(b: u8) -> bool {
    48 <= b <= 57
}

/// The end of the run of decimal digits that starts at `p`.
pub open spec fn digit_run(s: Seq<u8>, p: nat) -> nat
    decreases s.len() - p,
{
    if p >= s.len() || !is_digit(s[p as int]) {
        p
    } else {
        digit_run(s, p + 1)
    }
}

/// The number that a string of decimal digits writes.
pub open spec fn digits_value(s: Seq<u8>) -> nat
    decreases s.len(),
{
    if s.len() == 0 {
        0
    } else {
        digits_value(s.drop_last()) * 10 + (s.last() - 48) as nat
    }
}

/// The raw reading of a sensor line, if the line has the expected shape.
pub open spec fn raw_reading(s: Seq<u8>) -> Option<nat> {
    let a = digit_run(s, 7);
    let b = digit_run(s, a + 5);
    if starts_with(s, reading_start()) && a > 7 && a + 5 <= s.len() && s.subrange(
        a as int,
        a as int + 5,
    ) == reading_raw() && b > a + 5 {
        Some(digits_value(s.subrange(a as int + 5, b as int)))
    } else {
        None
    }
}

proof fn lemma_digit_run_bounds(s: Seq<u8>, p: nat)
    requires
        p <= s.len(),
    ensures
        p <= digit_run(s, p) <= s.len(),
        forall|i: int| p <= i < digit_run(s, p) ==> is_digit(#[trigger] s[i]),
    decreases s.len() - p,
{
    if p < s.len() && is_digit(s[p as int]) {
        lemma_digit_run_bounds(s, p + 1);
    }
}

proof fn lemma_digits_grow(s: Seq<u8>, k: int)
    requires
        0 <= k < s.len(),
        is_digit(s[k]),
    ensures
        digits_value(s.subrange(0, k + 1)) >= digits_value(s.subrange(0, k)),
{
    assert(s.subrange(0, k + 1).drop_last() =~= s.subrange(0, k));
}

proof fn lemma_digits_monotone(s: Seq<u8>, k: int, m: int)
    requires
        0 <= k <= m <= s.len(),
        forall|i: int| 0 <= i < s.len() ==> is_digit(#[trigger] s[i]),
    ensures
        digits_value(s.subrange(0, m)) >= digits_value(s.subrange(0, k)),
    decreases m - k,
{
    if k < m {
        lemma_digits_grow(s, k);
        lemma_digits_monotone(s, k + 1, m);
    }
}

/// The value of the digits of `s` from `a` up to `b`, unless it exceeds
/// `u64::MAX`.
fn digits_to_u64(s: &[u8], a: usize, b: usize) -> (r: Option<u64>)
    requires
        a <= b <= s@.len(),
        forall|i: int| a <= i < b ==> is_digit(#[trigger] s@[i]),
    ensures
        match r {
            Some(v) => v == digits_value(s@.subrange(a as int, b as int)),
            None => digits_value(s@.subrange(a as int, b as int)) > u64::MAX,
        },
{
    let ghost d = s@.subrange(a as int, b as int);
    let mut v: u64 = 0;
    let mut i: usize = a;
    assert(d.subrange(0, 0) =~= Seq::<u8>::empty());
    while i < b
        invariant
            a <= i <= b <= s@.len(),
            d == s@.subrange(a as int, b as int),
            forall|k: int| 0 <= k < d.len() ==> is_digit(#[trigger] d[k]),
            v == digits_value(d.subrange(0, i - a)),
        decreases b - i,
    {
        assert(d[i - a] == s@[i as int]);
        assert(is_digit(d[i - a]));
        let digit: u64 = (s[i] - 48) as u64;
        assert(d.subrange(0, i - a + 1).drop_last() =~= d.subrange(0, i - a));
        if v > (u64::MAX - digit) / 10 {
            proof {
                assert(v * 10 + digit > u64::MAX) by (nonlinear_arith)
                    requires
                        v > (u64::MAX - digit) / 10,
                        digit <= 9,
                ;
                lemma_digits_monotone(d, i - a + 1, d.len() as int);
                assert(d.subrange(0, d.len() as int) =~= d);
            }
            return None;
        }
        proof {
            assert(v * 10 + digit <= u64::MAX) by (nonlinear_arith)
                requires
                    v <= (u64::MAX - digit) / 10,
                    digit <= 9,
            ;
        }
        v = v * 10 + digit;
        i = i + 1;
    }
    assert(d.subrange(0, d.len() as int) =~= d);
    Some(v)
}

/// The end of the run of decimal digits of `s` that starts at `p`.
fn digit_run_exec(s: &[u8], p: usize) -> (r: usize)
    requires
        p <= s@.len(),
    ensures
        r == digit_run(s@, p as nat),
{
    let n: usize = s.len();
    let mut i: usize = p;
    while i < n && 48 <= s[i] && s[i] <= 57
        invariant
            n == s@.len(),
            p <= i <= n,
            digit_run(s@, p as nat) == digit_run(s@, i as nat),
        decreases n - i,
    {
        i = i + 1;
    }
    i
}

/// The raw reading in a line of the battery sensor.
pub fn parse_raw_voltage(line: &[u8]) -> (r: Result<u64, GiftError>)
    ensures
        match raw_reading(line@) {
            Some(v) => if v <= u64::MAX {
                r == Ok::<u64, GiftError>(v as u64)
            } else {
                r == Err::<u64, GiftError>(GiftError::ParseVoltage)
            },
            None => r == Err::<u64, GiftError>(GiftError::ParseVoltage),
        },
{
    let start = reading_start_bytes();
    if !has_prefix(line, start.as_slice()) {
        return Err(GiftError::ParseVoltage);
    }
    let a = digit_run_exec(line, 7);
    proof {
        lemma_digit_run_bounds(line@, 7);
    }
    if a == 7 || line.len() - a < 5 {
        return Err(GiftError::ParseVoltage);
    }
    let mid = reading_raw_bytes();
    if !has_prefix(vstd::slice::slice_subrange(line, a, a + 5), mid.as_slice()) {
        assert(line@.subrange(a as int, a + 5).subrange(0, 5) =~= line@.subrange(a as int, a + 5));
        return Err(GiftError::ParseVoltage);
    }
    assert(line@.subrange(a as int, a + 5).subrange(0, 5) =~= line@.subrange(a as int, a + 5));
    let b = digit_run_exec(line, a + 5);
    proof {
        lemma_digit_run_bounds(line@, (a + 5) as nat);
    }
    if b == a + 5 {
        return Err(GiftError::ParseVoltage);
    }
    match digits_to_u64(line, a + 5, b) {
        Some(v) => Ok(v),
        None => Err(GiftError::ParseVoltage),
    }
}

/// How a line of the battery sensor starts. `Result:`
pub open spec fn reading_start() -> Seq<u8> {
    seq![82u8, 101, 115, 117, 108, 116, 58]
}

pub fn reading_start_bytes() -> (r: Vec<u8>)
    ensures
        r@ == reading_start(),
{
    let r: Vec<u8> = vec![82, 101, 115, 117, 108, 116, 58];
    assert(r@ =~= reading_start());
    r
}

/// What precedes the raw value in a line of the battery sensor. ` Raw:`
pub open spec fn reading_raw() -> Seq<u8> {
    seq![32u8, 82, 97, 119, 58]
}

pub fn reading_raw_bytes() -> (r: Vec<u8>)
    ensures
        r@ == reading_raw(),
{
    let r: Vec<u8> = vec![32, 82, 97, 119, 58];
    assert(r@ =~= reading_raw());
    r
}
} // verus!
