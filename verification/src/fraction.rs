//! Exact rational thresholds in `[0, 1]`.
//!
//! A threshold is a fraction `num / den` with `0 < den` and `num <= den`.
//! Comparing a clipped fraction `n / seq_len` against it is done by
//! cross-multiplication (`n * den <= num * seq_len`), which is exact; in
//! particular a record whose sequence length is `0` has no well-defined
//! fraction and compares below no threshold, so it can never pass.

use vstd::prelude::*;

verus! {

/// Error raised while building a configuration.
#[derive(Debug, Clone, Copy, PartialEq, Eq, Structural)]
pub enum FilterError {
    /// A configured threshold is not a decimal fraction within `[0, 1]`.
    InvalidThreshold,
}

/// An exact fraction in `[0, 1]`: `num / den`.
#[derive(Debug, Clone, Copy, PartialEq, Eq, Structural)]
pub struct Fraction {
    /// numerator
    pub num: u64,
    /// denominator
    pub den: u64,
}

impl Fraction {
    /// Well-formedness: a positive denominator and a value in `[0, 1]`.
    pub open spec fn wf(&self) -> bool {
        0 < self.den && self.num <= self.den
    }

    /// Build a fraction from a numerator and a denominator.
    pub fn new(num: u64, den: u64) -> (r: Fraction)
        requires
            0 < den,
            num <= den,
        ensures
            r.num == num,
            r.den == den,
            r.wf(),
    {
        Fraction { num, den }
    }
}

/// Whether `c` is a decimal digit.
pub open spec fn is_digit(c: char) -> bool {
    48 <= c as int <= 57
}

/// The value of a decimal digit.
pub open spec fn digit_val(c: char) -> int {
    c as int - 48
}

/// Every character is a digit or a dot.
pub open spec fn dots_and_digits(s: Seq<char>) -> bool
    decreases s.len(),
{
    if s.len() == 0 {
        true
    } else {
        dots_and_digits(s.drop_last()) && (is_digit(s.last()) || s.last() == '.')
    }
}

/// How many dots the string holds.
pub open spec fn dot_count(s: Seq<char>) -> int
    decreases s.len(),
{
    if s.len() == 0 {
        0
    } else {
        dot_count(s.drop_last()) + (if s.last() == '.' {
            1int
        } else {
            0int
        })
    }
}

/// Whether the string holds at least one digit.
pub open spec fn has_digit(s: Seq<char>) -> bool
    decreases s.len(),
{
    if s.len() == 0 {
        false
    } else {
        has_digit(s.drop_last()) || is_digit(s.last())
    }
}

/// Whether the string holds a dot.
pub open spec fn has_dot(s: Seq<char>) -> bool
    decreases s.len(),
{
    if s.len() == 0 {
        false
    } else {
        has_dot(s.drop_last()) || s.last() == '.'
    }
}

/// A well-formed decimal fraction literal: digits with at most one dot
/// among them, and at least one digit.
pub open spec fn decimal_shape(s: Seq<char>) -> bool {
    dots_and_digits(s) && dot_count(s) <= 1 && has_digit(s)
}

/// Number of characters after the last dot.
pub open spec fn chars_after_dot(s: Seq<char>) -> int
    decreases s.len(),
{
    if s.len() == 0 {
        0
    } else if s.last() == '.' {
        0
    } else {
        chars_after_dot(s.drop_last()) + 1
    }
}

/// Number of fractional digits of the literal: the characters after its
/// dot, `0` when it has none.
pub open spec fn frac_len(s: Seq<char>) -> int {
    if has_dot(s) {
        chars_after_dot(s)
    } else {
        0
    }
}

/// The literal's digits read as one decimal integer, the dot skipped: the
/// numerator of the written fraction.
pub open spec fn decimal_num(s: Seq<char>) -> int
    decreases s.len(),
{
    if s.len() == 0 {
        0
    } else if s.last() == '.' {
        decimal_num(s.drop_last())
    } else {
        decimal_num(s.drop_last()) * 10 + digit_val(s.last())
    }
}

/// Ten to the power `k` (`1` for `k <= 0`): the denominator of a literal
/// with `k` fractional digits.
pub open spec fn pow10(k: int) -> int
    decreases k,
{
    if k <= 0 {
        1
    } else {
        10 * pow10(k - 1)
    }
}

/// A string whose characters are all digits or dots keeps that property on
/// every prefix.
proof fn lemma_dots_digits_prefix(s: Seq<char>, i: int)
    requires
        0 <= i <= s.len(),
        dots_and_digits(s),
    ensures
        dots_and_digits(s.subrange(0, i)),
    decreases s.len(),
{
    if i == s.len() {
        assert(s.subrange(0, i) =~= s);
    } else {
        lemma_dots_digits_prefix(s.drop_last(), i);
        assert(s.drop_last().subrange(0, i) =~= s.subrange(0, i));
    }
}

/// Ten to any power is positive.
proof fn lemma_pow10_pos(k: int)
    ensures
        pow10(k) >= 1,
    decreases (if k <= 0 {
        0int
    } else {
        k
    }),
{
    if k > 0 {
        lemma_pow10_pos(k - 1);
    }
}

/// Powers of ten grow with the exponent.
proof fn lemma_pow10_mono(a: int, b: int)
    requires
        a <= b,
    ensures
        pow10(a) <= pow10(b),
    decreases b - a,
{
    if a < b {
        lemma_pow10_mono(a, b - 1);
        lemma_pow10_pos(b - 1);
    }
}

/// The largest denominator a parsed threshold can have.
proof fn lemma_pow10_19()
    ensures
        pow10(19) == 10000000000000000000,
{
    reveal_with_fuel(pow10, 21);
}

/// The product of non-negative factors grows with each factor.
proof fn lemma_mul_le(a: int, b: int, c: int, d: int)
    requires
        0 <= a <= c,
        0 <= b <= d,
    ensures
        a * b <= c * d,
{
    assert(a * b <= c * d) by (nonlinear_arith)
        requires
            0 <= a <= c,
            0 <= b <= d,
    ;
}

/// Whether `n_base / seq_len <= thr`, compared exactly by
/// cross-multiplication.
pub fn frac_le(n_base: i64, seq_len: u64, thr: &Fraction) -> (r: bool)
    requires
        n_base >= 0,
        thr.wf(),
    ensures
        r == (n_base as int * thr.den as int <= thr.num as int * seq_len as int),
{
    proof {
        lemma_mul_le(n_base as int, thr.den as int, u64::MAX as int, u64::MAX as int);
        lemma_mul_le(thr.num as int, seq_len as int, u64::MAX as int, u64::MAX as int);
    }
    let lhs: u128 = (n_base as u128) * (thr.den as u128);
    let rhs: u128 = (thr.num as u128) * (seq_len as u128);
    lhs <= rhs
}

/// Whether `n_base / seq_len < thr`, compared exactly by
/// cross-multiplication.
pub fn frac_lt(n_base: i64, seq_len: u64, thr: &Fraction) -> (r: bool)
    requires
        n_base >= 0,
        thr.wf(),
    ensures
        r == ((n_base as int * thr.den as int) < (thr.num as int * seq_len as int)),
{
    proof {
        lemma_mul_le(n_base as int, thr.den as int, u64::MAX as int, u64::MAX as int);
        lemma_mul_le(thr.num as int, seq_len as int, u64::MAX as int, u64::MAX as int);
    }
    let lhs: u128 = (n_base as u128) * (thr.den as u128);
    let rhs: u128 = (thr.num as u128) * (seq_len as u128);
    lhs < rhs
}

/// Ten to the power `k`, for exponents a parsed threshold can have.
fn pow10_exec(k: usize) -> (r: u64)
    requires
        k <= 19,
    ensures
        r == pow10(k as int),
{
    let mut r: u64 = 1;
    let mut i: usize = 0;
    while i < k
        invariant
            0 <= i <= k,
            k <= 19,
            r == pow10(i as int),
        decreases k - i,
    {
        proof {
            lemma_pow10_mono(i as int + 1, 19);
            lemma_pow10_19();
        }
        r = r * 10;
        i = i + 1;
    }
    r
}

/// Parse a threshold given as a decimal fraction literal (digits with at
/// most one dot, such as `0.1`, `1`, or `.25`) into the exact [`Fraction`]
/// it writes, rejecting it unless its value lies within `[0, 1]`. A literal
/// with more than 19 fractional digits is rejected too: its denominator
/// would not fit the fraction type.
pub fn check_fraction(val: &str) -> (r: Result<Fraction, FilterError>)
    ensures
        match r {
            Ok(f) => {
                &&& decimal_shape(val@)
                &&& frac_len(val@) <= 19
                &&& f.num == decimal_num(val@)
                &&& f.den == pow10(frac_len(val@))
                &&& f.wf()
            },
            Err(e) => {
                &&& e == FilterError::InvalidThreshold
                &&& !(decimal_shape(val@) && frac_len(val@) <= 19 && decimal_num(val@) <= pow10(
                    frac_len(val@),
                ))
            },
        },
{
    let n: usize = val.unicode_len();
    let mut dots: usize = 0;
    let mut any_digit: bool = false;
    let mut seen_dot: bool = false;
    let mut after_dot: usize = 0;
    let mut acc: u128 = 0;
    let mut too_big: bool = false;
    let mut i: usize = 0;
    while i < n
        invariant
            0 <= i <= n,
            n == val@.len(),
            dots_and_digits(val@.subrange(0, i as int)),
            dots as int == dot_count(val@.subrange(0, i as int)),
            dots <= i,
            any_digit == has_digit(val@.subrange(0, i as int)),
            seen_dot == has_dot(val@.subrange(0, i as int)),
            seen_dot ==> after_dot as int == chars_after_dot(val@.subrange(0, i as int)),
            after_dot <= i,
            !too_big ==> acc as int == decimal_num(val@.subrange(0, i as int)),
            !too_big ==> acc <= 10000000000000000000u128,
            too_big ==> decimal_num(val@.subrange(0, i as int)) > 10000000000000000000,
        decreases n - i,
    {
        let c: char = val.get_char(i);
        proof {
            assert(val@.subrange(0, i + 1).drop_last() =~= val@.subrange(0, i as int));
            assert(val@.subrange(0, i + 1).last() == val@[i as int]);
        }
        let cv: u32 = c as u32;
        if cv == 46 {
            seen_dot = true;
            after_dot = 0;
            dots = dots + 1;
        } else if 48 <= cv && cv <= 57 {
            any_digit = true;
            if seen_dot {
                after_dot = after_dot + 1;
            }
            let d: u128 = (cv - 48) as u128;
            if !too_big {
                let next: u128 = acc * 10 + d;
                if next > 10000000000000000000u128 {
                    too_big = true;
                } else {
                    acc = next;
                }
            }
        } else {
            proof {
                assert(!dots_and_digits(val@.subrange(0, i + 1)));
                if dots_and_digits(val@) {
                    lemma_dots_digits_prefix(val@, i + 1);
                }
            }
            return Err(FilterError::InvalidThreshold);
        }
        i = i + 1;
    }
    proof {
        assert(val@.subrange(0, n as int) =~= val@);
    }
    if dots > 1 || !any_digit {
        return Err(FilterError::InvalidThreshold);
    }
    let fl: usize = if seen_dot {
        after_dot
    } else {
        0
    };
    if fl > 19 {
        return Err(FilterError::InvalidThreshold);
    }
    let den: u64 = pow10_exec(fl);
    proof {
        lemma_pow10_pos(fl as int);
        lemma_pow10_mono(fl as int, 19);
        lemma_pow10_19();
    }
    if too_big {
        return Err(FilterError::InvalidThreshold);
    }
    let num: u64 = acc as u64;
    if num > den {
        return Err(FilterError::InvalidThreshold);
    }
    Ok(Fraction { num, den })
}

} // verus!
