//! Numbers as the text writes them: runs of digits, and decimal numbers kept
//! as a sign, an integer mantissa and a power of ten.

use vstd::prelude::*;
use crate::scan::{find, lemma_find, is_digit, Class};

verus! {

/// `+`.
pub const PLUS: u8 = 43;

/// `-`.
pub const MINUS: u8 = 45;

/// `.`, the decimal point, which also starts the extension of a file name.
pub const POINT: u8 = 46;

/// The digit `0`.
pub const DIGIT_ZERO: u8 = 48;

/// `e`, which starts an exponent.
pub const LOWER_E: u8 = 101;

/// `E`, which starts an exponent.
pub const UPPER_E: u8 = 69;

/// A mantissa below this bound still takes one more digit: 10 to the 18th.
pub const MANTISSA_ROOM: u64 = 1_000_000_000_000_000_000;

/// An exponent is read up to this bound, beyond which it no longer matters
/// how large it is: 10 to the 20th.
pub const EXPONENT_CAP: u128 = 100_000_000_000_000_000_000;

/// The number that a run of decimal digits writes.
pub open spec fn digits_value(d: Seq<u8>) -> nat
    decreases d.len(),
{
    if d.len() == 0 {
        0
    } else {
        digits_value(d.drop_last()) * 10 + (d.last() - DIGIT_ZERO) as nat
    }
}

/// The smaller of `v` and `cap`.
pub open spec fn capped(v: nat, cap: nat) -> nat {
    if v >= cap {
        cap
    } else {
        v
    }
}

/// Reads the digits `t[from..to]` as a number, which is cut off at `cap`.
pub fn read_digits(t: &[u8], from: usize, to: usize, cap: u128) -> (v: u128)
    requires
        from <= to <= t.len(),
        forall|j: int| from <= j < to ==> is_digit(#[trigger] t[j]),
        cap <= 0x1000_0000_0000_0000_0000_0000_0000u128,
    ensures
        v == capped(digits_value(t@.subrange(from as int, to as int)), cap as nat),
{
    let mut v: u128 = 0;
    let mut i: usize = from;
    assert(t@.subrange(from as int, from as int) =~= Seq::<u8>::empty());
    if cap == 0 {
        return 0;
    }
    while i < to
        invariant
            from <= i <= to <= t.len(),
            forall|j: int| from <= j < to ==> is_digit(#[trigger] t[j]),
            0 < cap <= 0x1000_0000_0000_0000_0000_0000_0000u128,
            v == capped(digits_value(t@.subrange(from as int, i as int)), cap as nat),
        decreases to - i,
    {
        let digit: u128 = (t[i] - DIGIT_ZERO) as u128;
        proof {
            let next = t@.subrange(from as int, i + 1);
            assert(next.drop_last() =~= t@.subrange(from as int, i as int));
            assert(next.last() == t[i as int]);
        }
        if v < cap {
            v = v * 10 + digit;
            if v > cap {
                v = cap;
            }
        }
        i += 1;
    }
    v
}

/// The leading digits of `d` that a mantissa keeps, as a number, and how
/// many digits after them it drops. Digits are kept as long as the mantissa
/// is below `MANTISSA_ROOM`, so zeros in front cost nothing and up to 19
/// significant digits are kept.
pub open spec fn significand(d: Seq<u8>) -> (nat, nat)
    decreases d.len(),
{
    if d.len() == 0 {
        (0, 0)
    } else {
        let (m, dropped) = significand(d.drop_last());
        if dropped > 0 || m >= MANTISSA_ROOM {
            (m, dropped + 1)
        } else {
            (m * 10 + (d.last() - DIGIT_ZERO) as nat, 0)
        }
    }
}

/// The mantissa that `significand` keeps fits in 64 bits, and no more
/// digits are dropped than there are.
pub proof fn lemma_significand_bounds(d: Seq<u8>)
    requires
        forall|j: int| 0 <= j < d.len() ==> is_digit(#[trigger] d[j]),
    ensures
        significand(d).0 < 10 * MANTISSA_ROOM,
        significand(d).1 <= d.len(),
    decreases d.len(),
{
    if d.len() > 0 {
        lemma_significand_bounds(d.drop_last());
    }
}

/// Ten to the power `n`.
pub open spec fn pow10(n: nat) -> nat
    decreases n,
{
    if n == 0 {
        1
    } else {
        10 * pow10((n - 1) as nat)
    }
}

/// What `significand` means: the mantissa is the number that the digits
/// write, without its last `dropped` digits. Nothing is dropped from a
/// number below `MANTISSA_ROOM`, and a mantissa that lost digits is not
/// below it.
pub proof fn lemma_significand_value(d: Seq<u8>)
    requires
        forall|j: int| 0 <= j < d.len() ==> is_digit(#[trigger] d[j]),
    ensures
        significand(d).0 * pow10(significand(d).1) <= digits_value(d),
        digits_value(d) < (significand(d).0 + 1) * pow10(significand(d).1),
        significand(d).1 == 0 ==> significand(d).0 == digits_value(d),
        significand(d).1 > 0 ==> significand(d).0 >= MANTISSA_ROOM,
    decreases d.len(),
{
    reveal_with_fuel(pow10, 2);
    if d.len() > 0 {
        let front = d.drop_last();
        lemma_significand_value(front);
        let (m, k) = significand(front);
        let v = digits_value(front);
        let x = (d.last() - DIGIT_ZERO) as nat;
        assert(x <= 9);
        if k > 0 || m >= MANTISSA_ROOM {
            let unit = pow10(k);
            assert(pow10(k + 1) == 10 * unit);
            assert(m * (10 * unit) == 10 * (m * unit)) by (nonlinear_arith);
            assert((m + 1) * (10 * unit) == 10 * ((m + 1) * unit)) by (nonlinear_arith);
            assert(v + 1 <= (m + 1) * unit);
        }
    }
}

/// A decimal number: `mantissa` times ten to the power `exponent`, negated
/// where `negative` is set.
#[derive(Clone, Copy, Debug, PartialEq, Eq, Structural)]
pub struct Decimal {
    pub negative: bool,
    pub mantissa: u64,
    pub exponent: i32,
}

impl Decimal {
    pub open spec fn spec_zero() -> Decimal {
        Decimal { negative: false, mantissa: 0, exponent: 0 }
    }

    pub open spec fn spec_one() -> Decimal {
        Decimal { negative: false, mantissa: 1, exponent: 0 }
    }

    /// The number 0.
    #[verifier::when_used_as_spec(spec_zero)]
    pub fn zero() -> (d: Decimal)
        ensures
            d == Decimal::spec_zero(),
    {
        Decimal { negative: false, mantissa: 0, exponent: 0 }
    }

    /// The number 1.
    #[verifier::when_used_as_spec(spec_one)]
    pub fn one() -> (d: Decimal)
        ensures
            d == Decimal::spec_one(),
    {
        Decimal { negative: false, mantissa: 1, exponent: 0 }
    }
}

/// Whether a sign stands at `i`.
pub open spec fn sign_at(t: Seq<u8>, i: int) -> bool {
    0 <= i < t.len() && (t[i] == PLUS || t[i] == MINUS)
}

/// The position after the sign at `i`, or `i` where no sign stands there.
pub open spec fn after_sign(t: Seq<u8>, i: int) -> int {
    if sign_at(t, i) {
        i + 1
    } else {
        i
    }
}

/// Where the run of digits that starts at `i` ends.
pub open spec fn digits_end(t: Seq<u8>, i: int) -> int {
    find(t, i, t.len() as int, Class::NonDigit)
}

/// Where the digits before the point start.
pub open spec fn whole_start(t: Seq<u8>) -> int {
    after_sign(t, 0)
}

/// Where the digits before the point end.
pub open spec fn whole_end(t: Seq<u8>) -> int {
    digits_end(t, whole_start(t))
}

/// Where the digits after the point start: behind the point, where there is
/// one.
pub open spec fn fraction_start(t: Seq<u8>) -> int {
    if whole_end(t) < t.len() && t[whole_end(t)] == POINT {
        whole_end(t) + 1
    } else {
        whole_end(t)
    }
}

/// Where the digits after the point end.
pub open spec fn fraction_end(t: Seq<u8>) -> int {
    digits_end(t, fraction_start(t))
}

/// Whether an `e` or `E` follows the digits.
pub open spec fn has_exponent(t: Seq<u8>) -> bool {
    fraction_end(t) < t.len() && (t[fraction_end(t)] == LOWER_E || t[fraction_end(t)] == UPPER_E)
}

/// Where the digits of the exponent start: behind the `e` and its sign.
pub open spec fn exponent_start(t: Seq<u8>) -> int {
    after_sign(t, fraction_end(t) + 1)
}

/// Where the digits of the exponent end.
pub open spec fn exponent_end(t: Seq<u8>) -> int {
    digits_end(t, exponent_start(t))
}

/// Whether `t` as a whole writes a decimal number: an optional sign, digits
/// with an optional point among them, at least one digit in all, and
/// optionally an `e` or `E` with an optional sign and at least one digit.
pub open spec fn is_number(t: Seq<u8>) -> bool {
    &&& (whole_end(t) - whole_start(t)) + (fraction_end(t) - fraction_start(t)) > 0
    &&& tail_is_valid(t)
}

/// The digits of the number, those before the point and those after it.
pub open spec fn number_digits(t: Seq<u8>) -> Seq<u8> {
    t.subrange(whole_start(t), whole_end(t)) + t.subrange(fraction_start(t), fraction_end(t))
}

/// The exponent that the number writes out, 0 where it writes none.
pub open spec fn written_exponent(t: Seq<u8>) -> int {
    if has_exponent(t) {
        let v = digits_value(t.subrange(exponent_start(t), exponent_end(t)));
        if t[fraction_end(t) + 1] == MINUS {
            -v
        } else {
            v as int
        }
    } else {
        0
    }
}

/// `x`, or the nearest bound of `i32` where `x` lies outside.
pub open spec fn clamp(x: int) -> i32 {
    if x < i32::MIN {
        i32::MIN
    } else if x > i32::MAX {
        i32::MAX
    } else {
        x as i32
    }
}

/// The number that the word `t` stands for. A word that does not write a
/// decimal number stands for 0. The mantissa holds the digits that
/// `significand` keeps; the exponent makes up for the point and for the
/// digits that were dropped, and stays within `i32`. A number with a
/// mantissa of 0 has the exponent 0.
pub open spec fn decimal_of(t: Seq<u8>) -> Decimal {
    if is_number(t) {
        let (m, dropped) = significand(number_digits(t));
        let negative = t[0] == MINUS;
        if m == 0 {
            Decimal { negative, mantissa: 0, exponent: 0 }
        } else {
            Decimal {
                negative,
                mantissa: m as u64,
                exponent: clamp(
                    written_exponent(t) - (fraction_end(t) - fraction_start(t)) + dropped,
                ),
            }
        }
    } else {
        Decimal::zero()
    }
}

/// Ten to any power is at least 1.
pub proof fn lemma_pow10_positive(n: nat)
    ensures
        pow10(n) >= 1,
    decreases n,
{
    if n > 0 {
        lemma_pow10_positive((n - 1) as nat);
    }
}

/// A number whose digits write less than `MANTISSA_ROOM` is kept as it is
/// written: the mantissa is what all its digits write, and the exponent is
/// the written one less the number of digits behind the point.
pub proof fn lemma_decimal_exact(t: Seq<u8>)
    requires
        is_number(t),
        digits_value(number_digits(t)) < MANTISSA_ROOM,
    ensures
        decimal_of(t).mantissa == digits_value(number_digits(t)),
        decimal_of(t).negative == (t[0] == MINUS),
        decimal_of(t).mantissa != 0 ==> decimal_of(t).exponent == clamp(
            written_exponent(t) - (fraction_end(t) - fraction_start(t)),
        ),
{
    let d = number_digits(t);
    lemma_find(t, whole_start(t), t.len() as int, Class::NonDigit);
    lemma_find(t, fraction_start(t), t.len() as int, Class::NonDigit);
    assert forall|j: int| 0 <= j < d.len() implies is_digit(#[trigger] d[j]) by {
        let w = whole_end(t) - whole_start(t);
        if j < w {
            assert(d[j] == t[whole_start(t) + j]);
            assert(!Class::NonDigit.holds(t[whole_start(t) + j]));
        } else {
            assert(d[j] == t[fraction_start(t) + (j - w)]);
            assert(!Class::NonDigit.holds(t[fraction_start(t) + (j - w)]));
        }
    }
    lemma_significand_value(d);
    let (m, k) = significand(d);
    if k > 0 {
        lemma_pow10_positive(k);
        assert(m * pow10(k) >= m) by (nonlinear_arith)
            requires
                pow10(k) >= 1,
        ;
    }
}

/// The whole number that the word `t` stands for: digits behind an optional
/// sign, held within `i32`. A word that writes no whole number stands for 0.
pub open spec fn integer_of(t: Seq<u8>) -> i32 {
    let start = after_sign(t, 0);
    let v = digits_value(t.subrange(start, t.len() as int));
    if start < t.len() && digits_end(t, start) == t.len() {
        if t[0] == MINUS {
            clamp(-v)
        } else {
            clamp(v as int)
        }
    } else {
        0
    }
}

/// Reads the word `t` as a whole number; a word that writes none gives 0.
pub fn parse_integer(t: &[u8]) -> (r: i32)
    ensures
        r == integer_of(t@),
{
    let n: usize = t.len();
    let start: usize = if n > 0 && (t[0] == PLUS || t[0] == MINUS) {
        1
    } else {
        0
    };
    if start >= n {
        return 0;
    }
    let end: usize = seek_digits_end(t, start);
    if end != n {
        return 0;
    }
    let v: u128 = read_digits(t, start, n, 0x1_0000_0000u128);
    if t[0] == MINUS {
        if v > 2147483648 {
            -2147483648
        } else {
            (-(v as i64)) as i32
        }
    } else {
        if v > 2147483647 {
            2147483647
        } else {
            v as i32
        }
    }
}

/// Goes on reading a mantissa over the run of digits that starts at `from`.
/// `m` and `dropped` are what the digits `before` have given.
fn absorb(t: &[u8], from: usize, m: u64, dropped: usize, Ghost(before): Ghost<Seq<u8>>) -> (r: (
    u64,
    usize,
    usize,
))
    requires
        from <= t.len(),
        before.len() <= from,
        forall|j: int| 0 <= j < before.len() ==> is_digit(#[trigger] before[j]),
        (m as nat, dropped as nat) == significand(before),
    ensures
        r.2 == digits_end(t@, from as int),
        from <= r.2 <= t.len(),
        (r.0 as nat, r.1 as nat) == significand(before + t@.subrange(from as int, r.2 as int)),
{
    let n: usize = t.len();
    let mut m: u64 = m;
    let mut dropped: usize = dropped;
    let mut i: usize = from;
    proof {
        assert(before + t@.subrange(from as int, from as int) =~= before);
        lemma_significand_bounds(before);
    }
    while i < n && 48 <= t[i] && t[i] <= 57
        invariant
            n == t.len(),
            from <= i <= n,
            before.len() <= from,
            forall|j: int| 0 <= j < before.len() ==> is_digit(#[trigger] before[j]),
            forall|j: int| from <= j < i ==> is_digit(#[trigger] t[j]),
            digits_end(t@, from as int) == digits_end(t@, i as int),
            (m as nat, dropped as nat) == significand(before + t@.subrange(from as int, i as int)),
            dropped <= before.len() + (i - from),
            m < 10 * MANTISSA_ROOM,
        decreases n - i,
    {
        proof {
            let next = before + t@.subrange(from as int, i + 1);
            assert(next.drop_last() =~= before + t@.subrange(from as int, i as int));
            assert(next.last() == t[i as int]);
        }
        if dropped > 0 || m >= MANTISSA_ROOM {
            dropped += 1;
        } else {
            m = m * 10 + (t[i] - DIGIT_ZERO) as u64;
        }
        i += 1;
    }
    (m, dropped, i)
}

/// Reads the digits of a number, before and after the point. Returns where
/// the digits after the point start and end, the mantissa, how many digits
/// were dropped, and how many digits stand before the point.
fn read_mantissa(t: &[u8]) -> (r: (usize, usize, u64, usize, usize))
    ensures
        r.0 == fraction_start(t@),
        r.1 == fraction_end(t@),
        r.0 <= r.1 <= t.len(),
        (r.2 as nat, r.3 as nat) == significand(number_digits(t@)),
        r.4 == whole_end(t@) - whole_start(t@),
        r.3 <= t.len(),
{
    let n: usize = t.len();
    let whole_start: usize = if n > 0 && (t[0] == PLUS || t[0] == MINUS) {
        1
    } else {
        0
    };
    let (m0, d0, whole_end) = absorb(t, whole_start, 0, 0, Ghost(Seq::empty()));
    let ghost whole = t@.subrange(whole_start as int, whole_end as int);
    proof {
        assert(Seq::<u8>::empty() + whole =~= whole);
        lemma_find(t@, whole_start as int, n as int, Class::NonDigit);
    }
    let fraction_start: usize = if whole_end < n && t[whole_end] == POINT {
        whole_end + 1
    } else {
        whole_end
    };
    let (m, dropped, fraction_end) = absorb(t, fraction_start, m0, d0, Ghost(whole));
    proof {
        lemma_find(t@, fraction_start as int, n as int, Class::NonDigit);
        lemma_significand_bounds(number_digits(t@));
    }
    (fraction_start, fraction_end, m, dropped, whole_end - whole_start)
}

/// What follows the digits of a number: nothing, or an exponent.
pub open spec fn tail_is_valid(t: Seq<u8>) -> bool {
    if has_exponent(t) {
        exponent_start(t) < exponent_end(t) && exponent_end(t) == t.len()
    } else {
        fraction_end(t) == t.len()
    }
}

/// Reads what follows the digits of a number, which end at `at`: the
/// exponent that is written there, cut off at `EXPONENT_CAP` on either
/// side, or `None` where something else follows.
fn read_exponent(t: &[u8], at: usize) -> (r: Option<i128>)
    requires
        at == fraction_end(t@),
        at <= t.len(),
    ensures
        r is Some == tail_is_valid(t@),
        r matches Some(x) ==> {
            &&& written_exponent(t@) >= 0 ==> x == capped(
                written_exponent(t@) as nat,
                EXPONENT_CAP as nat,
            )
            &&& written_exponent(t@) < 0 ==> -x == capped(
                (-written_exponent(t@)) as nat,
                EXPONENT_CAP as nat,
            )
        },
{
    let n: usize = t.len();
    if at < n && (t[at] == LOWER_E || t[at] == UPPER_E) {
        let minus: bool = at + 1 < n && t[at + 1] == MINUS;
        let start: usize = if at + 1 < n && (t[at + 1] == PLUS || t[at + 1] == MINUS) {
            at + 2
        } else {
            at + 1
        };
        let end: usize = seek_digits_end(t, start);
        if start >= end || end != n {
            return None;
        }
        let v: u128 = read_digits(t, start, end, EXPONENT_CAP);
        if minus {
            Some(-(v as i128))
        } else {
            Some(v as i128)
        }
    } else if at != n {
        None
    } else {
        Some(0)
    }
}

/// Reads the word `t` as a decimal number; a word that writes none gives 0.
pub fn parse_decimal(t: &[u8]) -> (d: Decimal)
    ensures
        d == decimal_of(t@),
{
    let (fraction_start, fraction_end, m, dropped, whole) = read_mantissa(t);
    if whole == 0 && fraction_end == fraction_start {
        return Decimal::zero();
    }
    let negative: bool = t[0] == MINUS;
    match read_exponent(t, fraction_end) {
        None => Decimal::zero(),
        Some(written) => {
            if m == 0 {
                Decimal { negative, mantissa: 0, exponent: 0 }
            } else {
                let shifted: i128 = written - ((fraction_end - fraction_start) as i128) + (
                dropped as i128);
                let exponent: i32 = if shifted < -2147483648 {
                    -2147483648
                } else if shifted > 2147483647 {
                    2147483647
                } else {
                    shifted as i32
                };
                Decimal { negative, mantissa: m, exponent }
            }
        },
    }
}

/// Finds the end of the run of digits that starts at `from`.
fn seek_digits_end(t: &[u8], from: usize) -> (end: usize)
    requires
        from <= t.len(),
    ensures
        end == digits_end(t@, from as int),
        from <= end <= t.len(),
        forall|j: int| from <= j < end ==> is_digit(#[trigger] t[j]),
{
    proof {
        lemma_find(t@, from as int, t.len() as int, Class::NonDigit);
    }
    crate::scan::seek(t, from, t.len(), Class::NonDigit)
}

} // verus!
