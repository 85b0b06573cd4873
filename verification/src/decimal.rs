//! Decimal fractions.
//!
//! The version numbers of a catalog's schema are written as decimal
//! fractions such as `2.5`. They are kept exactly, as a whole number of
//! digits and the place of the point.

use vstd::prelude::*;
use crate::text::{after_sign, all_digits, decimal_value, has_minus, parse_magnitude};

verus! {

/// The largest number of digits that may follow the point.
pub const MAX_SCALE: u32 = 18;

/// The power of ten with exponent `n`.
pub open spec fn pow10(n: nat) -> nat
    decreases n,
{
    if n == 0 {
        1
    } else {
        10 * pow10((n - 1) as nat)
    }
}

/// A decimal fraction: `digits` divided by ten to the power `scale`, with a
/// sign.
#[derive(Debug, Clone, Copy, PartialEq, Eq, Structural)]
pub struct Decimal {
    /// The fraction was written with a minus sign.
    pub negative: bool,
    /// The digits before and behind the point, read as one number.
    pub digits: u64,
    /// The number of digits behind the point.
    pub scale: u32,
}

/// The index of the first point in a text, or its length where it has none.
pub open spec fn point_index(text: Seq<u8>) -> int
    decreases text.len(),
{
    if text.len() == 0 {
        0
    } else if text[0] == 46 {
        0
    } else {
        1 + point_index(text.drop_first())
    }
}

/// The digits before the point.
pub open spec fn whole_part(text: Seq<u8>) -> Seq<u8> {
    after_sign(text).subrange(0, point_index(after_sign(text)))
}

/// The digits behind the point.
pub open spec fn fraction_part(text: Seq<u8>) -> Seq<u8> {
    let body = after_sign(text);
    if point_index(body) < body.len() {
        body.subrange(point_index(body) + 1, body.len() as int)
    } else {
        Seq::empty()
    }
}

/// The fraction that a text writes: an optional sign, digits, and
/// optionally a point with more digits. At least one digit is needed; at
/// most `MAX_SCALE` digits may follow the point, and all digits together
/// must be a number of 64 bits.
pub open spec fn parse_decimal(text: Seq<u8>) -> Option<Decimal> {
    let digits = whole_part(text) + fraction_part(text);
    if digits.len() > 0 && all_digits(digits) && decimal_value(digits) <= u64::MAX
        && fraction_part(text).len() <= MAX_SCALE {
        Some(
            Decimal {
                negative: has_minus(text),
                digits: decimal_value(digits) as u64,
                scale: fraction_part(text).len() as u32,
            },
        )
    } else {
        None
    }
}

/// Powers of ten grow with their exponent.
pub proof fn lemma_pow10_grows(a: nat, b: nat)
    requires
        a <= b,
    ensures
        1 <= pow10(a) <= pow10(b),
    decreases b,
{
    if a < b {
        lemma_pow10_grows(a, (b - 1) as nat);
    } else if a > 0 {
        lemma_pow10_grows((a - 1) as nat, (a - 1) as nat);
    }
}

/// Ten to the power 18.
pub proof fn lemma_pow10_of_max_scale()
    ensures
        pow10(18) == 1_000_000_000_000_000_000,
{
    reveal_with_fuel(pow10, 19);
}

/// The power of ten with an exponent up to `MAX_SCALE`.
fn power_of_ten(exponent: u32) -> (power: u64)
    requires
        exponent <= MAX_SCALE,
    ensures
        power == pow10(exponent as nat),
        power <= 1_000_000_000_000_000_000,
{
    let mut power: u64 = 1;
    let mut i: u32 = 0;
    while i < exponent
        invariant
            i <= exponent <= MAX_SCALE,
            power == pow10(i as nat),
        decreases exponent - i,
    {
        proof {
            lemma_pow10_grows((i + 1) as nat, 18);
            lemma_pow10_of_max_scale();
        }
        power = power * 10;
        i += 1;
    }
    proof {
        lemma_pow10_grows(exponent as nat, 18);
        lemma_pow10_of_max_scale();
    }
    power
}

impl Decimal {
    /// The fraction is written as the decimal notation allows.
    pub open spec fn well_formed(self) -> bool {
        self.scale <= MAX_SCALE
    }

    /// The fraction is zero, with whatever sign.
    pub open spec fn is_zero_value(self) -> bool {
        self.digits == 0
    }

    /// The fraction is greater than zero.
    pub open spec fn is_positive_value(self) -> bool {
        !self.negative && self.digits > 0
    }

    /// The fraction is at most `numerator` divided by ten to the power
    /// `scale`.
    pub open spec fn is_at_most(self, numerator: u64, scale: u32) -> bool {
        self.negative || self.digits * pow10(scale as nat) <= numerator * pow10(self.scale as nat)
    }

    /// Zero.
    pub fn zero() -> (zero: Decimal)
        ensures
            zero == (Decimal { negative: false, digits: 0, scale: 0 }),
    {
        Decimal { negative: false, digits: 0, scale: 0 }
    }

    /// Reads a decimal fraction.
    pub fn parse(text: &[u8]) -> (fraction: Option<Decimal>)
        ensures
            fraction == parse_decimal(text@),
            fraction matches Some(d) ==> d.well_formed(),
    {
        let negative = text.len() > 0 && text[0] == 45;
        let start: usize = if text.len() > 0 && (text[0] == 43 || text[0] == 45) {
            1
        } else {
            0
        };
        let ghost body = after_sign(text@);
        assert(body =~= text@.skip(start as int)) by {
            assert(text@.skip(0) =~= text@);
        }
        let mut digits: Vec<u8> = Vec::new();
        let mut i: usize = start;
        assert(body.skip(0) =~= body);
        assert(body.subrange(0, 0) =~= Seq::<u8>::empty());
        while i < text.len() && text[i] != 46
            invariant
                start <= i <= text@.len(),
                body == text@.skip(start as int),
                digits@ == body.subrange(0, i - start),
                point_index(body) == (i - start) + point_index(body.skip(i - start)),
            decreases text@.len() - i,
        {
            let ghost rest = body.skip(i - start);
            assert(rest[0] == text@[i as int]);
            assert(rest.drop_first() =~= body.skip(i - start + 1));
            digits.push(text[i]);
            assert(digits@ =~= body.subrange(0, i - start + 1));
            i += 1;
        }
        proof {
            let rest = body.skip(i - start);
            if i < text@.len() {
                assert(rest[0] == text@[i as int]);
            }
            assert(point_index(rest) == 0);
        }
        let point: usize = i;
        let scale: usize = if point < text.len() {
            text.len() - point - 1
        } else {
            0
        };
        if point < text.len() {
            i = point + 1;
            while i < text.len()
                invariant
                    start <= point < i <= text@.len(),
                    body == text@.skip(start as int),
                    digits@ == body.subrange(0, point - start) + body.subrange(
                        point - start + 1,
                        i - start,
                    ),
                decreases text@.len() - i,
            {
                digits.push(text[i]);
                assert(digits@ =~= body.subrange(0, point - start) + body.subrange(
                    point - start + 1,
                    i - start + 1,
                ));
                i += 1;
            }
        } else {
            assert(digits@ =~= body.subrange(0, point - start) + Seq::<u8>::empty());
        }
        assert(digits@ == whole_part(text@) + fraction_part(text@));
        assert(fraction_part(text@).len() == scale);
        assert(digits@.skip(0) =~= digits@);
        let value = parse_magnitude(digits.as_slice(), 0, u64::MAX);
        if scale > MAX_SCALE as usize {
            return None;
        }
        match value {
            Some(number) => Some(Decimal { negative, digits: number, scale: scale as u32 }),
            None => None,
        }
    }

    /// Is the fraction zero?
    pub fn is_zero(&self) -> (yes: bool)
        ensures
            yes == self.is_zero_value(),
    {
        self.digits == 0
    }

    /// Is the fraction greater than zero?
    pub fn is_positive(&self) -> (yes: bool)
        ensures
            yes == self.is_positive_value(),
    {
        !self.negative && self.digits > 0
    }

    /// Is the fraction at most `numerator` divided by ten to the power
    /// `scale`?
    pub fn at_most(&self, numerator: u64, scale: u32) -> (yes: bool)
        requires
            self.well_formed(),
            scale <= MAX_SCALE,
        ensures
            yes == self.is_at_most(numerator, scale),
    {
        if self.negative {
            return true;
        }
        let left_power = power_of_ten(scale);
        let right_power = power_of_ten(self.scale);
        assert(self.digits * left_power <= 0xffff_ffff_ffff_ffff * 1_000_000_000_000_000_000)
            by (nonlinear_arith)
            requires
                self.digits <= 0xffff_ffff_ffff_ffff,
                left_power <= 1_000_000_000_000_000_000,
        ;
        assert(numerator * right_power <= 0xffff_ffff_ffff_ffff * 1_000_000_000_000_000_000)
            by (nonlinear_arith)
            requires
                numerator <= 0xffff_ffff_ffff_ffff,
                right_power <= 1_000_000_000_000_000_000,
        ;
        (self.digits as u128) * (left_power as u128) <= (numerator as u128) * (right_power as u128)
    }
}

} // verus!
