//! Fixed-point decimal numbers as plain values: a signed mantissa and a
//! power-of-ten scale, the representation `rust_decimal::Decimal` uses.
//! Arithmetic is done by `rust_decimal`; this module states what is known of it.
use rust_decimal::prelude::MathematicalOps;
use rust_decimal::Decimal;
use std::cmp::Ordering;
use vstd::prelude::*;

verus! {

/// Largest magnitude of a mantissa: 2^96 - 1.
pub const MAX_MANTISSA: i128 = 79228162514264337593543950335;

/// Largest number of digits after the decimal point.
pub const MAX_SCALE: u32 = 28;

/// The number `mantissa / 10^scale`.
#[derive(Clone, Copy, Debug, PartialEq, Eq, Structural)]
pub struct Dec {
    pub mantissa: i128,
    pub scale: u32,
}

pub open spec fn pow10(n: nat) -> int
    decreases n,
{
    if n == 0 {
        1
    } else {
        10 * pow10((n - 1) as nat)
    }
}

/// The value of the decimal (mantissa, scale) times 10^28.
pub open spec fn units_of(d: (int, int)) -> int {
    d.0 * pow10((MAX_SCALE - d.1) as nat)
}

/// A result of `rust_decimal` as a pair (mantissa, scale).
pub open spec fn parts_of(d: Option<Dec>) -> Option<(int, int)> {
    match d {
        Some(x) => Some(x.parts()),
        None => None,
    }
}

/// Natural logarithm, as `rust_decimal` computes it, of the decimal with the given
/// (mantissa, scale); `None` where it gives no result.
pub uninterp spec fn ln_of(d: (int, int)) -> Option<(int, int)>;

/// Sum of two decimals as `rust_decimal` rounds it; `None` on overflow.
pub uninterp spec fn sum_of(a: (int, int), b: (int, int)) -> Option<(int, int)>;

/// Difference of two decimals as `rust_decimal` rounds it; `None` on overflow.
pub uninterp spec fn difference_of(a: (int, int), b: (int, int)) -> Option<(int, int)>;

/// Product of two decimals as `rust_decimal` rounds it; `None` on overflow.
pub uninterp spec fn product_of(a: (int, int), b: (int, int)) -> Option<(int, int)>;

/// Quotient of two decimals as `rust_decimal` rounds it; `None` on overflow or
/// division by zero.
pub uninterp spec fn quotient_of(a: (int, int), b: (int, int)) -> Option<(int, int)>;

impl Dec {
    /// Mantissa and scale are in the range a `rust_decimal::Decimal` can hold.
    pub open spec fn wf(self) -> bool {
        &&& -MAX_MANTISSA <= self.mantissa <= MAX_MANTISSA
        &&& self.scale <= MAX_SCALE
    }

    pub open spec fn parts(self) -> (int, int) {
        (self.mantissa as int, self.scale as int)
    }

    /// The value times 10^28: an integer for every well-formed decimal, so values
    /// of different scales compare as integers.
    pub open spec fn units(self) -> int {
        units_of(self.parts())
    }

    /// `mantissa / 10^scale`.
    pub fn new(mantissa: i64, scale: u32) -> (r: Dec)
        requires
            scale <= MAX_SCALE,
        ensures
            r.mantissa == mantissa as i128,
            r.scale == scale,
            r.wf(),
    {
        Dec { mantissa: mantissa as i128, scale }
    }

    /// The decimal `mantissa / 10^scale`, where both are in range.
    pub fn from_parts(mantissa: i128, scale: u32) -> (r: Option<Dec>)
        ensures
            r is Some == (Dec { mantissa, scale }).wf(),
            r matches Some(d) ==> d.mantissa == mantissa && d.scale == scale,
    {
        if -MAX_MANTISSA <= mantissa && mantissa <= MAX_MANTISSA && scale <= MAX_SCALE {
            Some(Dec { mantissa, scale })
        } else {
            None
        }
    }

    /// The same value with the opposite sign.
    pub fn neg(self) -> (r: Dec)
        requires
            self.wf(),
        ensures
            r.wf(),
            r.mantissa == -self.mantissa,
            r.scale == self.scale,
            r.units() == -self.units(),
    {
        proof {
            lemma_neg_mul(self.mantissa as int, pow10((MAX_SCALE - self.scale) as nat));
        }
        Dec { mantissa: -self.mantissa, scale: self.scale }
    }
}

proof fn lemma_neg_mul(m: int, p: int)
    ensures
        (-m) * p == -(m * p),
{
    assert((-m) * p == -(m * p)) by (nonlinear_arith);
}

/// Relies on `Ord for rust_decimal::Decimal`: decimals are ordered by value,
/// whatever their scales.
#[verifier::external_body]
pub(crate) fn compare(a: Dec, b: Dec) -> (r: Ordering)
    requires
        a.wf(),
        b.wf(),
    ensures
        (r == Ordering::Less) == (a.units() < b.units()),
        (r == Ordering::Equal) == (a.units() == b.units()),
        (r == Ordering::Greater) == (a.units() > b.units()),
{
    let x = Decimal::from_i128_with_scale(a.mantissa, a.scale);
    let y = Decimal::from_i128_with_scale(b.mantissa, b.scale);
    x.cmp(&y)
}

/// Relies on `rust_decimal::MathematicalOps::checked_ln`: the natural logarithm,
/// `None` for zero and negative numbers.
#[verifier::external_body]
pub(crate) fn checked_ln(d: Dec) -> (r: Option<Dec>)
    requires
        d.wf(),
    ensures
        parts_of(r) == ln_of(d.parts()),
        d.mantissa <= 0 ==> r.is_none(),
        r matches Some(x) ==> x.wf(),
{
    match Decimal::from_i128_with_scale(d.mantissa, d.scale).checked_ln() {
        Some(x) => Some(Dec { mantissa: x.mantissa(), scale: x.scale() }),
        None => None,
    }
}

/// Relies on `rust_decimal::Decimal::checked_add`: the rounded sum, `None` on
/// overflow.
#[verifier::external_body]
pub(crate) fn checked_add(a: Dec, b: Dec) -> (r: Option<Dec>)
    requires
        a.wf(),
        b.wf(),
    ensures
        parts_of(r) == sum_of(a.parts(), b.parts()),
        r matches Some(x) ==> x.wf(),
{
    let x = Decimal::from_i128_with_scale(a.mantissa, a.scale);
    let y = Decimal::from_i128_with_scale(b.mantissa, b.scale);
    match x.checked_add(y) {
        Some(z) => Some(Dec { mantissa: z.mantissa(), scale: z.scale() }),
        None => None,
    }
}

/// Relies on `rust_decimal::Decimal::checked_sub`: the rounded difference,
/// `None` on overflow.
#[verifier::external_body]
pub(crate) fn checked_sub(a: Dec, b: Dec) -> (r: Option<Dec>)
    requires
        a.wf(),
        b.wf(),
    ensures
        parts_of(r) == difference_of(a.parts(), b.parts()),
        r matches Some(x) ==> x.wf(),
{
    let x = Decimal::from_i128_with_scale(a.mantissa, a.scale);
    let y = Decimal::from_i128_with_scale(b.mantissa, b.scale);
    match x.checked_sub(y) {
        Some(z) => Some(Dec { mantissa: z.mantissa(), scale: z.scale() }),
        None => None,
    }
}

/// Relies on `rust_decimal::Decimal::checked_mul`: the rounded product, `None`
/// on overflow.
#[verifier::external_body]
pub(crate) fn checked_mul(a: Dec, b: Dec) -> (r: Option<Dec>)
    requires
        a.wf(),
        b.wf(),
    ensures
        parts_of(r) == product_of(a.parts(), b.parts()),
        r matches Some(x) ==> x.wf(),
{
    let x = Decimal::from_i128_with_scale(a.mantissa, a.scale);
    let y = Decimal::from_i128_with_scale(b.mantissa, b.scale);
    match x.checked_mul(y) {
        Some(z) => Some(Dec { mantissa: z.mantissa(), scale: z.scale() }),
        None => None,
    }
}

/// Relies on `rust_decimal::Decimal::checked_div`: the rounded quotient, `None`
/// on overflow and for a zero divisor.
#[verifier::external_body]
pub(crate) fn checked_div(a: Dec, b: Dec) -> (r: Option<Dec>)
    requires
        a.wf(),
        b.wf(),
    ensures
        parts_of(r) == quotient_of(a.parts(), b.parts()),
        b.mantissa == 0 ==> r.is_none(),
        r matches Some(x) ==> x.wf(),
{
    let x = Decimal::from_i128_with_scale(a.mantissa, a.scale);
    let y = Decimal::from_i128_with_scale(b.mantissa, b.scale);
    match x.checked_div(y) {
        Some(z) => Some(Dec { mantissa: z.mantissa(), scale: z.scale() }),
        None => None,
    }
}

} // verus!
