//! Fixed-point decimal values: a signed mantissa scaled by a power of ten.
//!
//! `Dec` mirrors the 96-bit decimal representation used throughout the
//! library's arithmetic: a value is `mantissa / 10^scale`.  Comparisons are
//! specified exactly over the integers; multiplication, subtraction and
//! division round to the representable range and are performed by the
//! `rust_decimal` crate behind the trusted items in this module.
use vstd::prelude::*;

verus! {

use vstd::arithmetic::power::{pow, lemma_pow_positive};

/// Largest mantissa magnitude a decimal value can carry (the full 96 bits).
pub const MAX_DEC_MANTISSA: i128 = 79228162514264337593543950335;

/// Largest scale (number of fractional digits) a decimal value can carry.
pub const MAX_DEC_SCALE: u32 = 28;

/// A decimal number `mantissa / 10^scale`.
///
/// The sign lives in the mantissa.  `Dec { mantissa: -24, scale: 2 }`
/// is -0.24; `Dec { mantissa: 5, scale: 0 }` is 5.
#[derive(Clone, Copy, Debug, PartialEq, Eq, Structural)]
pub struct Dec {
    pub mantissa: i128,
    pub scale: u32,
}

/// A value representable in 96 bits with at most 28 fractional digits.
pub open spec fn dec_wf(d: Dec) -> bool {
    &&& d.scale <= MAX_DEC_SCALE
    &&& -MAX_DEC_MANTISSA <= d.mantissa <= MAX_DEC_MANTISSA
}

/// `10^e`.
pub open spec fn pow10(e: nat) -> int {
    pow(10, e)
}

/// The numeric order on decimal values: `a <= b` as rationals, i.e.
/// `a.mantissa / 10^a.scale <= b.mantissa / 10^b.scale`, cleared of
/// denominators.
pub open spec fn dec_le(a: Dec, b: Dec) -> bool {
    a.mantissa * pow10(b.scale as nat) <= b.mantissa * pow10(a.scale as nat)
}

/// Strict numeric order on decimal values.
pub open spec fn dec_lt(a: Dec, b: Dec) -> bool {
    a.mantissa * pow10(b.scale as nat) < b.mantissa * pow10(a.scale as nat)
}

/// Numeric equality on decimal values (0.50 equals 0.5).
pub open spec fn dec_eq(a: Dec, b: Dec) -> bool {
    a.mantissa * pow10(b.scale as nat) == b.mantissa * pow10(a.scale as nat)
}

/// The mantissa of `d` rescaled to the (no smaller) scale `s`.
pub open spec fn scaled_mantissa(d: Dec, s: nat) -> int
    recommends
        d.scale <= s,
{
    d.mantissa * pow10((s - d.scale) as nat)
}

/// What `rust_decimal`'s checked multiplication returns: the (possibly
/// rounded) product, or `None` where it cannot be represented.
pub uninterp spec fn mul_of(a: Dec, b: Dec) -> Option<Dec>;

/// What `rust_decimal`'s checked subtraction returns: the (possibly
/// rounded) difference, or `None` where it cannot be represented.
pub uninterp spec fn sub_of(a: Dec, b: Dec) -> Option<Dec>;

/// What `rust_decimal`'s checked division returns: the (possibly rounded)
/// quotient, or `None` for a zero divisor or an unrepresentable quotient.
pub uninterp spec fn div_of(a: Dec, b: Dec) -> Option<Dec>;

impl Dec {
    /// The value `mantissa / 10^scale`.
    pub fn new(mantissa: i128, scale: u32) -> (r: Dec)
        requires
            dec_wf(Dec { mantissa, scale }),
        ensures
            r == (Dec { mantissa, scale }),
    {
        Dec { mantissa, scale }
    }

    /// True iff the value is exactly zero.
    pub fn is_zero(&self) -> (r: bool)
        ensures
            r == (self.mantissa == 0),
    {
        self.mantissa == 0
    }

    /// Relies on `rust_decimal::Decimal`'s `PartialOrd`: `cmp_impl` compares
    /// the numeric values of its operands after rescaling them to a common
    /// scale, which is exactly the order `dec_le` states.
    #[verifier::external_body]
    pub fn le(&self, other: &Dec) -> (r: bool)
        requires
            dec_wf(*self),
            dec_wf(*other),
        ensures
            r == dec_le(*self, *other),
    {
        let a = rust_decimal::Decimal::from_i128_with_scale(self.mantissa, self.scale);
        let b = rust_decimal::Decimal::from_i128_with_scale(other.mantissa, other.scale);
        a <= b
    }

    /// Strict numeric order, derived from `le`.
    pub fn lt(&self, other: &Dec) -> (r: bool)
        requires
            dec_wf(*self),
            dec_wf(*other),
        ensures
            r == dec_lt(*self, *other),
    {
        !other.le(self)
    }

    /// Relies on `rust_decimal::Decimal::checked_mul`: a function of the
    /// two operands alone, `None` on overflow; the product is exact
    /// whenever the raw mantissa product and the summed scale are
    /// representable, and a product with a zero operand is the canonical
    /// zero.
    #[verifier::external_body]
    pub fn checked_mul(&self, other: &Dec) -> (r: Option<Dec>)
        requires
            dec_wf(*self),
            dec_wf(*other),
        ensures
            r == mul_of(*self, *other),
            r is Some ==> dec_wf(r->0),
            (self.mantissa == 0 || other.mantissa == 0) ==> r == Some(
                Dec { mantissa: 0, scale: 0 },
            ),
            (self.mantissa != 0 && other.mantissa != 0 && -MAX_DEC_MANTISSA <= self.mantissa
                * other.mantissa <= MAX_DEC_MANTISSA && self.scale + other.scale
                <= MAX_DEC_SCALE) ==> r == Some(
                Dec {
                    mantissa: (self.mantissa * other.mantissa) as i128,
                    scale: (self.scale + other.scale) as u32,
                },
            ),
    {
        let a = rust_decimal::Decimal::from_i128_with_scale(self.mantissa, self.scale);
        let b = rust_decimal::Decimal::from_i128_with_scale(other.mantissa, other.scale);
        a.checked_mul(b).map(|d| Dec { mantissa: d.mantissa(), scale: d.scale() })
    }

    /// Relies on `rust_decimal::Decimal::checked_sub`: a function of the
    /// two operands alone, `None` on overflow; subtracting a zero from a
    /// non-zero value returns the value unchanged, and the difference is
    /// exact at the larger scale whenever both rescaled mantissas and the
    /// difference itself stay representable.
    #[verifier::external_body]
    pub fn checked_sub(&self, other: &Dec) -> (r: Option<Dec>)
        requires
            dec_wf(*self),
            dec_wf(*other),
        ensures
            r == sub_of(*self, *other),
            r is Some ==> dec_wf(r->0),
            (self.mantissa != 0 && other.mantissa == 0) ==> r == Some(*self),
            ({
                let s = vstd::math::max(self.scale as int, other.scale as int) as nat;
                self.mantissa != 0 && other.mantissa != 0 && -MAX_DEC_MANTISSA <= scaled_mantissa(
                    *self,
                    s,
                ) <= MAX_DEC_MANTISSA && -MAX_DEC_MANTISSA <= scaled_mantissa(*other, s)
                    <= MAX_DEC_MANTISSA && -MAX_DEC_MANTISSA <= scaled_mantissa(*self, s)
                    - scaled_mantissa(*other, s) <= MAX_DEC_MANTISSA
            }) ==> r == Some(
                ({
                    let s = vstd::math::max(self.scale as int, other.scale as int) as nat;
                    Dec {
                        mantissa: (scaled_mantissa(*self, s) - scaled_mantissa(*other, s)) as i128,
                        scale: s as u32,
                    }
                }),
            ),
    {
        let a = rust_decimal::Decimal::from_i128_with_scale(self.mantissa, self.scale);
        let b = rust_decimal::Decimal::from_i128_with_scale(other.mantissa, other.scale);
        a.checked_sub(b).map(|d| Dec { mantissa: d.mantissa(), scale: d.scale() })
    }

    /// Relies on `rust_decimal::Decimal::checked_div`: a function of the
    /// two operands alone, `None` for a zero divisor or on overflow; a zero
    /// dividend over a non-zero divisor gives the canonical zero.
    #[verifier::external_body]
    pub fn checked_div(&self, other: &Dec) -> (r: Option<Dec>)
        requires
            dec_wf(*self),
            dec_wf(*other),
        ensures
            r == div_of(*self, *other),
            r is Some ==> dec_wf(r->0),
            other.mantissa == 0 ==> r is None,
            (self.mantissa == 0 && other.mantissa != 0) ==> r == Some(
                Dec { mantissa: 0, scale: 0 },
            ),
    {
        let a = rust_decimal::Decimal::from_i128_with_scale(self.mantissa, self.scale);
        let b = rust_decimal::Decimal::from_i128_with_scale(other.mantissa, other.scale);
        a.checked_div(b).map(|d| Dec { mantissa: d.mantissa(), scale: d.scale() })
    }
}

/// Powers of ten are positive.
pub proof fn lemma_pow10_pos(e: nat)
    ensures
        pow10(e) > 0,
{
    lemma_pow_positive(10, e);
}

proof fn lemma_mul_le_mono(x: int, y: int, z: int)
    by (nonlinear_arith)
    requires
        x <= y,
        z > 0,
    ensures
        x * z <= y * z,
{
}

proof fn lemma_mul_le_cancel(x: int, y: int, z: int)
    by (nonlinear_arith)
    requires
        x * z <= y * z,
        z > 0,
    ensures
        x <= y,
{
}

/// The numeric order on decimal values is total.
pub proof fn lemma_dec_le_total(a: Dec, b: Dec)
    ensures
        dec_le(a, b) || dec_le(b, a),
{
}

/// Two decimal values each no greater than the other are numerically equal
/// (they may still differ in representation, as 0.5 and 0.50 do).
pub proof fn lemma_dec_le_antisymm(a: Dec, b: Dec)
    requires
        dec_le(a, b),
        dec_le(b, a),
    ensures
        dec_eq(a, b),
{
}

/// The numeric order on decimal values is transitive.
pub proof fn lemma_dec_le_trans(a: Dec, b: Dec, c: Dec)
    requires
        dec_le(a, b),
        dec_le(b, c),
    ensures
        dec_le(a, c),
{
    let pa = pow10(a.scale as nat);
    let pb = pow10(b.scale as nat);
    let pc = pow10(c.scale as nat);
    lemma_pow10_pos(a.scale as nat);
    lemma_pow10_pos(b.scale as nat);
    lemma_pow10_pos(c.scale as nat);
    lemma_mul_le_mono(a.mantissa * pb, b.mantissa * pa, pc);
    lemma_mul_le_mono(b.mantissa * pc, c.mantissa * pb, pa);
    assert((a.mantissa * pb) * pc == (a.mantissa * pc) * pb) by (nonlinear_arith);
    assert((b.mantissa * pa) * pc == (b.mantissa * pc) * pa) by (nonlinear_arith);
    assert((c.mantissa * pb) * pa == (c.mantissa * pa) * pb) by (nonlinear_arith);
    lemma_mul_le_cancel(a.mantissa * pc, c.mantissa * pa, pb);
}

} // verus!
