//! Decimal arithmetic, delegated to the `rust_decimal` crate behind trusted
//! wrappers.
//!
//! Each wrapper converts a plain mantissa/scale pair to a `Decimal`, makes
//! one library call, and converts the result back.  The results of the
//! rounding operations are named by uninterpreted functions; where the
//! library's source shows an exact result, the wrapper states it.

use vstd::prelude::*;
use crate::num::{Num, NumV, num_eq_v, num_lt_v, num_le_v, pow10, MAX_MANTISSA, MAX_SCALE};

verus! {

/// What `rust_decimal`'s checked addition returns for these operands.
pub uninterp spec fn dec_add(a: NumV, b: NumV) -> Option<NumV>;

/// What `rust_decimal`'s checked subtraction returns for these operands.
pub uninterp spec fn dec_sub(a: NumV, b: NumV) -> Option<NumV>;

/// What `rust_decimal`'s checked multiplication returns for these operands.
pub uninterp spec fn dec_mul(a: NumV, b: NumV) -> Option<NumV>;

/// What `rust_decimal`'s checked division returns for these operands.
pub uninterp spec fn dec_div(a: NumV, b: NumV) -> Option<NumV>;

/// What `rust_decimal`'s checked decimal power returns for these operands.
pub uninterp spec fn dec_pow(a: NumV, b: NumV) -> Option<NumV>;

/// The aligned sum of two models at their larger scale.
pub open spec fn aligned_sum(a: NumV, b: NumV) -> NumV {
    let s = if a.s >= b.s { a.s } else { b.s };
    NumV { m: a.m * pow10((s - a.s) as nat) + b.m * pow10((s - b.s) as nat), s: s }
}

/// A mantissa within the representable 96-bit range.
pub open spec fn mant_in_range(m: int) -> bool {
    -(MAX_MANTISSA as int) <= m <= MAX_MANTISSA as int
}

/// Relies on `rust_decimal`'s `Decimal::checked_add`: `None` on overflow; a
/// zero operand yields the other operand unchanged; otherwise the result is
/// exactly the sum aligned at the larger scale whenever that representation
/// fits the 96-bit range.
#[verifier::external_body]
pub fn num_add(a: &Num, b: &Num) -> (r: Option<Num>)
    requires
        a.wf(),
        b.wf(),
    ensures
        (match r {
            Some(n) => dec_add(a@, b@) == Some(n@) && n.wf(),
            None => dec_add(a@, b@) is None,
        }),
        r is None ==> !mant_in_range(aligned_sum(a@, b@).m),
        r matches Some(n) ==> (if a@.m == 0 {
            n@ == b@
        } else if b@.m == 0 {
            n@ == a@
        } else {
            mant_in_range(aligned_sum(a@, b@).m) ==> n@ == aligned_sum(a@, b@)
        }),
{
    let x = rust_decimal::Decimal::from_i128_with_scale(a.mantissa, a.scale);
    let y = rust_decimal::Decimal::from_i128_with_scale(b.mantissa, b.scale);
    x.checked_add(y).map(|z| Num { mantissa: z.mantissa(), scale: z.scale() })
}

/// Relies on `rust_decimal`'s `Decimal::checked_sub`: `None` on overflow; a
/// zero minuend yields the negated subtrahend at its own scale, a zero
/// subtrahend yields the minuend unchanged; otherwise the result is exactly
/// the difference aligned at the larger scale whenever that representation
/// fits the 96-bit range.
#[verifier::external_body]
pub fn num_sub(a: &Num, b: &Num) -> (r: Option<Num>)
    requires
        a.wf(),
        b.wf(),
    ensures
        (match r {
            Some(n) => dec_sub(a@, b@) == Some(n@) && n.wf(),
            None => dec_sub(a@, b@) is None,
        }),
        r is None ==> !mant_in_range(aligned_sum(a@, NumV { m: -b@.m, s: b@.s }).m),
        r matches Some(n) ==> (if a@.m == 0 {
            n@ == (NumV { m: -b@.m, s: b@.s })
        } else if b@.m == 0 {
            n@ == a@
        } else {
            mant_in_range(aligned_sum(a@, NumV { m: -b@.m, s: b@.s }).m) ==> n@ == aligned_sum(
                a@,
                NumV { m: -b@.m, s: b@.s },
            )
        }),
{
    let x = rust_decimal::Decimal::from_i128_with_scale(a.mantissa, a.scale);
    let y = rust_decimal::Decimal::from_i128_with_scale(b.mantissa, b.scale);
    x.checked_sub(y).map(|z| Num { mantissa: z.mantissa(), scale: z.scale() })
}

/// Relies on `rust_decimal`'s `Decimal::checked_mul`: `None` on overflow; a
/// zero operand yields the plain zero at scale zero; otherwise the result is
/// exactly the product of the mantissas at the sum of the scales whenever
/// that representation fits the 96-bit range and the scale bound.
#[verifier::external_body]
pub fn num_mul(a: &Num, b: &Num) -> (r: Option<Num>)
    requires
        a.wf(),
        b.wf(),
    ensures
        (match r {
            Some(n) => dec_mul(a@, b@) == Some(n@) && n.wf(),
            None => dec_mul(a@, b@) is None,
        }),
        r is None ==> !(mant_in_range(a@.m * b@.m) && a@.s + b@.s <= MAX_SCALE),
        (match r {
            Some(n) => a@.m == 0 || b@.m == 0 ==> n@ == (NumV { m: 0, s: 0 }),
            None => a@.m != 0 && b@.m != 0,
        }),
        r matches Some(n) ==> (a@.m != 0 && b@.m != 0 && mant_in_range(a@.m * b@.m) && a@.s + b@.s
            <= MAX_SCALE ==> n@ == (NumV { m: a@.m * b@.m, s: (a@.s + b@.s) as nat })),
{
    let x = rust_decimal::Decimal::from_i128_with_scale(a.mantissa, a.scale);
    let y = rust_decimal::Decimal::from_i128_with_scale(b.mantissa, b.scale);
    x.checked_mul(y).map(|z| Num { mantissa: z.mantissa(), scale: z.scale() })
}

/// Relies on `rust_decimal`'s `Decimal::checked_div`: the quotient at the
/// library's maximum precision; `None` on division by zero or overflow.
#[verifier::external_body]
pub fn num_div(a: &Num, b: &Num) -> (r: Option<Num>)
    requires
        a.wf(),
        b.wf(),
    ensures
        (match r {
            Some(n) => dec_div(a@, b@) == Some(n@) && n.wf(),
            None => dec_div(a@, b@) is None,
        }),
        b@.m == 0 ==> r is None,
{
    let x = rust_decimal::Decimal::from_i128_with_scale(a.mantissa, a.scale);
    let y = rust_decimal::Decimal::from_i128_with_scale(b.mantissa, b.scale);
    x.checked_div(y).map(|z| Num { mantissa: z.mantissa(), scale: z.scale() })
}

/// Relies on `rust_decimal`'s `MathematicalOps::checked_powd`: the decimal
/// power with the left operand as base; `None` on overflow.
#[verifier::external_body]
pub fn num_pow(a: &Num, b: &Num) -> (r: Option<Num>)
    requires
        a.wf(),
        b.wf(),
    ensures
        (match r {
            Some(n) => dec_pow(a@, b@) == Some(n@) && n.wf(),
            None => dec_pow(a@, b@) is None,
        }),
{
    let x = rust_decimal::Decimal::from_i128_with_scale(a.mantissa, a.scale);
    let y = rust_decimal::Decimal::from_i128_with_scale(b.mantissa, b.scale);
    rust_decimal::MathematicalOps::checked_powd(&x, y).map(
        |z| Num { mantissa: z.mantissa(), scale: z.scale() },
    )
}

/// Relies on `rust_decimal`'s `PartialEq::eq`, which compares the denoted
/// decimal values exactly.
#[verifier::external_body]
pub fn num_eq(a: &Num, b: &Num) -> (r: bool)
    requires
        a.wf(),
        b.wf(),
    ensures
        r == num_eq_v(a@, b@),
{
    let x = rust_decimal::Decimal::from_i128_with_scale(a.mantissa, a.scale);
    let y = rust_decimal::Decimal::from_i128_with_scale(b.mantissa, b.scale);
    x == y
}

/// Relies on `rust_decimal`'s `PartialOrd::lt`, which compares the denoted
/// decimal values exactly.
#[verifier::external_body]
pub fn num_lt(a: &Num, b: &Num) -> (r: bool)
    requires
        a.wf(),
        b.wf(),
    ensures
        r == num_lt_v(a@, b@),
{
    let x = rust_decimal::Decimal::from_i128_with_scale(a.mantissa, a.scale);
    let y = rust_decimal::Decimal::from_i128_with_scale(b.mantissa, b.scale);
    x < y
}

/// Relies on `rust_decimal`'s `PartialOrd::le`, which compares the denoted
/// decimal values exactly.
#[verifier::external_body]
pub fn num_le(a: &Num, b: &Num) -> (r: bool)
    requires
        a.wf(),
        b.wf(),
    ensures
        r == num_le_v(a@, b@),
{
    let x = rust_decimal::Decimal::from_i128_with_scale(a.mantissa, a.scale);
    let y = rust_decimal::Decimal::from_i128_with_scale(b.mantissa, b.scale);
    x <= y
}

} // verus!
