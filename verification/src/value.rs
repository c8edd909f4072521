//! The numbers that scalars encode, and why their ranks order them.

use crate::point::Point;
use crate::scalar::{Scalar, BINADE, ONE_BITS, SIGN_BIT};
use vstd::arithmetic::mul::{lemma_mul_inequality, lemma_mul_strict_inequality};
use vstd::arithmetic::power2::{
    lemma2_to64_rest, lemma_pow2_adds, lemma_pow2_pos, lemma_pow2_strictly_increases,
    lemma_pow2_unfold, pow2,
};
use vstd::prelude::*;

verus! {

/// The size of the number that a pattern of this magnitude encodes, counted in
/// units of the least positive double.
///
/// A magnitude is an exponent field above a fraction field of 52 bits. With
/// the exponent field empty the number is the fraction, that many units. With
/// the exponent field at `e` the number is the fraction with a leading one
/// before it, doubled `e - 1` times. Read in this way positive infinity, whose
/// exponent field is full, is larger than every finite double.
pub open spec fn units_of(magnitude: int) -> int {
    let exponent = magnitude / (BINADE as int);
    let fraction = magnitude % (BINADE as int);
    if exponent == 0 {
        fraction
    } else {
        (BINADE + fraction) * pow2((exponent - 1) as nat)
    }
}

impl Scalar {
    /// The number that the scalar encodes, counted in units of the least
    /// positive double; below zero where the sign bit is set. It means nothing
    /// for a NaN.
    pub open spec fn units(self) -> int {
        if self.bits >= SIGN_BIT {
            -units_of(self.magnitude())
        } else {
            units_of(self.magnitude())
        }
    }
}

/// Of two magnitudes, the greater encodes the larger number.
pub proof fn lemma_units_grow(lesser: int, greater: int)
    requires
        0 <= lesser < greater,
    ensures
        0 <= units_of(lesser) < units_of(greater),
{
    let span = BINADE as int;
    let (e1, f1) = (lesser / span, lesser % span);
    let (e2, f2) = (greater / span, greater % span);
    assert(e1 <= e2);
    if e1 == e2 {
        if e1 > 0 {
            lemma_pow2_pos((e1 - 1) as nat);
            lemma_mul_strict_inequality(span + f1, span + f2, pow2((e1 - 1) as nat) as int);
            lemma_mul_inequality(0, span + f1, pow2((e1 - 1) as nat) as int);
        }
    } else {
        // The lesser number stays below the power of two that opens the next
        // exponent, and the greater one is at least the power that opens its own.
        let opening = span * pow2((e2 - 1) as nat);
        lemma_pow2_pos((e2 - 1) as nat);
        lemma_mul_inequality(span, span + f2, pow2((e2 - 1) as nat) as int);
        assert(opening <= units_of(greater));
        if e1 == 0 {
            lemma_mul_inequality(1, pow2((e2 - 1) as nat) as int, span);
            assert(span * 1 <= opening) by (nonlinear_arith)
                requires
                    1 * span <= pow2((e2 - 1) as nat) * span,
                    opening == span * pow2((e2 - 1) as nat),
            ;
        } else {
            let doubling = pow2((e1 - 1) as nat) as int;
            lemma_pow2_pos((e1 - 1) as nat);
            lemma_mul_strict_inequality(span + f1, span + span, doubling);
            lemma_mul_inequality(0, span + f1, doubling);
            lemma_pow2_unfold(e1 as nat);
            assert((span + span) * doubling == span * pow2(e1 as nat)) by (nonlinear_arith)
                requires
                    pow2(e1 as nat) == 2 * doubling,
            ;
            if e1 < e2 - 1 {
                lemma_pow2_strictly_increases(e1 as nat, (e2 - 1) as nat);
            }
            lemma_mul_inequality(pow2(e1 as nat) as int, pow2((e2 - 1) as nat) as int, span);
            assert(span * pow2(e1 as nat) <= opening) by (nonlinear_arith)
                requires
                    pow2(e1 as nat) * span <= pow2((e2 - 1) as nat) * span,
                    opening == span * pow2((e2 - 1) as nat),
            ;
        }
    }
}

/// Only the magnitude zero encodes the number zero.
pub proof fn lemma_units_of_zero(magnitude: int)
    requires
        0 <= magnitude,
    ensures
        units_of(magnitude) == 0 <==> magnitude == 0,
{
    if magnitude > 0 {
        lemma_units_grow(0, magnitude);
    }
}

/// The pattern of one encodes the number one: as many units as the least
/// positive double goes into one, which is two to the power of 1074.
pub proof fn lemma_units_of_one()
    ensures
        (Scalar { bits: ONE_BITS }).units() == pow2(1074),
{
    lemma2_to64_rest();
    lemma_pow2_adds(52, 1022);
    assert(ONE_BITS as int / (BINADE as int) == 1023);
    assert(ONE_BITS as int % (BINADE as int) == 0);
    assert(BINADE == pow2(52));
}

/// A scalar is one of the zeros exactly if it encodes the number zero, and is
/// a distance exactly if it is finite and encodes a number that is not below
/// zero.
pub proof fn lemma_classes_by_number(s: Scalar)
    requires
        !s.spec_is_nan(),
    ensures
        s.spec_is_zero() <==> s.units() == 0,
        s.spec_is_distance() <==> s.spec_is_finite() && s.units() >= 0,
{
    lemma_units_of_zero(s.magnitude());
    if s.magnitude() > 0 {
        lemma_units_grow(0, s.magnitude());
    }
}

/// Two finite points have one location exactly if their coordinates encode
/// the same two numbers: a location is a place of the plane.
pub proof fn lemma_location_is_place(p: Point, q: Point)
    requires
        p.spec_is_finite(),
        q.spec_is_finite(),
    ensures
        p.location() == q.location() <==> p.x.units() == q.x.units() && p.y.units() == q.y.units(),
{
    lemma_rank_orders_numbers(p.x, q.x);
    lemma_rank_orders_numbers(p.y, q.y);
}

/// A magnitude whose fraction field is empty encodes a power of two: with
/// the exponent field at `exponent`, two to the power of `exponent + 51`
/// units.
pub proof fn lemma_empty_fraction_is_power_of_two(exponent: nat)
    requires
        exponent >= 1,
    ensures
        units_of(exponent * BINADE) == pow2(exponent + 51),
{
    let span = BINADE as int;
    lemma2_to64_rest();
    assert(span == pow2(52));
    assert((exponent * span) / span == exponent && (exponent * span) % span == 0) by (nonlinear_arith)
        requires
            span > 0,
    ;
    lemma_pow2_adds(52, (exponent - 1) as nat);
}

/// Ranks order scalars as the numbers order that they encode: of two scalars
/// that are not NaN, one has the lesser rank exactly if it encodes the lesser
/// number, and the two have one rank exactly if they encode one number.
pub proof fn lemma_rank_orders_numbers(a: Scalar, b: Scalar)
    requires
        !a.spec_is_nan(),
        !b.spec_is_nan(),
    ensures
        a.rank() < b.rank() <==> a.units() < b.units(),
        a.rank() == b.rank() <==> a.units() == b.units(),
{
    let (ma, mb) = (a.magnitude(), b.magnitude());
    lemma_units_of_zero(ma);
    lemma_units_of_zero(mb);
    if ma < mb {
        lemma_units_grow(ma, mb);
    } else if mb < ma {
        lemma_units_grow(mb, ma);
    }
    if ma > 0 {
        lemma_units_grow(0, ma);
    }
    if mb > 0 {
        lemma_units_grow(0, mb);
    }
}

} // verus!
