//! Proportional navigation.

use vstd::prelude::*;
use crate::quadratic::lemma_quotient;
use crate::scalar::{Scalar, LIMIT, SCALE};
use crate::target::Target;
use crate::vector::{
    lemma_cast_product, lemma_cross_bound, lemma_dot_bound, lemma_norm_squared,
    lemma_product_bound, IntVector3, RealVector3, WideVector3,
};

verus! {

/// A vector of ratios with one denominator: `numerator / denominator`.
#[derive(Clone, Copy, Debug, PartialEq, Eq)]
pub struct RationalVector3 {
    pub numerator: WideVector3,
    pub denominator: i128,
}

impl RationalVector3 {
    /// The vector's value.
    pub open spec fn value(self) -> RealVector3 {
        RealVector3 {
            x: self.numerator.x as real / (self.denominator as real),
            y: self.numerator.y as real / (self.denominator as real),
            z: self.numerator.z as real / (self.denominator as real),
        }
    }
}

/// The rate at which the line of sight to a target turns: the cross product
/// of position and velocity, over the squared range.
pub open spec fn line_of_sight_rate(position: IntVector3, velocity: IntVector3) -> RealVector3 {
    let turning = position.cross(velocity).to_real();
    let range_squared = position.norm_squared() as real;
    RealVector3 {
        x: turning.x / range_squared,
        y: turning.y / range_squared,
        z: turning.z / range_squared,
    }
}

/// The acceleration that proportional navigation commands, in thousandths:
/// the cross product of the velocity, times the gain, with the rate at
/// which the line of sight turns. The gain is given in thousandths.
pub open spec fn commanded_acceleration(
    gain: int,
    position: IntVector3,
    velocity: IntVector3,
) -> RealVector3 {
    velocity.to_real().scaled(gain as real / 1000real).cross(line_of_sight_rate(position, velocity))
}

/// One component of a cross product whose first factor is scaled by
/// `g / 1000` and whose second is divided by `c`.
proof fn lemma_cross_component(g: real, c: real, first: (real, real), second: (real, real))
    requires
        c > 0real,
    ensures
        ((g * first.0) * second.1 - (g * first.1) * second.0) / (1000real * c) == (g / 1000real
            * first.0) * (second.1 / c) - (g / 1000real * first.1) * (second.0 / c),
{
    let q0 = second.0 / c;
    let q1 = second.1 / c;
    let k = g / 1000real;
    let d = 1000real * c;
    let n = (g * first.0) * second.1 - (g * first.1) * second.0;
    lemma_quotient(second.0, c);
    lemma_quotient(second.1, c);
    lemma_quotient(n, d);
    assert((g * first.0) * second.1 == d * ((k * first.0) * q1)) by (nonlinear_arith)
        requires
            c * q1 == second.1,
            k == g / 1000real,
            d == 1000real * c,
    ;
    assert((g * first.1) * second.0 == d * ((k * first.1) * q0)) by (nonlinear_arith)
        requires
            c * q0 == second.0,
            k == g / 1000real,
            d == 1000real * c,
    ;
    let r = (k * first.0) * q1 - (k * first.1) * q0;
    assert(d * r == d * ((k * first.0) * q1) - d * ((k * first.1) * q0)) by (nonlinear_arith)
        requires
            r == (k * first.0) * q1 - (k * first.1) * q0,
    ;
    assert(n / d == r) by (nonlinear_arith)
        requires
            d * (n / d) == d * r,
            d > 0real,
    ;
}

/// A vector of ratios is orthogonal to whatever its numerators are
/// orthogonal to.
proof fn lemma_orthogonal_ratios(n: RealVector3, d: real, v: RealVector3)
    requires
        n.dot(v) == 0real,
        d > 0real,
    ensures
        (n.x / d) * v.x + (n.y / d) * v.y + (n.z / d) * v.z == 0real,
{
    lemma_quotient(n.x, d);
    lemma_quotient(n.y, d);
    lemma_quotient(n.z, d);
    let (qx, qy, qz) = (n.x / d, n.y / d, n.z / d);
    let (a, b, c) = (qx * v.x, qy * v.y, qz * v.z);
    assert(d * a == (d * qx) * v.x) by (nonlinear_arith)
        requires
            a == qx * v.x,
    ;
    assert(d * b == (d * qy) * v.y) by (nonlinear_arith)
        requires
            b == qy * v.y,
    ;
    assert(d * c == (d * qz) * v.z) by (nonlinear_arith)
        requires
            c == qz * v.z,
    ;
    assert(d * (a + b + c) == d * a + d * b + d * c) by (nonlinear_arith);
    assert(a + b + c == 0real) by (nonlinear_arith)
        requires
            d * (a + b + c) == 0real,
            d > 0real,
    ;
}

/// A cross product is orthogonal to any vector that its first factor is a
/// multiple of.
proof fn lemma_cross_orthogonal(gain: int, v: IntVector3, w: IntVector3)
    ensures
        v.scaled(gain).cross(w).dot(v) == 0,
{
    let (a, b, c) = (v.x, v.y, v.z);
    let (d, e, f) = (w.x, w.y, w.z);
    let x = b * f - c * e;
    let y = c * d - a * f;
    let z = a * e - b * d;
    assert(a * (b * f - c * e) + b * (c * d - a * f) + c * (a * e - b * d) == 0)
        by (nonlinear_arith);
    assert((gain * b) * f - (gain * c) * e == gain * x) by (nonlinear_arith)
        requires
            x == b * f - c * e,
    ;
    assert((gain * c) * d - (gain * a) * f == gain * y) by (nonlinear_arith)
        requires
            y == c * d - a * f,
    ;
    assert((gain * a) * e - (gain * b) * d == gain * z) by (nonlinear_arith)
        requires
            z == a * e - b * d,
    ;
    assert((gain * x) * a == gain * (a * x)) by (nonlinear_arith);
    assert((gain * y) * b == gain * (b * y)) by (nonlinear_arith);
    assert((gain * z) * c == gain * (c * z)) by (nonlinear_arith);
    assert(gain * (a * x) + gain * (b * y) + gain * (c * z) == gain * (a * x + b * y + c * z))
        by (nonlinear_arith);
    assert(gain * (a * x + b * y + c * z) == 0) by (nonlinear_arith)
        requires
            a * x + b * y + c * z == 0,
    ;
}

/// Ideal proportional navigation: the acceleration, in thousandths, that
/// turns the pursuer at `navigation_constant` times the rate at which the
/// line of sight to `target` turns.
///
/// The target has to be closing. The acceleration is orthogonal to the
/// target's velocity.
pub fn ipn(navigation_constant: Scalar, target: &Target) -> (result: RationalVector3)
    requires
        target.position@.dot(target.velocity@) < 0,
    ensures
        result.denominator > 0,
        result.value() == commanded_acceleration(
            navigation_constant@,
            target.position@,
            target.velocity@,
        ),
        result.value().dot(target.velocity@.to_real()) == 0real,
{
    let position = target.position.widen();
    let velocity = target.velocity.widen();
    let gain: i128 = navigation_constant.thousandths() as i128;
    let ghost limit = LIMIT as int;
    proof {
        assert(limit * limit == 0x1000_0000_0000_0000) by (nonlinear_arith)
            requires
                limit == 0x4000_0000,
        ;
        lemma_norm_squared(position@, velocity@);
        lemma_dot_bound(position@, position@, limit, limit);
        lemma_cross_bound(position@, velocity@, limit, limit);
        lemma_product_bound(gain as int, velocity.x as int, limit, limit);
        lemma_product_bound(gain as int, velocity.y as int, limit, limit);
        lemma_product_bound(gain as int, velocity.z as int, limit, limit);
    }
    let turning = position.cross(&velocity);
    let scaled = WideVector3 { x: gain * velocity.x, y: gain * velocity.y, z: gain * velocity.z };
    let numerator = scaled.cross(&turning);
    let denominator: i128 = (SCALE as i128) * position.dot(&position);
    let result = RationalVector3 { numerator, denominator };
    proof {
        let g = gain as real;
        let c = position@.norm_squared() as real;
        let v = velocity@.to_real();
        let w = turning@.to_real();
        lemma_cast_product(gain as int, velocity.x as int);
        lemma_cast_product(gain as int, velocity.y as int);
        lemma_cast_product(gain as int, velocity.z as int);
        lemma_cast_product(scaled.y as int, turning.z as int);
        lemma_cast_product(scaled.z as int, turning.y as int);
        lemma_cast_product(scaled.z as int, turning.x as int);
        lemma_cast_product(scaled.x as int, turning.z as int);
        lemma_cast_product(scaled.x as int, turning.y as int);
        lemma_cast_product(scaled.y as int, turning.x as int);
        lemma_cross_component(g, c, (v.y, v.z), (w.y, w.z));
        lemma_cross_component(g, c, (v.z, v.x), (w.z, w.x));
        lemma_cross_component(g, c, (v.x, v.y), (w.x, w.y));
        lemma_cross_orthogonal(gain as int, velocity@, turning@);
        lemma_cast_product(numerator.x as int, velocity.x as int);
        lemma_cast_product(numerator.y as int, velocity.y as int);
        lemma_cast_product(numerator.z as int, velocity.z as int);
        lemma_orthogonal_ratios(numerator@.to_real(), denominator as real, v);
    }
    result
}

} // verus!
