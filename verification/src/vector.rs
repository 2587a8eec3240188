//! Three-dimensional vectors.

use vstd::prelude::*;
use crate::quadratic::lemma_sqrt_unique;
use crate::scalar::{Scalar, LIMIT};

verus! {

/// A vector of three integers: the model of a fixed-point vector, in thousandths.
pub ghost struct IntVector3 {
    pub x: int,
    pub y: int,
    pub z: int,
}

impl IntVector3 {
    /// The dot product.
    pub open spec fn dot(self, other: IntVector3) -> int {
        self.x * other.x + self.y * other.y + self.z * other.z
    }

    /// The cross product.
    pub open spec fn cross(self, other: IntVector3) -> IntVector3 {
        IntVector3 {
            x: self.y * other.z - self.z * other.y,
            y: self.z * other.x - self.x * other.z,
            z: self.x * other.y - self.y * other.x,
        }
    }

    /// The square of the Euclidean length.
    pub open spec fn norm_squared(self) -> int {
        self.dot(self)
    }

    /// The componentwise sum.
    pub open spec fn plus(self, other: IntVector3) -> IntVector3 {
        IntVector3 { x: self.x + other.x, y: self.y + other.y, z: self.z + other.z }
    }

    /// The vector with every component multiplied by `factor`.
    pub open spec fn scaled(self, factor: int) -> IntVector3 {
        IntVector3 { x: factor * self.x, y: factor * self.y, z: factor * self.z }
    }

    /// Whether every component has magnitude at most `bound`.
    pub open spec fn within(self, bound: int) -> bool {
        &&& -bound <= self.x <= bound
        &&& -bound <= self.y <= bound
        &&& -bound <= self.z <= bound
    }

    /// The same vector, over the reals.
    pub open spec fn to_real(self) -> RealVector3 {
        RealVector3 { x: self.x as real, y: self.y as real, z: self.z as real }
    }
}

/// A vector of three reals.
pub ghost struct RealVector3 {
    pub x: real,
    pub y: real,
    pub z: real,
}

impl RealVector3 {
    /// The vector whose components are all zero.
    pub open spec fn zero() -> RealVector3 {
        RealVector3 { x: 0real, y: 0real, z: 0real }
    }

    /// The dot product.
    pub open spec fn dot(self, other: RealVector3) -> real {
        self.x * other.x + self.y * other.y + self.z * other.z
    }

    /// The cross product.
    pub open spec fn cross(self, other: RealVector3) -> RealVector3 {
        RealVector3 {
            x: self.y * other.z - self.z * other.y,
            y: self.z * other.x - self.x * other.z,
            z: self.x * other.y - self.y * other.x,
        }
    }

    /// The square of the Euclidean length.
    pub open spec fn norm_squared(self) -> real {
        self.dot(self)
    }

    /// The vector with every component multiplied by `factor`.
    pub open spec fn scaled(self, factor: real) -> RealVector3 {
        RealVector3 { x: factor * self.x, y: factor * self.y, z: factor * self.z }
    }

    /// Whether `self` is the unit vector that points from the origin toward
    /// `point`. Toward the origin itself no unit vector points: there, whether
    /// `self` is the zero vector.
    pub open spec fn is_unit_toward(self, point: RealVector3) -> bool {
        if point == RealVector3::zero() {
            self == RealVector3::zero()
        } else {
            &&& self.norm_squared() == 1real
            &&& exists|length: real| length > 0real && point == #[trigger] self.scaled(length)
        }
    }
}

/// The largest component magnitude for which dot and cross products are
/// formed without overflow.
pub const WIDE_LIMIT: i128 = 0x4000_0000_0000_0000;

/// The product of two bounded integers is bounded by the product of the bounds.
pub proof fn lemma_product_bound(x: int, y: int, bound_x: int, bound_y: int)
    requires
        -bound_x <= x <= bound_x,
        -bound_y <= y <= bound_y,
    ensures
        -(bound_x * bound_y) <= x * y <= bound_x * bound_y,
{
    assert(-(bound_x * bound_y) <= x * y <= bound_x * bound_y) by (nonlinear_arith)
        requires
            -bound_x <= x <= bound_x,
            -bound_y <= y <= bound_y,
    ;
}

/// A squared length is not negative, and is zero only for the zero vector,
/// whose dot product with any vector is zero.
pub proof fn lemma_norm_squared(v: IntVector3, other: IntVector3)
    ensures
        v.norm_squared() >= 0,
        v.norm_squared() == 0 ==> v == (IntVector3 { x: 0, y: 0, z: 0 }) && v.dot(other) == 0,
{
    let (x, y, z) = (v.x, v.y, v.z);
    assert(x * x >= 0 && y * y >= 0 && z * z >= 0) by (nonlinear_arith);
    assert(x * x + y * y + z * z == 0 ==> x == 0 && y == 0 && z == 0) by (nonlinear_arith);
    if v.norm_squared() == 0 {
        assert(0 * other.x + 0 * other.y + 0 * other.z == 0);
    }
}

/// A product of integers is the same over the reals.
pub proof fn lemma_cast_product(x: int, y: int)
    ensures
        (x * y) as real == (x as real) * (y as real),
{
    assert((x * y) as real == (x as real) * (y as real)) by (nonlinear_arith);
}

/// A dot product of integer vectors is the same over the reals.
pub proof fn lemma_cast_dot(a: IntVector3, b: IntVector3)
    ensures
        a.dot(b) as real == a.to_real().dot(b.to_real()),
{
    lemma_cast_product(a.x, b.x);
    lemma_cast_product(a.y, b.y);
    lemma_cast_product(a.z, b.z);
}

/// A sum of three squares is zero only if each of them is.
pub proof fn lemma_zero_norm(v: RealVector3)
    requires
        v.norm_squared() == 0real,
    ensures
        v == RealVector3::zero(),
{
    assert(v.x == 0real && v.y == 0real && v.z == 0real) by (nonlinear_arith)
        requires
            v.x * v.x + v.y * v.y + v.z * v.z == 0real,
    ;
}

/// The dot product of two bounded vectors is bounded.
pub proof fn lemma_dot_bound(a: IntVector3, b: IntVector3, bound_a: int, bound_b: int)
    requires
        a.within(bound_a),
        b.within(bound_b),
    ensures
        -(3 * (bound_a * bound_b)) <= a.dot(b) <= 3 * (bound_a * bound_b),
{
    lemma_product_bound(a.x, b.x, bound_a, bound_b);
    lemma_product_bound(a.y, b.y, bound_a, bound_b);
    lemma_product_bound(a.z, b.z, bound_a, bound_b);
}

/// The cross product of two bounded vectors is bounded.
pub proof fn lemma_cross_bound(a: IntVector3, b: IntVector3, bound_a: int, bound_b: int)
    requires
        a.within(bound_a),
        b.within(bound_b),
    ensures
        a.cross(b).within(2 * (bound_a * bound_b)),
{
    lemma_product_bound(a.y, b.z, bound_a, bound_b);
    lemma_product_bound(a.z, b.y, bound_a, bound_b);
    lemma_product_bound(a.z, b.x, bound_a, bound_b);
    lemma_product_bound(a.x, b.z, bound_a, bound_b);
    lemma_product_bound(a.x, b.y, bound_a, bound_b);
    lemma_product_bound(a.y, b.x, bound_a, bound_b);
}

/// A vector of wide integers: what sums and products of fixed-point
/// coordinates give.
#[derive(Clone, Copy, Debug, PartialEq, Eq)]
pub struct WideVector3 {
    pub x: i128,
    pub y: i128,
    pub z: i128,
}

impl View for WideVector3 {
    type V = IntVector3;

    open spec fn view(&self) -> IntVector3 {
        IntVector3 { x: self.x as int, y: self.y as int, z: self.z as int }
    }
}

impl WideVector3 {
    /// The dot product.
    pub(crate) fn dot(&self, other: &WideVector3) -> (result: i128)
        requires
            self@.within(WIDE_LIMIT as int),
            other@.within(WIDE_LIMIT as int),
        ensures
            result == self@.dot(other@),
    {
        proof {
            let bound = WIDE_LIMIT as int;
            lemma_product_bound(self.x as int, other.x as int, bound, bound);
            lemma_product_bound(self.y as int, other.y as int, bound, bound);
            lemma_product_bound(self.z as int, other.z as int, bound, bound);
        }
        self.x * other.x + self.y * other.y + self.z * other.z
    }

    /// The cross product.
    pub(crate) fn cross(&self, other: &WideVector3) -> (result: WideVector3)
        requires
            self@.within(WIDE_LIMIT as int),
            other@.within(WIDE_LIMIT as int),
        ensures
            result@ == self@.cross(other@),
    {
        proof {
            let bound = WIDE_LIMIT as int;
            lemma_product_bound(self.y as int, other.z as int, bound, bound);
            lemma_product_bound(self.z as int, other.y as int, bound, bound);
            lemma_product_bound(self.z as int, other.x as int, bound, bound);
            lemma_product_bound(self.x as int, other.z as int, bound, bound);
            lemma_product_bound(self.x as int, other.y as int, bound, bound);
            lemma_product_bound(self.y as int, other.x as int, bound, bound);
        }
        WideVector3 {
            x: self.y * other.z - self.z * other.y,
            y: self.z * other.x - self.x * other.z,
            z: self.x * other.y - self.y * other.x,
        }
    }
}

/// A fixed-point vector.
#[derive(Clone, Copy, Debug, PartialEq, Eq)]
pub struct Vector3 {
    pub x: Scalar,
    pub y: Scalar,
    pub z: Scalar,
}

impl View for Vector3 {
    type V = IntVector3;

    open spec fn view(&self) -> IntVector3 {
        IntVector3 { x: self.x@, y: self.y@, z: self.z@ }
    }
}

impl Vector3 {
    /// The vector with the given components.
    pub fn new(x: Scalar, y: Scalar, z: Scalar) -> (result: Vector3)
        ensures
            result == (Vector3 { x, y, z }),
    {
        Vector3 { x, y, z }
    }

    /// The components as wide integers, in thousandths.
    pub fn widen(&self) -> (result: WideVector3)
        ensures
            result@ == self@,
            self@.within(LIMIT as int),
    {
        let x: i32 = self.x.thousandths();
        let y: i32 = self.y.thousandths();
        let z: i32 = self.z.thousandths();
        WideVector3 { x: x as i128, y: y as i128, z: z as i128 }
    }

    /// The dot product, in millionths.
    pub fn dot(&self, other: &Vector3) -> (result: i128)
        ensures
            result == self@.dot(other@),
    {
        self.widen().dot(&other.widen())
    }
}

/// A vector and a multiple of it have the zero vector as cross product.
pub proof fn lemma_parallel(d: RealVector3, k: real)
    ensures
        d.cross(d.scaled(k)) == RealVector3::zero(),
{
    assert(d.y * (k * d.z) - d.z * (k * d.y) == 0real) by (nonlinear_arith);
    assert(d.z * (k * d.x) - d.x * (k * d.z) == 0real) by (nonlinear_arith);
    assert(d.x * (k * d.y) - d.y * (k * d.x) == 0real) by (nonlinear_arith);
}

/// The dot product of a unit vector and `k` times itself is `k`, and so is
/// the length of the latter, squared, `k` squared.
pub proof fn lemma_scaled_unit(d: RealVector3, k: real)
    requires
        d.norm_squared() == 1real,
    ensures
        d.dot(d.scaled(k)) == k,
        d.scaled(k).norm_squared() == k * k,
{
    let (a, b, c) = (d.x * d.x, d.y * d.y, d.z * d.z);
    assert(d.x * (k * d.x) == k * a) by (nonlinear_arith)
        requires
            a == d.x * d.x,
    ;
    assert(d.y * (k * d.y) == k * b) by (nonlinear_arith)
        requires
            b == d.y * d.y,
    ;
    assert(d.z * (k * d.z) == k * c) by (nonlinear_arith)
        requires
            c == d.z * d.z,
    ;
    assert(k * a + k * b + k * c == k * (a + b + c)) by (nonlinear_arith);
    assert(k * (a + b + c) == k) by (nonlinear_arith)
        requires
            a + b + c == 1real,
    ;
    assert((k * d.x) * (k * d.x) == (k * k) * a) by (nonlinear_arith)
        requires
            a == d.x * d.x,
    ;
    assert((k * d.y) * (k * d.y) == (k * k) * b) by (nonlinear_arith)
        requires
            b == d.y * d.y,
    ;
    assert((k * d.z) * (k * d.z) == (k * k) * c) by (nonlinear_arith)
        requires
            c == d.z * d.z,
    ;
    assert((k * k) * a + (k * k) * b + (k * k) * c == (k * k) * (a + b + c)) by (nonlinear_arith);
    assert((k * k) * (a + b + c) == k * k) by (nonlinear_arith)
        requires
            a + b + c == 1real,
    ;
}

/// Two multiples of one vector have the zero vector as cross product.
pub proof fn lemma_multiples_parallel(d: RealVector3, m: real, k: real)
    ensures
        d.scaled(m).cross(d.scaled(k)) == RealVector3::zero(),
{
    assert((m * d.y) * (k * d.z) - (m * d.z) * (k * d.y) == 0real) by (nonlinear_arith);
    assert((m * d.z) * (k * d.x) - (m * d.x) * (k * d.z) == 0real) by (nonlinear_arith);
    assert((m * d.x) * (k * d.y) - (m * d.y) * (k * d.x) == 0real) by (nonlinear_arith);
}

/// Only one vector is the unit vector toward a given point.
pub proof fn lemma_unit_toward_unique(first: RealVector3, second: RealVector3, point: RealVector3)
    requires
        first.is_unit_toward(point),
        second.is_unit_toward(point),
    ensures
        first == second,
{
    if point != RealVector3::zero() {
        let k = choose|length: real| length > 0real && point == #[trigger] first.scaled(length);
        let m = choose|length: real| length > 0real && point == #[trigger] second.scaled(length);
        lemma_scaled_unit(first, k);
        lemma_scaled_unit(second, m);
        lemma_sqrt_unique(k, m, k * k);
        assert(first.x == second.x) by (nonlinear_arith)
            requires
                k * first.x == k * second.x,
                k > 0real,
        ;
        assert(first.y == second.y) by (nonlinear_arith)
            requires
                k * first.y == k * second.y,
                k > 0real,
        ;
        assert(first.z == second.z) by (nonlinear_arith)
            requires
                k * first.z == k * second.z,
                k > 0real,
        ;
    }
}

} // verus!
