//! Aiming a projectile of constant speed at a target of constant velocity.

use vstd::prelude::*;
use crate::quadratic::{
    is_sqrt, lemma_no_future_root, lemma_no_root, lemma_point_at_root, lemma_quotient, lemma_root,
    lemma_root_earliest, lemma_root_nonnegative, lemma_root_zero, lemma_sqrt_positive,
    lemma_sqrt_unique, lemma_unit_length, lemma_zero_quotient, quadratic,
};
use crate::scalar::{Scalar, LIMIT};
use crate::surd::{Surd, SurdVector3};
use crate::target::Target;
use crate::vector::{
    lemma_cast_dot, lemma_cast_product, lemma_dot_bound, lemma_norm_squared, lemma_product_bound,
    lemma_zero_norm, IntVector3, RealVector3, Vector3, WideVector3,
};

verus! {

/// Where a target is at time `t` that starts at `position` and moves at
/// `velocity`.
pub open spec fn aim_point(position: IntVector3, velocity: IntVector3, t: real) -> RealVector3 {
    RealVector3 {
        x: position.x as real + velocity.x as real * t,
        y: position.y as real + velocity.y as real * t,
        z: position.z as real + velocity.z as real * t,
    }
}

/// Whether a projectile that leaves the origin at time zero and flies
/// straight at `speed` can be where the target is at time `t`: whether the
/// target is then as far from the origin as the projectile has flown.
pub open spec fn intercepts(
    position: IntVector3,
    velocity: IntVector3,
    speed: int,
    t: real,
) -> bool {
    aim_point(position, velocity, t).norm_squared() == (speed as real * t) * (speed as real * t)
}

/// The leading coefficient of the quadratic in the time of impact: the
/// target's speed squared less the projectile's speed squared.
pub open spec fn leading(velocity: IntVector3, speed: int) -> int {
    velocity.norm_squared() - speed * speed
}

/// Half the linear coefficient of the quadratic in the time of impact.
pub open spec fn half_linear(position: IntVector3, velocity: IntVector3) -> int {
    position.dot(velocity)
}

/// A quarter of the discriminant of the quadratic in the time of impact.
pub open spec fn quarter_discriminant(
    position: IntVector3,
    velocity: IntVector3,
    speed: int,
) -> int {
    half_linear(position, velocity) * half_linear(position, velocity) - leading(velocity, speed)
        * position.norm_squared()
}

/// How near to zero the leading coefficient has to be, in millionths, for
/// the speeds of target and projectile to count as equal: a thousandth.
pub const EQUAL_SPEEDS: i128 = 1000;

/// Whether target and projectile are so nearly equally fast that the
/// quadratic in the time of impact is not solved.
pub open spec fn speeds_match(velocity: IntVector3, speed: int) -> bool {
    -EQUAL_SPEEDS < leading(velocity, speed) < EQUAL_SPEEDS
}

/// Whether the quadratic in the time of impact has a root that is not
/// negative: its discriminant is not negative, and its roots are not both
/// negative.
pub open spec fn has_future_root(position: IntVector3, velocity: IntVector3, speed: int) -> bool {
    &&& quarter_discriminant(position, velocity, speed) >= 0
    &&& (leading(velocity, speed) < 0 || half_linear(position, velocity) <= 0)
}

/// Whether there is a direction to aim in: the speeds match, or the
/// projectile can meet the target.
pub open spec fn can_aim(position: IntVector3, velocity: IntVector3, speed: int) -> bool {
    speeds_match(velocity, speed) || has_future_root(position, velocity, speed)
}

/// Whether `t` is the first time from now on at which the projectile can
/// meet the target.
pub open spec fn is_earliest_intercept(
    position: IntVector3,
    velocity: IntVector3,
    speed: int,
    t: real,
) -> bool {
    &&& t >= 0real
    &&& intercepts(position, velocity, speed, t)
    &&& forall|u: real| u >= 0real && #[trigger] intercepts(position, velocity, speed, u) ==> t <= u
}

/// Whether `time` is the time of impact, and `direction` the unit vector
/// toward the place of impact.
///
/// Where the speeds match, the time is zero, which aims at where the target
/// is now. Otherwise it is the earliest time at which the projectile can meet
/// the target.
pub open spec fn is_aim(
    position: IntVector3,
    velocity: IntVector3,
    speed: int,
    direction: SurdVector3,
    time: Surd,
) -> bool {
    &&& direction.wf()
    &&& time.wf()
    &&& forall|direction_root: real, time_root: real|
        #[trigger] is_sqrt(direction_root, direction.radicand as real) && #[trigger] is_sqrt(
            time_root,
            time.radicand as real,
        ) ==> {
            let t = time.value(time_root);
            &&& if speeds_match(velocity, speed) {
                t == 0real
            } else {
                is_earliest_intercept(position, velocity, speed, t)
            }
            &&& direction.value(direction_root).is_unit_toward(aim_point(position, velocity, t))
        }
}

/// The square of a sum of two terms, the second a product with `t`.
proof fn lemma_square_of_sum(p: real, v: real, t: real)
    ensures
        (p + v * t) * (p + v * t) == p * p + 2real * (p * v) * t + (v * v) * t * t,
{
    let w = v * t;
    assert((p + w) * (p + w) == p * p + 2real * (p * w) + w * w) by (nonlinear_arith);
    assert(p * w == (p * v) * t) by (nonlinear_arith)
        requires
            w == v * t,
    ;
    assert(w * w == (v * v) * t * t) by (nonlinear_arith)
        requires
            w == v * t,
    ;
    assert(2real * (p * w) == 2real * (p * v) * t) by (nonlinear_arith)
        requires
            p * w == (p * v) * t,
    ;
}

/// A quadratic whose coefficients are sums is the sum of the quadratics of
/// the terms.
proof fn lemma_quadratic_of_sums(
    a: (real, real, real, real),
    h: (real, real, real),
    c: (real, real, real),
    t: real,
)
    ensures
        quadratic(a.0 + a.1 + a.2 - a.3, h.0 + h.1 + h.2, c.0 + c.1 + c.2, t) == (c.0 + 2real
            * h.0 * t + a.0 * t * t) + (c.1 + 2real * h.1 * t + a.1 * t * t) + (c.2 + 2real * h.2
            * t + a.2 * t * t) - a.3 * t * t,
{
    let (a0, a1, a2, a3) = a;
    let (h0, h1, h2) = h;
    assert((a0 + a1 + a2 - a3) * t == a0 * t + a1 * t + a2 * t - a3 * t) by (nonlinear_arith);
    assert((a0 * t + a1 * t + a2 * t - a3 * t) * t == a0 * t * t + a1 * t * t + a2 * t * t - a3 * t
        * t) by (nonlinear_arith);
    assert(2real * (h0 + h1 + h2) == 2real * h0 + 2real * h1 + 2real * h2);
    assert((2real * h0 + 2real * h1 + 2real * h2) * t == 2real * h0 * t + 2real * h1 * t + 2real
        * h2 * t) by (nonlinear_arith);
}

/// The target is where the projectile can be exactly at the roots of the
/// quadratic in the time of impact.
pub proof fn lemma_intercepts_at_roots(
    position: IntVector3,
    velocity: IntVector3,
    speed: int,
    t: real,
)
    ensures
        intercepts(position, velocity, speed, t) <==> quadratic(
            leading(velocity, speed) as real,
            half_linear(position, velocity) as real,
            position.norm_squared() as real,
            t,
        ) == 0real,
{
    let p = position.to_real();
    let v = velocity.to_real();
    let s = speed as real;
    lemma_square_of_sum(p.x, v.x, t);
    lemma_square_of_sum(p.y, v.y, t);
    lemma_square_of_sum(p.z, v.z, t);
    lemma_quadratic_of_sums(
        (v.x * v.x, v.y * v.y, v.z * v.z, s * s),
        (p.x * v.x, p.y * v.y, p.z * v.z),
        (p.x * p.x, p.y * p.y, p.z * p.z),
        t,
    );
    lemma_cast_dot(position, position);
    lemma_cast_dot(position, velocity);
    lemma_cast_dot(velocity, velocity);
    lemma_cast_product(speed, speed);
    assert((s * t) * (s * t) == (s * s) * t * t) by (nonlinear_arith);
}

/// Whether `time` is written as the root `(−h − √(h² − a·c)) / a` of the
/// quadratic in the time of impact, with a positive denominator.
spec fn is_chosen_root(position: IntVector3, velocity: IntVector3, speed: int, time: Surd) -> bool {
    let a = leading(velocity, speed);
    let h = half_linear(position, velocity);
    &&& time.radicand == quarter_discriminant(position, velocity, speed)
    &&& a > 0 ==> time.rational == -h && time.radical == -1 && time.denominator == a
    &&& a < 0 ==> time.rational == h && time.radical == 1 && time.denominator == -a
}

/// Whether `direction` is written as the zero vector.
spec fn is_zero_heading(direction: SurdVector3) -> bool {
    &&& direction.rational@ == (IntVector3 { x: 0, y: 0, z: 0 })
    &&& direction.radical@ == (IntVector3 { x: 0, y: 0, z: 0 })
    &&& direction.denominator == 1
}

/// Whether `direction` is written as `(c·v − h·p + p·√(h² − a·c)) / (c·s)`,
/// with `s` the magnitude of the speed; or as the zero vector, where that
/// denominator is zero.
spec fn is_chosen_heading(
    position: IntVector3,
    velocity: IntVector3,
    speed: int,
    direction: SurdVector3,
) -> bool {
    let h = half_linear(position, velocity);
    let c = position.norm_squared();
    let s = if speed < 0 { -speed } else { speed };
    &&& direction.radicand == quarter_discriminant(position, velocity, speed)
    &&& if c == 0 || s == 0 {
        is_zero_heading(direction)
    } else {
        &&& direction.rational.x == c * velocity.x - h * position.x
        &&& direction.rational.y == c * velocity.y - h * position.y
        &&& direction.rational.z == c * velocity.z - h * position.z
        &&& direction.radical@ == position
        &&& direction.denominator == c * s
    }
}

/// The coefficients of the quadratic in the time of impact, over the reals:
/// a quarter of the discriminant is `h² − a·c` there too.
proof fn lemma_cast_discriminant(position: IntVector3, velocity: IntVector3, speed: int)
    ensures
        quarter_discriminant(position, velocity, speed) as real == (half_linear(
            position,
            velocity,
        ) as real) * (half_linear(position, velocity) as real) - (leading(velocity, speed) as real)
            * (position.norm_squared() as real),
{
    lemma_cast_product(half_linear(position, velocity), half_linear(position, velocity));
    lemma_cast_product(leading(velocity, speed), position.norm_squared());
}

/// The root that is written down is the earliest time of impact.
proof fn lemma_chosen_root(
    position: IntVector3,
    velocity: IntVector3,
    speed: int,
    time: Surd,
    root: real,
)
    requires
        leading(velocity, speed) != 0,
        has_future_root(position, velocity, speed),
        is_chosen_root(position, velocity, speed, time),
        is_sqrt(root, time.radicand as real),
    ensures
        (leading(velocity, speed) as real) * time.value(root) == -(half_linear(
            position,
            velocity,
        ) as real) - root,
        is_earliest_intercept(position, velocity, speed, time.value(root)),
        time.value(root) == 0real <==> position.norm_squared() == 0,
{
    let a = leading(velocity, speed) as real;
    let h = half_linear(position, velocity) as real;
    let c = position.norm_squared() as real;
    let t = time.value(root);
    lemma_cast_discriminant(position, velocity, speed);
    lemma_norm_squared(position, velocity);
    let n = time.rational as real + time.radical as real * root;
    if leading(velocity, speed) > 0 {
        assert(time.radical as real * root == -root) by (nonlinear_arith)
            requires
                time.radical == -1,
        ;
        lemma_quotient(n, a);
    } else {
        assert(time.radical as real * root == root) by (nonlinear_arith)
            requires
                time.radical == 1,
        ;
        lemma_quotient(n, -a);
        assert(a * (n / (-a)) == -((-a) * (n / (-a)))) by (nonlinear_arith);
    }
    assert(a * t == -h - root);
    lemma_root(a, h, c, root, t);
    lemma_root_nonnegative(a, h, c, root, t);
    lemma_root_zero(a, h, c, root, t);
    lemma_intercepts_at_roots(position, velocity, speed, t);
    assert forall|u: real|
        u >= 0real && #[trigger] intercepts(position, velocity, speed, u) implies t <= u by {
        lemma_intercepts_at_roots(position, velocity, speed, u);
        lemma_root_earliest(a, h, c, root, t, u);
    }
}

/// The direction that is written down is the unit vector toward the place
/// of impact.
proof fn lemma_chosen_heading(
    position: IntVector3,
    velocity: IntVector3,
    speed: int,
    direction: SurdVector3,
    root: real,
    t: real,
)
    requires
        leading(velocity, speed) != 0,
        is_sqrt(root, quarter_discriminant(position, velocity, speed) as real),
        (leading(velocity, speed) as real) * t == -(half_linear(position, velocity) as real) - root,
        t >= 0real,
        intercepts(position, velocity, speed, t),
        t == 0real <==> position.norm_squared() == 0,
        is_chosen_heading(position, velocity, speed, direction),
    ensures
        direction.value(root).is_unit_toward(aim_point(position, velocity, t)),
{
    let a = leading(velocity, speed) as real;
    let h = half_linear(position, velocity) as real;
    let c = position.norm_squared() as real;
    let magnitude = if speed < 0 { -speed } else { speed };
    let s = magnitude as real;
    let p = position.to_real();
    let v = velocity.to_real();
    let aim = aim_point(position, velocity, t);
    let d = direction.value(root);
    lemma_norm_squared(position, velocity);
    lemma_cast_discriminant(position, velocity, speed);
    if position.norm_squared() == 0 || magnitude == 0 {
        lemma_zero_quotient(root, 1real);
        assert(d == RealVector3::zero());
        if position.norm_squared() == 0 {
            assert(v.x * t == 0real && v.y * t == 0real && v.z * t == 0real) by (nonlinear_arith)
                requires
                    t == 0real,
            ;
        } else {
            assert((speed as real * t) * (speed as real * t) == 0real) by (nonlinear_arith)
                requires
                    speed == 0,
            ;
            lemma_zero_norm(aim);
        }
        assert(aim == RealVector3::zero());
    } else {
        let k = s * t;
        assert(k > 0real) by (nonlinear_arith)
            requires
                k == s * t,
                s > 0real,
                t > 0real,
        ;
        assert(k * k > 0real) by (nonlinear_arith)
            requires
                k > 0real,
        ;
        assert(k * k == (speed as real * t) * (speed as real * t)) by (nonlinear_arith)
            requires
                k == s * t,
                s == speed as real || s == -(speed as real),
        ;
        lemma_cast_product(position.norm_squared(), magnitude);
        lemma_cast_product(position.norm_squared(), velocity.x);
        lemma_cast_product(position.norm_squared(), velocity.y);
        lemma_cast_product(position.norm_squared(), velocity.z);
        lemma_cast_product(half_linear(position, velocity), position.x);
        lemma_cast_product(half_linear(position, velocity), position.y);
        lemma_cast_product(half_linear(position, velocity), position.z);
        lemma_point_at_root(a, h, c, root, t, s, p.x, v.x);
        lemma_point_at_root(a, h, c, root, t, s, p.y, v.y);
        lemma_point_at_root(a, h, c, root, t, s, p.z, v.z);
        assert(aim.x == k * d.x);
        assert(aim.y == k * d.y);
        assert(aim.z == k * d.z);
        lemma_unit_length((aim.x, aim.y, aim.z), (d.x, d.y, d.z), k);
        assert(aim == d.scaled(k));
        if aim == RealVector3::zero() {
            assert(aim.x * aim.x + aim.y * aim.y + aim.z * aim.z == 0real) by (nonlinear_arith)
                requires
                    aim.x == 0real,
                    aim.y == 0real,
                    aim.z == 0real,
            ;
        }
    }
}

/// Whether `direction` is written as `p·√c / c`, with `c` the squared
/// length of `p`; or as the zero vector, where `c` is zero.
spec fn is_present_heading(position: IntVector3, direction: SurdVector3) -> bool {
    let c = position.norm_squared();
    &&& direction.radicand == c
    &&& if c == 0 {
        is_zero_heading(direction)
    } else {
        &&& direction.rational@ == (IntVector3 { x: 0, y: 0, z: 0 })
        &&& direction.radical@ == position
        &&& direction.denominator == c
    }
}

/// With `r` the square root of `c`, `r` times `p·r / c` is `p`.
proof fn lemma_over_length(p: real, r: real, c: real)
    requires
        r * r == c,
        c > 0real,
    ensures
        p == r * ((0real + p * r) / c),
{
    let q = (0real + p * r) / c;
    lemma_quotient(0real + p * r, c);
    assert(c * (r * q) == c * p) by (nonlinear_arith)
        requires
            c * q == 0real + p * r,
            r * r == c,
    ;
    assert(r * q == p) by (nonlinear_arith)
        requires
            c * (r * q) == c * p,
            c > 0real,
    ;
}

/// The direction that is written down is the unit vector toward where the
/// target is now.
proof fn lemma_present_heading(
    position: IntVector3,
    velocity: IntVector3,
    direction: SurdVector3,
    root: real,
)
    requires
        is_present_heading(position, direction),
        is_sqrt(root, direction.radicand as real),
    ensures
        direction.value(root).is_unit_toward(aim_point(position, velocity, 0real)),
{
    let c = position.norm_squared() as real;
    let p = position.to_real();
    let v = velocity.to_real();
    let aim = aim_point(position, velocity, 0real);
    let d = direction.value(root);
    assert(v.x * 0real == 0real && v.y * 0real == 0real && v.z * 0real == 0real)
        by (nonlinear_arith);
    assert(aim == p);
    lemma_norm_squared(position, velocity);
    lemma_cast_dot(position, position);
    if position.norm_squared() == 0 {
        lemma_zero_quotient(root, 1real);
        assert(d == RealVector3::zero());
        assert(aim == RealVector3::zero());
    } else {
        lemma_sqrt_positive(root, c);
        lemma_over_length(p.x, root, c);
        lemma_over_length(p.y, root, c);
        lemma_over_length(p.z, root, c);
        lemma_unit_length((aim.x, aim.y, aim.z), (d.x, d.y, d.z), root);
        assert(aim == d.scaled(root));
        if aim == RealVector3::zero() {
            assert(aim.x * aim.x + aim.y * aim.y + aim.z * aim.z == 0real) by (nonlinear_arith)
                requires
                    aim.x == 0real,
                    aim.y == 0real,
                    aim.z == 0real,
            ;
        }
    }
}

/// Where the quadratic in the time of impact has no root that is not
/// negative, the projectile cannot meet the target, now or later.
pub proof fn lemma_no_intercept(position: IntVector3, velocity: IntVector3, speed: int, t: real)
    requires
        !has_future_root(position, velocity, speed),
        t >= 0real,
    ensures
        !intercepts(position, velocity, speed, t),
{
    let a = leading(velocity, speed) as real;
    let h = half_linear(position, velocity) as real;
    let c = position.norm_squared() as real;
    lemma_cast_discriminant(position, velocity, speed);
    lemma_norm_squared(position, velocity);
    lemma_intercepts_at_roots(position, velocity, speed, t);
    if quarter_discriminant(position, velocity, speed) < 0 {
        lemma_no_root(a, h, c, t);
    } else {
        lemma_no_future_root(a, h, c, t);
    }
}

/// The zero vector, written as a surd vector with the given radicand.
fn zero_heading(radicand: i128) -> (result: SurdVector3)
    ensures
        is_zero_heading(result),
        result.radicand == radicand,
{
    let zero = WideVector3 { x: 0, y: 0, z: 0 };
    SurdVector3 { rational: zero, radical: zero, radicand, denominator: 1 }
}

/// Solves for the direction in which to launch a projectile that flies at
/// `speed`, and for the time of impact, from coordinates in thousandths.
fn solve(position: &WideVector3, velocity: &WideVector3, speed: i128) -> (result: Option<
    (SurdVector3, Surd),
>)
    requires
        position@.within(LIMIT as int),
        velocity@.within(2 * LIMIT),
        -LIMIT <= speed <= LIMIT,
    ensures
        result is Some <==> can_aim(position@, velocity@, speed as int),
        result matches Some((direction, time)) ==> is_aim(
            position@,
            velocity@,
            speed as int,
            direction,
            time,
        ),
        result is None ==> forall|t: real|
            t >= 0real ==> !#[trigger] intercepts(position@, velocity@, speed as int, t),
{
    let ghost limit = LIMIT as int;
    proof {
        assert(limit * limit == 0x1000_0000_0000_0000 && limit * (2 * limit) == 2 * (limit * limit)
            && (2 * limit) * (2 * limit) == 4 * (limit * limit)) by (nonlinear_arith)
            requires
                limit == 0x4000_0000,
        ;
        lemma_norm_squared(position@, velocity@);
        lemma_norm_squared(velocity@, velocity@);
        lemma_dot_bound(position@, position@, limit, limit);
        lemma_dot_bound(position@, velocity@, limit, 2 * limit);
        lemma_dot_bound(velocity@, velocity@, 2 * limit, 2 * limit);
        lemma_product_bound(speed as int, speed as int, limit, limit);
        assert(speed * speed >= 0) by (nonlinear_arith);
    }
    let c: i128 = position.dot(position);
    let h: i128 = position.dot(velocity);
    let a: i128 = velocity.dot(velocity) - speed * speed;
    if -EQUAL_SPEEDS < a && a < EQUAL_SPEEDS {
        let direction = if c == 0 {
            zero_heading(c)
        } else {
            SurdVector3 {
                rational: WideVector3 { x: 0, y: 0, z: 0 },
                radical: *position,
                radicand: c,
                denominator: c,
            }
        };
        let time = Surd { rational: 0, radical: 0, radicand: 0, denominator: 1 };
        proof {
            assert forall|direction_root: real, time_root: real|
                #[trigger] is_sqrt(direction_root, direction.radicand as real)
                    && #[trigger] is_sqrt(time_root, time.radicand as real) implies time.value(time_root) == 0real && direction.value(
                direction_root,
            ).is_unit_toward(aim_point(position@, velocity@, time.value(time_root))) by {
                lemma_zero_quotient(time_root, 1real);
                lemma_present_heading(position@, velocity@, direction, direction_root);
            }
        }
        return Some((direction, time));
    }
    proof {
        lemma_product_bound(h as int, h as int, 6 * (limit * limit), 6 * (limit * limit));
        lemma_product_bound(a as int, c as int, 12 * (limit * limit), 3 * (limit * limit));
    }
    let quarter: i128 = h * h - a * c;
    if quarter < 0 || (a > 0 && h > 0) {
        proof {
            assert forall|t: real| t >= 0real implies !#[trigger] intercepts(
                position@,
                velocity@,
                speed as int,
                t,
            ) by {
                lemma_no_intercept(position@, velocity@, speed as int, t);
            }
        }
        return None;
    }
    let time = if a > 0 {
        Surd { rational: -h, radical: -1, radicand: quarter, denominator: a }
    } else {
        Surd { rational: h, radical: 1, radicand: quarter, denominator: -a }
    };
    let magnitude: i128 = if speed < 0 {
        -speed
    } else {
        speed
    };
    let direction = if c == 0 || magnitude == 0 {
        zero_heading(quarter)
    } else {
        proof {
            lemma_product_bound(c as int, velocity.x as int, 3 * (limit * limit), 2 * limit);
            lemma_product_bound(c as int, velocity.y as int, 3 * (limit * limit), 2 * limit);
            lemma_product_bound(c as int, velocity.z as int, 3 * (limit * limit), 2 * limit);
            lemma_product_bound(h as int, position.x as int, 6 * (limit * limit), limit);
            lemma_product_bound(h as int, position.y as int, 6 * (limit * limit), limit);
            lemma_product_bound(h as int, position.z as int, 6 * (limit * limit), limit);
            lemma_product_bound(c as int, magnitude as int, 3 * (limit * limit), limit);
            assert(c * magnitude > 0) by (nonlinear_arith)
                requires
                    c > 0,
                    magnitude > 0,
            ;
        }
        SurdVector3 {
            rational: WideVector3 {
                x: c * velocity.x - h * position.x,
                y: c * velocity.y - h * position.y,
                z: c * velocity.z - h * position.z,
            },
            radical: *position,
            radicand: quarter,
            denominator: c * magnitude,
        }
    };
    proof {
        assert forall|direction_root: real, time_root: real|
            #[trigger] is_sqrt(direction_root, direction.radicand as real) && #[trigger] is_sqrt(
                time_root,
                time.radicand as real,
            ) implies is_earliest_intercept(
            position@,
            velocity@,
            speed as int,
            time.value(time_root),
        ) && direction.value(direction_root).is_unit_toward(
            aim_point(position@, velocity@, time.value(time_root)),
        ) by {
            lemma_sqrt_unique(direction_root, time_root, quarter as real);
            lemma_chosen_root(position@, velocity@, speed as int, time, time_root);
            lemma_chosen_heading(
                position@,
                velocity@,
                speed as int,
                direction,
                direction_root,
                time.value(time_root),
            );
        }
    }
    Some((direction, time))
}

/// The direction in which to launch a projectile that flies at `speed`, so
/// that it hits `target`, and the time of impact.
///
/// Where the speeds of target and projectile match, the answer aims at
/// where the target is now, with time zero. Otherwise it aims at where the
/// target is at the earliest time at which the projectile can meet it, and
/// there is no answer where it never can.
pub fn linear_aim(target: &Target, speed: Scalar) -> (result: Option<(SurdVector3, Surd)>)
    ensures
        result is Some <==> can_aim(target.position@, target.velocity@, speed@),
        result matches Some((direction, time)) ==> is_aim(
            target.position@,
            target.velocity@,
            speed@,
            direction,
            time,
        ),
        result is None ==> forall|t: real|
            t >= 0real ==> !#[trigger] intercepts(target.position@, target.velocity@, speed@, t),
{
    let position = target.position.widen();
    let velocity = target.velocity.widen();
    let speed: i32 = speed.thousandths();
    solve(&position, &velocity, speed as i128)
}

/// A change of velocity, in thousandths: the vector
/// `heading·√speed_squared − current`, which turns the velocity `current`
/// into the direction `heading` and keeps its magnitude.
#[derive(Clone, Copy, Debug, PartialEq, Eq)]
pub struct VelocityChange {
    pub heading: SurdVector3,
    pub speed_squared: i128,
    pub current: Vector3,
}

impl VelocityChange {
    /// The velocity after the change, given the square roots of the
    /// heading's radicand and of the speed squared.
    pub open spec fn goal(self, heading_root: real, speed_root: real) -> RealVector3 {
        self.heading.value(heading_root).scaled(speed_root)
    }

    /// The change's value, given the square roots of the heading's radicand
    /// and of the speed squared.
    pub open spec fn value(self, heading_root: real, speed_root: real) -> RealVector3 {
        let goal = self.goal(heading_root, speed_root);
        RealVector3 {
            x: goal.x - self.current@.x as real,
            y: goal.y - self.current@.y as real,
            z: goal.z - self.current@.z as real,
        }
    }
}

/// The change of velocity that steers a projectile in flight toward
/// `target`, and the time of impact.
///
/// The target's velocity is relative to the projectile's, so the sum of it
/// and `current_velocity` is the velocity of the target itself. Against a
/// target that moves so, the projectile is aimed as one that flies at
/// `average_speed`. The change turns `current_velocity` into that direction
/// and keeps its magnitude. There is no answer exactly where there is no
/// such aim.
pub fn linear_steer(target: &Target, current_velocity: &Vector3, average_speed: Scalar) -> (result:
    Option<(VelocityChange, Surd)>)
    ensures
        result is Some <==> can_aim(
            target.position@,
            target.velocity@.plus(current_velocity@),
            average_speed@,
        ),
        result matches Some((change, time)) ==> {
            &&& is_aim(
                target.position@,
                target.velocity@.plus(current_velocity@),
                average_speed@,
                change.heading,
                time,
            )
            &&& change.speed_squared == current_velocity@.norm_squared()
            &&& change.current == *current_velocity
        },
        result is None ==> forall|t: real|
            t >= 0real ==> !#[trigger] intercepts(
                target.position@,
                target.velocity@.plus(current_velocity@),
                average_speed@,
                t,
            ),
{
    let position = target.position.widen();
    let relative = target.velocity.widen();
    let current = current_velocity.widen();
    let velocity = WideVector3 {
        x: relative.x + current.x,
        y: relative.y + current.y,
        z: relative.z + current.z,
    };
    let speed_squared: i128 = current.dot(&current);
    let speed: i32 = average_speed.thousandths();
    match solve(&position, &velocity, speed as i128) {
        Some((heading, time)) => {
            let change = VelocityChange { heading, speed_squared, current: *current_velocity };
            Some((change, time))
        },
        None => None,
    }
}

} // verus!
