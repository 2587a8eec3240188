//! What holds of every aim and of every steering correction.

use vstd::prelude::*;
use crate::intercept::{
    aim_point, can_aim, intercepts, is_aim, lemma_no_intercept, speeds_match, VelocityChange,
};
use crate::quadratic::{is_sqrt, lemma_sqrt_unique};
use crate::surd::{Surd, SurdVector3};
use crate::vector::{
    lemma_cast_product, lemma_multiples_parallel, lemma_parallel, lemma_scaled_unit,
    lemma_unit_toward_unique, IntVector3, RealVector3,
};

verus! {

/// Where the projectile can meet the target at some time from now on, there
/// is a direction to aim in.
pub proof fn lemma_reachable_has_aim(
    position: IntVector3,
    velocity: IntVector3,
    speed: int,
    t: real,
)
    requires
        t >= 0real,
        intercepts(position, velocity, speed, t),
    ensures
        can_aim(position, velocity, speed),
{
    if !can_aim(position, velocity, speed) {
        lemma_no_intercept(position, velocity, speed, t);
    }
}

/// The direction of an aim is a unit vector, the time of impact is not
/// negative, and the place of impact lies along the direction: the two are
/// parallel and point the same way. This holds wherever the place of impact
/// is not the origin itself, toward which no direction points.
pub proof fn lemma_aim_is_unit(
    position: IntVector3,
    velocity: IntVector3,
    speed: int,
    direction: SurdVector3,
    time: Surd,
    direction_root: real,
    time_root: real,
)
    requires
        is_aim(position, velocity, speed, direction, time),
        is_sqrt(direction_root, direction.radicand as real),
        is_sqrt(time_root, time.radicand as real),
        aim_point(position, velocity, time.value(time_root)) != RealVector3::zero(),
    ensures
        direction.value(direction_root).norm_squared() == 1real,
        time.value(time_root) >= 0real,
        direction.value(direction_root).cross(aim_point(position, velocity, time.value(time_root)))
            == RealVector3::zero(),
        direction.value(direction_root).dot(aim_point(position, velocity, time.value(time_root)))
            > 0real,
{
    let d = direction.value(direction_root);
    let aim = aim_point(position, velocity, time.value(time_root));
    assert(d.is_unit_toward(aim));
    let length = choose|length: real| length > 0real && aim == #[trigger] d.scaled(length);
    lemma_parallel(d, length);
    lemma_scaled_unit(d, length);
}

/// There is only one aim: any two times of impact, and any two directions,
/// that are the aim at one target at one speed have the same values.
pub proof fn lemma_aim_unique(
    position: IntVector3,
    velocity: IntVector3,
    speed: int,
    first: (SurdVector3, Surd),
    second: (SurdVector3, Surd),
    first_roots: (real, real),
    second_roots: (real, real),
)
    requires
        is_aim(position, velocity, speed, first.0, first.1),
        is_aim(position, velocity, speed, second.0, second.1),
        is_sqrt(first_roots.0, first.0.radicand as real),
        is_sqrt(first_roots.1, first.1.radicand as real),
        is_sqrt(second_roots.0, second.0.radicand as real),
        is_sqrt(second_roots.1, second.1.radicand as real),
    ensures
        first.1.value(first_roots.1) == second.1.value(second_roots.1),
        first.0.value(first_roots.0) == second.0.value(second_roots.0),
{
    let t = first.1.value(first_roots.1);
    assert(first.0.value(first_roots.0).is_unit_toward(aim_point(position, velocity, t)));
    assert(second.0.value(second_roots.0).is_unit_toward(
        aim_point(position, velocity, second.1.value(second_roots.1)),
    ));
    lemma_unit_toward_unique(
        first.0.value(first_roots.0),
        second.0.value(second_roots.0),
        aim_point(position, velocity, t),
    );
}

/// A projectile launched along the direction of an aim, at the speed aimed
/// for, is at the time of impact where the target then is. This holds where
/// the speed is not negative and the speeds of target and projectile do not
/// match, and wherever the place of impact is the origin itself.
pub proof fn lemma_aim_hits(
    position: IntVector3,
    velocity: IntVector3,
    speed: int,
    direction: SurdVector3,
    time: Surd,
    direction_root: real,
    time_root: real,
)
    requires
        is_aim(position, velocity, speed, direction, time),
        is_sqrt(direction_root, direction.radicand as real),
        is_sqrt(time_root, time.radicand as real),
        !speeds_match(velocity, speed) && speed >= 0 || aim_point(
            position,
            velocity,
            time.value(time_root),
        ) == RealVector3::zero(),
    ensures
        direction.value(direction_root).scaled(speed as real * time.value(time_root)) == aim_point(
            position,
            velocity,
            time.value(time_root),
        ),
{
    let d = direction.value(direction_root);
    let t = time.value(time_root);
    let aim = aim_point(position, velocity, t);
    let range = speed as real * t;
    assert(d.is_unit_toward(aim));
    if aim == RealVector3::zero() {
        assert(range * 0real == 0real) by (nonlinear_arith);
    } else {
        assert(range >= 0real) by (nonlinear_arith)
            requires
                range == speed as real * t,
                speed as real >= 0real,
                t >= 0real,
        ;
        let length = choose|length: real| length > 0real && aim == #[trigger] d.scaled(length);
        lemma_scaled_unit(d, length);
        lemma_sqrt_unique(length, range, range * range);
    }
}

/// The change of velocity that steers a projectile turns it toward the
/// place of impact and keeps its speed: the velocity after the change is
/// parallel to the place of impact, and as long as the one before. This
/// holds wherever the place of impact is not the origin itself.
pub proof fn lemma_steer_turns(
    position: IntVector3,
    velocity: IntVector3,
    current: IntVector3,
    average_speed: int,
    change: VelocityChange,
    time: Surd,
    heading_root: real,
    speed_root: real,
    time_root: real,
)
    requires
        is_aim(position, velocity.plus(current), average_speed, change.heading, time),
        change.speed_squared == current.norm_squared(),
        is_sqrt(heading_root, change.heading.radicand as real),
        is_sqrt(speed_root, change.speed_squared as real),
        is_sqrt(time_root, time.radicand as real),
        aim_point(position, velocity.plus(current), time.value(time_root)) != RealVector3::zero(),
    ensures
        change.goal(heading_root, speed_root).norm_squared() == current.norm_squared() as real,
        change.goal(heading_root, speed_root).cross(
            aim_point(position, velocity.plus(current), time.value(time_root)),
        ) == RealVector3::zero(),
{
    let d = change.heading.value(heading_root);
    let aim = aim_point(position, velocity.plus(current), time.value(time_root));
    assert(d.is_unit_toward(aim));
    let length = choose|length: real| length > 0real && aim == #[trigger] d.scaled(length);
    lemma_scaled_unit(d, speed_root);
    lemma_multiples_parallel(d, speed_root, length);
}

/// A projectile that flies at its average speed and takes the change of
/// velocity that steers it is, at the time of impact, where the target then
/// is. This holds where the speeds of target and projectile do not match.
pub proof fn lemma_steer_hits(
    position: IntVector3,
    velocity: IntVector3,
    current: IntVector3,
    average_speed: int,
    change: VelocityChange,
    time: Surd,
    heading_root: real,
    speed_root: real,
    time_root: real,
)
    requires
        is_aim(position, velocity.plus(current), average_speed, change.heading, time),
        change.speed_squared == current.norm_squared(),
        !speeds_match(velocity.plus(current), average_speed),
        average_speed >= 0,
        average_speed * average_speed == current.norm_squared(),
        is_sqrt(heading_root, change.heading.radicand as real),
        is_sqrt(speed_root, change.speed_squared as real),
        is_sqrt(time_root, time.radicand as real),
    ensures
        change.goal(heading_root, speed_root).scaled(time.value(time_root)) == aim_point(
            position,
            velocity.plus(current),
            time.value(time_root),
        ),
{
    let d = change.heading.value(heading_root);
    let t = time.value(time_root);
    let s = average_speed as real;
    lemma_cast_product(average_speed, average_speed);
    lemma_sqrt_unique(speed_root, s, change.speed_squared as real);
    lemma_aim_hits(
        position,
        velocity.plus(current),
        average_speed,
        change.heading,
        time,
        heading_root,
        time_root,
    );
    assert(t * (s * d.x) == (s * t) * d.x) by (nonlinear_arith);
    assert(t * (s * d.y) == (s * t) * d.y) by (nonlinear_arith);
    assert(t * (s * d.z) == (s * t) * d.z) by (nonlinear_arith);
}

} // verus!
