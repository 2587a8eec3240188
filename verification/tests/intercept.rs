use guidance::{linear_aim, linear_steer, Scalar, Surd, SurdVector3, Target, Vector3, VelocityChange};

fn fixed(units: f64) -> Scalar {
    Scalar::new((units * 1000.0).round() as i32).unwrap()
}

fn fixed_vector(units: [f64; 3]) -> Vector3 {
    Vector3::new(fixed(units[0]), fixed(units[1]), fixed(units[2]))
}

fn seen(position: [f64; 3], velocity: [f64; 3]) -> Target {
    Target { position: fixed_vector(position), velocity: fixed_vector(velocity) }
}

fn time_of(t: &Surd) -> f64 {
    assert!(t.radicand >= 0 && t.denominator > 0);
    (t.rational as f64 + t.radical as f64 * (t.radicand as f64).sqrt()) / t.denominator as f64
}

fn direction_of(d: &SurdVector3) -> [f64; 3] {
    assert!(d.radicand >= 0 && d.denominator > 0);
    let root = (d.radicand as f64).sqrt();
    let den = d.denominator as f64;
    [
        (d.rational.x as f64 + d.radical.x as f64 * root) / den,
        (d.rational.y as f64 + d.radical.y as f64 * root) / den,
        (d.rational.z as f64 + d.radical.z as f64 * root) / den,
    ]
}

/// The change of velocity in units.
fn change_of(c: &VelocityChange) -> [f64; 3] {
    assert!(c.speed_squared >= 0);
    let heading = direction_of(&c.heading);
    let speed = (c.speed_squared as f64).sqrt();
    [
        (heading[0] * speed - c.current.x.thousandths() as f64) / 1000.0,
        (heading[1] * speed - c.current.y.thousandths() as f64) / 1000.0,
        (heading[2] * speed - c.current.z.thousandths() as f64) / 1000.0,
    ]
}

fn inner(a: [f64; 3], b: [f64; 3]) -> f64 {
    a[0] * b[0] + a[1] * b[1] + a[2] * b[2]
}

fn length(a: [f64; 3]) -> f64 {
    inner(a, a).sqrt()
}

fn along(position: [f64; 3], velocity: [f64; 3], t: f64) -> [f64; 3] {
    [position[0] + velocity[0] * t, position[1] + velocity[1] * t, position[2] + velocity[2] * t]
}

fn close(a: [f64; 3], b: [f64; 3], tolerance: f64) -> bool {
    (0..3).all(|i| (a[i] - b[i]).abs() < tolerance)
}

/// How near a point that starts at `position` and moves at `velocity` comes
/// to the origin, from now on.
fn nearest(position: [f64; 3], velocity: [f64; 3]) -> f64 {
    let speed_squared = inner(velocity, velocity);
    let t = if speed_squared > 0.0 { (-inner(position, velocity) / speed_squared).max(0.0) } else { 0.0 };
    length(along(position, velocity, t))
}

/// Checks an aim against the geometry it has to satisfy, and returns it.
fn checked_aim(position: [f64; 3], velocity: [f64; 3], speed: f64) -> ([f64; 3], f64) {
    let (direction, time) = linear_aim(&seen(position, velocity), fixed(speed)).unwrap();
    let d = direction_of(&direction);
    let t = time_of(&time);
    let place = along(position, velocity, t);
    assert!(t >= 0.0);
    assert!((length(d) - 1.0).abs() < 1e-9);
    // the place of impact lies along the direction
    let cross = [
        d[1] * place[2] - d[2] * place[1],
        d[2] * place[0] - d[0] * place[2],
        d[0] * place[1] - d[1] * place[0],
    ];
    assert!(length(cross) < 1e-9 * (1.0 + length(place)));
    assert!(inner(d, place) > 0.0);
    // the projectile is there at that time
    let flown = [speed * t * d[0], speed * t * d[1], speed * t * d[2]];
    assert!(close(flown, place, 1e-9 * (1.0 + length(place))));
    (d, t)
}

#[test]
fn aim_head_on() {
    let (direction, time) = linear_aim(&seen([0.0, 0.0, -10.0], [0.0, 0.0, 1.0]), fixed(2.0)).unwrap();
    assert_eq!(
        time,
        Surd { rational: -10_000_000, radical: 1, radicand: 400_000_000_000_000, denominator: 3_000_000 }
    );
    assert_eq!((direction.rational.x, direction.rational.y, direction.rational.z), (0, 0, 0));
    assert_eq!((direction.radical.x, direction.radical.y, direction.radical.z), (0, 0, -10_000));
    assert_eq!(direction.radicand, 400_000_000_000_000);
    assert_eq!(direction.denominator, 200_000_000_000);
    assert!((time_of(&time) - 10.0 / 3.0).abs() < 1e-12);
    assert!(close(direction_of(&direction), [0.0, 0.0, -1.0], 1e-12));
}

#[test]
fn aim_is_a_unit_vector_toward_the_place_of_impact() {
    checked_aim([0.0, 0.0, -10.0], [0.0, 0.0, 1.0], 2.0);
    checked_aim([10.0, 3.0, 0.0], [-2.0, 0.0, 0.0], 1.0);
    checked_aim([10.0, 3.0, 0.0], [-2.0, 0.0, 0.0], 5.0);
    checked_aim([-7.5, 2.25, 4.0], [0.3, -0.2, 0.1], 1.5);
    checked_aim([100.0, -250.0, 30.0], [12.0, 4.0, -3.0], 40.0);
    checked_aim([0.001, 0.0, 0.0], [0.0, 0.001, 0.0], 0.05);
}

#[test]
fn aim_at_a_target_at_rest() {
    let (d, t) = checked_aim([3.0, 4.0, 0.0], [0.0, 0.0, 0.0], 2.0);
    assert!((t - 2.5).abs() < 1e-12);
    assert!(close(d, [0.6, 0.8, 0.0], 1e-12));
}

#[test]
fn aim_takes_the_earlier_of_two_future_roots() {
    // the target outruns the projectile and comes toward it: both roots are
    // in the future
    let position = [10.0, 3.0, 0.0];
    let velocity = [-2.0, 0.0, 0.0];
    let (_, t) = checked_aim(position, velocity, 1.0);
    let early = (20.0 - 73.0f64.sqrt()) / 3.0;
    let late = (20.0 + 73.0f64.sqrt()) / 3.0;
    assert!((t - early).abs() < 1e-12);
    assert!(t < late);
}

#[test]
fn aim_with_a_repeated_root() {
    let (direction, time) =
        linear_aim(&seen([3.0, 4.0, 0.0], [-5.0, 0.0, 0.0]), fixed(4.0)).unwrap();
    assert_eq!(time, Surd { rational: 15_000_000, radical: -1, radicand: 0, denominator: 9_000_000 });
    assert_eq!(direction.radicand, 0);
    assert!((time_of(&time) - 5.0 / 3.0).abs() < 1e-12);
    assert!(close(direction_of(&direction), [-0.8, 0.6, 0.0], 1e-12));
    checked_aim([3.0, 4.0, 0.0], [-5.0, 0.0, 0.0], 4.0);
}

#[test]
fn no_aim_when_both_roots_are_negative() {
    // the roots are -2.5 and -5
    assert!(linear_aim(&seen([0.0, 0.0, 10.0], [0.0, 0.0, 3.0]), fixed(1.0)).is_none());
    assert!(linear_aim(&seen([10.0, 3.0, 0.0], [2.0, 0.0, 0.0]), fixed(1.0)).is_none());
}

#[test]
fn no_aim_when_the_discriminant_is_negative() {
    assert!(linear_aim(&seen([10.0, 0.0, 0.0], [0.0, 5.0, 0.0]), fixed(1.0)).is_none());
    assert!(linear_aim(&seen([10.0, 3.0, 0.0], [-2.0, 0.0, 0.0]), fixed(0.5)).is_none());
}

#[test]
fn equal_speeds_aim_at_where_the_target_is() {
    let (direction, time) =
        linear_aim(&seen([3.0, 4.0, 0.0], [0.0, 0.0, 2.0]), fixed(2.0)).unwrap();
    assert_eq!(time, Surd { rational: 0, radical: 0, radicand: 0, denominator: 1 });
    assert_eq!((direction.rational.x, direction.rational.y, direction.rational.z), (0, 0, 0));
    assert_eq!((direction.radical.x, direction.radical.y, direction.radical.z), (3000, 4000, 0));
    assert_eq!(direction.radicand, 25_000_000);
    assert_eq!(direction.denominator, 25_000_000);
    assert_eq!(time_of(&time), 0.0);
    assert!(close(direction_of(&direction), [0.6, 0.8, 0.0], 1e-12));
}

#[test]
fn speeds_match_below_a_thousandth() {
    // the leading coefficient is 0.000997: the target is aimed at where it is
    let (_, time) = linear_aim(&seen([-3.0, -1.0, 0.0], [0.03, 0.009, 0.004]), fixed(0.0)).unwrap();
    assert_eq!(time_of(&time), 0.0);
    // the leading coefficient is 0.001: the quadratic is solved
    let (direction, time) =
        linear_aim(&seen([-3.0, -1.0, 0.0], [0.03, 0.01, 0.0]), fixed(0.0)).unwrap();
    assert_eq!(time, Surd { rational: 100_000, radical: -1, radicand: 0, denominator: 1000 });
    assert_eq!(time_of(&time), 100.0);
    // the target flies through the origin, toward which no direction points
    assert_eq!(direction_of(&direction), [0.0, 0.0, 0.0]);
    // the leading coefficient is -0.000999: the target is aimed at where it is
    let (direction, time) =
        linear_aim(&seen([5.0, 0.0, 0.0], [0.005, 0.0, 0.0]), fixed(0.032)).unwrap();
    assert_eq!(time_of(&time), 0.0);
    assert!(close(direction_of(&direction), [1.0, 0.0, 0.0], 1e-12));
    // the leading coefficient is -0.001: the quadratic is solved
    let (direction, time) =
        linear_aim(&seen([5.0, 0.0, 0.0], [0.015, 0.0, 0.0]), fixed(0.035)).unwrap();
    assert_eq!(
        time,
        Surd { rational: 75_000, radical: 1, radicand: 30_625_000_000, denominator: 1000 }
    );
    assert_eq!(time_of(&time), 250.0);
    assert!(close(direction_of(&direction), [1.0, 0.0, 0.0], 1e-12));
}

#[test]
fn aim_at_zero_range() {
    let (direction, time) = linear_aim(&seen([0.0, 0.0, 0.0], [1.0, 2.0, 3.0]), fixed(5.0)).unwrap();
    assert_eq!(time_of(&time), 0.0);
    assert_eq!(direction_of(&direction), [0.0, 0.0, 0.0]);
    let (direction, time) = linear_aim(&seen([0.0, 0.0, 0.0], [0.0, 0.0, 5.0]), fixed(5.0)).unwrap();
    assert_eq!(time_of(&time), 0.0);
    assert_eq!(direction_of(&direction), [0.0, 0.0, 0.0]);
}

#[test]
fn aim_does_not_depend_on_the_sign_of_the_speed() {
    let target = seen([10.0, 3.0, 0.0], [-2.0, 0.0, 0.0]);
    assert_eq!(linear_aim(&target, fixed(5.0)), linear_aim(&target, fixed(-5.0)));
    assert!(linear_aim(&target, fixed(-0.5)).is_none());
}

#[test]
fn aim_at_the_limit_of_the_coordinates() {
    let most = Scalar::new(0x4000_0000).unwrap();
    let least = Scalar::new(-0x4000_0000).unwrap();
    let target = Target {
        position: Vector3::new(most, most, most),
        velocity: Vector3::new(least, least, least),
    };
    let (direction, time) = linear_aim(&target, most).unwrap();
    assert_eq!(time.radicand, 3 * (1i128 << 120));
    assert_eq!(time.denominator, 2 * (1i128 << 60));
    assert!((time_of(&time) - (3.0 - 3.0f64.sqrt()) / 2.0).abs() < 1e-12);
    let third = 1.0 / 3.0f64.sqrt();
    assert!(close(direction_of(&direction), [third, third, third], 1e-12));
    assert!(linear_aim(&target, Scalar::new(0).unwrap()).is_some());
    let away = Target { position: target.position, velocity: target.position };
    assert!(linear_aim(&away, Scalar::new(1).unwrap()).is_none());
}

#[test]
fn steer_onto_the_intercept_course() {
    // the target flies at (-2, 0, 0), the projectile at (0, 1, 0)
    let position = [10.0, 3.0, 0.0];
    let current = [0.0, 1.0, 0.0];
    let relative = [-2.0, -1.0, 0.0];
    let (change, time) =
        linear_steer(&seen(position, relative), &fixed_vector(current), fixed(1.0)).unwrap();
    assert_eq!(change.speed_squared, 1_000_000);
    assert_eq!(change.current, fixed_vector(current));
    let (direction, aimed) = linear_aim(&seen(position, [-2.0, 0.0, 0.0]), fixed(1.0)).unwrap();
    assert_eq!(change.heading, direction);
    assert_eq!(time, aimed);
    let t = time_of(&time);
    assert!((t - (20.0 - 73.0f64.sqrt()) / 3.0).abs() < 1e-12);
    let delta = change_of(&change);
    let heading = direction_of(&direction);
    assert!(close(delta, [heading[0], heading[1] - 1.0, heading[2]], 1e-12));
    // the speed stays what it was
    let steered = [current[0] + delta[0], current[1] + delta[1], current[2] + delta[2]];
    assert!((length(steered) - 1.0).abs() < 1e-12);
    // the steered projectile is where the target is at the time of impact
    let place = along(position, [-2.0, 0.0, 0.0], t);
    assert!(close(along([0.0; 3], steered, t), place, 1e-9));
}

#[test]
fn steering_reduces_the_miss_distance() {
    let cases = [
        ([10.0, 3.0, 0.0], [-2.0, 0.0, 0.0], [0.0, 1.0, 0.0]),
        ([0.0, -1.0, -10.0], [0.0, 1.0, 1.1], [0.0, 0.0, -1.0]),
        ([50.0, 20.0, -5.0], [-3.0, 1.0, 0.5], [4.0, 0.0, 0.0]),
        ([10.0, 3.0, 0.0], [-0.25, 0.0, 0.0], [0.6, -0.8, 0.0]),
    ];
    for (position, target_velocity, current) in cases {
        let relative = [
            target_velocity[0] - current[0],
            target_velocity[1] - current[1],
            target_velocity[2] - current[2],
        ];
        let speed = length(current);
        let before = nearest(position, relative);
        let (change, _) =
            linear_steer(&seen(position, relative), &fixed_vector(current), fixed(speed)).unwrap();
        let delta = change_of(&change);
        let steered = [current[0] + delta[0], current[1] + delta[1], current[2] + delta[2]];
        let relative = [
            target_velocity[0] - steered[0],
            target_velocity[1] - steered[1],
            target_velocity[2] - steered[2],
        ];
        let after = nearest(position, relative);
        assert!(before > 0.1);
        assert!(after < 1e-6);
        // aimed again from rest in its own frame, the steered projectile
        // has nothing left to correct
        let (direction, time) = linear_aim(&seen(position, target_velocity), fixed(speed)).unwrap();
        let d = direction_of(&direction);
        assert!(close(steered, [speed * d[0], speed * d[1], speed * d[2]], 1e-9));
        assert!(close(along([0.0; 3], steered, time_of(&time)), along(position, target_velocity, time_of(&time)), 1e-6));
    }
}

#[test]
fn no_steering_where_there_is_no_aim() {
    let current = fixed_vector([0.0, 0.5, 0.0]);
    // against the target's own velocity (-2, 0, 0) a projectile at 0.5 has no aim
    assert!(linear_steer(&seen([10.0, 3.0, 0.0], [-2.0, -0.5, 0.0]), &current, fixed(0.5)).is_none());
    // the target's own velocity is (0, 0, 3): it recedes faster than the projectile flies
    let current = fixed_vector([0.0, 0.0, 1.0]);
    assert!(linear_steer(&seen([0.0, 0.0, 10.0], [0.0, 0.0, 2.0]), &current, fixed(1.0)).is_none());
}

#[test]
fn steer_at_the_limit_of_the_coordinates() {
    let most = Scalar::new(0x4000_0000).unwrap();
    let least = Scalar::new(-0x4000_0000).unwrap();
    let target = Target {
        position: Vector3::new(most, most, most),
        velocity: Vector3::new(least, least, least),
    };
    let current = Vector3::new(least, least, least);
    let (change, time) = linear_steer(&target, &current, most).unwrap();
    assert_eq!(change.speed_squared, 3 * (1i128 << 60));
    // the leading coefficient is 11 * 2^60, half the linear one -6 * 2^60
    assert_eq!(time.radicand, 3 * (1i128 << 120));
    assert_eq!(time.denominator, 11 * (1i128 << 60));
    assert!((time_of(&time) - (6.0 - 3.0f64.sqrt()) / 11.0).abs() < 1e-12);
    let third = 1.0 / 3.0f64.sqrt();
    assert!(close(direction_of(&change.heading), [third, third, third], 1e-12));
}
