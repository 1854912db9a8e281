use std::f64::consts::PI;

use slamwich::float::double::F64;
use slamwich::linear::Vec2;
use slamwich::transforms::{angle_diff, normalize_angle, Rotation2, Transform2D};
use slamwich::types::Pose;

fn d(x: f64) -> F64 {
    F64::from_bits(x.to_bits())
}

fn v(x: F64) -> f64 {
    f64::from_bits(x.to_bits())
}

fn turn(angle: f64) -> Rotation2 {
    let (sin, cos) = angle.sin_cos();
    Rotation2 { cos: d(cos), sin: d(sin) }
}

fn angle(turn: Rotation2) -> f64 {
    v(turn.sin).atan2(v(turn.cos))
}

fn transform(x: f64, y: f64, theta: f64) -> Transform2D {
    Transform2D::new(d(x), d(y), turn(theta))
}

fn close(a: f64, b: f64, epsilon: f64) -> bool {
    (a - b).abs() <= epsilon
}

#[test]
fn test_transform_identity() {
    let tf = Transform2D::identity();
    assert!(close(v(tf.translation().x), 0.0, f64::EPSILON));
    assert!(close(v(tf.translation().y), 0.0, f64::EPSILON));
    assert!(close(angle(tf.rotation()), 0.0, f64::EPSILON));
}

#[test]
fn test_transform_from_pose() {
    let pose = Pose { x: d(1.0), y: d(2.0), theta: d(PI / 4.0) };
    let tf = Transform2D::from_pose(&pose, turn(PI / 4.0));
    let back = tf.to_pose(d(angle(tf.rotation())));
    assert!(close(v(back.x), v(pose.x), 1e-10));
    assert!(close(v(back.y), v(pose.y), 1e-10));
    assert!(close(v(back.theta), v(pose.theta), 1e-10));
}

#[test]
fn test_transform_inverse() {
    let tf = transform(1.0, 2.0, PI / 2.0);
    let inv = tf.inverse();
    let composed = tf.compose(&inv);
    assert!(close(v(composed.translation().x), 0.0, 1e-10));
    assert!(close(v(composed.translation().y), 0.0, 1e-10));
    assert!(close(angle(composed.rotation()), 0.0, 1e-10));
}

#[test]
fn test_normalize_angle() {
    let normalized = |x: f64| v(normalize_angle(d(x)));
    assert!(close(normalized(0.0), 0.0, 1e-10));
    assert!(close(normalized(PI).abs(), PI, 1e-10));
    assert!(close(normalized(-PI), -PI, 1e-10));
    assert!(close(normalized(2.0 * PI), 0.0, 1e-10));
}

#[test]
fn test_angle_diff() {
    let diff = |a: f64, b: f64| v(angle_diff(d(a), d(b)));
    assert!(close(diff(0.0, PI / 2.0), PI / 2.0, 1e-10));
    assert!(close(diff(PI / 2.0, 0.0), -PI / 2.0, 1e-10));
}

/// The formula that machine numbers are normalized by.
fn by_machine(angle: f64) -> f64 {
    let mut a = angle % (2.0 * PI);
    if a >= PI {
        a -= 2.0 * PI;
    } else if a < -PI {
        a += 2.0 * PI;
    }
    a
}

#[test]
fn normalized_angles_agree_with_the_machine_and_lie_in_range() {
    let mut angles = vec![PI, -PI, 3.0 * PI, -3.0 * PI, 1e-300, -1e-300, 1e300, -1e300, 6.5, -6.5];
    for n in -2000..2000 {
        angles.push(n as f64 * 0.0173);
    }
    for x in angles {
        let r = v(normalize_angle(d(x)));
        assert_eq!(r.to_bits(), by_machine(x).to_bits(), "{x}");
        assert!((-PI..PI).contains(&r), "{x} -> {r}");
        assert_eq!(v(normalize_angle(d(r))).to_bits(), r.to_bits());
    }
    assert_eq!(v(normalize_angle(d(PI))), -PI);
    assert!(normalize_angle(d(f64::INFINITY)).is_nan());
    assert!(normalize_angle(d(f64::NAN)).is_nan());
}

#[test]
fn transforms_compose_as_isometries() {
    let (a, b) = ((1.5, -2.25, 0.7), (-0.3, 4.0, -2.9));
    let one = nalgebra::Isometry2::new(nalgebra::Vector2::new(a.0, a.1), a.2);
    let two = nalgebra::Isometry2::new(nalgebra::Vector2::new(b.0, b.1), b.2);
    let tf = transform(a.0, a.1, a.2);
    let other = transform(b.0, b.1, b.2);
    let check = |ours: Transform2D, theirs: nalgebra::Isometry2<f64>| {
        assert_eq!(v(ours.shift.x).to_bits(), theirs.translation.vector.x.to_bits());
        assert_eq!(v(ours.shift.y).to_bits(), theirs.translation.vector.y.to_bits());
        assert_eq!(v(ours.turn.cos).to_bits(), theirs.rotation.re.to_bits());
        assert_eq!(v(ours.turn.sin).to_bits(), theirs.rotation.im.to_bits());
    };
    check(tf, one);
    check(tf.inverse(), one.inverse());
    check(tf.compose(&other), one * two);
    check(tf * other, one * two);
    check(&tf * &other, one * two);
    check(tf * &other, one * two);
    check(&tf * other, one * two);
    check(tf.relative_to(&other), one.inverse() * two);
    let p = tf.transform_point(Vec2::new(d(3.0), d(-1.0)));
    let q = one * nalgebra::Point2::new(3.0, -1.0);
    assert_eq!((v(p.x).to_bits(), v(p.y).to_bits()), (q.x.to_bits(), q.y.to_bits()));
}

#[test]
fn identity_keeps_transforms() {
    let tf = transform(1.5, -2.25, 0.7);
    for r in [tf.compose(&Transform2D::identity()), Transform2D::identity().compose(&tf)] {
        assert_eq!(v(r.shift.x), 1.5);
        assert_eq!(v(r.shift.y), -2.25);
        assert_eq!(v(r.turn.cos), v(tf.turn.cos));
        assert_eq!(v(r.turn.sin), v(tf.turn.sin));
    }
    assert_eq!(v(Transform2D::default().turn.cos), 1.0);
    assert_eq!(v(tf.inverse().inverse().turn.sin), v(tf.turn.sin));
}

#[test]
fn poses_are_carried_to_the_parent_frame() {
    let tf = transform(1.0, 2.0, PI / 2.0);
    let pose = Pose { x: d(1.0), y: d(0.0), theta: d(3.0) };
    let placed = tf.compose(&Transform2D::new(pose.x, pose.y, turn(3.0)));
    let r = tf.transform_pose(&pose, turn(3.0), d(angle(placed.rotation())));
    assert!(close(v(r.x), 1.0, 1e-12));
    assert!(close(v(r.y), 3.0, 1e-12));
    assert!(close(v(r.theta), 3.0 + PI / 2.0 - 2.0 * PI, 1e-12));
    assert_eq!(v(Pose::default().theta), 0.0);
}

fn agree(a: &Transform2D, b: &Transform2D, epsilon: f64) -> bool {
    close(v(a.shift.x), v(b.shift.x), epsilon)
        && close(v(a.shift.y), v(b.shift.y), epsilon)
        && close(v(a.turn.cos), v(b.turn.cos), epsilon)
        && close(v(a.turn.sin), v(b.turn.sin), epsilon)
}

fn some_transforms() -> Vec<Transform2D> {
    vec![
        transform(1.5, -2.25, 0.7),
        transform(-0.3, 4.0, -2.9),
        transform(12.5, 0.125, 3.1),
        transform(-7.0, -9.5, -0.01),
    ]
}

#[test]
fn composing_is_associative_up_to_rounding() {
    for a in some_transforms() {
        for b in some_transforms() {
            for c in some_transforms() {
                assert!(agree(&((a * b) * c), &(a * (b * c)), 1e-12));
            }
        }
    }
}

#[test]
fn composing_applies_one_after_the_other() {
    let p = Vec2::new(d(3.0), d(-1.0));
    for a in some_transforms() {
        for b in some_transforms() {
            let (at_once, in_turn) =
                ((a * b).transform_point(p), a.transform_point(b.transform_point(p)));
            assert!(close(v(at_once.x), v(in_turn.x), 1e-12));
            assert!(close(v(at_once.y), v(in_turn.y), 1e-12));
            let sum = angle(a.rotation()) + angle(b.rotation());
            let r = (a * b).rotation();
            assert!(close(v(r.cos), sum.cos(), 1e-14) && close(v(r.sin), sum.sin(), 1e-14));
        }
    }
}

#[test]
fn relative_transforms_lead_there_and_back() {
    for a in some_transforms() {
        assert!(agree(&a.relative_to(&a), &Transform2D::identity(), 1e-13));
        for b in some_transforms() {
            assert!(agree(&a.compose(&a.relative_to(&b)), &b, 1e-12));
            assert!(agree(&b.relative_to(&a), &a.relative_to(&b).inverse(), 1e-12));
        }
    }
}

#[test]
fn relative_transforms_do_not_depend_on_the_frame() {
    for t in some_transforms() {
        for a in some_transforms() {
            for b in some_transforms() {
                assert!(agree(&(t * a).relative_to(&(t * b)), &a.relative_to(&b), 1e-12));
            }
        }
    }
}
