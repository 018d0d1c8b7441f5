use surfel_fusion::transform::{TangentVec, Transform};
use surfel_fusion::vec3::Vec3;

const S: i64 = 65536;

#[test]
fn eye_is_identity() {
    let t = Transform::eye();
    let p = Vec3::new(12345, -777, 65536);
    let q = t.transform_vector(&p);
    assert_eq!(q, p);
}

#[test]
fn exp_translation_moves_points() {
    let v = TangentVec { t: Vec3::new(100, -200, 300), r: Vec3::new(0, 0, 0) };
    let t = Transform::se3_exp(&v);
    let p = Vec3::new(1, 2, 3);
    let q = t.transform_vector(&p);
    assert_eq!(q, Vec3::new(101, -198, 303));
}

#[test]
fn exp_quarter_turn_about_z() {
    // The quaternion (2S, 0, 0, 2S) is a 90-degree turn about z; the
    // sandwich product divides exactly, so the image is exact.
    let v = TangentVec { t: Vec3::new(0, 0, 0), r: Vec3::new(0, 0, 2 * S) };
    let t = Transform::se3_exp(&v);
    let q = t.transform_vector(&Vec3::new(S, 0, 0));
    assert_eq!(q, Vec3::new(0, S, 0));
}

#[test]
fn inverse_compose_recovers_identity() {
    // A transform with both rotation and translation: applying the
    // composition of its inverse with itself is exactly the identity.
    let v = TangentVec { t: Vec3::new(5000, -3000, 70000), r: Vec3::new(900, -1300, 2100) };
    let t = Transform::se3_exp(&v);
    let round = t.inverse().compose(&t);
    for p in [
        Vec3::new(0, 0, 0),
        Vec3::new(1, 2, 3),
        Vec3::new(-65536, 65536, 123456),
        Vec3::new(99999999, -5, 42),
    ] {
        assert_eq!(round.transform_vector(&p), p);
    }
}

#[test]
fn exp_then_log_recovers_increment() {
    let v = TangentVec { t: Vec3::new(123, -456, 789), r: Vec3::new(-11, 22, -33) };
    let t = Transform::se3_exp(&v);
    assert_eq!(t.se3_log(), v);
}

#[test]
fn compose_applies_rhs_first() {
    let a = Transform::se3_exp(&TangentVec { t: Vec3::new(0, 0, 100), r: Vec3::new(0, 0, 0) });
    let b = Transform::se3_exp(&TangentVec { t: Vec3::new(50, 0, 0), r: Vec3::new(0, 0, 0) });
    let ab = a.compose(&b);
    let q = ab.transform_vector(&Vec3::new(1, 1, 1));
    assert_eq!(q, Vec3::new(51, 1, 101));
}

#[test]
fn scale_translation_halves() {
    let mut t = Transform::se3_exp(&TangentVec { t: Vec3::new(1000, -500, 64), r: Vec3::new(0, 0, 0) });
    t.scale_translation(32768);
    assert_eq!(t.translation(), Vec3::new(500, -250, 32));
}

#[test]
fn transform_points_maps_each_point() {
    let t = Transform::se3_exp(&TangentVec { t: Vec3::new(0, 0, 3 * S), r: Vec3::new(0, 0, 0) });
    let pts = vec![Vec3::new(S, 2 * S, 3 * S), Vec3::new(-S, 0, 7)];
    let out = t.transform_points(&pts);
    assert_eq!(out, vec![Vec3::new(S, 2 * S, 6 * S), Vec3::new(-S, 0, 3 * S + 7)]);
}
