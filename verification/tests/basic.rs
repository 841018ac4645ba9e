use quatstatics::quaternion::{Quaternion, UnitQuaternion};
use quatstatics::vector::Vector3;
use quatstatics::trig::{sin_deg, cos_deg};
use quatstatics::error::GeomError;
use quatstatics::force::Force;
use quatstatics::freebody::FreeBody;

#[test]
fn test_Vector3() {
}

#[test]
fn test_add() {
    let numerand: Quaternion = Quaternion { r: 1, i: 1, j: 1, k: 1 };
    let result: Quaternion = Quaternion { r: 2, i: 2, j: 2, k: 2 };
    assert_eq!(numerand.add(&numerand), result)
}

#[test]
fn add_commutes_and_associates() {
    let a = Quaternion { r: 1, i: -2, j: 3, k: 4 };
    let b = Quaternion { r: 5, i: 6, j: -7, k: 8 };
    let c = Quaternion { r: -9, i: 10, j: 11, k: -12 };
    assert_eq!(a.add(&b), b.add(&a));
    assert_eq!(a.add(&b).add(&c), a.add(&b.add(&c)));
}

#[test]
fn mult_right_handed_and_not_commutative() {
    let qi = Quaternion { r: 0, i: 1, j: 0, k: 0 };
    let qj = Quaternion { r: 0, i: 0, j: 1, k: 0 };
    let qk = Quaternion { r: 0, i: 0, j: 0, k: 1 };
    assert_eq!(qi.mult(&qj), qk);
    assert_eq!(qj.mult(&qi), Quaternion { r: 0, i: 0, j: 0, k: -1 });
    let real = Quaternion { r: 7, i: 0, j: 0, k: 0 };
    assert_eq!(real.mult(&qj), qj.mult(&real));
}

#[test]
fn mult_associates() {
    let a = Quaternion { r: 1, i: 2, j: -3, k: 4 };
    let b = Quaternion { r: -5, i: 6, j: 7, k: -8 };
    let c = Quaternion { r: 9, i: -10, j: 11, k: 12 };
    assert_eq!(a.mult(&b).mult(&c), a.mult(&b.mult(&c)));
}

#[test]
fn invert_preserves_length() {
    let q = Quaternion { r: 1, i: 2, j: 2, k: 0 };
    assert_eq!(q.length(), 3);
    assert_eq!(q.invert().length(), 3);
    assert_eq!(q.invert(), Quaternion { r: 1, i: -2, j: -2, k: 0 });
}

#[test]
fn length_exact() {
    let q = Quaternion { r: 0, i: 3, j: 4, k: 0 };
    assert_eq!(q.length(), 5);
}

#[test]
fn rotate_by_identity_is_identity() {
    let rot = UnitQuaternion::new_rotation(0, 0, 1, 0).unwrap();
    let v = Quaternion::new_vector(5000, -700, 9001);
    assert_eq!(v.rotate(&rot), v);
}

#[test]
fn rotate_full_turn_is_identity() {
    let rot = UnitQuaternion::new_rotation(1, 2, 3, 360).unwrap();
    let v = Quaternion::new_vector(-123, 456, 789);
    assert_eq!(v.rotate(&rot), v);
}

#[test]
fn rotate_quarter_turn_about_z() {
    let rot = UnitQuaternion::new_rotation(0, 0, 1, 90).unwrap();
    let v = Quaternion::new_vector(1000, 0, 0);
    let r = v.rotate(&rot);
    assert!(r.i.abs() <= 10, "x stays near zero: {}", r.i);
    assert!((r.j - 1000).abs() <= 10, "y near one: {}", r.j);
    assert!(r.k.abs() <= 10, "z stays near zero: {}", r.k);
}

#[test]
fn zero_axis_is_domain_error() {
    assert_eq!(UnitQuaternion::new_rotation(0, 0, 0, 90), Err(GeomError::ZeroLength));
}

#[test]
fn trig_cardinal_values() {
    assert_eq!(sin_deg(0), 0);
    assert_eq!(sin_deg(90), 1000);
    assert_eq!(sin_deg(180), 0);
    assert_eq!(sin_deg(270), -1000);
    assert_eq!(cos_deg(0), 1000);
    assert_eq!(cos_deg(180), -1000);
    assert_eq!(cos_deg(360), 1000);
    assert_eq!(sin_deg(-90), -1000);
}

#[test]
fn spherical_round_trips() {
    let v = Vector3::new_spherical(1000, 0, 90);
    assert_eq!((v.x(), v.y(), v.z()), (1000, 0, 0));
    let v = Vector3::new_spherical(1000, 90, 90);
    assert_eq!((v.x(), v.y(), v.z()), (0, 1000, 0));
    let v = Vector3::new_spherical(1000, 0, 0);
    assert_eq!((v.x(), v.y(), v.z()), (0, 0, 1000));
}

#[test]
fn force_magnitude_and_direction() {
    let f = Force::new(1, 0, 0, 5);
    assert_eq!(f.mag(), 5);
    assert_eq!((f.x(), f.y(), f.z()), (5, 0, 0));
}

#[test]
fn degenerate_forces_are_zero() {
    let f = Force::new(0, 0, 0, 5);
    assert_eq!((f.x(), f.y(), f.z(), f.mag()), (0, 0, 0, 0));
    let g = Force::new(1, 1, 1, 0);
    assert_eq!((g.x(), g.y(), g.z(), g.mag()), (0, 0, 0, 0));
}

#[test]
fn spherical_force_keeps_magnitude() {
    let f = Force::new_spherical(1000, 0, 90);
    assert_eq!((f.x(), f.y(), f.z()), (1000, 0, 0));
    assert_eq!(f.mag(), 1000);
}

#[test]
fn short_direction_keeps_magnitude() {
    let f = Force::new(1, 1, 1, 5000);
    assert_eq!((f.x(), f.y(), f.z()), (2887, 2887, 2887));
    assert_eq!(f.mag(), 5000);
}

#[test]
fn tiny_nonzero_force_stays_nonzero() {
    let f = Force::new(3, 4, 0, 1);
    assert_eq!((f.x(), f.y(), f.z()), (1, 1, 0));
    assert!(f.mag() >= 1);
}

#[test]
fn rotations_stay_near_unit() {
    let rot = UnitQuaternion::new_rotation(1, 1, 1, 90).unwrap();
    let q = rot.as_quaternion();
    let n = q.r * q.r + q.i * q.i + q.j * q.j + q.k * q.k;
    assert!(992_000 <= n && n <= 1_002_000, "nsq {}", n);
    let inv = rot.invert();
    let qi = inv.as_quaternion();
    let ni = qi.r * qi.r + qi.i * qi.i + qi.j * qi.j + qi.k * qi.k;
    assert!(992_000 <= ni && ni <= 1_002_000, "nsq {}", ni);
}

#[test]
fn composed_rotations_stay_near_unit() {
    let a = UnitQuaternion::new_rotation(0, 0, 1, 90).unwrap();
    let b = UnitQuaternion::new_rotation(1, 2, 2, 45).unwrap();
    let c = b.rotate(&a).unwrap();
    let q = c.as_quaternion();
    let n = q.r * q.r + q.i * q.i + q.j * q.j + q.k * q.k;
    assert!(992_000 <= n && n <= 1_002_000, "nsq {}", n);
}

#[test]
fn vector_add_and_scale() {
    let a = Vector3::new(1, 2, 3);
    let b = Vector3::new(10, -20, 30);
    let s = a.add(&b);
    assert_eq!((s.x(), s.y(), s.z()), (11, -18, 33));
    let d = a.scale(-4);
    assert_eq!((d.x(), d.y(), d.z()), (-4, -8, -12));
}

#[test]
fn freebody_equilibrium() {
    let mut body = FreeBody::new(Vector3::new(0, 0, 0));
    assert!(body.solved());
    body.add_force(Force::new(1, 0, 0, 3));
    body.add_force(Force::new(-1, 0, 0, 1));
    assert!(!body.solved());
    body.solve();
    assert!(body.solved());
    let f = body.solved_force().unwrap();
    assert_eq!((f.x(), f.y(), f.z()), (-2, 0, 0));
    assert_eq!(f.mag(), 2);
}

#[test]
fn freebody_empty_solves_to_zero() {
    let mut body = FreeBody::new(Vector3::new(1, 2, 3));
    assert!(body.solved());
    body.solve();
    let f = body.solved_force().unwrap();
    assert_eq!((f.x(), f.y(), f.z()), (0, 0, 0));
    assert_eq!(f.mag(), 0);
}

#[test]
fn freebody_add_after_solve_invalidates() {
    let mut body = FreeBody::new(Vector3::new(0, 0, 0));
    body.solve();
    body.add_force(Force::new(0, 1, 0, 7));
    assert!(!body.solved());
    assert_eq!(body.solved_force(), Err(GeomError::NotSolved));
    body.solve();
    let f = body.solved_force().unwrap();
    assert_eq!((f.x(), f.y(), f.z()), (0, -7, 0));
}
