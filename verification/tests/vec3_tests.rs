use raytracer::scalar::{Scalar, MAX_RAW, ONE_RAW};
use raytracer::vec3::Vec3;

fn v(x: i32, y: i32, z: i32) -> Vec3 {
    Vec3::new(Scalar::from_int(x), Scalar::from_int(y), Scalar::from_int(z))
}

#[test]
fn accessors_read_the_components() {
    let a = Vec3::new(Scalar::from_int(1), Scalar::ratio(1, 2), Scalar::from_int(-3));
    assert_eq!(a.x(), Scalar::from_int(1));
    assert_eq!(a.y(), Scalar::ratio(1, 2));
    assert_eq!(a.z(), Scalar::from_int(-3));
    assert_eq!(a.r(), a.x());
    assert_eq!(a.g(), a.y());
    assert_eq!(a.b(), a.z());
}

#[test]
fn add_and_subtract_by_component() {
    assert_eq!(v(1, 2, 3) + v(10, 20, 30), v(11, 22, 33));
    assert_eq!(v(1, 2, 3) - v(10, 20, 30), v(-9, -18, -27));
    assert_eq!(v(1, 2, 3) + Scalar::from_int(5), v(6, 7, 8));
    assert_eq!(-v(1, -2, 3), v(-1, 2, -3));
}

#[test]
fn scale_in_both_orders() {
    let two = Scalar::from_int(2);
    assert_eq!(v(1, 2, 3) * two, v(2, 4, 6));
    assert_eq!(two * v(1, 2, 3), v(2, 4, 6));
    assert_eq!(v(2, 4, 6) / two, v(1, 2, 3));
    assert_eq!(v(1, 2, 3) * v(2, 3, 4), v(2, 6, 12));
}

#[test]
fn assignment_operators_match_the_binary_ones() {
    let mut a = v(1, 2, 3);
    a += v(1, 1, 1);
    assert_eq!(a, v(2, 3, 4));
    a -= v(2, 2, 2);
    assert_eq!(a, v(0, 1, 2));
    a *= Scalar::from_int(4);
    assert_eq!(a, v(0, 4, 8));
    a /= Scalar::from_int(2);
    assert_eq!(a, v(0, 2, 4));
}

#[test]
fn dot_and_squared_norm() {
    assert_eq!(v(1, 2, 3).dot(&v(4, -5, 6)), Scalar::from_int(12));
    assert_eq!(v(1, 2, 3).squared_norm(), Scalar::from_int(14));
    assert_eq!(v(0, 0, 0).squared_norm(), Scalar::from_int(0));
}

#[test]
fn cross_of_the_axes() {
    assert_eq!(v(1, 0, 0).cross(&v(0, 1, 0)), v(0, 0, 1));
    assert_eq!(v(0, 1, 0).cross(&v(0, 0, 1)), v(1, 0, 0));
    assert_eq!(v(0, 0, 1).cross(&v(1, 0, 0)), v(0, 1, 0));
    assert_eq!(v(0, 1, 0).cross(&v(1, 0, 0)), v(0, 0, -1));
    assert_eq!(v(1, 2, 3).cross(&v(4, 5, 6)), v(-3, 6, -3));
}

#[test]
fn norm_of_a_pythagorean_triple() {
    assert_eq!(v(3, 4, 12).norm(), Scalar::from_int(13));
    assert_eq!(v(0, -3, 4).norm(), Scalar::from_int(5));
}

#[test]
fn unit_divides_by_the_norm() {
    assert_eq!(v(0, 5, 0).unit(), v(0, 1, 0));
    assert_eq!(v(0, 0, -2).unit(), v(0, 0, -1));
    let u = v(3, 4, 12).unit();
    assert_eq!(u.x(), Scalar::ratio(3, 13));
    assert_eq!(u.y(), Scalar::ratio(4, 13));
    assert_eq!(u.z(), Scalar::ratio(12, 13));
}

#[test]
fn unit_of_the_zero_vector_is_the_zero_vector() {
    assert_eq!(v(0, 0, 0).unit(), v(0, 0, 0));
}

#[test]
fn short_vector_keeps_its_norm() {
    // The squared norm of this vector rounds to zero, and its norm does not.
    let tiny = Vec3::new(Scalar::from_raw(3), Scalar::from_raw(-4), Scalar::from_raw(0));
    assert_eq!(tiny.squared_norm().raw, 0);
    assert_eq!(tiny.norm().raw, 5);
    let u = tiny.unit();
    assert_eq!(u.x(), Scalar::ratio(3, 5));
    assert_eq!(u.y(), Scalar::ratio(-4, 5));
    assert_eq!(u.z().raw, 0);
}

#[test]
fn unit_of_a_short_vector_lies_within_one() {
    let tiny = Vec3::new(Scalar::from_raw(0), Scalar::from_raw(2048), Scalar::from_raw(2));
    let u = tiny.unit();
    assert_eq!(u.x().raw, 0);
    assert!(u.y().raw <= ONE_RAW);
    assert!(u.y().raw >= ONE_RAW - 16);
    assert!(u.z().raw >= 0 && u.z().raw <= ONE_RAW);
}

#[test]
fn long_vector_keeps_its_norm() {
    // The squared norm of this vector saturates, and its norm does not.
    let long = Vec3::new(Scalar::from_int(3_000_000), Scalar::from_int(-4_000_000), Scalar::from_int(0));
    assert_eq!(long.squared_norm().raw, MAX_RAW);
    assert_eq!(long.norm(), Scalar::from_int(5_000_000));
    let u = long.unit();
    assert_eq!(u.x(), Scalar::ratio(3, 5));
    assert_eq!(u.y(), Scalar::ratio(-4, 5));
}

#[test]
fn norm_of_the_longest_vector_saturates() {
    let m = Scalar { raw: i64::MIN };
    let v = Vec3::new(m, m, m);
    assert_eq!(v.norm().raw, MAX_RAW);
    let u = v.unit();
    assert!(u.x().raw >= -ONE_RAW && u.x().raw <= ONE_RAW);
    assert_eq!(u.x(), u.y());
    assert_eq!(u.y(), u.z());
}

#[test]
fn unit_has_nearly_unit_length() {
    let u = Vec3::new(Scalar::ratio(13, 10), Scalar::from_int(2), Scalar::ratio(-7, 3)).unit();
    let n = u.squared_norm().raw;
    assert!((n - ONE_RAW).abs() < 16, "{}", n);
}
