use raytracer::scalar::{Scalar, MAX_RAW, ONE_RAW};

#[test]
fn from_int_scales_by_one() {
    assert_eq!(Scalar::from_int(3).raw, 3 * ONE_RAW);
    assert_eq!(Scalar::from_int(-2).raw, -2 * ONE_RAW);
    assert_eq!(Scalar::from_int(0).raw, 0);
}

#[test]
fn from_raw_clamps_the_minimum() {
    assert_eq!(Scalar::from_raw(i64::MIN).raw, -MAX_RAW);
    assert_eq!(Scalar::from_raw(17).raw, 17);
}

#[test]
fn ratio_rounds_toward_zero() {
    assert_eq!(Scalar::ratio(1, 2).raw, ONE_RAW / 2);
    assert_eq!(Scalar::ratio(1, 3).raw, 5592405);
    assert_eq!(Scalar::ratio(-1, 3).raw, -5592405);
    assert_eq!(Scalar::ratio(1, 1000).raw, 16777);
}

#[test]
fn addition_saturates() {
    let max = Scalar::max_value();
    assert_eq!((max + Scalar::from_int(1)).raw, MAX_RAW);
    assert_eq!((-max - Scalar::from_int(1)).raw, -MAX_RAW);
    assert_eq!((Scalar::from_int(2) + Scalar::from_int(3)).raw, 5 * ONE_RAW);
    assert_eq!((Scalar::from_int(2) - Scalar::from_int(3)).raw, -ONE_RAW);
}

#[test]
fn multiplication_rounds_toward_zero_and_saturates() {
    assert_eq!((Scalar::from_int(3) * Scalar::from_int(-4)).raw, -12 * ONE_RAW);
    assert_eq!((Scalar::from_raw(1) * Scalar::from_raw(1)).raw, 0);
    assert_eq!((Scalar::from_raw(-1) * Scalar::from_raw(1)).raw, 0);
    assert_eq!((Scalar::from_raw(3) * Scalar::ratio(1, 2)).raw, 1);
    assert_eq!((Scalar::from_raw(-3) * Scalar::ratio(1, 2)).raw, -1);
    let max = Scalar::max_value();
    assert_eq!((max * max).raw, MAX_RAW);
    assert_eq!((max * -max).raw, -MAX_RAW);
}

#[test]
fn division_rounds_toward_zero() {
    assert_eq!((Scalar::from_int(7) / Scalar::from_int(2)).raw, 7 * ONE_RAW / 2);
    assert_eq!((Scalar::from_int(-7) / Scalar::from_int(2)).raw, -(7 * ONE_RAW / 2));
    assert_eq!((Scalar::from_int(7) / Scalar::from_int(-2)).raw, -(7 * ONE_RAW / 2));
    assert_eq!((Scalar::from_int(-7) / Scalar::from_int(-2)).raw, 7 * ONE_RAW / 2);
    assert_eq!((Scalar::from_raw(-1) / Scalar::from_int(2)).raw, 0);
}

#[test]
fn division_by_zero_saturates_by_sign() {
    let zero = Scalar::from_int(0);
    assert_eq!((Scalar::from_int(1) / zero).raw, MAX_RAW);
    assert_eq!((Scalar::from_int(-1) / zero).raw, -MAX_RAW);
    assert_eq!((zero / zero).raw, 0);
}

#[test]
fn division_saturates() {
    let max = Scalar::max_value();
    assert_eq!((max / Scalar::from_raw(1)).raw, MAX_RAW);
    assert_eq!((max / Scalar::from_raw(-1)).raw, -MAX_RAW);
}

#[test]
fn negation_is_exact_in_range() {
    assert_eq!((-Scalar::from_int(5)).raw, -5 * ONE_RAW);
    assert_eq!((-Scalar::max_value()).raw, -MAX_RAW);
    assert_eq!((-Scalar { raw: i64::MIN }).raw, MAX_RAW);
}

#[test]
fn sqrt_rounds_down() {
    assert_eq!(Scalar::from_int(4).sqrt().raw, 2 * ONE_RAW);
    assert_eq!(Scalar::from_int(1).sqrt().raw, ONE_RAW);
    assert_eq!(Scalar::from_int(0).sqrt().raw, 0);
    assert_eq!(Scalar::from_int(-4).sqrt().raw, 0);
    // sqrt(2) = 1.41421356..., and 1.41421356 * 2^24 = 23726566.4...
    assert_eq!(Scalar::from_int(2).sqrt().raw, 23726566);
    assert_eq!(Scalar::from_raw(1).sqrt().raw, 4096);
}

#[test]
fn sqrt_of_the_maximum_is_an_integer_square_root() {
    let r = Scalar::max_value().sqrt().raw as i128;
    let n = (MAX_RAW as i128) * (ONE_RAW as i128);
    assert!(r * r <= n);
    assert!((r + 1) * (r + 1) > n);
}

#[test]
fn comparison_is_by_raw_value() {
    assert!(Scalar::from_int(1) < Scalar::from_int(2));
    assert!(Scalar::from_int(-1) < Scalar::from_raw(0));
    assert!(Scalar::from_int(2) >= Scalar::from_int(2));
    assert!(!(Scalar::from_int(2) > Scalar::from_int(2)));
    assert_eq!(Scalar::from_int(2), Scalar::from_raw(2 * ONE_RAW));
}

#[test]
fn to_int_rounds_toward_zero() {
    assert_eq!(Scalar::ratio(7, 2).to_int(), 3);
    assert_eq!(Scalar::ratio(-7, 2).to_int(), -3);
    assert_eq!(Scalar::from_int(-5).to_int(), -5);
    assert_eq!(Scalar::from_raw(ONE_RAW - 1).to_int(), 0);
    assert_eq!(Scalar::from_raw(1 - ONE_RAW).to_int(), 0);
}

#[test]
fn pi_is_rounded_down() {
    let pi = Scalar::pi().raw as f64 / ONE_RAW as f64;
    assert!(pi <= std::f64::consts::PI);
    assert!(std::f64::consts::PI - pi < 1.0 / ONE_RAW as f64);
}

#[test]
fn tan_of_zero_is_zero() {
    assert_eq!(Scalar::from_int(0).tan().raw, 0);
}

#[test]
fn tan_follows_the_tangent_below_a_right_angle() {
    let mut degrees: i32 = -85;
    while degrees <= 85 {
        let x = Scalar::from_int(degrees) * Scalar::pi() / Scalar::from_int(180);
        let got = x.tan().raw as f64 / ONE_RAW as f64;
        let want = (x.raw as f64 / ONE_RAW as f64).tan();
        assert!((got - want).abs() <= 1e-5 * (1.0 + want * want), "{} degrees: {} for {}", degrees, got, want);
        degrees += 5;
    }
}

#[test]
fn tan_of_half_a_right_angle_is_nearly_one() {
    let x = Scalar::pi() / Scalar::from_int(4);
    let got = x.tan().raw;
    assert!((got - ONE_RAW).abs() < 64, "{}", got);
}

#[test]
fn tan_is_odd() {
    let x = Scalar::ratio(3, 4);
    assert_eq!((-x).tan().raw, -(x.tan().raw));
}

#[test]
fn norm3_is_the_root_of_the_exact_sum_of_squares() {
    assert_eq!(Scalar::norm3(Scalar::from_int(3), Scalar::from_int(4), Scalar::from_int(12)), Scalar::from_int(13));
    assert_eq!(Scalar::norm3(Scalar::from_raw(1), Scalar::from_raw(0), Scalar::from_raw(0)).raw, 1);
    assert_eq!(Scalar::norm3(Scalar::from_raw(1), Scalar::from_raw(1), Scalar::from_raw(1)).raw, 1);
    assert_eq!(Scalar::norm3(Scalar::from_raw(2), Scalar::from_raw(2), Scalar::from_raw(1)).raw, 3);
    assert_eq!(Scalar::norm3(Scalar::from_raw(0), Scalar::from_raw(0), Scalar::from_raw(0)).raw, 0);
    assert_eq!(Scalar::norm3(Scalar::max_value(), Scalar::from_raw(0), Scalar::from_raw(0)).raw, MAX_RAW);
    assert_eq!(Scalar::norm3(Scalar::max_value(), Scalar::max_value(), Scalar::from_raw(0)).raw, MAX_RAW);
}

#[test]
fn results_lie_in_the_symmetric_range() {
    let odd = Scalar { raw: i64::MIN };
    let one = Scalar::from_int(1);
    let zero = Scalar::from_int(0);
    for x in [odd + zero, odd - zero, odd * one, odd / one, -odd, odd + odd, odd * odd, odd / odd, odd.sqrt()] {
        assert!(x.raw >= -MAX_RAW);
    }
    assert_eq!((odd + zero).raw, -MAX_RAW);
    let x = Scalar::from_raw(-12345);
    assert_eq!(x + zero, x);
    assert_eq!(-(-x), x);
}
