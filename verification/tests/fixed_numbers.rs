use raytrace::fixed::{Fixed, PI_RAW, SCALE};

fn fx(v: f64) -> Fixed {
    Fixed::from_raw((v * 4294967296.0).round() as i64)
}

#[test]
fn one_plus_one_is_two() {
    assert_eq!(Fixed::from_int(1) + Fixed::from_int(1), Fixed::from_int(2));
}

#[test]
fn whole_numbers_have_scaled_raw_values() {
    assert_eq!(Fixed::from_int(1).raw, SCALE);
    assert_eq!(Fixed::from_int(-3).raw, -3 * SCALE);
    assert_eq!(Fixed::from_int(0).raw, 0);
    assert_eq!(Fixed::from_int(i32::MIN).raw, i64::MIN);
}

#[test]
fn addition_saturates_at_both_ends() {
    let top = Fixed::from_raw(i64::MAX);
    let bottom = Fixed::from_raw(i64::MIN);
    assert_eq!(top + Fixed::from_int(1), top);
    assert_eq!(bottom + Fixed::from_int(-1), bottom);
    assert_eq!(top + bottom, Fixed::from_raw(-1));
}

#[test]
fn subtraction_saturates_at_both_ends() {
    let top = Fixed::from_raw(i64::MAX);
    let bottom = Fixed::from_raw(i64::MIN);
    assert_eq!(bottom - Fixed::from_int(1), bottom);
    assert_eq!(top - Fixed::from_int(-1), top);
    assert_eq!(fx(2.5) - fx(4.0), fx(-1.5));
}

#[test]
fn negation_of_the_lowest_value_saturates() {
    assert_eq!(-Fixed::from_raw(i64::MIN), Fixed::from_raw(i64::MAX));
    assert_eq!(-fx(1.25), fx(-1.25));
}

#[test]
fn products_are_rounded_toward_zero() {
    let step = Fixed::from_raw(1);
    let half = fx(0.5);
    assert_eq!(step * half, Fixed::from_raw(0));
    assert_eq!(Fixed::from_raw(-1) * half, Fixed::from_raw(0));
    assert_eq!(Fixed::from_raw(3) * half, Fixed::from_raw(1));
    assert_eq!(Fixed::from_raw(-3) * half, Fixed::from_raw(-1));
    assert_eq!(fx(1.5) * fx(-2.5), fx(-3.75));
}

#[test]
fn products_saturate() {
    let big = Fixed::from_int(100000);
    assert_eq!(big * big, Fixed::from_raw(i64::MAX));
    assert_eq!(big * -big, Fixed::from_raw(i64::MIN));
}

#[test]
fn quotients_are_rounded_toward_zero() {
    assert_eq!((Fixed::from_int(1) / Fixed::from_int(3)).raw, 1431655765);
    assert_eq!((Fixed::from_int(-1) / Fixed::from_int(3)).raw, -1431655765);
    assert_eq!(Fixed::from_int(7) / Fixed::from_int(2), fx(3.5));
}

#[test]
fn division_by_zero_gives_the_extreme_of_the_sign() {
    let zero = Fixed::from_int(0);
    assert_eq!(Fixed::from_int(5) / zero, Fixed::from_raw(i64::MAX));
    assert_eq!(Fixed::from_int(-5) / zero, Fixed::from_raw(i64::MIN));
    assert_eq!(zero / zero, zero);
}

#[test]
fn ratio_of_whole_numbers() {
    assert_eq!(Fixed::from_ratio(1, 2).raw, 2147483648);
    assert_eq!(Fixed::from_ratio(7, 10).raw, 3006477107);
    assert_eq!(Fixed::from_ratio(-6, 4), fx(-1.5));
}

#[test]
fn square_roots_are_rounded_down() {
    assert_eq!(Fixed::from_int(4).sqrt(), Fixed::from_int(2));
    assert_eq!(Fixed::from_int(2).sqrt().raw, 6074000999);
    assert_eq!(fx(0.25).sqrt(), fx(0.5));
    assert_eq!(Fixed::from_raw(1).sqrt().raw, 65536);
}

#[test]
fn square_root_of_nothing_positive_is_zero() {
    assert_eq!(Fixed::from_int(0).sqrt().raw, 0);
    assert_eq!(Fixed::from_int(-9).sqrt().raw, 0);
}

#[test]
fn square_root_of_the_largest_value() {
    let r = Fixed::from_raw(i64::MAX).sqrt().raw as i128;
    let n = (i64::MAX as i128) << 32;
    assert!(r * r <= n);
    assert!((r + 1) * (r + 1) > n);
}

#[test]
fn smaller_larger_and_absolute_value() {
    let a = fx(-2.0);
    let b = fx(3.0);
    assert_eq!(a.min(b), a);
    assert_eq!(a.max(b), b);
    assert_eq!(a.abs(), fx(2.0));
    assert_eq!(b.abs(), b);
    assert_eq!(Fixed::from_raw(i64::MIN).abs(), Fixed::from_raw(i64::MAX));
}

#[test]
fn pi_is_rounded_down() {
    assert_eq!(PI_RAW, (std::f64::consts::PI * 4294967296.0).floor() as i64);
}

#[test]
fn numbers_are_ordered_by_their_raw_values() {
    assert!(fx(-1.0) < fx(0.5));
    assert!(fx(2.0) > fx(0.5));
}
