use engine_rs::fixed::{Fixed, ONE_RAW};

fn fx(v: f64) -> Fixed {
    Fixed::from_raw((v * 4294967296.0).round() as i64)
}

#[test]
fn one_has_the_raw_value_two_to_the_thirty_two() {
    assert_eq!(Fixed::one().raw, 4294967296);
    assert_eq!(ONE_RAW, 4294967296);
    assert_eq!(Fixed::from_int(1), Fixed::one());
    assert_eq!(Fixed::zero().raw, 0);
    assert_eq!(Fixed::from_int(-3).raw, -3 * 4294967296);
}

#[test]
fn sum_and_difference_are_exact_in_range() {
    assert_eq!(fx(1.5) + fx(2.25), fx(3.75));
    assert_eq!(fx(1.5) - fx(2.25), fx(-0.75));
}

#[test]
fn sum_and_difference_are_clamped_at_both_ends() {
    let most = Fixed::from_raw(i64::MAX);
    let least = Fixed::from_raw(i64::MIN);
    assert_eq!(most + Fixed::one(), most);
    assert_eq!(least - Fixed::one(), least);
    assert_eq!(least + least, least);
    assert_eq!(most - least, most);
}

#[test]
fn product_is_rounded_toward_zero() {
    assert_eq!(fx(1.5) * fx(-2.0), fx(-3.0));
    assert_eq!(Fixed::from_raw(1) * Fixed::from_raw(1), Fixed::zero());
    assert_eq!(Fixed::from_raw(-1) * Fixed::from_raw(1), Fixed::zero());
    assert_eq!((Fixed::from_raw(3) * fx(0.5)).raw, 1);
    assert_eq!((Fixed::from_raw(-3) * fx(0.5)).raw, -1);
}

#[test]
fn product_is_clamped() {
    let big = Fixed::from_int(100_000);
    assert_eq!((big * big).raw, i64::MAX);
    assert_eq!((big * (-big)).raw, i64::MIN);
}

#[test]
fn quotient_is_rounded_toward_zero() {
    assert_eq!(fx(1.0) / fx(4.0), fx(0.25));
    assert_eq!((Fixed::one() / Fixed::from_int(3)).raw, 1_431_655_765);
    assert_eq!((Fixed::from_int(-1) / Fixed::from_int(3)).raw, -1_431_655_765);
    assert_eq!((Fixed::one() / Fixed::from_int(-3)).raw, -1_431_655_765);
    assert_eq!((Fixed::from_int(-1) / Fixed::from_int(-3)).raw, 1_431_655_765);
}

#[test]
fn quotient_by_zero_is_the_extreme_of_the_sign() {
    assert_eq!((Fixed::one() / Fixed::zero()).raw, i64::MAX);
    assert_eq!((Fixed::from_int(-1) / Fixed::zero()).raw, i64::MIN);
    assert_eq!((Fixed::zero() / Fixed::zero()).raw, 0);
}

#[test]
fn quotient_is_clamped() {
    assert_eq!((Fixed::from_int(1000) / Fixed::from_raw(1)).raw, i64::MAX);
    assert_eq!((Fixed::from_int(-1000) / Fixed::from_raw(1)).raw, i64::MIN);
}

#[test]
fn square_root_is_rounded_down() {
    assert_eq!(fx(4.0).sqrt(), fx(2.0));
    assert_eq!(fx(2.0).sqrt().raw, 6_074_000_999);
    assert_eq!(fx(14.0).sqrt().raw, 16_070_296_109);
    assert_eq!(Fixed::from_raw(1).sqrt().raw, 65_536);
    assert_eq!(Fixed::from_raw(i64::MAX).sqrt().raw, 199_032_864_766_430);
}

#[test]
fn square_root_of_what_is_not_positive_is_zero() {
    assert_eq!(Fixed::zero().sqrt(), Fixed::zero());
    assert_eq!(fx(-4.0).sqrt(), Fixed::zero());
}

#[test]
fn square_root_squared_does_not_exceed_the_argument() {
    let mut raw: i64 = 1;
    while raw < (1i64 << 50) {
        let x = Fixed::from_raw(raw);
        let r = x.sqrt().raw as i128;
        let n = (raw as i128) << 32;
        assert!(r * r <= n);
        assert!((r + 1) * (r + 1) > n);
        raw = raw * 3 + 1;
    }
}

#[test]
fn negation_is_clamped_at_the_least_value() {
    assert_eq!(-fx(1.5), fx(-1.5));
    assert_eq!((-Fixed::from_raw(i64::MIN)).raw, i64::MAX);
    assert_eq!(Fixed::from_raw(i64::MIN).abs().raw, i64::MAX);
    assert_eq!(fx(-2.5).abs(), fx(2.5));
    assert_eq!(fx(2.5).abs(), fx(2.5));
}

#[test]
fn rounding_takes_halves_away_from_zero() {
    assert_eq!(fx(2.5).round(), 3);
    assert_eq!(fx(-2.5).round(), -3);
    assert_eq!(fx(2.25).round(), 2);
    assert_eq!(fx(-2.25).round(), -2);
    assert_eq!(fx(0.0).round(), 0);
    assert_eq!(Fixed::from_raw(i64::MAX).round(), i32::MAX);
    assert_eq!(Fixed::from_raw(i64::MIN).round(), i32::MIN);
}

#[test]
fn counts_beyond_the_range_are_clamped() {
    assert_eq!(Fixed::from_u64(5), Fixed::from_int(5));
    assert_eq!(Fixed::from_u64(0x7fff_ffff).raw, 0x7fff_ffff * 4294967296);
    assert_eq!(Fixed::from_u64(0x8000_0000).raw, i64::MAX);
    assert_eq!(Fixed::from_u64(u64::MAX).raw, i64::MAX);
}

#[test]
fn wide_raw_values_are_clamped() {
    assert_eq!(Fixed::from_wide(12).raw, 12);
    assert_eq!(Fixed::from_wide(i128::MAX).raw, i64::MAX);
    assert_eq!(Fixed::from_wide(i128::MIN).raw, i64::MIN);
}

#[test]
fn larger_and_smaller_of_two() {
    assert_eq!(fx(1.0).max(fx(2.0)), fx(2.0));
    assert_eq!(fx(1.0).min(fx(2.0)), fx(1.0));
    assert_eq!(fx(-1.0).max(fx(-2.0)), fx(-1.0));
    assert_eq!(fx(-1.0).min(fx(-2.0)), fx(-2.0));
}
