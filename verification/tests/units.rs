use breakout::units::{center_in, clip_i64, isqrt, magnitude_i32, sign_i64, travel_i64, PIXEL, SECOND, UNIT};

#[test]
fn units_have_their_documented_values() {
    assert_eq!(PIXEL, 1_000);
    assert_eq!(UNIT, 1_000_000);
    assert_eq!(SECOND, 1_000_000);
}

#[test]
fn clip_keeps_values_in_range() {
    assert_eq!(clip_i64(0), 0);
    assert_eq!(clip_i64(-123_456), -123_456);
    assert_eq!(clip_i64(i32::MAX as i64), i32::MAX);
    assert_eq!(clip_i64(i32::MIN as i64), i32::MIN);
}

#[test]
fn clip_saturates_beyond_the_range() {
    assert_eq!(clip_i64(i32::MAX as i64 + 1), i32::MAX);
    assert_eq!(clip_i64(i32::MIN as i64 - 1), i32::MIN);
    assert_eq!(clip_i64(i64::MAX), i32::MAX);
    assert_eq!(clip_i64(i64::MIN), i32::MIN);
}

#[test]
fn sign_is_one_zero_or_minus_one() {
    assert_eq!(sign_i64(17), 1);
    assert_eq!(sign_i64(0), 0);
    assert_eq!(sign_i64(-17), -1);
    assert_eq!(sign_i64(i64::MAX), 1);
    assert_eq!(sign_i64(i64::MIN), -1);
}

#[test]
fn magnitude_of_the_least_value_fits() {
    assert_eq!(magnitude_i32(5), 5);
    assert_eq!(magnitude_i32(-5), 5);
    assert_eq!(magnitude_i32(0), 0);
    assert_eq!(magnitude_i32(i32::MIN), 2_147_483_648);
}

#[test]
fn travel_of_a_full_second_at_full_component_is_the_speed() {
    assert_eq!(travel_i64(UNIT, 400_000, SECOND), 400_000);
    assert_eq!(travel_i64(-UNIT, 700_000, SECOND), -700_000);
}

#[test]
fn travel_rounds_toward_zero_in_both_directions() {
    // 707106 * 400000 * 16667 / 10^12 = 4714.06...
    assert_eq!(travel_i64(707_106, 400_000, 16_667), 4_714);
    assert_eq!(travel_i64(-707_106, 400_000, 16_667), -4_714);
    // 700000 * 16667 / 10^6 = 11666.9
    assert_eq!(travel_i64(UNIT, 700_000, 16_667), 11_666);
    assert_eq!(travel_i64(-UNIT, 700_000, 16_667), -11_666);
    assert_eq!(travel_i64(1, 400_000, 1), 0);
    assert_eq!(travel_i64(-1, 400_000, 1), 0);
}

#[test]
fn travel_is_nothing_without_time_speed_or_direction() {
    assert_eq!(travel_i64(UNIT, 400_000, 0), 0);
    assert_eq!(travel_i64(UNIT, 0, SECOND), 0);
    assert_eq!(travel_i64(0, 400_000, SECOND), 0);
}

#[test]
fn travel_of_the_largest_arguments_does_not_overflow() {
    assert_eq!(travel_i64(i32::MAX, i32::MAX, u32::MAX), 19_807_040_605_507_654);
    assert_eq!(travel_i64(i32::MIN, i32::MAX, u32::MAX), -19_807_040_614_731_026);
}

#[test]
fn isqrt_of_small_numbers() {
    assert_eq!(isqrt(0), 0);
    assert_eq!(isqrt(1), 1);
    assert_eq!(isqrt(2), 1);
    assert_eq!(isqrt(3), 1);
    assert_eq!(isqrt(4), 2);
    assert_eq!(isqrt(8), 2);
    assert_eq!(isqrt(9), 3);
    assert_eq!(isqrt(99), 9);
    assert_eq!(isqrt(100), 10);
}

#[test]
fn isqrt_of_large_numbers() {
    assert_eq!(isqrt(1_000_000_000_000), 1_000_000);
    assert_eq!(isqrt(999_999_999_999), 999_999);
    assert_eq!(isqrt(2_000_000_000_000), 1_414_213);
    assert_eq!(isqrt(u64::MAX), 4_294_967_295);
    assert_eq!(isqrt(4_294_967_295 * 4_294_967_295), 4_294_967_295);
    assert_eq!(isqrt(4_294_967_295 * 4_294_967_295 - 1), 4_294_967_294);
}

#[test]
fn isqrt_squares_bracket_the_argument() {
    let mut n: u64 = 1;
    while n < 1_000_000_000_000_000 {
        let r: u64 = isqrt(n);
        assert!(r * r <= n);
        assert!((r + 1) * (r + 1) > n);
        n = n * 7 + 3;
    }
}

#[test]
fn center_in_halves_both_lengths_toward_zero() {
    assert_eq!(center_in(800_000, 150_000), 325_000);
    assert_eq!(center_in(800_001, 150_001), 325_000);
    assert_eq!(center_in(100, 300), -100);
    assert_eq!(center_in(-5, 0), -2);
    assert_eq!(center_in(0, 0), 0);
}

#[test]
fn center_in_fits_for_the_largest_arguments() {
    assert_eq!(center_in(i32::MAX, i32::MIN), i32::MAX);
    assert_eq!(center_in(i32::MIN, i32::MAX), -i32::MAX);
}
