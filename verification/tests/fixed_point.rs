use gravity_sim::fixed::{
    clamp, fdiv, fmul, from_int, from_ratio, isqrt, quot, saturate, to_int, wide_mul, LIMIT, ONE,
};
use gravity_sim::volume::{icbrt, Volume, LIMB, VOLUME_HI_CAP};

#[test]
fn one_is_two_to_the_fraction_bits() {
    assert_eq!(ONE, 1i64 << gravity_sim::fixed::FRAC_BITS);
    assert_eq!(from_int(1), ONE);
    assert_eq!(from_int(-3), -3 * ONE);
}

#[test]
fn from_int_saturates() {
    assert_eq!(from_int(i64::MAX), LIMIT);
    assert_eq!(from_int(i64::MIN), -LIMIT);
}

#[test]
fn from_ratio_rounds_toward_zero() {
    assert_eq!(from_ratio(1, 3), 5_592_405);
    assert_eq!(from_ratio(-1, 3), -5_592_405);
    assert_eq!(from_ratio(1, 100), 167_772);
    assert_eq!(from_ratio(3, 2), ONE + ONE / 2);
}

#[test]
fn to_int_drops_the_fraction() {
    assert_eq!(to_int(from_ratio(7, 2)), 3);
    assert_eq!(to_int(from_ratio(-7, 2)), -3);
    assert_eq!(to_int(0), 0);
}

#[test]
fn product_of_scalars() {
    assert_eq!(fmul(from_ratio(3, 2), from_ratio(5, 2)), from_ratio(15, 4));
    assert_eq!(fmul(from_ratio(-1, 3), from_ratio(1, 3)), -1_864_134);
    assert_eq!(fmul(from_ratio(1, 3), from_ratio(-1, 3)), -1_864_134);
    assert_eq!(fmul(0, LIMIT), 0);
}

#[test]
fn product_saturates() {
    assert_eq!(fmul(LIMIT, 2 * ONE), LIMIT);
    assert_eq!(fmul(-LIMIT, 2 * ONE), -LIMIT);
    assert_eq!(fmul(-LIMIT, -2 * ONE), LIMIT);
}

#[test]
fn quotient_of_scalars() {
    assert_eq!(fdiv(ONE, 3 * ONE), 5_592_405);
    assert_eq!(fdiv(-ONE, 3 * ONE), -5_592_405);
    assert_eq!(fdiv(6 * ONE, 2 * ONE), 3 * ONE);
}

#[test]
fn quotient_saturates() {
    assert_eq!(fdiv(LIMIT, 1), LIMIT);
    assert_eq!(fdiv(-LIMIT, 1), -LIMIT);
}

#[test]
fn quot_is_odd_in_the_dividend() {
    assert_eq!(quot(7, 2), 3);
    assert_eq!(quot(-7, 2), -3);
    assert_eq!(quot(0, 5), 0);
    assert_eq!(quot(-1, 5), 0);
}

#[test]
fn wide_mul_does_not_overflow() {
    assert_eq!(wide_mul(i64::MAX, i64::MAX), (i64::MAX as i128) * (i64::MAX as i128));
    assert_eq!(wide_mul(i64::MIN, i64::MIN), (i64::MIN as i128) * (i64::MIN as i128));
    assert_eq!(wide_mul(-3, 4), -12);
}

#[test]
fn saturate_and_clamp_hold_values_in_range() {
    assert_eq!(saturate(5), 5);
    assert_eq!(saturate(i128::MAX), LIMIT);
    assert_eq!(saturate(i128::MIN), -LIMIT);
    assert_eq!(clamp(i64::MAX), LIMIT);
    assert_eq!(clamp(i64::MIN), -LIMIT);
    assert_eq!(clamp(-17), -17);
}

#[test]
fn integer_square_root() {
    assert_eq!(isqrt(0), 0);
    assert_eq!(isqrt(1), 1);
    assert_eq!(isqrt(15), 3);
    assert_eq!(isqrt(16), 4);
    assert_eq!(isqrt(17), 4);
    assert_eq!(isqrt(1_000_000_000_000_000_000_000_000_000_000), 1_000_000_000_000_000);
    assert_eq!(isqrt(1u128 << 127), 13_043_817_825_332_782_212);
    assert_eq!(isqrt(u128::MAX), u64::MAX as u128);
}

#[test]
fn integer_cube_root() {
    assert_eq!(icbrt(0), 0);
    assert_eq!(icbrt(1), 1);
    assert_eq!(icbrt(7), 1);
    assert_eq!(icbrt(8), 2);
    assert_eq!(icbrt(26), 2);
    assert_eq!(icbrt(27), 3);
    assert_eq!(icbrt(1_000_000_000_000_000_000_000_000_000_000), 10_000_000_000);
    assert_eq!(icbrt(1u128 << 126), 1u128 << 42);
    assert_eq!(icbrt((1u128 << 126) - 1), (1u128 << 42) - 1);
    assert_eq!(icbrt(u128::MAX), 6_981_463_658_331);
}

#[test]
fn cubes_are_exact() {
    assert_eq!(LIMB, 1u128 << 64);
    assert_eq!(Volume::cube_of(0), Volume { hi: 0, lo: 0 });
    assert_eq!(Volume::cube_of(1), Volume { hi: 0, lo: 1 });
    assert_eq!(Volume::cube_of(3), Volume::from_u128(27));
    assert_eq!(Volume::cube_of(5 * ONE), Volume { hi: 32_000, lo: 0 });
    assert_eq!(Volume::cube_of(1 << 42), Volume::from_u128(1u128 << 126));
    assert_eq!(
        Volume::cube_of(LIMIT),
        Volume { hi: 5_316_911_983_139_663_488_156_463_727_300_837_376, lo: 13_835_058_055_282_163_711 }
    );
    assert_eq!(Volume::cube_of(i64::MAX).cbrt(), LIMIT);
}

#[test]
fn volumes_add_up_to_the_cap() {
    let a = Volume { hi: 7, lo: u64::MAX };
    let b = Volume { hi: 1, lo: 2 };
    assert_eq!(a.plus(b), Volume { hi: 9, lo: 1 });
    assert_eq!(Volume::zero().plus(b), b);
    let cap = Volume { hi: VOLUME_HI_CAP, lo: 0 };
    let near = Volume { hi: VOLUME_HI_CAP - 1, lo: u64::MAX };
    assert_eq!(near.plus(Volume::zero()), near);
    assert_eq!(near.plus(Volume { hi: 0, lo: 1 }), cap);
    assert_eq!(near.plus(near), cap);
    assert_eq!(Volume { hi: u128::MAX, lo: 5 }.plus(b), cap);
}

#[test]
fn volumes_are_ordered_by_their_value() {
    let small = Volume { hi: 1, lo: u64::MAX };
    let large = Volume { hi: 2, lo: 0 };
    assert!(small.at_most(large));
    assert!(!large.at_most(small));
    assert!(small.at_most(small));
    assert!(Volume { hi: 2, lo: 0 }.at_most(Volume { hi: 2, lo: 1 }));
}

#[test]
fn the_radius_of_a_volume_is_its_cube_root() {
    assert_eq!(Volume::zero().cbrt(), 0);
    assert_eq!(Volume::from_u128(26).cbrt(), 2);
    assert_eq!(Volume::from_u128(27).cbrt(), 3);
    assert_eq!(Volume::cube_of(5 * ONE).cbrt(), 5 * ONE);
    assert_eq!(Volume::cube_of(300_000 * ONE).cbrt(), 300_000 * ONE);
    assert_eq!(Volume::cube_of(LIMIT).cbrt(), LIMIT);
    // just below the cube of the scalar after the largest, and at it
    assert_eq!(Volume { hi: (1u128 << 122) - 1, lo: u64::MAX }.cbrt(), LIMIT);
    assert_eq!(Volume { hi: 1u128 << 122, lo: 0 }.cbrt(), LIMIT);
    assert_eq!(Volume { hi: u128::MAX, lo: u64::MAX }.cbrt(), LIMIT);
}

#[test]
fn division_is_defined_for_every_divisor() {
    assert_eq!(fdiv(ONE, -3 * ONE), -5_592_405);
    assert_eq!(fdiv(-ONE, -3 * ONE), 5_592_405);
    assert_eq!(fdiv(5, 0), LIMIT);
    assert_eq!(fdiv(-5, 0), -LIMIT);
    assert_eq!(fdiv(0, 0), 0);
    assert_eq!(from_ratio(1, -4), -ONE / 4);
}
