use rsa_prg::utils::{safe_power_modulo, NonZeroU32};

fn nz(n: u32) -> NonZeroU32 {
    NonZeroU32::new(n).unwrap()
}

#[test]
fn it_works() {
    assert_eq!(
        safe_power_modulo(2, 10, NonZeroU32::new(1025).unwrap()),
        1024
    );
    assert_eq!(safe_power_modulo(2, 10, NonZeroU32::new(7).unwrap()), 2);
}

#[test]
fn non_zero_refuses_zero() {
    assert!(NonZeroU32::new(0).is_none());
}

#[test]
fn non_zero_keeps_value() {
    assert_eq!(NonZeroU32::new(1).unwrap().get(), 1);
    assert_eq!(NonZeroU32::new(1025).unwrap().get(), 1025);
    assert_eq!(NonZeroU32::new(u32::MAX).unwrap().get(), u32::MAX);
}

#[test]
fn zero_base_gives_one() {
    for k in [1u32, 2, 3, 10, 65537, u32::MAX] {
        for m in [1u32, 2, 7, 1025, u32::MAX] {
            assert_eq!(safe_power_modulo(0, k, nz(m)), 1);
        }
    }
    assert_eq!(safe_power_modulo(0, 0, nz(1)), 1);
    assert_eq!(safe_power_modulo(0, 0, nz(7)), 1);
}

#[test]
fn zero_exponent_acts_as_one() {
    assert_eq!(safe_power_modulo(7, 0, nz(5)), 2);
    assert_eq!(safe_power_modulo(5, 0, nz(5)), 0);
    assert_eq!(safe_power_modulo(3, 0, nz(1)), 0);
    assert_eq!(safe_power_modulo(u32::MAX, 0, nz(u32::MAX)), 0);
}

#[test]
fn exponent_one_reduces_base() {
    assert_eq!(safe_power_modulo(7, 1, nz(5)), 2);
    assert_eq!(safe_power_modulo(4, 1, nz(5)), 4);
    assert_eq!(safe_power_modulo(u32::MAX, 1, nz(1)), 0);
}

#[test]
fn modulus_one_gives_zero() {
    for x in [1u32, 2, 12345, u32::MAX] {
        for k in [1u32, 2, 5, u32::MAX] {
            assert_eq!(safe_power_modulo(x, k, nz(1)), 0);
        }
    }
}

#[test]
fn small_powers() {
    assert_eq!(safe_power_modulo(3, 4, nz(100)), 81);
    assert_eq!(safe_power_modulo(3, 5, nz(100)), 43);
    assert_eq!(safe_power_modulo(10, 9, nz(u32::MAX)), 1_000_000_000);
    assert_eq!(safe_power_modulo(2, 31, nz(u32::MAX)), 2_147_483_648);
    assert_eq!(safe_power_modulo(2, 32, nz(u32::MAX)), 1);
}

#[test]
fn no_overflow_near_the_word_limit() {
    let max = u32::MAX;
    assert_eq!(safe_power_modulo(max, max, nz(max)), 0);
    assert_eq!(safe_power_modulo(max - 1, max, nz(max)), 4_294_967_294);
    assert_eq!(safe_power_modulo(max, 3, nz(max - 1)), 1);
    assert_eq!(safe_power_modulo(max - 1, 2, nz(max)), 1);
    assert_eq!(safe_power_modulo(4_294_967_291, 65537, nz(max)), 4_294_967_291);
    assert_eq!(safe_power_modulo(max - 1, max, nz(4_294_967_291)), 243);
    assert_eq!(safe_power_modulo(123_456_789, max, nz(max)), 1_443_517_839);
}

fn reference_power(base: u32, exponent: u32, modulus: u32) -> u32 {
    let m = modulus as u128;
    let mut result: u128 = 1 % m;
    for _ in 0..exponent {
        result = result * (base as u128) % m;
    }
    result as u32
}

#[test]
fn agrees_with_repeated_multiplication() {
    let moduli = [2u32, 3, 1025, 65_521, 1_860_440_669, 4_294_967_291, u32::MAX];
    let bases = [1u32, 2, 3, 1024, 65_536, 1_860_440_668, u32::MAX - 1, u32::MAX];
    for m in moduli {
        for x in bases {
            for k in 1u32..40 {
                assert_eq!(safe_power_modulo(x, k, nz(m)), reference_power(x, k, m));
            }
        }
    }
}

#[test]
fn result_is_below_modulus() {
    for m in [1u32, 2, 3, 1025, u32::MAX] {
        for x in [1u32, 5, 1024, u32::MAX] {
            for k in [0u32, 1, 2, 17, u32::MAX] {
                assert!(safe_power_modulo(x, k, nz(m)) < m);
            }
        }
    }
}
