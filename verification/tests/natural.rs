use sn3218::natural::Wide;

fn same(a: &Wide, b: &Wide) -> bool {
    a.le(b) && b.le(a)
}

#[test]
fn small_numbers_compare_as_numbers() {
    let three = Wide::from_small(3);
    let four = Wide::from_small(4);
    assert!(three.le(&four));
    assert!(!four.le(&three));
    assert!(three.le(&three));
    assert!(Wide::from_small(0).le(&three));
    assert!(!three.le(&Wide::from_small(0)));
}

#[test]
fn mul_small_multiplies() {
    let n = Wide::from_small(7).mul_small(6);
    assert!(same(&n, &Wide::from_small(42)));
    let n = n.mul_small(0);
    assert!(same(&n, &Wide::from_small(0)));
}

#[test]
fn mul_small_carries_into_the_next_limb() {
    // 0xFFFF_FFFF * 0xFFFF_FFFF = 0xFFFF_FFFE_0000_0001
    let n = Wide::from_small(0xFFFF_FFFF).mul_small(0xFFFF_FFFF);
    // 65536^4 = 2^64 is just above, 65535 * 65536^3 is below
    let above = Wide::power_of(65536, 4);
    let below = Wide::power_of(65536, 3).mul_small(65535);
    assert!(n.le(&above));
    assert!(!above.le(&n));
    assert!(below.le(&n));
    assert!(!n.le(&below));
    // and it is 3 * 5 * 17 * 257 * 65537, squared
    let mut product = Wide::from_small(1);
    for factor in [3u32, 5, 17, 257, 65537, 3, 5, 17, 257, 65537] {
        product = product.mul_small(factor);
    }
    assert!(same(&n, &product));
}

#[test]
fn power_of_is_repeated_multiplication() {
    assert!(same(&Wide::power_of(2, 10), &Wide::from_small(1024)));
    assert!(same(&Wide::power_of(255, 0), &Wide::from_small(1)));
    assert!(same(&Wide::power_of(255, 1), &Wide::from_small(255)));
    assert!(same(&Wide::power_of(1, 255), &Wide::from_small(1)));
    assert!(same(&Wide::power_of(255, 4), &Wide::from_small(4_228_250_625)));
    assert!(same(&Wide::power_of(0, 0), &Wide::from_small(1)));
    assert!(same(&Wide::power_of(0, 9), &Wide::from_small(0)));
}

#[test]
fn large_powers_compare_as_numbers() {
    // 16^255 = 2^1020 <= 255^128 < 17^255: the gamma level of 128 is 16
    let reached = Wide::power_of(255, 128);
    assert!(Wide::power_of(16, 255).le(&reached));
    assert!(!Wide::power_of(17, 255).le(&reached));
    // equal numbers built along different ways
    assert!(same(&Wide::power_of(16, 255), &Wide::power_of(2, 1020)));
    assert!(same(&Wide::power_of(256, 255), &Wide::power_of(2, 2040)));
    assert!(!Wide::power_of(256, 255).le(&Wide::power_of(255, 255)));
    assert!(Wide::power_of(255, 255).le(&Wide::power_of(256, 255)));
}

#[test]
fn le_is_decided_by_the_highest_limb_that_differs() {
    // 2^32 against 2^64: the third limb decides
    let low = Wide::power_of(2, 31).mul_small(2);
    let high = Wide::power_of(2, 31).mul_small(2).mul_small(0x8000_0000).mul_small(2);
    assert!(low.le(&high));
    assert!(!high.le(&low));
    assert!(same(&high, &Wide::power_of(2, 64)));
    // 0xFFFF_FFFE_0000_0001 against 3 * 2^64: full lower limbs do not outweigh a higher one
    let three = Wide::power_of(2, 64).mul_small(3);
    let mixed = Wide::from_small(0xFFFF_FFFF).mul_small(0xFFFF_FFFF);
    assert!(mixed.le(&three));
    assert!(!three.le(&mixed));
}
