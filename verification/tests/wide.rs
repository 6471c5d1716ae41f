use atp_router::wide::Wide;

#[test]
fn comparison_of_small_numbers() {
    let three = Wide::from_u128(3);
    let four = Wide::from_u128(4);
    assert!(four.at_least(&three));
    assert!(!three.at_least(&four));
    assert!(three.at_least(&three));
    assert!(Wide::from_u128(0).at_least(&Wide::from_u128(0)));
    assert!(!Wide::from_u128(0).at_least(&Wide::from_u128(1)));
}

#[test]
fn sums_carry_over_the_limbs() {
    let max = Wide::from_u128(u128::MAX);
    let one = Wide::from_u128(1);
    let sum = max.plus(&one);
    assert!(sum.at_least(&max));
    assert!(!max.at_least(&sum));
    let again = Wide::from_u128(u128::MAX - 1).plus(&Wide::from_u128(2));
    assert!(again.at_least(&sum));
    assert!(sum.at_least(&again));
    assert!(!again.at_least(&sum.plus(&one)));
    let low = Wide::from_u128(u64::MAX as u128).plus(&one);
    assert!(low.at_least(&Wide::from_u128(1 << 64)));
    assert!(Wide::from_u128(1 << 64).at_least(&low));
}

#[test]
fn products_with_a_word() {
    let x = Wide::from_u128(u128::MAX);
    let twice = x.times(2);
    assert!(twice.at_least(&x.plus(&x)));
    assert!(x.plus(&x).at_least(&twice));
    assert!(Wide::from_u128(0).at_least(&x.times(0)));
    let p = Wide::from_u128(1 << 100).times(1 << 40);
    let q = Wide::from_u128(1 << 120).times(1 << 20);
    assert!(p.at_least(&q));
    assert!(q.at_least(&p));
    assert!(!p.at_least(&q.plus(&Wide::from_u128(1))));
}

#[test]
fn products_of_wide_numbers() {
    let a = Wide::from_u128((1 << 100) + 7);
    let b = Wide::from_u128((1 << 90) + 3);
    let ab = a.product(&b);
    let ba = b.product(&a);
    assert!(ab.at_least(&ba));
    assert!(ba.at_least(&ab));
    // (2^100 + 7)(2^90 + 3) = 2^190 + 3 * 2^100 + 7 * 2^90 + 21
    let high = Wide::from_u128(1 << 95).product(&Wide::from_u128(1 << 95));
    let expected = high
        .plus(&Wide::from_u128(3 << 100))
        .plus(&Wide::from_u128(7 << 90))
        .plus(&Wide::from_u128(21));
    assert!(ab.at_least(&expected));
    assert!(expected.at_least(&ab));
    assert!(!ab.at_least(&expected.plus(&Wide::from_u128(1))));
    let zero = Wide::from_u128(0);
    assert!(zero.at_least(&a.product(&zero)));
    assert!(zero.at_least(&zero.product(&a)));
}

#[test]
fn comparison_looks_at_the_high_limbs_first() {
    let big = Wide::from_u128(1 << 64);
    let small = Wide::from_u128(u64::MAX as u128);
    assert!(big.at_least(&small));
    assert!(!small.at_least(&big));
    let square = big.product(&big).product(&big);
    assert!(square.at_least(&Wide::from_u128(u128::MAX)));
    assert!(!Wide::from_u128(u128::MAX).at_least(&square));
}
