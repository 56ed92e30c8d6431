use dex_quote_engine::U256;

#[test]
fn limbs_round_trip() {
    let limbs = [1u64, 2, 3, 4];
    assert_eq!(U256::from_limbs(limbs).into_limbs(), limbs);
}

#[test]
fn widening_keeps_the_value() {
    assert_eq!(U256::from_u128(u128::MAX).into_limbs(), [u64::MAX, u64::MAX, 0, 0]);
    assert_eq!(U256::from_u64(7).into_limbs(), [7, 0, 0, 0]);
}

#[test]
fn checked_add_carries_and_detects_overflow() {
    let a = U256::from_limbs([u64::MAX, 0, 0, 0]);
    assert_eq!(a.checked_add(U256::one()).unwrap().into_limbs(), [0, 1, 0, 0]);
    assert_eq!(U256::max_value().checked_add(U256::one()), None);
}

#[test]
fn checked_sub_borrows_and_detects_underflow() {
    let a = U256::from_limbs([0, 1, 0, 0]);
    assert_eq!(a.checked_sub(U256::one()).unwrap().into_limbs(), [u64::MAX, 0, 0, 0]);
    assert_eq!(U256::zero().checked_sub(U256::one()), None);
}

#[test]
fn checked_mul_multiplies_and_detects_overflow() {
    let a = U256::from_limbs([0, 1, 0, 0]);
    assert_eq!(a.checked_mul(a).unwrap().into_limbs(), [0, 0, 1, 0]);
    let b = U256::from_limbs([0, 0, 1, 0]);
    assert_eq!(b.checked_mul(b), None);
    assert_eq!(U256::from_u64(6).checked_mul(U256::from_u64(7)).unwrap(), U256::from_u64(42));
}

#[test]
fn comparisons_follow_the_numeric_order() {
    let small = U256::from_limbs([u64::MAX, 0, 0, 0]);
    let big = U256::from_limbs([0, 1, 0, 0]);
    assert!(small.lt_value(&big));
    assert!(!big.lt_value(&small));
    assert!(small.le_value(&small));
    assert!(small < big);
    assert!(U256::zero().is_zero());
    assert!(!U256::one().is_zero());
    assert!(small.eq_value(&small));
}
