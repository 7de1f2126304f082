use aeon_counter::big_uint::BigUint;

#[test]
fn from_u64_and_is_zero() {
    assert!(BigUint::from_u64(0).is_zero());
    assert!(!BigUint::from_u64(1).is_zero());
    assert!(!BigUint::from_u64(u64::MAX).is_zero());
}

#[test]
fn eq_value_compares_values() {
    let a = BigUint::from_u64(42);
    let b = BigUint::from_u64(42);
    let c = BigUint::from_u64(43);
    assert!(a.eq_value(&b));
    assert!(!a.eq_value(&c));
}

#[test]
fn wrapping_add_small_values() {
    let sum = BigUint::from_u64(2).wrapping_add(&BigUint::from_u64(3));
    assert!(sum.eq_value(&BigUint::from_u64(5)));
}

#[test]
fn wrapping_add_carries_into_next_limb() {
    // u64::MAX + 1 = 2^64 does not fit a single limb.
    let sum = BigUint::from_u64(u64::MAX).wrapping_add(&BigUint::from_u64(1));
    assert!(!sum.is_zero());
    assert!(!sum.eq_value(&BigUint::from_u64(0)));
    // Adding u64::MAX once more and 1 again gives 2^65.
    let sum2 = sum.wrapping_add(&sum);
    let expected = BigUint::from_u64(u64::MAX)
        .wrapping_add(&BigUint::from_u64(u64::MAX))
        .wrapping_add(&BigUint::from_u64(2));
    assert!(sum2.eq_value(&expected));
}

#[test]
fn borrowing_sub_exact() {
    let (diff, borrowed) = BigUint::from_u64(7).borrowing_sub(&BigUint::from_u64(5));
    assert!(!borrowed);
    assert!(diff.eq_value(&BigUint::from_u64(2)));
}

#[test]
fn borrowing_sub_underflow_wraps_upward() {
    // 5 - 7 borrows: the difference is 2^1024 - 2.
    let (diff, borrowed) = BigUint::from_u64(5).borrowing_sub(&BigUint::from_u64(7));
    assert!(borrowed);
    assert!(diff.wrapping_add(&BigUint::from_u64(2)).is_zero());
}

#[test]
fn max_value_plus_one_wraps_to_zero() {
    let wrapped = BigUint::max_value().wrapping_add(&BigUint::from_u64(1));
    assert!(wrapped.is_zero());
}

#[test]
fn duplicate_preserves_value() {
    let a = BigUint::from_u64(123456789);
    let b = a.duplicate();
    assert!(a.eq_value(&b));
}
