use aeon_counter::big_uint::BigUint;
use aeon_counter::counter::BigCounter;

#[test]
fn new_counter_starts_at_zero_one() {
    let c = BigCounter::new();
    let (total, increment) = c.display();
    assert_eq!(total, "0");
    assert_eq!(increment, "1");
}

#[test]
fn scenario_raise_then_tick() {
    // Start at total=0, increment=1; one raise makes the increment 1001;
    // one tick then brings the total to 1001.
    let mut c = BigCounter::new();
    c.raise_increment();
    assert!(c.increment().eq_value(&BigUint::from_u64(1001)));
    c.tick();
    assert!(c.total().eq_value(&BigUint::from_u64(1001)));
    let (total, increment) = c.display();
    assert_eq!(total, "1001");
    assert_eq!(increment, "1001");
}

#[test]
fn scenario_lower_clamps_from_500() {
    // An increment of 500 cannot give up a full step: it clamps to 1.
    let mut c = BigCounter::from_values(BigUint::from_u64(0), BigUint::from_u64(500));
    c.lower_increment();
    assert!(c.increment().eq_value(&BigUint::from_u64(1)));
}

#[test]
fn scenario_lower_twice_from_2000() {
    // 2000 -> 1000 -> would be 0, clamped to 1.
    let mut c = BigCounter::from_values(BigUint::from_u64(0), BigUint::from_u64(2000));
    c.lower_increment();
    assert!(c.increment().eq_value(&BigUint::from_u64(1000)));
    c.lower_increment();
    assert!(c.increment().eq_value(&BigUint::from_u64(1)));
}

#[test]
fn ticks_accumulate_n_times_increment() {
    // Five ticks at a fixed increment of 7 add exactly 35.
    let mut c = BigCounter::from_values(BigUint::from_u64(0), BigUint::from_u64(7));
    for _ in 0..5 {
        c.tick();
    }
    assert!(c.total().eq_value(&BigUint::from_u64(35)));
}

#[test]
fn raise_then_lower_returns_increment() {
    let mut c = BigCounter::from_values(BigUint::from_u64(0), BigUint::from_u64(500));
    c.raise_increment();
    assert!(c.increment().eq_value(&BigUint::from_u64(1500)));
    c.lower_increment();
    assert!(c.increment().eq_value(&BigUint::from_u64(500)));
}

#[test]
fn increment_never_below_one() {
    let mut c = BigCounter::new();
    c.lower_increment();
    c.lower_increment();
    assert!(c.increment().eq_value(&BigUint::from_u64(1)));
    c.raise_increment();
    c.lower_increment();
    c.lower_increment();
    assert!(c.increment().eq_value(&BigUint::from_u64(1)));
}

#[test]
fn total_never_decreases() {
    let mut c = BigCounter::new();
    let mut prev = c.total().duplicate();
    c.tick();
    let (_, decreased) = c.total().borrowing_sub(&prev);
    assert!(!decreased);
    prev = c.total().duplicate();
    c.raise_increment();
    c.lower_increment();
    c.tick();
    c.tick();
    let (_, decreased2) = c.total().borrowing_sub(&prev);
    assert!(!decreased2);
}

#[test]
fn from_values_clamps_zero_increment() {
    let c = BigCounter::from_values(BigUint::from_u64(0), BigUint::from_u64(0));
    assert!(c.increment().eq_value(&BigUint::from_u64(1)));
}

#[test]
fn raise_saturates_at_the_top() {
    // From the largest increment a raise has nowhere to go: it stays at
    // 2^1024 - 1 rather than wrapping below 1.
    let mut c = BigCounter::from_values(BigUint::from_u64(0), BigUint::max_value());
    c.raise_increment();
    assert!(c.increment().eq_value(&BigUint::max_value()));
    // A lower then steps down normally: max - 1000 plus 1000 is max again.
    c.lower_increment();
    let back = c.increment().wrapping_add(&BigUint::from_u64(1000));
    assert!(back.eq_value(&BigUint::max_value()));
}

#[test]
fn tick_wraps_at_the_top() {
    // total = 2^1024 - 1 with increment 1: the next tick wraps to 0.
    let mut c = BigCounter::from_values(BigUint::max_value(), BigUint::from_u64(1));
    c.tick();
    assert!(c.total().is_zero());
}

#[test]
fn display_renders_multi_limb_decimal() {
    // 2^64 = u64::MAX + 1 spans two limbs; its decimal rendering is exact.
    let two_to_64 = BigUint::from_u64(u64::MAX).wrapping_add(&BigUint::from_u64(1));
    let c = BigCounter::from_values(two_to_64, BigUint::from_u64(1));
    let (total, _) = c.display();
    assert_eq!(total, "18446744073709551616");
}
