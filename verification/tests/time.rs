use smart_brain::time::{elapsed_between, elapsed_since, instant_now};

#[test]
fn timestamps_monotonic() {
    let a = instant_now();
    let b = instant_now();
    assert!(b >= a);
}

#[test]
fn elapsed_between_saturates_at_zero() {
    assert_eq!(elapsed_between(150, 100), 50);
    assert_eq!(elapsed_between(100, 150), 0);
    assert_eq!(elapsed_between(7, 7), 0);
}

#[test]
fn elapsed_since_the_future_is_zero() {
    assert_eq!(elapsed_since(u64::MAX), 0);
    let now = instant_now();
    assert!(elapsed_since(0) >= now);
}
