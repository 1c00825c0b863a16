use rigela::clock::saturate_millis;
use rigela::debounce::DebounceGuard;
use std::time::{Duration, Instant};

#[test]
fn suppresses_within_the_window_and_not_after() {
    let mut guard = DebounceGuard::new();
    assert!(!guard.should_suppress_at("x", 1_000, 100));
    assert!(guard.should_suppress_at("x", 1_050, 100));
    assert!(!guard.should_suppress_at("x", 1_150, 100));
    assert_eq!(guard.last_seen("x"), Some(1_150));
}

#[test]
fn suppressed_occurrence_does_not_renew_the_stamp() {
    let mut guard = DebounceGuard::new();
    assert!(!guard.should_suppress_at("x", 0, 100));
    assert!(guard.should_suppress_at("x", 60, 100));
    assert_eq!(guard.last_seen("x"), Some(0));
    assert!(guard.should_suppress_at("x", 100, 100));
    assert!(!guard.should_suppress_at("x", 101, 100));
    assert_eq!(guard.last_seen("x"), Some(101));
}

#[test]
fn keys_are_apart() {
    let mut guard = DebounceGuard::new();
    assert!(!guard.should_suppress_at("x", 10, 100));
    assert!(!guard.should_suppress_at("y", 20, 100));
    assert!(guard.should_suppress_at("x", 30, 100));
    assert_eq!(guard.last_seen("x"), Some(10));
    assert_eq!(guard.last_seen("y"), Some(20));
    assert_eq!(guard.last_seen("z"), None);
}

#[test]
fn time_that_runs_backwards_counts_as_no_time() {
    let mut guard = DebounceGuard::new();
    assert!(!guard.should_suppress_at("x", 500, 0));
    assert!(guard.should_suppress_at("x", 400, 0));
    assert!(guard.should_suppress_at("x", 500, 0));
    assert!(!guard.should_suppress_at("x", 501, 0));
    assert!(guard.should_suppress_at("x", u64::MAX, u64::MAX));
}

#[test]
fn clear_forgets_every_key() {
    let mut guard = DebounceGuard::new();
    assert!(!guard.should_suppress_at("x", 0, 100));
    guard.clear();
    assert_eq!(guard.last_seen("x"), None);
    assert!(!guard.should_suppress_at("x", 1, 100));
}

#[test]
fn clock_suppresses_within_the_window_then_lets_through() {
    let mut guard = DebounceGuard::new();
    let first = Instant::now();
    assert!(!guard.should_suppress("x", 100));
    assert!(guard.should_suppress("x", 60_000));
    while first.elapsed() < Duration::from_millis(150) {
        std::hint::spin_loop();
    }
    assert!(guard.now() >= 100);
    assert!(!guard.should_suppress("x", 100));
    assert!(guard.should_suppress("x", 60_000));
}

#[test]
fn milliseconds_that_do_not_fit_count_as_the_most() {
    assert_eq!(saturate_millis(0), 0);
    assert_eq!(saturate_millis(150), 150);
    assert_eq!(saturate_millis(u64::MAX as u128), u64::MAX);
    assert_eq!(saturate_millis(u64::MAX as u128 + 1), u64::MAX);
    assert_eq!(saturate_millis(u128::MAX), u64::MAX);
}
