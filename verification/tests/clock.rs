use inertia_relayer::clock::epoch_nanos;
use inertia_relayer::clock::low_nanos;
use inertia_relayer::clock::Clock;

#[test]
fn nanoseconds_keep_the_bits_that_fit() {
    assert_eq!(low_nanos(0), 0);
    assert_eq!(low_nanos(u64::MAX as u128), u64::MAX);
    assert_eq!(low_nanos(u64::MAX as u128 + 1), 0);
    assert_eq!(low_nanos(u64::MAX as u128 + 8), 7);
    assert_eq!(low_nanos(u128::MAX), u64::MAX);
}

#[test]
fn a_time_before_the_epoch_reads_as_zero() {
    assert_eq!(epoch_nanos(None), 0);
    assert_eq!(epoch_nanos(Some(1_577_836_800_000_000_000)), 1_577_836_800_000_000_000);
    assert_eq!(epoch_nanos(Some(u64::MAX as u128 + 3)), 2);
}

#[test]
fn a_clock_starts_near_zero_and_runs_on() {
    let clock = Clock::new();
    let first = clock.now();
    // Less than an hour since it was made.
    assert!(first < 3_600_000_000_000);
    let start = std::time::Instant::now();
    while start.elapsed().as_millis() < 2 {}
    assert!(clock.now() >= first + 2_000_000);
}
