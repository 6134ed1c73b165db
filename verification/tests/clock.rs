use swarm_cli::clock::{checked_millis, saturate_millis, truncate_millis, unix_time_ms, ClockError};

#[test]
fn readings_are_narrowed_three_ways() {
    let big: u128 = (u64::MAX as u128) + 5;
    assert_eq!(truncate_millis(big), 4);
    assert_eq!(truncate_millis(77), 77);
    assert_eq!(saturate_millis(big), u64::MAX);
    assert_eq!(saturate_millis(77), 77);
    assert_eq!(checked_millis(77), Ok(77));
    assert_eq!(checked_millis(big), Err(ClockError::Overflow));
}

#[test]
fn the_clock_reads_after_the_epoch() {
    let now = unix_time_ms().unwrap();
    assert!(now > 1_600_000_000_000);
}
