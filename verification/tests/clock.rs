use ebloid::clock::{seconds_since_epoch, unix_seconds};
use std::time::{Duration, UNIX_EPOCH};

#[test]
fn counts_whole_seconds_since_the_epoch() {
    assert_eq!(seconds_since_epoch(&(UNIX_EPOCH + Duration::from_millis(90_999))), 90);
    assert_eq!(seconds_since_epoch(&UNIX_EPOCH), 0);
    assert_eq!(seconds_since_epoch(&(UNIX_EPOCH - Duration::from_secs(5))), 0);
}

#[test]
fn reads_the_clock_after_the_epoch() {
    assert!(unix_seconds() > 1_600_000_000);
}
