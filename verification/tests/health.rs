use zestors::health::{backoff, Admission, Health};
use zestors::timings::{ClusterTimings, MILLISECOND, SECOND};
use zestors::wire::MAX_MESSAGE_SIZE;

#[test]
fn backoff_doubles_from_the_minimum_up_to_the_maximum() {
    let timings = ClusterTimings::default();
    assert_eq!(backoff(&timings, 0), 250 * MILLISECOND);
    assert_eq!(backoff(&timings, 1), 250 * MILLISECOND);
    assert_eq!(backoff(&timings, 2), 500 * MILLISECOND);
    assert_eq!(backoff(&timings, 3), SECOND);
    assert_eq!(backoff(&timings, 6), 8 * SECOND);
    assert_eq!(backoff(&timings, 7), 10 * SECOND);
    assert_eq!(backoff(&timings, u32::MAX), 10 * SECOND);
}

#[test]
fn backoff_doubles_at_most_sixteen_times_and_saturates() {
    let mut timings = ClusterTimings::default();
    timings.reconnect_backoff_min = 1;
    timings.reconnect_backoff_max = u128::MAX;
    assert_eq!(backoff(&timings, 17), 65536);
    assert_eq!(backoff(&timings, 40), 65536);
    timings.reconnect_backoff_min = 18446744073709551615999999999;
    assert_eq!(backoff(&timings, 2), 18446744073709551615999999999);
}

#[test]
fn a_peer_is_reported_unreachable_at_the_third_failure_only() {
    let mut health = Health::new();
    assert!(!health.failed(&ClusterTimings::default(), 100, 0));
    assert!(!health.failed(&ClusterTimings::default(), 100, 0));
    assert!(health.failed(&ClusterTimings::default(), 100, 0));
    assert!(health.reported_unreachable());
    assert!(!health.failed(&ClusterTimings::default(), 100, 0));
    assert!(health.succeeded());
    assert!(!health.reported_unreachable());
    assert!(!health.succeeded());
}

#[test]
fn messages_are_dropped_while_backing_off() {
    let mut health = Health::new();
    assert_eq!(health.admission(10, 5), Admission::Send);
    health.failed(&ClusterTimings::default(), 100, 1_000);
    assert!(health.backing_off(1_099));
    assert!(!health.backing_off(1_100));
    assert_eq!(health.admission(10, 1_050), Admission::BackingOff);
    assert_eq!(health.admission(10, 1_100), Admission::Send);
    assert_eq!(
        health.admission(MAX_MESSAGE_SIZE + 1, 2_000),
        Admission::TooLarge
    );
    assert_eq!(health.admission(MAX_MESSAGE_SIZE, 2_000), Admission::Send);
}

#[test]
fn an_idle_lane_lingers_only_for_an_unreachable_peer() {
    let mut health = Health::new();
    assert!(!health.keeps_idle_lane());
    for _ in 0..3 {
        health.failed(&ClusterTimings::default(), 1, 0);
    }
    assert!(health.keeps_idle_lane());
    health.succeeded();
    assert!(!health.keeps_idle_lane());
}

#[test]
fn the_next_failure_backs_off_for_one_more_failure() {
    let timings = ClusterTimings::default();
    let mut health = Health::new();
    assert_eq!(health.next_backoff(&timings), timings.reconnect_backoff_min);
    health.failed(&timings, timings.reconnect_backoff_min, 0);
    assert_eq!(health.next_backoff(&timings), 2 * timings.reconnect_backoff_min);
}

#[test]
fn no_pause_between_attempts_is_longer_than_the_maximum() {
    let timings = ClusterTimings::default();
    let mut health = Health::new();
    // A pause stretched past the maximum, as jitter may do, is cut to it.
    health.failed(&timings, timings.reconnect_backoff_max + 7, 1_000);
    assert!(health.backing_off(1_000 + timings.reconnect_backoff_max - 1));
    assert!(!health.backing_off(1_000 + timings.reconnect_backoff_max));
}
