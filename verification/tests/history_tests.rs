use contrac::AppData;
use contrac::Sample;
use contrac::StatusReport;
use contrac::autosave_due;
use contrac::producer_should_stop;
use contrac::refresh_due;

fn sample(timestamp: u128, rtt: Option<u16>) -> Sample {
    Sample {
        destination: b"8.8.8.8".to_vec(),
        timestamp,
        rtt,
    }
}

#[test]
fn record_observation_updates_session_stats() {
    let mut data: AppData = Default::default();
    data.record_observation(sample(5, Some(20)));
    data.record_observation(sample(3, None));
    data.record_observation(sample(9, Some(10)));
    assert_eq!(data.count, 2);
    assert_eq!(data.total, 30);
    assert_eq!(data.min, 10);
    assert_eq!(data.max, 20);
    assert_eq!(data.samples.len(), 3);
    assert_eq!(data.average(), Some(15));
}

#[test]
fn reset_clears_totals_but_keeps_history() {
    let mut data: AppData = Default::default();
    data.record_observation(sample(1, Some(8)));
    data.reset_session_stats();
    assert_eq!(data.count, 0);
    assert_eq!(data.total, 0);
    assert_eq!(data.min, u16::MAX);
    assert_eq!(data.max, 0);
    assert_eq!(data.samples.len(), 1);
    assert_eq!(data.average(), None);
}

#[test]
fn sort_orders_by_timestamp() {
    let mut data: AppData = Default::default();
    data.record_observation(sample(30, Some(3)));
    data.record_observation(sample(10, Some(1)));
    data.record_observation(sample(20, None));
    data.sort();
    let stamps: Vec<u128> = data.samples.iter().map(|s| s.timestamp).collect();
    assert_eq!(stamps, vec![10, 20, 30]);
    assert_eq!(data.samples[0].rtt, Some(1));
    assert_eq!(data.samples[1].rtt, None);
    assert_eq!(data.samples[2].rtt, Some(3));
}

#[test]
fn sorting_twice_changes_nothing() {
    let mut data: AppData = Default::default();
    data.record_observation(sample(7, Some(1)));
    data.record_observation(sample(2, Some(2)));
    data.record_observation(sample(7, Some(3)));
    data.record_observation(sample(1, None));
    data.sort();
    let once: Vec<(u128, Option<u16>)> =
        data.samples.iter().map(|s| (s.timestamp, s.rtt)).collect();
    data.sort();
    let twice: Vec<(u128, Option<u16>)> =
        data.samples.iter().map(|s| (s.timestamp, s.rtt)).collect();
    assert_eq!(once, twice);
}

#[test]
fn outage_tracker_debounces_and_reports_recovery() {
    let mut data: AppData = Default::default();

    let r = data.process_sample(sample(0, Some(10)));
    assert_eq!(
        r,
        StatusReport::Reachable {
            rtt: 10,
            recovered_after: None
        }
    );

    // First timeout opens the outage without a notification.
    let r = data.process_sample(sample(1_000_000_000, None));
    assert_eq!(r, StatusReport::Unreachable { notify: false });

    // Still within the debounce window: no notification yet.
    let r = data.process_sample(sample(1_900_000_000, None));
    assert_eq!(r, StatusReport::Unreachable { notify: false });

    // More than the debounce duration after the outage opened: notify once.
    let r = data.process_sample(sample(2_100_000_000, None));
    assert_eq!(r, StatusReport::Unreachable { notify: true });

    // And only once.
    let r = data.process_sample(sample(2_500_000_000, None));
    assert_eq!(r, StatusReport::Unreachable { notify: false });

    // Recovery reports how long the outage lasted, from its first timeout.
    let r = data.process_sample(sample(3_000_000_000, Some(12)));
    assert_eq!(
        r,
        StatusReport::Reachable {
            rtt: 12,
            recovered_after: Some(2_000_000_000)
        }
    );

    // A fresh outage starts silent again.
    let r = data.process_sample(sample(4_000_000_000, None));
    assert_eq!(r, StatusReport::Unreachable { notify: false });
}

#[test]
fn short_outage_recovers_without_notification() {
    let mut data: AppData = Default::default();
    data.process_sample(sample(0, None));
    let r = data.process_sample(sample(500_000_000, Some(9)));
    assert_eq!(
        r,
        StatusReport::Reachable {
            rtt: 9,
            recovered_after: None
        }
    );
}

#[test]
fn schedule_predicates() {
    assert!(!refresh_due(1_000_000_000, 1_250_000_000));
    assert!(refresh_due(1_000_000_000, 1_250_000_001));
    assert!(!autosave_due(0, 300_000_000_000));
    assert!(autosave_due(0, 300_000_000_001));
}

#[test]
fn producer_stops_exactly_on_send_failure() {
    assert!(!producer_should_stop(true));
    assert!(producer_should_stop(false));
}
