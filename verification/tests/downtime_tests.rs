use contrac::DowntimeInterval;
use contrac::Sample;
use contrac::extract_downtime_intervals;

fn sample(timestamp: u128, rtt: Option<u16>) -> Sample {
    Sample {
        destination: b"1.1.1.2".to_vec(),
        timestamp,
        rtt,
    }
}

#[test]
fn one_closed_outage_is_extracted() {
    let samples = vec![
        sample(0, Some(10)),
        sample(1_000_000_000, None),
        sample(2_000_000_000, None),
        sample(3_000_000_000, Some(12)),
    ];
    let intervals = extract_downtime_intervals(&samples);
    assert_eq!(
        intervals,
        vec![DowntimeInterval {
            start: 1_000_000_000,
            end: 3_000_000_000
        }]
    );
    // Two seconds of downtime.
    assert_eq!(intervals[0].end - intervals[0].start, 2_000_000_000);
}

#[test]
fn unclosed_outage_is_not_emitted() {
    let samples = vec![sample(0, Some(5)), sample(1_000_000_000, None)];
    let intervals = extract_downtime_intervals(&samples);
    assert!(intervals.is_empty());
}

#[test]
fn consecutive_outages_each_get_an_interval() {
    let samples = vec![
        sample(0, None),
        sample(10, Some(1)),
        sample(20, Some(1)),
        sample(30, None),
        sample(40, None),
        sample(50, Some(2)),
        sample(60, None),
    ];
    let intervals = extract_downtime_intervals(&samples);
    assert_eq!(
        intervals,
        vec![
            DowntimeInterval { start: 0, end: 10 },
            DowntimeInterval { start: 30, end: 50 },
        ]
    );
}

#[test]
fn empty_history_has_no_intervals() {
    let samples: Vec<Sample> = Vec::new();
    assert!(extract_downtime_intervals(&samples).is_empty());
}
