use contrac::Stats;

#[test]
fn stats_accumulate_count_total_min_max() {
    let mut stats: Stats = Default::default();
    stats.update(Some(10));
    stats.update(Some(30));
    stats.update(None);
    stats.update(Some(20));
    assert_eq!(stats.count, 3);
    assert_eq!(stats.total, 60);
    assert_eq!(stats.min, 10);
    assert_eq!(stats.max, 30);
    assert!(stats.timeout);
    assert_eq!(stats.average(), Some(20));
}

#[test]
fn average_is_none_without_successes_even_after_timeouts() {
    let mut stats: Stats = Default::default();
    assert_eq!(stats.average(), None);
    stats.update(None);
    stats.update(None);
    assert_eq!(stats.average(), None);
}

#[test]
fn average_truncates() {
    let mut stats: Stats = Default::default();
    stats.update(Some(3));
    stats.update(Some(4));
    assert_eq!(stats.average(), Some(3));
}

#[test]
fn timeout_updates_leave_numeric_fields_alone() {
    let mut stats: Stats = Default::default();
    stats.update(Some(42));
    let before = stats;
    stats.update(None);
    stats.update(None);
    assert_eq!(stats.count, before.count);
    assert_eq!(stats.total, before.total);
    assert_eq!(stats.min, before.min);
    assert_eq!(stats.max, before.max);
    assert!(stats.timeout);
    stats.update(Some(1));
    assert!(stats.timeout, "the flag is never cleared by updates");
}

#[test]
fn total_and_count_saturate() {
    let mut stats: Stats = Default::default();
    stats.update(Some(65535));
    stats.update(Some(65535));
    assert_eq!(stats.total, 65535);
    assert_eq!(stats.count, 2);
}

#[test]
fn clear_resets_to_default() {
    let mut stats: Stats = Default::default();
    stats.update(Some(7));
    stats.update(None);
    stats._clear();
    let fresh: Stats = Default::default();
    assert_eq!(stats, fresh);
    assert_eq!(fresh.min, u16::MAX);
    assert_eq!(fresh.max, 0);
    assert_eq!(fresh.count, 0);
    assert_eq!(fresh.total, 0);
    assert!(!fresh.timeout);
}
