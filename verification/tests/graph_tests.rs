use contrac::GraphUi;
use contrac::Sample;

fn sample(timestamp: u128, rtt: Option<u16>) -> Sample {
    Sample {
        destination: b"9.9.9.9".to_vec(),
        timestamp,
        rtt,
    }
}

#[test]
fn init_sets_range_and_grows_bars() {
    let mut graph: GraphUi = Default::default();
    graph.init(4, 10, 200);
    assert_eq!(graph.get_min_max(), (10, 200));
    assert_eq!(graph.data.bars.len(), 4);
    for bar in &graph.data.bars {
        assert_eq!(bar.count, 0);
    }
    // Enlarging keeps existing bars; shrinking truncates.
    graph.init(6, 10, 200);
    assert_eq!(graph.data.bars.len(), 6);
    graph.init(2, 10, 200);
    assert_eq!(graph.data.bars.len(), 2);
}

#[test]
fn min_max_click_parses_and_repairs_the_range() {
    let mut graph: GraphUi = Default::default();
    graph.on_min_max_click(b"250", b"40");
    assert_eq!(graph.get_min_max(), (40, 250));

    // Unparseable fields fall back to the defaults.
    graph.on_min_max_click(b"", b"oops");
    assert_eq!(graph.get_min_max(), (0, 300));
    graph.on_min_max_click(b"70000", b"12");
    assert_eq!(graph.get_min_max(), (12, 300));

    // A maximum below the minimum is raised to ten above it.
    graph.on_min_max_click(b"5", b"90");
    assert_eq!(graph.get_min_max(), (90, 100));
}

#[test]
fn set_values_buckets_samples_by_aligned_windows() {
    let mut graph: GraphUi = Default::default();
    graph.init(3, 0, 100);
    // now = 2.5 s, so the newest bucket is [2 s, 3 s), then [1 s, 2 s),
    // then [0 s, 1 s).
    let now: u128 = 2_500_000_000;
    let samples = vec![
        sample(500_000_000, Some(10)),
        sample(1_500_000_000, None),
        sample(1_600_000_000, Some(30)),
        sample(2_400_000_000, Some(20)),
    ];
    graph.set_values(&samples, now);

    let oldest = &graph.data.bars[0];
    assert_eq!(oldest.count, 1);
    assert_eq!(oldest.total, 10);
    assert_eq!(oldest.min, 10);
    assert_eq!(oldest.max, 10);
    assert!(!oldest.timeout);

    let middle = &graph.data.bars[1];
    assert_eq!(middle.count, 1);
    assert_eq!(middle.total, 30);
    assert!(middle.timeout);

    let newest = &graph.data.bars[2];
    assert_eq!(newest.count, 1);
    assert_eq!(newest.total, 20);
    assert!(!newest.timeout);
}

#[test]
fn samples_older_than_the_span_are_left_out() {
    let mut graph: GraphUi = Default::default();
    graph.init(2, 0, 100);
    let now: u128 = 10_500_000_000;
    // Only [9 s, 10 s) and [10 s, 11 s) are covered by the two buckets.
    let samples = vec![
        sample(1_000_000_000, Some(99)),
        sample(9_500_000_000, Some(7)),
    ];
    graph.set_values(&samples, now);
    assert_eq!(graph.data.bars[0].count, 1);
    assert_eq!(graph.data.bars[0].total, 7);
    assert_eq!(graph.data.bars[1].count, 0);
}

#[test]
fn empty_buckets_render_invisible_and_values_are_clipped() {
    let mut graph: GraphUi = Default::default();
    graph.init(2, 20, 50);
    let now: u128 = 2_500_000_000;
    // One sample in the newest bucket, nothing in the older one.
    let samples = vec![sample(2_100_000_000, Some(80))];
    graph.set_values(&samples, now);

    let rendered = graph.on_resize();
    assert_eq!(rendered.len(), 2);
    // A bucket with no data must be distinguishable from real data.
    assert_eq!(rendered[0], None);
    // 80 lies above the display maximum of 50, so both ends clip to 50.
    assert_eq!(rendered[1], Some((50, 50)));
}

#[test]
fn recompute_replaces_previous_bucket_contents() {
    let mut graph: GraphUi = Default::default();
    graph.init(2, 0, 100);
    let now: u128 = 1_500_000_000;
    let samples = vec![sample(1_200_000_000, Some(15))];
    graph.set_values(&samples, now);
    assert_eq!(graph.data.bars[1].count, 1);

    // A later tick with an empty history empties every bucket again.
    let none: Vec<Sample> = Vec::new();
    graph.set_values(&none, now);
    assert_eq!(graph.data.bars[0].count, 0);
    assert_eq!(graph.data.bars[1].count, 0);
}
