//! Time-bucketed aggregation of the sample history into a fixed number of
//! display bars, and the logic-side state of the graph widget.

use crate::history::Sample;
use crate::history::sorted_by_timestamp;
use crate::numtext::parse_u16;
use crate::numtext::parse_u16_spec;
use crate::stats::Stats;
use crate::stats::stats_empty;
use crate::stats::stats_of;
use vstd::prelude::*;

verus! {

/// Width of one graph bucket, in nanoseconds.
pub const GRAPH_INTERVAL_NANOS: u128 = 1_000_000_000;

/// Value substituted when the maximum field of the graph cannot be parsed.
pub const DEFAULT_GRAPH_MAX: u16 = 300;

/// Value substituted when the minimum field of the graph cannot be parsed.
pub const DEFAULT_GRAPH_MIN: u16 = 0;

/// Logic-side state of the graph: how many bars it shows, the value-axis
/// clipping range, and one statistics accumulator per bar. Bar `bars.len()-1`
/// is the most recent time bucket.
pub struct GraphData {
    pub bar_count: u16,
    pub min: u16,
    pub max: u16,
    pub bars: Vec<Stats>,
}

impl Default for GraphData {
    /// A graph with no bars and the widest clipping range.
    fn default() -> (r: Self)
        ensures
            r.bar_count == 0,
            r.min == u16::MAX,
            r.max == 0,
            r.bars@ == Seq::<Stats>::empty(),
    {
        GraphData { bar_count: 0, min: u16::MAX, max: 0, bars: Vec::new() }
    }
}

/// The graph widget's verifiable core. The rendering layer owns the actual
/// controls; this type owns every value they display.
pub struct GraphUi {
    pub data: GraphData,
}

impl Default for GraphUi {
    /// A widget around an empty graph.
    fn default() -> (r: Self)
        ensures
            r.data.bar_count == 0,
            r.data.min == u16::MAX,
            r.data.max == 0,
            r.data.bars@ == Seq::<Stats>::empty(),
    {
        GraphUi { data: GraphData { bar_count: 0, min: u16::MAX, max: 0, bars: Vec::new() } }
    }
}

/// `x`, or zero when `x` is negative.
pub open spec fn clamp0(x: int) -> int {
    if x >= 0 {
        x
    } else {
        0
    }
}

/// The current time rounded up to the next bucket boundary aligned to the
/// epoch: the upper bound of the newest bucket, chosen so that the newest
/// bucket always contains `now`.
pub open spec fn aligned_end(now: int) -> int {
    ((now + GRAPH_INTERVAL_NANOS) / (GRAPH_INTERVAL_NANOS as int)) * (GRAPH_INTERVAL_NANOS as int)
}

/// Exclusive upper bound of the time window of bar `j` out of `bar_len`
/// (bar `bar_len - 1` is the newest); buckets walk backward in time,
/// abutting and non-overlapping.
pub open spec fn bucket_end(now: int, bar_len: int, j: int) -> int {
    aligned_end(now) - (bar_len - 1 - j) * (GRAPH_INTERVAL_NANOS as int)
}

/// Inclusive lower bound of the time window of bar `j` out of `bar_len`.
pub open spec fn bucket_start(now: int, bar_len: int, j: int) -> int {
    bucket_end(now, bar_len, j) - GRAPH_INTERVAL_NANOS
}

/// The outcomes of the samples of `s` whose timestamp falls in `[lo, hi)`,
/// in history order.
pub open spec fn window_outcomes(s: Seq<Sample>, lo: int, hi: int) -> Seq<Option<u16>>
    decreases s.len(),
{
    if s.len() == 0 {
        Seq::empty()
    } else {
        let rest = window_outcomes(s.drop_first(), lo, hi);
        if lo <= s.first().timestamp < hi {
            seq![s.first().rtt] + rest
        } else {
            rest
        }
    }
}

/// A window over samples that all lie outside `[lo, hi)` is empty.
proof fn lemma_window_empty(s: Seq<Sample>, lo: int, hi: int)
    requires
        forall|m: int| 0 <= m < s.len() ==> !(lo <= (#[trigger] s[m]).timestamp < hi),
    ensures
        window_outcomes(s, lo, hi) == Seq::<Option<u16>>::empty(),
    decreases s.len(),
{
    if s.len() > 0 {
        assert(forall|m: int| 0 <= m < s.drop_first().len() ==> s.drop_first()[m] == s[m + 1]);
        lemma_window_empty(s.drop_first(), lo, hi);
    }
}

/// Samples below the window contribute nothing: the window over `s` equals
/// the window over `s` with its first `a` samples dropped, provided those
/// all lie before `lo`.
proof fn lemma_window_skip_below(s: Seq<Sample>, lo: int, hi: int, a: int)
    requires
        0 <= a <= s.len(),
        forall|m: int| 0 <= m < a ==> (#[trigger] s[m]).timestamp < lo,
    ensures
        window_outcomes(s, lo, hi) == window_outcomes(s.skip(a), lo, hi),
    decreases a,
{
    if a == 0 {
        assert(s.skip(0) =~= s);
    } else {
        assert(s.drop_first() =~= s.skip(1));
        assert(forall|m: int| 0 <= m < s.skip(1).len() ==> s.skip(1)[m] == s[m + 1]);
        lemma_window_skip_below(s.skip(1), lo, hi, a - 1);
        assert(s.skip(1).skip(a - 1) =~= s.skip(a));
    }
}

/// The bucket whose window contains the instant `t`: buckets count down
/// from the newest (`bar_len - 1`), one per whole interval between `t` and
/// the aligned end.
pub open spec fn bucket_index_of(now: int, bar_len: int, t: int) -> int {
    bar_len - 1 - ((aligned_end(now) - 1 - t) / (GRAPH_INTERVAL_NANOS as int))
}

/// Law: a timestamp below the newest bucket's upper bound and within the
/// span of the buckets falls into exactly one bucket window, the one named
/// by `bucket_index_of`.
pub proof fn lemma_bucket_partition(now: int, bar_len: int, t: int)
    requires
        bar_len >= 1,
        bucket_start(now, bar_len, 0) <= t < bucket_end(now, bar_len, bar_len - 1),
    ensures
        0 <= bucket_index_of(now, bar_len, t) < bar_len,
        bucket_start(now, bar_len, bucket_index_of(now, bar_len, t)) <= t < bucket_end(
            now,
            bar_len,
            bucket_index_of(now, bar_len, t),
        ),
        forall|j: int|
            0 <= j < bar_len && #[trigger] bucket_start(now, bar_len, j) <= t < bucket_end(
                now,
                bar_len,
                j,
            ) ==> j == bucket_index_of(now, bar_len, t),
{
    let iv = GRAPH_INTERVAL_NANOS as int;
    let e0 = aligned_end(now);
    let d = e0 - 1 - t;
    assert(iv == 1_000_000_000);
    assert(bucket_end(now, bar_len, bar_len - 1) == e0);
    assert(d >= 0);
    vstd::arithmetic::div_mod::lemma_fundamental_div_mod(d, iv);
    vstd::arithmetic::div_mod::lemma_mod_bound(d, iv);
    let k = d / iv;
    assert(k * iv <= d < (k + 1) * iv);
    assert(k >= 0);
    assert(d <= bar_len * iv - 1);
    assert(k < bar_len);
    let idx = bucket_index_of(now, bar_len, t);
    assert(idx == bar_len - 1 - k);
    assert(bucket_end(now, bar_len, idx) == e0 - k * iv);
    assert(bucket_start(now, bar_len, idx) == e0 - (k + 1) * iv);
    assert forall|j: int|
        0 <= j < bar_len && #[trigger] bucket_start(now, bar_len, j) <= t < bucket_end(
            now,
            bar_len,
            j,
        ) implies j == idx by {
        let kj = bar_len - 1 - j;
        assert(bucket_end(now, bar_len, j) == e0 - kj * iv);
        assert(bucket_start(now, bar_len, j) == e0 - (kj + 1) * iv);
        assert(kj * iv <= d < (kj + 1) * iv);
        if kj < k {
            assert((kj + 1) * iv <= k * iv);
        }
        if kj > k {
            assert((k + 1) * iv <= kj * iv);
        }
    }
}

/// Clips `v` into the display range `[lo, hi]`, bounds applied in that
/// order.
pub open spec fn clip(v: u16, lo: u16, hi: u16) -> u16 {
    let raised = if v < lo {
        lo
    } else {
        v
    };
    if raised > hi {
        hi
    } else {
        raised
    }
}

impl GraphUi {
    /// Sets the number of bars and the value-axis clipping range. Bars kept
    /// from before retain their statistics; new bars start empty.
    pub fn init(&mut self, graph_bars_len: u16, min: u16, max: u16)
        ensures
            final(self).data.bar_count == graph_bars_len,
            final(self).data.min == min,
            final(self).data.max == max,
            final(self).data.bars@.len() == graph_bars_len as int,
            forall|k: int|
                0 <= k < graph_bars_len as int && k < old(self).data.bars@.len()
                    ==> final(self).data.bars@[k] == old(self).data.bars@[k],
            forall|k: int|
                old(self).data.bars@.len() <= k < graph_bars_len as int
                    ==> final(self).data.bars@[k] == stats_empty(),
    {
        self.data.bar_count = graph_bars_len;
        self.data.min = min;
        self.data.max = max;
        let target = graph_bars_len as usize;
        let ghost orig = self.data.bars@;
        proof {
            assert(orig.take(orig.len() as int) =~= orig);
        }
        while self.data.bars.len() > target
            invariant
                self.data.bars@.len() <= orig.len(),
                self.data.bars@.len() >= target || self.data.bars@.len() == orig.len(),
                self.data.bars@ == orig.take(self.data.bars@.len() as int),
                self.data.bar_count == graph_bars_len,
                self.data.min == min,
                self.data.max == max,
            decreases self.data.bars@.len(),
        {
            proof {
                assert(orig.take(self.data.bars@.len() as int).drop_last() =~= orig.take(
                    self.data.bars@.len() - 1,
                ));
            }
            self.data.bars.pop();
        }
        assert(self.data.bars@.len() <= target);
        assert(forall|k: int|
            0 <= k < self.data.bars@.len() ==> #[trigger] self.data.bars@[k] == orig[k]);
        while self.data.bars.len() < target
            invariant
                self.data.bars@.len() <= target,
                self.data.bars@.len() >= orig.len() || self.data.bars@.len() >= target,
                forall|k: int|
                    0 <= k < target as int && k < orig.len() && k < self.data.bars@.len()
                        ==> self.data.bars@[k] == orig[k],
                forall|k: int|
                    orig.len() <= k < self.data.bars@.len() ==> self.data.bars@[k]
                        == stats_empty(),
                self.data.bar_count == graph_bars_len,
                self.data.min == min,
                self.data.max == max,
            decreases target - self.data.bars@.len(),
        {
            let bar: Stats = Default::default();
            self.data.bars.push(bar);
        }
    }

    /// Re-reads the value-axis range from the two text fields: an
    /// unparseable field falls back to its default, and a maximum below the
    /// minimum is raised to ten above it.
    pub fn on_min_max_click(&mut self, max_text: &[u8], min_text: &[u8])
        ensures
            ({
                let wanted_min = match parse_u16_spec(min_text@) {
                    Some(v) => v,
                    None => DEFAULT_GRAPH_MIN,
                };
                let wanted_max = match parse_u16_spec(max_text@) {
                    Some(v) => v,
                    None => DEFAULT_GRAPH_MAX,
                };
                &&& final(self).data.min == wanted_min
                &&& final(self).data.max == if wanted_max < wanted_min {
                    if wanted_min + 10 > 0xffff {
                        0xffff as u16
                    } else {
                        (wanted_min + 10) as u16
                    }
                } else {
                    wanted_max
                }
            }),
            final(self).data.min <= final(self).data.max,
            final(self).data.bar_count == old(self).data.bar_count,
            final(self).data.bars == old(self).data.bars,
    {
        let mut max = match parse_u16(max_text) {
            Some(v) => v,
            None => DEFAULT_GRAPH_MAX,
        };
        let min = match parse_u16(min_text) {
            Some(v) => v,
            None => DEFAULT_GRAPH_MIN,
        };
        if max < min {
            max = min.saturating_add(10);
        }
        self.data.min = min;
        self.data.max = max;
    }

    /// The current value-axis clipping range.
    pub fn get_min_max(&self) -> (r: (u16, u16))
        ensures
            r == (self.data.min, self.data.max),
    {
        (self.data.min, self.data.max)
    }

    /// Recomputes every bar from the sorted history: bar `j` becomes the
    /// statistics of exactly the samples whose timestamp falls in its
    /// window `[bucket_start(j), bucket_end(j))`, where the newest bar's
    /// window is aligned to the epoch and contains `now`. Samples older
    /// than the oldest bar are left out; a bucket with no samples ends up
    /// empty.
    pub fn set_values(&mut self, samples: &Vec<Sample>, now_nanos: u128)
        requires
            sorted_by_timestamp(samples@),
            forall|m: int|
                0 <= m < samples@.len() ==> (#[trigger] samples@[m]).timestamp <= now_nanos,
            now_nanos + GRAPH_INTERVAL_NANOS <= u128::MAX,
        ensures
            final(self).data.bar_count == old(self).data.bar_count,
            final(self).data.min == old(self).data.min,
            final(self).data.max == old(self).data.max,
            final(self).data.bars@.len() == old(self).data.bars@.len(),
            forall|j: int|
                0 <= j < final(self).data.bars@.len() ==> #[trigger] final(self).data.bars@[j]
                    == stats_of(
                    window_outcomes(
                        samples@,
                        bucket_start(now_nanos as int, old(self).data.bars@.len() as int, j),
                        bucket_end(now_nanos as int, old(self).data.bars@.len() as int, j),
                    ),
                ),
    {
        let interval: u128 = GRAPH_INTERVAL_NANOS;
        proof {
            vstd::arithmetic::div_mod::lemma_fundamental_div_mod(
                (now_nanos + interval) as int,
                interval as int,
            );
            vstd::arithmetic::div_mod::lemma_mod_bound(
                (now_nanos + interval) as int,
                interval as int,
            );
        }
        let mut end: u128 = (now_nanos + interval) / interval * interval;
        let ghost e0 = aligned_end(now_nanos as int);
        proof {
            assert(end as int == e0);
            assert(now_nanos < e0);
        }
        let mut start: u128 = if end >= interval {
            end - interval
        } else {
            0
        };
        let n = samples.len();
        let mut p: usize = n;
        let len = self.data.bars.len();
        let ghost ilen = len as int;
        let ghost bc0 = self.data.bar_count;
        let ghost min0 = self.data.min;
        let ghost max0 = self.data.max;
        let mut i: usize = len;
        while i > 0
            invariant
                interval == GRAPH_INTERVAL_NANOS,
                i <= len,
                len == self.data.bars@.len(),
                ilen == len as int,
                self.data.bar_count == bc0,
                self.data.min == min0,
                self.data.max == max0,
                p <= n,
                n == samples@.len(),
                sorted_by_timestamp(samples@),
                forall|m: int|
                    0 <= m < samples@.len() ==> (#[trigger] samples@[m]).timestamp <= now_nanos,
                e0 == aligned_end(now_nanos as int),
                now_nanos < e0,
                end as int == clamp0(e0 - (ilen - i) * (GRAPH_INTERVAL_NANOS as int)),
                start as int == clamp0(
                    e0 - (ilen - i) * (GRAPH_INTERVAL_NANOS as int) - (
                    GRAPH_INTERVAL_NANOS as int),
                ),
                forall|m: int| 0 <= m < p ==> (#[trigger] samples@[m]).timestamp < end,
                forall|m: int| p <= m < n ==> (#[trigger] samples@[m]).timestamp >= end,
                forall|j: int|
                    i <= j < ilen ==> #[trigger] self.data.bars@[j] == stats_of(
                        window_outcomes(
                            samples@,
                            bucket_start(now_nanos as int, ilen, j),
                            bucket_end(now_nanos as int, ilen, j),
                        ),
                    ),
            decreases i,
        {
            let ghost lo = bucket_start(now_nanos as int, ilen, i - 1);
            let ghost hi = bucket_end(now_nanos as int, ilen, i - 1);
            proof {
                assert(hi == e0 - (ilen - i) * (GRAPH_INTERVAL_NANOS as int));
                assert(end as int == clamp0(hi));
                assert(start as int == clamp0(lo));
                assert forall|m: int| p <= m < n implies !(lo <= (#[trigger] samples@[m]).timestamp
                    < hi) by {
                    assert(samples@[m].timestamp >= end);
                }
                assert(forall|m: int|
                    0 <= m < samples@.skip(p as int).len() ==> #[trigger] samples@.skip(
                        p as int,
                    )[m] == samples@[p + m]);
                lemma_window_empty(samples@.skip(p as int), lo, hi);
                crate::stats::lemma_stats_of_empty();
            }
            let mut st: Stats = Default::default();
            let ghost p_entry = p as int;
            while p > 0 && samples[p - 1].timestamp >= start
                invariant
                    p <= p_entry <= n,
                    n == samples@.len(),
                    sorted_by_timestamp(samples@),
                    end as int == clamp0(hi),
                    start as int == clamp0(lo),
                    hi == lo + GRAPH_INTERVAL_NANOS,
                    forall|m: int| 0 <= m < p ==> (#[trigger] samples@[m]).timestamp < end,
                    forall|m: int|
                        p <= m < p_entry ==> (#[trigger] samples@[m]).timestamp >= start,
                    st == stats_of(window_outcomes(samples@.skip(p as int), lo, hi)),
                decreases p,
            {
                let ghost pre = p as int;
                let sample_rtt = samples[p - 1].rtt;
                proof {
                    let skipped = samples@.skip(pre - 1);
                    assert(skipped.first() == samples@[pre - 1]);
                    assert(skipped.drop_first() =~= samples@.skip(pre));
                    assert(samples@[pre - 1].timestamp < end);
                    assert(end > 0);
                    assert(hi == end as int);
                    assert(lo <= samples@[pre - 1].timestamp < hi);
                    assert(window_outcomes(skipped, lo, hi) == seq![samples@[pre - 1].rtt]
                        + window_outcomes(samples@.skip(pre), lo, hi));
                    crate::stats::lemma_stats_of_prepend(
                        samples@[pre - 1].rtt,
                        window_outcomes(samples@.skip(pre), lo, hi),
                    );
                }
                st.update(sample_rtt);
                p -= 1;
            }
            proof {
                assert forall|m: int| 0 <= m < p implies (#[trigger] samples@[m]).timestamp
                    < lo by {
                    assert(samples@[m].timestamp <= samples@[p - 1].timestamp);
                    assert(samples@[p - 1].timestamp < start);
                    assert(start as int == clamp0(lo));
                }
                lemma_window_skip_below(samples@, lo, hi, p as int);
            }
            self.data.bars.set(i - 1, st);
            end = start;
            start = if end >= interval {
                end - interval
            } else {
                0
            };
            proof {
                assert(e0 - (ilen - (i - 1)) * (GRAPH_INTERVAL_NANOS as int) == lo);
                assert(end as int == clamp0(lo));
                assert(interval > 0);
                if end >= interval {
                    assert(clamp0(lo) >= interval as int);
                    assert(lo >= interval as int);
                }
                assert(start as int == clamp0(lo - (GRAPH_INTERVAL_NANOS as int)));
                assert forall|m: int| 0 <= m < p implies (#[trigger] samples@[m]).timestamp
                    < end by {
                    assert(samples@[m].timestamp < lo || p == 0);
                }
                assert forall|m: int| p <= m < n implies (#[trigger] samples@[m]).timestamp
                    >= end by {}
            }
            i -= 1;
        }
    }

    /// What each bar should display: `None` for a bar whose bucket received
    /// no data (it must be rendered invisible, never as a zero value), and
    /// otherwise the bar's minimum and maximum clipped into the value-axis
    /// range.
    pub fn on_resize(&self) -> (r: Vec<Option<(u16, u16)>>)
        ensures
            r@.len() == self.data.bars@.len(),
            forall|j: int|
                0 <= j < r@.len() ==> #[trigger] r@[j] == if self.data.bars@[j].count == 0 {
                    None
                } else {
                    Some(
                        (
                            clip(self.data.bars@[j].min, self.data.min, self.data.max),
                            clip(self.data.bars@[j].max, self.data.min, self.data.max),
                        ),
                    )
                },
    {
        let mut r: Vec<Option<(u16, u16)>> = Vec::new();
        let n = self.data.bars.len();
        let mut j: usize = 0;
        while j < n
            invariant
                j <= n,
                n == self.data.bars@.len(),
                r@.len() == j as int,
                forall|k: int|
                    0 <= k < j as int ==> #[trigger] r@[k] == if self.data.bars@[k].count == 0 {
                        None
                    } else {
                        Some(
                            (
                                clip(self.data.bars@[k].min, self.data.min, self.data.max),
                                clip(self.data.bars@[k].max, self.data.min, self.data.max),
                            ),
                        )
                    },
            decreases n - j,
        {
            let bar = self.data.bars[j];
            if bar.count == 0 {
                r.push(None);
            } else {
                let mut low = bar.min;
                let mut high = bar.max;
                if low < self.data.min {
                    low = self.data.min;
                }
                if low > self.data.max {
                    low = self.data.max;
                }
                if high < self.data.min {
                    high = self.data.min;
                }
                if high > self.data.max {
                    high = self.data.max;
                }
                r.push(Some((low, high)));
            }
            j += 1;
        }
        r
    }
}

} // verus!
