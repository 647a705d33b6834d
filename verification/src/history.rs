//! Probe samples, the append-only sample history with its running session
//! statistics, and the incremental disconnect tracker that drives live status
//! reports and the one-shot outage notification.

use vstd::prelude::*;

verus! {

/// One probe observation: which destination was probed, when (nanoseconds
/// since the Unix epoch), and the round-trip time in milliseconds, or `None`
/// for a timeout.
#[derive(Debug)]
pub struct Sample {
    pub destination: Vec<u8>,
    pub timestamp: u128,
    pub rtt: Option<u16>,
}

/// An outage must persist this long before the one-shot disconnect
/// notification fires.
pub const DEBOUNCE_NANOS: u128 = 1_000_000_000;

/// Minimum delay between two recomputations of the graph buckets.
pub const GRAPH_REFRESH_NANOS: u128 = 250_000_000;

/// Delay between two automatic writes of the downtime log.
pub const AUTO_SAVE_NANOS: u128 = 300_000_000_000;

/// The history is in ascending timestamp order (ties in any order).
pub open spec fn sorted_by_timestamp(s: Seq<Sample>) -> bool {
    forall|a: int, b: int|
        0 <= a < b < s.len() ==> #[trigger] s[a].timestamp <= #[trigger] s[b].timestamp
}

/// What the consumer should surface after recording one sample.
#[derive(Copy, Clone, Debug, PartialEq, Eq, Structural)]
pub enum StatusReport {
    /// The probe succeeded. `recovered_after` carries the length of the
    /// outage (nanoseconds) when a disconnect notification had been shown
    /// and this sample ends the outage.
    Reachable { rtt: u16, recovered_after: Option<u128> },
    /// The probe timed out. `notify` is true exactly once per outage, when
    /// the outage has persisted beyond the debounce duration.
    Unreachable { notify: bool },
}

/// Consumer-owned session state: running totals over all successful probes,
/// the sample history, and the disconnect tracker.
pub struct AppData {
    pub count: u32,
    pub total: u32,
    pub min: u16,
    pub max: u16,
    pub samples: Vec<Sample>,
    pub timeout_start: Option<u128>,
    pub notified: bool,
}

impl AppData {
    /// The disconnect tracker never reports a notification without an open
    /// outage.
    pub open spec fn wf(self) -> bool {
        self.notified ==> self.timeout_start is Some
    }

    /// Truncating mean round-trip time of the session, `None` before the
    /// first successful probe.
    pub fn average(&self) -> (r: Option<u32>)
        ensures
            self.count == 0 ==> r is None,
            self.count > 0 ==> r == Some((self.total as int / self.count as int) as u32),
    {
        if self.count == 0 {
            None
        } else {
            Some(self.total / self.count)
        }
    }

    /// Appends a sample to the history; a successful outcome also updates
    /// the running session totals (count and total saturate at `u32::MAX`).
    pub fn record_observation(&mut self, sample: Sample)
        ensures
            final(self).samples@ == old(self).samples@.push(sample),
            sample.rtt matches Some(v) ==> {
                &&& final(self).count == if old(self).count as int + 1 > u32::MAX as int {
                    u32::MAX
                } else {
                    (old(self).count + 1) as u32
                }
                &&& final(self).total == if old(self).total as int + v as int > u32::MAX as int {
                    u32::MAX
                } else {
                    (old(self).total + v) as u32
                }
                &&& final(self).min == if v < old(self).min {
                    v
                } else {
                    old(self).min
                }
                &&& final(self).max == if v > old(self).max {
                    v
                } else {
                    old(self).max
                }
            },
            sample.rtt is None ==> {
                &&& final(self).count == old(self).count
                &&& final(self).total == old(self).total
                &&& final(self).min == old(self).min
                &&& final(self).max == old(self).max
            },
            final(self).timeout_start == old(self).timeout_start,
            final(self).notified == old(self).notified,
    {
        if let Some(rtt) = sample.rtt {
            self.count = self.count.saturating_add(1);
            if rtt < self.min {
                self.min = rtt;
            }
            if rtt > self.max {
                self.max = rtt;
            }
            self.total = self.total.saturating_add(rtt as u32);
        }
        self.samples.push(sample);
    }

    /// Resets the running session totals; the history and the disconnect
    /// tracker are untouched.
    pub fn reset_session_stats(&mut self)
        ensures
            final(self).count == 0,
            final(self).total == 0,
            final(self).min == u16::MAX,
            final(self).max == 0,
            final(self).samples == old(self).samples,
            final(self).timeout_start == old(self).timeout_start,
            final(self).notified == old(self).notified,
    {
        self.count = 0;
        self.total = 0;
        self.min = u16::MAX;
        self.max = 0;
    }

    /// Sorts the history into ascending timestamp order. Sorting keeps
    /// exactly the recorded samples, and sorting an already-sorted history
    /// leaves it unchanged.
    pub fn sort(&mut self)
        ensures
            sorted_by_timestamp(final(self).samples@),
            final(self).samples@.to_multiset() == old(self).samples@.to_multiset(),
            sorted_by_timestamp(old(self).samples@) ==> final(self).samples@ == old(
                self,
            ).samples@,
            final(self).count == old(self).count,
            final(self).total == old(self).total,
            final(self).min == old(self).min,
            final(self).max == old(self).max,
            final(self).timeout_start == old(self).timeout_start,
            final(self).notified == old(self).notified,
    {
        sort_samples(&mut self.samples);
    }

    /// Records one drained sample and reports what the user interface should
    /// show: the live status line, the end of a notified outage, or the
    /// one-shot disconnect notification once an outage has outlived the
    /// debounce duration.
    pub fn process_sample(&mut self, sample: Sample) -> (r: StatusReport)
        requires
            old(self).wf(),
        ensures
            final(self).wf(),
            final(self).samples@ == old(self).samples@.push(sample),
            sample.rtt matches Some(v) ==> {
                &&& final(self).count == if old(self).count as int + 1 > u32::MAX as int {
                    u32::MAX
                } else {
                    (old(self).count + 1) as u32
                }
                &&& final(self).total == if old(self).total as int + v as int > u32::MAX as int {
                    u32::MAX
                } else {
                    (old(self).total + v) as u32
                }
                &&& final(self).min == if v < old(self).min {
                    v
                } else {
                    old(self).min
                }
                &&& final(self).max == if v > old(self).max {
                    v
                } else {
                    old(self).max
                }
                &&& final(self).notified == false
                &&& final(self).timeout_start is None
                &&& r == (StatusReport::Reachable {
                    rtt: v,
                    recovered_after: if old(self).notified {
                        Some(
                            if sample.timestamp >= old(self).timeout_start->0 {
                                (sample.timestamp - old(self).timeout_start->0) as u128
                            } else {
                                0u128
                            },
                        )
                    } else {
                        None
                    },
                })
            },
            sample.rtt is None ==> {
                let fires = !old(self).notified && old(self).timeout_start is Some
                    && sample.timestamp > old(self).timeout_start->0 + DEBOUNCE_NANOS;
                &&& final(self).count == old(self).count
                &&& final(self).total == old(self).total
                &&& final(self).min == old(self).min
                &&& final(self).max == old(self).max
                &&& r == (StatusReport::Unreachable { notify: fires })
                &&& final(self).notified == (old(self).notified || fires)
                &&& final(self).timeout_start == if old(self).timeout_start is Some {
                    old(self).timeout_start
                } else {
                    Some(sample.timestamp)
                }
            },
    {
        let timestamp = sample.timestamp;
        let rtt = sample.rtt;
        self.record_observation(sample);
        if let Some(rtt) = rtt {
            let recovered_after = if self.notified {
                let start = match self.timeout_start {
                    Some(start) => start,
                    None => 0,  // unreachable: notified implies an open outage
                };
                Some(
                    if timestamp >= start {
                        timestamp - start
                    } else {
                        0
                    },
                )
            } else {
                None
            };
            self.notified = false;
            self.timeout_start = None;
            StatusReport::Reachable { rtt, recovered_after }
        } else {
            let notify = match self.timeout_start {
                Some(start) => !self.notified && timestamp > start && timestamp - start
                    > DEBOUNCE_NANOS,
                None => false,
            };
            if notify {
                self.notified = true;
            }
            if self.timeout_start.is_none() {
                self.timeout_start = Some(timestamp);
            }
            StatusReport::Unreachable { notify }
        }
    }
}

impl Default for AppData {
    /// A fresh session: no samples, no totals, no open outage.
    fn default() -> (r: Self)
        ensures
            r.count == 0,
            r.total == 0,
            r.min == u16::MAX,
            r.max == 0,
            r.samples@ == Seq::<Sample>::empty(),
            r.timeout_start is None,
            !r.notified,
            r.wf(),
    {
        AppData {
            count: 0,
            total: 0,
            min: u16::MAX,
            max: 0,
            samples: Vec::new(),
            timeout_start: None,
            notified: false,
        }
    }
}

/// Whether the periodic graph recomputation is due: more than the refresh
/// delay has elapsed since the last full update.
pub fn refresh_due(last_update_nanos: u128, now_nanos: u128) -> (r: bool)
    ensures
        r <==> now_nanos > last_update_nanos + GRAPH_REFRESH_NANOS,
{
    now_nanos > last_update_nanos && now_nanos - last_update_nanos > GRAPH_REFRESH_NANOS
}

/// Whether the periodic downtime-log write is due: more than the auto-save
/// delay has elapsed since the last successful save.
pub fn autosave_due(last_saved_nanos: u128, now_nanos: u128) -> (r: bool)
    ensures
        r <==> last_saved_nanos + AUTO_SAVE_NANOS < now_nanos,
{
    now_nanos > last_saved_nanos && now_nanos - last_saved_nanos > AUTO_SAVE_NANOS
}

/// A probe producer's only fatal condition: once a send on the sample
/// channel fails the consumer is gone, and the producer loop must stop.
pub fn producer_should_stop(send_succeeded: bool) -> (r: bool)
    ensures
        r <==> !send_succeeded,
{
    !send_succeeded
}

/// Insertion sort of the history by timestamp, in place.
fn sort_samples(v: &mut Vec<Sample>)
    ensures
        sorted_by_timestamp(final(v)@),
        final(v)@.to_multiset() == old(v)@.to_multiset(),
        sorted_by_timestamp(old(v)@) ==> final(v)@ == old(v)@,
{
    broadcast use vstd::seq_lib::group_to_multiset_ensures, vstd::seq_lib::to_multiset_insert,
        vstd::multiset::group_multiset_axioms;

    let ghost orig = v@;
    let n = v.len();
    let mut i: usize = 1;
    while i < n
        invariant
            n == v@.len(),
            1 <= i,
            n > 0 ==> i <= n,
            v@.to_multiset() == orig.to_multiset(),
            forall|a: int, b: int|
                0 <= a < b < i && b < n ==> #[trigger] v@[a].timestamp <= #[trigger] v@[b].timestamp,
            sorted_by_timestamp(orig) ==> v@ == orig,
        decreases n - i,
    {
        let key = v[i].timestamp;
        let mut j: usize = i;
        while j > 0 && v[j - 1].timestamp > key
            invariant
                j <= i < n,
                n == v@.len(),
                key == v@[i as int].timestamp,
                forall|b: int| j <= b < i ==> #[trigger] v@[b].timestamp > key,
                forall|a: int, b: int|
                    0 <= a < b < i ==> #[trigger] v@[a].timestamp <= #[trigger] v@[b].timestamp,
                sorted_by_timestamp(orig) && v@ == orig ==> j == i,
            decreases j,
        {
            j -= 1;
        }
        if j < i {
            let ghost before = v@;
            let x = v.remove(i);
            let ghost removed = v@;
            v.insert(j, x);
            proof {
                broadcast use vstd::seq_lib::group_to_multiset_ensures,
                    vstd::seq_lib::to_multiset_insert,
                    vstd::multiset::group_multiset_axioms;

                assert(removed == before.remove(i as int));
                assert(v@ == removed.insert(j as int, x));
                assert(x == before[i as int]);
                assert(0 <= i < before.len());
                assert(before.remove(i as int).to_multiset() =~= before.to_multiset().remove(x));
                assert(removed.insert(j as int, x).to_multiset() =~= removed.to_multiset().insert(
                    x,
                ));
                assert(before.to_multiset().count(x) > 0) by {
                    assert(before.contains(x));
                }
                assert(v@.to_multiset() =~= before.to_multiset());
                assert forall|a: int, b: int|
                    0 <= a < b < i + 1 && b < n implies #[trigger] v@[a].timestamp
                    <= #[trigger] v@[b].timestamp by {
                    assert(forall|k: int| 0 <= k < j ==> v@[k] == before[k]);
                    assert(v@[j as int] == before[i as int]);
                    assert(forall|k: int| j < k <= i ==> v@[k] == before[k - 1]);
                    if j > 0 {
                        assert(before[j - 1].timestamp <= key);
                    }
                }
            }
        }
        i += 1;
    }
}

} // verus!
