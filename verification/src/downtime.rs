//! Reconstruction of discrete offline intervals from the alternating
//! success/timeout signal of the time-ordered sample history.

use crate::history::Sample;
use crate::history::sorted_by_timestamp;
use vstd::prelude::*;

verus! {

/// One completed outage: opened by the first timeout sample, closed by the
/// next successful sample.
#[derive(Copy, Clone, Debug, PartialEq, Eq, Structural)]
pub struct DowntimeInterval {
    pub start: u128,
    pub end: u128,
}

/// The finite state machine of the extractor: processing the history in
/// ascending timestamp order, a timeout while nominal opens an interval at
/// that timestamp, a success while an interval is open closes and emits it,
/// and anything else changes nothing. `active` is the open interval's start,
/// if one is open. An interval still open at the end of the history is not
/// emitted.
pub open spec fn downtime_spec(s: Seq<Sample>, active: Option<u128>) -> Seq<DowntimeInterval>
    decreases s.len(),
{
    if s.len() == 0 {
        Seq::empty()
    } else {
        let head = s.first();
        match (head.rtt, active) {
            (Some(_), Some(start)) => seq![DowntimeInterval { start, end: head.timestamp }]
                + downtime_spec(s.drop_first(), None),
            (Some(_), None) => downtime_spec(s.drop_first(), None),
            (None, None) => downtime_spec(s.drop_first(), Some(head.timestamp)),
            (None, Some(_)) => downtime_spec(s.drop_first(), active),
        }
    }
}

/// A single pass over the sorted history that returns every completed
/// downtime interval, in order of occurrence. An outage still open at the
/// end of the history yields no interval.
pub fn extract_downtime_intervals(samples: &Vec<Sample>) -> (r: Vec<DowntimeInterval>)
    requires
        sorted_by_timestamp(samples@),
    ensures
        r@ == downtime_spec(samples@, None),
        forall|idx: int| 0 <= idx < r@.len() ==> #[trigger] r@[idx].start <= r@[idx].end,
{
    let mut result: Vec<DowntimeInterval> = Vec::new();
    let mut active: Option<u128> = None;
    let n = samples.len();
    let mut k: usize = 0;
    proof {
        assert(samples@.skip(0) =~= samples@);
        assert(Seq::<DowntimeInterval>::empty() + downtime_spec(samples@, None) =~= downtime_spec(
            samples@,
            None,
        ));
    }
    while k < n
        invariant
            k <= n,
            n == samples@.len(),
            sorted_by_timestamp(samples@),
            downtime_spec(samples@, None) == result@ + downtime_spec(
                samples@.skip(k as int),
                active,
            ),
            forall|idx: int| 0 <= idx < result@.len() ==> #[trigger] result@[idx].start
                <= result@[idx].end,
            active matches Some(start) ==> forall|m: int|
                k <= m < n ==> start <= #[trigger] samples@[m].timestamp,
        decreases n - k,
    {
        let ghost rest = samples@.skip(k as int);
        proof {
            assert(rest.len() == n - k);
            assert(rest.first() == samples@[k as int]);
            assert(rest.drop_first() =~= samples@.skip(k as int + 1));
        }
        let timestamp = samples[k].timestamp;
        match (samples[k].rtt, active) {
            (Some(_), Some(start)) => {
                let closed = DowntimeInterval { start, end: timestamp };
                result.push(closed);
                active = None;
                proof {
                    assert(downtime_spec(rest, Some(start)) == seq![closed] + downtime_spec(
                        rest.drop_first(),
                        None,
                    ));
                    assert(result@ + downtime_spec(rest.drop_first(), None) =~= result@.drop_last()
                        + downtime_spec(rest, Some(start)));
                }
            },
            (Some(_), None) => {
            },
            (None, None) => {
                active = Some(timestamp);
            },
            (None, Some(_)) => {
            },
        }
        k += 1;
    }
    proof {
        assert(samples@.skip(n as int) =~= Seq::<Sample>::empty());
        assert(result@ + Seq::<DowntimeInterval>::empty() =~= result@);
    }
    result
}

} // verus!
