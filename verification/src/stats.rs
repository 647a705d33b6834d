//! Incremental min/max/count/total accumulator over a stream of probe
//! outcomes, plus a sticky timeout flag.

use vstd::prelude::*;

verus! {

/// Aggregate of the `Some` outcomes folded into this accumulator so far.
///
/// `count` and `total` saturate at `u16::MAX` instead of overflowing; below
/// the saturation point they are exactly the number of successful probes and
/// the sum of their round-trip times. `timeout` is set by the first `None`
/// outcome and is never cleared by further updates.
#[derive(Copy, Clone, Debug, PartialEq, Eq, Structural)]
pub struct Stats {
    pub total: u16,
    pub min: u16,
    pub max: u16,
    pub count: u16,
    pub timeout: bool,
}

/// The accumulator before any outcome has been folded in.
pub open spec fn stats_empty() -> Stats {
    Stats { total: 0, min: 0xffff, max: 0, count: 0, timeout: false }
}

/// `a + b` clamped to the range of `u16`.
pub open spec fn sat_add_u16(a: u16, b: u16) -> u16 {
    if a + b > 0xffff {
        0xffff
    } else {
        (a + b) as u16
    }
}

/// One `update` step on the accumulator.
pub open spec fn stats_step(s: Stats, outcome: Option<u16>) -> Stats {
    match outcome {
        Some(v) => Stats {
            total: sat_add_u16(s.total, v),
            min: if v < s.min { v } else { s.min },
            max: if v > s.max { v } else { s.max },
            count: sat_add_u16(s.count, 1),
            timeout: s.timeout,
        },
        None => Stats { timeout: true, ..s },
    }
}

/// The accumulator obtained by folding the outcomes of `s`, in order, into a
/// starting accumulator `init`.
pub open spec fn stats_run(init: Stats, s: Seq<Option<u16>>) -> Stats
    decreases s.len(),
{
    if s.len() == 0 {
        init
    } else {
        stats_step(stats_run(init, s.drop_last()), s.last())
    }
}

/// The accumulator obtained by folding the outcomes of `s` into an empty one.
pub open spec fn stats_seq(s: Seq<Option<u16>>) -> Stats {
    stats_run(stats_empty(), s)
}

/// The average round-trip time recorded by an accumulator: `None` when no
/// successful probe was folded in, otherwise the truncating-division mean.
pub open spec fn stats_avg(s: Stats) -> Option<u16> {
    if s.count == 0 {
        None
    } else {
        Some((s.total as int / s.count as int) as u16)
    }
}

/// How many outcomes of `s` are successful probes (`Some`).
pub open spec fn count_reachable(s: Seq<Option<u16>>) -> int
    decreases s.len(),
{
    if s.len() == 0 {
        0
    } else {
        count_reachable(s.drop_last()) + if s.last() is Some {
            1int
        } else {
            0int
        }
    }
}

/// The sum of the round-trip times of the successful outcomes of `s`.
pub open spec fn sum_reachable(s: Seq<Option<u16>>) -> int
    decreases s.len(),
{
    if s.len() == 0 {
        0
    } else {
        sum_reachable(s.drop_last()) + match s.last() {
            Some(v) => v as int,
            None => 0,
        }
    }
}

/// The least round-trip time among the successful outcomes of `s`, or
/// `0xffff` when there is none.
pub open spec fn min_reachable(s: Seq<Option<u16>>) -> int
    decreases s.len(),
{
    if s.len() == 0 {
        0xffff
    } else {
        match s.last() {
            Some(v) => if v < min_reachable(s.drop_last()) {
                v as int
            } else {
                min_reachable(s.drop_last())
            },
            None => min_reachable(s.drop_last()),
        }
    }
}

/// The greatest round-trip time among the successful outcomes of `s`, or `0`
/// when there is none.
pub open spec fn max_reachable(s: Seq<Option<u16>>) -> int
    decreases s.len(),
{
    if s.len() == 0 {
        0
    } else {
        match s.last() {
            Some(v) => if v > max_reachable(s.drop_last()) {
                v as int
            } else {
                max_reachable(s.drop_last())
            },
            None => max_reachable(s.drop_last()),
        }
    }
}

/// Whether `s` contains at least one timeout (`None`) outcome.
pub open spec fn has_unreachable(s: Seq<Option<u16>>) -> bool
    decreases s.len(),
{
    if s.len() == 0 {
        false
    } else {
        has_unreachable(s.drop_last()) || s.last() is None
    }
}

/// The accumulator described field by field: a fold of `s` yields exactly the
/// count, sum, minimum, maximum and timeout flag of the outcomes of `s`, with
/// count and sum clamped to `u16::MAX`.
pub open spec fn stats_of(s: Seq<Option<u16>>) -> Stats {
    Stats {
        total: if sum_reachable(s) > 0xffff {
            0xffff as u16
        } else {
            sum_reachable(s) as u16
        },
        min: min_reachable(s) as u16,
        max: max_reachable(s) as u16,
        count: if count_reachable(s) > 0xffff {
            0xffff as u16
        } else {
            count_reachable(s) as u16
        },
        timeout: has_unreachable(s),
    }
}

/// A fold of outcomes is exactly its order-insensitive characterization.
pub proof fn lemma_stats_seq_closed(s: Seq<Option<u16>>)
    ensures
        stats_seq(s) == stats_of(s),
        0 <= count_reachable(s) <= s.len(),
        0 <= sum_reachable(s),
        0 <= min_reachable(s) <= 0xffff,
        0 <= max_reachable(s) <= 0xffff,
    decreases s.len(),
{
    if s.len() > 0 {
        lemma_stats_seq_closed(s.drop_last());
    }
}

/// Every successful outcome of `s` lies between the folded minimum and
/// maximum.
pub proof fn lemma_min_max_bound(s: Seq<Option<u16>>)
    ensures
        forall|i: int|
            0 <= i < s.len() ==> ((#[trigger] s[i]) matches Some(v) ==> min_reachable(s) <= v
                <= max_reachable(s)),
    decreases s.len(),
{
    if s.len() > 0 {
        lemma_min_max_bound(s.drop_last());
        assert forall|i: int| 0 <= i < s.len() implies ((#[trigger] s[i]) matches Some(v)
            ==> min_reachable(s) <= v <= max_reachable(s)) by {
            if i < s.len() - 1 {
                assert(s.drop_last()[i] == s[i]);
            }
        }
    }
}

/// The characterization unfolds at the front of the outcome sequence.
proof fn lemma_reachable_prepend(x: Option<u16>, s: Seq<Option<u16>>)
    ensures
        count_reachable(seq![x] + s) == count_reachable(s) + if x is Some {
            1int
        } else {
            0int
        },
        sum_reachable(seq![x] + s) == sum_reachable(s) + match x {
            Some(v) => v as int,
            None => 0int,
        },
        min_reachable(seq![x] + s) == match x {
            Some(v) => if (v as int) < min_reachable(s) {
                v as int
            } else {
                min_reachable(s)
            },
            None => min_reachable(s),
        },
        max_reachable(seq![x] + s) == match x {
            Some(v) => if (v as int) > max_reachable(s) {
                v as int
            } else {
                max_reachable(s)
            },
            None => max_reachable(s),
        },
        has_unreachable(seq![x] + s) == (has_unreachable(s) || x is None),
    decreases s.len(),
{
    if s.len() == 0 {
        assert(seq![x] + s =~= seq![x]);
        assert((seq![x]).drop_last() =~= Seq::<Option<u16>>::empty());
        assert(count_reachable(Seq::<Option<u16>>::empty()) == 0);
        assert(sum_reachable(Seq::<Option<u16>>::empty()) == 0);
        assert(min_reachable(Seq::<Option<u16>>::empty()) == 0xffff);
        assert(max_reachable(Seq::<Option<u16>>::empty()) == 0);
        assert(!has_unreachable(Seq::<Option<u16>>::empty()));
    } else {
        lemma_reachable_prepend(x, s.drop_last());
        assert((seq![x] + s).drop_last() =~= seq![x] + s.drop_last());
        assert((seq![x] + s).last() == s.last());
    }
}

/// Prepending one outcome to a characterized sequence is one `update` step.
pub proof fn lemma_stats_of_prepend(x: Option<u16>, s: Seq<Option<u16>>)
    ensures
        stats_of(seq![x] + s) == stats_step(stats_of(s), x),
{
    lemma_reachable_prepend(x, s);
    lemma_stats_seq_closed(s);
    lemma_stats_seq_closed(seq![x] + s);
}

/// The characterization of an empty outcome sequence is the empty
/// accumulator.
pub proof fn lemma_stats_of_empty()
    ensures
        stats_of(Seq::<Option<u16>>::empty()) == stats_empty(),
{
}

/// Law: after folding any sequence of outcomes whose successes fit the
/// accumulator, `count` is the number of successes, `total` is their sum,
/// every observed round-trip time lies between `min` and `max`, and the
/// average is the truncating quotient `total / count`, or `None` when no
/// probe succeeded (even if timeouts occurred).
pub proof fn lemma_stats_monotonicity(s: Seq<Option<u16>>)
    requires
        count_reachable(s) <= 0xffff,
        sum_reachable(s) <= 0xffff,
    ensures
        stats_seq(s).count == count_reachable(s),
        stats_seq(s).total == sum_reachable(s),
        forall|i: int|
            0 <= i < s.len() ==> ((#[trigger] s[i]) matches Some(v) ==> stats_seq(s).min <= v
                <= stats_seq(s).max),
        count_reachable(s) == 0 ==> stats_avg(stats_seq(s)) is None,
        count_reachable(s) > 0 ==> stats_avg(stats_seq(s)) == Some(
            (sum_reachable(s) / count_reachable(s)) as u16,
        ),
{
    lemma_stats_seq_closed(s);
    lemma_min_max_bound(s);
}

/// Law: folding timeouts alone never changes `min`, `max`, `count` or
/// `total`; it sets the `timeout` flag, and the flag is never cleared by any
/// further update.
pub proof fn lemma_timeout_independence(init: Stats, s: Seq<Option<u16>>)
    requires
        forall|i: int| 0 <= i < s.len() ==> (#[trigger] s[i]) is None,
    ensures
        stats_run(init, s).total == init.total,
        stats_run(init, s).min == init.min,
        stats_run(init, s).max == init.max,
        stats_run(init, s).count == init.count,
        s.len() > 0 ==> stats_run(init, s).timeout,
        init.timeout ==> stats_run(init, s).timeout,
    decreases s.len(),
{
    if s.len() > 0 {
        assert(forall|i: int|
            0 <= i < s.drop_last().len() ==> (#[trigger] s.drop_last()[i]) == s[i]);
        lemma_timeout_independence(init, s.drop_last());
    }
}

/// Law: an accumulator whose timeout flag is set keeps it set under any
/// further sequence of updates.
pub proof fn lemma_timeout_sticky(init: Stats, s: Seq<Option<u16>>)
    requires
        init.timeout,
    ensures
        stats_run(init, s).timeout,
    decreases s.len(),
{
    if s.len() > 0 {
        lemma_timeout_sticky(init, s.drop_last());
    }
}

impl Stats {
    /// `None` when `count` is zero, else the truncating average `total / count`.
    pub fn average(&self) -> (r: Option<u16>)
        ensures
            r == stats_avg(*self),
    {
        if self.count == 0 {
            None
        } else {
            Some(self.total / self.count)
        }
    }

    /// Folds one probe outcome into the accumulator: a round-trip time updates
    /// min/max/count/total, a timeout only sets the sticky flag.
    pub fn update(&mut self, value: Option<u16>)
        ensures
            *final(self) == stats_step(*old(self), value),
    {
        if let Some(value) = value {
            if value < self.min {
                self.min = value;
            }
            if value > self.max {
                self.max = value;
            }
            self.count = self.count.saturating_add(1);
            self.total = self.total.saturating_add(value);
        } else {
            self.timeout = true;
        }
    }

    /// Resets the accumulator to its starting state.
    pub fn _clear(&mut self)
        ensures
            *final(self) == stats_empty(),
    {
        self.total = 0;
        self.min = 0xffff;
        self.max = 0;
        self.count = 0;
        self.timeout = false;
    }
}

impl Default for Stats {
    /// An accumulator with nothing folded in yet.
    fn default() -> (r: Self)
        ensures
            r == stats_empty(),
    {
        Stats { total: 0, min: 0xffff, max: 0, count: 0, timeout: false }
    }
}

} // verus!
