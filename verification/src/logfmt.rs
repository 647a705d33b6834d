//! The two session log formats: one line per raw sample, and one line per
//! completed downtime interval, with a verified parser for the sample lines.

use crate::downtime::DowntimeInterval;
use crate::downtime::downtime_spec;
use crate::history::Sample;
use crate::history::sorted_by_timestamp;
use crate::numtext::all_digits;
use crate::numtext::dec_fixed;
use crate::numtext::dec_var;
use crate::numtext::digits_value;
use crate::numtext::parse_u16_spec;
use crate::timefmt::datetime_text;
use crate::timefmt::format_datetime;
use crate::timefmt::parse_datetime_at;
use crate::timefmt::parse_datetime_spec;
use crate::timefmt::timestamp_limit;
use vstd::prelude::*;

verus! {

/// The word written in place of a round-trip time when the probe timed out
/// (`timeout` in ASCII).
pub open spec fn timeout_word() -> Seq<u8> {
    seq![116u8, 105u8, 109u8, 101u8, 111u8, 117u8, 116u8]
}

/// The offset of the first comma (byte 44) at or after `from`, or the
/// length of `s` when there is none.
pub open spec fn find_comma(s: Seq<u8>, from: int) -> int
    decreases s.len() - from,
{
    if !(0 <= from < s.len()) {
        s.len() as int
    } else if s[from] == 44 {
        from
    } else {
        find_comma(s, from + 1)
    }
}

/// `find_comma` finds the first comma.
proof fn lemma_find_comma_at(s: Seq<u8>, from: int, upto: int)
    requires
        0 <= from <= upto < s.len(),
        forall|m: int| from <= m < upto ==> s[m] != 44,
        s[upto] == 44,
    ensures
        find_comma(s, from) == upto,
    decreases upto - from,
{
    if from < upto {
        lemma_find_comma_at(s, from + 1, upto);
    }
}

/// `find_comma` reports the length when no comma follows.
proof fn lemma_find_comma_none(s: Seq<u8>, from: int)
    requires
        0 <= from <= s.len(),
        forall|m: int| from <= m < s.len() ==> s[m] != 44,
    ensures
        find_comma(s, from) == s.len(),
    decreases s.len() - from,
{
    if from < s.len() {
        lemma_find_comma_none(s, from + 1);
    }
}

/// One raw-sample log line: `<datetime>, <rtt | timeout>, <destination>`
/// followed by a carriage return and newline (bytes 44/32 are comma and
/// space, 13/10 the line ending).
pub open spec fn sample_line_spec(ts: int, rtt: Option<u16>, dest: Seq<u8>) -> Seq<u8> {
    datetime_text(ts) + seq![44u8, 32u8] + (match rtt {
        Some(v) => dec_var(v as int),
        None => timeout_word(),
    }) + seq![44u8, 32u8] + dest + seq![13u8, 10u8]
}

/// What a raw-sample log line means, read back: the timestamp field, the
/// outcome field (`timeout` or a decimal round-trip time), and the
/// destination, which runs to the line ending.
pub open spec fn parse_sample_line_spec(s: Seq<u8>) -> Option<(int, Option<u16>, Seq<u8>)> {
    if s.len() >= 31 && parse_datetime_spec(s.subrange(0, 29)) is Some && s[29] == 44 && s[30]
        == 32 {
        let ts = parse_datetime_spec(s.subrange(0, 29))->0;
        let c = find_comma(s, 31);
        let field = s.subrange(31, c);
        let outcome: Option<Option<u16>> = if field == timeout_word() {
            Some(None)
        } else if parse_u16_spec(field) is Some {
            Some(Some(parse_u16_spec(field)->0))
        } else {
            None
        };
        if outcome is Some && c + 4 <= s.len() && s[c + 1] == 32 && s[s.len() - 2] == 13 && s[s.len()
            - 1] == 10 {
            Some((ts, outcome->0, s.subrange(c + 2, s.len() - 2)))
        } else {
            None
        }
    } else {
        None
    }
}

/// Renders one sample as a raw-log line; fails exactly when the timestamp
/// lies beyond what the four-digit-year format can show.
pub fn format_sample_line(sample: &Sample) -> (r: Option<Vec<u8>>)
    ensures
        r is Some <==> (sample.timestamp as int) < timestamp_limit(),
        r matches Some(v) ==> v@ == sample_line_spec(
            sample.timestamp as int,
            sample.rtt,
            sample.destination@,
        ),
{
    let mut out: Vec<u8> = Vec::new();
    if !format_datetime(&mut out, sample.timestamp) {
        return None;
    }
    out.push(44);
    out.push(32);
    match sample.rtt {
        Some(v) => {
            crate::numtext::push_dec_var(&mut out, v as u128);
        },
        None => {
            out.push(116);
            out.push(105);
            out.push(109);
            out.push(101);
            out.push(111);
            out.push(117);
            out.push(116);
        },
    }
    out.push(44);
    out.push(32);
    let dlen = sample.destination.len();
    let ghost mid = out@;
    let mut k: usize = 0;
    while k < dlen
        invariant
            k <= dlen,
            dlen == sample.destination@.len(),
            out@ == mid + sample.destination@.take(k as int),
        decreases dlen - k,
    {
        out.push(sample.destination[k]);
        proof {
            assert(mid + sample.destination@.take(k + 1) =~= (mid + sample.destination@.take(
                k as int,
            )).push(sample.destination@[k as int]));
        }
        k += 1;
    }
    proof {
        assert(sample.destination@.take(dlen as int) =~= sample.destination@);
    }
    out.push(13);
    out.push(10);
    proof {
        assert(out@ =~= sample_line_spec(
            sample.timestamp as int,
            sample.rtt,
            sample.destination@,
        ));
    }
    Some(out)
}

/// Reads a raw-log line back into its timestamp, outcome and destination.
pub fn parse_sample_line(line: &[u8]) -> (r: Option<(u128, Option<u16>, Vec<u8>)>)
    ensures
        (match r {
            Some((ts, rtt, dest)) => parse_sample_line_spec(line@) == Some(
                (ts as int, rtt, dest@),
            ),
            None => parse_sample_line_spec(line@) is None,
        }),
{
    let slen = line.len();
    if slen < 31 {
        return None;
    }
    proof {
        assert(line@.subrange(0, 29) =~= line@.subrange(0int, 0int + 29));
    }
    let ts = match parse_datetime_at(line, 0) {
        Some(t) => t,
        None => {
            return None;
        },
    };
    if !(line[29] == 44 && line[30] == 32) {
        return None;
    }
    let mut c: usize = 31;
    while c < slen && line[c] != 44
        invariant
            31 <= c <= slen,
            slen == line@.len(),
            forall|m: int| 31 <= m < c ==> line@[m] != 44,
        decreases slen - c,
    {
        c += 1;
    }
    proof {
        if c < slen {
            lemma_find_comma_at(line@, 31, c as int);
        } else {
            lemma_find_comma_none(line@, 31);
        }
        assert(find_comma(line@, 31) == c as int);
    }
    let ghost field = line@.subrange(31, c as int);
    let outcome: Option<u16>;
    if c - 31 == 7 && line[31] == 116 && line[32] == 105 && line[33] == 109 && line[34] == 101
        && line[35] == 111 && line[36] == 117 && line[37] == 116 {
        outcome = None;
        proof {
            assert(field =~= timeout_word());
        }
    } else {
        proof {
            if field == timeout_word() {
                assert(field.len() == 7);
                assert(field[0] == line@[31]);
                assert(field[1] == line@[32]);
                assert(field[2] == line@[33]);
                assert(field[3] == line@[34]);
                assert(field[4] == line@[35]);
                assert(field[5] == line@[36]);
                assert(field[6] == line@[37]);
            }
        }
        match crate::numtext::parse_u16_range(line, 31, c) {
            Some(v) => {
                outcome = Some(v);
            },
            None => {
                return None;
            },
        }
    }
    if !(c <= slen - 4) {
        return None;
    }
    if line[c + 1] != 32 {
        return None;
    }
    if line[slen - 2] != 13 || line[slen - 1] != 10 {
        return None;
    }
    let mut dest: Vec<u8> = Vec::new();
    let mut k: usize = c + 2;
    while k < slen - 2
        invariant
            c + 2 <= k <= slen - 2,
            slen == line@.len(),
            c + 4 <= slen,
            dest@ == line@.subrange(c + 2, k as int),
        decreases slen - k,
    {
        dest.push(line[k]);
        proof {
            assert(line@.subrange(c + 2, k + 1) =~= line@.subrange(c + 2, k as int).push(
                line@[k as int],
            ));
        }
        k += 1;
    }
    Some((ts, outcome, dest))
}

/// Law: a raw-log line written for any sample whose timestamp the format
/// can show reads back as exactly that sample's timestamp, outcome and
/// destination.
pub proof fn lemma_sample_line_round_trip(ts: int, rtt: Option<u16>, dest: Seq<u8>)
    requires
        0 <= ts < timestamp_limit(),
    ensures
        parse_sample_line_spec(sample_line_spec(ts, rtt, dest)) == Some((ts, rtt, dest)),
{
    crate::timefmt::lemma_datetime_round_trip(ts);
    let line = sample_line_spec(ts, rtt, dest);
    let field = match rtt {
        Some(v) => dec_var(v as int),
        None => timeout_word(),
    };
    if rtt is Some {
        crate::numtext::lemma_dec_var(rtt->0 as int);
    }
    let flen = field.len() as int;
    assert(line.len() == 29 + 2 + flen + 2 + dest.len() + 2);
    assert(line.subrange(0, 29) =~= datetime_text(ts));
    assert(line[29] == 44);
    assert(line[30] == 32);
    assert(line.subrange(31, 31 + flen) =~= field);
    assert(line[31 + flen] == 44);
    assert(line[31 + flen + 1] == 32);
    assert(line.subrange(31 + flen + 2, line.len() - 2) =~= dest);
    assert(line[line.len() - 2] == 13);
    assert(line[line.len() - 1] == 10);
    assert forall|m: int| 31 <= m < 31 + flen implies line[m] != 44 by {
        assert(line[m] == field[m - 31]);
        match rtt {
            Some(_) => {
                assert(crate::numtext::is_ascii_digit(field[m - 31]));
            },
            None => {},
        }
    }
    lemma_find_comma_at(line, 31, 31 + flen);
    match rtt {
        Some(v) => {
            assert(field != timeout_word()) by {
                if field == timeout_word() {
                    assert(crate::numtext::is_ascii_digit(field[0]));
                    assert(field[0] == 116);
                }
            }
            assert(parse_u16_spec(field) == Some(v));
        },
        None => {
            assert(field == timeout_word());
        },
    }
}

/// Milliseconds-precision duration in seconds, as a decimal with trailing
/// zeros trimmed (byte 46 is the decimal point).
pub open spec fn duration_text(nanos: int) -> Seq<u8> {
    let ms = nanos / 1_000_000;
    let secs = ms / 1000;
    let frac = ms % 1000;
    if frac == 0 {
        dec_var(secs)
    } else if frac % 100 == 0 {
        dec_var(secs) + seq![46u8] + dec_fixed(frac / 100, 1)
    } else if frac % 10 == 0 {
        dec_var(secs) + seq![46u8] + dec_fixed(frac / 10, 2)
    } else {
        dec_var(secs) + seq![46u8] + dec_fixed(frac, 3)
    }
}

/// One downtime log line: `<start>, <end>, <duration-seconds>` and the line
/// ending.
pub open spec fn downtime_line_spec(start: int, end: int) -> Seq<u8> {
    datetime_text(start) + seq![44u8, 32u8] + datetime_text(end) + seq![44u8, 32u8]
        + duration_text(end - start) + seq![13u8, 10u8]
}

/// Renders one completed downtime interval as a log line; fails exactly
/// when the interval is inverted or ends beyond the format's horizon.
#[verifier::rlimit(50)]
pub fn format_downtime_line(iv: &DowntimeInterval) -> (r: Option<Vec<u8>>)
    ensures
        r is Some <==> iv.start <= iv.end && (iv.end as int) < timestamp_limit(),
        r matches Some(v) ==> v@ == downtime_line_spec(iv.start as int, iv.end as int),
{
    if iv.end < iv.start {
        return None;
    }
    let mut out: Vec<u8> = Vec::new();
    if !format_datetime(&mut out, iv.start) {
        return None;
    }
    out.push(44);
    out.push(32);
    if !format_datetime(&mut out, iv.end) {
        proof {
            assert((iv.start as int) < timestamp_limit());
        }
        return None;
    }
    out.push(44);
    out.push(32);
    let dur: u128 = iv.end - iv.start;
    let ms: u128 = dur / 1_000_000;
    let secs: u128 = ms / 1000;
    let frac: u128 = ms % 1000;
    proof {
        crate::numtext::lemma_pow10_values();
    }
    if frac == 0 {
        crate::numtext::push_dec_var(&mut out, secs);
    } else if frac % 100 == 0 {
        crate::numtext::push_dec_var(&mut out, secs);
        out.push(46);
        crate::numtext::push_dec_fixed(&mut out, (frac / 100) as u64, 1);
    } else if frac % 10 == 0 {
        crate::numtext::push_dec_var(&mut out, secs);
        out.push(46);
        crate::numtext::push_dec_fixed(&mut out, (frac / 10) as u64, 2);
    } else {
        crate::numtext::push_dec_var(&mut out, secs);
        out.push(46);
        crate::numtext::push_dec_fixed(&mut out, frac as u64, 3);
    }
    out.push(13);
    out.push(10);
    proof {
        assert(out@ =~= downtime_line_spec(iv.start as int, iv.end as int));
    }
    Some(out)
}

/// The whole raw-sample log: one line per sample, in history order.
pub open spec fn samples_log_spec(s: Seq<Sample>) -> Seq<u8>
    decreases s.len(),
{
    if s.len() == 0 {
        Seq::empty()
    } else {
        samples_log_spec(s.drop_last()) + sample_line_spec(
            s.last().timestamp as int,
            s.last().rtt,
            s.last().destination@,
        )
    }
}

/// The whole downtime log: one line per completed interval, in order.
pub open spec fn downtime_log_spec(ivs: Seq<DowntimeInterval>) -> Seq<u8>
    decreases ivs.len(),
{
    if ivs.len() == 0 {
        Seq::empty()
    } else {
        downtime_log_spec(ivs.drop_last()) + downtime_line_spec(
            ivs.last().start as int,
            ivs.last().end as int,
        )
    }
}

/// Renders the raw-sample log for the whole history; fails exactly when
/// some sample's timestamp lies beyond the format's horizon.
pub fn format_samples_log(samples: &Vec<Sample>) -> (r: Option<Vec<u8>>)
    ensures
        r is Some <==> forall|i: int|
            0 <= i < samples@.len() ==> ((#[trigger] samples@[i]).timestamp as int)
                < timestamp_limit(),
        r matches Some(v) ==> v@ == samples_log_spec(samples@),
{
    let mut out: Vec<u8> = Vec::new();
    let n = samples.len();
    let mut k: usize = 0;
    while k < n
        invariant
            k <= n,
            n == samples@.len(),
            out@ == samples_log_spec(samples@.take(k as int)),
            forall|i: int|
                0 <= i < k ==> ((#[trigger] samples@[i]).timestamp as int) < timestamp_limit(),
        decreases n - k,
    {
        let line = match format_sample_line(&samples[k]) {
            Some(line) => line,
            None => {
                return None;
            },
        };
        let ghost pre = out@;
        let llen = line.len();
        let mut j: usize = 0;
        while j < llen
            invariant
                j <= llen,
                llen == line@.len(),
                out@ == pre + line@.take(j as int),
            decreases llen - j,
        {
            out.push(line[j]);
            proof {
                assert(pre + line@.take(j + 1) =~= (pre + line@.take(j as int)).push(
                    line@[j as int],
                ));
            }
            j += 1;
        }
        proof {
            assert(line@.take(llen as int) =~= line@);
            assert(samples@.take(k + 1).drop_last() =~= samples@.take(k as int));
            assert(samples@.take(k + 1).last() == samples@[k as int]);
        }
        k += 1;
    }
    proof {
        assert(samples@.take(n as int) =~= samples@);
    }
    Some(out)
}

/// Derives the downtime intervals of the sorted history and renders the
/// downtime log; fails exactly when some interval ends beyond the format's
/// horizon.
pub fn format_downtime_log(samples: &Vec<Sample>) -> (r: Option<Vec<u8>>)
    requires
        sorted_by_timestamp(samples@),
    ensures
        r is Some <==> forall|i: int|
            0 <= i < downtime_spec(samples@, None).len() ==> ((#[trigger] downtime_spec(
                samples@,
                None,
            )[i]).end as int) < timestamp_limit(),
        r matches Some(v) ==> v@ == downtime_log_spec(downtime_spec(samples@, None)),
{
    let intervals = crate::downtime::extract_downtime_intervals(samples);
    let mut out: Vec<u8> = Vec::new();
    let n = intervals.len();
    let mut k: usize = 0;
    while k < n
        invariant
            k <= n,
            n == intervals@.len(),
            intervals@ == downtime_spec(samples@, None),
            forall|idx: int| 0 <= idx < n ==> #[trigger] intervals@[idx].start
                <= intervals@[idx].end,
            out@ == downtime_log_spec(intervals@.take(k as int)),
            forall|i: int|
                0 <= i < k ==> ((#[trigger] intervals@[i]).end as int) < timestamp_limit(),
        decreases n - k,
    {
        let line = match format_downtime_line(&intervals[k]) {
            Some(line) => line,
            None => {
                return None;
            },
        };
        let ghost pre = out@;
        let llen = line.len();
        let mut j: usize = 0;
        while j < llen
            invariant
                j <= llen,
                llen == line@.len(),
                out@ == pre + line@.take(j as int),
            decreases llen - j,
        {
            out.push(line[j]);
            proof {
                assert(pre + line@.take(j + 1) =~= (pre + line@.take(j as int)).push(
                    line@[j as int],
                ));
            }
            j += 1;
        }
        proof {
            assert(line@.take(llen as int) =~= line@);
            assert(intervals@.take(k + 1).drop_last() =~= intervals@.take(k as int));
            assert(intervals@.take(k + 1).last() == intervals@[k as int]);
        }
        k += 1;
    }
    proof {
        assert(intervals@.take(n as int) =~= intervals@);
    }
    Some(out)
}

} // verus!
