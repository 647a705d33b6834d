//! Rendering of an epoch-nanosecond timestamp as calendar date and time of
//! day, `YYYY-MM-DD HH:MM:SS.NNNNNNNNN` in UTC, and parsing it back.

use crate::numtext::all_digits;
use crate::numtext::digits_value;
use vstd::prelude::*;

verus! {

/// Nanoseconds per second.
pub const NANOS_PER_SECOND: u128 = 1_000_000_000;

/// Seconds per day.
pub const SECONDS_PER_DAY: u128 = 86_400;

/// Gregorian leap year.
pub open spec fn is_leap_year(y: int) -> bool {
    y % 4 == 0 && (y % 100 != 0 || y % 400 == 0)
}

/// Days in year `y`.
pub open spec fn days_in_year(y: int) -> int {
    if is_leap_year(y) {
        366
    } else {
        365
    }
}

/// Days strictly before year `y`, counted from 1970-01-01.
pub open spec fn days_before_year(y: int) -> int
    decreases y - 1970,
{
    if y <= 1970 {
        0
    } else {
        days_before_year(y - 1) + days_in_year(y - 1)
    }
}

/// Days in month `m` (1-based) of a (non-)leap year.
pub open spec fn days_in_month(leap: bool, m: int) -> int {
    if m == 2 {
        if leap {
            29
        } else {
            28
        }
    } else if m == 4 || m == 6 || m == 9 || m == 11 {
        30
    } else if 1 <= m <= 12 {
        31
    } else {
        0
    }
}

/// Days of the year strictly before month `m` (1-based).
pub open spec fn days_before_month(leap: bool, m: int) -> int
    decreases m,
{
    if m <= 1 {
        0
    } else {
        days_before_month(leap, m - 1) + days_in_month(leap, m - 1)
    }
}

/// The year containing day number `d`, counting day 0 as the first day of
/// year `y`.
pub open spec fn year_of(d: int, y: int) -> int
    decreases d,
{
    if 0 <= d && d >= days_in_year(y) {
        year_of(d - days_in_year(y), y + 1)
    } else {
        y
    }
}

/// The day of the year (0-based) of day number `d`, counting day 0 as the
/// first day of year `y`.
pub open spec fn day_of_year(d: int, y: int) -> int
    decreases d,
{
    if 0 <= d && d >= days_in_year(y) {
        day_of_year(d - days_in_year(y), y + 1)
    } else {
        d
    }
}

/// The month (1-based) containing the 0-based day `doy` of the year, found
/// by walking the months from `m` upward.
pub open spec fn month_of(leap: bool, doy: int, m: int) -> int
    decreases 12 - m,
{
    if m >= 12 {
        12
    } else if doy < days_before_month(leap, m + 1) {
        m
    } else {
        month_of(leap, doy, m + 1)
    }
}

/// First timestamp that the four-digit-year format cannot render: midnight
/// of year 10000.
pub open spec fn timestamp_limit() -> int {
    days_before_year(10000) * (SECONDS_PER_DAY as int) * (NANOS_PER_SECOND as int)
}

/// `days_before_year` grows by at least a year's worth of days per year.
pub proof fn lemma_days_before_year_monotone(a: int, b: int)
    requires
        1970 <= a < b,
    ensures
        days_before_year(b) >= days_before_year(a) + days_in_year(a),
    decreases b - a,
{
    if b == a + 1 {
    } else {
        lemma_days_before_year_monotone(a, b - 1);
    }
}

/// The year/day-of-year decomposition of a day count is the unique pair
/// `(y, rem)` with `days_before_year(y) + rem == d` and `rem` inside year
/// `y`.
pub proof fn lemma_year_decomposition(d: int, y0: int, y: int, rem: int)
    requires
        1970 <= y0 <= y,
        days_before_year(y) - days_before_year(y0) + rem == d,
        0 <= rem < days_in_year(y),
    ensures
        year_of(d, y0) == y,
        day_of_year(d, y0) == rem,
    decreases y - y0,
{
    if y0 == y {
        assert(d == rem);
    } else {
        lemma_days_before_year_monotone(y0, y);
        assert(days_before_year(y0 + 1) == days_before_year(y0) + days_in_year(y0));
        if y0 + 1 < y {
            lemma_days_before_year_monotone(y0 + 1, y);
        }
        assert(d >= days_in_year(y0));
        lemma_year_decomposition(d - days_in_year(y0), y0 + 1, y, rem);
    }
}

/// A whole year of months: the days before a thirteenth month are exactly
/// the days of the year.
pub proof fn lemma_months_cover_year(leap: bool)
    ensures
        days_before_month(leap, 13) == if leap {
            366int
        } else {
            365int
        },
{
    assert(days_before_month(leap, 1) == 0);
    assert(days_before_month(leap, 2) == 31);
    assert(days_before_month(leap, 3) == 31 + if leap {
        29int
    } else {
        28int
    });
    assert(days_before_month(leap, 4) == days_before_month(leap, 3) + 31);
    assert(days_before_month(leap, 5) == days_before_month(leap, 4) + 30);
    assert(days_before_month(leap, 6) == days_before_month(leap, 5) + 31);
    assert(days_before_month(leap, 7) == days_before_month(leap, 6) + 30);
    assert(days_before_month(leap, 8) == days_before_month(leap, 7) + 31);
    assert(days_before_month(leap, 9) == days_before_month(leap, 8) + 31);
    assert(days_before_month(leap, 10) == days_before_month(leap, 9) + 30);
    assert(days_before_month(leap, 11) == days_before_month(leap, 10) + 31);
    assert(days_before_month(leap, 12) == days_before_month(leap, 11) + 30);
    assert(days_before_month(leap, 13) == days_before_month(leap, 12) + 31);
}

/// `days_before_month` never decreases as the month advances.
pub proof fn lemma_days_before_month_monotone(leap: bool, a: int, b: int)
    requires
        1 <= a <= b <= 13,
    ensures
        days_before_month(leap, b) >= days_before_month(leap, a),
    decreases b - a,
{
    if a < b {
        lemma_days_before_month_monotone(leap, a, b - 1);
        assert(days_in_month(leap, b - 1) >= 0);
    }
}

/// Walking the years forward decomposes a day count into a year at or after
/// the starting year and a day offset inside it.
pub proof fn lemma_year_walk(d: int, y0: int)
    requires
        d >= 0,
        y0 >= 1970,
    ensures
        year_of(d, y0) >= y0,
        days_before_year(year_of(d, y0)) - days_before_year(y0) + day_of_year(d, y0) == d,
        0 <= day_of_year(d, y0) < days_in_year(year_of(d, y0)),
    decreases d,
{
    if d >= days_in_year(y0) {
        assert(days_before_year(y0 + 1) == days_before_year(y0) + days_in_year(y0));
        lemma_year_walk(d - days_in_year(y0), y0 + 1);
    }
}

/// Walking the months forward finds the month containing a day of the year.
pub proof fn lemma_month_walk(leap: bool, doy: int, m0: int)
    requires
        1 <= m0 <= 12,
        days_before_month(leap, m0) <= doy < days_before_month(leap, 13),
    ensures
        m0 <= month_of(leap, doy, m0) <= 12,
        days_before_month(leap, month_of(leap, doy, m0)) <= doy < days_before_month(
            leap,
            month_of(leap, doy, m0),
        ) + days_in_month(leap, month_of(leap, doy, m0)),
    decreases 12 - m0,
{
    assert(days_before_month(leap, 13) == days_before_month(leap, 12) + days_in_month(leap, 12));
    if m0 < 12 {
        assert(days_before_month(leap, m0 + 1) == days_before_month(leap, m0) + days_in_month(
            leap,
            m0,
        ));
        if doy >= days_before_month(leap, m0 + 1) {
            lemma_month_walk(leap, doy, m0 + 1);
        }
    }
}

/// `days_before_year` is at most a leap year's worth of days per year.
pub proof fn lemma_days_before_year_bound(y: int)
    requires
        y >= 1970,
    ensures
        0 <= days_before_year(y) <= 366 * (y - 1970),
    decreases y - 1970,
{
    if y > 1970 {
        lemma_days_before_year_bound(y - 1);
    }
}

/// Gregorian leap-year test.
pub fn leap_year(y: u64) -> (r: bool)
    ensures
        r == is_leap_year(y as int),
{
    y % 4 == 0 && (y % 100 != 0 || y % 400 == 0)
}

/// Days in year `y`.
pub fn days_in_year_x(y: u64) -> (r: u64)
    ensures
        r == days_in_year(y as int),
{
    if leap_year(y) {
        366
    } else {
        365
    }
}

/// Days in month `m` of a (non-)leap year.
pub fn days_in_month_x(leap: bool, m: u64) -> (r: u64)
    ensures
        r == days_in_month(leap, m as int),
{
    if m == 2 {
        if leap {
            29
        } else {
            28
        }
    } else if m == 4 || m == 6 || m == 9 || m == 11 {
        30
    } else if 1 <= m && m <= 12 {
        31
    } else {
        0
    }
}

/// Days of the year strictly before month `m`.
pub fn days_before_month_x(leap: bool, m: u64) -> (r: u64)
    requires
        1 <= m <= 13,
    ensures
        r == days_before_month(leap, m as int),
        r <= 366,
    decreases m,
{
    proof {
        lemma_days_before_month_monotone(leap, m as int, 13);
        lemma_months_cover_year(leap);
    }
    if m <= 1 {
        0
    } else {
        let prefix = days_before_month_x(leap, m - 1);
        prefix + days_in_month_x(leap, m - 1)
    }
}

/// Days strictly before year `y`, counted from 1970-01-01.
pub fn days_before_year_x(y: u64) -> (r: u64)
    requires
        1970 <= y <= 10000,
    ensures
        r == days_before_year(y as int),
{
    let mut acc: u64 = 0;
    let mut cur: u64 = 1970;
    while cur < y
        invariant
            1970 <= cur <= y <= 10000,
            acc == days_before_year(cur as int),
        decreases y - cur,
    {
        proof {
            lemma_days_before_year_bound(cur as int);
        }
        acc = acc + days_in_year_x(cur);
        cur = cur + 1;
    }
    acc
}

/// The timestamp `ts` rendered as `YYYY-MM-DD HH:MM:SS.NNNNNNNNN` in UTC
/// (29 bytes; 45/58/32/46 are `-`, `:`, space and `.`).
pub open spec fn datetime_text(ts: int) -> Seq<u8> {
    let nanos = ts % (NANOS_PER_SECOND as int);
    let secs = ts / (NANOS_PER_SECOND as int);
    let days = secs / (SECONDS_PER_DAY as int);
    let sod = secs % (SECONDS_PER_DAY as int);
    let y = year_of(days, 1970);
    let doy = day_of_year(days, 1970);
    let leap = is_leap_year(y);
    let m = month_of(leap, doy, 1);
    let d = doy - days_before_month(leap, m) + 1;
    let h = sod / 3600;
    let r = sod % 3600;
    let mi = r / 60;
    let sec = r % 60;
    crate::numtext::dec_fixed(y, 4) + seq![45u8] + crate::numtext::dec_fixed(m, 2) + seq![45u8]
        + crate::numtext::dec_fixed(d, 2) + seq![32u8] + crate::numtext::dec_fixed(h, 2)
        + seq![58u8] + crate::numtext::dec_fixed(mi, 2) + seq![58u8] + crate::numtext::dec_fixed(
        sec,
        2,
    ) + seq![46u8] + crate::numtext::dec_fixed(nanos, 9)
}

/// What a 29-byte datetime field means: the digit groups and separators of
/// the format above, with every component in calendar range, read back as
/// nanoseconds since the epoch.
pub open spec fn parse_datetime_spec(s: Seq<u8>) -> Option<int> {
    if s.len() == 29 && s[4] == 45 && s[7] == 45 && s[10] == 32 && s[13] == 58 && s[16] == 58
        && s[19] == 46 && all_digits(s.subrange(0, 4)) && all_digits(s.subrange(5, 7))
        && all_digits(s.subrange(8, 10)) && all_digits(s.subrange(11, 13)) && all_digits(
        s.subrange(14, 16),
    ) && all_digits(s.subrange(17, 19)) && all_digits(s.subrange(20, 29)) {
        let y = digits_value(s.subrange(0, 4));
        let m = digits_value(s.subrange(5, 7));
        let d = digits_value(s.subrange(8, 10));
        let h = digits_value(s.subrange(11, 13));
        let mi = digits_value(s.subrange(14, 16));
        let sec = digits_value(s.subrange(17, 19));
        let n = digits_value(s.subrange(20, 29));
        let leap = is_leap_year(y);
        if 1970 <= y <= 9999 && 1 <= m <= 12 && 1 <= d <= days_in_month(leap, m) && h < 24 && mi
            < 60 && sec < 60 {
            let days = days_before_year(y) + days_before_month(leap, m) + (d - 1);
            Some(
                ((days * (SECONDS_PER_DAY as int)) + h * 3600 + mi * 60 + sec) * (
                NANOS_PER_SECOND as int) + n,
            )
        } else {
            None
        }
    } else {
        None
    }
}

/// Appends `datetime_text(ts)` to `out`; fails, leaving `out` unchanged,
/// exactly when `ts` lies at or beyond year 10000.
pub fn format_datetime(out: &mut Vec<u8>, ts: u128) -> (ok: bool)
    ensures
        ok <==> (ts as int) < timestamp_limit(),
        ok ==> final(out)@ == old(out)@ + datetime_text(ts as int),
        !ok ==> final(out)@ == old(out)@,
{
    proof {
        crate::numtext::lemma_pow10_values();
        vstd::arithmetic::div_mod::lemma_fundamental_div_mod(
            ts as int,
            NANOS_PER_SECOND as int,
        );
        vstd::arithmetic::div_mod::lemma_mod_bound(ts as int, NANOS_PER_SECOND as int);
        vstd::arithmetic::div_mod::lemma_fundamental_div_mod(
            (ts / NANOS_PER_SECOND) as int,
            SECONDS_PER_DAY as int,
        );
        vstd::arithmetic::div_mod::lemma_mod_bound(
            (ts / NANOS_PER_SECOND) as int,
            SECONDS_PER_DAY as int,
        );
    }
    let nanos: u128 = ts % NANOS_PER_SECOND;
    let secs: u128 = ts / NANOS_PER_SECOND;
    let days: u128 = secs / SECONDS_PER_DAY;
    let sod: u128 = secs % SECONDS_PER_DAY;
    let ghost days_g = days as int;
    let mut y: u64 = 1970;
    let mut rem: u128 = days;
    while rem >= days_in_year_x(y) as u128
        invariant
            1970 <= y <= 9999,
            days_before_year(y as int) + rem == days_g,
            days_g == days as int,
            0 <= sod as int && (sod as int) < (SECONDS_PER_DAY as int),
            0 <= nanos as int && (nanos as int) < (NANOS_PER_SECOND as int),
            ts as int == (days_g * (SECONDS_PER_DAY as int) + sod as int) * (
            NANOS_PER_SECOND as int) + nanos as int,
        decreases rem,
    {
        if y == 9999 {
            proof {
                assert(days_before_year(10000) == days_before_year(9999) + days_in_year(9999));
                assert(days as int >= days_before_year(10000));
                assert(ts as int >= days as int * (SECONDS_PER_DAY as int) * (
                NANOS_PER_SECOND as int));
                assert(ts as int >= timestamp_limit());
            }
            return false;
        }
        rem = rem - days_in_year_x(y) as u128;
        y = y + 1;
    }
    proof {
        assert(rem < days_in_year(y as int));
        lemma_year_decomposition(days_g, 1970, y as int, rem as int);
        if y as int + 1 < 10000 {
            lemma_days_before_year_monotone((y + 1) as int, 10000);
        }
        assert(days_before_year((y + 1) as int) == days_before_year(y as int) + days_in_year(
            y as int,
        ));
        assert(days_g < days_before_year(10000));
        assert(ts as int == (days_g * (SECONDS_PER_DAY as int) + sod as int) * (
        NANOS_PER_SECOND as int) + nanos as int);
        assert((ts as int) < timestamp_limit());
    }
    let leap = leap_year(y);
    let doy: u64 = rem as u64;
    proof {
        lemma_months_cover_year(leap);
    }
    let mut m: u64 = 1;
    while m < 12 && doy >= days_before_month_x(leap, m + 1)
        invariant
            1 <= m <= 12,
            month_of(leap, doy as int, m as int) == month_of(leap, doy as int, 1),
            days_before_month(leap, m as int) <= doy as int,
        decreases 12 - m,
    {
        m = m + 1;
    }
    proof {
        assert(month_of(leap, doy as int, m as int) == m as int);
        if m < 12 {
            assert(days_before_month(leap, m as int + 1) == days_before_month(leap, m as int)
                + days_in_month(leap, m as int));
        } else {
            assert(days_before_month(leap, 13) == days_before_month(leap, 12) + days_in_month(
                leap,
                12,
            ));
            assert((doy as int) < days_before_month(leap, 13));
        }
        assert((doy as int) < days_before_month(leap, m as int) + days_in_month(leap, m as int));
    }
    let d: u64 = doy - days_before_month_x(leap, m) + 1;
    let sod64: u64 = sod as u64;
    let h: u64 = sod64 / 3600;
    let hr: u64 = sod64 % 3600;
    let mi: u64 = hr / 60;
    let sec: u64 = hr % 60;
    let ghost base = out@;
    push_dec_fixed_u(out, y, 4);
    out.push(45);
    push_dec_fixed_u(out, m, 2);
    out.push(45);
    push_dec_fixed_u(out, d, 2);
    out.push(32);
    push_dec_fixed_u(out, h, 2);
    out.push(58);
    push_dec_fixed_u(out, mi, 2);
    out.push(58);
    push_dec_fixed_u(out, sec, 2);
    out.push(46);
    let n64: u64 = nanos as u64;
    push_dec_fixed_u(out, n64, 9);
    proof {
        assert(out@ =~= base + datetime_text(ts as int));
    }
    true
}

/// Reads a 29-byte datetime field at offset `at` back into nanoseconds
/// since the epoch.
pub fn parse_datetime_at(s: &[u8], at: usize) -> (r: Option<u128>)
    requires
        at + 29 <= s@.len(),
    ensures
        (match r {
            Some(v) => parse_datetime_spec(s@.subrange(at as int, at + 29)) == Some(v as int),
            None => parse_datetime_spec(s@.subrange(at as int, at + 29)) is None,
        }),
{
    let slen = s.len();
    let ghost w = s@.subrange(at as int, at + 29);
    proof {
        crate::numtext::lemma_pow10_values();
        assert(w.subrange(0, 4) =~= s@.subrange(at as int, at + 4));
        assert(w.subrange(5, 7) =~= s@.subrange(at + 5, at + 7));
        assert(w.subrange(8, 10) =~= s@.subrange(at + 8, at + 10));
        assert(w.subrange(11, 13) =~= s@.subrange(at + 11, at + 13));
        assert(w.subrange(14, 16) =~= s@.subrange(at + 14, at + 16));
        assert(w.subrange(17, 19) =~= s@.subrange(at + 17, at + 19));
        assert(w.subrange(20, 29) =~= s@.subrange(at + 20, at + 29));
    }
    if !(s[at + 4] == 45 && s[at + 7] == 45 && s[at + 10] == 32 && s[at + 13] == 58 && s[at + 16]
        == 58 && s[at + 19] == 46) {
        return None;
    }
    let y = match crate::numtext::read_digits_fixed(s, at, 4) {
        Some(v) => v,
        None => {
            return None;
        },
    };
    let m = match crate::numtext::read_digits_fixed(s, at + 5, 2) {
        Some(v) => v,
        None => {
            return None;
        },
    };
    let d = match crate::numtext::read_digits_fixed(s, at + 8, 2) {
        Some(v) => v,
        None => {
            return None;
        },
    };
    let h = match crate::numtext::read_digits_fixed(s, at + 11, 2) {
        Some(v) => v,
        None => {
            return None;
        },
    };
    let mi = match crate::numtext::read_digits_fixed(s, at + 14, 2) {
        Some(v) => v,
        None => {
            return None;
        },
    };
    let sec = match crate::numtext::read_digits_fixed(s, at + 17, 2) {
        Some(v) => v,
        None => {
            return None;
        },
    };
    let n = match crate::numtext::read_digits_fixed(s, at + 20, 9) {
        Some(v) => v,
        None => {
            return None;
        },
    };
    if !(1970 <= y && y <= 9999) {
        return None;
    }
    let leap = leap_year(y);
    if !(1 <= m && m <= 12) {
        return None;
    }
    if !(1 <= d && d <= days_in_month_x(leap, m)) {
        return None;
    }
    if !(h < 24 && mi < 60 && sec < 60) {
        return None;
    }
    proof {
        lemma_days_before_year_bound(y as int);
        lemma_days_before_month_monotone(leap, m as int, 13);
        lemma_months_cover_year(leap);
    }
    let days: u64 = days_before_year_x(y) + days_before_month_x(leap, m) + (d - 1);
    let ts: u128 = ((days as u128) * (SECONDS_PER_DAY as u128) + (h as u128) * 3600 + (mi as u128)
        * 60 + (sec as u128)) * NANOS_PER_SECOND + (n as u128);
    Some(ts)
}

/// Appends the `w`-digit decimal rendering of a `u64` component.
fn push_dec_fixed_u(out: &mut Vec<u8>, v: u64, w: usize)
    requires
        v < crate::numtext::pow10(w as nat),
        w <= 10,
    ensures
        final(out)@ == old(out)@ + crate::numtext::dec_fixed(v as int, w as nat),
{
    crate::numtext::push_dec_fixed(out, v, w);
}

/// Law support: rendering a timestamp below the year-10000 limit and
/// reading the field back yields the same timestamp.
pub proof fn lemma_datetime_round_trip(ts: int)
    requires
        0 <= ts < timestamp_limit(),
    ensures
        datetime_text(ts).len() == 29,
        parse_datetime_spec(datetime_text(ts)) == Some(ts),
{
    crate::numtext::lemma_pow10_values();
    vstd::arithmetic::div_mod::lemma_fundamental_div_mod(ts, NANOS_PER_SECOND as int);
    vstd::arithmetic::div_mod::lemma_mod_bound(ts, NANOS_PER_SECOND as int);
    let nanos = ts % (NANOS_PER_SECOND as int);
    let secs = ts / (NANOS_PER_SECOND as int);
    vstd::arithmetic::div_mod::lemma_fundamental_div_mod(secs, SECONDS_PER_DAY as int);
    vstd::arithmetic::div_mod::lemma_mod_bound(secs, SECONDS_PER_DAY as int);
    let days = secs / (SECONDS_PER_DAY as int);
    let sod = secs % (SECONDS_PER_DAY as int);
    assert(days >= 0);
    assert(days < days_before_year(10000));
    lemma_year_walk(days, 1970);
    let y = year_of(days, 1970);
    let doy = day_of_year(days, 1970);
    assert(y <= 9999) by {
        if y >= 10000 {
            if y > 10000 {
                lemma_days_before_year_monotone(10000, y);
            }
            assert(days_before_year(y) >= days_before_year(10000));
        }
    }
    let leap = is_leap_year(y);
    lemma_months_cover_year(leap);
    lemma_month_walk(leap, doy, 1);
    let m = month_of(leap, doy, 1);
    let d = doy - days_before_month(leap, m) + 1;
    let h = sod / 3600;
    let hr = sod % 3600;
    let mi = hr / 60;
    let sec = hr % 60;
    vstd::arithmetic::div_mod::lemma_fundamental_div_mod(sod, 3600);
    vstd::arithmetic::div_mod::lemma_mod_bound(sod, 3600);
    vstd::arithmetic::div_mod::lemma_fundamental_div_mod(hr, 60);
    vstd::arithmetic::div_mod::lemma_mod_bound(hr, 60);
    assert(0 <= h < 24);
    assert(0 <= mi < 60);
    assert(0 <= sec < 60);
    crate::numtext::lemma_dec_fixed(y, 4);
    crate::numtext::lemma_dec_fixed(m, 2);
    crate::numtext::lemma_dec_fixed(d, 2);
    crate::numtext::lemma_dec_fixed(h, 2);
    crate::numtext::lemma_dec_fixed(mi, 2);
    crate::numtext::lemma_dec_fixed(sec, 2);
    crate::numtext::lemma_dec_fixed(nanos, 9);
    let text = datetime_text(ts);
    assert(text.len() == 29);
    assert(text.subrange(0, 4) =~= crate::numtext::dec_fixed(y, 4));
    assert(text[4] == 45);
    assert(text.subrange(5, 7) =~= crate::numtext::dec_fixed(m, 2));
    assert(text[7] == 45);
    assert(text.subrange(8, 10) =~= crate::numtext::dec_fixed(d, 2));
    assert(text[10] == 32);
    assert(text.subrange(11, 13) =~= crate::numtext::dec_fixed(h, 2));
    assert(text[13] == 58);
    assert(text.subrange(14, 16) =~= crate::numtext::dec_fixed(mi, 2));
    assert(text[16] == 58);
    assert(text.subrange(17, 19) =~= crate::numtext::dec_fixed(sec, 2));
    assert(text[19] == 46);
    assert(text.subrange(20, 29) =~= crate::numtext::dec_fixed(nanos, 9));
    assert(parse_datetime_spec(text) == Some(
        ((days_before_year(y) + days_before_month(leap, m) + (d - 1)) * (SECONDS_PER_DAY as int)
            + h * 3600 + mi * 60 + sec) * (NANOS_PER_SECOND as int) + nanos,
    ));
    assert(days_before_year(y) + days_before_month(leap, m) + (d - 1) == days);
    assert(h * 3600 + mi * 60 + sec == sod);
}

} // verus!
