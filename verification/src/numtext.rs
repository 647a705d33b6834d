//! Decimal text: parsing and printing of the numbers that appear in the
//! user-facing controls and in the session log lines.

use vstd::prelude::*;

verus! {

/// ASCII decimal digit.
pub open spec fn is_ascii_digit(b: u8) -> bool {
    48 <= b <= 57
}

/// Every byte of `s` is an ASCII decimal digit.
pub open spec fn all_digits(s: Seq<u8>) -> bool {
    forall|i: int| 0 <= i < s.len() ==> is_ascii_digit(#[trigger] s[i])
}

/// The number denoted by a sequence of decimal digits, most significant
/// first.
pub open spec fn digits_value(s: Seq<u8>) -> int
    decreases s.len(),
{
    if s.len() == 0 {
        0
    } else {
        digits_value(s.drop_last()) * 10 + (s.last() - 48)
    }
}

/// A digit string denotes a non-negative number, and no prefix of it denotes
/// a larger number than the whole.
pub proof fn lemma_digits_value_bounds(s: Seq<u8>, k: int)
    requires
        all_digits(s),
        0 <= k <= s.len(),
    ensures
        0 <= digits_value(s.take(k)) <= digits_value(s),
    decreases s.len() - k,
{
    assert(forall|i: int| 0 <= i < s.take(k).len() ==> is_ascii_digit(#[trigger] s.take(k)[i]));
    if k == s.len() {
        assert(s.take(k) =~= s);
        lemma_digits_nonneg(s.take(k));
    } else {
        lemma_digits_value_bounds(s, k + 1);
        assert(s.take(k + 1).drop_last() =~= s.take(k));
        lemma_digits_nonneg(s.take(k));
    }
}

/// A digit string denotes a non-negative number.
pub proof fn lemma_digits_nonneg(s: Seq<u8>)
    requires
        all_digits(s),
    ensures
        digits_value(s) >= 0,
    decreases s.len(),
{
    if s.len() > 0 {
        assert(forall|i: int|
            0 <= i < s.drop_last().len() ==> is_ascii_digit(#[trigger] s.drop_last()[i]));
        lemma_digits_nonneg(s.drop_last());
    }
}

/// Powers of ten.
pub open spec fn pow10(w: nat) -> int
    decreases w,
{
    if w == 0 {
        1
    } else {
        10 * pow10((w - 1) as nat)
    }
}

/// The first few powers of ten, spelled out.
pub proof fn lemma_pow10_values()
    ensures
        pow10(0) == 1,
        pow10(1) == 10,
        pow10(2) == 100,
        pow10(3) == 1000,
        pow10(4) == 10000,
        pow10(5) == 100000,
        pow10(9) == 1000000000,
        pow10(10) == 10000000000,
{
    assert(pow10(0) == 1);
    assert(pow10(1) == 10);
    assert(pow10(2) == 100);
    assert(pow10(3) == 1000);
    assert(pow10(4) == 10000);
    assert(pow10(5) == 100000);
    assert(pow10(6) == 1000000);
    assert(pow10(7) == 10000000);
    assert(pow10(8) == 100000000);
    assert(pow10(9) == 1000000000);
    assert(pow10(10) == 10000000000);
}

/// `v` printed as exactly `w` decimal digits, zero-padded, most significant
/// first.
pub open spec fn dec_fixed(v: int, w: nat) -> Seq<u8>
    decreases w,
{
    if w == 0 {
        Seq::empty()
    } else {
        dec_fixed(v / 10, (w - 1) as nat).push((48 + v % 10) as u8)
    }
}

/// `v` printed with as many decimal digits as it needs (one for zero), most
/// significant first.
pub open spec fn dec_var(v: int) -> Seq<u8>
    decreases v,
{
    if v < 10 {
        seq![(48 + if v >= 0 { v } else { 0 }) as u8]
    } else {
        dec_var(v / 10).push((48 + v % 10) as u8)
    }
}

/// Fixed-width printing is exact for values that fit the width, and reading
/// the digits back yields the value.
pub proof fn lemma_dec_fixed(v: int, w: nat)
    requires
        0 <= v < pow10(w),
    ensures
        dec_fixed(v, w).len() == w,
        all_digits(dec_fixed(v, w)),
        digits_value(dec_fixed(v, w)) == v,
    decreases w,
{
    if w == 0 {
    } else {
        assert(pow10(w) == 10 * pow10((w - 1) as nat));
        lemma_dec_fixed(v / 10, (w - 1) as nat);
        assert(dec_fixed(v, w).drop_last() =~= dec_fixed(v / 10, (w - 1) as nat));
        assert(forall|i: int|
            0 <= i < dec_fixed(v, w).len() - 1 ==> #[trigger] dec_fixed(v, w)[i] == dec_fixed(
                v / 10,
                (w - 1) as nat,
            )[i]);
    }
}

/// Variable-width printing yields at least one digit, nothing but digits,
/// and reading the digits back yields the value.
pub proof fn lemma_dec_var(v: int)
    requires
        0 <= v,
    ensures
        dec_var(v).len() >= 1,
        all_digits(dec_var(v)),
        digits_value(dec_var(v)) == v,
    decreases v,
{
    if v < 10 {
        assert(dec_var(v) =~= seq![(48 + v) as u8]);
        assert(dec_var(v).drop_last() =~= Seq::<u8>::empty());
        assert(digits_value(Seq::<u8>::empty()) == 0);
        assert(dec_var(v)[0] == (48 + v) as u8);
    } else {
        lemma_dec_var(v / 10);
        assert(dec_var(v).drop_last() =~= dec_var(v / 10));
        assert(forall|i: int|
            0 <= i < dec_var(v).len() - 1 ==> #[trigger] dec_var(v)[i] == dec_var(v / 10)[i]);
    }
}

/// Appends the `w`-digit zero-padded decimal rendering of `v`.
pub fn push_dec_fixed(out: &mut Vec<u8>, v: u64, w: usize)
    requires
        v < pow10(w as nat),
        w <= 10,
    ensures
        final(out)@ == old(out)@ + dec_fixed(v as int, w as nat),
    decreases w,
{
    if w == 0 {
        assert(final(out)@ =~= old(out)@ + dec_fixed(v as int, 0));
    } else {
        proof {
            assert(pow10(w as nat) == 10 * pow10((w - 1) as nat));
        }
        push_dec_fixed(out, v / 10, w - 1);
        out.push(48 + (v % 10) as u8);
        assert(final(out)@ =~= old(out)@ + dec_fixed(v as int, w as nat));
    }
}

/// Appends the natural-width decimal rendering of `v`.
pub fn push_dec_var(out: &mut Vec<u8>, v: u128)
    ensures
        final(out)@ == old(out)@ + dec_var(v as int),
    decreases v,
{
    if v < 10 {
        out.push(48 + v as u8);
        assert(final(out)@ =~= old(out)@ + dec_var(v as int));
    } else {
        push_dec_var(out, v / 10);
        out.push(48 + (v % 10) as u8);
        assert(final(out)@ =~= old(out)@ + dec_var(v as int));
    }
}

/// Reads `w` digits at offset `at` as a number; `None` when any byte there
/// is not a digit.
pub fn read_digits_fixed(s: &[u8], at: usize, w: usize) -> (r: Option<u64>)
    requires
        at + w <= s@.len(),
        w <= 10,
    ensures
        all_digits(s@.subrange(at as int, at + w)) ==> r == Some(
            digits_value(s@.subrange(at as int, at + w)) as u64,
        ),
        !all_digits(s@.subrange(at as int, at + w)) ==> r is None,
        r matches Some(v) ==> v < pow10(w as nat) && v == digits_value(
            s@.subrange(at as int, at + w),
        ),
    decreases w,
{
    proof {
        lemma_pow10_values();
    }
    let slen = s.len();
    let mut acc: u64 = 0;
    let mut i: usize = 0;
    while i < w
        invariant
            0 <= i <= w,
            w <= 10,
            slen == s@.len(),
            at + w <= slen,
            all_digits(s@.subrange(at as int, at + i)),
            acc == digits_value(s@.subrange(at as int, at + i)),
            acc < pow10(i as nat),
        decreases w - i,
    {
        let b = s[at + i];
        if b < 48 || b > 57 {
            proof {
                assert(s@.subrange(at as int, at + w)[i as int] == b);
            }
            return None;
        }
        proof {
            assert(pow10((i + 1) as nat) == 10 * pow10(i as nat));
            lemma_pow10_monotone((i + 1) as nat, 10nat);
            assert(pow10((i + 1) as nat) <= pow10(10));
            lemma_pow10_values();
        }
        acc = acc * 10 + (b - 48) as u64;
        proof {
            assert(s@.subrange(at as int, at + i + 1).drop_last() =~= s@.subrange(
                at as int,
                at + i,
            ));
            assert(s@.subrange(at as int, at + i + 1).last() == b);
            assert(forall|m: int|
                0 <= m < s@.subrange(at as int, at + i + 1).len() ==> is_ascii_digit(
                    #[trigger] s@.subrange(at as int, at + i + 1)[m],
                ));
        }
        i += 1;
    }
    proof {
        assert(all_digits(s@.subrange(at as int, at + w)));
    }
    Some(acc)
}

/// `pow10` is monotone.
pub proof fn lemma_pow10_monotone(a: nat, b: nat)
    requires
        a <= b,
    ensures
        pow10(a) <= pow10(b),
        pow10(a) >= 1,
    decreases b,
{
    if a == b {
        lemma_pow10_positive(a);
    } else {
        lemma_pow10_monotone(a, (b - 1) as nat);
    }
}

/// `pow10` is positive.
proof fn lemma_pow10_positive(a: nat)
    ensures
        pow10(a) >= 1,
    decreases a,
{
    if a > 0 {
        lemma_pow10_positive((a - 1) as nat);
    }
}

/// What a decimal `u16` field means: a non-empty run of digits whose value
/// fits in sixteen bits (leading zeros allowed).
pub open spec fn parse_u16_spec(s: Seq<u8>) -> Option<u16> {
    if s.len() >= 1 && all_digits(s) && digits_value(s) <= 0xffff {
        Some(digits_value(s) as u16)
    } else {
        None
    }
}

/// Parses the bytes `s[start..end]` as a decimal `u16` field.
pub fn parse_u16_range(s: &[u8], start: usize, end: usize) -> (r: Option<u16>)
    requires
        start <= end <= s@.len(),
    ensures
        r == parse_u16_spec(s@.subrange(start as int, end as int)),
{
    let ghost f = s@.subrange(start as int, end as int);
    let slen = s.len();
    if start == end {
        return None;
    }
    let mut acc: u32 = 0;
    let mut i: usize = start;
    while i < end
        invariant
            start <= i <= end <= slen,
            slen == s@.len(),
            f == s@.subrange(start as int, end as int),
            all_digits(f.take(i - start)),
            acc == digits_value(f.take(i - start)),
            acc <= 0xffff,
        decreases end - i,
    {
        let b = s[i];
        proof {
            assert(f[i - start] == b);
        }
        if b < 48 || b > 57 {
            return None;
        }
        acc = acc * 10 + (b - 48) as u32;
        proof {
            assert(f.take(i + 1 - start).drop_last() =~= f.take(i - start));
            assert(f.take(i + 1 - start).last() == b);
            assert(forall|m: int|
                0 <= m < f.take(i + 1 - start).len() ==> is_ascii_digit(
                    #[trigger] f.take(i + 1 - start)[m],
                ));
        }
        if acc > 0xffff {
            proof {
                if all_digits(f) {
                    lemma_digits_value_bounds(f, i + 1 - start);
                }
            }
            return None;
        }
        i += 1;
    }
    proof {
        assert(f.take(end - start) =~= f);
    }
    Some(acc as u16)
}

/// Parses a decimal `u16`: at least one digit, nothing but digits, value at
/// most `u16::MAX`.
pub fn parse_u16(s: &[u8]) -> (r: Option<u16>)
    ensures
        r == parse_u16_spec(s@),
{
    if s.len() == 0 {
        return None;
    }
    let n = s.len();
    let mut acc: u32 = 0;
    let mut i: usize = 0;
    while i < n
        invariant
            0 <= i <= n,
            n == s@.len(),
            all_digits(s@.take(i as int)),
            acc == digits_value(s@.take(i as int)),
            acc <= 0xffff,
        decreases n - i,
    {
        let b = s[i];
        if b < 48 || b > 57 {
            return None;
        }
        acc = acc * 10 + (b - 48) as u32;
        proof {
            assert(s@.take(i + 1).drop_last() =~= s@.take(i as int));
            assert(s@.take(i + 1).last() == s@[i as int]);
            assert(forall|m: int|
                0 <= m < s@.take(i + 1).len() ==> is_ascii_digit(#[trigger] s@.take(i + 1)[m]));
        }
        if acc > 0xffff {
            proof {
                if all_digits(s@) {
                    lemma_digits_value_bounds(s@, i + 1);
                }
            }
            return None;
        }
        i += 1;
    }
    proof {
        assert(s@.take(n as int) =~= s@);
    }
    Some(acc as u16)
}

} // verus!
