//! The calibration baseline record and its persisted text encoding.
//!
//! The sensor's internal algorithm produces a two-field calibration record
//! which the daemon mirrors to durable storage so that a restart can resume
//! with a warm calibration.  The record is stored as two whitespace-separated
//! decimal numbers followed by a newline, e.g. `"36832 39121\n"`.  Decoding is
//! total: any content that does not hold two such numbers in range yields
//! `None` ("no baseline"), never an error.  The file I/O itself lives outside
//! the library; it hands the raw bytes in and carries the encoded bytes out.

use vstd::prelude::*;

use crate::text::{
    all_digits, digits_val, is_digit, is_space, lemma_digits_val_grows, lemma_digits_val_nonneg,
    lemma_skip_space_run, lemma_skip_token_run, next_token, skip_space, skip_token,
};

verus! {

/// Opaque calibration state produced by the sensor.  Both fields are raw
/// driver-defined calibration codes: the rest of the system never interprets
/// them, only round-trips them through storage.
#[derive(Clone, Copy, Debug, PartialEq, Eq, Structural)]
pub struct CalibrationBaseline {
    pub co2eq_baseline: u16,
    pub tvoc_baseline: u16,
}

/// What decoding the stored bytes means: take the first two
/// whitespace-separated tokens; if both are pure digit strings whose values
/// fit in sixteen bits, the record is their values, otherwise there is no
/// baseline.  Bytes after the second token are ignored.
pub open spec fn spec_parse_baseline(s: Seq<u8>) -> Option<CalibrationBaseline> {
    let a0 = skip_space(s, 0);
    let a1 = skip_token(s, a0);
    let b0 = skip_space(s, a1);
    let b1 = skip_token(s, b0);
    let tok1 = s.subrange(a0, a1);
    let tok2 = s.subrange(b0, b1);
    if tok1.len() > 0 && tok2.len() > 0 && all_digits(tok1) && all_digits(tok2)
        && digits_val(tok1) <= 65535 && digits_val(tok2) <= 65535 {
        Some(CalibrationBaseline {
            co2eq_baseline: digits_val(tok1) as u16,
            tvoc_baseline: digits_val(tok2) as u16,
        })
    } else {
        None
    }
}

/// Decimal digit string of `n`, most significant digit first, no leading
/// zeros (a single `'0'` for zero).
pub open spec fn spec_u16_digits(n: int) -> Seq<u8>
    recommends
        0 <= n,
    decreases n when 0 <= n
{
    if n < 10 {
        seq![(48 + n) as u8]
    } else {
        spec_u16_digits(n / 10).push((48 + n % 10) as u8)
    }
}

/// The stored form of a baseline: the two fields in decimal, separated by
/// one space, terminated by one newline.
pub open spec fn spec_encode_baseline(b: CalibrationBaseline) -> Seq<u8> {
    spec_u16_digits(b.co2eq_baseline as int) + seq![32u8] + spec_u16_digits(
        b.tvoc_baseline as int,
    ) + seq![10u8]
}

/// A value's digit string is made of digits, is nonempty, and reads back as
/// the value.
pub proof fn lemma_u16_digits_val(n: int)
    requires
        0 <= n,
    ensures
        spec_u16_digits(n).len() >= 1,
        all_digits(spec_u16_digits(n)),
        digits_val(spec_u16_digits(n)) == n,
    decreases n,
{
    if n < 10 {
        let s = spec_u16_digits(n);
        assert(s.drop_last() =~= Seq::<u8>::empty());
        assert(digits_val(Seq::<u8>::empty()) == 0);
        assert(digits_val(s) == s.last() - 48);
    } else {
        lemma_u16_digits_val(n / 10);
        let s = spec_u16_digits(n);
        assert(s.drop_last() =~= spec_u16_digits(n / 10));
        assert(digits_val(s) == (n / 10) * 10 + n % 10);
        vstd::arithmetic::div_mod::lemma_fundamental_div_mod(n, 10);
    }
}

/// Parse the first two whitespace-separated decimal tokens of `bytes` as a
/// baseline record.  Returns `None` for any content that does not begin with
/// two digit tokens in range: an empty file, non-numeric text, or values
/// beyond sixteen bits all read as "no baseline", never as an error.
pub fn parse_baseline(bytes: &[u8]) -> (r: Option<CalibrationBaseline>)
    ensures
        r == spec_parse_baseline(bytes@),
{
    let (a0, a1) = next_token(bytes, 0);
    let (b0, b1) = next_token(bytes, a1);
    let co2eq = match parse_u16(bytes, a0, a1) {
        Some(v) => v,
        None => {
            return None;
        },
    };
    let tvoc = match parse_u16(bytes, b0, b1) {
        Some(v) => v,
        None => {
            return None;
        },
    };
    Some(CalibrationBaseline { co2eq_baseline: co2eq, tvoc_baseline: tvoc })
}

/// Read `bytes[start..end]` as a decimal number that fits in sixteen bits.
fn parse_u16(bytes: &[u8], start: usize, end: usize) -> (r: Option<u16>)
    requires
        start <= end <= bytes@.len(),
    ensures
        ({
            let tok = bytes@.subrange(start as int, end as int);
            if tok.len() > 0 && all_digits(tok) && digits_val(tok) <= 65535 {
                r == Some(digits_val(tok) as u16)
            } else {
                r == None::<u16>
            }
        }),
{
    let ghost tok = bytes@.subrange(start as int, end as int);
    if start == end {
        return None;
    }
    let mut value: u32 = 0;
    let mut i: usize = start;
    while i < end
        invariant
            start <= i <= end <= bytes@.len(),
            tok == bytes@.subrange(start as int, end as int),
            all_digits(tok.take(i - start)),
            value == digits_val(tok.take(i - start)),
            value <= 65535,
        decreases end - i,
    {
        let b = bytes[i];
        if b < 48 || b > 57 {
            assert(!is_digit(tok[i - start]));
            return None;
        }
        let d: u32 = (b - 48) as u32;
        proof {
            assert(tok.take(i - start + 1).drop_last() =~= tok.take(i - start));
        }
        if value > 6553 || (value == 6553 && d > 5) {
            proof {
                if all_digits(tok) {
                    lemma_digits_val_grows(tok, i - start + 1);
                }
            }
            return None;
        }
        value = value * 10 + d;
        i = i + 1;
    }
    proof {
        assert(tok.take(i - start) =~= tok);
    }
    Some(value as u16)
}

/// Encode a baseline as its stored form: both fields in decimal, separated
/// by one space, terminated by one newline.
pub fn encode_baseline(b: &CalibrationBaseline) -> (r: Vec<u8>)
    ensures
        r@ == spec_encode_baseline(*b),
{
    let mut out: Vec<u8> = Vec::new();
    push_u16_digits(&mut out, b.co2eq_baseline);
    out.push(32);
    push_u16_digits(&mut out, b.tvoc_baseline);
    out.push(10);
    out
}

/// Append the decimal digits of `n` to `out`, most significant first.
fn push_u16_digits(out: &mut Vec<u8>, n: u16)
    ensures
        final(out)@ == old(out)@ + spec_u16_digits(n as int),
    decreases n,
{
    if n < 10 {
        out.push(48 + n as u8);
    } else {
        push_u16_digits(out, n / 10);
        out.push(48 + (n % 10) as u8);
    }
}

/// Saving a baseline and decoding the bytes back always returns the same
/// record: the store round-trips every representable pair of values.
pub proof fn lemma_baseline_round_trip(b: CalibrationBaseline)
    ensures
        spec_parse_baseline(spec_encode_baseline(b)) == Some(b),
{
    let d1 = spec_u16_digits(b.co2eq_baseline as int);
    let d2 = spec_u16_digits(b.tvoc_baseline as int);
    let s = spec_encode_baseline(b);
    lemma_u16_digits_val(b.co2eq_baseline as int);
    lemma_u16_digits_val(b.tvoc_baseline as int);
    let l1 = d1.len() as int;
    let l2 = d2.len() as int;
    assert(s.len() == l1 + 1 + l2 + 1);
    assert(forall|k: int| 0 <= k < l1 ==> s[k] == d1[k]);
    assert(s[l1] == 32);
    assert(forall|k: int| 0 <= k < l2 ==> s[l1 + 1 + k] == d2[k]);
    assert(s[l1 + 1 + l2] == 10);
    assert(forall|k: int| 0 <= k < l1 ==> !is_space(#[trigger] s[k]) && is_digit(s[k]));
    assert(forall|k: int| l1 + 1 <= k < l1 + 1 + l2 ==> !is_space(#[trigger] s[k]) && is_digit(
        s[k],
    ));
    lemma_skip_space_run(s, 0, 0);
    lemma_skip_token_run(s, 0, l1);
    lemma_skip_space_run(s, l1, l1 + 1);
    lemma_skip_token_run(s, l1 + 1, l1 + 1 + l2);
    assert(s.subrange(0, l1) =~= d1);
    assert(s.subrange(l1 + 1, l1 + 1 + l2) =~= d2);
    lemma_digits_val_nonneg(d1);
}

} // verus!
