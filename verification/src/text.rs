//! Byte-level text primitives shared by the stored-record codec and the
//! metrics-exposition parser: ASCII character classes, token scanning, and
//! decimal numbers, including a fixed-point reading of decimal fractions in
//! micro-units (millionths).

use vstd::prelude::*;

verus! {

/// ASCII decimal digit.
pub open spec fn is_digit(b: u8) -> bool {
    48 <= b <= 57
}

/// ASCII whitespace: tab, line feed, vertical tab, form feed, carriage
/// return, space.
pub open spec fn is_space(b: u8) -> bool {
    b == 9 || b == 10 || b == 11 || b == 12 || b == 13 || b == 32
}

/// Every byte of `s` is an ASCII decimal digit.
pub open spec fn all_digits(s: Seq<u8>) -> bool {
    forall|k: int| 0 <= k < s.len() ==> is_digit(#[trigger] s[k])
}

/// Value of a digit string read as a decimal number.
pub open spec fn digits_val(s: Seq<u8>) -> int
    decreases s.len(),
{
    if s.len() == 0 {
        0
    } else {
        digits_val(s.drop_last()) * 10 + (s.last() - 48)
    }
}

/// Ten to the `n`.
pub open spec fn pow10(n: nat) -> int
    decreases n,
{
    if n == 0 {
        1
    } else {
        10 * pow10((n - 1) as nat)
    }
}

/// Index of the first non-whitespace byte at or after `i`, or `s.len()`.
pub open spec fn skip_space(s: Seq<u8>, i: int) -> int
    recommends
        0 <= i <= s.len(),
    decreases s.len() - i when 0 <= i <= s.len()
{
    if i >= s.len() || !is_space(s[i]) {
        i
    } else {
        skip_space(s, i + 1)
    }
}

/// Index of the first whitespace byte at or after `i`, or `s.len()`.
pub open spec fn skip_token(s: Seq<u8>, i: int) -> int
    recommends
        0 <= i <= s.len(),
    decreases s.len() - i when 0 <= i <= s.len()
{
    if i >= s.len() || is_space(s[i]) {
        i
    } else {
        skip_token(s, i + 1)
    }
}

/// Index of the first non-digit byte at or after `i`, or `s.len()`.
pub open spec fn skip_digits(s: Seq<u8>, i: int) -> int
    recommends
        0 <= i <= s.len(),
    decreases s.len() - i when 0 <= i <= s.len()
{
    if i >= s.len() || !is_digit(s[i]) {
        i
    } else {
        skip_digits(s, i + 1)
    }
}

/// A run of whitespace ending at a non-whitespace byte (or at the end) is
/// exactly what `skip_space` walks over.
pub proof fn lemma_skip_space_run(s: Seq<u8>, i: int, j: int)
    requires
        0 <= i <= j <= s.len(),
        forall|k: int| i <= k < j ==> is_space(#[trigger] s[k]),
        j < s.len() ==> !is_space(s[j]),
    ensures
        skip_space(s, i) == j,
    decreases j - i,
{
    if i < j {
        lemma_skip_space_run(s, i + 1, j);
    }
}

/// Same characterization for `skip_token`.
pub proof fn lemma_skip_token_run(s: Seq<u8>, i: int, j: int)
    requires
        0 <= i <= j <= s.len(),
        forall|k: int| i <= k < j ==> !is_space(#[trigger] s[k]),
        j < s.len() ==> is_space(s[j]),
    ensures
        skip_token(s, i) == j,
    decreases j - i,
{
    if i < j {
        lemma_skip_token_run(s, i + 1, j);
    }
}

/// `skip_digits` never lands before its starting point.
pub proof fn lemma_skip_digits_lower(s: Seq<u8>, i: int)
    requires
        0 <= i <= s.len(),
    ensures
        i <= skip_digits(s, i) <= s.len(),
    decreases s.len() - i,
{
    if i < s.len() && is_digit(s[i]) {
        lemma_skip_digits_lower(s, i + 1);
    }
}

/// Everything `skip_digits` walked over is a digit.
pub proof fn lemma_skip_digits_all(s: Seq<u8>, i: int)
    requires
        0 <= i <= s.len(),
    ensures
        i <= skip_digits(s, i) <= s.len(),
        all_digits(s.subrange(i, skip_digits(s, i))),
    decreases s.len() - i,
{
    lemma_skip_digits_lower(s, i);
    let e = skip_digits(s, i);
    if i < s.len() && is_digit(s[i]) {
        lemma_skip_digits_all(s, i + 1);
        let inner = s.subrange(i + 1, e);
        let outer = s.subrange(i, e);
        assert forall|k: int| 0 <= k < outer.len() implies is_digit(#[trigger] outer[k]) by {
            if k == 0 {
                assert(outer[0] == s[i]);
            } else {
                assert(outer[k] == inner[k - 1]);
            }
        }
    } else {
        assert(s.subrange(i, e) =~= Seq::<u8>::empty());
    }
}

/// A digit string's value is never negative.
pub proof fn lemma_digits_val_nonneg(s: Seq<u8>)
    requires
        all_digits(s),
    ensures
        digits_val(s) >= 0,
    decreases s.len(),
{
    if s.len() > 0 {
        assert(all_digits(s.drop_last()));
        lemma_digits_val_nonneg(s.drop_last());
    }
}

/// A string of `n` digits stays under ten to the `n`.
pub proof fn lemma_digits_val_upper(s: Seq<u8>)
    requires
        all_digits(s),
    ensures
        0 <= digits_val(s) < pow10(s.len()),
    decreases s.len(),
{
    if s.len() > 0 {
        assert(all_digits(s.drop_last()));
        lemma_digits_val_upper(s.drop_last());
    }
}

/// A digit string's value only grows as digits are appended: once a prefix
/// is already over a bound, the whole string is too.
pub proof fn lemma_digits_val_grows(s: Seq<u8>, k: int)
    requires
        0 <= k <= s.len(),
        all_digits(s),
    ensures
        digits_val(s) >= digits_val(s.take(k)),
    decreases s.len() - k,
{
    if k < s.len() {
        lemma_digits_val_grows(s, k + 1);
        assert(s.take(k + 1).drop_last() =~= s.take(k));
        assert(digits_val(s.take(k + 1)) == digits_val(s.take(k)) * 10 + (s[k] - 48));
        assert(digits_val(s.take(k)) * 10 >= digits_val(s.take(k))) by {
            lemma_digits_val_nonneg(s.take(k));
        }
    } else {
        assert(s.take(k) =~= s);
    }
}

/// Whitespace test on one byte.
pub fn is_space_byte(b: u8) -> (r: bool)
    ensures
        r == is_space(b),
{
    b == 9 || b == 10 || b == 11 || b == 12 || b == 13 || b == 32
}

/// Digit test on one byte.
pub fn is_digit_byte(b: u8) -> (r: bool)
    ensures
        r == is_digit(b),
{
    48 <= b && b <= 57
}

/// Byte-for-byte equality of two slices.
pub fn bytes_eq(a: &[u8], b: &[u8]) -> (r: bool)
    ensures
        r == (a@ == b@),
{
    if a.len() != b.len() {
        return false;
    }
    let mut i: usize = 0;
    while i < a.len()
        invariant
            i <= a@.len() == b@.len(),
            forall|k: int| 0 <= k < i ==> a@[k] == b@[k],
        decreases a@.len() - i,
    {
        if a[i] != b[i] {
            return false;
        }
        i = i + 1;
    }
    assert(a@ =~= b@);
    true
}

/// Find the next whitespace-separated token at or after `from`: skip
/// whitespace, then walk to its end.
pub fn next_token(bytes: &[u8], from: usize) -> (r: (usize, usize))
    requires
        from <= bytes@.len(),
    ensures
        r.0 == skip_space(bytes@, from as int),
        r.1 == skip_token(bytes@, r.0 as int),
        from <= r.0 <= r.1 <= bytes@.len(),
{
    let mut i: usize = from;
    while i < bytes.len() && is_space_byte(bytes[i])
        invariant
            from <= i <= bytes@.len(),
            skip_space(bytes@, from as int) == skip_space(bytes@, i as int),
        decreases bytes@.len() - i,
    {
        i = i + 1;
    }
    let start: usize = i;
    let mut j: usize = start;
    while j < bytes.len() && !is_space_byte(bytes[j])
        invariant
            start <= j <= bytes@.len(),
            skip_token(bytes@, start as int) == skip_token(bytes@, j as int),
        decreases bytes@.len() - j,
    {
        j = j + 1;
    }
    (start, j)
}

/// Largest magnitude a decimal number may take here: `i64::MAX` counted in
/// micro-units.
pub open spec fn max_micro_magnitude() -> int {
    0x7fff_ffff_ffff_ffff
}

/// Scale factor that pads `n` fraction digits to six places.
pub open spec fn frac_scale(n: int) -> int {
    if n <= 0 {
        1000000
    } else if n == 1 {
        100000
    } else if n == 2 {
        10000
    } else if n == 3 {
        1000
    } else if n == 4 {
        100
    } else if n == 5 {
        10
    } else {
        1
    }
}

/// Micro-units contributed by a fraction part: its first six digits, scaled
/// as if padded with zeros to exactly six places; further digits are
/// truncated.
pub open spec fn frac_micros(f: Seq<u8>) -> int {
    if f.len() >= 6 {
        digits_val(f.take(6))
    } else {
        digits_val(f) * frac_scale(f.len() as int)
    }
}

/// The fraction's micro-units are a value between zero and a million.
pub proof fn lemma_frac_micros_bound(f: Seq<u8>)
    requires
        all_digits(f),
    ensures
        0 <= frac_micros(f) < 1000000,
{
    assert(pow10(0) == 1);
    assert(pow10(1) == 10);
    assert(pow10(2) == 100);
    assert(pow10(3) == 1000);
    assert(pow10(4) == 10000);
    assert(pow10(5) == 100000);
    assert(pow10(6) == 1000000);
    if f.len() >= 6 {
        let s6 = f.take(6);
        assert(all_digits(s6));
        lemma_digits_val_upper(s6);
    } else {
        lemma_digits_val_upper(f);
    }
}

/// Combine sign, integer part and fraction micro-units, rejecting
/// magnitudes beyond what fits.
pub open spec fn decimal_of(sign: int, ival: int, fmicros: int) -> Option<int> {
    let mag = ival * 1000000 + fmicros;
    if mag <= max_micro_magnitude() {
        Some(sign * mag)
    } else {
        None
    }
}

/// What a decimal token means, in signed micro-units, truncated toward zero
/// past the sixth fraction digit.  The accepted forms are an optional sign,
/// an integer part, and an optional `.` with a fraction part, with at least
/// one digit overall; exponents and non-finite spellings are not numbers
/// here.  `None` for anything else, and for magnitudes beyond
/// `max_micro_magnitude()`.
pub open spec fn spec_decimal_micros(t: Seq<u8>) -> Option<int> {
    if t.len() == 0 {
        None
    } else {
        let p: int = if t[0] == 43 || t[0] == 45 {
            1
        } else {
            0
        };
        let sign: int = if t[0] == 45 {
            -1
        } else {
            1
        };
        let d1 = skip_digits(t, p);
        let ipart = t.subrange(p, d1);
        if d1 == t.len() {
            if ipart.len() == 0 {
                None
            } else {
                decimal_of(sign, digits_val(ipart), 0)
            }
        } else if t[d1] == 46 {
            let d2 = skip_digits(t, d1 + 1);
            let fpart = t.subrange(d1 + 1, d2);
            if d2 == t.len() && ipart.len() + fpart.len() > 0 {
                decimal_of(sign, digits_val(ipart), frac_micros(fpart))
            } else {
                None
            }
        } else {
            None
        }
    }
}

/// Read a decimal token as signed micro-units, exactly as
/// `spec_decimal_micros` defines it.
pub fn parse_decimal_micros(t: &[u8]) -> (r: Option<i64>)
    ensures
        spec_decimal_micros(t@) == (match r {
            Some(x) => Some(x as int),
            None => None::<int>,
        }),
{
    if t.len() == 0 {
        return None;
    }
    let negative = t[0] == 45;
    let p: usize = if t[0] == 43 || t[0] == 45 {
        1
    } else {
        0
    };
    // Integer part, bailing out once the value cannot fit in micro-units.
    let mut i: usize = p;
    let mut ival: u64 = 0;
    while i < t.len() && is_digit_byte(t[i])
        invariant
            p <= i <= t@.len(),
            p == (if t@[0] == 43 || t@[0] == 45 {
                1int
            } else {
                0int
            }),
            skip_digits(t@, p as int) == skip_digits(t@, i as int),
            all_digits(t@.subrange(p as int, i as int)),
            ival == digits_val(t@.subrange(p as int, i as int)),
            ival <= 9223372036854,
        decreases t@.len() - i,
    {
        let d: u64 = (t[i] - 48) as u64;
        proof {
            assert(t@.subrange(p as int, i + 1).drop_last() =~= t@.subrange(p as int, i as int));
            assert forall|k: int| 0 <= k < i + 1 - p implies is_digit(
                #[trigger] t@.subrange(p as int, i + 1)[k],
            ) by {
                if k < i - p {
                    assert(t@.subrange(p as int, i as int)[k] == t@[p + k]);
                }
            }
        }
        if ival > 922337203685 || (ival == 922337203685 && d > 4) {
            proof {
                lemma_integer_part_too_big(t@, p as int, i + 1);
            }
            return None;
        }
        ival = ival * 10 + d;
        i = i + 1;
    }
    let d1: usize = i;
    if d1 == t.len() {
        if d1 == p {
            return None;
        }
        return finish_decimal(negative, ival, 0);
    }
    if t[d1] != 46 {
        return None;
    }
    // Fraction part: the first six digits carry the value, the rest only
    // have to be digits.
    let mut j: usize = d1 + 1;
    let mut fval: u64 = 0;
    while j < t.len() && is_digit_byte(t[j]) && j - (d1 + 1) < 6
        invariant
            d1 + 1 <= j <= t@.len(),
            j - (d1 + 1) <= 6,
            skip_digits(t@, d1 + 1) == skip_digits(t@, j as int),
            all_digits(t@.subrange(d1 + 1, j as int)),
            fval == digits_val(t@.subrange(d1 + 1, j as int)),
            fval < 1000000,
            j - (d1 + 1) < 6 ==> fval < spec_frac_prefix_bound(j - (d1 + 1)),
        decreases t@.len() - j,
    {
        proof {
            assert(t@.subrange(d1 + 1, j + 1).drop_last() =~= t@.subrange(d1 + 1, j as int));
            assert forall|k: int| 0 <= k < j + 1 - (d1 + 1) implies is_digit(
                #[trigger] t@.subrange(d1 + 1, j + 1)[k],
            ) by {
                if k < j - (d1 + 1) {
                    assert(t@.subrange(d1 + 1, j as int)[k] == t@[d1 + 1 + k]);
                }
            }
        }
        fval = fval * 10 + (t[j] - 48) as u64;
        j = j + 1;
    }
    let six_end: usize = j;
    while j < t.len() && is_digit_byte(t[j])
        invariant
            six_end <= j <= t@.len(),
            skip_digits(t@, six_end as int) == skip_digits(t@, j as int),
            forall|k: int| six_end <= k < j ==> is_digit(#[trigger] t@[k]),
        decreases t@.len() - j,
    {
        j = j + 1;
    }
    if j != t.len() {
        return None;
    }
    if d1 == p && six_end == d1 + 1 {
        // No digits at all, just a sign or a dot.
        return None;
    }
    let ndigits: usize = six_end - (d1 + 1);
    let scale: u64 = if ndigits == 0 {
        1000000
    } else if ndigits == 1 {
        100000
    } else if ndigits == 2 {
        10000
    } else if ndigits == 3 {
        1000
    } else if ndigits == 4 {
        100
    } else if ndigits == 5 {
        10
    } else {
        1
    };
    let fmicros: u64 = fval * scale;
    proof {
        let fpart = t@.subrange(d1 + 1, j as int);
        assert forall|k: int| 0 <= k < fpart.len() implies is_digit(#[trigger] fpart[k]) by {
            if k < six_end - (d1 + 1) {
                assert(t@.subrange(d1 + 1, six_end as int)[k] == t@[d1 + 1 + k]);
            } else {
                assert(t@[six_end + (k - (six_end - (d1 + 1)))] == t@[d1 + 1 + k]);
            }
        }
        if ndigits < 6 {
            assert(skip_digits(t@, six_end as int) == six_end);
            assert(j == six_end);
        }
        lemma_frac_micros_split(t@, d1 + 1, six_end as int, j as int);
        lemma_frac_micros_bound(fpart);
    }
    finish_decimal(negative, ival, fmicros)
}

/// Bound the first `n` fraction digits keep their value under.
pub open spec fn spec_frac_prefix_bound(n: int) -> int {
    if n <= 0 {
        1
    } else if n == 1 {
        10
    } else if n == 2 {
        100
    } else if n == 3 {
        1000
    } else if n == 4 {
        10000
    } else {
        100000
    }
}

/// Apply sign and range check to assembled micro-units.
fn finish_decimal(negative: bool, ival: u64, fmicros: u64) -> (r: Option<i64>)
    requires
        ival <= 9223372036854,
        fmicros < 1000000,
    ensures
        decimal_of(
            if negative {
                -1int
            } else {
                1int
            },
            ival as int,
            fmicros as int,
        ) == (match r {
            Some(x) => Some(x as int),
            None => None::<int>,
        }),
{
    let mag: u64 = ival * 1000000 + fmicros;
    if mag <= 0x7fff_ffff_ffff_ffff {
        if negative {
            Some(-(mag as i64))
        } else {
            Some(mag as i64)
        }
    } else {
        None
    }
}

/// If already the first digits of the integer part exceed what fits in
/// micro-units, the whole token reads as `None`, whatever follows.
proof fn lemma_integer_part_too_big(t: Seq<u8>, p: int, k: int)
    requires
        0 <= p <= k <= t.len(),
        p == (if t[0] == 43 || t[0] == 45 {
            1int
        } else {
            0int
        }),
        t.len() > 0,
        all_digits(t.subrange(p, k)),
        skip_digits(t, p) == skip_digits(t, k),
        digits_val(t.subrange(p, k)) * 1000000 > max_micro_magnitude(),
    ensures
        spec_decimal_micros(t) == None::<int>,
{
    let d1 = skip_digits(t, p);
    lemma_skip_digits_lower(t, k);
    lemma_skip_digits_all(t, p);
    let ipart = t.subrange(p, d1);
    assert(ipart.take(k - p) =~= t.subrange(p, k));
    lemma_digits_val_grows(ipart, k - p);
    lemma_digits_val_nonneg(t.subrange(p, k));
    assert(digits_val(ipart) * 1000000 > max_micro_magnitude());
    if d1 < t.len() && t[d1] == 46 {
        let d2 = skip_digits(t, d1 + 1);
        lemma_skip_digits_all(t, d1 + 1);
        lemma_frac_micros_bound(t.subrange(d1 + 1, d2));
    }
}

/// The fraction's micro-units come entirely from its first six digits.
proof fn lemma_frac_micros_split(t: Seq<u8>, f0: int, six: int, fe: int)
    requires
        0 <= f0 <= six <= fe <= t.len(),
        six - f0 <= 6,
        six - f0 < 6 ==> six == fe,
    ensures
        frac_micros(t.subrange(f0, fe)) == digits_val(t.subrange(f0, six)) * frac_scale(six - f0),
{
    let f = t.subrange(f0, fe);
    if six - f0 == 6 {
        assert(f.take(6) =~= t.subrange(f0, six));
        assert(frac_scale(6) == 1);
    } else {
        assert(f =~= t.subrange(f0, six));
    }
}

} // verus!
