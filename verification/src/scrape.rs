//! Parsing the peer's text metrics exposition and selecting the humidity
//! sample.
//!
//! The peer endpoint serves lines of `name{label="value",...} value
//! [timestamp]`, with `#` comment lines and blank lines in between.  The
//! daemon filters the samples to the one device it is paired with (by the
//! `device` label), takes the temperature gauge and the humidity-ratio
//! gauge, and converts the ratio (on `[0,1]`) to a percentage.  Values are
//! read in signed micro-units; the metric names to select are arguments, so
//! the caller decides which gauges stand for temperature and humidity
//! ratio.  The HTTP transfer itself lives outside the library; it hands the
//! body bytes in.

use vstd::prelude::*;

use crate::text::{
    bytes_eq, is_digit, is_space_byte, next_token, parse_decimal_micros, skip_space, skip_token,
    spec_decimal_micros,
};

verus! {

/// Why a humidity sample could not be fetched.  `Transport` is reported by
/// the program around the library when the request itself fails; the parser
/// reports `Parse` for a body it cannot read and `MissingMetric` when the
/// body is fine but one of the two samples is absent for the device.
#[derive(Clone, Copy, Debug, PartialEq, Eq, Structural)]
pub enum FetchError {
    Transport,
    Parse,
    MissingMetric,
}

/// The pair of gauges scraped from the peer, in micro-units: millionths of
/// a degree Celsius, and millionths of a percentage point of relative
/// humidity.
#[derive(Clone, Copy, Debug, PartialEq, Eq, Structural)]
pub struct HumiditySample {
    pub temperature_micro_celsius: i64,
    pub humidity_micro_percent: i64,
}

/// A byte that may start a metric name: a letter, `_` or `:`.
pub open spec fn is_name_start(b: u8) -> bool {
    (65 <= b <= 90) || (97 <= b <= 122) || b == 95 || b == 58
}

/// A byte that may continue a metric name.
pub open spec fn is_name_byte(b: u8) -> bool {
    is_name_start(b) || is_digit(b)
}

/// A byte that may start a label name: a letter or `_`.
pub open spec fn is_label_start(b: u8) -> bool {
    (65 <= b <= 90) || (97 <= b <= 122) || b == 95
}

/// A byte that may continue a label name.
pub open spec fn is_label_byte(b: u8) -> bool {
    is_label_start(b) || is_digit(b)
}

/// Index of the first byte at or after `i` that cannot continue a metric
/// name, or `s.len()`.
pub open spec fn skip_name(s: Seq<u8>, i: int) -> int
    recommends
        0 <= i <= s.len(),
    decreases s.len() - i when 0 <= i <= s.len()
{
    if i >= s.len() || !is_name_byte(s[i]) {
        i
    } else {
        skip_name(s, i + 1)
    }
}

/// Index of the first byte at or after `i` that cannot continue a label
/// name, or `s.len()`.
pub open spec fn skip_label(s: Seq<u8>, i: int) -> int
    recommends
        0 <= i <= s.len(),
    decreases s.len() - i when 0 <= i <= s.len()
{
    if i >= s.len() || !is_label_byte(s[i]) {
        i
    } else {
        skip_label(s, i + 1)
    }
}

/// Index of the first line feed at or after `i`, or `s.len()`.
pub open spec fn find_nl(s: Seq<u8>, i: int) -> int
    recommends
        0 <= i <= s.len(),
    decreases s.len() - i when 0 <= i <= s.len()
{
    if i >= s.len() || s[i] == 10 {
        i
    } else {
        find_nl(s, i + 1)
    }
}

/// What a backslash escape in a label value stands for: `\n` is a line
/// feed; any other escaped byte, `\\` and `\"` among them, stands for
/// itself.
pub open spec fn unescape(b: u8) -> u8 {
    if b == 110 {
        10
    } else {
        b
    }
}

/// Index just after the closing quote of a label value whose content starts
/// at `i`, escapes skipped — or `s.len() + 1` when the quote never closes.
pub open spec fn quote_end(s: Seq<u8>, i: int) -> int
    recommends
        0 <= i <= s.len(),
    decreases s.len() - i when 0 <= i <= s.len()
{
    if i >= s.len() {
        s.len() as int + 1
    } else if s[i] == 34 {
        i + 1
    } else if s[i] == 92 {
        if i + 1 < s.len() {
            quote_end(s, i + 2)
        } else {
            s.len() as int + 1
        }
    } else {
        quote_end(s, i + 1)
    }
}

/// The unescaped content of a label value whose content starts at `i`.
pub open spec fn quote_content(s: Seq<u8>, i: int) -> Seq<u8>
    recommends
        0 <= i <= s.len(),
    decreases s.len() - i when 0 <= i <= s.len()
{
    if i >= s.len() {
        Seq::empty()
    } else if s[i] == 34 {
        Seq::empty()
    } else if s[i] == 92 {
        if i + 1 < s.len() {
            seq![unescape(s[i + 1])] + quote_content(s, i + 2)
        } else {
            Seq::empty()
        }
    } else {
        seq![s[i]] + quote_content(s, i + 1)
    }
}

/// The label list read from just after `{` (or just after a `,`): the
/// `key="value"` pairs in order, and the index just after the closing `}`.
/// `None` when the list is not well-formed.
pub open spec fn labels_after(s: Seq<u8>, i: int) -> Option<(Seq<(Seq<u8>, Seq<u8>)>, int)>
    recommends
        0 <= i <= s.len(),
    decreases s.len() - i when 0 <= i <= s.len()
{
    if i >= s.len() {
        None
    } else if s[i] == 125 {
        Some((Seq::empty(), i + 1))
    } else {
        let ke = skip_label(s, i);
        if ke == i || !is_label_start(s[i]) {
            None
        } else if ke < s.len() && s[ke] == 61 && ke + 1 < s.len() && s[ke + 1] == 34 {
            let ve = quote_end(s, ke + 2);
            let pair = (s.subrange(i, ke), quote_content(s, ke + 2));
            // `i < ve + 1` always holds here; stating it keeps the
            // recursion's measure visibly decreasing.
            if ve < s.len() && s[ve] == 44 && i < ve + 1 {
                match labels_after(s, ve + 1) {
                    None => None,
                    Some((rest, e)) => Some((seq![pair] + rest, e)),
                }
            } else if ve < s.len() && s[ve] == 125 {
                Some((seq![pair], ve + 1))
            } else {
                None
            }
        } else {
            None
        }
    }
}

/// The label key the daemon filters on.
pub open spec fn device_key() -> Seq<u8> {
    seq![100u8, 101u8, 118u8, 105u8, 99u8, 101u8]
}

/// The value of the first `device` label in a label list.
pub open spec fn device_of(labels: Seq<(Seq<u8>, Seq<u8>)>) -> Option<Seq<u8>>
    decreases labels.len(),
{
    if labels.len() == 0 {
        None
    } else if labels[0].0 == device_key() {
        Some(labels[0].1)
    } else {
        device_of(labels.drop_first())
    }
}

/// One parsed sample line: its metric name, its labels, and its raw value
/// token (the optional trailing timestamp is ignored).
pub struct SampleSpec {
    pub name: Seq<u8>,
    pub labels: Seq<(Seq<u8>, Seq<u8>)>,
    pub value: Seq<u8>,
}

/// What one line of the body means: whitespace and comments are ignored, a
/// well-formed sample line carries a sample, anything else is malformed.
pub enum LineSpec {
    Ignored,
    Sample(SampleSpec),
    Malformed,
}

/// The sample grammar from the metric name's end onward: at least one
/// whitespace byte, the value token, an optional timestamp token, trailing
/// whitespace.
pub open spec fn value_part(line: Seq<u8>, i: int, name: Seq<u8>, labels: Seq<(Seq<u8>, Seq<u8>)>) -> LineSpec {
    let v0 = skip_space(line, i);
    if v0 == i || v0 == line.len() {
        LineSpec::Malformed
    } else {
        let v1 = skip_token(line, v0);
        let t0 = skip_space(line, v1);
        let t1 = skip_token(line, t0);
        let rest = skip_space(line, t1);
        if rest == line.len() {
            LineSpec::Sample(SampleSpec { name, labels, value: line.subrange(v0, v1) })
        } else {
            LineSpec::Malformed
        }
    }
}

/// Parse one line: skip leading whitespace; empty lines and `#` comments
/// are ignored; otherwise the line must be `name` or `name{labels}`
/// followed by its value.
pub open spec fn spec_parse_line(line: Seq<u8>) -> LineSpec {
    let i0 = skip_space(line, 0);
    if i0 == line.len() {
        LineSpec::Ignored
    } else if line[i0] == 35 {
        LineSpec::Ignored
    } else if !is_name_start(line[i0]) {
        LineSpec::Malformed
    } else {
        let ne = skip_name(line, i0);
        let name = line.subrange(i0, ne);
        if ne < line.len() && line[ne] == 123 {
            match labels_after(line, ne + 1) {
                None => LineSpec::Malformed,
                Some((labels, after)) => value_part(line, after, name, labels),
            }
        } else {
            value_part(line, ne, name, Seq::empty())
        }
    }
}

/// The body cut at line feeds, from `j` on; the final line has no line feed
/// of its own.
pub open spec fn split_from(body: Seq<u8>, j: int) -> Seq<Seq<u8>>
    recommends
        0 <= j <= body.len(),
    decreases body.len() - j when 0 <= j <= body.len()
{
    let e = find_nl(body, j);
    if j <= e && e < body.len() {
        seq![body.subrange(j, e)] + split_from(body, e + 1)
    } else {
        seq![body.subrange(j, body.len() as int)]
    }
}

/// Does some line of the body fail to parse?
pub open spec fn any_malformed(lines: Seq<Seq<u8>>) -> bool {
    exists|q: int| 0 <= q < lines.len() && #[trigger] spec_parse_line(lines[q]) == LineSpec::Malformed
}

/// Is this line a sample of the wanted metric for the wanted device?
pub open spec fn is_wanted(line: Seq<u8>, dev: Seq<u8>, metric: Seq<u8>) -> bool {
    match spec_parse_line(line) {
        LineSpec::Sample(ss) => ss.name == metric && device_of(ss.labels) == Some(dev),
        _ => false,
    }
}

/// The value token of a sample line (the empty sequence elsewhere).
pub open spec fn sample_value(line: Seq<u8>) -> Seq<u8> {
    match spec_parse_line(line) {
        LineSpec::Sample(ss) => ss.value,
        _ => Seq::empty(),
    }
}

/// The value of the last sample of the wanted metric for the wanted device,
/// as the original exposition consumers read repeated samples.
pub open spec fn last_value(lines: Seq<Seq<u8>>, dev: Seq<u8>, metric: Seq<u8>) -> Option<Seq<u8>>
    decreases lines.len(),
{
    if lines.len() == 0 {
        None
    } else if is_wanted(lines.last(), dev, metric) {
        Some(sample_value(lines.last()))
    } else {
        last_value(lines.drop_last(), dev, metric)
    }
}

/// Largest micro-unit ratio whose conversion to micro-percent still fits.
pub open spec fn max_ratio_micro() -> int {
    92233720368547758
}

/// What fetching means, given the body the peer served: if any line is
/// malformed the body is rejected as `Parse`; otherwise the last
/// temperature sample and the last humidity-ratio sample for the device
/// are taken; a missing sample is `MissingMetric`; a value token that is
/// not a decimal number here (or a ratio too large to scale) is `Parse`;
/// otherwise the sample is the temperature in micro-degrees and the ratio
/// times one hundred — a percentage — in micro-percent.
pub open spec fn spec_extract(body: Seq<u8>, dev: Seq<u8>, tname: Seq<u8>, hname: Seq<u8>) -> Result<
    HumiditySample,
    FetchError,
> {
    let lines = split_from(body, 0);
    if any_malformed(lines) {
        Err(FetchError::Parse)
    } else {
        match (last_value(lines, dev, tname), last_value(lines, dev, hname)) {
            (Some(tv), Some(hv)) => match (spec_decimal_micros(tv), spec_decimal_micros(hv)) {
                (Some(t), Some(h)) => if -max_ratio_micro() <= h <= max_ratio_micro() {
                    Ok(
                        HumiditySample {
                            temperature_micro_celsius: t as i64,
                            humidity_micro_percent: (h * 100) as i64,
                        },
                    )
                } else {
                    Err(FetchError::Parse)
                },
                _ => Err(FetchError::Parse),
            },
            _ => Err(FetchError::MissingMetric),
        }
    }
}

/// Does an optional owned value stand for an optional abstract one?
pub open spec fn opt_vec_matches(d: Option<Vec<u8>>, s: Option<Seq<u8>>) -> bool {
    match (d, s) {
        (Some(v), Some(q)) => v@ == q,
        (None, None) => true,
        _ => false,
    }
}

/// One parsed sample line, by reference into the line: the byte ranges of
/// the name and the value token, and the device label's value if one was
/// present.
struct SampleRef {
    name_lo: usize,
    name_hi: usize,
    device: Option<Vec<u8>>,
    val_lo: usize,
    val_hi: usize,
}

/// Executable mirror of `LineSpec`.
enum LineOut {
    Ignored,
    Sample(SampleRef),
    Malformed,
}

/// Does the executable line result stand for the abstract one?
spec fn line_out_matches(r: LineOut, line: Seq<u8>) -> bool {
    match spec_parse_line(line) {
        LineSpec::Ignored => r is Ignored,
        LineSpec::Malformed => r is Malformed,
        LineSpec::Sample(ss) => match r {
            LineOut::Sample(sr) => sr.name_lo <= sr.name_hi <= line.len() && sr.val_lo
                <= sr.val_hi <= line.len() && line.subrange(
                sr.name_lo as int,
                sr.name_hi as int,
            ) == ss.name && line.subrange(sr.val_lo as int, sr.val_hi as int) == ss.value
                && opt_vec_matches(sr.device, device_of(ss.labels)),
            _ => false,
        },
    }
}

/// Name-start test on one byte.
fn is_name_start_byte(b: u8) -> (r: bool)
    ensures
        r == is_name_start(b),
{
    (65 <= b && b <= 90) || (97 <= b && b <= 122) || b == 95 || b == 58
}

/// Name-continue test on one byte.
fn is_name_byte_exec(b: u8) -> (r: bool)
    ensures
        r == is_name_byte(b),
{
    is_name_start_byte(b) || (48 <= b && b <= 57)
}

/// Label-start test on one byte.
fn is_label_start_byte(b: u8) -> (r: bool)
    ensures
        r == is_label_start(b),
{
    (65 <= b && b <= 90) || (97 <= b && b <= 122) || b == 95
}

/// Label-continue test on one byte.
fn is_label_byte_exec(b: u8) -> (r: bool)
    ensures
        r == is_label_byte(b),
{
    is_label_start_byte(b) || (48 <= b && b <= 57)
}

/// Walk over whitespace from `from`.
fn scan_space(line: &[u8], from: usize) -> (r: usize)
    requires
        from <= line@.len(),
    ensures
        r == skip_space(line@, from as int),
        from <= r <= line@.len(),
{
    let mut i: usize = from;
    while i < line.len() && is_space_byte(line[i])
        invariant
            from <= i <= line@.len(),
            skip_space(line@, from as int) == skip_space(line@, i as int),
        decreases line@.len() - i,
    {
        i = i + 1;
    }
    i
}

/// Walk over metric-name bytes from `from`.
fn scan_name(line: &[u8], from: usize) -> (r: usize)
    requires
        from <= line@.len(),
    ensures
        r == skip_name(line@, from as int),
        from <= r <= line@.len(),
{
    let mut i: usize = from;
    while i < line.len() && is_name_byte_exec(line[i])
        invariant
            from <= i <= line@.len(),
            skip_name(line@, from as int) == skip_name(line@, i as int),
        decreases line@.len() - i,
    {
        i = i + 1;
    }
    i
}

/// Walk over label-name bytes from `from`.
fn scan_label(line: &[u8], from: usize) -> (r: usize)
    requires
        from <= line@.len(),
    ensures
        r == skip_label(line@, from as int),
        from <= r <= line@.len(),
{
    let mut i: usize = from;
    while i < line.len() && is_label_byte_exec(line[i])
        invariant
            from <= i <= line@.len(),
            skip_label(line@, from as int) == skip_label(line@, i as int),
        decreases line@.len() - i,
    {
        i = i + 1;
    }
    i
}

/// Walk to the next line feed from `from`.
fn scan_nl(body: &[u8], from: usize) -> (r: usize)
    requires
        from <= body@.len(),
    ensures
        r == find_nl(body@, from as int),
        from <= r <= body@.len(),
        r < body@.len() ==> body@[r as int] == 10,
{
    let mut i: usize = from;
    while i < body.len() && body[i] != 10
        invariant
            from <= i <= body@.len(),
            find_nl(body@, from as int) == find_nl(body@, i as int),
        decreases body@.len() - i,
    {
        i = i + 1;
    }
    i
}

/// Resolve one escaped byte.
fn unescape_byte(b: u8) -> (r: u8)
    ensures
        r == unescape(b),
{
    if b == 110 {
        10
    } else {
        b
    }
}

/// Collect a quoted label value from `from` (just after the opening
/// quote): its unescaped content and the index just after the closing
/// quote, or `None` when the quote never closes.
fn scan_qstring(line: &[u8], from: usize) -> (r: Option<(Vec<u8>, usize)>)
    requires
        from <= line@.len(),
    ensures
        match r {
            Some(p) => quote_end(line@, from as int) == p.1 && from < p.1 <= line@.len() && p.0@
                == quote_content(line@, from as int),
            None => quote_end(line@, from as int) > line@.len(),
        },
{
    let mut j: usize = from;
    let mut out: Vec<u8> = Vec::new();
    loop
        invariant
            from <= j <= line@.len(),
            quote_end(line@, from as int) == quote_end(line@, j as int),
            quote_content(line@, from as int) == out@ + quote_content(line@, j as int),
        decreases line@.len() - j,
    {
        if j >= line.len() {
            return None;
        }
        let b = line[j];
        if b == 34 {
            proof {
                assert(quote_content(line@, j as int) =~= Seq::<u8>::empty());
                assert(out@ + Seq::<u8>::empty() =~= out@);
            }
            return Some((out, j + 1));
        }
        if b == 92 {
            if j + 1 >= line.len() {
                return None;
            }
            out.push(unescape_byte(line[j + 1]));
            proof {
                assert(out@ + quote_content(line@, j + 2) =~= (out@.drop_last() + (seq![
                    unescape(line@[j + 1]),
                ] + quote_content(line@, j + 2))));
            }
            j = j + 2;
        } else {
            out.push(b);
            proof {
                assert(out@ + quote_content(line@, j + 1) =~= (out@.drop_last() + (seq![line@[j as int]]
                    + quote_content(line@, j + 1))));
            }
            j = j + 1;
        }
    }
}

/// Does the byte range `lo..hi` of `line` spell `device`?
fn range_is_device_key(line: &[u8], lo: usize, hi: usize) -> (r: bool)
    requires
        lo <= hi <= line@.len(),
    ensures
        r == (line@.subrange(lo as int, hi as int) == device_key()),
{
    proof {
        assert(device_key().len() == 6);
    }
    if hi - lo != 6 {
        assert(line@.subrange(lo as int, hi as int) != device_key());
        return false;
    }
    let r = line[lo] == 100 && line[lo + 1] == 101 && line[lo + 2] == 118 && line[lo + 3] == 105
        && line[lo + 4] == 99 && line[lo + 5] == 101;
    proof {
        if r {
            assert(line@.subrange(lo as int, hi as int) =~= device_key());
        } else {
            assert(line@.subrange(lo as int, hi as int) != device_key());
        }
    }
    r
}

/// Relates the labels already consumed (`acc`) and the scan position `j` to
/// the whole label list from `start`.
spec fn labels_acc_inv(s: Seq<u8>, start: int, j: int, acc: Seq<(Seq<u8>, Seq<u8>)>) -> bool {
    labels_after(s, start) == (match labels_after(s, j) {
        None => None::<(Seq<(Seq<u8>, Seq<u8>)>, int)>,
        Some((rest, e)) => Some((acc + rest, e)),
    })
}

/// Appending one pair to a label list resolves the device lookup one more
/// step.
proof fn lemma_device_of_push(acc: Seq<(Seq<u8>, Seq<u8>)>, p: (Seq<u8>, Seq<u8>))
    ensures
        device_of(acc.push(p)) == (if device_of(acc) is Some {
            device_of(acc)
        } else if p.0 == device_key() {
            Some(p.1)
        } else {
            None::<Seq<u8>>
        }),
    decreases acc.len(),
{
    let w = acc.push(p);
    assert(device_of(w) == (if w[0].0 == device_key() {
        Some(w[0].1)
    } else {
        device_of(w.drop_first())
    }));
    if acc.len() == 0 {
        assert(w[0] == p);
        assert(w.drop_first() =~= Seq::<(Seq<u8>, Seq<u8>)>::empty());
        assert(device_of(Seq::<(Seq<u8>, Seq<u8>)>::empty()) == None::<Seq<u8>>);
    } else {
        assert(w[0] == acc[0]);
        assert(w.drop_first() =~= acc.drop_first().push(p));
        lemma_device_of_push(acc.drop_first(), p);
        assert(device_of(acc) == (if acc[0].0 == device_key() {
            Some(acc[0].1)
        } else {
            device_of(acc.drop_first())
        }));
    }
}

/// Parse a label list from just after the `{`: the value of the first
/// `device` label (if any) and the index just after the `}`.
fn parse_labels(line: &[u8], start: usize) -> (r: Option<(Option<Vec<u8>>, usize)>)
    requires
        start <= line@.len(),
    ensures
        match labels_after(line@, start as int) {
            None => r is None,
            Some(la) => match r {
                Some(p) => p.1 == la.1 && start <= p.1 <= line@.len() && opt_vec_matches(
                    p.0,
                    device_of(la.0),
                ),
                None => false,
            },
        },
{
    let mut j: usize = start;
    let mut device: Option<Vec<u8>> = None;
    let ghost mut acc: Seq<(Seq<u8>, Seq<u8>)> = Seq::empty();
    loop
        invariant
            start <= j <= line@.len(),
            labels_acc_inv(line@, start as int, j as int, acc),
            opt_vec_matches(device, device_of(acc)),
        decreases line@.len() - j,
    {
        if j >= line.len() {
            return None;
        }
        if line[j] == 125 {
            proof {
                assert(labels_after(line@, j as int) == Some((
                    Seq::<(Seq<u8>, Seq<u8>)>::empty(),
                    j + 1,
                )));
                assert(acc + Seq::<(Seq<u8>, Seq<u8>)>::empty() =~= acc);
            }
            return Some((device, j + 1));
        }
        let ke = scan_label(line, j);
        if ke == j || !is_label_start_byte(line[j]) {
            return None;
        }
        if ke >= line.len() || line[ke] != 61 {
            return None;
        }
        if ke + 1 >= line.len() || line[ke + 1] != 34 {
            return None;
        }
        let q = scan_qstring(line, ke + 2);
        let (val, ve) = match q {
            Some(p) => p,
            None => {
                return None;
            },
        };
        let ghost pair = (line@.subrange(j as int, ke as int), quote_content(line@, ke + 2));
        let is_dev = range_is_device_key(line, j, ke);
        if ve < line.len() && line[ve] == 44 {
            proof {
                assert(labels_after(line@, j as int) == (match labels_after(line@, ve + 1) {
                    None => None::<(Seq<(Seq<u8>, Seq<u8>)>, int)>,
                    Some((rest, e)) => Some((seq![pair] + rest, e)),
                }));
                lemma_device_of_push(acc, pair);
                if labels_after(line@, ve + 1) is Some {
                    let (rest, e) = labels_after(line@, ve + 1)->Some_0;
                    assert(acc + (seq![pair] + rest) =~= acc.push(pair) + rest);
                }
                acc = acc.push(pair);
            }
            if device.is_none() && is_dev {
                device = Some(val);
            }
            j = ve + 1;
        } else if ve < line.len() && line[ve] == 125 {
            proof {
                assert(labels_after(line@, j as int) == Some((seq![pair], ve + 1)));
                assert(acc + seq![pair] =~= acc.push(pair));
                lemma_device_of_push(acc, pair);
            }
            let dev_out = if device.is_none() && is_dev {
                Some(val)
            } else {
                device
            };
            return Some((dev_out, ve + 1));
        } else {
            return None;
        }
    }
}

/// Parse one line of the body.
fn parse_line(line: &[u8]) -> (r: LineOut)
    ensures
        line_out_matches(r, line@),
{
    let i0 = scan_space(line, 0);
    if i0 == line.len() {
        return LineOut::Ignored;
    }
    if line[i0] == 35 {
        return LineOut::Ignored;
    }
    if !is_name_start_byte(line[i0]) {
        return LineOut::Malformed;
    }
    let ne = scan_name(line, i0);
    if ne < line.len() && line[ne] == 123 {
        match parse_labels(line, ne + 1) {
            None => LineOut::Malformed,
            Some((device, after)) => {
                let ghost labels = match labels_after(line@, ne + 1) {
                    Some((l, _)) => l,
                    None => Seq::empty(),
                };
                finish_sample(line, i0, ne, device, after, Ghost(labels))
            },
        }
    } else {
        finish_sample(line, i0, ne, None, ne, Ghost(Seq::empty()))
    }
}

/// Parse the value part and assemble the sample.  The labels were already
/// consumed; they ride along in ghost form so the result can be related to
/// the line's meaning.
fn finish_sample(
    line: &[u8],
    name_lo: usize,
    name_hi: usize,
    device: Option<Vec<u8>>,
    i: usize,
    Ghost(labels): Ghost<Seq<(Seq<u8>, Seq<u8>)>>,
) -> (r: LineOut)
    requires
        name_lo <= name_hi <= line@.len(),
        i <= line@.len(),
        opt_vec_matches(device, device_of(labels)),
    ensures
        match value_part(
            line@,
            i as int,
            line@.subrange(name_lo as int, name_hi as int),
            labels,
        ) {
            LineSpec::Malformed => r is Malformed,
            LineSpec::Sample(ss) => match r {
                LineOut::Sample(sr) => sr.name_lo <= sr.name_hi <= line@.len() && sr.val_lo
                    <= sr.val_hi <= line@.len() && line@.subrange(
                    sr.name_lo as int,
                    sr.name_hi as int,
                ) == ss.name && line@.subrange(sr.val_lo as int, sr.val_hi as int) == ss.value
                    && opt_vec_matches(sr.device, device_of(ss.labels)),
                _ => false,
            },
            LineSpec::Ignored => true,
        },
{
    let (v0, v1) = next_token(line, i);
    if v0 == i || v0 == line.len() {
        return LineOut::Malformed;
    }
    let (_t0, t1) = next_token(line, v1);
    let rest = scan_space(line, t1);
    if rest != line.len() {
        return LineOut::Malformed;
    }
    LineOut::Sample(SampleRef { name_lo, name_hi, device, val_lo: v0, val_hi: v1 })
}

/// Scan the whole body and keep the value token of the last matching
/// sample for each of the two wanted metrics.
fn select_values(body: &[u8], device: &[u8], tname: &[u8], hname: &[u8]) -> (r: Result<
    (Option<Vec<u8>>, Option<Vec<u8>>),
    FetchError,
>)
    ensures
        ({
            let lines = split_from(body@, 0);
            match r {
                Err(e) => e == FetchError::Parse && any_malformed(lines),
                Ok(p) => !any_malformed(lines) && opt_vec_matches(
                    p.0,
                    last_value(lines, device@, tname@),
                ) && opt_vec_matches(p.1, last_value(lines, device@, hname@)),
            }
        }),
{
    let ghost lines = split_from(body@, 0);
    let mut j: usize = 0;
    let ghost mut k: int = 0;
    let mut tval: Option<Vec<u8>> = None;
    let mut hval: Option<Vec<u8>> = None;
    loop
        invariant
            j <= body@.len(),
            0 <= k < lines.len(),
            lines == split_from(body@, 0),
            split_from(body@, j as int) =~= lines.skip(k),
            forall|q: int| 0 <= q < k ==> spec_parse_line(#[trigger] lines[q]) != LineSpec::Malformed,
            opt_vec_matches(tval, last_value(lines.take(k), device@, tname@)),
            opt_vec_matches(hval, last_value(lines.take(k), device@, hname@)),
        decreases body@.len() - j,
    {
        let e = scan_nl(body, j);
        let line = vstd::slice::slice_subrange(body, j, e);
        proof {
            if e < body@.len() {
                assert(split_from(body@, j as int) == seq![body@.subrange(j as int, e as int)]
                    + split_from(body@, e + 1));
            } else {
                assert(split_from(body@, j as int) == seq![body@.subrange(
                    j as int,
                    body@.len() as int,
                )]);
            }
            assert(lines.skip(k)[0] == lines[k]);
            assert(lines[k] == line@);
            assert(lines.take(k + 1) =~= lines.take(k).push(lines[k]));
            assert(lines.take(k + 1).drop_last() =~= lines.take(k));
        }
        match parse_line(line) {
            LineOut::Malformed => {
                proof {
                    assert(spec_parse_line(lines[k]) == LineSpec::Malformed);
                }
                return Err(FetchError::Parse);
            },
            LineOut::Ignored => {
                proof {
                    assert(!is_wanted(lines[k], device@, tname@));
                    assert(!is_wanted(lines[k], device@, hname@));
                }
            },
            LineOut::Sample(sr) => {
                let dev_ok = match &sr.device {
                    Some(d) => bytes_eq(d.as_slice(), device),
                    None => false,
                };
                if dev_ok {
                    let name = vstd::slice::slice_subrange(line, sr.name_lo, sr.name_hi);
                    if bytes_eq(name, tname) {
                        let v = vstd::slice::slice_subrange(line, sr.val_lo, sr.val_hi);
                        tval = Some(vstd::slice::slice_to_vec(v));
                        proof {
                            assert(is_wanted(lines[k], device@, tname@));
                        }
                    } else {
                        proof {
                            assert(!is_wanted(lines[k], device@, tname@));
                        }
                    }
                    let name2 = vstd::slice::slice_subrange(line, sr.name_lo, sr.name_hi);
                    if bytes_eq(name2, hname) {
                        let v = vstd::slice::slice_subrange(line, sr.val_lo, sr.val_hi);
                        hval = Some(vstd::slice::slice_to_vec(v));
                        proof {
                            assert(is_wanted(lines[k], device@, hname@));
                        }
                    } else {
                        proof {
                            assert(!is_wanted(lines[k], device@, hname@));
                        }
                    }
                } else {
                    proof {
                        assert(!is_wanted(lines[k], device@, tname@));
                        assert(!is_wanted(lines[k], device@, hname@));
                    }
                }
            },
        }
        proof {
            k = k + 1;
        }
        if e == body.len() {
            proof {
                assert(lines.skip(k - 1).len() == 1);
                assert(k == lines.len());
                assert(lines.take(k) =~= lines);
            }
            return Ok((tval, hval));
        }
        j = e + 1;
        proof {
            assert(lines.skip(k - 1).drop_first() =~= lines.skip(k));
        }
    }
}

/// Fetch the humidity sample out of a scraped body: filter the samples to
/// the paired device, take the last temperature gauge and the last
/// humidity-ratio gauge, read both as micro-unit decimals, and scale the
/// ratio to micro-percent.  Exactly `spec_extract`: a malformed body is
/// `Parse`, an absent sample is `MissingMetric`.
pub fn extract_sample(body: &[u8], device: &[u8], tname: &[u8], hname: &[u8]) -> (r: Result<
    HumiditySample,
    FetchError,
>)
    ensures
        r == spec_extract(body@, device@, tname@, hname@),
{
    let (tval, hval) = match select_values(body, device, tname, hname) {
        Ok(p) => p,
        Err(e) => {
            return Err(e);
        },
    };
    let tv = match tval {
        Some(v) => v,
        None => {
            return Err(FetchError::MissingMetric);
        },
    };
    let hv = match hval {
        Some(v) => v,
        None => {
            return Err(FetchError::MissingMetric);
        },
    };
    let t = match parse_decimal_micros(tv.as_slice()) {
        Some(x) => x,
        None => {
            return Err(FetchError::Parse);
        },
    };
    let h = match parse_decimal_micros(hv.as_slice()) {
        Some(x) => x,
        None => {
            return Err(FetchError::Parse);
        },
    };
    if -92233720368547758 <= h && h <= 92233720368547758 {
        Ok(HumiditySample { temperature_micro_celsius: t, humidity_micro_percent: h * 100 })
    } else {
        Err(FetchError::Parse)
    }
}

} // verus!
