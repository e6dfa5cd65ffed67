use sgp30_exporter::baseline::{encode_baseline, parse_baseline, CalibrationBaseline};

#[test]
fn round_trip_concrete() {
    let b = CalibrationBaseline { co2eq_baseline: 36832, tvoc_baseline: 39121 };
    let bytes = encode_baseline(&b);
    assert_eq!(bytes, b"36832 39121\n".to_vec());
    assert_eq!(parse_baseline(&bytes), Some(b));
}

#[test]
fn round_trip_zero() {
    let b = CalibrationBaseline { co2eq_baseline: 0, tvoc_baseline: 0 };
    let bytes = encode_baseline(&b);
    assert_eq!(bytes, b"0 0\n".to_vec());
    assert_eq!(parse_baseline(&bytes), Some(b));
}

#[test]
fn round_trip_extremes() {
    let b = CalibrationBaseline { co2eq_baseline: 65535, tvoc_baseline: 1 };
    assert_eq!(parse_baseline(&encode_baseline(&b)), Some(b));
    let c = CalibrationBaseline { co2eq_baseline: 1, tvoc_baseline: 65535 };
    assert_eq!(parse_baseline(&encode_baseline(&c)), Some(c));
}

#[test]
fn empty_content_is_no_baseline() {
    assert_eq!(parse_baseline(b""), None);
    assert_eq!(parse_baseline(b"   \n"), None);
}

#[test]
fn non_numeric_content_is_no_baseline() {
    assert_eq!(parse_baseline(b"abc def\n"), None);
    assert_eq!(parse_baseline(b"12 abc\n"), None);
    assert_eq!(parse_baseline(b"abc 12\n"), None);
    assert_eq!(parse_baseline(b"-1 2\n"), None);
    assert_eq!(parse_baseline(b"1.5 2\n"), None);
}

#[test]
fn out_of_range_is_no_baseline() {
    assert_eq!(parse_baseline(b"65536 1\n"), None);
    assert_eq!(parse_baseline(b"1 99999999999999999999\n"), None);
}

#[test]
fn one_token_is_no_baseline() {
    assert_eq!(parse_baseline(b"400\n"), None);
}

#[test]
fn extra_tokens_are_ignored() {
    assert_eq!(
        parse_baseline(b"1 2 3\n"),
        Some(CalibrationBaseline { co2eq_baseline: 1, tvoc_baseline: 2 })
    );
}

#[test]
fn leading_whitespace_is_fine() {
    assert_eq!(
        parse_baseline(b"\n\t 7   9"),
        Some(CalibrationBaseline { co2eq_baseline: 7, tvoc_baseline: 9 })
    );
}
