use sgp30_exporter::scrape::{extract_sample, FetchError, HumiditySample};
use sgp30_exporter::text::parse_decimal_micros;

const TEMP: &[u8] = b"ruuvi_temperature_celsius";
const HUM: &[u8] = b"ruuvi_humidity_ratio";

#[test]
fn selects_only_the_paired_device() {
    let body = b"# HELP ruuvi_temperature_celsius Temperature\n\
# TYPE ruuvi_temperature_celsius gauge\n\
ruuvi_temperature_celsius{device=\"aa:bb\",mac=\"x\"} 20.5\n\
ruuvi_temperature_celsius{device=\"cc:dd\"} 99.9\n\
ruuvi_humidity_ratio{device=\"aa:bb\"} 0.45\n\
ruuvi_humidity_ratio{device=\"cc:dd\"} 0.99\n";
    let s = extract_sample(body, b"aa:bb", TEMP, HUM).unwrap();
    assert_eq!(
        s,
        HumiditySample { temperature_micro_celsius: 20_500_000, humidity_micro_percent: 45_000_000 }
    );
}

#[test]
fn end_to_end_sample_values() {
    // The pair of gauge values the compensation formula is fed on a
    // typical tick: 22.5 degrees and a ratio of 0.45, i.e. 45 percent.
    let body = b"ruuvi_temperature_celsius{device=\"e9\"} 22.5\n\
ruuvi_humidity_ratio{device=\"e9\"} 0.45\n";
    let s = extract_sample(body, b"e9", TEMP, HUM).unwrap();
    assert_eq!(s.temperature_micro_celsius, 22_500_000);
    assert_eq!(s.humidity_micro_percent, 45_000_000);
}

#[test]
fn missing_humidity_is_missing_metric() {
    let body = b"ruuvi_temperature_celsius{device=\"aa\"} 20.5\n\
ruuvi_humidity_ratio{device=\"bb\"} 0.45\n";
    assert_eq!(extract_sample(body, b"aa", TEMP, HUM), Err(FetchError::MissingMetric));
}

#[test]
fn missing_temperature_is_missing_metric() {
    let body = b"ruuvi_humidity_ratio{device=\"aa\"} 0.45\n";
    assert_eq!(extract_sample(body, b"aa", TEMP, HUM), Err(FetchError::MissingMetric));
}

#[test]
fn empty_body_is_missing_metric() {
    assert_eq!(extract_sample(b"", b"aa", TEMP, HUM), Err(FetchError::MissingMetric));
}

#[test]
fn malformed_line_is_parse_error() {
    let body = b"ruuvi_temperature_celsius{device=\"aa\"} 20.5\n\
=what\n\
ruuvi_humidity_ratio{device=\"aa\"} 0.45\n";
    assert_eq!(extract_sample(body, b"aa", TEMP, HUM), Err(FetchError::Parse));
}

#[test]
fn unterminated_label_is_parse_error() {
    let body = b"ruuvi_temperature_celsius{device=\"aa 20.5\n";
    assert_eq!(extract_sample(body, b"aa", TEMP, HUM), Err(FetchError::Parse));
}

#[test]
fn value_that_is_not_a_number_is_parse_error() {
    let body = b"ruuvi_temperature_celsius{device=\"aa\"} NaN\n\
ruuvi_humidity_ratio{device=\"aa\"} 0.45\n";
    assert_eq!(extract_sample(body, b"aa", TEMP, HUM), Err(FetchError::Parse));
}

#[test]
fn last_sample_wins() {
    let body = b"ruuvi_temperature_celsius{device=\"aa\"} 1.0\n\
ruuvi_temperature_celsius{device=\"aa\"} 2.0\n\
ruuvi_humidity_ratio{device=\"aa\"} 0.5\n";
    let s = extract_sample(body, b"aa", TEMP, HUM).unwrap();
    assert_eq!(s.temperature_micro_celsius, 2_000_000);
}

#[test]
fn timestamps_and_comments_are_tolerated() {
    let body = b"# a comment\n\
\n\
ruuvi_temperature_celsius{device=\"aa\"} -1.25 1700000000\n\
ruuvi_humidity_ratio{device=\"aa\"} 1 1700000000\n";
    let s = extract_sample(body, b"aa", TEMP, HUM).unwrap();
    assert_eq!(s.temperature_micro_celsius, -1_250_000);
    assert_eq!(s.humidity_micro_percent, 100_000_000);
}

#[test]
fn sample_without_labels_is_well_formed_but_unmatched() {
    let body = b"something_else 5\n\
ruuvi_temperature_celsius{device=\"aa\"} 3\n\
ruuvi_humidity_ratio{device=\"aa\"} 0\n";
    let s = extract_sample(body, b"aa", TEMP, HUM).unwrap();
    assert_eq!(s.temperature_micro_celsius, 3_000_000);
    assert_eq!(s.humidity_micro_percent, 0);
}

#[test]
fn escaped_label_values_are_read() {
    let body = b"ruuvi_temperature_celsius{device=\"a\\\"b\"} 4\n\
ruuvi_humidity_ratio{device=\"a\\\"b\"} 0.5\n";
    let s = extract_sample(body, b"a\"b", TEMP, HUM).unwrap();
    assert_eq!(s.temperature_micro_celsius, 4_000_000);
}

#[test]
fn decimal_micro_units() {
    assert_eq!(parse_decimal_micros(b"0"), Some(0));
    assert_eq!(parse_decimal_micros(b"22.5"), Some(22_500_000));
    assert_eq!(parse_decimal_micros(b"-0.5"), Some(-500_000));
    assert_eq!(parse_decimal_micros(b"+3"), Some(3_000_000));
    assert_eq!(parse_decimal_micros(b"1.2345678"), Some(1_234_567));
    assert_eq!(parse_decimal_micros(b".5"), Some(500_000));
    assert_eq!(parse_decimal_micros(b"2."), Some(2_000_000));
    assert_eq!(parse_decimal_micros(b""), None);
    assert_eq!(parse_decimal_micros(b"."), None);
    assert_eq!(parse_decimal_micros(b"-"), None);
    assert_eq!(parse_decimal_micros(b"1e5"), None);
    assert_eq!(parse_decimal_micros(b"NaN"), None);
    assert_eq!(parse_decimal_micros(b"99999999999999999999"), None);
    assert_eq!(parse_decimal_micros(b"9223372036854.775807"), Some(i64::MAX));
    assert_eq!(parse_decimal_micros(b"9223372036854.775808"), None);
}
