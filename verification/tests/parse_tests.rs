use cpubar::parse::{parse_core_line, parse_dec, parse_stat_lines, parse_uptime_line, read_counters};

fn lines(text: &[&str]) -> Vec<Vec<u8>> {
    text.iter().map(|l| l.as_bytes().to_vec()).collect()
}

#[test]
fn decimal_seconds_to_nanoseconds() {
    assert_eq!(parse_dec(b"0"), Some(0));
    assert_eq!(parse_dec(b"1"), Some(1_000_000_000));
    assert_eq!(parse_dec(b"3601.57"), Some(3_601_570_000_000));
    assert_eq!(parse_dec(b"0.000000001"), Some(1));
    assert_eq!(parse_dec(b"12."), Some(12_000_000_000));
    assert_eq!(parse_dec(b"007.5"), Some(7_500_000_000));
}

#[test]
fn decimal_digits_below_a_nanosecond_are_dropped() {
    assert_eq!(parse_dec(b"1.2345678901"), Some(1_234_567_890));
    assert_eq!(parse_dec(b"0.9999999999"), Some(999_999_999));
}

#[test]
fn malformed_decimals_are_refused() {
    assert_eq!(parse_dec(b""), None);
    assert_eq!(parse_dec(b".5"), None);
    assert_eq!(parse_dec(b"1.2.3"), None);
    assert_eq!(parse_dec(b"12a"), None);
    assert_eq!(parse_dec(b"-1"), None);
    assert_eq!(parse_dec(b"1. 5"), None);
}

#[test]
fn decimal_beyond_duration_range_is_refused() {
    // more nanoseconds than a signed 64-bit count can hold
    assert_eq!(parse_dec(b"99999999999999999999"), None);
    assert_eq!(parse_dec(b"9223372037"), None);
    assert_eq!(parse_dec(b"9223372036.854775807"), Some(i64::MAX));
    assert_eq!(parse_dec(b"9223372036.854775808"), None);
}

#[test]
fn uptime_line_divides_idle_over_cores() {
    let r = parse_uptime_line(b"100.00 50.00", 2).unwrap();
    assert_eq!(r.0, 100_000_000_000);
    assert_eq!(r.1, 25_000_000_000);
    // trailing fields are ignored
    let r = parse_uptime_line(b"  7.5   3.0   junk", 1).unwrap();
    assert_eq!(r.0, 7_500_000_000);
    assert_eq!(r.1, 3_000_000_000);
}

#[test]
fn uptime_line_with_missing_or_bad_field_is_fatal() {
    assert!(parse_uptime_line(b"", 1).is_none());
    assert!(parse_uptime_line(b"100.00", 1).is_none());
    assert!(parse_uptime_line(b"100.00 abc", 1).is_none());
    assert!(parse_uptime_line(b"x 50.00", 1).is_none());
}

#[test]
fn core_line_takes_fifth_column_in_ticks() {
    // idle is the 5th whitespace-separated column, in clock ticks
    let r = parse_core_line(b"cpu0 10 20 30 400 50 0 0 0 0 0", 100).unwrap();
    assert_eq!(r, 4_000_000_000);
    assert!(parse_core_line(b"cpu0 10 20 30", 100).is_none());
    assert!(parse_core_line(b"cpu0 10 20 30 4x0 50", 100).is_none());
}

#[test]
fn stat_scan_skips_summary_and_stops_at_intr() {
    let text = lines(&[
        "cpu  11 22 33 44 55 66",
        "cpu0 10 0 0 100 0 0",
        "cpu1 10 0 0 250 0 0",
        "intr 123 456 789",
        "ctxt 99",
    ]);
    let r = parse_stat_lines(&text, 100).unwrap();
    assert_eq!(r, vec![1_000_000_000, 2_500_000_000]);
}

#[test]
fn stat_scan_with_bad_core_line_is_fatal() {
    let text = lines(&["cpu  1 2 3 4 5", "cpu0 10 0 0 bad 0", "intr 1"]);
    assert!(parse_stat_lines(&text, 100).is_none());
}

#[test]
fn read_counters_aggregate_only() {
    let stat: Vec<Vec<u8>> = Vec::new();
    let s = read_counters(b"100.00 50.00", &stat, false, 2, 100).unwrap();
    assert_eq!(s.uptime_ns, 100_000_000_000);
    assert_eq!(s.idle_ns, 25_000_000_000);
    assert!(s.core_idle_ns.is_empty());
}

#[test]
fn read_counters_with_per_core_data() {
    let stat = lines(&["cpu  1 2 3 4 5", "cpu0 10 0 0 300 0", "intr 1"]);
    let s = read_counters(b"10.00 4.00", &stat, true, 1, 100).unwrap();
    assert_eq!(s.uptime_ns, 10_000_000_000);
    assert_eq!(s.idle_ns, 4_000_000_000);
    assert_eq!(s.core_idle_ns, vec![3_000_000_000]);
}

#[test]
fn read_counters_bad_uptime_is_fatal() {
    let stat: Vec<Vec<u8>> = Vec::new();
    assert!(read_counters(b"oops 1.0", &stat, false, 1, 100).is_none());
}
