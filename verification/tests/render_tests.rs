use cpubar::render::{dec_string, level_of, percent_of, render};
use cpubar::snapshot::Snapshot;

const SEC: i64 = 1_000_000_000;

#[test]
fn percent_fully_idle_is_zero() {
    // uptime == idle (both clamped) renders as 0.00%
    assert_eq!(percent_of(2 * SEC, 2 * SEC), 0);
    let s = Snapshot { uptime_ns: 2 * SEC, idle_ns: 2 * SEC, core_idle_ns: vec![] };
    assert_eq!(render(&s), "CPU: 0.00%");
}

#[test]
fn percent_fully_busy_is_hundred() {
    // idle == 0 with positive uptime renders as 100.00%
    assert_eq!(percent_of(2 * SEC, 0), 10000);
    let s = Snapshot { uptime_ns: 2 * SEC, idle_ns: 0, core_idle_ns: vec![] };
    assert_eq!(render(&s), "CPU: 100.00%");
}

#[test]
fn degenerate_interval_renders_zero_and_idle_glyphs() {
    // uptime == 0: percentage is 0.00% and every core glyph is the blank
    assert_eq!(percent_of(0, 123), 0);
    assert_eq!(level_of(0, 0), 8);
    assert_eq!(level_of(0, 55), 8);
    let s = Snapshot { uptime_ns: 0, idle_ns: 0, core_idle_ns: vec![0, 7] };
    assert_eq!(render(&s), "CPU: 0.00% \u{20}\u{20}");
}

#[test]
fn percent_half_busy() {
    assert_eq!(percent_of(2 * SEC, SEC), 5000);
    let s = Snapshot { uptime_ns: 2 * SEC, idle_ns: SEC, core_idle_ns: vec![] };
    assert_eq!(render(&s), "CPU: 50.00%");
}

#[test]
fn percent_rounds_half_away_from_zero() {
    // active fraction 1/8000 of a percent step: 0.125 hundredths rounds down,
    // exactly half a hundredth rounds up
    assert_eq!(percent_of(20000, 20000 - 1), 1); // 0.5 hundredths exactly -> 1
    assert_eq!(percent_of(40000, 40000 - 1), 0); // 0.25 hundredths -> 0
    assert_eq!(percent_of(40000, 40000 - 3), 1); // 0.75 hundredths -> 1
}

#[test]
fn negative_idle_clamps_to_fully_busy() {
    // a delta taken across a reboot can hold a negative idle time
    assert_eq!(percent_of(2 * SEC, -SEC), 10000);
}

#[test]
fn idle_above_uptime_clamps_to_zero_percent() {
    assert_eq!(percent_of(SEC, 5 * SEC), 0);
}

#[test]
fn glyph_endpoints() {
    // fraction 0.0 maps to the busiest glyph, 1.0 to the idlest
    assert_eq!(level_of(SEC, 0), 0);
    assert_eq!(level_of(SEC, SEC), 8);
}

#[test]
fn glyph_midpoints_round_away_from_zero() {
    // fractions (2k + 1) / 16 sit exactly between levels k and k + 1 and
    // must round up
    let u: i64 = 16 * SEC;
    for k in 0..8i64 {
        let c = (2 * k + 1) * SEC;
        assert_eq!(level_of(u, c), (k + 1) as u64);
    }
}

#[test]
fn glyph_row_renders_per_core() {
    let u: i64 = 2 * SEC;
    let s = Snapshot {
        uptime_ns: u,
        idle_ns: SEC,
        core_idle_ns: vec![0, SEC, 2 * SEC],
    };
    // core fractions 0, 0.5, 1.0: full block, half block, blank
    assert_eq!(render(&s), "CPU: 50.00% \u{2588}\u{2584}\u{20}");
}

#[test]
fn no_glyph_section_without_core_data() {
    let s = Snapshot { uptime_ns: 4 * SEC, idle_ns: 3 * SEC, core_idle_ns: vec![] };
    assert_eq!(render(&s), "CPU: 25.00%");
}

#[test]
fn decimal_strings() {
    assert_eq!(dec_string(0), "0");
    assert_eq!(dec_string(7), "7");
    assert_eq!(dec_string(10), "10");
    assert_eq!(dec_string(10000), "10000");
    assert_eq!(dec_string(90210), "90210");
}
