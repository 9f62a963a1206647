use cpubar::parse::read_counters;
use cpubar::snapshot::{delta, Snapshot};
use cpubar::step;

const SEC: i64 = 1_000_000_000;

fn lines(text: &[&str]) -> Vec<Vec<u8>> {
    text.iter().map(|l| l.as_bytes().to_vec()).collect()
}

#[test]
fn delta_subtracts_every_field() {
    let a = Snapshot {
        uptime_ns: 10 * SEC,
        idle_ns: 6 * SEC,
        core_idle_ns: vec![5 * SEC, 7 * SEC, 9 * SEC],
    };
    let b = Snapshot {
        uptime_ns: 4 * SEC,
        idle_ns: 5 * SEC,
        core_idle_ns: vec![2 * SEC, 8 * SEC],
    };
    let d = delta(&a, &b);
    assert_eq!(d.uptime_ns, 6 * SEC);
    assert_eq!(d.idle_ns, SEC);
    // overlapping prefix only; a negative difference propagates
    assert_eq!(d.core_idle_ns, vec![3 * SEC, -SEC]);
}

#[test]
fn first_and_second_invocation_aggregate_only() {
    // first run: no cache present, so nothing is printed and the cache
    // image holds the two aggregate words
    let stat: Vec<Vec<u8>> = Vec::new();
    let first = read_counters(b"1000.00 200.00", &stat, false, 1, 100).unwrap();
    let (image, output) = step(&first, None);
    assert!(output.is_none());
    assert_eq!(image.len(), 8 * 2);

    // one second later: uptime advanced by 1.0 s, idle by 0.5 s
    let second = read_counters(b"1001.00 200.50", &stat, false, 1, 100).unwrap();
    let (image2, output) = step(&second, Some(image.as_slice()));
    assert_eq!(output.unwrap(), "CPU: 50.00%");
    assert_eq!(image2.len(), 8 * 2);
}

#[test]
fn first_and_second_invocation_with_one_core() {
    let stat1 = lines(&["cpu  9 9 9 9 9", "cpu0 1 2 3 20000 4", "intr 7"]);
    let first = read_counters(b"1000.00 200.00", &stat1, true, 1, 100).unwrap();
    let (image, output) = step(&first, None);
    assert!(output.is_none());
    assert_eq!(image.len(), 8 * (2 + 1));

    let stat2 = lines(&["cpu  9 9 9 9 9", "cpu0 1 2 3 20050 4", "intr 7"]);
    let second = read_counters(b"1001.00 200.50", &stat2, true, 1, 100).unwrap();
    let (_, output) = step(&second, Some(image.as_slice()));
    // the one core idled half the interval: the middle glyph
    assert_eq!(output.unwrap(), "CPU: 50.00% \u{2584}");
}

#[test]
fn invalid_cache_image_counts_as_no_previous_snapshot() {
    let stat: Vec<Vec<u8>> = Vec::new();
    let s = read_counters(b"10.00 5.00", &stat, false, 1, 100).unwrap();
    let bad = vec![1u8, 2, 3];
    let (image, output) = step(&s, Some(bad.as_slice()));
    assert!(output.is_none());
    assert_eq!(image.len(), 16);
}
