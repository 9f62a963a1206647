use cpubar::cache::{load_bytes, store_bytes};
use cpubar::snapshot::Snapshot;

const SEC: i64 = 1_000_000_000;

#[test]
fn round_trip_reproduces_every_field() {
    let s = Snapshot {
        uptime_ns: 123_456_789_012,
        idle_ns: 98_765_432_100,
        core_idle_ns: vec![1, 2 * SEC, 0, i64::MAX],
    };
    let bytes = store_bytes(&s);
    assert_eq!(bytes.len(), 8 * (2 + 4));
    let loaded = load_bytes(&bytes).expect("a stored image must load");
    assert_eq!(loaded.uptime_ns, s.uptime_ns);
    assert_eq!(loaded.idle_ns, s.idle_ns);
    assert_eq!(loaded.core_idle_ns, s.core_idle_ns);
}

#[test]
fn round_trip_without_core_data() {
    let s = Snapshot { uptime_ns: 5 * SEC, idle_ns: SEC, core_idle_ns: vec![] };
    let bytes = store_bytes(&s);
    assert_eq!(bytes.len(), 16);
    let loaded = load_bytes(&bytes).expect("a stored image must load");
    assert_eq!(loaded.uptime_ns, 5 * SEC);
    assert_eq!(loaded.idle_ns, SEC);
    assert!(loaded.core_idle_ns.is_empty());
}

#[test]
fn truncated_image_is_no_previous_snapshot() {
    let s = Snapshot { uptime_ns: SEC, idle_ns: SEC / 2, core_idle_ns: vec![SEC] };
    let bytes = store_bytes(&s);
    // a length that is not a multiple of 8 is treated as absent
    assert!(load_bytes(&bytes[..23]).is_none());
    assert!(load_bytes(&bytes[..1]).is_none());
    // fewer than two whole words is treated as absent
    assert!(load_bytes(&bytes[..8]).is_none());
    assert!(load_bytes(&[]).is_none());
    // a prefix of whole words that still holds both aggregates loads
    assert!(load_bytes(&bytes[..16]).is_some());
}

#[test]
fn out_of_range_word_is_no_previous_snapshot() {
    // a word whose top bit is set exceeds the nanosecond range of a
    // 64-bit duration and marks the image invalid
    let mut bytes = vec![0u8; 16];
    bytes[7] = 0x80;
    assert!(load_bytes(&bytes).is_none());
    bytes[7] = 0x7f;
    assert!(load_bytes(&bytes).is_some());
}
