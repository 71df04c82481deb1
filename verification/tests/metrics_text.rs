use rdpio::metrics::{percentile, Metrics, MetricsReport};
use rdpio::text::{encode_utf16, push_units_le, read_units_until_nul};

#[test]
fn percentile_of_empty_is_zero() {
    assert_eq!(percentile(&[], 500), 0);
}

#[test]
fn percentile_picks_rounded_down_index() {
    let s: Vec<u64> = (1..=100).collect();
    // (100 - 1) * 500 / 1000 = 49 -> the 50th sample.
    assert_eq!(percentile(&s, 500), 50);
    // (100 - 1) * 990 / 1000 = 98 -> the 99th sample.
    assert_eq!(percentile(&s, 990), 99);
    assert_eq!(percentile(&s, 1000), 100);
    assert_eq!(percentile(&s, 0), 1);
}

#[test]
fn percentile_is_monotone_on_sorted_samples() {
    let s = [3u64, 3, 8, 10, 42, 99];
    let mut last = 0;
    for p in [0u64, 100, 250, 500, 750, 990, 999, 1000] {
        let v = percentile(&s, p);
        assert!(v >= last);
        last = v;
    }
}

#[test]
fn report_sorts_samples_and_resets() {
    let mut m = Metrics::new();
    m.record_decode_us(30);
    m.record_decode_us(10);
    m.record_decode_us(20);
    m.record_present_us(5);
    m.record_rtt_us(100);
    m.record_rtt_us(50);
    m.record_blit(4096);
    m.add_network_bytes(1000, 200);
    let r: MetricsReport = m.report_and_reset(3, 4096);
    assert_eq!(r.decode_p50, 20);
    assert_eq!(r.decode_p99, 20);
    assert_eq!(r.decode_p999, 20);
    assert_eq!(r.present_p50, 5);
    assert_eq!(r.rtt_p50, 50);
    assert_eq!(r.frames_decoded, 3);
    assert_eq!(r.frames_presented, 1);
    assert_eq!(r.blits_submitted, 1);
    assert_eq!(r.allocations, 3);
    assert_eq!(r.bytes_allocated, 4096);
    assert_eq!(r.network_rx_bytes, 1000);
    assert_eq!(r.network_tx_bytes, 200);
    assert!(r.has_data());

    let empty = m.report_and_reset(0, 0);
    assert_eq!(empty.frames_decoded, 0);
    assert_eq!(empty.decode_p50, 0);
    assert!(!empty.has_data());
}

#[test]
fn network_counters_wrap() {
    let mut m = Metrics::new();
    m.add_network_bytes(u64::MAX, 0);
    m.add_network_bytes(2, 0);
    let r = m.report_and_reset(0, 0);
    assert_eq!(r.network_rx_bytes, 1);
}

#[test]
fn encode_utf16_matches_std() {
    for s in ["", "abc", "hello™", "a😀b"] {
        let expect: Vec<u16> = s.encode_utf16().collect();
        assert_eq!(encode_utf16(s), expect);
    }
}

#[test]
fn push_units_writes_little_endian() {
    let mut out = vec![9u8];
    push_units_le(&mut out, &[0x1234, 0x00ff]);
    assert_eq!(out, vec![9, 0x34, 0x12, 0xff, 0x00]);
}

#[test]
fn read_units_stops_at_nul_and_ignores_odd_byte() {
    assert_eq!(read_units_until_nul(&[0x41, 0, 0x42, 0, 0, 0, 0x43, 0]), vec![0x41, 0x42]);
    assert_eq!(read_units_until_nul(&[0x41, 0, 0x42]), vec![0x41]);
    assert_eq!(read_units_until_nul(&[]), Vec::<u16>::new());
}

#[test]
fn has_data_counts_frames_only() {
    let mut m = Metrics::new();
    m.add_network_bytes(10, 10);
    let r = m.report_and_reset(1, 64);
    assert!(!r.has_data());
    m.record_present_us(7);
    assert!(m.report_and_reset(0, 0).has_data());
}
