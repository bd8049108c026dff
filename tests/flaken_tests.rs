use flaken::clock::{duration_millis, elapsed_millis, millis_of, wall_clock_millis};
use flaken::codec::{bitmask, pack_word, unpack_word};
use flaken::generator::DEFAULT_EPOCH;
use flaken::Flaken;
use std::time::{Duration, Instant, SystemTime, UNIX_EPOCH};

fn now_millis() -> u64 {
    SystemTime::now().duration_since(UNIX_EPOCH).unwrap().as_millis() as u64
}

fn wait_millis(ms: u64) {
    let start = Instant::now();
    while start.elapsed() < Duration::from_millis(ms) {}
}

#[test]
fn test_bitmask() {
    assert_eq!(bitmask(4), 0xFFFFFFFFFFFFFFF0);
    assert_eq!(bitmask(7), 0xFFFFFFFFFFFFFF80);
}

#[test]
fn test_encode_decode() {
    let flake = Flaken::default();
    let vals = (13 + flake.start_ts(), 24, 81);
    let id = flake.encode(vals.0, vals.1, vals.2);
    assert_eq!(flake.decode(id), vals);
}

#[test]
fn test_next() {
    let new_epoch = now_millis();
    let mut flake = Flaken::default().epoch(new_epoch);
    let id0 = flake.next();
    let id1 = flake.next();
    let (ts0, id0, seq0) = flake.decode(id0);
    let (ts1, id1, seq1) = flake.decode(id1);
    assert!((ts0 - new_epoch) < 1);
    assert_eq!(id0, 0);
    assert_eq!(seq0, 0);
    assert!((ts1 - new_epoch) < 1);
    assert_eq!(id1, 0);
    assert_eq!(seq1, 1);
    let mut flake1 = flake.node(100);
    let id2 = flake1.next();
    let (ts2, id2, seq2) = flake1.decode(id2);
    assert!((ts2 - new_epoch) < 1);
    assert_eq!(id2, 100);
    assert_eq!(seq2, 2);
    wait_millis(10);
    let id3 = flake1.next();
    let (ts3, id3, seq3) = flake1.decode(id3);
    assert!((ts3 - new_epoch) >= 10);
    assert_eq!(id3, 100);
    assert_eq!(seq3, 0);
}

#[test]
fn bitmask_edges() {
    assert_eq!(bitmask(0), u64::MAX);
    assert_eq!(bitmask(63), 0x8000000000000000);
    assert_eq!(bitmask(64), 0);
    assert_eq!(bitmask(200), 0);
}

#[test]
fn default_layout() {
    let flake = Flaken::default();
    let id = flake.encode(DEFAULT_EPOCH + 5, 3, 7);
    assert_eq!(id, (5 << 22) | (3 << 12) | 7);
    assert_eq!(flake.decode(id), (DEFAULT_EPOCH + 5, 3, 7));
    assert_eq!(DEFAULT_EPOCH, 1356998400000);
}

#[test]
fn default_anchor_is_wall_clock() {
    let before = now_millis();
    let flake = Flaken::default();
    let after = now_millis();
    assert!(before <= flake.start_ts() && flake.start_ts() <= after);
}

#[test]
fn round_trip_custom_widths() {
    let flake = Flaken::default().node(1).epoch(0).bitwidths(40, 10);
    let id = flake.encode(1_000_000_000, 1023, (1 << 14) - 1);
    assert_eq!(id, (1_000_000_000u64 << 24) | (1023 << 14) | ((1 << 14) - 1));
    assert_eq!(flake.decode(id), (1_000_000_000, 1023, (1 << 14) - 1));
}

#[test]
fn wide_values_are_truncated() {
    let flake = Flaken::default().epoch(0);
    let id = flake.encode(1 << 42 | 9, 1024 + 5, 4096 + 6);
    assert_eq!(flake.decode(id), (9, 5, 6));
}

#[test]
fn all_sequence_bits() {
    let flake = Flaken::default().epoch(100).bitwidths(0, 0);
    let id = flake.encode(12345, 77, u64::MAX);
    assert_eq!(id, u64::MAX);
    assert_eq!(flake.decode(id), (100, 0, u64::MAX));
}

#[test]
fn one_sequence_bit() {
    let flake = Flaken::default().epoch(0).bitwidths(63, 0);
    let id = flake.encode(5, 1, 3);
    assert_eq!(id, (5 << 1) | 1);
    assert_eq!(flake.decode(id), (5, 0, 1));
    let flake = Flaken::default().epoch(0).bitwidths(0, 63);
    let id = flake.encode(5, 6, 1);
    assert_eq!(id, (6 << 1) | 1);
    assert_eq!(flake.decode(id), (0, 6, 1));
}

#[test]
fn decode_wraps_past_u64_max() {
    let flake = Flaken::default().epoch(u64::MAX);
    assert_eq!(flake.decode(3 << 22), (2, 0, 0));
}

#[test]
fn same_window_counts_up() {
    let mut flake = Flaken::default();
    let start = flake.start_ts();
    flake = flake.epoch(start);
    let a = flake.next_with_elapsed(0);
    let b = flake.next_with_elapsed(0);
    assert_eq!(flake.decode(a), (start, 0, 0));
    assert_eq!(flake.decode(b), (start, 0, 1));
    assert!(a < b);
}

#[test]
fn new_window_resets_sequence() {
    let mut flake = Flaken::default().epoch(DEFAULT_EPOCH);
    let start = flake.start_ts();
    flake.next_with_elapsed(3);
    flake.next_with_elapsed(3);
    let a = flake.next_with_elapsed(3);
    let b = flake.next_with_elapsed(13);
    assert_eq!(flake.decode(a), (start + 3, 0, 2));
    assert_eq!(flake.decode(b), (start + 13, 0, 0));
    assert!(a < b);
}

#[test]
fn node_change_keeps_sequence() {
    let mut flake = Flaken::default();
    let start = flake.start_ts();
    flake = flake.epoch(start);
    let a = flake.next_with_elapsed(0);
    let mut flake = flake.node(100);
    let b = flake.next_with_elapsed(0);
    let c = flake.next_with_elapsed(1);
    assert_eq!(flake.decode(a), (start, 0, 0));
    assert_eq!(flake.decode(b), (start, 100, 1));
    assert_eq!(flake.decode(c), (start + 1, 100, 0));
}

#[test]
fn sequence_wraps_within_one_window() {
    let mut flake = Flaken::default().epoch(0).bitwidths(62, 0);
    let start = flake.start_ts();
    let ids: Vec<u64> = (0..5).map(|_| flake.next_with_elapsed(0)).collect();
    let seqs: Vec<u64> = ids.iter().map(|&id| flake.decode(id).2).collect();
    assert_eq!(seqs, vec![0, 1, 2, 3, 0]);
    assert_eq!(flake.decode(ids[4]).0, start);
    assert!(ids[4] < ids[3]);
}

#[test]
fn pack_and_unpack_words() {
    assert_eq!(pack_word(3, 2, 1, 42, 10, 12), (3 << 22) | (2 << 12) | 1);
    assert_eq!(unpack_word((3 << 22) | (2 << 12) | 1, 10, 12), (3, 2, 1));
    assert_eq!(unpack_word(u64::MAX, 0, 64), (0, 0, u64::MAX));
}

#[test]
fn millis_conversion() {
    assert_eq!(millis_of(2, 345_678_901), 2345);
    assert_eq!(millis_of(0, 999_999_999), 999);
    assert_eq!(millis_of(u64::MAX / 1000, 500_000_000), u64::MAX / 1000 * 1000 + 500);
    assert_eq!(millis_of(u64::MAX / 1000, 999_999_999), u64::MAX);
    assert_eq!(millis_of(u64::MAX, 0), u64::MAX);
    assert_eq!(duration_millis(&Duration::new(2, 345_678_901)), 2345);
    assert_eq!(duration_millis(&Duration::from_millis(7)), 7);
}

#[test]
fn clock_readings() {
    assert!(wall_clock_millis() > DEFAULT_EPOCH);
    let anchor = Instant::now();
    wait_millis(3);
    assert!(elapsed_millis(&anchor) >= 3);
}
