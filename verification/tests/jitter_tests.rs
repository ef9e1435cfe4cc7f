use remote_mic::jitter::{
    adjust_targets, compute_reorder_delay, frame_duration_ns, is_late, BufFrame, LossTracker,
    ReorderBuffer, StreamClock,
};

#[test]
fn reorder_delay_formula() {
    assert_eq!(compute_reorder_delay(0), 5_000_000);
    assert_eq!(compute_reorder_delay(20_000_000), 40_000_000);
    assert_eq!(compute_reorder_delay(10_000_000), 25_000_000);
    assert_eq!(compute_reorder_delay(2_000_000), 5_000_000);
    assert_eq!(compute_reorder_delay(2_000_001), 5_000_002);
    assert_eq!(compute_reorder_delay(16_000_000), 40_000_000);
    assert_eq!(compute_reorder_delay(u64::MAX), 40_000_000);
}

#[test]
fn adaptive_target_formula() {
    assert_eq!(adjust_targets(0), (15_000_000, 30_000_000));
    assert_eq!(adjust_targets(10_000_000), (40_000_000, 80_000_000));
    assert_eq!(adjust_targets(50_000_000), (40_000_000, 80_000_000));
    assert_eq!(adjust_targets(4_000_000), (25_000_000, 50_000_000));
    assert_eq!(adjust_targets(1), (15_000_002, 30_000_004));
    assert_eq!(adjust_targets(u64::MAX), (40_000_000, 80_000_000));
}

#[test]
fn late_drop_policy() {
    assert!(is_late(975_000_000, 1_000_000_000, 10_000_000));
    assert!(!is_late(985_000_000, 1_000_000_000, 10_000_000));
    assert!(!is_late(980_000_000, 1_000_000_000, 10_000_000));
    assert!(is_late(979_999_999, 1_000_000_000, 10_000_000));
    assert!(!is_late(0, 0, 10_000_000));
    assert!(!is_late(u64::MAX, u64::MAX, u64::MAX));
}

#[test]
fn loss_accounting() {
    let mut t = LossTracker::new();
    for seq in [0u32, 1, 3, 4] {
        t.note_sequence(seq);
    }
    assert_eq!(t.lost, 1);
    assert_eq!(t.expected_seq, 5);
    t.note_sequence(2);
    assert_eq!(t.lost, 1);
    assert_eq!(t.expected_seq, 5);
    assert_eq!(t.received, 5);
}

#[test]
fn first_sequence_sets_the_expectation() {
    let mut t = LossTracker::new();
    t.note_sequence(100);
    assert_eq!((t.expected_seq, t.lost, t.received), (101, 0, 1));
    t.note_sequence(110);
    assert_eq!((t.expected_seq, t.lost, t.received), (111, 9, 2));
    t.note_sequence(u32::MAX);
    assert_eq!(t.expected_seq, 1u64 << 32);
}

#[test]
fn clock_tracks_delay_and_jitter() {
    let mut c = StreamClock::new();
    assert_eq!(c.observe(1_000, 50_000), 0);
    assert_eq!(c.jitter_ewma_ns, 0);
    assert_eq!(c.observe(11_000, 62_000), 2_000);
    assert_eq!(c.jitter_ewma_ns, 2_000);
    assert_eq!(c.observe(21_000, 70_000), 0);
    assert_eq!(c.jitter_ewma_ns, 2_000);
    assert_eq!(c.observe(31_000, 98_000), 18_000);
    assert_eq!(c.jitter_ewma_ns, 2_000 + (18_000 - 2_000) / 16);
}

#[test]
fn negative_delay_pulls_the_offset() {
    let mut c = StreamClock::new();
    c.observe(0, 0);
    assert_eq!(c.observe(8_000, 0), 0);
    assert_eq!(c.lag_ns, 1_000);
    assert_eq!(c.prev_transit, Some(-7_000));
    assert_eq!(c.observe(8_000, 8_000), 1_000);
}

#[test]
fn frame_duration() {
    assert_eq!(frame_duration_ns(480, 48_000), 10_000_000);
    assert_eq!(frame_duration_ns(1, 3), 333_333_333);
    assert_eq!(frame_duration_ns(100, 0), 0);
    assert_eq!(frame_duration_ns(u32::MAX, 1), 4_294_967_295_000_000_000);
}

fn frame(ts: u64, dur: u64, tag: u32) -> BufFrame<u32> {
    BufFrame { ts_ns: ts, dur_ns: dur, data: tag }
}

#[test]
fn buffer_releases_in_timestamp_order() {
    let mut b: ReorderBuffer<u32> = ReorderBuffer::new();
    b.push(frame(30, 10, 3));
    b.push(frame(10, 10, 1));
    b.push(frame(20, 10, 2));
    b.push(frame(20, 10, 22));
    assert_eq!(b.len(), 4);
    assert_eq!(b.buffered_ns(), 40);
    let out = b.release(5, 30, 20, 1_000);
    let tags: Vec<u32> = out.iter().map(|f| f.data).collect();
    assert_eq!(tags, vec![1, 2]);
    assert_eq!(b.len(), 2);
    assert_eq!(b.buffered_ns(), 20);
    let rest: Vec<u32> = b.drain().iter().map(|f| f.data).collect();
    assert_eq!(rest, vec![22, 3]);
}

#[test]
fn release_waits_for_delay_target_and_depth() {
    let mut b: ReorderBuffer<u32> = ReorderBuffer::new();
    for i in 0..3u64 {
        b.push(frame(i * 10, 10, i as u32));
    }
    assert_eq!(b.release(25, 20, 0, 1_000).len(), 0);
    assert_eq!(b.release(0, 20, 31, 1_000).len(), 0);
    assert_eq!(b.release(0, 20, 30, 1_000).len(), 1);
    assert_eq!(b.release(0, 20, 0, 1_000).len(), 0);
}

#[test]
fn overflow_releases_regardless_of_delay() {
    let mut b: ReorderBuffer<u32> = ReorderBuffer::new();
    for i in 0..3u64 {
        b.push(frame(100 + i, 50, i as u32));
    }
    let out = b.release(1_000, 0, 1_000, 99);
    assert_eq!(out.len(), 2);
    assert_eq!(b.buffered_ns(), 50);
}
