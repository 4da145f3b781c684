use chronoflake::{IdGenerator, DEFAULT_EPOCH};

fn clock_millis() -> u64 {
    chrono::Utc::now().timestamp_millis() as u64
}

fn fields(id: u64) -> (u64, u64, u64) {
    (id >> 22, (id >> 12) & 0x3FF, id & 0xFFF)
}

fn at(epoch: u64, shard_id: u16, sequence: u16, timestamp: u64) -> IdGenerator {
    IdGenerator { epoch, shard_id, sequence, timestamp }
}

#[test]
fn mass_unique() {
    let mut cf = IdGenerator::new(49);

    let mut prev_id: u64 = 0;
    for _ in 0..50_000_000 {
        let id = cf.generate_id();
        assert!(prev_id != id);
        prev_id = id;
    }
}

#[test]
fn configured_epoch_first_call() {
    let epoch: u64 = 1488432924251;
    let before = clock_millis();
    let mut cf = IdGenerator::new(14).with_epoch(epoch);
    let id = cf.generate_id();
    let after = clock_millis();
    let (ts, shard, seq) = fields(id);
    assert!(before <= ts + epoch && ts + epoch <= after);
    assert_eq!(shard, 14);
    assert_eq!(seq, 0);
}

#[test]
fn default_epoch_is_used() {
    let before = clock_millis();
    let mut cf = IdGenerator::new(3);
    assert_eq!(cf.epoch, DEFAULT_EPOCH);
    assert_eq!(DEFAULT_EPOCH, 1288834974657);
    assert_eq!(cf.shard_id, 3);
    assert_eq!(cf.sequence, 0);
    let id = cf.generate_id();
    let after = clock_millis();
    let (ts, shard, _) = fields(id);
    assert!(before <= ts + DEFAULT_EPOCH && ts + DEFAULT_EPOCH <= after);
    assert_eq!(shard, 3);
}

#[test]
fn new_reads_the_clock() {
    let before = clock_millis();
    let cf = IdGenerator::new(1);
    let after = clock_millis();
    assert!(before <= cf.timestamp && cf.timestamp <= after);
}

#[test]
fn with_epoch_replaces_only_the_epoch() {
    let g = at(DEFAULT_EPOCH, 9, 17, 123456).with_epoch(42);
    assert_eq!(g, at(42, 9, 17, 123456));
}

#[test]
fn packs_fields_exactly() {
    let mut g = at(1000, 14, 0, 5000);
    assert_eq!(g.generate_id_at(5000), 16777273344);
    assert_eq!(g.generate_id_at(5000), (4000 << 22) | (14 << 12) | 1);
    assert_eq!(g, at(1000, 14, 2, 5000));
}

#[test]
fn one_millisecond_keeps_counting() {
    let mut g = at(1000, 2, 5, 5000);
    let id = g.generate_id_at(5001);
    assert_eq!(fields(id), (4001, 2, 5));
    assert_eq!(g, at(1000, 2, 6, 5000));
}

#[test]
fn two_milliseconds_restart_the_sequence() {
    let mut g = at(1000, 2, 0, 5000);
    assert_eq!(fields(g.generate_id_at(5000)), (4000, 2, 0));
    assert_eq!(fields(g.generate_id_at(5000)), (4000, 2, 1));
    assert_eq!(fields(g.generate_id_at(5002)), (4002, 2, 0));
    assert_eq!(fields(g.generate_id_at(5003)), (4003, 2, 1));
    assert_eq!(g, at(1000, 2, 2, 5002));
}

#[test]
fn backward_clock_does_not_reset() {
    let mut g = at(1000, 2, 7, 5000);
    assert_eq!(fields(g.generate_id_at(4000)), (3000, 2, 7));
    assert_eq!(g, at(1000, 2, 8, 5000));
}

#[test]
fn shard_above_ten_bits_is_truncated() {
    let mut g = at(0, 1024 + 5, 0, 100);
    assert_eq!(fields(g.generate_id_at(100)), (100, 5, 0));
}

#[test]
fn reading_before_epoch_wraps() {
    let mut g = at(10, 1, 0, 5);
    let id = g.generate_id_at(5);
    assert_eq!(id >> 22, 5u64.wrapping_sub(10) & 0x1FF_FFFF_FFFF);
    assert_eq!(id >> 22, 0x1FF_FFFF_FFFB);
}

#[test]
fn elapsed_above_forty_one_bits_is_truncated() {
    let mut g = at(0, 0, 0, (1u64 << 41) + 7);
    assert_eq!(fields(g.generate_id_at((1u64 << 41) + 7)), (7, 0, 0));
}

#[test]
fn sequence_wraps_after_4096_in_one_slot() {
    let mut g = at(0, 0, 4095, 100);
    assert_eq!(fields(g.generate_id_at(100)), (100, 0, 4095));
    assert_eq!(fields(g.generate_id_at(100)), (100, 0, 0));
    assert_eq!(g.sequence, 4097);
}

#[test]
fn counter_wraps_without_panic() {
    let mut g = at(0, 0, u16::MAX, 100);
    assert_eq!(fields(g.generate_id_at(100)), (100, 0, 0xFFF));
    assert_eq!(g.sequence, 0);
    assert_eq!(fields(g.generate_id_at(100)), (100, 0, 0));
}

#[test]
fn largest_timestamp_does_not_overflow() {
    let mut g = at(0, 0, 3, u64::MAX);
    assert_eq!(fields(g.generate_id_at(u64::MAX)).2, 3);
    assert_eq!(g.timestamp, u64::MAX);
    let mut h = at(0, 0, 3, u64::MAX - 2);
    assert_eq!(fields(h.generate_id_at(u64::MAX)).2, 0);
    assert_eq!(h.timestamp, u64::MAX);
}

#[test]
fn full_slot_is_unique_and_increasing() {
    let mut g = at(1000, 77, 0, 5000);
    let mut ids: Vec<u64> = Vec::new();
    for _ in 0..4096 {
        ids.push(g.generate_id_at(5000));
    }
    for _ in 0..100 {
        ids.push(g.generate_id_at(5002));
    }
    for k in 1..ids.len() {
        assert!(ids[k - 1] < ids[k]);
    }
    let mut sorted = ids.clone();
    sorted.dedup();
    assert_eq!(sorted.len(), 4196);
}

#[test]
fn ids_across_slots_are_increasing() {
    let mut g = at(1000, 3, 0, 5000);
    let readings: [u64; 7] = [5000, 5000, 5001, 5001, 5004, 5004, 6000];
    let mut prev: u64 = 0;
    for r in readings {
        let id = g.generate_id_at(r);
        assert!(prev < id);
        prev = id;
    }
}

#[test]
fn decoded_fields_round_trip() {
    let epoch: u64 = 1488432924251;
    let now: u64 = 1704967240656;
    let mut g = at(epoch, 14, 0, now);
    let id = g.generate_id_at(now);
    let (ts, shard, seq) = fields(id);
    assert_eq!(ts + epoch, now);
    assert_eq!(shard, 14);
    assert_eq!(seq, 0);
}

#[test]
fn successive_ids_differ_on_a_backward_clock() {
    let mut g = at(0, 0, 4095, 100);
    let a = g.generate_id_at(100);
    let b = g.generate_id_at(50);
    assert_eq!(fields(a), (100, 0, 4095));
    assert_eq!(fields(b), (50, 0, 0));
    assert_ne!(a, b);
}
