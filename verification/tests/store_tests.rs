use mping::{Buckets, ProbeResult};

fn send_record(txts: u128, target: &str, seq: u16) -> ProbeResult {
    ProbeResult {
        txts,
        rxts: 0,
        seq,
        target: target.to_string(),
        latency: 0,
        received: false,
        bitflip: false,
    }
}

fn reply_record(txts: u128, rxts: u128, target: &str, seq: u16, bitflip: bool) -> ProbeResult {
    ProbeResult {
        txts,
        rxts,
        seq,
        target: target.to_string(),
        latency: 0,
        received: true,
        bitflip,
    }
}

#[test]
fn add_creates_bucket_lazily() {
    let mut store = Buckets::new_buckets();
    assert!(store.last().is_none());
    assert!(store.pop().is_none());

    store.add(100, send_record(100_000_000_000, "1.1.1.1", 1));
    let peeked = store.last().expect("bucket exists");
    assert_eq!(peeked.key(), 100);
    assert_eq!(peeked.values().len(), 1);
}

#[test]
fn add_overwrites_same_composite_key() {
    let mut store = Buckets::new_buckets();
    store.add(100, send_record(1, "1.1.1.1", 7));
    store.add(100, send_record(2, "1.1.1.1", 7));
    let bucket = store.pop().unwrap();
    let values = bucket.values();
    assert_eq!(values.len(), 1);
    assert_eq!(values[0].txts, 2);
}

#[test]
fn send_reply_round_trip_completes_record() {
    // A record created under key K and completed under the same derived key
    // comes out received, with latency = receive - send.
    let txts: u128 = 100_000_000_500;
    let rxts: u128 = 100_002_000_500;
    let key = txts / 1_000_000_000;
    let mut store = Buckets::new_buckets();
    store.add(key, send_record(txts, "1.1.1.1", 1));

    assert_eq!(store.send_txts_of(key, &"1.1.1.1".to_string(), 1), Some(txts));
    store.add_reply(key, reply_record(txts, rxts, "1.1.1.1", 1, false));

    let bucket = store.pop().unwrap();
    let values = bucket.values();
    assert_eq!(values.len(), 1);
    assert!(values[0].received);
    assert_eq!(values[0].txts, txts);
    assert_eq!(values[0].rxts, rxts);
    assert_eq!(values[0].latency, rxts - txts);
}

#[test]
fn orphan_reply_kept_without_latency() {
    // A reply with no prior send record is kept, received, latency left
    // unset.
    let mut store = Buckets::new_buckets();
    store.add_reply(100, reply_record(100_000_000_000, 100_000_500_000, "9.9.9.9", 3, false));
    let bucket = store.pop().unwrap();
    let values = bucket.values();
    assert_eq!(values.len(), 1);
    assert!(values[0].received);
    assert_eq!(values[0].latency, 0);
}

#[test]
fn pop_oldest_never_returns_same_bucket_twice() {
    let mut store = Buckets::new_buckets();
    store.add(300, send_record(300_000_000_000, "1.1.1.1", 3));
    store.add(100, send_record(100_000_000_000, "1.1.1.1", 1));
    store.add(200, send_record(200_000_000_000, "1.1.1.1", 2));

    let first = store.pop().expect("oldest bucket");
    assert_eq!(first.key(), 100);

    // The popped key is gone from both views: the peeked and the next popped
    // bucket are strictly newer.
    let peeked = store.last().expect("two buckets remain");
    assert!(peeked.key() > 100);
    let second = store.pop().expect("next-oldest bucket");
    assert_eq!(second.key(), 200);
    let third = store.pop().expect("last bucket");
    assert_eq!(third.key(), 300);
    assert!(store.pop().is_none());
}

#[test]
fn peek_agrees_with_pop() {
    let mut store = Buckets::new_buckets();
    store.add(42, send_record(42_000_000_000, "1.1.1.1", 1));
    store.add(7, send_record(7_000_000_000, "1.1.1.1", 2));
    let peeked = store.last().unwrap();
    let popped = store.pop().unwrap();
    assert_eq!(peeked.key(), popped.key());
    assert_eq!(peeked.key(), 7);
}

#[test]
fn same_second_distinct_sequences_coexist() {
    // Two sends in the same epoch-second with different sequences land in the
    // same bucket under distinct composite keys.
    let mut store = Buckets::new_buckets();
    store.add(100, send_record(100_000_000_100, "1.1.1.1", 1));
    store.add(100, send_record(100_000_000_200, "1.1.1.1", 2));

    assert_eq!(store.send_txts_of(100, &"1.1.1.1".to_string(), 1), Some(100_000_000_100));
    assert_eq!(store.send_txts_of(100, &"1.1.1.1".to_string(), 2), Some(100_000_000_200));

    let bucket = store.pop().unwrap();
    let values = bucket.values();
    assert_eq!(values.len(), 2);
    assert!(store.pop().is_none());
}

#[test]
fn update_txts_corrects_send_timestamp() {
    let mut store = Buckets::new_buckets();
    store.add(100, send_record(100_000_000_000, "1.1.1.1", 1));
    store.update_txts(100, "1.1.1.1".to_string(), 1, 100_000_000_777);
    assert_eq!(store.send_txts_of(100, &"1.1.1.1".to_string(), 1), Some(100_000_000_777));

    // No-op when the bucket or entry is gone.
    store.update_txts(999, "1.1.1.1".to_string(), 1, 5);
    store.update_txts(100, "1.1.1.1".to_string(), 9, 5);
    assert_eq!(store.send_txts_of(100, &"1.1.1.1".to_string(), 1), Some(100_000_000_777));
}

#[test]
fn calc_latency_is_difference() {
    let mut r = reply_record(100, 350, "1.1.1.1", 1, false);
    r.calc_latency();
    assert_eq!(r.latency, 250);
}

#[test]
fn new_result_is_provisional() {
    let r = ProbeResult::new_result(123_456, "8.8.8.8", 17);
    assert_eq!(r.txts, 123_456);
    assert_eq!(r.rxts, 0);
    assert_eq!(r.seq, 17);
    assert_eq!(r.target, "8.8.8.8");
    assert_eq!(r.latency, 0);
    assert!(!r.received);
    assert!(!r.bitflip);
}
