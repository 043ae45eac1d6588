use mping::{
    aggregate, micros_of_nanos, millis_of_nanos, now_timestamp_micros, now_timestamp_millis,
    now_timestamp_nanos, now_timestamp_seconds, reached_count, reporter_decide, seconds_of_nanos,
    Buckets, PingOption, ProbeResult, ReporterAction,
};

fn send_record(txts: u128, target: &str, seq: u16) -> ProbeResult {
    ProbeResult {
        txts,
        rxts: 0,
        seq,
        target: target.to_string(),
        latency: 0,
        received: false,
        bitflip: false,
    }
}

fn reply_record(txts: u128, rxts: u128, target: &str, seq: u16, bitflip: bool) -> ProbeResult {
    ProbeResult {
        txts,
        rxts,
        seq,
        target: target.to_string(),
        latency: 0,
        received: true,
        bitflip,
    }
}

#[test]
fn aggregate_counts_per_target() {
    // received + loss per target equals the probes recorded for it.
    let key: u128 = 100;
    let mut store = Buckets::new_buckets();
    store.add(key, send_record(100_000_000_001, "1.1.1.1", 1));
    store.add(key, send_record(100_000_000_002, "1.1.1.1", 2));
    store.add(key, send_record(100_000_000_003, "2.2.2.2", 1));
    store.add_reply(key, reply_record(100_000_000_001, 100_000_000_501, "1.1.1.1", 1, false));
    store.add_reply(key, reply_record(100_000_000_003, 100_000_001_003, "2.2.2.2", 1, true));

    let bucket = store.pop().unwrap();
    let stats = aggregate(&bucket);
    assert_eq!(stats.len(), 2);
    for tr in &stats {
        match tr.target.as_str() {
            "1.1.1.1" => {
                assert_eq!(tr.received, 1);
                assert_eq!(tr.loss, 1);
                assert_eq!(tr.received + tr.loss, 2);
                assert_eq!(tr.bitflip_count, 0);
                assert_eq!(tr.latency, 500);
            },
            "2.2.2.2" => {
                assert_eq!(tr.received, 1);
                assert_eq!(tr.loss, 0);
                assert_eq!(tr.bitflip_count, 1);
                assert_eq!(tr.latency, 1000);
            },
            other => panic!("unexpected target {}", other),
        }
    }
}

#[test]
fn five_probes_all_echoed() {
    // One target, five probes, all echoed: one statistics record with
    // received = 5, loss = 0, loss rate 0.
    let popt = PingOption {
        timeout: std::time::Duration::from_secs(1),
        ttl: 64,
        tos: None,
        ident: 1234,
        len: 56,
        rate: 10,
        rate_for_all: false,
        delay: 3,
        count: Some(5),
    };
    let key: u128 = 500;
    let mut store = Buckets::new_buckets();
    let mut sent_count: i64 = 0;
    let mut seq: u16 = 1;
    while !reached_count(sent_count, popt.count) {
        let txts = key * 1_000_000_000 + seq as u128;
        store.add(key, send_record(txts, "127.0.0.1", seq));
        store.add_reply(key, reply_record(txts, txts + 42, "127.0.0.1", seq, false));
        seq = mping::next_seq(seq);
        sent_count += 1;
    }
    assert_eq!(sent_count, 5);

    let bucket = store.pop().unwrap();
    let stats = aggregate(&bucket);
    assert_eq!(stats.len(), 1);
    let tr = &stats[0];
    assert_eq!(tr.target, "127.0.0.1");
    assert_eq!(tr.received, 5);
    assert_eq!(tr.loss, 0);
    let loss_rate = tr.loss as f64 / (tr.received + tr.loss) as f64;
    assert_eq!(loss_rate, 0.0);
}

#[test]
fn receiver_never_runs_all_loss() {
    // No reply ever lands: received = 0, loss = sent count, loss rate 1.0,
    // and the mean latency reports 0 instead of dividing by zero.
    let key: u128 = 800;
    let mut store = Buckets::new_buckets();
    for seq in 1u16..=5 {
        store.add(key, send_record(key * 1_000_000_000 + seq as u128, "10.0.0.1", seq));
    }
    // After the reporting delay has elapsed the window is finalized.
    let delay: u128 = 3;
    assert_eq!(
        reporter_decide(Some(key), 0, key + delay, delay),
        ReporterAction::PopReport
    );
    let bucket = store.pop().unwrap();
    let stats = aggregate(&bucket);
    assert_eq!(stats.len(), 1);
    let tr = &stats[0];
    assert_eq!(tr.received, 0);
    assert_eq!(tr.loss, 5);
    let loss_rate = tr.loss as f64 / (tr.received + tr.loss) as f64;
    assert_eq!(loss_rate, 1.0);
    assert_eq!(tr.mean_latency_ns(), 0);
}

#[test]
fn mean_latency_divides_by_received() {
    let key: u128 = 900;
    let mut store = Buckets::new_buckets();
    for seq in 1u16..=2 {
        let txts = key * 1_000_000_000 + seq as u128;
        store.add(key, send_record(txts, "1.2.3.4", seq));
        store.add_reply(key, reply_record(txts, txts + 100 * seq as u128, "1.2.3.4", seq, false));
    }
    let bucket = store.pop().unwrap();
    let stats = aggregate(&bucket);
    assert_eq!(stats.len(), 1);
    assert_eq!(stats[0].latency, 300);
    assert_eq!(stats[0].mean_latency_ns(), 150);
}

#[test]
fn reporter_waits_without_buckets() {
    assert_eq!(reporter_decide(None, 0, 1_000, 3), ReporterAction::Wait);
}

#[test]
fn reporter_discards_stale_window() {
    // A key at or below the watermark was already finalized once.
    assert_eq!(reporter_decide(Some(100), 100, 1_000, 3), ReporterAction::PopDiscard);
    assert_eq!(reporter_decide(Some(99), 100, 1_000, 3), ReporterAction::PopDiscard);
}

#[test]
fn reporter_defers_young_window() {
    // Within the delay of "now", the window may still receive replies.
    assert_eq!(reporter_decide(Some(999), 100, 1_000, 3), ReporterAction::Wait);
    assert_eq!(reporter_decide(Some(998), 100, 1_000, 3), ReporterAction::Wait);
}

#[test]
fn reporter_finalizes_aged_window() {
    assert_eq!(reporter_decide(Some(997), 100, 1_000, 3), ReporterAction::PopReport);
    assert_eq!(reporter_decide(Some(200), 100, 1_000, 3), ReporterAction::PopReport);
}

#[test]
fn reached_count_checks_cap() {
    assert!(!reached_count(4, Some(5)));
    assert!(reached_count(5, Some(5)));
    assert!(reached_count(6, Some(5)));
    assert!(!reached_count(1_000_000, None));
}

#[test]
fn timestamp_projections() {
    let nanos: u128 = 1_700_000_123_456_789_012;
    assert_eq!(seconds_of_nanos(nanos), 1_700_000_123);
    assert_eq!(millis_of_nanos(nanos), 456);
    assert_eq!(micros_of_nanos(nanos), 789);
}

#[test]
fn wall_clock_reads_are_in_range() {
    // The sandbox clock sits well past 2020.
    let nanos = now_timestamp_nanos();
    assert!(nanos > 1_577_836_800u128 * 1_000_000_000);
    assert!(now_timestamp_millis() < 1000);
    assert!(now_timestamp_micros() < 1000);
    assert!(now_timestamp_seconds() > 1_577_836_800);
}
