//! A multi-target ICMP latency measurement library.
//!
//! Probe records are grouped into per-second buckets, held in a store that
//! hands the oldest window out for aggregation once it has aged past a
//! configurable reporting delay. Packet construction and parsing, record
//! bookkeeping and the per-window statistics are verified; socket I/O,
//! threads and rate limiting live with the caller.

mod addr;
mod bucket;
mod bytes;
mod checksum;
mod clock;
mod icmp;
mod payload;
mod ping;
mod probe;
mod receiver;
mod reporter;
mod sender;
mod stats;
mod store;

pub use addr::{dec_chars, dec_digit, ipv4_chars, ipv4_string};
pub use bucket::{
    completed_reply, entries_wf, has_key, insert_entry, key_index, lemma_insert_entry_found,
    lemma_same_second_coexist, lemma_send_reply_round_trip, reply_timestamp_ok, seq_model, Bucket,
    BucketModel,
};
pub use bytes::{be_bytes, be_value, pow256, read_u128_be, read_u16_be, u128_to_be_bytes};
pub use checksum::{checksum, fold16, icmp_checksum, words_sum};
pub use clock::{
    micros_of_nanos, millis_of_nanos, now_timestamp_micros, now_timestamp_millis,
    now_timestamp_nanos, now_timestamp_seconds, seconds_of_nanos,
};
pub use icmp::{
    build_echo_request, copy_tail, echo_ident, echo_reply_at, echo_request_bytes,
    echo_request_unchecksummed, echo_seq, ipv4_header_len, ipv4_header_ok, ipv4_source,
    parse_echo_reply, parse_ipv4_header, read_ipv4_source, ECHO_REPLY_TYPE, ECHO_REQUEST_TYPE,
};
pub use payload::{
    build_send_payload, make_payloads, pattern_mismatch, payload_pattern, variant_index,
};
pub use ping::PingOption;
pub use probe::{ProbeModel, ProbeResult};
pub use receiver::{handle_packet, reply_acceptable, reply_model, reply_txts};
pub use reporter::{reporter_decide, ReporterAction};
pub use sender::{next_seq, prepare_probe, reached_count, send_payload_bytes};
pub use stats::{
    aggregate, count_bitflip, count_loss, count_received, count_target, lemma_counts_bounded,
    lemma_received_plus_loss, lemma_sum_latency_le_total, sum_latency, total_latency, TargetResult,
};
pub use store::{
    lemma_pop_oldest_advances, lemma_store_round_trip, min_key_index, store_has_key,
    store_key_index, store_wf, Buckets,
};
