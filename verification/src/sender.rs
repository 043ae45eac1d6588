//! The per-probe work of the send loop: build the wire bytes for one echo
//! request, derive the epoch-second key, and create the provisional record
//! that must reach the store before the packet leaves the process. The caller
//! owns the socket, the rate limiter and the loop itself.

use crate::bytes::be_bytes;
use crate::icmp::{build_echo_request, echo_request_bytes};
use crate::payload::build_send_payload;
use crate::probe::{ProbeModel, ProbeResult};
use vstd::prelude::*;

verus! {

/// The payload of one probe: the big-endian send timestamp over the first 16
/// bytes, the selected pattern beyond them.
pub open spec fn send_payload_bytes(ts: u128, pattern: Seq<u8>) -> Seq<u8> {
    be_bytes(ts as nat, 16) + pattern.skip(16)
}

/// Everything one probe needs before it can be sent: the echo request bytes
/// for the wire, the epoch-second key of the send timestamp, and the
/// provisional not-yet-received record to store under that key.
pub fn prepare_probe(target: &str, seq: u16, pid: u16, now_ns: u128, pattern: &Vec<u8>) -> (r: (
    Vec<u8>,
    u128,
    ProbeResult,
))
    requires
        16 <= pattern@.len(),
        8 + pattern@.len() <= 0xFFFF,
    ensures
        r.0@ == echo_request_bytes(pid, seq, send_payload_bytes(now_ns, pattern@)),
        r.1 == now_ns / 1_000_000_000,
        r.2@ == (ProbeModel {
            txts: now_ns,
            rxts: 0,
            seq,
            target: target@,
            latency: 0,
            received: false,
            bitflip: false,
        }),
{
    let sp = build_send_payload(now_ns, pattern);
    let pkt = build_echo_request(pid, seq, &sp);
    let key = now_ns / 1_000_000_000;
    let record = ProbeResult::new_result(now_ns, target, seq);
    (pkt, key, record)
}

/// The next sequence number: one more, wrapping back to zero past the 16-bit
/// space.
pub fn next_seq(seq: u16) -> (r: u16)
    ensures
        r as int == (seq + 1) % 0x10000,
{
    if seq == 0xFFFF {
        0
    } else {
        seq + 1
    }
}

/// Whether the send loop is done: a configured per-target cap was reached.
/// With no cap configured the loop never stops on its own.
pub fn reached_count(sent_count: i64, count: Option<i64>) -> (r: bool)
    ensures
        r == (count is Some && sent_count >= count->Some_0),
{
    match count {
        Some(c) => sent_count >= c,
        None => false,
    }
}

} // verus!
