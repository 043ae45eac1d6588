//! Turning a raw inbound datagram into a completed probe record: parse and
//! validate the IPv4 and ICMP echo headers, detect payload corruption, and
//! recover the embedded send timestamp. The caller reads the socket and hands
//! the bytes in; everything after that is decided here.

use crate::addr::{ipv4_chars, ipv4_string};
use crate::bytes::be_value;
use crate::icmp::{
    copy_tail, echo_ident, echo_reply_at, echo_seq, ipv4_header_len, ipv4_header_ok,
    parse_echo_reply, parse_ipv4_header, read_ipv4_source,
};
use crate::payload::{pattern_mismatch, payload_pattern, variant_index};
use crate::probe::{ProbeModel, ProbeResult};
use vstd::prelude::*;

verus! {

/// Whether an inbound datagram is accepted as a reply to one of this
/// process's probes: a well-formed IPv4 header around an ICMP echo reply with
/// code zero, the identifier of this process, and a payload long enough to
/// carry the 16-byte embedded send timestamp. Anything else is discarded.
pub open spec fn reply_acceptable(buf: Seq<u8>, pid: u16) -> bool {
    &&& ipv4_header_ok(buf)
    &&& echo_reply_at(buf, ipv4_header_len(buf))
    &&& echo_ident(buf, ipv4_header_len(buf)) == pid as nat
    &&& buf.len() >= ipv4_header_len(buf) + 8 + 16
}

/// The send timestamp embedded in the first 16 payload bytes of an accepted
/// reply.
pub open spec fn reply_txts(buf: Seq<u8>) -> nat {
    be_value(buf.subrange(ipv4_header_len(buf) + 8, ipv4_header_len(buf) + 24))
}

/// The probe record an accepted reply completes to, before it is matched
/// against the store: received, not yet carrying a latency, corrupted when
/// the payload past the timestamp differs from the pattern its sequence
/// number selects.
pub open spec fn reply_model(buf: Seq<u8>, payloads: Seq<Vec<u8>>, now_ns: u128) -> ProbeModel {
    let off = ipv4_header_len(buf);
    let sq = echo_seq(buf, off);
    ProbeModel {
        txts: reply_txts(buf) as u128,
        rxts: now_ns,
        seq: sq as u16,
        target: ipv4_chars(buf[12], buf[13], buf[14], buf[15]),
        latency: 0,
        received: true,
        bitflip: payloads[variant_index(sq as u16)]@.skip(16) != buf.skip(off + 24),
    }
}

/// Validates one raw inbound datagram against this process's identifier and
/// payload patterns. An accepted reply comes back as the epoch-second key of
/// its embedded send timestamp together with the completed probe record;
/// everything else -- a foreign or malformed packet, a stray identifier, a
/// payload too short for the timestamp -- is discarded.
pub fn handle_packet(buf: &Vec<u8>, pid: u16, payloads: &Vec<Vec<u8>>, now_ns: u128) -> (r: Option<
    (u128, ProbeResult),
>)
    requires
        payloads@.len() == 4,
        forall|i: int| 0 <= i < 4 ==> (#[trigger] payloads@[i])@.len() >= 16,
    ensures
        r is Some <==> reply_acceptable(buf@, pid),
        r is Some ==> {
            &&& r->Some_0.0 as nat == reply_txts(buf@) / 1_000_000_000
            &&& r->Some_0.1@ == reply_model(buf@, payloads@, now_ns)
        },
{
    let off = match parse_ipv4_header(buf) {
        Some(o) => o,
        None => {
            return None;
        },
    };
    let (ident, sq) = match parse_echo_reply(buf, off) {
        Some(h) => h,
        None => {
            return None;
        },
    };
    if ident != pid {
        return None;
    }
    let len: usize = buf.len();
    if len - off < 24 {
        proof {
            assert(buf@.len() < ipv4_header_len(buf@) + 8 + 16);
        }
        return None;
    }
    let payload = copy_tail(buf, off + 8);
    let pattern = payload_pattern(payloads, sq);
    let bitflip = pattern_mismatch(pattern, &payload);
    let txts = crate::bytes::read_u128_be(&payload, 0);
    proof {
        assert(payload@.subrange(0, 16) =~= buf@.subrange(off as int + 8, off as int + 24));
        assert(payload@.skip(16) =~= buf@.skip(off as int + 24));
    }
    let source = read_ipv4_source(buf);
    let target = ipv4_string(source.0, source.1, source.2, source.3);
    let key = txts / 1_000_000_000;
    let r = ProbeResult { txts, rxts: now_ns, seq: sq, target, latency: 0, received: true, bitflip };
    proof {
        assert(r@ == reply_model(buf@, payloads@, now_ns));
    }
    Some((key, r))
}

} // verus!
