use mping::{
    build_echo_request, build_send_payload, checksum, handle_packet, ipv4_string, make_payloads,
    next_seq, parse_echo_reply, parse_ipv4_header, pattern_mismatch, payload_pattern,
    prepare_probe, read_u128_be, read_u16_be, u128_to_be_bytes,
};

use pnet_packet::icmp::{self, echo_request, IcmpTypes};
use pnet_packet::Packet;

#[test]
fn u128_round_trip_concrete() {
    let x: u128 = 0x0102_0304_0506_0708_090A_0B0C_0D0E_0F10;
    let b = u128_to_be_bytes(x);
    assert_eq!(b.len(), 16);
    assert_eq!(b[0], 0x01);
    assert_eq!(b[15], 0x10);
    assert_eq!(read_u128_be(&b, 0), x);
}

#[test]
fn u128_round_trip_extremes() {
    for x in [0u128, 1, u128::MAX, u128::MAX - 1, 1u128 << 127] {
        let b = u128_to_be_bytes(x);
        assert_eq!(read_u128_be(&b, 0), x);
    }
    assert_eq!(u128_to_be_bytes(0), vec![0u8; 16]);
    assert_eq!(u128_to_be_bytes(u128::MAX), vec![0xFFu8; 16]);
}

#[test]
fn u16_read_concrete() {
    let b = vec![0xABu8, 0xCD, 0x12, 0x34];
    assert_eq!(read_u16_be(&b, 0), 0xABCD);
    assert_eq!(read_u16_be(&b, 2), 0x1234);
}

#[test]
fn echo_request_matches_reference_builder() {
    // The same packet the original sender builds through pnet: echo request,
    // identifier and sequence set, checksum over the whole message.
    let ident: u16 = 1234;
    let seq: u16 = 7;
    let payload: Vec<u8> = (0u8..64).collect();

    let ours = build_echo_request(ident, seq, &payload);

    let mut buf = vec![0u8; 8 + payload.len()];
    let mut packet = echo_request::MutableEchoRequestPacket::new(&mut buf[..]).unwrap();
    packet.set_icmp_type(IcmpTypes::EchoRequest);
    packet.set_identifier(ident);
    packet.set_sequence_number(seq);
    packet.set_payload(&payload);
    let icmp_packet = icmp::IcmpPacket::new(packet.packet()).unwrap();
    let checksum = icmp::checksum(&icmp_packet);
    packet.set_checksum(checksum);

    assert_eq!(ours, buf);
}

#[test]
fn echo_request_odd_payload_matches_reference_builder() {
    let ident: u16 = 0xBEEF;
    let seq: u16 = 65535;
    let payload: Vec<u8> = (0u8..33).map(|b| b.wrapping_mul(7)).collect();

    let ours = build_echo_request(ident, seq, &payload);

    let mut buf = vec![0u8; 8 + payload.len()];
    let mut packet = echo_request::MutableEchoRequestPacket::new(&mut buf[..]).unwrap();
    packet.set_icmp_type(IcmpTypes::EchoRequest);
    packet.set_identifier(ident);
    packet.set_sequence_number(seq);
    packet.set_payload(&payload);
    let icmp_packet = icmp::IcmpPacket::new(packet.packet()).unwrap();
    let checksum = icmp::checksum(&icmp_packet);
    packet.set_checksum(checksum);

    assert_eq!(ours, buf);
}

#[test]
fn checksum_concrete_values() {
    // Folded ones' complement sum: 0x0001 + 0xF203 + 0xF4F5 + 0xF6F7 carries
    // past 16 bits and folds back before the complement.
    let data = vec![0x00u8, 0x01, 0xF2, 0x03, 0xF4, 0xF5, 0xF6, 0xF7];
    assert_eq!(checksum(&data), 0x220D);
    // An odd trailing byte pads with zero: 0x0102 + 0x0300.
    let odd = vec![0x01u8, 0x02, 0x03];
    assert_eq!(checksum(&odd), 0xFBFD);
    assert_eq!(checksum(&vec![]), 0xFFFF);
}

#[test]
fn checksum_matches_reference_for_zeroed_field() {
    // With the checksum field (bytes 2 and 3) holding zero, skipping it and
    // summing it agree: our checksum equals the reference one.
    let mut data: Vec<u8> = (0u8..11).collect();
    data[2] = 0;
    data[3] = 0;
    assert_eq!(checksum(&data), u16::from(pnet_packet::util::checksum(&data, 1)));
}

#[test]
fn payload_variants_cycle_by_sequence() {
    let len = 24usize;
    let payloads = make_payloads(len);
    assert_eq!(payloads.len(), 4);
    assert_eq!(payloads[1], vec![0u8; len]);
    assert_eq!(payloads[2], vec![1u8; len]);
    assert_eq!(payloads[3], vec![0x5Au8; len]);
    for seq in 0u16..8 {
        assert_eq!(payload_pattern(&payloads, seq), &payloads[(seq % 4) as usize]);
    }
}

#[test]
fn send_payload_embeds_timestamp_over_pattern() {
    let pattern = vec![0x5Au8; 20];
    let ts: u128 = 0x0102_0304_0506_0708_090A_0B0C_0D0E_0F10;
    let sp = build_send_payload(ts, &pattern);
    assert_eq!(sp.len(), 20);
    assert_eq!(&sp[..16], &u128_to_be_bytes(ts)[..]);
    assert_eq!(&sp[16..], &pattern[16..]);
}

#[test]
fn pattern_mismatch_ignores_timestamp_prefix() {
    let a = vec![0u8; 32];
    let mut b = vec![0u8; 32];
    // The first 16 bytes carry the timestamp and do not count.
    b[3] = 0xFF;
    assert!(!pattern_mismatch(&a, &b));
    // A flipped bit past the prefix does.
    b[17] = 0x01;
    assert!(pattern_mismatch(&a, &b));
    // Different lengths always mismatch.
    assert!(pattern_mismatch(&a, &vec![0u8; 31]));
}

#[test]
fn parse_ipv4_header_accepts_and_rejects() {
    let mut buf = vec![0u8; 28];
    buf[0] = 0x45;
    assert_eq!(parse_ipv4_header(&buf), Some(20));

    // Too short for any IPv4 header.
    assert_eq!(parse_ipv4_header(&vec![0x45u8; 19]), None);
    // Wrong version.
    let mut v6 = vec![0u8; 28];
    v6[0] = 0x65;
    assert_eq!(parse_ipv4_header(&v6), None);
    // Header length below the minimum of five words.
    let mut short_ihl = vec![0u8; 28];
    short_ihl[0] = 0x44;
    assert_eq!(parse_ipv4_header(&short_ihl), None);
    // Header longer than the buffer.
    let mut long_ihl = vec![0u8; 28];
    long_ihl[0] = 0x4F;
    assert_eq!(parse_ipv4_header(&long_ihl), None);
}

#[test]
fn parse_echo_reply_reads_header_fields() {
    let mut buf = vec![0u8; 16];
    buf[0] = 0; // echo reply
    buf[1] = 0; // no code
    buf[4] = 0x12;
    buf[5] = 0x34;
    buf[6] = 0x00;
    buf[7] = 0x2A;
    assert_eq!(parse_echo_reply(&buf, 0), Some((0x1234, 42)));

    // An echo request is not a reply.
    let mut req = buf.clone();
    req[0] = 8;
    assert_eq!(parse_echo_reply(&req, 0), None);
    // A nonzero code is discarded.
    let mut coded = buf.clone();
    coded[1] = 3;
    assert_eq!(parse_echo_reply(&coded, 0), None);
    // Too short for the 8-byte header.
    assert_eq!(parse_echo_reply(&vec![0u8; 7], 0), None);
}

#[test]
fn ipv4_string_formats_dotted_decimal() {
    assert_eq!(ipv4_string(127, 0, 0, 1), "127.0.0.1");
    assert_eq!(ipv4_string(0, 0, 0, 0), "0.0.0.0");
    assert_eq!(ipv4_string(255, 255, 255, 255), "255.255.255.255");
    assert_eq!(ipv4_string(192, 168, 10, 9), "192.168.10.9");
}

#[test]
fn make_payloads_lengths_and_patterns() {
    let payloads = make_payloads(48);
    assert_eq!(payloads.len(), 4);
    for p in &payloads {
        assert_eq!(p.len(), 48);
    }
    // Two sessions draw different random patterns.
    let other = make_payloads(48);
    assert_ne!(payloads[0], other[0]);
}

#[test]
fn next_seq_increments_and_wraps() {
    assert_eq!(next_seq(0), 1);
    assert_eq!(next_seq(41), 42);
    assert_eq!(next_seq(65535), 0);
}

/// Builds the raw IPv4 datagram of an echo reply as the receiver would read
/// it off the wire: a minimal 20-byte header around the echoed ICMP message.
fn reply_datagram(source: [u8; 4], ident: u16, seq: u16, payload: &[u8]) -> Vec<u8> {
    let mut ip = vec![0u8; 20];
    ip[0] = 0x45;
    ip[12] = source[0];
    ip[13] = source[1];
    ip[14] = source[2];
    ip[15] = source[3];
    let mut icmp = vec![0u8; 8];
    icmp[0] = 0; // echo reply
    icmp[1] = 0; // no code
    icmp[4] = (ident >> 8) as u8;
    icmp[5] = (ident & 0xFF) as u8;
    icmp[6] = (seq >> 8) as u8;
    icmp[7] = (seq & 0xFF) as u8;
    let mut buf = ip;
    buf.extend_from_slice(&icmp);
    buf.extend_from_slice(payload);
    buf
}

#[test]
fn handle_packet_accepts_matching_reply() {
    let len = 64usize;
    let payloads = make_payloads(len);
    let ident: u16 = 4242;
    let seq: u16 = 5; // seq % 4 == 1: the all-zero pattern
    let txts: u128 = 1_700_000_123_456_789_000;
    let now: u128 = txts + 1_000_000;

    let mut echoed = u128_to_be_bytes(txts);
    echoed.extend_from_slice(&payloads[1][16..]);
    let buf = reply_datagram([127, 0, 0, 1], ident, seq, &echoed);

    let (key, pr) = handle_packet(&buf, ident, &payloads, now).expect("reply accepted");
    assert_eq!(key, txts / 1_000_000_000);
    assert_eq!(pr.txts, txts);
    assert_eq!(pr.rxts, now);
    assert_eq!(pr.seq, seq);
    assert_eq!(pr.target, "127.0.0.1");
    assert!(pr.received);
    assert!(!pr.bitflip);
    assert_eq!(pr.latency, 0);
}

#[test]
fn handle_packet_flags_corruption_but_keeps_reply() {
    // A reply whose payload past the timestamp differs from the expected
    // pattern is kept, received, and marked corrupted.
    let len = 64usize;
    let payloads = make_payloads(len);
    let ident: u16 = 4242;
    let seq: u16 = 5;
    let txts: u128 = 1_700_000_123_456_789_000;

    let mut echoed = u128_to_be_bytes(txts);
    echoed.extend_from_slice(&payloads[1][16..]);
    let flip: usize = 8 + 20; // first pattern byte within the datagram's payload
    let mut buf = reply_datagram([10, 0, 0, 7], ident, seq, &echoed);
    buf[20 + flip] ^= 0x01;

    let (_, pr) = handle_packet(&buf, ident, &payloads, txts).expect("reply accepted");
    assert!(pr.received);
    assert!(pr.bitflip);
    assert_eq!(pr.target, "10.0.0.7");
}

#[test]
fn handle_packet_discards_foreign_and_malformed() {
    let len = 64usize;
    let payloads = make_payloads(len);
    let ident: u16 = 4242;
    let txts: u128 = 1_700_000_123_456_789_000;
    let mut echoed = u128_to_be_bytes(txts);
    echoed.extend_from_slice(&payloads[1][16..]);

    // Wrong identifier: foreign traffic.
    let buf = reply_datagram([127, 0, 0, 1], ident, 5, &echoed);
    assert!(handle_packet(&buf, ident + 1, &payloads, txts).is_none());

    // Payload too short to carry the embedded timestamp.
    let short = reply_datagram([127, 0, 0, 1], ident, 5, &[0u8; 15]);
    assert!(handle_packet(&short, ident, &payloads, txts).is_none());

    // Not an IPv4 datagram at all.
    assert!(handle_packet(&vec![0u8; 10], ident, &payloads, txts).is_none());
}

#[test]
fn prepare_probe_embeds_timestamp_and_pattern() {
    let len = 32usize;
    let pattern: Vec<u8> = vec![0x5A; len];
    let now: u128 = 1_700_000_000_500_000_000;
    let (pkt, key, record) = prepare_probe("192.168.1.1", 9, 77, now, &pattern);

    assert_eq!(key, 1_700_000_000);
    assert_eq!(record.txts, now);
    assert_eq!(record.rxts, 0);
    assert_eq!(record.seq, 9);
    assert_eq!(record.target, "192.168.1.1");
    assert!(!record.received);
    assert!(!record.bitflip);

    assert_eq!(pkt.len(), 8 + len);
    assert_eq!(pkt[0], 8);
    assert_eq!(pkt[1], 0);
    assert_eq!(read_u16_be(&pkt, 4), 77);
    assert_eq!(read_u16_be(&pkt, 6), 9);
    // The first 16 payload bytes carry the send timestamp...
    assert_eq!(read_u128_be(&pkt, 8), now);
    // ...and the pattern fills the rest.
    assert_eq!(&pkt[24..], &pattern[16..]);
    // The checksum field is filled in and verifies: summing the packet's
    // words, checksum included, folds to 0xFFFF.
    let mut sum: u32 = 0;
    let mut i: usize = 0;
    while i < pkt.len() {
        let hi = pkt[i] as u32;
        let lo = if i + 1 < pkt.len() { pkt[i + 1] as u32 } else { 0 };
        sum += (hi << 8) | lo;
        i += 2;
    }
    while sum >> 16 != 0 {
        sum = (sum >> 16) + (sum & 0xFFFF);
    }
    assert_eq!(sum, 0xFFFF);
}
