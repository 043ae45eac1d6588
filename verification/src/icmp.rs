//! The ICMP echo wire format: building echo requests and reading echo
//! replies out of raw IPv4 datagrams. An echo message is an 8-byte header --
//! type, code, checksum, identifier, sequence, the multi-byte fields
//! big-endian -- followed by the payload.

use crate::bytes::{be_bytes, be_value};
use crate::checksum::icmp_checksum;
use vstd::prelude::*;

verus! {

/// ICMP message type of an echo request.
pub const ECHO_REQUEST_TYPE: u8 = 8;

/// ICMP message type of an echo reply.
pub const ECHO_REPLY_TYPE: u8 = 0;

/// An echo request before its checksum is filled in: the checksum field holds
/// zero.
pub open spec fn echo_request_unchecksummed(ident: u16, seq: u16, payload: Seq<u8>) -> Seq<u8> {
    seq![ECHO_REQUEST_TYPE, 0u8, 0u8, 0u8] + be_bytes(ident as nat, 2) + be_bytes(seq as nat, 2)
        + payload
}

/// The complete echo request on the wire: the checksum of the zero-checksum
/// packet, stored big-endian in bytes 2 and 3.
pub open spec fn echo_request_bytes(ident: u16, seq: u16, payload: Seq<u8>) -> Seq<u8> {
    let base = echo_request_unchecksummed(ident, seq, payload);
    let c = icmp_checksum(base);
    base.update(2, (c as nat / 256) as u8).update(3, (c as nat % 256) as u8)
}

/// Builds an ICMP echo request with the given identifier, sequence number and
/// payload, its checksum computed and set.
pub fn build_echo_request(ident: u16, seq: u16, payload: &Vec<u8>) -> (r: Vec<u8>)
    requires
        8 + payload@.len() <= 0xFFFF,
    ensures
        r@ =~= echo_request_bytes(ident, seq, payload@),
        r@.len() == 8 + payload@.len(),
{
    let mut buf: Vec<u8> = Vec::new();
    buf.push(ECHO_REQUEST_TYPE);
    buf.push(0u8);
    buf.push(0u8);
    buf.push(0u8);
    let (ih, il) = crate::bytes::u16_to_be_bytes(ident);
    buf.push(ih);
    buf.push(il);
    let (sh, sl) = crate::bytes::u16_to_be_bytes(seq);
    buf.push(sh);
    buf.push(sl);
    let len: usize = payload.len();
    let mut i: usize = 0;
    while i < len
        invariant
            len == payload@.len(),
            i <= len,
            buf@ =~= seq![ECHO_REQUEST_TYPE, 0u8, 0u8, 0u8, ih, il, sh, sl] + payload@.take(
                i as int,
            ),
        decreases len - i,
    {
        buf.push(payload[i]);
        proof {
            assert(buf@ =~= seq![ECHO_REQUEST_TYPE, 0u8, 0u8, 0u8, ih, il, sh, sl] + payload@.take(
                i + 1,
            ));
        }
        i = i + 1;
    }
    proof {
        crate::bytes::lemma_be_bytes_len(ident as nat, 2);
        crate::bytes::lemma_be_bytes_len(seq as nat, 2);
        assert(buf@ =~= echo_request_unchecksummed(ident, seq, payload@));
    }
    let ghost base = buf@;
    let c = crate::checksum::checksum(&buf);
    let (ch, cl) = crate::bytes::u16_to_be_bytes(c);
    proof {
        crate::bytes::lemma_be_bytes_index(c as nat, 2, 0);
        crate::bytes::lemma_be_bytes_index(c as nat, 2, 1);
        assert(seq![ch, cl] == be_bytes(c as nat, 2));
        assert(ch == (c as nat / 256) as u8 && cl == (c as nat % 256) as u8) by {
            assert(be_bytes(c as nat, 2)[0] == ((c as nat / crate::bytes::pow256(1)) % 256) as u8);
            assert(be_bytes(c as nat, 2)[1] == ((c as nat / crate::bytes::pow256(0)) % 256) as u8);
            assert(crate::bytes::pow256(1) == 256 && crate::bytes::pow256(0) == 1);
            assert(c as nat / 1 == c as nat);
            assert((c as nat / 256) % 256 == c as nat / 256) by {
                vstd::arithmetic::div_mod::lemma_basic_div((c as int) / 256, 256);
            }
            assert((c as nat) % 256 < 256);
        }
    }
    buf[2] = ch;
    buf[3] = cl;
    proof {
        assert(buf@ =~= base.update(2, ch).update(3, cl));
    }
    buf
}

/// Whether a buffer begins with a well-formed IPv4 header: version 4, a
/// header length of at least five 32-bit words, and the whole header present.
pub open spec fn ipv4_header_ok(s: Seq<u8>) -> bool {
    &&& s.len() >= 20
    &&& s[0] as nat / 16 == 4
    &&& s[0] as nat % 16 >= 5
    &&& (s[0] as nat % 16) * 4 <= s.len()
}

/// The byte length of the IPv4 header, read from the IHL field.
pub open spec fn ipv4_header_len(s: Seq<u8>) -> int {
    (s[0] as int % 16) * 4
}

/// Checks the IPv4 header of a received datagram and returns its length, the
/// offset at which the ICMP message starts; nothing when the buffer does not
/// begin with a well-formed IPv4 header.
pub fn parse_ipv4_header(buf: &Vec<u8>) -> (r: Option<usize>)
    ensures
        r is Some <==> ipv4_header_ok(buf@),
        r is Some ==> r->Some_0 == ipv4_header_len(buf@) && 20 <= r->Some_0 <= buf@.len(),
{
    let len: usize = buf.len();
    if len < 20 {
        return None;
    }
    let vihl = buf[0];
    let version = vihl / 16;
    let ihl = vihl % 16;
    if version != 4 {
        return None;
    }
    if ihl < 5 {
        return None;
    }
    let header_len: usize = (ihl as usize) * 4;
    if header_len > len {
        return None;
    }
    Some(header_len)
}

/// Whether the bytes from `off` form an ICMP echo reply with code zero: at
/// least the 8-byte header, message type "echo reply", "no code".
pub open spec fn echo_reply_at(s: Seq<u8>, off: int) -> bool {
    &&& off + 8 <= s.len()
    &&& s[off] == ECHO_REPLY_TYPE
    &&& s[off + 1] == 0u8
}

/// The identifier field of the echo message starting at `off`.
pub open spec fn echo_ident(s: Seq<u8>, off: int) -> nat {
    be_value(s.subrange(off + 4, off + 6))
}

/// The sequence field of the echo message starting at `off`.
pub open spec fn echo_seq(s: Seq<u8>, off: int) -> nat {
    be_value(s.subrange(off + 6, off + 8))
}

/// Reads the header of the ICMP echo reply starting at `off`: nothing when
/// the message is not an echo reply with code zero, its identifier and
/// sequence number otherwise.
pub fn parse_echo_reply(buf: &Vec<u8>, off: usize) -> (r: Option<(u16, u16)>)
    requires
        off <= buf@.len(),
    ensures
        r is Some <==> echo_reply_at(buf@, off as int),
        r is Some ==> r->Some_0.0 as nat == echo_ident(buf@, off as int) && r->Some_0.1 as nat
            == echo_seq(buf@, off as int),
{
    let len: usize = buf.len();
    if len - off < 8 {
        return None;
    }
    if buf[off] != ECHO_REPLY_TYPE || buf[off + 1] != 0u8 {
        return None;
    }
    let ident = crate::bytes::read_u16_be(buf, off + 4);
    let seq = crate::bytes::read_u16_be(buf, off + 6);
    Some((ident, seq))
}

/// The four octets of the source address of the IPv4 header: bytes 12 to 15.
pub open spec fn ipv4_source(s: Seq<u8>) -> (u8, u8, u8, u8) {
    (s[12], s[13], s[14], s[15])
}

/// Reads the source address octets out of an IPv4 header.
pub fn read_ipv4_source(buf: &Vec<u8>) -> (r: (u8, u8, u8, u8))
    requires
        buf@.len() >= 20,
    ensures
        r == ipv4_source(buf@),
{
    (buf[12], buf[13], buf[14], buf[15])
}

/// A copy of the bytes from `start` to the end of the buffer.
pub fn copy_tail(buf: &Vec<u8>, start: usize) -> (r: Vec<u8>)
    requires
        start <= buf@.len(),
    ensures
        r@ =~= buf@.skip(start as int),
{
    let len: usize = buf.len();
    let mut r: Vec<u8> = Vec::new();
    let mut i: usize = start;
    while i < len
        invariant
            len == buf@.len(),
            start <= i <= len,
            r@ =~= buf@.subrange(start as int, i as int),
        decreases len - i,
    {
        r.push(buf[i]);
        proof {
            assert(r@ =~= buf@.subrange(start as int, i + 1));
        }
        i = i + 1;
    }
    proof {
        assert(buf@.subrange(start as int, len as int) =~= buf@.skip(start as int));
    }
    r
}

} // verus!
