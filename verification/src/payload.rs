//! Probe payloads. Four patterns cycle with the sequence number to exercise
//! different bit patterns for corruption detection; the first 16 bytes of
//! every payload sent on the wire carry the big-endian send timestamp.

use crate::bytes::be_bytes;
use vstd::prelude::*;

verus! {

/// Which of the four payload patterns a sequence number selects.
pub open spec fn variant_index(seq: u16) -> int {
    seq as int % 4
}

/// Relies on rand::Rng::fill over a byte slice: it fills the buffer in place
/// and leaves its length alone. Nothing is assumed about the bytes drawn.
#[verifier::external_body]
fn random_bytes(len: usize) -> (r: Vec<u8>)
    ensures
        r@.len() == len,
{
    let mut v = vec![0u8; len];
    rand::Rng::fill(&mut rand::thread_rng(), &mut v[..]);
    v
}

/// The four payload patterns, selected round-robin by sequence number: a
/// random pattern drawn here once, all-zero, all-one, and a fixed 0x5A
/// pattern. Sender and receiver must hold the same set, so one session draws
/// one set and shares it.
pub fn make_payloads(len: usize) -> (r: Vec<Vec<u8>>)
    ensures
        r@.len() == 4,
        r@[1]@ =~= Seq::new(len as nat, |i: int| 0u8),
        r@[2]@ =~= Seq::new(len as nat, |i: int| 1u8),
        r@[3]@ =~= Seq::new(len as nat, |i: int| 0x5Au8),
        forall|i: int| 0 <= i < 4 ==> (#[trigger] r@[i])@.len() == len,
{
    let rand_payload = random_bytes(len);
    let zero_payload = byte_vec(0u8, len);
    let one_payload = byte_vec(1u8, len);
    let fivea_payload = byte_vec(0x5Au8, len);
    let mut r: Vec<Vec<u8>> = Vec::new();
    r.push(rand_payload);
    r.push(zero_payload);
    r.push(one_payload);
    r.push(fivea_payload);
    r
}

/// A vector of `len` copies of one byte.
fn byte_vec(b: u8, len: usize) -> (r: Vec<u8>)
    ensures
        r@ =~= Seq::new(len as nat, |i: int| b),
{
    let mut r: Vec<u8> = Vec::new();
    let mut i: usize = 0;
    while i < len
        invariant
            i <= len,
            r@ =~= Seq::new(i as nat, |j: int| b),
        decreases len - i,
    {
        r.push(b);
        proof {
            assert(r@ =~= Seq::new(i as nat + 1, |j: int| b));
        }
        i = i + 1;
    }
    r
}

/// The pattern the given sequence number selects.
pub fn payload_pattern<'a>(payloads: &'a Vec<Vec<u8>>, seq: u16) -> (r: &'a Vec<u8>)
    requires
        payloads@.len() == 4,
    ensures
        *r == payloads@[variant_index(seq)],
{
    &payloads[(seq as usize) % 4]
}

/// The bytes that go on the wire for one probe: the big-endian send timestamp
/// over the first 16 bytes, the selected pattern beyond them.
pub fn build_send_payload(ts: u128, pattern: &Vec<u8>) -> (r: Vec<u8>)
    requires
        pattern@.len() >= 16,
    ensures
        r@.len() == pattern@.len(),
        r@ =~= be_bytes(ts as nat, 16) + pattern@.skip(16),
{
    let mut r = crate::bytes::u128_to_be_bytes(ts);
    proof {
        crate::bytes::lemma_be_bytes_len(ts as nat, 16);
    }
    let len: usize = pattern.len();
    let mut i: usize = 16;
    while i < len
        invariant
            len == pattern@.len(),
            16 <= i <= len,
            r@ =~= be_bytes(ts as nat, 16) + pattern@.subrange(16, i as int),
        decreases len - i,
    {
        r.push(pattern[i]);
        proof {
            assert(r@ =~= be_bytes(ts as nat, 16) + pattern@.subrange(16, i + 1));
        }
        i = i + 1;
    }
    proof {
        assert(pattern@.subrange(16, len as int) =~= pattern@.skip(16));
    }
    r
}

/// Whether two payloads differ anywhere past the 16-byte timestamp prefix:
/// the corruption signal for a reply held against the pattern its sequence
/// number selects.
pub fn pattern_mismatch(expected: &Vec<u8>, got: &Vec<u8>) -> (r: bool)
    requires
        expected@.len() >= 16,
        got@.len() >= 16,
    ensures
        r == (expected@.skip(16) != got@.skip(16)),
{
    let elen: usize = expected.len();
    let glen: usize = got.len();
    if elen != glen {
        proof {
            assert(expected@.skip(16).len() != got@.skip(16).len());
        }
        return true;
    }
    let mut i: usize = 16;
    while i < elen
        invariant
            elen == expected@.len() == got@.len() == glen,
            16 <= i <= elen,
            forall|j: int| 16 <= j < i ==> expected@[j] == got@[j],
        decreases elen - i,
    {
        if expected[i] != got[i] {
            proof {
                assert(expected@.skip(16)[i - 16] != got@.skip(16)[i - 16]);
            }
            return true;
        }
        i = i + 1;
    }
    proof {
        assert(expected@.skip(16) =~= got@.skip(16));
    }
    false
}

} // verus!
