//! Big-endian byte encodings of unsigned integers: the 128-bit send timestamp
//! embedded at the front of every probe payload, and the 16-bit identifier and
//! sequence fields of the ICMP header.

use vstd::arithmetic::div_mod::{lemma_div_denominator, lemma_fundamental_div_mod};
use vstd::prelude::*;

verus! {

/// 256 raised to the power n.
pub open spec fn pow256(n: nat) -> nat
    decreases n,
{
    if n == 0 {
        1
    } else {
        256 * pow256((n - 1) as nat)
    }
}

/// The n-byte big-endian encoding of x (of x mod 256^n, when x is larger).
pub open spec fn be_bytes(x: nat, n: nat) -> Seq<u8>
    decreases n,
{
    if n == 0 {
        Seq::empty()
    } else {
        be_bytes(x / 256, (n - 1) as nat).push((x % 256) as u8)
    }
}

/// The value of a big-endian byte string.
pub open spec fn be_value(s: Seq<u8>) -> nat
    decreases s.len(),
{
    if s.len() == 0 {
        0
    } else {
        be_value(s.drop_last()) * 256 + s.last() as nat
    }
}

pub proof fn lemma_pow256_positive(n: nat)
    ensures
        pow256(n) >= 1,
    decreases n,
{
    if n > 0 {
        lemma_pow256_positive((n - 1) as nat);
    }
}

/// 256^15 fits a u128; 256^16 is one more than the largest u128.
pub proof fn lemma_pow256_16()
    ensures
        pow256(15) == 0x1000000000000000000000000000000,
        pow256(16) == 0x100000000000000000000000000000000,
{
    assert(pow256(0) == 0x1);
    assert(pow256(1) == 0x100);
    assert(pow256(2) == 0x10000);
    assert(pow256(3) == 0x1000000);
    assert(pow256(4) == 0x100000000);
    assert(pow256(5) == 0x10000000000);
    assert(pow256(6) == 0x1000000000000);
    assert(pow256(7) == 0x100000000000000);
    assert(pow256(8) == 0x10000000000000000);
    assert(pow256(9) == 0x1000000000000000000);
    assert(pow256(10) == 0x100000000000000000000);
    assert(pow256(11) == 0x10000000000000000000000);
    assert(pow256(12) == 0x1000000000000000000000000);
    assert(pow256(13) == 0x100000000000000000000000000);
    assert(pow256(14) == 0x10000000000000000000000000000);
    assert(pow256(15) == 0x1000000000000000000000000000000);
    assert(pow256(16) == 0x100000000000000000000000000000000);
}

/// An encoding of length n has n bytes.
pub proof fn lemma_be_bytes_len(x: nat, n: nat)
    ensures
        be_bytes(x, n).len() == n,
    decreases n,
{
    if n > 0 {
        lemma_be_bytes_len(x / 256, (n - 1) as nat);
    }
}

/// Byte i of the encoding holds the (n-1-i)-th base-256 digit of x.
pub proof fn lemma_be_bytes_index(x: nat, n: nat, i: int)
    requires
        0 <= i < n,
    ensures
        be_bytes(x, n).len() == n,
        be_bytes(x, n)[i] == ((x / pow256((n - 1 - i) as nat)) % 256) as u8,
    decreases n,
{
    lemma_be_bytes_len(x, n);
    if i == n - 1 {
        assert(pow256(0) == 1);
        assert(x / 1 == x);
    } else {
        lemma_be_bytes_index(x / 256, (n - 1) as nat, i);
        let p = pow256((n - 2 - i) as nat);
        lemma_pow256_positive((n - 2 - i) as nat);
        lemma_div_denominator(x as int, 256, p as int);
        assert(256 * p == pow256((n - 1 - i) as nat));
    }
}

/// Decoding inverts encoding for values that fit in n bytes.
pub proof fn lemma_be_round_trip(x: nat, n: nat)
    requires
        x < pow256(n),
    ensures
        be_value(be_bytes(x, n)) == x,
    decreases n,
{
    if n == 0 {
        assert(x == 0);
    } else {
        let s = be_bytes(x, n);
        let rest = be_bytes(x / 256, (n - 1) as nat);
        assert(s.drop_last() =~= rest);
        lemma_pow256_positive((n - 1) as nat);
        assert(x / 256 < pow256((n - 1) as nat)) by {
            lemma_div_denominator(x as int, 256, pow256((n - 1) as nat) as int);
            assert(256 * pow256((n - 1) as nat) == pow256(n));
            assert(x as int / 256 / (pow256((n - 1) as nat) as int) == x as int / (pow256(
                n,
            ) as int));
        }
        lemma_be_round_trip(x / 256, (n - 1) as nat);
        lemma_fundamental_div_mod(x as int, 256);
    }
}

/// Appending one byte multiplies the decoded value by 256 and adds the byte.
pub proof fn lemma_be_value_push(s: Seq<u8>, b: u8)
    ensures
        be_value(s.push(b)) == be_value(s) * 256 + b,
{
    assert(s.push(b).drop_last() =~= s);
}

/// 256^i, computed for exponents whose value fits a u128.
pub fn pow256_u128(n: usize) -> (r: u128)
    requires
        n <= 15,
    ensures
        r == pow256(n as nat),
{
    let mut r: u128 = 1;
    let mut i: usize = 0;
    proof {
        lemma_pow256_16();
    }
    while i < n
        invariant
            i <= n <= 15,
            r == pow256(i as nat),
        decreases n - i,
    {
        proof {
            lemma_pow256_monotonic(i as nat + 1, 15);
            lemma_pow256_16();
            assert(256 * pow256(i as nat) == pow256(i as nat + 1));
        }
        r = r * 256;
        i = i + 1;
    }
    r
}

pub proof fn lemma_pow256_monotonic(a: nat, b: nat)
    requires
        a <= b,
    ensures
        pow256(a) <= pow256(b),
    decreases b,
{
    if a < b {
        lemma_pow256_monotonic(a, (b - 1) as nat);
        lemma_pow256_positive((b - 1) as nat);
    }
}

/// The 16-byte big-endian encoding of a 128-bit value.
pub fn u128_to_be_bytes(x: u128) -> (r: Vec<u8>)
    ensures
        r@ == be_bytes(x as nat, 16),
{
    let mut r: Vec<u8> = Vec::new();
    let mut p: u128 = pow256_u128(15);
    let mut j: usize = 0;
    proof {
        lemma_be_bytes_len(x as nat, 16);
    }
    while j < 16
        invariant
            j <= 16,
            j < 16 ==> p == pow256((15 - j) as nat),
            r@ =~= be_bytes(x as nat, 16).take(j as int),
        decreases 16 - j,
    {
        proof {
            lemma_be_bytes_index(x as nat, 16, j as int);
            lemma_pow256_positive((15 - j) as nat);
        }
        let byte: u8 = ((x / p) % 256) as u8;
        r.push(byte);
        assert(r@ =~= be_bytes(x as nat, 16).take(j + 1));
        if j < 15 {
            proof {
                assert(pow256((15 - j) as nat) == 256 * pow256((14 - j) as nat));
                lemma_pow256_positive((14 - j) as nat);
                lemma_div_denominator(pow256((15 - j) as nat) as int, 256, 1);
            }
            assert(p / 256 == pow256((14 - j) as nat)) by {
                assert(p == 256 * pow256((14 - j) as nat));
                assert(256 * pow256((14 - j) as nat) / 256 == pow256((14 - j) as nat)) by {
                    lemma_div_multiple_256(pow256((14 - j) as nat) as int);
                }
            }
            p = p / 256;
        }
        j = j + 1;
    }
    proof {
        assert(r@ =~= be_bytes(x as nat, 16));
    }
    r
}

proof fn lemma_div_multiple_256(k: int)
    requires
        k >= 0,
    ensures
        (256 * k) / 256 == k,
{
    lemma_fundamental_div_mod(256 * k, 256);
    vstd::arithmetic::div_mod::lemma_mod_multiples_basic(k, 256);
}

/// Reads the 16-byte big-endian value stored at `start`.
pub fn read_u128_be(buf: &Vec<u8>, start: usize) -> (r: u128)
    requires
        start + 16 <= buf@.len(),
    ensures
        r as nat == be_value(buf@.subrange(start as int, start as int + 16)),
{
    let len: usize = buf.len();
    let mut acc: u128 = 0;
    let mut i: usize = 0;
    proof {
        lemma_pow256_16();
    }
    while i < 16
        invariant
            i <= 16,
            start + 16 <= len == buf@.len(),
            acc as nat == be_value(buf@.subrange(start as int, start as int + i)),
            acc < pow256(i as nat),
        decreases 16 - i,
    {
        let ghost pre = buf@.subrange(start as int, start as int + i);
        proof {
            lemma_pow256_monotonic(i as nat + 1, 16);
            lemma_pow256_16();
            lemma_be_value_push(pre, buf@[start + i]);
            assert(buf@.subrange(start as int, start as int + i + 1) =~= pre.push(
                buf@[start + i],
            ));
        }
        acc = acc * 256 + (buf[start + i] as u128);
        i = i + 1;
    }
    proof {
        assert(buf@.subrange(start as int, start as int + 16) =~= buf@.subrange(
            start as int,
            start as int + i,
        ));
    }
    acc
}

/// Reads the 2-byte big-endian value stored at `start`.
pub fn read_u16_be(buf: &Vec<u8>, start: usize) -> (r: u16)
    requires
        start + 2 <= buf@.len(),
    ensures
        r as nat == be_value(buf@.subrange(start as int, start as int + 2)),
{
    let len: usize = buf.len();
    assert(start + 2 <= len);
    let hi = buf[start];
    let lo = buf[start + 1];
    proof {
        let s = buf@.subrange(start as int, start as int + 2);
        let s1 = s.drop_last();
        assert(s1.drop_last() =~= Seq::<u8>::empty());
        assert(be_value(s1.drop_last()) == 0);
        assert(s1.last() == hi);
        assert(be_value(s1) == hi as nat);
        assert(s.last() == lo);
        assert(be_value(s) == hi as nat * 256 + lo as nat);
    }
    (hi as u16) * 256 + (lo as u16)
}

/// The 2-byte big-endian encoding of a 16-bit value.
pub fn u16_to_be_bytes(x: u16) -> (r: (u8, u8))
    ensures
        seq![r.0, r.1] == be_bytes(x as nat, 2),
        be_value(seq![r.0, r.1]) == x,
{
    proof {
        lemma_be_bytes_len(x as nat, 2);
        lemma_be_bytes_index(x as nat, 2, 0);
        lemma_be_bytes_index(x as nat, 2, 1);
        assert(pow256(1) == 256);
        assert(pow256(0) == 1);
        assert(x / 1 == x as int);
        assert(seq![((x as nat / 256) % 256) as u8, (x as nat % 256) as u8] =~= be_bytes(
            x as nat,
            2,
        ));
        assert(pow256(2) == 0x1_0000);
        lemma_be_round_trip(x as nat, 2);
        assert((x as nat / 256) % 256 == x as nat / 256) by {
            vstd::arithmetic::div_mod::lemma_basic_div((x as int) / 256, 256);
        }
    }
    ((x / 256) as u8, (x % 256) as u8)
}

} // verus!
