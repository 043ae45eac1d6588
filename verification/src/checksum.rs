//! The ICMP checksum: the ones' complement of the end-around-carry sum of the
//! packet's big-endian 16-bit words, an odd trailing byte padded with zero.
//! The packet's own checksum field must hold zero while the sum is taken.

use vstd::arithmetic::div_mod::lemma_fundamental_div_mod;
use vstd::prelude::*;

verus! {

/// The plain sum of the big-endian 16-bit words of a byte string, an odd
/// trailing byte standing for the high half of a final word.
pub open spec fn words_sum(s: Seq<u8>) -> nat
    decreases s.len(),
{
    if s.len() == 0 {
        0
    } else if s.len() == 1 {
        s[0] as nat * 256
    } else {
        s[0] as nat * 256 + s[1] as nat + words_sum(s.skip(2))
    }
}

/// End-around carry: folds the upper half of a sum back into the lower 16
/// bits until the sum fits.
pub open spec fn fold16(x: nat) -> nat
    decreases x,
{
    if x <= 0xFFFF {
        x
    } else {
        fold16(x / 0x10000 + x % 0x10000)
    }
}

/// The checksum of an ICMP packet whose checksum field holds zero.
pub open spec fn icmp_checksum(s: Seq<u8>) -> u16 {
    (0xFFFF - fold16(words_sum(s))) as u16
}

/// The folded sum fits 16 bits.
pub proof fn lemma_fold16_bound(x: nat)
    ensures
        fold16(x) <= 0xFFFF,
    decreases x,
{
    if x > 0xFFFF {
        lemma_fold16_step(x);
        lemma_fold16_bound((x / 0x10000 + x % 0x10000) as nat);
    }
}

/// One end-around-carry step strictly shrinks a sum that does not yet fit.
proof fn lemma_fold16_step(x: nat)
    requires
        x > 0xFFFF,
    ensures
        x / 0x10000 + x % 0x10000 < x,
{
    lemma_fundamental_div_mod(x as int, 0x10000);
    let q = x as int / 0x10000;
    assert(q >= 1) by {
        vstd::arithmetic::div_mod::lemma_div_non_zero(x as int, 0x10000);
    }
    assert(x == 0x10000 * q + x % 0x10000);
    assert(0x10000 * q > q) by (nonlinear_arith)
        requires
            q >= 1,
    ;
}

/// The word sum of a byte string, bounded by its length.
pub proof fn lemma_words_sum_bound(s: Seq<u8>)
    ensures
        words_sum(s) <= s.len() * 0x10000,
    decreases s.len(),
{
    if s.len() >= 2 {
        lemma_words_sum_bound(s.skip(2));
        assert(s.len() * 0x10000 == (s.len() - 2) * 0x10000 + 2 * 0x10000) by (nonlinear_arith);
    }
}

/// The sum over the first i bytes grows by one word (or one padded byte) at a
/// time: the tail view of the word sum.
pub open spec fn words_sum_from(s: Seq<u8>, i: int) -> nat
    decreases s.len() - i when 0 <= i <= s.len()
{
    if i >= s.len() {
        0
    } else if i == s.len() - 1 {
        s[i] as nat * 256
    } else {
        s[i] as nat * 256 + s[i + 1] as nat + words_sum_from(s, i + 2)
    }
}

proof fn lemma_words_sum_from_eq(s: Seq<u8>, i: int)
    requires
        0 <= i <= s.len(),
    ensures
        words_sum_from(s, i) == words_sum(s.skip(i)),
    decreases s.len() - i,
{
    let t = s.skip(i);
    if i >= s.len() {
        assert(t.len() == 0);
    } else if i == s.len() - 1 {
        assert(t.len() == 1);
        assert(t[0] == s[i]);
    } else {
        assert(t[0] == s[i]);
        assert(t[1] == s[i + 1]);
        lemma_words_sum_from_eq(s, i + 2);
        assert(t.skip(2) =~= s.skip(i + 2));
    }
}

proof fn lemma_words_sum_from_bound(s: Seq<u8>, i: int)
    requires
        0 <= i <= s.len(),
    ensures
        words_sum_from(s, i) <= (s.len() - i) * 0x10000,
    decreases s.len() - i,
{
    if i < s.len() - 1 {
        lemma_words_sum_from_bound(s, i + 2);
        assert((s.len() - i) * 0x10000 == (s.len() - i - 2) * 0x10000 + 2 * 0x10000)
            by (nonlinear_arith);
    } else if i == s.len() - 1 {
        assert((s.len() - i) * 0x10000 == 0x10000);
    }
}

/// The ICMP checksum of the bytes in `buf`, whose checksum field (or the
/// whole of it) must hold zero where the real packet carries the checksum.
pub fn checksum(buf: &Vec<u8>) -> (c: u16)
    requires
        buf@.len() <= 0xFFFF,
    ensures
        c == icmp_checksum(buf@),
{
    let len: usize = buf.len();
    let ghost s = buf@;
    let mut sum: u64 = 0;
    let mut i: usize = 0;
    proof {
        lemma_words_sum_from_eq(s, 0);
        assert(s.skip(0) =~= s);
    }
    while i + 1 < len
        invariant
            s == buf@,
            len == s.len() <= 0xFFFF,
            i <= len,
            i % 2 == 0,
            sum + words_sum_from(s, i as int) == words_sum(s),
            sum <= words_sum(s),
        decreases len - i,
    {
        proof {
            lemma_words_sum_bound(s);
            assert(s.len() * 0x10000 <= 0xFFFF * 0x10000);
            lemma_words_sum_from_bound(s, i as int);
        }
        sum = sum + (buf[i] as u64) * 256 + (buf[i + 1] as u64);
        i = i + 2;
    }
    if i < len {
        proof {
            lemma_words_sum_bound(s);
            assert(s.len() * 0x10000 <= 0xFFFF * 0x10000);
        }
        sum = sum + (buf[i] as u64) * 256;
        proof {
            assert(words_sum_from(s, i as int) == s[i as int] as nat * 256);
        }
    }
    proof {
        assert(sum == words_sum(s));
    }
    let ghost total = words_sum(s);
    while sum > 0xFFFF
        invariant
            fold16(sum as nat) == fold16(total),
        decreases sum,
    {
        proof {
            lemma_fold16_step(sum as nat);
            lemma_fundamental_div_mod(sum as int, 0x10000);
        }
        sum = sum / 0x10000 + sum % 0x10000;
    }
    proof {
        assert(fold16(sum as nat) == sum as nat);
        lemma_fold16_bound(total);
    }
    0xFFFFu16 - (sum as u16)
}

} // verus!
