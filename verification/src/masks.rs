//! Bit-level mask arithmetic on 32-bit addresses: building a netmask from
//! a prefix length, its wildcard complement, and the law that a prefix-`p`
//! netmask has exactly `p` bits set.

use vstd::arithmetic::power2::{lemma2_to64, lemma_pow2_strictly_increases, pow2};
use vstd::prelude::*;

verus! {

/// The netmask for a prefix length `p`: the top `p` of the 32 bits set,
/// the rest clear.
pub open spec fn mask_of(p: u32) -> u32
    recommends
        p <= 32,
{
    if p == 0 {
        0u32
    } else {
        0xFFFF_FFFFu32 << ((32 - p) as u32)
    }
}

/// The wildcard (host) mask for a prefix length: the complement of the
/// netmask, with exactly the low `32 - p` bits set.
pub open spec fn wildcard_of(p: u32) -> u32
    recommends
        p <= 32,
{
    !mask_of(p)
}

/// True when bit `i` (counting from the least significant end) of `x` is set.
pub open spec fn bit_set(x: u32, i: u32) -> bool
    recommends
        i < 32,
{
    ((x >> i) & 1u32) == 1u32
}

/// The number of set bits of `x` among bit positions `[0, n)`.
pub open spec fn count_bits_below(x: u32, n: int) -> int
    recommends
        n <= 32,
    decreases n,
{
    if n <= 0 {
        0
    } else {
        count_bits_below(x, n - 1) + if bit_set(x, (n - 1) as u32) {
            1int
        } else {
            0int
        }
    }
}

/// The number of set bits of a 32-bit value.
pub open spec fn popcount(x: u32) -> int {
    count_bits_below(x, 32)
}

/// The netmask for a prefix length in [0, 32].
///
/// The boundary cases are explicit: a `/0` mask is all-zero and a `/32`
/// mask is all-one; no shift by 32 is ever performed.
pub fn subnet_mask(bits: u32) -> (r: u32)
    requires
        bits <= 32,
    ensures
        r == mask_of(bits),
{
    if bits == 0 {
        0
    } else {
        0xFFFF_FFFFu32 << (32 - bits)
    }
}

/// Bit `i` of the netmask for prefix `p` is set exactly when `i` lies in
/// the top `p` positions, i.e. when `i >= 32 - p`.
pub proof fn lemma_mask_bit(p: u32, i: u32)
    requires
        p <= 32,
        i < 32,
    ensures
        bit_set(mask_of(p), i) <==> i >= 32 - p,
{
    if p == 0 {
        assert(((0u32 >> i) & 1u32) != 1u32) by (bit_vector);
    } else {
        let sh = (32 - p) as u32;
        assert(((((0xFFFF_FFFFu32 << sh) >> i) & 1u32) == 1u32) <==> i >= sh) by (bit_vector)
            requires
                sh < 32,
                i < 32,
        ;
    }
}

proof fn lemma_mask_count_bits(p: u32, n: int)
    requires
        p <= 32,
        0 <= n <= 32,
    ensures
        count_bits_below(mask_of(p), n) == if n <= 32 - p {
            0int
        } else {
            n - (32 - p)
        },
    decreases n,
{
    if n > 0 {
        lemma_mask_count_bits(p, n - 1);
        lemma_mask_bit(p, (n - 1) as u32);
    }
}

/// Law: for every prefix length `p` in [0, 32], the netmask for `p` has
/// exactly `p` bits set.
pub proof fn lemma_mask_popcount(p: u32)
    requires
        p <= 32,
    ensures
        popcount(mask_of(p)) == p,
{
    lemma_mask_count_bits(p, 32);
}

/// The wildcard mask for prefix `p` equals `2^(32 - p) - 1`.
pub proof fn lemma_wildcard_value(p: u32)
    requires
        p <= 32,
    ensures
        wildcard_of(p) == pow2((32 - p) as nat) - 1,
{
    lemma2_to64();
    if p == 0 {
        assert(!0u32 == 0xFFFF_FFFFu32) by (bit_vector);
    } else {
        let sh = (32 - p) as u32;
        assert(!(0xFFFF_FFFFu32 << sh) == (1u32 << sh) - 1) by (bit_vector)
            requires
                sh < 32,
        ;
        if sh > 0 {
            lemma_pow2_strictly_increases(sh as nat, 32);
        }
        vstd::bits::lemma_u32_shl_is_mul(1u32, sh);
    }
}

} // verus!
