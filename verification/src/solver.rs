//! The mask solver: given a base prefix length and required subnet and
//! host counts, derive the prefix length that carves enough subnets of
//! sufficient size, and return its netmask.

use crate::errors::NetworkError;
use crate::masks::{mask_of, subnet_mask};
use crate::network::Network;
use vstd::arithmetic::power2::{
    lemma2_to64, lemma2_to64_rest, lemma_pow2_pos, lemma_pow2_strictly_increases, lemma_pow2_unfold,
    pow2,
};
use vstd::prelude::*;

verus! {

/// The ceiling of the base-2 logarithm of `n`: the smallest `k` with
/// `2^k >= n` (0 for `n <= 1`).
pub open spec fn clog2(n: nat) -> nat
    decreases n,
{
    if n <= 1 {
        0
    } else {
        1 + clog2((n + 1) / 2)
    }
}

/// What the mask solver returns. A zero count is rejected with
/// `InvalidHostsOrSubnets`. Otherwise `hb = clog2(hosts + 2)` host bits
/// are needed (the two extra addresses being network and broadcast) and
/// `sb = clog2(subnets)` subnet bits; if `base < hb` or `sb` exceeds the
/// `32 - base` remaining bits, the request is rejected with
/// `InsufficientBits`; else the result is the netmask for `base + sb`.
pub open spec fn solve_mask_spec(base: u32, subnets: u32, hosts: u32) -> Result<
    u32,
    NetworkError,
>
    recommends
        base <= 32,
{
    if hosts == 0 || subnets == 0 {
        Err(NetworkError::InvalidHostsOrSubnets)
    } else {
        let hb = clog2((hosts + 2) as nat);
        let sb = clog2(subnets as nat);
        if base < hb || sb > 32 - base {
            Err(NetworkError::InsufficientBits)
        } else {
            Ok(mask_of((base + sb) as u32))
        }
    }
}

proof fn lemma_clog2_unique(n: nat, k: nat)
    requires
        n >= 1,
        pow2(k) >= n,
        k == 0 || pow2((k - 1) as nat) < n,
    ensures
        k == clog2(n),
    decreases n,
{
    if n == 1 {
        if k >= 1 {
            lemma_pow2_pos((k - 1) as nat);
        }
    } else {
        let m = (n + 1) / 2;
        lemma2_to64();
        if k == 0 {
            assert(false);
        }
        lemma_pow2_unfold(k);
        if k >= 2 {
            lemma_pow2_unfold((k - 1) as nat);
        }
        lemma_clog2_unique(m, (k - 1) as nat);
    }
}

fn ceil_log2(n: u64) -> (r: u32)
    requires
        1 <= n <= 0x1_0000_0001,
    ensures
        r == clog2(n as nat),
        r <= 33,
{
    let mut bits: u32 = 0;
    let mut cap: u64 = 1;
    proof {
        lemma2_to64();
    }
    while cap < n
        invariant
            n <= 0x1_0000_0001,
            bits <= 33,
            cap >= 1,
            cap == pow2(bits as nat),
            bits > 0 ==> pow2((bits - 1) as nat) < n,
        decreases 34 - bits,
    {
        proof {
            lemma2_to64();
            lemma2_to64_rest();
            if bits as nat + 1 < 34 {
                lemma_pow2_strictly_increases(bits as nat, (bits + 1) as nat);
            }
            if bits >= 33 {
                // pow2(33) already exceeds every admissible n
                assert(false);
            }
            lemma_pow2_unfold((bits + 1) as nat);
        }
        cap = cap * 2;
        bits = bits + 1;
    }
    proof {
        lemma_clog2_unique(n as nat, bits as nat);
    }
    bits
}

impl Network {
    /// Derive the subnet mask that carves at least `required_subnets`
    /// subnets of at least `required_hosts` usable hosts each out of a
    /// network with prefix length `mask` (see [`solve_mask_spec`]).
    pub fn determine_subnet_mask(mask: u32, required_subnets: u32, required_hosts: u32) -> (r:
        Result<u32, NetworkError>)
        requires
            mask <= 32,
        ensures
            r == solve_mask_spec(mask, required_subnets, required_hosts),
    {
        if required_hosts == 0 || required_subnets == 0 {
            return Err(NetworkError::InvalidHostsOrSubnets);
        }
        let host_bits = ceil_log2(required_hosts as u64 + 2);
        let subnet_bits = ceil_log2(required_subnets as u64);
        if mask < host_bits || subnet_bits > 32 - mask {
            return Err(NetworkError::InsufficientBits);
        }
        Ok(subnet_mask(mask + subnet_bits))
    }
}

} // verus!
