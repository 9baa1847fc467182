//! The `Network` value type — an IPv4 address plus a prefix length — and
//! its derived properties: netmask, wildcard, broadcast, usable host
//! count, address class, and the classful default prefix.

use crate::masks::{mask_of, subnet_mask, wildcard_of, lemma_wildcard_value};
use vstd::arithmetic::power2::{lemma2_to64, lemma_pow2_strictly_increases, pow2};
use vstd::prelude::*;

verus! {

/// An IPv4 network: a 32-bit address and a prefix length.
///
/// Two networks are equal exactly when both fields are equal; host bits
/// beyond the prefix boundary are kept as supplied, never canonicalized.
#[derive(Debug, Clone, Copy, PartialEq, Eq, Structural)]
pub struct Network {
    /// The address, as a 32-bit value (the first octet is the top byte).
    pub ip: u32,
    /// The number of leading network bits, in [0, 32].
    pub prefix: u32,
}

/// The class letter of an address, determined by its first octet:
/// 0–127 'A', 128–191 'B', 192–223 'C', 224–239 'D', 240–255 'E'.
pub open spec fn class_of(ip: u32) -> char {
    let o = ip >> 24u32;
    if o <= 127 {
        'A'
    } else if o <= 191 {
        'B'
    } else if o <= 223 {
        'C'
    } else if o <= 239 {
        'D'
    } else {
        'E'
    }
}

/// The classful default prefix length of an address: /8 for class A,
/// /16 for class B, and /24 otherwise (classes C, D and E alike).
pub open spec fn default_prefix_of(ip: u32) -> u32 {
    let o = ip >> 24u32;
    if o <= 127 {
        8u32
    } else if o <= 191 {
        16u32
    } else {
        24u32
    }
}

/// The usable host count for a prefix length: `2^(32 - p) - 2`, the two
/// lost addresses being the network and broadcast addresses. For /31 and
/// /32 no usable hosts remain and the count is clamped to zero.
pub open spec fn hosts_of(p: u32) -> u32
    recommends
        p <= 32,
{
    if p >= 31 {
        0u32
    } else {
        (pow2((32 - p) as nat) - 2) as u32
    }
}

/// The classful default prefix length of an address (see
/// [`default_prefix_of`]).
pub fn default_mask(ip: u32) -> (r: u32)
    ensures
        r == default_prefix_of(ip),
        r <= 32,
{
    let first_octet = ip >> 24;
    if first_octet <= 127 {
        8
    } else if first_octet <= 191 {
        16
    } else {
        24
    }
}

impl Network {
    /// A network is well formed when its prefix length is at most 32.
    pub open spec fn wf(self) -> bool {
        self.prefix <= 32
    }

    /// The broadcast address: the address with every host bit set.
    pub open spec fn broadcast_of(self) -> u32
        recommends
            self.wf(),
    {
        self.ip | wildcard_of(self.prefix)
    }

    pub fn new(ip: u32, prefix: u32) -> (r: Network)
        requires
            prefix <= 32,
        ensures
            r == (Network { ip, prefix }),
    {
        Network { ip, prefix }
    }

    /// The netmask of this network, as a 32-bit value.
    pub fn netmask_address(&self) -> (r: u32)
        requires
            self.wf(),
        ensures
            r == mask_of(self.prefix),
    {
        subnet_mask(self.prefix)
    }

    /// The wildcard mask of this network, as a 32-bit value.
    pub fn wildcard_address(&self) -> (r: u32)
        requires
            self.wf(),
        ensures
            r == wildcard_of(self.prefix),
    {
        !subnet_mask(self.prefix)
    }

    /// The broadcast address of this network, as a 32-bit value.
    pub fn broadcast_address(&self) -> (r: u32)
        requires
            self.wf(),
        ensures
            r == self.broadcast_of(),
    {
        let wildcard = !subnet_mask(self.prefix);
        self.ip | wildcard
    }

    /// The class letter of this network's address (see [`class_of`]).
    pub fn ip_class(&self) -> (r: char)
        ensures
            r == class_of(self.ip),
    {
        let first_octet = self.ip >> 24;
        if first_octet <= 127 {
            'A'
        } else if first_octet <= 191 {
            'B'
        } else if first_octet <= 223 {
            'C'
        } else if first_octet <= 239 {
            'D'
        } else {
            'E'
        }
    }

    /// The number of usable host addresses in this network (see
    /// [`hosts_of`]): `2^(32 - prefix) - 2`, clamped to zero for /31
    /// and /32, where no usable hosts remain.
    pub fn available_hosts(&self) -> (r: u32)
        requires
            self.wf(),
        ensures
            r == hosts_of(self.prefix),
    {
        if self.prefix >= 31 {
            0
        } else {
            let wildcard = !subnet_mask(self.prefix);
            proof {
                lemma_wildcard_value(self.prefix);
                lemma2_to64();
                lemma_pow2_strictly_increases(1, (32 - self.prefix) as nat);
            }
            wildcard - 1
        }
    }

    /// The classful default prefix length of an address (see
    /// [`default_prefix_of`]).
    pub fn default_mask(ip: u32) -> (r: u32)
        ensures
            r == default_prefix_of(ip),
            r <= 32,
    {
        default_mask(ip)
    }

    /// The netmask for a prefix length in [0, 32] (see
    /// [`crate::masks::subnet_mask`]).
    pub fn mask_to_u32(mask: u32) -> (r: u32)
        requires
            mask <= 32,
        ensures
            r == mask_of(mask),
    {
        subnet_mask(mask)
    }
}

/// Law: masking a network's address down to its network bits and then
/// setting every host bit yields exactly the network's broadcast address,
/// for every well-formed network.
pub proof fn lemma_broadcast_round_trip(n: Network)
    requires
        n.wf(),
    ensures
        (n.ip & mask_of(n.prefix)) | wildcard_of(n.prefix) == n.broadcast_of(),
{
    let a = n.ip;
    let m = mask_of(n.prefix);
    assert((a & m) | !m == a | !m) by (bit_vector);
}

} // verus!
