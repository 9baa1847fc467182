//! Route aggregation: the smallest single supernet covering a list of
//! networks, built from the bitwise AND of the masked addresses and the
//! length of the address prefix that all inputs share.

use crate::errors::NetworkError;
use crate::masks::{bit_set, mask_of, subnet_mask};
use crate::network::Network;
use vstd::prelude::*;

verus! {

/// A network's address with the host bits cleared.
pub open spec fn masked_ip(n: Network) -> u32
    recommends
        n.wf(),
{
    n.ip & mask_of(n.prefix)
}

/// The bitwise AND of the masked addresses of a list of networks
/// (all-ones for the empty list).
pub open spec fn and_masked(s: Seq<Network>) -> u32
    decreases s.len(),
{
    if s.len() == 0 {
        0xFFFF_FFFFu32
    } else {
        and_masked(s.drop_last()) & masked_ip(s.last())
    }
}

/// All networks in the list carry the same value as the first one at bit
/// position `b` of their raw (unmasked) address.
pub open spec fn agree_at(s: Seq<Network>, b: u32) -> bool
    recommends
        b < 32,
{
    forall|q: int|
        0 <= q < s.len() ==> bit_set(#[trigger] s[q].ip, b) == bit_set(s[0].ip, b)
}

/// The number of consecutive bit positions, scanning from bit `i` down
/// to bit 0, at which every network agrees with the first; the scan
/// stops at the first disagreement.
pub open spec fn agree_from(s: Seq<Network>, i: int) -> int
    recommends
        i < 32,
    decreases i + 1,
{
    if i < 0 {
        0
    } else if agree_at(s, i as u32) {
        1 + agree_from(s, i - 1)
    } else {
        0
    }
}

/// The shared prefix length of a list of networks: how many leading bits
/// of the raw addresses are identical across the whole list.
pub open spec fn common_bit_count(s: Seq<Network>) -> int {
    agree_from(s, 31)
}

/// The largest prefix length appearing in a list of networks.
pub open spec fn max_prefix(s: Seq<Network>) -> u32
    recommends
        s.len() >= 1,
    decreases s.len(),
{
    if s.len() <= 1 {
        s[0].prefix
    } else {
        let m = max_prefix(s.drop_last());
        if s.last().prefix > m {
            s.last().prefix
        } else {
            m
        }
    }
}

/// The prefix length of the aggregate: the shared prefix length, clamped
/// so the aggregate is never more specific than the widest input.
pub open spec fn aggregate_prefix(s: Seq<Network>) -> u32
    recommends
        s.len() >= 1,
{
    if common_bit_count(s) > max_prefix(s) {
        max_prefix(s)
    } else {
        common_bit_count(s) as u32
    }
}

/// What aggregation returns: the empty list is rejected, a single
/// network is returned unchanged, and two or more networks yield the
/// covering supernet.
pub open spec fn aggregate_spec(s: Seq<Network>) -> Result<Network, NetworkError> {
    if s.len() == 0 {
        Err(NetworkError::EmptyNetworkList)
    } else if s.len() == 1 {
        Ok(s[0])
    } else {
        let p = aggregate_prefix(s);
        Ok(Network { ip: and_masked(s) & mask_of(p), prefix: p })
    }
}

proof fn lemma_max_prefix_wf(s: Seq<Network>)
    requires
        s.len() >= 1,
        forall|q: int| 0 <= q < s.len() ==> (#[trigger] s[q]).wf(),
    ensures
        max_prefix(s) <= 32,
    decreases s.len(),
{
    if s.len() > 1 {
        lemma_max_prefix_wf(s.drop_last());
    }
}

fn bit_of(x: u32, b: u32) -> (r: u32)
    requires
        b < 32,
    ensures
        r == ((x >> b) & 1u32),
        (r == 1) == bit_set(x, b),
        r == 0 || r == 1,
{
    proof {
        assert(((x >> b) & 1u32) == 0 || ((x >> b) & 1u32) == 1) by (bit_vector);
    }
    (x >> b) & 1
}

fn all_agree_at(networks: &[Network], b: u32) -> (r: bool)
    requires
        networks@.len() >= 1,
        b < 32,
    ensures
        r == agree_at(networks@, b),
{
    let first = bit_of(networks[0].ip, b);
    let mut j: usize = 1;
    while j < networks.len()
        invariant
            1 <= j <= networks@.len(),
            b < 32,
            first == ((networks@[0].ip >> b) & 1u32),
            (first == 1) == bit_set(networks@[0].ip, b),
            first == 0 || first == 1,
            forall|q: int|
                0 <= q < j ==> bit_set(#[trigger] networks@[q].ip, b) == bit_set(
                    networks@[0].ip,
                    b,
                ),
        decreases networks@.len() - j,
    {
        let v = bit_of(networks[j].ip, b);
        if v != first {
            return false;
        }
        j += 1;
    }
    true
}

impl Network {
    /// The shared prefix length of a non-empty list of networks: the
    /// number of leading bit positions at which every raw address
    /// matches the first one (see [`common_bit_count`]).
    pub fn count_common_bits(networks: &[Network]) -> (r: u32)
        requires
            networks@.len() >= 1,
        ensures
            r == common_bit_count(networks@),
    {
        let mut count: u32 = 0;
        while count < 32
            invariant
                count <= 32,
                networks@.len() >= 1,
                common_bit_count(networks@) == count + agree_from(networks@, 31 - count),
            ensures
                count <= 32,
                common_bit_count(networks@) == count,
            decreases 32 - count,
        {
            let b = 31 - count;
            if !all_agree_at(networks, b) {
                break ;
            }
            count += 1;
        }
        count
    }

    /// Aggregate a list of networks into the smallest network covering
    /// them all (see [`aggregate_spec`]).
    ///
    /// The empty list is rejected with `EmptyNetworkList`; a single
    /// network is returned unchanged; otherwise the result's address is
    /// the bitwise AND of the masked input addresses, re-masked to the
    /// shared prefix length clamped at the largest input prefix.
    pub fn aggregate_networks(networks: &[Network]) -> (r: Result<Network, NetworkError>)
        requires
            forall|q: int| 0 <= q < networks@.len() ==> (#[trigger] networks@[q]).wf(),
        ensures
            r == aggregate_spec(networks@),
            r matches Ok(a) ==> a.wf(),
    {
        if networks.len() == 0 {
            return Err(NetworkError::EmptyNetworkList);
        }
        if networks.len() == 1 {
            return Ok(networks[0]);
        }
        let common = find_common_prefix(networks);
        let bits = Network::count_common_bits(networks);
        let widest = largest_prefix(networks);
        let clamped = if bits > widest {
            widest
        } else {
            bits
        };
        proof {
            lemma_max_prefix_wf(networks@);
        }
        Ok(Network { ip: common & subnet_mask(clamped), prefix: clamped })
    }
}

fn find_common_prefix(networks: &[Network]) -> (r: u32)
    requires
        forall|q: int| 0 <= q < networks@.len() ==> (#[trigger] networks@[q]).wf(),
    ensures
        r == and_masked(networks@),
{
    let mut acc: u32 = 0xFFFF_FFFF;
    let mut idx: usize = 0;
    while idx < networks.len()
        invariant
            idx <= networks@.len(),
            forall|q: int| 0 <= q < networks@.len() ==> (#[trigger] networks@[q]).wf(),
            acc == and_masked(networks@.take(idx as int)),
        decreases networks@.len() - idx,
    {
        let n = networks[idx];
        acc = acc & (n.ip & subnet_mask(n.prefix));
        proof {
            assert(networks@.take(idx + 1).drop_last() =~= networks@.take(idx as int));
            assert(networks@.take(idx + 1).last() == networks@[idx as int]);
        }
        idx += 1;
    }
    proof {
        assert(networks@.take(networks@.len() as int) =~= networks@);
    }
    acc
}

fn largest_prefix(networks: &[Network]) -> (r: u32)
    requires
        networks@.len() >= 1,
    ensures
        r == max_prefix(networks@),
{
    let mut cur: u32 = networks[0].prefix;
    let mut idx: usize = 1;
    proof {
        assert(networks@.take(1).len() == 1);
        assert(networks@.take(1)[0] == networks@[0]);
    }
    while idx < networks.len()
        invariant
            1 <= idx <= networks@.len(),
            cur == max_prefix(networks@.take(idx as int)),
        decreases networks@.len() - idx,
    {
        let p = networks[idx].prefix;
        proof {
            assert(networks@.take(idx + 1).drop_last() =~= networks@.take(idx as int));
            assert(networks@.take(idx + 1).last() == networks@[idx as int]);
        }
        if p > cur {
            cur = p;
        }
        idx += 1;
    }
    proof {
        assert(networks@.take(networks@.len() as int) =~= networks@);
    }
    cur
}

/// Law: aggregation is idempotent — whenever a list of networks
/// aggregates to some network, aggregating the one-element list holding
/// that result returns it unchanged.
pub proof fn lemma_aggregate_idempotent(s: Seq<Network>, a: Network)
    requires
        aggregate_spec(s) == Ok::<Network, NetworkError>(a),
    ensures
        aggregate_spec(seq![a]) == Ok::<Network, NetworkError>(a),
{
    assert(seq![a].len() == 1);
    assert(seq![a][0] == a);
}

} // verus!
