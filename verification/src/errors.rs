use vstd::prelude::*;

verus! {

/// The ways a subnet computation can fail.
///
/// Every fallible function of this crate reports exactly one of these
/// kinds; presentation of the kinds to a user is left to callers.
#[derive(Debug, Clone, Copy, PartialEq, Eq, Structural)]
pub enum NetworkError {
    /// The address portion of an input is not four dot-separated octets
    /// in 0..=255.
    InvalidIpFormat,
    /// A prefix portion is present but is not an integer in 0..=32.
    InvalidMaskFormat,
    /// Aggregation was invoked on an empty list of networks.
    EmptyNetworkList,
    /// The mask solver was invoked with a zero subnet or host count.
    InvalidHostsOrSubnets,
    /// The mask solver cannot satisfy the request within 32 bits.
    InsufficientBits,
}

} // verus!
