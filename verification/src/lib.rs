//! IPv4 subnet calculations: netmasks, wildcards, broadcast addresses,
//! host counts, address classes, CIDR parsing, route aggregation, and a
//! solver that derives a subnet mask from required subnet and host counts.
//!
//! Every executable function carries a contract that pins its result down
//! over a small mathematical model (bit-level spec functions and character
//! sequences); the library itself performs no I/O and never panics on
//! inputs its contracts admit.

pub mod aggregate;
pub mod dotted;
pub mod errors;
pub mod masks;
pub mod network;
pub mod parse;
pub mod solver;
