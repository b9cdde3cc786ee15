//! Source addresses as plain values.
use vstd::prelude::*;

verus! {

/// The IP address a client connected from.
///
/// An IPv4 address is its four octets read as one big-endian number, an IPv6
/// address its sixteen. The two families never compare equal.
#[derive(Clone, Copy, Debug, PartialEq, Eq, Structural)]
pub enum SourceIp {
    V4(u32),
    V6(u128),
}

} // verus!
