//! IP addresses as plain numbers, and prefix arithmetic over them.

use vstd::prelude::*;

verus! {

/// An IPv4 or IPv6 address, held as its numeric value.
///
/// IPv4 addresses compare below every IPv6 address, and within one
/// family addresses compare by value.
#[derive(Debug, Clone, Copy, PartialEq, Eq, Hash, PartialOrd, Ord, Structural)]
pub enum IpAddress {
    V4(u32),
    V6(u128),
}

/// Number of address bits in the family of `addr`.
pub open spec fn family_bits(addr: IpAddress) -> nat {
    match addr {
        IpAddress::V4(_) => 32,
        IpAddress::V6(_) => 128,
    }
}

/// The address value, whatever its family.
pub open spec fn addr_value(addr: IpAddress) -> nat {
    match addr {
        IpAddress::V4(a) => a as nat,
        IpAddress::V6(a) => a as nat,
    }
}

impl IpAddress {
    /// Whether this is an IPv4 address.
    pub fn is_ipv4(&self) -> (r: bool)
        ensures
            r == (*self is V4),
    {
        match self {
            IpAddress::V4(_) => true,
            IpAddress::V6(_) => false,
        }
    }

    /// The maximum prefix length for this address's family.
    pub fn max_prefix_len(&self) -> (r: u8)
        ensures
            r == family_bits(*self),
    {
        match self {
            IpAddress::V4(_) => 32,
            IpAddress::V6(_) => 128,
        }
    }
}

} // verus!
