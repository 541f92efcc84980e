//! The address of a peer.

use vstd::prelude::*;

verus! {

/// An internet socket address: where a peer listens.
#[allow(inconsistent_fields)]
#[derive(Debug, Clone, Copy, PartialEq, Eq, Structural)]
pub enum SocketAddress {
    /// An IPv4 address and a port.
    V4 { ip: u32, port: u16 },
    /// An IPv6 address and a port, with flow information and scope.
    V6 { ip: u128, port: u16, flowinfo: u32, scope_id: u32 },
}

/// A [`SocketAddress`] flattened into integers: whether it is an IPv6 address, the IP, the port,
/// the flow information and the scope.
pub type AddressKey = (bool, u128, u16, u32, u32);

impl SocketAddress {
    /// The key under which a table holds this address.
    pub open spec fn spec_key(self) -> AddressKey {
        match self {
            SocketAddress::V4 { ip, port } => (false, ip as u128, port, 0, 0),
            SocketAddress::V6 { ip, port, flowinfo, scope_id } => (
                true,
                ip,
                port,
                flowinfo,
                scope_id,
            ),
        }
    }

    /// The key under which a table holds this address.
    pub fn key(&self) -> (key: AddressKey)
        ensures
            key == self.spec_key(),
    {
        match self {
            SocketAddress::V4 { ip, port } => (false, *ip as u128, *port, 0, 0),
            SocketAddress::V6 { ip, port, flowinfo, scope_id } => (
                true,
                *ip,
                *port,
                *flowinfo,
                *scope_id,
            ),
        }
    }
}

/// Different addresses have different keys.
pub proof fn address_key_is_injective(a: SocketAddress, b: SocketAddress)
    ensures
        a.spec_key() == b.spec_key() ==> a == b,
{
}

} // verus!
