//! Transport addresses.

use vstd::prelude::*;

verus! {

/// The address of a UDP socket. The address part is the big-endian value of its
/// bytes.
#[derive(Debug, Clone, Copy, PartialEq, Eq, Structural)]
pub enum SocketAddress {
    V4 { ip: u32, port: u16 },
    V6 { ip6: u128, port: u16, flowinfo: u32, scope_id: u32 },
}

/// An address as a key: version, address, port, flow and scope.
pub type AddrKey = (u8, u128, u16, u32, u32);

/// The key of an address.
pub open spec fn addr_key(a: SocketAddress) -> AddrKey {
    match a {
        SocketAddress::V4 { ip, port } => (4, ip as u128, port, 0, 0),
        SocketAddress::V6 { ip6, port, flowinfo, scope_id } => (6, ip6, port, flowinfo, scope_id),
    }
}

impl SocketAddress {
    pub fn key(&self) -> (r: AddrKey)
        ensures
            r == addr_key(*self),
    {
        match self {
            SocketAddress::V4 { ip, port } => (4, *ip as u128, *port, 0, 0),
            SocketAddress::V6 { ip6, port, flowinfo, scope_id } => (
                6,
                *ip6,
                *port,
                *flowinfo,
                *scope_id,
            ),
        }
    }

    pub fn port(&self) -> (r: u16)
        ensures
            r == addr_key(*self).2,
    {
        match self {
            SocketAddress::V4 { port, .. } => *port,
            SocketAddress::V6 { port, .. } => *port,
        }
    }
}

/// Different addresses have different keys.
pub proof fn lemma_addr_key_injective(a: SocketAddress, b: SocketAddress)
    ensures
        addr_key(a) == addr_key(b) ==> a == b,
{
}

} // verus!
