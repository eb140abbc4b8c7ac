//! Packets and the addresses they come from or go to.
use vstd::prelude::*;

verus! {

/// The contents of one UDP packet.
#[derive(Debug, PartialEq, Eq)]
pub struct Packet {
    pub data: Vec<u8>,
}

/// An IPv4 address and a port.
#[derive(Clone, Copy, Debug, PartialEq, Eq)]
pub struct SocketAddrV4 {
    pub ip: [u8; 4],
    pub port: u16,
}

/// An IPv6 address and a port, with the flow information and the scope of the address.
#[derive(Clone, Copy, Debug, PartialEq, Eq)]
pub struct SocketAddrV6 {
    pub ip: [u8; 16],
    pub port: u16,
    pub flowinfo: u32,
    pub scope_id: u32,
}

/// The remote end of a packet.
#[derive(Clone, Copy, Debug, PartialEq, Eq)]
pub enum SocketAddr {
    V4(SocketAddrV4),
    V6(SocketAddrV6),
}

/// The two kinds of address, which never share a batch.
#[derive(Clone, Copy, Debug, PartialEq, Eq)]
pub enum Family {
    V4,
    V6,
}

/// A packet with the remote end it comes from or goes to.
pub type Datagram = (Packet, SocketAddr);

impl SocketAddr {
    /// The family of this address.
    pub open spec fn family(self) -> Family {
        match self {
            SocketAddr::V4(..) => Family::V4,
            SocketAddr::V6(..) => Family::V6,
        }
    }
}

/// Every packet of `datagrams` has an address of `family`.
pub open spec fn all_of_family(datagrams: Seq<Datagram>, family: Family) -> bool {
    match family {
        Family::V4 => forall|i: int| 0 <= i < datagrams.len() ==> (#[trigger] datagrams[i]).1 is V4,
        Family::V6 => forall|i: int| 0 <= i < datagrams.len() ==> (#[trigger] datagrams[i]).1 is V6,
    }
}

/// An address has the family of its variant, whatever it holds.
pub proof fn law_family_is_the_variant(addr: SocketAddr)
    ensures
        addr.family() is V4 <==> addr is V4,
        addr.family() is V6 <==> addr is V6,
{
}

} // verus!
