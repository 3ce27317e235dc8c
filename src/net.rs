//! What the transport hands to the codec: raw datagram bytes and the peer they came from.

use vstd::prelude::*;

verus! {

/// A socket address as plain values: the IP octets and the port, with the IPv6 flow
/// information and scope identifier.
#[derive(Clone, Copy, Debug, PartialEq, Eq)]
pub enum PeerAddr {
    V4 { octets: [u8; 4], port: u16 },
    V6 { octets: [u8; 16], port: u16, flowinfo: u32, scope_id: u32 },
}

/// A raw datagram and the address of the peer it came from or goes to.
#[derive(Clone, Debug)]
pub struct NetworkMessage {
    pub buffer: Vec<u8>,
    pub peer: PeerAddr,
}

} // verus!
