//! Sockets and the classes of traffic that go out over them.

use vstd::prelude::*;

use crate::structure::locator::SocketAddr;
use crate::structure::sorted_map::SortKey;

verus! {

/// Names one of the sockets that messages are sent from: the one for unicast, or one of
/// those for multicast, of which there is one per interface.
#[derive(Clone, Copy, Debug, PartialEq, Eq, Structural, Hash, PartialOrd, Ord)]
pub enum SocketId {
    Unicast,
    Multicast(usize),
}

impl SortKey for SocketId {
    open spec fn rank(self) -> int {
        match self {
            SocketId::Unicast => 0,
            SocketId::Multicast(i) => i + 1,
        }
    }

    proof fn lemma_rank_injective(a: Self, b: Self) {
    }

    fn precedes(&self, other: &Self) -> (r: bool) {
        match (self, other) {
            (SocketId::Unicast, SocketId::Unicast) => false,
            (SocketId::Unicast, SocketId::Multicast(_)) => true,
            (SocketId::Multicast(_), SocketId::Unicast) => false,
            (SocketId::Multicast(i), SocketId::Multicast(j)) => *i < *j,
        }
    }
}

/// How a datagram is treated when a socket is congested.
#[derive(Clone, Copy, Debug, PartialEq, Eq, Structural, Hash)]
pub enum TrafficClass {
    /// It waits in a queue and is never dropped.
    Control,
    /// It is tried once; whoever sends it hears which sockets could not take it.
    Bulk,
}

/// What came of handing a datagram to a socket.
#[derive(Clone, Copy, Debug, PartialEq, Eq, Structural, Hash)]
pub enum SendOutcome {
    Sent,
    /// The socket cannot take it now.
    WouldBlock,
    /// The socket will not take it.
    Dropped,
}

/// A message to an address.
#[derive(Debug)]
pub struct Datagram {
    pub addr: SocketAddr,
    pub bytes: Vec<u8>,
}

} // verus!
