//! Entries of the routing table.

use vstd::prelude::*;
use crate::aux::LinkID;

verus! {

/// The number of hops to a peer.
pub type RoutingCost = u32;

/// How to reach a peer: the link to send on, and the number of hops.
#[derive(Debug, Clone, Copy, PartialEq, Eq, Structural, Hash, PartialOrd, Ord)]
pub struct RoutingEntry {
    pub next_hop: LinkID,
    pub routing_cost: RoutingCost,
}

impl RoutingEntry {
    pub fn new(next_hop: LinkID, routing_cost: RoutingCost) -> (entry: Self)
        ensures
            entry == (RoutingEntry { next_hop, routing_cost }),
    {
        Self { next_hop, routing_cost }
    }
}

} // verus!
