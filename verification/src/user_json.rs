//! A packet as the user writes it: a destination and a body.

use vstd::prelude::*;
use crate::packet::PacketBody;
use crate::peer_id::PeerID;

verus! {

/// A packet body addressed by the user to a peer.
#[derive(Debug)]
pub struct UserJSON<Answer, Offer> {
    pub destination: PeerID,
    pub packet_type: PacketBody<Answer, Offer>,
}

} // verus!
