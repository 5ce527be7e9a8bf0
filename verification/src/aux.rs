//! Link and offer identifiers, and the state of a link under negotiation.

use vstd::prelude::*;
use vstd::string::*;
use crate::ice::ICE;
use crate::peer_id::PeerID;
use crate::text::{decimal, push_decimal};

verus! {

/// Identifies an offer that this node made (or is making) to open a link.
#[derive(Debug, Clone, Copy, PartialEq, Eq, Structural, Hash, PartialOrd, Ord)]
pub struct OfferID(pub i32);

/// Identifies a link (a channel to a neighbor) on this node.
#[derive(Debug, Clone, Copy, PartialEq, Eq, Structural, Hash, PartialOrd, Ord)]
pub struct LinkID(pub i32);

impl From<i32> for OfferID {
    fn from(item: i32) -> (id: OfferID) {
        OfferID(item)
    }
}

impl vstd::std_specs::convert::FromSpecImpl<i32> for OfferID {
    open spec fn obeys_from_spec() -> bool {
        true
    }

    open spec fn from_spec(item: i32) -> OfferID {
        OfferID(item)
    }
}

impl From<i32> for LinkID {
    fn from(item: i32) -> (id: LinkID) {
        LinkID(item)
    }
}

impl vstd::std_specs::convert::FromSpecImpl<i32> for LinkID {
    open spec fn obeys_from_spec() -> bool {
        true
    }

    open spec fn from_spec(item: i32) -> LinkID {
        LinkID(item)
    }
}

impl OfferID {
    /// The number inside the identifier.
    pub fn to_inner(&self) -> (inner: i32)
        ensures
            inner == self.0,
    {
        self.0
    }

    /// The identifier as `Display` writes it: its number in decimal.
    pub fn to_string(&self) -> (text: String)
        ensures
            text@ == decimal(self.0 as int),
    {
        let mut text = String::new();
        push_decimal(&mut text, self.0 as i64);
        text
    }
}

impl LinkID {
    /// The number inside the identifier.
    pub fn to_inner(&self) -> (inner: i32)
        ensures
            inner == self.0,
    {
        self.0
    }

    /// The identifier as `Display` writes it: its number in decimal.
    pub fn to_string(&self) -> (text: String)
        ensures
            text@ == decimal(self.0 as int),
    {
        let mut text = String::new();
        push_decimal(&mut text, self.0 as i64);
        text
    }
}

/// A link that this node is answering: the offer it answers, the answer once
/// the host has generated it, the ICE candidates gathered so far, and the peer
/// that asked for it (`None` when the user asked).
#[derive(Debug)]
pub struct Outgoing<Answer> {
    pub peer: Option<PeerID>,
    pub offer_id: OfferID,
    pub answer: Option<Answer>,
    pub ice: Vec<ICE>,
}

impl<Answer> Outgoing<Answer> {
    pub fn new(offer_id: OfferID, answer: Option<Answer>, ice: Vec<ICE>, peer: Option<PeerID>) -> (outgoing: Self)
        ensures
            outgoing.offer_id == offer_id,
            outgoing.answer == answer,
            outgoing.ice == ice,
            outgoing.peer == peer,
    {
        Self { offer_id, answer, ice, peer }
    }
}

/// A link that this node is offering: the offer once the host has generated
/// it, the ICE candidates gathered so far, and the peer the offer is for
/// (`None` when it is for the user).
#[derive(Debug)]
pub struct Incoming<Offer> {
    pub for_peer: Option<PeerID>,
    pub offer: Option<Offer>,
    pub ice: Vec<ICE>,
}

impl<Offer> Incoming<Offer> {
    pub fn new(offer: Option<Offer>, ice: Vec<ICE>, for_peer: Option<PeerID>) -> (incoming: Self)
        ensures
            incoming.offer == offer,
            incoming.ice == ice,
            incoming.for_peer == for_peer,
    {
        Self { offer, ice, for_peer }
    }
}

} // verus!
