//! Routed packets: addressed from one peer to another and forwarded hop by
//! hop along the routing table.

use vstd::prelude::*;
use vstd::string::*;
use crate::aux::{LinkID, OfferID};
use crate::digest::{checksum, checksum_of, is_hex_digit};
use crate::direct_packet::{clone_peers, peers_debug, push_peers_debug};
use crate::ice::{ICE, IceView, ice_debug};
use crate::peer_id::PeerID;
use crate::text::{debug_list, debug_quoted, decimal, push_debug_list, push_decimal, str_debug};

verus! {

/// A packet addressed to a peer, with the checksum it was sealed with.
#[derive(Debug, PartialEq, Eq)]
pub struct Packet<Answer, Offer> {
    pub source: PeerID,
    pub destination: PeerID,
    pub body: PacketBody<Answer, Offer>,
    pub md5: String,
}

/// The body of a routed packet.
#[derive(Debug, PartialEq, Eq)]
pub enum PacketBody<Answer, Offer> {
    Answer { answer: Answer, offer_id: OfferID, ice: Vec<ICE> },
    Offer { offer: Offer, offer_id: OfferID, ice: Vec<ICE> },
    InvalidPacket,
    Goodbye,
    NewICE { link_id: LinkID, ice: ICE },
    RequestOffer,
    RequestTraceToMe,
    ReturnRouteTrace { trace: Vec<PeerID> },
}

/// The mathematical value of a packet body whose answers and offers are text.
pub enum PacketBodyView {
    Answer { answer: Seq<char>, offer_id: i32, ice: Seq<IceView> },
    Offer { offer: Seq<char>, offer_id: i32, ice: Seq<IceView> },
    InvalidPacket,
    Goodbye,
    NewICE { link_id: i32, ice: IceView },
    RequestOffer,
    RequestTraceToMe,
    ReturnRouteTrace { trace: Seq<Seq<char>> },
}

/// The mathematical value of a packet.
pub struct PacketView {
    pub source: Seq<char>,
    pub destination: Seq<char>,
    pub body: PacketBodyView,
    pub md5: Seq<char>,
}

impl View for PacketBody<String, String> {
    type V = PacketBodyView;

    open spec fn view(&self) -> PacketBodyView {
        match self {
            PacketBody::Answer { answer, offer_id, ice } => PacketBodyView::Answer {
                answer: answer@,
                offer_id: offer_id.0,
                ice: ice.deep_view(),
            },
            PacketBody::Offer { offer, offer_id, ice } => PacketBodyView::Offer {
                offer: offer@,
                offer_id: offer_id.0,
                ice: ice.deep_view(),
            },
            PacketBody::InvalidPacket => PacketBodyView::InvalidPacket,
            PacketBody::Goodbye => PacketBodyView::Goodbye,
            PacketBody::NewICE { link_id, ice } => PacketBodyView::NewICE {
                link_id: link_id.0,
                ice: ice@,
            },
            PacketBody::RequestOffer => PacketBodyView::RequestOffer,
            PacketBody::RequestTraceToMe => PacketBodyView::RequestTraceToMe,
            PacketBody::ReturnRouteTrace { trace } => PacketBodyView::ReturnRouteTrace {
                trace: trace.deep_view(),
            },
        }
    }
}

impl View for Packet<String, String> {
    type V = PacketView;

    open spec fn view(&self) -> PacketView {
        PacketView {
            source: self.source@,
            destination: self.destination@,
            body: self.body@,
            md5: self.md5@,
        }
    }
}

/// How `Debug` writes a list of ICE candidates.
pub open spec fn ices_debug(ice: Seq<IceView>) -> Seq<char> {
    debug_list(ice.map_values(|c: IceView| ice_debug(c)))
}

/// The canonical text of a body: the variant's name, then its fields
/// separated by `:`, answers, offers and lists by `Debug`, identifiers by
/// `Display`.
pub open spec fn body_canonical(body: PacketBodyView) -> Seq<char> {
    match body {
        PacketBodyView::Answer { answer, offer_id, ice } =>
            "Answer:"@ + str_debug(answer) + ":"@ + decimal(offer_id as int) + ":"@ + ices_debug(ice),
        PacketBodyView::Offer { offer, offer_id, ice } =>
            "Offer:"@ + str_debug(offer) + ":"@ + decimal(offer_id as int) + ":"@ + ices_debug(ice),
        PacketBodyView::InvalidPacket => "InvalidPacket"@,
        PacketBodyView::Goodbye => "Goodbye"@,
        PacketBodyView::NewICE { link_id, ice } =>
            "NewICE:"@ + decimal(link_id as int) + ":"@ + ice_debug(ice),
        PacketBodyView::RequestOffer => "RequestOffer"@,
        PacketBodyView::RequestTraceToMe => "RequestTraceToMe"@,
        PacketBodyView::ReturnRouteTrace { trace } => "ReturnRouteTrace:"@ + peers_debug(trace),
    }
}

/// The canonical text of a packet: `Packet:source:destination:` and the
/// body's canonical text as `Debug` writes a string.
pub open spec fn packet_canonical(source: Seq<char>, destination: Seq<char>, body: PacketBodyView) -> Seq<char> {
    "Packet:"@ + source + ":"@ + destination + ":"@ + str_debug(body_canonical(body))
}

/// The checksum that a packet from `source` to `destination` with this body
/// carries.
pub open spec fn packet_checksum(source: Seq<char>, destination: Seq<char>, body: PacketBodyView) -> Seq<char> {
    checksum_of(packet_canonical(source, destination, body))
}

/// The packet that `Packet::new` makes: the fields with their checksum.
pub open spec fn packet_of(source: Seq<char>, destination: Seq<char>, body: PacketBodyView) -> PacketView {
    PacketView { source, destination, body, md5: packet_checksum(source, destination, body) }
}

/// Whether a packet's checksum is the checksum of its fields.
pub open spec fn packet_verifies(packet: PacketView) -> bool {
    packet.md5 == packet_checksum(packet.source, packet.destination, packet.body)
}

/// Appends ICE candidates as `Debug` writes them.
pub fn push_ices_debug(out: &mut String, ice: &Vec<ICE>)
    ensures
        final(out)@ == old(out)@ + ices_debug(ice.deep_view()),
{
    let mut items: Vec<String> = Vec::new();
    let mut i: usize = 0;
    while i < ice.len()
        invariant
            i <= ice.len(),
            items@.len() == i,
            forall|j: int| 0 <= j < i ==> #[trigger] items@[j]@ == ice_debug(ice@[j]@),
        decreases ice.len() - i,
    {
        items.push(ice[i].debug_text());
        i = i + 1;
    }
    assert(items@.map_values(|s: String| s@) =~= ice.deep_view().map_values(
        |c: IceView| ice_debug(c),
    ));
    push_debug_list(out, &items);
}

/// Copies a list of ICE candidates.
pub fn clone_ices(ice: &Vec<ICE>) -> (copy: Vec<ICE>)
    ensures
        copy.deep_view() == ice.deep_view(),
{
    let mut copy: Vec<ICE> = Vec::new();
    let mut i: usize = 0;
    while i < ice.len()
        invariant
            i <= ice.len(),
            copy@.len() == i,
            forall|j: int| 0 <= j < i ==> #[trigger] copy@[j]@ == ice@[j]@,
        decreases ice.len() - i,
    {
        copy.push(ice[i].clone());
        i = i + 1;
    }
    assert forall|j: int| 0 <= j < ice@.len() implies copy.deep_view()[j] == ice.deep_view()[j] by {
        assert(copy@[j]@ == ice@[j]@);
    }
    assert(copy.deep_view() =~= ice.deep_view());
    copy
}

impl PacketBody<String, String> {
    /// The canonical text of the body.
    pub fn to_canonical_form(&self) -> (text: String)
        ensures
            text@ == body_canonical(self@),
    {
        let mut text = String::new();
        match self {
            PacketBody::Answer { answer, offer_id, ice } => {
                text.append("Answer:");
                let quoted = debug_quoted(answer.as_str());
                text.append(quoted.as_str());
                text.append(":");
                push_decimal(&mut text, offer_id.0 as i64);
                text.append(":");
                push_ices_debug(&mut text, ice);
            },
            PacketBody::Offer { offer, offer_id, ice } => {
                text.append("Offer:");
                let quoted = debug_quoted(offer.as_str());
                text.append(quoted.as_str());
                text.append(":");
                push_decimal(&mut text, offer_id.0 as i64);
                text.append(":");
                push_ices_debug(&mut text, ice);
            },
            PacketBody::InvalidPacket => {
                text.append("InvalidPacket");
            },
            PacketBody::Goodbye => {
                text.append("Goodbye");
            },
            PacketBody::NewICE { link_id, ice } => {
                text.append("NewICE:");
                push_decimal(&mut text, link_id.0 as i64);
                text.append(":");
                let candidate = ice.debug_text();
                text.append(candidate.as_str());
            },
            PacketBody::RequestOffer => {
                text.append("RequestOffer");
            },
            PacketBody::RequestTraceToMe => {
                text.append("RequestTraceToMe");
            },
            PacketBody::ReturnRouteTrace { trace } => {
                text.append("ReturnRouteTrace:");
                push_peers_debug(&mut text, trace);
            },
        }
        text
    }
}

/// The canonical text of a packet with these fields.
fn canonical_text(source: &PeerID, destination: &PeerID, body: &PacketBody<String, String>) -> (text: String)
    ensures
        text@ == packet_canonical(source@, destination@, body@),
{
    let mut text = String::new();
    text.append("Packet:");
    text.append(source.as_str());
    text.append(":");
    text.append(destination.as_str());
    text.append(":");
    let inner = body.to_canonical_form();
    let quoted = debug_quoted(inner.as_str());
    text.append(quoted.as_str());
    text
}

impl Packet<String, String> {
    /// Seals a packet: it carries the checksum of its fields.
    pub fn new(source: PeerID, destination: PeerID, body: PacketBody<String, String>) -> (packet: Self)
        ensures
            packet@ == packet_of(source@, destination@, body@),
    {
        let canonical_form = canonical_text(&source, &destination, &body);
        let md5 = checksum(canonical_form.as_str());
        Self { source, destination, body, md5 }
    }

    /// The canonical text of the packet, from which its checksum is computed.
    pub fn to_canonical_form(&self) -> (text: String)
        ensures
            text@ == packet_canonical(self.source@, self.destination@, self.body@),
    {
        canonical_text(&self.source, &self.destination, &self.body)
    }

    /// The checksum of the packet's fields.
    pub fn checksum(&self) -> (sum: String)
        ensures
            sum@ == packet_checksum(self.source@, self.destination@, self.body@),
            sum@.len() == 32,
            forall|i: int| 0 <= i < sum@.len() ==> is_hex_digit(#[trigger] sum@[i]),
    {
        let text = self.to_canonical_form();
        checksum(text.as_str())
    }

    /// Whether the packet's checksum matches its fields.
    pub fn varify(&self) -> (valid: bool)
        ensures
            valid == packet_verifies(self@),
            valid ==> self@.md5.len() == 32,
    {
        let sum = self.checksum();
        self.md5 == sum
    }
}

/// A sealed packet verifies, whatever its source, destination and body.
pub proof fn lemma_sealed_packet_verifies(source: Seq<char>, destination: Seq<char>, body: PacketBodyView)
    ensures
        packet_verifies(packet_of(source, destination, body)),
{
}

/// A packet whose checksum is not the one computed from its fields fails
/// verification.
pub proof fn lemma_tampered_packet_fails(packet: PacketView)
    requires
        packet.md5 != packet_checksum(packet.source, packet.destination, packet.body),
    ensures
        !packet_verifies(packet),
{
}

} // verus!
