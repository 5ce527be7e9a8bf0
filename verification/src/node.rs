//! The overlay node: link negotiation, packet handling and routing.

use vstd::prelude::*;
use vstd::string::*;
use std::collections::HashMap;
use std::collections::VecDeque;
use crate::aux::{Incoming, LinkID, OfferID, Outgoing};
use crate::command::{Command, CommandView};
use crate::direct_packet::{DirectBody, DirectBodyView, DirectPacket, DirectPacketView, direct_packet_of, direct_packet_verifies};
use crate::ice::{ICE, IceView};
use crate::packet::{Packet, PacketBody, PacketBodyView, PacketView, clone_ices, packet_of};
use crate::peer_id::PeerID;
use crate::peer_map::{PeerMap, assoc_insert, assoc_remove, distinct_keys, drop_value, has_key, keys_of, lookup};
use crate::perigee::Perigee;
use crate::routing_entry::{RoutingCost, RoutingEntry};

verus! {

broadcast use vstd::std_specs::hash::group_hash_axioms;

/// How many neighbors a node tries to have.
pub const IDEAL_NUMBER_OF_NEIGHBORS: usize = 8;

/// What is known of an open link: the protocol each side speaks on it, and
/// whether the routing information that follows the greeting was sent.
#[derive(Debug)]
pub struct LinkInfo {
    pub protocal_in: Option<String>,
    pub protocal_out: Option<String>,
    pub post_init_greeting: bool,
}

/// The mathematical value of a `LinkInfo`.
pub struct LinkInfoView {
    pub protocal_in: Option<Seq<char>>,
    pub protocal_out: Option<Seq<char>>,
    pub post_init_greeting: bool,
}

/// An optional string by its text.
pub open spec fn opt_text(s: Option<String>) -> Option<Seq<char>> {
    match s {
        Some(t) => Some(t@),
        None => None,
    }
}

/// An optional peer by its name.
pub open spec fn opt_peer(p: Option<PeerID>) -> Option<Seq<char>> {
    match p {
        Some(t) => Some(t@),
        None => None,
    }
}

impl View for LinkInfo {
    type V = LinkInfoView;

    open spec fn view(&self) -> LinkInfoView {
        LinkInfoView {
            protocal_in: opt_text(self.protocal_in),
            protocal_out: opt_text(self.protocal_out),
            post_init_greeting: self.post_init_greeting,
        }
    }
}

impl LinkInfo {
    pub fn new() -> (info: Self)
        ensures
            info@ == (LinkInfoView { protocal_in: None, protocal_out: None, post_init_greeting: false }),
    {
        Self { protocal_in: None, protocal_out: None, post_init_greeting: false }
    }
}

/// The mathematical value of an offer under negotiation.
pub struct IncomingView {
    pub for_peer: Option<Seq<char>>,
    pub offer: Option<Seq<char>>,
    pub ice: Seq<IceView>,
}

/// The mathematical value of an answer under negotiation.
pub struct OutgoingView {
    pub peer: Option<Seq<char>>,
    pub offer_id: i32,
    pub answer: Option<Seq<char>>,
    pub ice: Seq<IceView>,
}

impl View for Incoming<String> {
    type V = IncomingView;

    open spec fn view(&self) -> IncomingView {
        IncomingView { for_peer: opt_peer(self.for_peer), offer: opt_text(self.offer), ice: self.ice.deep_view() }
    }
}

impl View for Outgoing<String> {
    type V = OutgoingView;

    open spec fn view(&self) -> OutgoingView {
        OutgoingView {
            peer: opt_peer(self.peer),
            offer_id: self.offer_id.0,
            answer: opt_text(self.answer),
            ice: self.ice.deep_view(),
        }
    }
}

/// A random draw of peers that the node asks its host for: the candidates,
/// in order, and how many of them to pick.
#[derive(Debug)]
pub struct PeerDraw {
    pub candidates: Vec<PeerID>,
    pub count: usize,
}

/// The mathematical value of a node.
pub struct NodeView {
    pub queue: Seq<CommandView>,
    pub my_id: Seq<char>,
    pub neighbors: Seq<(Seq<char>, LinkID)>,
    pub routing: Seq<(Seq<char>, RoutingEntry)>,
    pub counter: i32,
    pub incoming: Map<i32, IncomingView>,
    pub outgoing: Map<i32, OutgoingView>,
    pub link_info: Map<i32, LinkInfoView>,
    pub keepers: Seq<Seq<char>>,
    pub draw: Option<(Seq<Seq<char>>, nat)>,
}

/// A node of the overlay.
#[derive(Debug)]
pub struct Node<Answer, Offer> {
    pub command_queue: VecDeque<Command<Answer, Offer>>,
    pub my_id: PeerID,
    neighbors: PeerMap<LinkID>,
    routing_table: PeerMap<RoutingEntry>,
    link_id_generator_state: i32,
    incoming: HashMap<i32, Incoming<Offer>>,
    outgoing: HashMap<i32, Outgoing<Answer>>,
    link_info: HashMap<i32, LinkInfo>,
    perigee: Perigee,
    peer_draw: Option<PeerDraw>,
    seed: u64,
}

impl View for Node<String, String> {
    type V = NodeView;

    closed spec fn view(&self) -> NodeView {
        NodeView {
            queue: self.command_queue@.map_values(|c: Command<String, String>| c@),
            my_id: self.my_id@,
            neighbors: self.neighbors@,
            routing: self.routing_table@,
            counter: self.link_id_generator_state,
            incoming: self.incoming@.map_values(|i: Incoming<String>| i@),
            outgoing: self.outgoing@.map_values(|o: Outgoing<String>| o@),
            link_info: self.link_info@.map_values(|l: LinkInfo| l@),
            keepers: self.perigee@.keepers,
            draw: match self.peer_draw {
                Some(d) => Some((d.candidates.deep_view(), d.count as nat)),
                None => None,
            },
        }
    }
}

// ---------------------------------------------------------------------------
// What the node does, over its mathematical value.
// ---------------------------------------------------------------------------

/// `n` with `c` appended to its command queue.
pub open spec fn push_cmd(n: NodeView, c: CommandView) -> NodeView {
    NodeView { queue: n.queue.push(c), ..n }
}

/// The link on which a packet for `peer` leaves: link 0 for the user, the
/// link of a neighbor, or the next hop of the routing table.
pub open spec fn next_hop(n: NodeView, peer: Seq<char>) -> Option<i32> {
    if peer == "User"@ {
        Some(0)
    } else {
        match lookup(n.neighbors, peer) {
            Some(link) => Some(link.0),
            None => match lookup(n.routing, peer) {
                Some(entry) => Some(entry.next_hop.0),
                None => None,
            },
        }
    }
}

/// Sends a sealed direct packet with `body` on `link`.
pub open spec fn send_direct(n: NodeView, link: i32, body: DirectBodyView) -> NodeView {
    push_cmd(n, CommandView::SendDirect { link_id: link, packet: direct_packet_of(body) })
}

/// Sends a packet from this node to `destination` on its next hop; nothing
/// is sent when there is no route.
pub open spec fn send_to(n: NodeView, destination: Seq<char>, body: PacketBodyView) -> NodeView {
    match next_hop(n, destination) {
        Some(link) => push_cmd(n, CommandView::Send { link_id: link, packet: packet_of(n.my_id, destination, body) }),
        None => n,
    }
}

/// One `SendDirect` of `packet` per neighbor, in order, skipping neighbors on
/// the excluded link.
pub open spec fn broadcast_cmds(
    neighbors: Seq<(Seq<char>, LinkID)>,
    exclude: Option<i32>,
    packet: DirectPacketView,
) -> Seq<CommandView>
    decreases neighbors.len(),
{
    if neighbors.len() == 0 {
        Seq::empty()
    } else {
        let rest = broadcast_cmds(neighbors.drop_last(), exclude, packet);
        let link = neighbors.last().1.0;
        if exclude == Some(link) {
            rest
        } else {
            rest.push(CommandView::SendDirect { link_id: link, packet })
        }
    }
}

/// Sends a sealed direct packet with `body` to every neighbor except those on
/// the excluded link.
pub open spec fn broadcast(n: NodeView, exclude: Option<i32>, body: DirectBodyView) -> NodeView {
    NodeView { queue: n.queue + broadcast_cmds(n.neighbors, exclude, direct_packet_of(body)), ..n }
}

/// The versions this node announces in its greeting.
pub open spec fn supported_versions() -> Seq<Seq<char>> {
    seq!["Rust:0.1"@]
}

/// Whether another link or offer identifier can be allocated.
pub open spec fn can_allocate(n: NodeView) -> bool {
    n.counter < i32::MAX
}

/// The next identifier the node allocates.
pub open spec fn next_id(n: NodeView) -> i32 {
    (n.counter + 1) as i32
}

/// Starts an offer for `for_peer` (or the user): a fresh identifier names
/// both the offer and its link, an empty offer is recorded, and the host is
/// asked to generate it.
pub open spec fn generate_offer(n: NodeView, for_peer: Option<Seq<char>>) -> NodeView {
    let id = next_id(n);
    NodeView {
        counter: id,
        incoming: n.incoming.insert(id, IncomingView { for_peer, offer: None, ice: Seq::empty() }),
        queue: n.queue.push(CommandView::GenerateOffer(id)),
        ..n
    }
}

/// Answers an offer: a fresh link identifier, an empty answer recorded for
/// it, and the host asked to generate the answer.
pub open spec fn receive_offer(n: NodeView, offer: Seq<char>, offer_id: i32, peer: Option<Seq<char>>) -> NodeView {
    let id = next_id(n);
    NodeView {
        counter: id,
        outgoing: n.outgoing.insert(id, OutgoingView { peer, offer_id, answer: None, ice: Seq::empty() }),
        queue: n.queue.push(CommandView::GenerateAnswer { link_id: id, offer }),
        ..n
    }
}

/// A link opened: its negotiation records are dropped, its link
/// information starts empty, and the node greets the other side.
pub open spec fn link_established(n: NodeView, link: i32) -> NodeView {
    let m = NodeView {
        incoming: n.incoming.remove(link),
        outgoing: n.outgoing.remove(link),
        link_info: n.link_info.insert(
            link,
            LinkInfoView { protocal_in: None, protocal_out: None, post_init_greeting: false },
        ),
        ..n
    };
    send_direct(m, link, DirectBodyView::Greetings { me: n.my_id, supported_versions: supported_versions() })
}

/// The host generated the answer for `link`: it is recorded, and sent to the
/// peer that asked for it, or handed to the user. Nothing happens when the
/// link is not being answered.
pub open spec fn on_answer_generated(n: NodeView, link: i32, answer: Seq<char>) -> NodeView {
    if !n.outgoing.contains_key(link) {
        n
    } else {
        let o = n.outgoing[link];
        let m = NodeView { outgoing: n.outgoing.insert(link, OutgoingView { answer: Some(answer), ..o }), ..n };
        match o.peer {
            None => push_cmd(m, CommandView::UserAnswer { link_id: link, answer }),
            Some(peer) => send_to(m, peer, PacketBodyView::Answer { answer, offer_id: o.offer_id, ice: o.ice }),
        }
    }
}

/// The host generated the offer for `link`: it is recorded, and sent to the
/// peer it is for, or handed to the user. Nothing happens when no offer is
/// being made on the link.
pub open spec fn on_offer_generated(n: NodeView, link: i32, offer: Seq<char>) -> NodeView {
    if !n.incoming.contains_key(link) {
        n
    } else {
        let i = n.incoming[link];
        let m = NodeView { incoming: n.incoming.insert(link, IncomingView { offer: Some(offer), ..i }), ..n };
        match i.for_peer {
            Some(peer) => send_to(m, peer, PacketBodyView::Offer { offer, offer_id: link, ice: i.ice }),
            None => push_cmd(m, CommandView::UserOffer { link_id: link, offer }),
        }
    }
}

/// A new ICE candidate for `link` is added to the offer made on it, or else
/// to the answer made on it; it is dropped when neither exists.
pub open spec fn add_ice(n: NodeView, link: i32, ice: IceView) -> NodeView {
    if n.incoming.contains_key(link) {
        let i = n.incoming[link];
        NodeView { incoming: n.incoming.insert(link, IncomingView { ice: i.ice.push(ice), ..i }), ..n }
    } else if n.outgoing.contains_key(link) {
        let o = n.outgoing[link];
        NodeView { outgoing: n.outgoing.insert(link, OutgoingView { ice: o.ice.push(ice), ..o }), ..n }
    } else {
        n
    }
}

/// Whether the node wants to keep its link to `peer`: always while Perigee
/// recommends fewer than the ideal number of neighbors, otherwise when Perigee
/// recommends `peer`.
pub open spec fn is_keeper(keepers: Seq<Seq<char>>, peer: Seq<char>) -> bool {
    keepers.len() < IDEAL_NUMBER_OF_NEIGHBORS || keepers.contains(peer)
}

/// One `DearJohn` per neighbor that the node does not want to keep, in order.
pub open spec fn dear_john_cmds(neighbors: Seq<(Seq<char>, LinkID)>, keepers: Seq<Seq<char>>) -> Seq<CommandView>
    decreases neighbors.len(),
{
    if neighbors.len() == 0 {
        Seq::empty()
    } else {
        let rest = dear_john_cmds(neighbors.drop_last(), keepers);
        let (peer, link) = neighbors.last();
        if is_keeper(keepers, peer) {
            rest
        } else {
            rest.push(CommandView::SendDirect { link_id: link.0, packet: direct_packet_of(DirectBodyView::DearJohn) })
        }
    }
}

/// The peers that the routing table knows and that are not neighbors, in the
/// routing table's order.
pub open spec fn available_peers(routing: Seq<(Seq<char>, RoutingEntry)>, neighbors: Seq<(Seq<char>, LinkID)>) -> Seq<Seq<char>>
    decreases routing.len(),
{
    if routing.len() == 0 {
        Seq::empty()
    } else {
        let rest = available_peers(routing.drop_last(), neighbors);
        if has_key(neighbors, routing.last().0) {
            rest
        } else {
            rest.push(routing.last().0)
        }
    }
}

/// How many new neighbors the node looks for when it has `have` of them and
/// knows `available` other peers.
pub open spec fn wanted_neighbors(have: nat, available: nat) -> nat {
    if have > IDEAL_NUMBER_OF_NEIGHBORS {
        0
    } else {
        let room = (IDEAL_NUMBER_OF_NEIGHBORS - have) as nat;
        if room < available { room } else { available }
    }
}

/// Re-evaluates the neighbors: Perigee re-ranks them, neighbors that are not
/// worth keeping are told `DearJohn`, and when the node has no more than the
/// ideal number of neighbors it asks for a random draw of as many of the
/// other known peers as it has room for (and as there are); the draw is
/// cleared when there is nothing to draw.
pub open spec fn eval_neighbors(n: NodeView) -> NodeView {
    let keepers = Seq::<Seq<char>>::empty();
    let available = available_peers(n.routing, n.neighbors);
    let count = wanted_neighbors(n.neighbors.len(), available.len());
    NodeView {
        keepers,
        queue: n.queue + dear_john_cmds(n.neighbors, keepers),
        draw: if count > 0 { Some((available, count)) } else { None },
        ..n
    }
}

/// Asks peers drawn from `candidates` for offers: each pick chooses the
/// candidate at its value modulo the number left, which is removed, until
/// `count` peers are drawn or the picks run out.
pub open spec fn draw_requests(n: NodeView, candidates: Seq<Seq<char>>, count: nat, picks: Seq<u32>) -> NodeView
    decreases picks.len(),
{
    if count == 0 || picks.len() == 0 || candidates.len() == 0 {
        n
    } else {
        let index = picks[0] as int % candidates.len() as int;
        draw_requests(
            send_to(n, candidates[index], PacketBodyView::RequestOffer),
            candidates.remove(index),
            (count - 1) as nat,
            picks.drop_first(),
        )
    }
}

/// Completes the pending draw with the host's random `picks`.
pub open spec fn complete_peer_draw(n: NodeView, picks: Seq<u32>) -> NodeView {
    match n.draw {
        Some((candidates, count)) => draw_requests(NodeView { draw: None, ..n }, candidates, count, picks),
        None => n,
    }
}

/// The peers that the routing table reaches through `link`, in the table's
/// order.
pub open spec fn routed_through(routing: Seq<(Seq<char>, RoutingEntry)>, link: i32) -> Seq<Seq<char>>
    decreases routing.len(),
{
    if routing.len() == 0 {
        Seq::empty()
    } else {
        let rest = routed_through(routing.drop_last(), link);
        if routing.last().1.next_hop.0 == link {
            rest.push(routing.last().0)
        } else {
            rest
        }
    }
}

/// Forgets the route to each peer of `lost`, in order, and tells every
/// neighbor that the route to it is lost.
pub open spec fn forget_routes(n: NodeView, lost: Seq<Seq<char>>) -> NodeView
    decreases lost.len(),
{
    if lost.len() == 0 {
        n
    } else {
        forget_routes(
            broadcast(NodeView { routing: assoc_remove(n.routing, lost[0]), ..n }, None, DirectBodyView::LostRouteTo { peer: lost[0] }),
            lost.drop_first(),
        )
    }
}

/// A link closed: the neighbors on it are forgotten, as are its negotiation
/// records and link information; as on any link failure, every route through
/// the link is forgotten and the remaining neighbors are told that each of
/// those peers is lost; then the neighbors are re-evaluated.
pub open spec fn link_closed(n: NodeView, link: i32) -> NodeView {
    eval_neighbors(forget_routes(
        NodeView {
            neighbors: drop_value(n.neighbors, LinkID(link)),
            incoming: n.incoming.remove(link),
            outgoing: n.outgoing.remove(link),
            link_info: n.link_info.remove(link),
            ..n
        },
        routed_through(n.routing, link),
    ))
}

/// The routing entry through `link` for a peer announced at `cost`.
pub open spec fn route_via(link: i32, cost: RoutingCost) -> RoutingEntry {
    RoutingEntry { next_hop: LinkID(link), routing_cost: (cost + 1) as RoutingCost }
}

/// One step of Bellman-Ford relaxation for an announcement `(peer, cost)`
/// received on `link`: a route to this node itself is ignored; a peer not in
/// the table, or one whose route through `link` (at `cost + 1`) is better
/// than its current route, is routed through `link` at `cost + 1`; a peer
/// announced at a higher distance on the link it is routed through gets a
/// route trace, since its distance grew.
pub open spec fn relax(n: NodeView, link: i32, entry: (Seq<char>, RoutingCost)) -> NodeView {
    let (peer, cost) = entry;
    if peer == n.my_id {
        n
    } else {
        match lookup(n.routing, peer) {
            Some(current) => if cost + 1 < current.routing_cost {
                NodeView { routing: assoc_insert(n.routing, peer, route_via(link, cost)), ..n }
            } else if cost >= current.routing_cost && link == current.next_hop.0 {
                send_direct(
                    n,
                    link,
                    DirectBodyView::RouteTraceFromOriginatorToTarget { target: peer, trace: seq![n.my_id] },
                )
            } else {
                n
            },
            None => NodeView { routing: assoc_insert(n.routing, peer, route_via(link, cost)), ..n },
        }
    }
}

/// Whether relaxing `entry` computes `cost + 1` without overflow: only a peer
/// new to the table at the highest cost overflows.
pub open spec fn relax_step_fits(n: NodeView, entry: (Seq<char>, RoutingCost)) -> bool {
    let (peer, cost) = entry;
    ||| peer == n.my_id
    ||| cost < RoutingCost::MAX
    ||| lookup(n.routing, peer) is Some
}

/// The announcements relaxed one after the other.
pub open spec fn relax_all(n: NodeView, link: i32, entries: Seq<(Seq<char>, RoutingCost)>) -> NodeView
    decreases entries.len(),
{
    if entries.len() == 0 {
        n
    } else {
        relax_all(relax(n, link, entries[0]), link, entries.drop_first())
    }
}

/// Whether every step of `relax_all` fits.
pub open spec fn relax_all_fits(n: NodeView, link: i32, entries: Seq<(Seq<char>, RoutingCost)>) -> bool
    decreases entries.len(),
{
    if entries.len() == 0 {
        true
    } else {
        relax_step_fits(n, entries[0]) && relax_all_fits(relax(n, link, entries[0]), link, entries.drop_first())
    }
}

/// Routing information arrived on `link`: every announcement is relaxed in
/// order, then the neighbors are re-evaluated.
pub open spec fn update_routing_table(n: NodeView, link: i32, entries: Seq<(Seq<char>, RoutingCost)>) -> NodeView {
    eval_neighbors(relax_all(n, link, entries))
}

/// Keeps every peer.
pub open spec fn all_peers() -> spec_fn(Seq<char>) -> bool {
    |p: Seq<char>| true
}

/// Keeps only `peer`.
pub open spec fn only_peer(peer: Seq<char>) -> spec_fn(Seq<char>) -> bool {
    |p: Seq<char>| p == peer
}

/// Keeps every peer but `peer`.
pub open spec fn except_peer(peer: Seq<char>) -> spec_fn(Seq<char>) -> bool {
    |p: Seq<char>| p != peer
}

/// `all_peers` without a peer; `only_peer` or `except_peer` with one.
pub open spec fn selector(peer: Option<Seq<char>>, only: bool) -> spec_fn(Seq<char>) -> bool {
    match peer {
        None => all_peers(),
        Some(t) => if only { only_peer(t) } else { except_peer(t) },
    }
}

/// The routing table's entries as announcements `(peer, cost)`, in order,
/// keeping those whose peer satisfies `keep`.
pub open spec fn announcements(routing: Seq<(Seq<char>, RoutingEntry)>, keep: spec_fn(Seq<char>) -> bool) -> Seq<(Seq<char>, RoutingCost)>
    decreases routing.len(),
{
    if routing.len() == 0 {
        Seq::empty()
    } else {
        let rest = announcements(routing.drop_last(), keep);
        if keep(routing.last().0) {
            rest.push((routing.last().0, routing.last().1.routing_cost))
        } else {
            rest
        }
    }
}

/// One `RoutingInformationExchange` per neighbor, in order, announcing every
/// route except the one to that neighbor.
pub open spec fn share_cmds(neighbors: Seq<(Seq<char>, LinkID)>, routing: Seq<(Seq<char>, RoutingEntry)>) -> Seq<CommandView>
    decreases neighbors.len(),
{
    if neighbors.len() == 0 {
        Seq::empty()
    } else {
        let (peer, link) = neighbors.last();
        share_cmds(neighbors.drop_last(), routing).push(CommandView::SendDirect {
            link_id: link.0,
            packet: direct_packet_of(DirectBodyView::RoutingInformationExchange {
                entries: announcements(routing, except_peer(peer)),
            }),
        })
    }
}

/// Every neighbor is told the routes the node knows, except its own.
pub open spec fn share_routing_info(n: NodeView) -> NodeView {
    NodeView { queue: n.queue + share_cmds(n.neighbors, n.routing), ..n }
}

/// A periodic tick: re-evaluate the neighbors, then share routing
/// information.
pub open spec fn tick(n: NodeView) -> NodeView {
    share_routing_info(eval_neighbors(n))
}

/// The first neighbor, in order, whose link is `link`.
pub open spec fn peer_on_link(neighbors: Seq<(Seq<char>, LinkID)>, link: i32) -> Option<Seq<char>>
    decreases neighbors.len(),
{
    if neighbors.len() == 0 {
        None
    } else if neighbors[0].1.0 == link {
        Some(neighbors[0].0)
    } else {
        peer_on_link(neighbors.drop_first(), link)
    }
}

/// The routing information sent on a link after the greetings: when the
/// peer on the link is known, only the route to that peer; otherwise every
/// route. Nothing is sent when there is nothing to announce.
pub open spec fn post_greeting(n: NodeView, link: i32) -> NodeView {
    let entries = match peer_on_link(n.neighbors, link) {
        Some(them) => announcements(n.routing, only_peer(them)),
        None => announcements(n.routing, all_peers()),
    };
    if entries.len() == 0 {
        n
    } else {
        send_direct(n, link, DirectBodyView::RoutingInformationExchange { entries })
    }
}

/// Whether the node cannot handle this body: receiving it verified stops the
/// node (these messages are not implemented).
pub open spec fn direct_body_unhandled(body: DirectBodyView) -> bool {
    ||| body is Goodbye
    ||| body is InvalidPacket
    ||| body is InvalidSalutation
    ||| body is UnknownVersion
}

/// What a verified direct packet arriving on `link` does.
pub open spec fn direct_body_step(n: NodeView, link: i32, body: DirectBodyView) -> NodeView {
    match body {
        DirectBodyView::DearJohn => match peer_on_link(n.neighbors, link) {
            Some(peer) => if !is_keeper(n.keepers, peer) {
                send_direct(n, link, DirectBodyView::Goodbye)
            } else {
                n
            },
            None => n,
        },
        DirectBodyView::DistanceIncrease { peer, trace } => if peer == n.my_id {
            n
        } else {
            match next_hop(n, peer) {
                Some(hop) => if link != hop {
                    n
                } else if trace.contains(n.my_id) {
                    broadcast(NodeView { routing: assoc_remove(n.routing, peer), ..n }, None, DirectBodyView::LostRouteTo { peer })
                } else {
                    let longer = trace.push(n.my_id);
                    let m = NodeView {
                        routing: assoc_insert(
                            n.routing,
                            peer,
                            RoutingEntry { next_hop: LinkID(hop), routing_cost: longer.len() as RoutingCost },
                        ),
                        ..n
                    };
                    broadcast(m, Some(link), DirectBodyView::DistanceIncrease { peer, trace: longer })
                },
                None => n,
            }
        },
        DirectBodyView::Greetings { me, supported_versions: versions } => if versions.contains("Rust:0.1"@) {
            if has_key(n.neighbors, me) {
                send_direct(n, link, DirectBodyView::NotYouAgain)
            } else {
                let info = if n.link_info.contains_key(link) {
                    n.link_info.insert(link, LinkInfoView { protocal_out: Some("Rust:0.1"@), ..n.link_info[link] })
                } else {
                    n.link_info
                };
                let m = NodeView {
                    link_info: info,
                    neighbors: assoc_insert(n.neighbors, me, LinkID(link)),
                    routing: assoc_insert(n.routing, me, RoutingEntry { next_hop: LinkID(link), routing_cost: 0 }),
                    ..n
                };
                send_direct(m, link, DirectBodyView::TellItToMeIn { version: "Rust:0.1"@ })
            }
        } else {
            send_direct(n, link, DirectBodyView::UnknownVersion)
        },
        DirectBodyView::LostRouteTo { peer } => match lookup(n.routing, peer) {
            Some(entry) => if entry.next_hop.0 == link {
                broadcast(n, None, DirectBodyView::LostRouteTo { peer })
            } else {
                send_direct(
                    n,
                    link,
                    DirectBodyView::RoutingInformationExchange { entries: seq![(peer, entry.routing_cost)] },
                )
            },
            None => n,
        },
        DirectBodyView::RouteTraceFromOriginatorToTarget { target, trace } => if trace.len() == 0 {
            n
        } else if n.my_id == target {
            send_to(n, trace[0], PacketBodyView::ReturnRouteTrace { trace })
        } else {
            match next_hop(n, target) {
                Some(hop) => send_direct(
                    n,
                    hop,
                    DirectBodyView::RouteTraceFromOriginatorToTarget { target, trace: trace.push(n.my_id) },
                ),
                None => n,
            }
        },
        DirectBodyView::RouteTraceToOriginatorFromTarget { originator, trace } => if trace.len() == 0
            || originator == n.my_id {
            n
        } else {
            match next_hop(n, originator) {
                Some(hop) => send_direct(
                    n,
                    hop,
                    DirectBodyView::RouteTraceToOriginatorFromTarget { originator, trace: trace.push(n.my_id) },
                ),
                None => n,
            }
        },
        DirectBodyView::RoutingInformationExchange { entries } => update_routing_table(n, link, entries),
        DirectBodyView::TellItToMeIn { version } => if n.link_info.contains_key(link) {
            NodeView {
                link_info: n.link_info.insert(link, LinkInfoView { protocal_out: Some(version), ..n.link_info[link] }),
                ..n
            }
        } else {
            n
        },
        DirectBodyView::Who => send_direct(n, link, DirectBodyView::Me { me: n.my_id }),
        _ => n,
    }
}

/// What a direct packet arriving on `link` does when its checksum is checked
/// first: a packet that fails verification is ignored.
pub open spec fn direct_step(n: NodeView, link: i32, packet: DirectPacketView) -> NodeView {
    if direct_packet_verifies(packet) {
        direct_body_step(n, link, packet.body)
    } else {
        n
    }
}

/// Whether handling `packet` on `link` stays within what the node handles and
/// within integer bounds.
pub open spec fn direct_step_ok(n: NodeView, link: i32, packet: DirectPacketView) -> bool {
    direct_packet_verifies(packet) ==> {
        &&& !direct_body_unhandled(packet.body)
        &&& (packet.body matches DirectBodyView::RoutingInformationExchange { entries } ==> relax_all_fits(n, link, entries))
    }
}

/// A direct packet arriving on `link`: it is handled when the link is open;
/// then, once the other side's protocol is known, the routing information
/// that follows the greetings is sent once.
pub open spec fn receive_direct(n: NodeView, link: i32, packet: DirectPacketView) -> NodeView {
    let m = if n.link_info.contains_key(link) { direct_step(n, link, packet) } else { n };
    if m.link_info.contains_key(link) && m.link_info[link].protocal_out is Some
        && !m.link_info[link].post_init_greeting {
        post_greeting(
            NodeView { link_info: m.link_info.insert(link, LinkInfoView { post_init_greeting: true, ..m.link_info[link] }), ..m },
            link,
        )
    } else {
        m
    }
}

/// One `AddICE` per candidate for `link`, in order.
pub open spec fn ice_cmds(link: i32, ice: Seq<IceView>) -> Seq<CommandView> {
    ice.map_values(|c: IceView| CommandView::AddICE { link_id: link, ice: c })
}

/// What a routed packet for this node does.
pub open spec fn packet_body_step(n: NodeView, link: i32, source: Seq<char>, body: PacketBodyView) -> NodeView {
    match body {
        PacketBodyView::Answer { answer, offer_id, ice } => NodeView {
            queue: n.queue.push(CommandView::AnswerOffer { link_id: offer_id, answer }) + ice_cmds(offer_id, ice),
            ..n
        },
        PacketBodyView::Offer { offer, offer_id, ice } => {
            let m = receive_offer(n, offer, offer_id, None);
            NodeView { queue: m.queue + ice_cmds(next_id(n), ice), ..m }
        },
        PacketBodyView::NewICE { link_id, ice } => if n.incoming.contains_key(link_id) {
            NodeView {
                incoming: n.incoming.insert(link_id, IncomingView { ice: n.incoming[link_id].ice.push(ice), ..n.incoming[link_id] }),
                ..n
            }
        } else {
            n
        },
        PacketBodyView::RequestOffer => generate_offer(n, Some(source)),
        PacketBodyView::RequestTraceToMe => match next_hop(n, source) {
            Some(hop) => send_direct(
                n,
                hop,
                DirectBodyView::RouteTraceToOriginatorFromTarget { originator: source, trace: seq![n.my_id] },
            ),
            None => n,
        },
        PacketBodyView::ReturnRouteTrace { trace } => if trace.len() < 2 || trace[0] != n.my_id {
            n
        } else {
            match next_hop(n, source) {
                Some(hop) => match peer_on_link(n.neighbors, hop) {
                    Some(first) => if first != trace[1] {
                        n
                    } else if trace.subrange(1, trace.len() as int).contains(n.my_id) {
                        broadcast(
                            NodeView { routing: assoc_remove(n.routing, source), ..n },
                            None,
                            DirectBodyView::LostRouteTo { peer: source },
                        )
                    } else {
                        broadcast(
                            NodeView {
                                routing: assoc_insert(
                                    n.routing,
                                    source,
                                    RoutingEntry { next_hop: LinkID(hop), routing_cost: ((trace.len() - 1) as RoutingCost + 1) as RoutingCost },
                                ),
                                ..n
                            },
                            Some(link),
                            DirectBodyView::DistanceIncrease { peer: source, trace },
                        )
                    },
                    None => n,
                },
                None => n,
            }
        },
        _ => n,
    }
}

/// What a routed packet arriving on `link` does: one for this node is
/// handled, any other is forwarded on its next hop (or dropped when there is
/// none).
pub open spec fn packet_step(n: NodeView, link: i32, packet: PacketView) -> NodeView {
    if packet.destination == n.my_id {
        packet_body_step(n, link, packet.source, packet.body)
    } else {
        match next_hop(n, packet.destination) {
            Some(hop) => push_cmd(n, CommandView::Send { link_id: hop, packet }),
            None => n,
        }
    }
}

/// Whether handling `packet` stays within what the node handles and within
/// integer bounds: the node does not handle `Goodbye`, allocating an
/// identifier needs one left, and a returned trace's length must fit a cost.
pub open spec fn packet_step_ok(n: NodeView, packet: PacketView) -> bool {
    packet.destination == n.my_id ==> {
        &&& !(packet.body is Goodbye)
        &&& (packet.body is Offer || packet.body is RequestOffer) ==> can_allocate(n)
        &&& (packet.body matches PacketBodyView::ReturnRouteTrace { trace } ==> trace.len() <= RoutingCost::MAX)
    }
}

/// A routed packet arriving on `link`: handled when the link is open,
/// ignored otherwise.
pub open spec fn receive_packet(n: NodeView, link: i32, packet: PacketView) -> NodeView {
    if n.link_info.contains_key(link) { packet_step(n, link, packet) } else { n }
}

/// Whether `peer` occurs in `trace` at or after position `from`.
fn trace_contains_from(trace: &Vec<PeerID>, from: usize, peer: &PeerID) -> (found: bool)
    requires
        from <= trace@.len(),
    ensures
        found == trace.deep_view().subrange(from as int, trace@.len() as int).contains(peer@),
{
    let ghost tail = trace.deep_view().subrange(from as int, trace@.len() as int);
    let mut i: usize = from;
    while i < trace.len()
        invariant
            from <= i <= trace@.len(),
            tail == trace.deep_view().subrange(from as int, trace@.len() as int),
            forall|j: int| from <= j < i ==> trace.deep_view()[j] != peer@,
        decreases trace@.len() - i,
    {
        if trace[i].same(peer) {
            assert(tail[i - from] == peer@);
            return true;
        }
        i = i + 1;
    }
    assert forall|k: int| 0 <= k < tail.len() implies tail[k] != peer@ by {
        assert(tail[k] == trace.deep_view()[k + from]);
    }
    false
}

/// Whether `text` is one of `strings`.
fn contains_text(strings: &Vec<String>, text: &String) -> (found: bool)
    ensures
        found == strings.deep_view().contains(text@),
{
    let mut i: usize = 0;
    while i < strings.len()
        invariant
            i <= strings@.len(),
            forall|j: int| 0 <= j < i ==> strings.deep_view()[j] != text@,
        decreases strings@.len() - i,
    {
        if strings[i] == *text {
            assert(strings.deep_view()[i as int] == text@);
            return true;
        }
        i = i + 1;
    }
    false
}

/// Whether announcement `i` names a peer announced earlier in the list.
pub open spec fn announced_before(entries: Seq<(Seq<char>, RoutingCost)>, i: int) -> bool {
    exists|j: int| 0 <= j < i && #[trigger] entries[j].0 == entries[i].0
}

/// Whether announcement `i` relaxes without overflow: it is below the
/// highest cost, or about this node, a peer in the table, or a peer announced
/// earlier in the list (and so in the table by then).
pub open spec fn announcement_fits(n: NodeView, entries: Seq<(Seq<char>, RoutingCost)>, i: int) -> bool {
    entries[i].1 == RoutingCost::MAX ==> {
        ||| entries[i].0 == n.my_id
        ||| has_key(n.routing, entries[i].0)
        ||| announced_before(entries, i)
    }
}

/// Whether every announcement relaxes without overflow.
pub open spec fn announcements_fit(n: NodeView, entries: Seq<(Seq<char>, RoutingCost)>) -> bool {
    forall|i: int| 0 <= i < entries.len() ==> #[trigger] announcement_fits(n, entries, i)
}

/// Whether `receive_direct_checked` hands the packet to the node: unless the
/// link is open and the packet verifies with a body the node does not
/// handle, or with routing information whose relaxation would overflow.
pub open spec fn direct_checked_ok(n: NodeView, link: i32, packet: DirectPacketView) -> bool {
    n.link_info.contains_key(link) && direct_packet_verifies(packet) ==> {
        &&& !direct_body_unhandled(packet.body)
        &&& (packet.body matches DirectBodyView::RoutingInformationExchange { entries } ==> announcements_fit(n, entries))
    }
}

impl Node<String, String> {
    /// The node's collections are well formed: no peer twice in the neighbor
    /// list or the routing table, and Perigee has no samples (the node never
    /// feeds it any).
    pub closed spec fn wf(&self) -> bool {
        &&& self.neighbors.wf()
        &&& self.routing_table.wf()
        &&& self.perigee.wf()
        &&& self.perigee@.observations.len() == 0
    }

    /// A well-formed node has each peer at most once among its neighbors and
    /// at most once in its routing table.
    pub proof fn lemma_wf_keys(&self)
        requires
            self.wf(),
        ensures
            distinct_keys(self@.neighbors),
            distinct_keys(self@.routing),
    {
    }

    /// The seed that the host may use for the node's random draws.
    pub closed spec fn seed_spec(&self) -> u64 {
        self.seed
    }

    /// A node named `my_id`, with no links, routes or commands.
    pub fn new(my_id: String, state: u64) -> (node: Self)
        ensures
            node.wf(),
            node@.queue == Seq::<CommandView>::empty(),
            node@.my_id == my_id@,
            node@.neighbors == Seq::<(Seq<char>, LinkID)>::empty(),
            node@.routing == Seq::<(Seq<char>, RoutingEntry)>::empty(),
            node@.counter == 0,
            node@.incoming == Map::<i32, IncomingView>::empty(),
            node@.outgoing == Map::<i32, OutgoingView>::empty(),
            node@.link_info == Map::<i32, LinkInfoView>::empty(),
            node@.keepers == Seq::<Seq<char>>::empty(),
            node@.draw is None,
            node.seed_spec() == state,
    {
        let node = Self {
            command_queue: VecDeque::new(),
            my_id: PeerID::from(my_id),
            neighbors: PeerMap::new(),
            routing_table: PeerMap::new(),
            link_id_generator_state: 0,
            incoming: HashMap::new(),
            outgoing: HashMap::new(),
            link_info: HashMap::new(),
            perigee: Perigee::new(),
            peer_draw: None,
            seed: state,
        };
        assert(node@.queue =~= Seq::<CommandView>::empty());
        assert(node@.incoming =~= Map::<i32, IncomingView>::empty());
        assert(node@.outgoing =~= Map::<i32, OutgoingView>::empty());
        assert(node@.link_info =~= Map::<i32, LinkInfoView>::empty());
        node
    }

    /// Takes the oldest command off the queue, for the host to perform.
    pub fn poll(&mut self) -> (command: Option<Command<String, String>>)
        ensures
            old(self)@.queue.len() == 0 ==> command is None && final(self)@ == old(self)@,
            old(self)@.queue.len() > 0 ==> {
                &&& command matches Some(c) && c@ == old(self)@.queue[0]
                &&& final(self)@ == (NodeView { queue: old(self)@.queue.drop_first(), ..old(self)@ })
            },
            final(self).wf() == old(self).wf(),
            final(self).seed_spec() == old(self).seed_spec(),
    {
        let command = self.command_queue.pop_front();
        proof {
            if old(self)@.queue.len() > 0 {
                assert(self@.queue =~= old(self)@.queue.drop_first());
            } else {
                assert(self@.queue =~= old(self)@.queue);
            }
        }
        command
    }

    /// Whether an identifier is left for another offer or answer.
    pub fn has_free_identifier(&self) -> (free: bool)
        ensures
            free == can_allocate(self@),
    {
        self.link_id_generator_state < i32::MAX
    }

    /// Whether the link `link_id` is open (established and not closed).
    pub fn is_link_open(&self, link_id: &LinkID) -> (open: bool)
        ensures
            open == self@.link_info.contains_key(link_id.0),
    {
        self.link_info.contains_key(&link_id.0)
    }

    /// The seed given at creation, for the host's random draws.
    pub fn seed(&self) -> (seed: u64)
        ensures
            seed == self.seed_spec(),
    {
        self.seed
    }

    fn push_command(&mut self, command: Command<String, String>)
        ensures
            final(self)@ == push_cmd(old(self)@, command@),
            final(self).wf() == old(self).wf(),
            final(self).seed_spec() == old(self).seed_spec(),
    {
        self.command_queue.push_back(command);
        assert(self@.queue =~= old(self)@.queue.push(command@));
    }

    /// The link on which a packet for `peer_id` leaves, if there is one.
    pub fn get_next_hop_to(&self, peer_id: &PeerID) -> (link: Option<LinkID>)
        ensures
            match link {
                Some(l) => next_hop(self@, peer_id@) == Some(l.0),
                None => next_hop(self@, peer_id@) is None,
            },
    {
        proof {
            reveal_strlit("User");
        }
        if peer_id.is("User") {
            return Some(LinkID(0));
        }
        match self.neighbors.get(peer_id) {
            Some(link) => Some(*link),
            None => match self.routing_table.get(peer_id) {
                Some(entry) => Some(entry.next_hop),
                None => None,
            },
        }
    }

    /// Queues a direct packet on `link_id`.
    pub fn send_direct(&mut self, link_id: LinkID, packet: DirectPacket)
        ensures
            final(self)@ == push_cmd(old(self)@, CommandView::SendDirect { link_id: link_id.0, packet: packet@ }),
            final(self).wf() == old(self).wf(),
            final(self).seed_spec() == old(self).seed_spec(),
    {
        self.push_command(Command::SendDirect { link_id, packet });
    }

    /// Queues a direct packet on `link_id` in `command_queue`.
    pub fn send_direct_inner(command_queue: &mut VecDeque<Command<String, String>>, link_id: LinkID, packet: DirectPacket)
        ensures
            final(command_queue)@ == old(command_queue)@.push(Command::SendDirect { link_id, packet }),
    {
        command_queue.push_back(Command::SendDirect { link_id, packet });
    }

    /// Forwards `packet` on the next hop to its destination; nothing is sent
    /// when there is no route.
    pub fn send_packet(&mut self, packet: Packet<String, String>)
        ensures
            final(self)@ == match next_hop(old(self)@, packet.destination@) {
                Some(link) => push_cmd(old(self)@, CommandView::Send { link_id: link, packet: packet@ }),
                None => old(self)@,
            },
            final(self).wf() == old(self).wf(),
            final(self).seed_spec() == old(self).seed_spec(),
    {
        match self.get_next_hop_to(&packet.destination) {
            Some(link_id) => {
                self.push_command(Command::Send { link_id, packet });
            },
            None => {},
        }
    }

    /// Sends a packet from this node to `destination` on `link_id`, whatever
    /// the routing table says.
    pub fn send_overriding_routing(&mut self, link_id: &LinkID, destination: PeerID, packet_body: PacketBody<String, String>)
        ensures
            final(self)@ == push_cmd(
                old(self)@,
                CommandView::Send { link_id: link_id.0, packet: packet_of(old(self)@.my_id, destination@, packet_body@) },
            ),
            final(self).wf() == old(self).wf(),
            final(self).seed_spec() == old(self).seed_spec(),
    {
        let packet = Packet::new(self.my_id.clone(), destination, packet_body);
        self.push_command(Command::Send { link_id: *link_id, packet });
    }

    /// Sends a packet from this node to `destination` on its next hop;
    /// nothing is sent when there is no route.
    pub fn send_to(&mut self, destination: PeerID, packet_body: PacketBody<String, String>)
        ensures
            final(self)@ == send_to(old(self)@, destination@, packet_body@),
            final(self).wf() == old(self).wf(),
            final(self).seed_spec() == old(self).seed_spec(),
    {
        match self.get_next_hop_to(&destination) {
            Some(link_id) => {
                let packet = Packet::new(self.my_id.clone(), destination, packet_body);
                self.push_command(Command::Send { link_id, packet });
            },
            None => {},
        }
    }

    /// Sends a direct packet with `body` to every neighbor except those on
    /// `exclude`.
    fn direct_broadcast(&mut self, exclude: Option<LinkID>, body: DirectBody)
        ensures
            final(self)@ == broadcast(old(self)@, match exclude { Some(l) => Some(l.0), None => None }, body@),
            final(self).wf() == old(self).wf(),
            final(self).seed_spec() == old(self).seed_spec(),
    {
        let packet = DirectPacket::new(body);
        let ghost ex = match exclude { Some(l) => Some(l.0), None => None::<i32> };
        let ghost start = self@;
        let mut i: usize = 0;
        while i < self.neighbors.len()
            invariant
                i <= self@.neighbors.len(),
                self@ == (NodeView { queue: self@.queue, ..start }),
                self@.queue == start.queue + broadcast_cmds(start.neighbors.take(i as int), ex, packet@),
                self.wf() == old(self).wf(),
                self.seed_spec() == old(self).seed_spec(),
                start == old(self)@,
                ex == match exclude { Some(l) => Some(l.0), None => None::<i32> },
            decreases self@.neighbors.len() - i,
        {
            let link = *self.neighbors.value_at(i);
            proof {
                let t = start.neighbors.take(i as int + 1);
                assert(t.drop_last() =~= start.neighbors.take(i as int));
                assert(t.last() == start.neighbors[i as int]);
            }
            let skip = match exclude {
                Some(l) => l.0 == link.0,
                None => false,
            };
            if !skip {
                let copy = packet.clone();
                self.push_command(Command::SendDirect { link_id: link, packet: copy });
            }
            proof {
                let t = start.neighbors.take(i as int + 1);
                let before = broadcast_cmds(start.neighbors.take(i as int), ex, packet@);
                assert(t.last().1.0 == link.0);
                if skip {
                    assert(broadcast_cmds(t, ex, packet@) == before);
                } else {
                    assert(broadcast_cmds(t, ex, packet@) == before.push(
                        CommandView::SendDirect { link_id: link.0, packet: packet@ },
                    ));
                }
                assert(self@.queue =~= start.queue + broadcast_cmds(t, ex, packet@));
            }
            i = i + 1;
        }
        assert(start.neighbors.take(start.neighbors.len() as int) =~= start.neighbors);
    }

    /// The offer identifier that names the same negotiation as `link_id`.
    fn link_id_to_offer_id(&self, link_id: &LinkID) -> (offer_id: OfferID)
        ensures
            offer_id.0 == link_id.0,
    {
        OfferID(link_id.to_inner())
    }

    /// The link identifier that names the same negotiation as `offer_id`.
    fn offer_id_to_link_id(&self, offer_id: &OfferID) -> (link_id: LinkID)
        ensures
            link_id.0 == offer_id.0,
    {
        LinkID(offer_id.to_inner())
    }

    /// Starts an offer for `for_peer` (`None`: for the user) and returns the
    /// link and offer identifiers, which hold the same fresh number.
    pub fn generate_offer(&mut self, for_peer: Option<PeerID>) -> (ids: (LinkID, OfferID))
        requires
            can_allocate(old(self)@),
        ensures
            final(self)@ == generate_offer(old(self)@, opt_peer(for_peer)),
            ids.0.0 == next_id(old(self)@),
            ids.1.0 == next_id(old(self)@),
            final(self).wf() == old(self).wf(),
            final(self).seed_spec() == old(self).seed_spec(),
    {
        self.link_id_generator_state = self.link_id_generator_state + 1;
        let link_id = LinkID(self.link_id_generator_state);
        let offer_id = OfferID(self.link_id_generator_state);
        let record = Incoming::new(None, Vec::new(), for_peer);
        assert(record@.ice =~= Seq::<IceView>::empty());
        self.incoming.insert(offer_id.0, record);
        self.command_queue.push_back(Command::GenerateOffer(link_id));
        proof {
            assert(self@.incoming =~= generate_offer(old(self)@, opt_peer(for_peer)).incoming);
            assert(self@.queue =~= generate_offer(old(self)@, opt_peer(for_peer)).queue);
        }
        (link_id, offer_id)
    }

    /// Answers `offer` (offer `offer_id`, from `peer` or from the user) on a
    /// fresh link, and returns the link.
    pub fn receive_offer(&mut self, offer: String, offer_id: OfferID, peer: Option<PeerID>) -> (link: LinkID)
        requires
            can_allocate(old(self)@),
        ensures
            final(self)@ == receive_offer(old(self)@, offer@, offer_id.0, opt_peer(peer)),
            link.0 == next_id(old(self)@),
            final(self).wf() == old(self).wf(),
            final(self).seed_spec() == old(self).seed_spec(),
    {
        self.link_id_generator_state = self.link_id_generator_state + 1;
        let link_id = LinkID(self.link_id_generator_state);
        let ghost offer_view = offer@;
        let record = Outgoing::new(offer_id, None, Vec::new(), peer);
        assert(record@.ice =~= Seq::<IceView>::empty());
        self.outgoing.insert(link_id.0, record);
        self.command_queue.push_back(Command::GenerateAnswer { link_id, offer });
        proof {
            assert(self@.outgoing =~= receive_offer(old(self)@, offer_view, offer_id.0, opt_peer(peer)).outgoing);
            assert(self@.queue =~= receive_offer(old(self)@, offer_view, offer_id.0, opt_peer(peer)).queue);
        }
        link_id
    }

    /// An answer arrived for the offer on `link_id`: the host is asked to
    /// apply it.
    pub fn receive_answer(&mut self, link_id: LinkID, answer: String)
        ensures
            final(self)@ == push_cmd(old(self)@, CommandView::AnswerOffer { link_id: link_id.0, answer: answer@ }),
            final(self).wf() == old(self).wf(),
            final(self).seed_spec() == old(self).seed_spec(),
    {
        self.push_command(Command::AnswerOffer { link_id, answer });
    }

    /// The link `link_id` opened.
    pub fn link_established(&mut self, link_id: &LinkID)
        ensures
            final(self)@ == link_established(old(self)@, link_id.0),
            final(self).wf() == old(self).wf(),
            final(self).seed_spec() == old(self).seed_spec(),
    {
        self.incoming.remove(&link_id.0);
        self.outgoing.remove(&link_id.0);
        self.link_info.insert(link_id.0, LinkInfo::new());
        proof {
            assert(self@.incoming =~= old(self)@.incoming.remove(link_id.0));
            assert(self@.outgoing =~= old(self)@.outgoing.remove(link_id.0));
            assert(self@.link_info =~= old(self)@.link_info.insert(
                link_id.0,
                LinkInfoView { protocal_in: None, protocal_out: None, post_init_greeting: false },
            ));
            reveal_strlit("Rust:0.1");
        }
        let mut versions: Vec<String> = Vec::new();
        versions.push(String::from_str("Rust:0.1"));
        proof {
            assert(versions.deep_view() =~= supported_versions());
        }
        let me = self.my_id.clone();
        self.send_direct(*link_id, DirectPacket::new(DirectBody::Greetings { me, supported_versions: versions }));
    }

    /// The host generated the answer for `link_id`.
    pub fn on_answer_generated(&mut self, link_id: &LinkID, answer: String)
        ensures
            final(self)@ == on_answer_generated(old(self)@, link_id.0, answer@),
            final(self).wf() == old(self).wf(),
            final(self).seed_spec() == old(self).seed_spec(),
    {
        let (peer, offer_id, ice) = match self.outgoing.get(&link_id.0) {
            Some(outgoing) => (
                match &outgoing.peer {
                    Some(p) => Some(p.clone()),
                    None => None,
                },
                outgoing.offer_id,
                clone_ices(&outgoing.ice),
            ),
            None => {
                return;
            },
        };
        let ghost o = old(self)@.outgoing[link_id.0];
        let ghost answer_view = answer@;
        let kept = Outgoing::new(offer_id, Some(answer.clone()), clone_ices(&ice), match &peer {
            Some(p) => Some(p.clone()),
            None => None,
        });
        self.outgoing.insert(link_id.0, kept);
        proof {
            assert(self@.outgoing =~= old(self)@.outgoing.insert(
                link_id.0,
                OutgoingView { answer: Some(answer_view), ..o },
            ));
        }
        match peer {
            None => {
                self.push_command(Command::UserAnswer { link_id: *link_id, answer });
            },
            Some(peer_id) => {
                let body = PacketBody::Answer { answer, offer_id, ice };
                self.send_to(peer_id, body);
            },
        }
    }

    /// The host generated the offer for `link_id`.
    pub fn on_offer_generated(&mut self, link_id: &LinkID, offer: String)
        ensures
            final(self)@ == on_offer_generated(old(self)@, link_id.0, offer@),
            final(self).wf() == old(self).wf(),
            final(self).seed_spec() == old(self).seed_spec(),
    {
        let offer_id = self.link_id_to_offer_id(link_id);
        let (for_peer, ice) = match self.incoming.get(&offer_id.0) {
            Some(incoming) => (
                match &incoming.for_peer {
                    Some(p) => Some(p.clone()),
                    None => None,
                },
                clone_ices(&incoming.ice),
            ),
            None => {
                return;
            },
        };
        let ghost i = old(self)@.incoming[link_id.0];
        let ghost offer_view = offer@;
        let kept = Incoming::new(Some(offer.clone()), clone_ices(&ice), match &for_peer {
            Some(p) => Some(p.clone()),
            None => None,
        });
        self.incoming.insert(offer_id.0, kept);
        proof {
            assert(self@.incoming =~= old(self)@.incoming.insert(
                link_id.0,
                IncomingView { offer: Some(offer_view), ..i },
            ));
        }
        match for_peer {
            Some(peer_id) => {
                let body = PacketBody::Offer { offer, offer_id, ice };
                self.send_to(peer_id, body);
            },
            None => {
                self.push_command(Command::UserOffer { link_id: *link_id, offer });
            },
        }
    }

    /// A new ICE candidate for `link_id`.
    pub fn add_ice(&mut self, link_id: &LinkID, ice: ICE)
        ensures
            final(self)@ == add_ice(old(self)@, link_id.0, ice@),
            final(self).wf() == old(self).wf(),
            final(self).seed_spec() == old(self).seed_spec(),
    {
        let ghost ice_view = ice@;
        let offer_id = self.link_id_to_offer_id(link_id);
        match self.incoming.remove(&offer_id.0) {
            Some(mut incoming) => {
                let ghost i = old(self)@.incoming[link_id.0];
                incoming.ice.push(ice);
                self.incoming.insert(offer_id.0, incoming);
                proof {
                    assert(incoming@.ice =~= i.ice.push(ice_view));
                    assert(self@.incoming =~= old(self)@.incoming.insert(
                        link_id.0,
                        IncomingView { ice: i.ice.push(ice_view), ..i },
                    ));
                }
                return;
            },
            None => {
                assert(self@.incoming =~= old(self)@.incoming);
            },
        }
        match self.outgoing.remove(&link_id.0) {
            Some(mut outgoing) => {
                let ghost o = old(self)@.outgoing[link_id.0];
                outgoing.ice.push(ice);
                self.outgoing.insert(link_id.0, outgoing);
                proof {
                    assert(outgoing@.ice =~= o.ice.push(ice_view));
                    assert(self@.outgoing =~= old(self)@.outgoing.insert(
                        link_id.0,
                        OutgoingView { ice: o.ice.push(ice_view), ..o },
                    ));
                }
            },
            None => {
                assert(self@.outgoing =~= old(self)@.outgoing);
            },
        }
    }

    /// The peers this node has as neighbors, in the order they were added.
    pub fn get_neighbors(&self) -> (peers: Vec<PeerID>)
        ensures
            peers.deep_view() == keys_of(self@.neighbors),
    {
        let mut peers: Vec<PeerID> = Vec::new();
        let mut i: usize = 0;
        while i < self.neighbors.len()
            invariant
                i <= self@.neighbors.len(),
                peers@.len() == i,
                forall|j: int| 0 <= j < i ==> #[trigger] peers@[j]@ == self@.neighbors[j].0,
            decreases self@.neighbors.len() - i,
        {
            peers.push(self.neighbors.key_at(i).clone());
            i = i + 1;
        }
        assert forall|j: int| 0 <= j < peers@.len() implies peers.deep_view()[j] == keys_of(self@.neighbors)[j] by {
            assert(peers@[j]@ == self@.neighbors[j].0);
        }
        assert(peers.deep_view() =~= keys_of(self@.neighbors));
        peers
    }

    /// The answer made on `link_id`, as the packet that the user is given:
    /// from `User` to this node, with the offer it answers and the ICE
    /// candidates gathered so far. `None` when the link is not being
    /// answered or its answer is not generated yet.
    pub fn get_answer_packet_by_id(&self, link_id: &LinkID) -> (packet: Option<Packet<String, String>>)
        ensures
            match packet {
                Some(p) => {
                    &&& self@.outgoing.contains_key(link_id.0)
                    &&& self@.outgoing[link_id.0].answer is Some
                    &&& p@ == packet_of(
                        "User"@,
                        self@.my_id,
                        PacketBodyView::Answer {
                            answer: self@.outgoing[link_id.0].answer->0,
                            offer_id: self@.outgoing[link_id.0].offer_id,
                            ice: self@.outgoing[link_id.0].ice,
                        },
                    )
                },
                None => !self@.outgoing.contains_key(link_id.0) || self@.outgoing[link_id.0].answer is None,
            },
    {
        let outgoing = match self.outgoing.get(&link_id.0) {
            Some(o) => o,
            None => {
                return None;
            },
        };
        let answer = match &outgoing.answer {
            Some(a) => a.clone(),
            None => {
                return None;
            },
        };
        let inner = PacketBody::Answer { answer, offer_id: outgoing.offer_id, ice: clone_ices(&outgoing.ice) };
        let user = PeerID::from("User");
        Some(Packet::new(user, self.my_id.clone(), inner))
    }

    /// The offer made under `offer_id`, as the packet that the user is given:
    /// from `User` to this node, with the ICE candidates gathered so far.
    /// `None` when no such offer is being made or it is not generated yet.
    pub fn get_offer_packet_by_id(&self, offer_id: &OfferID) -> (packet: Option<Packet<String, String>>)
        ensures
            match packet {
                Some(p) => {
                    &&& self@.incoming.contains_key(offer_id.0)
                    &&& self@.incoming[offer_id.0].offer is Some
                    &&& p@ == packet_of(
                        "User"@,
                        self@.my_id,
                        PacketBodyView::Offer {
                            offer: self@.incoming[offer_id.0].offer->0,
                            offer_id: offer_id.0,
                            ice: self@.incoming[offer_id.0].ice,
                        },
                    )
                },
                None => !self@.incoming.contains_key(offer_id.0) || self@.incoming[offer_id.0].offer is None,
            },
    {
        let incoming = match self.incoming.get(&offer_id.0) {
            Some(i) => i,
            None => {
                return None;
            },
        };
        let offer = match &incoming.offer {
            Some(o) => o.clone(),
            None => {
                return None;
            },
        };
        let inner = PacketBody::Offer { offer, offer_id: *offer_id, ice: clone_ices(&incoming.ice) };
        let user = PeerID::from("User");
        Some(Packet::new(user, self.my_id.clone(), inner))
    }

    /// Whether the node wants to keep its link to `peer_id`.
    fn is_keeper(&self, peer_id: &PeerID) -> (keep: bool)
        ensures
            keep == is_keeper(self@.keepers, peer_id@),
    {
        if self.perigee.keeper_count() < IDEAL_NUMBER_OF_NEIGHBORS {
            return true;
        }
        self.perigee.is_keeper(peer_id)
    }

    /// The first neighbor, in order, on `link_id`.
    fn get_peer_id_from_link_id(&self, link_id: &LinkID) -> (peer: Option<PeerID>)
        ensures
            opt_peer(peer) == peer_on_link(self@.neighbors, link_id.0),
    {
        let ghost all = self@.neighbors;
        let mut i: usize = 0;
        assert(all.skip(0) =~= all);
        while i < self.neighbors.len()
            invariant
                i <= all.len(),
                all == self@.neighbors,
                peer_on_link(all, link_id.0) == peer_on_link(all.skip(i as int), link_id.0),
            decreases all.len() - i,
        {
            assert(all.skip(i as int)[0] == all[i as int]);
            assert(all.skip(i as int).drop_first() =~= all.skip(i as int + 1));
            if self.neighbors.value_at(i).0 == link_id.0 {
                return Some(self.neighbors.key_at(i).clone());
            }
            i = i + 1;
        }
        None
    }

    /// The routing table's announcements whose peer `peer` and `only`
    /// select (see `selector`).
    fn announce(&self, peer: Option<&PeerID>, only: bool) -> (entries: Vec<(PeerID, RoutingCost)>)
        ensures
            entries.deep_view() == announcements(
                self@.routing,
                selector(match peer { Some(t) => Some(t@), None => None }, only),
            ),
    {
        let ghost sel = selector(match peer { Some(t) => Some(t@), None => None }, only);
        let ghost routing = self@.routing;
        let mut entries: Vec<(PeerID, RoutingCost)> = Vec::new();
        let mut i: usize = 0;
        while i < self.routing_table.len()
            invariant
                i <= routing.len(),
                routing == self@.routing,
                sel == selector(match peer { Some(t) => Some(t@), None => None }, only),
                entries.deep_view() =~= announcements(routing.take(i as int), sel),
            decreases routing.len() - i,
        {
            let key = self.routing_table.key_at(i);
            let keep = match peer {
                Some(t) => if only { key.same(t) } else { !key.same(t) },
                None => true,
            };
            proof {
                let t = routing.take(i as int + 1);
                assert(t.drop_last() =~= routing.take(i as int));
                assert(t.last() == routing[i as int]);
                assert(keep == sel(routing[i as int].0));
            }
            if keep {
                let cost = self.routing_table.value_at(i).routing_cost;
                entries.push((key.clone(), cost));
            }
            i = i + 1;
        }
        assert(routing.take(routing.len() as int) =~= routing);
        entries
    }

    /// Re-evaluates the neighbors (see `eval_neighbors`).
    pub fn eval_neighbors(&mut self)
        requires
            old(self).wf(),
        ensures
            final(self)@ == eval_neighbors(old(self)@),
            final(self).wf(),
            final(self).seed_spec() == old(self).seed_spec(),
    {
        let _ = self.perigee.rank_unsampled();
        let ghost ranked = self@;
        assert(ranked == NodeView { keepers: Seq::empty(), ..old(self)@ });
        let mut i: usize = 0;
        while i < self.neighbors.len()
            invariant
                i <= ranked.neighbors.len(),
                self@ == (NodeView { queue: ranked.queue + dear_john_cmds(ranked.neighbors.take(i as int), ranked.keepers), ..ranked }),
                self.wf(),
                self.seed_spec() == old(self).seed_spec(),
            decreases ranked.neighbors.len() - i,
        {
            let keep = self.is_keeper(self.neighbors.key_at(i));
            let link = *self.neighbors.value_at(i);
            proof {
                let t = ranked.neighbors.take(i as int + 1);
                assert(t.drop_last() =~= ranked.neighbors.take(i as int));
                assert(t.last() == ranked.neighbors[i as int]);
            }
            let ghost q = self@.queue;
            if !keep {
                let packet = DirectPacket::new(DirectBody::DearJohn);
                Self::send_direct_inner(&mut self.command_queue, link, packet);
                assert(self@.queue =~= q.push(CommandView::SendDirect { link_id: link.0, packet: direct_packet_of(DirectBodyView::DearJohn) }));
            }
            assert(self@.queue =~= ranked.queue + dear_john_cmds(ranked.neighbors.take(i as int + 1), ranked.keepers));
            i = i + 1;
        }
        assert(ranked.neighbors.take(ranked.neighbors.len() as int) =~= ranked.neighbors);
        let have = self.neighbors.len();
        if have > IDEAL_NUMBER_OF_NEIGHBORS {
            self.peer_draw = None;
            return;
        }
        let ghost routing = self@.routing;
        let mut available: Vec<PeerID> = Vec::new();
        let mut j: usize = 0;
        while j < self.routing_table.len()
            invariant
                j <= routing.len(),
                routing == self@.routing,
                self@.neighbors == ranked.neighbors,
                available.deep_view() =~= available_peers(routing.take(j as int), ranked.neighbors),
            decreases routing.len() - j,
        {
            let key = self.routing_table.key_at(j);
            let taken = self.neighbors.contains_key(key);
            proof {
                let t = routing.take(j as int + 1);
                assert(t.drop_last() =~= routing.take(j as int));
                assert(t.last() == routing[j as int]);
            }
            if !taken {
                available.push(key.clone());
            }
            j = j + 1;
        }
        assert(routing.take(routing.len() as int) =~= routing);
        let room = IDEAL_NUMBER_OF_NEIGHBORS - have;
        let count = if room < available.len() { room } else { available.len() };
        if count > 0 {
            self.peer_draw = Some(PeerDraw { candidates: available, count });
        } else {
            self.peer_draw = None;
        }
    }

    /// The draw of peers that the node waits for its host to make, if any.
    pub fn peer_draw(&self) -> (draw: &Option<PeerDraw>)
        ensures
            match draw {
                Some(d) => self@.draw == Some((d.candidates.deep_view(), d.count as nat)),
                None => self@.draw is None,
            },
    {
        &self.peer_draw
    }

    /// Completes the pending draw with random numbers from the host: each
    /// picks a candidate (its value modulo the number of candidates left),
    /// which is asked for an offer, until the wanted number is reached.
    pub fn complete_peer_draw(&mut self, picks: &Vec<u32>)
        ensures
            final(self)@ == complete_peer_draw(old(self)@, picks@),
            final(self).wf() == old(self).wf(),
            final(self).seed_spec() == old(self).seed_spec(),
    {
        let draw = match self.peer_draw.take() {
            Some(d) => d,
            None => {
                return;
            },
        };
        let ghost target = complete_peer_draw(old(self)@, picks@);
        let mut candidates = draw.candidates;
        let mut count = draw.count;
        let mut i: usize = 0;
        assert(picks@.skip(0) =~= picks@);
        while i < picks.len() && count > 0 && candidates.len() > 0
            invariant
                i <= picks@.len(),
                draw_requests(self@, candidates.deep_view(), count as nat, picks@.skip(i as int)) == target,
                self.wf() == old(self).wf(),
                self.seed_spec() == old(self).seed_spec(),
            decreases picks@.len() - i,
        {
            let index = (picks[i] as usize) % candidates.len();
            let ghost before = self@;
            let ghost cands = candidates.deep_view();
            let peer = candidates.remove(index);
            proof {
                assert(picks@.skip(i as int)[0] == picks@[i as int]);
                assert(picks@.skip(i as int).drop_first() =~= picks@.skip(i as int + 1));
                assert(candidates.deep_view() =~= cands.remove(index as int));
                assert(peer@ == cands[index as int]);
            }
            self.send_to(peer, PacketBody::RequestOffer);
            count = count - 1;
            i = i + 1;
        }
    }

    /// The peers that the routing table reaches through `link_id`, in the
    /// table's order.
    fn routed_through(&self, link_id: LinkID) -> (peers: Vec<PeerID>)
        ensures
            peers.deep_view() == routed_through(self@.routing, link_id.0),
    {
        let ghost routing = self@.routing;
        let mut peers: Vec<PeerID> = Vec::new();
        let mut i: usize = 0;
        while i < self.routing_table.len()
            invariant
                i <= routing.len(),
                routing == self@.routing,
                peers.deep_view() =~= routed_through(routing.take(i as int), link_id.0),
            decreases routing.len() - i,
        {
            proof {
                let t = routing.take(i as int + 1);
                assert(t.drop_last() =~= routing.take(i as int));
                assert(t.last() == routing[i as int]);
            }
            if self.routing_table.value_at(i).next_hop.0 == link_id.0 {
                peers.push(self.routing_table.key_at(i).clone());
            }
            i = i + 1;
        }
        assert(routing.take(routing.len() as int) =~= routing);
        peers
    }

    /// The link `link_id` closed.
    pub fn link_closed(&mut self, link_id: &LinkID)
        requires
            old(self).wf(),
        ensures
            final(self)@ == link_closed(old(self)@, link_id.0),
            final(self).wf(),
            final(self).seed_spec() == old(self).seed_spec(),
    {
        let lost = self.routed_through(*link_id);
        self.neighbors.remove_value(*link_id);
        self.incoming.remove(&link_id.0);
        self.outgoing.remove(&link_id.0);
        self.link_info.remove(&link_id.0);
        proof {
            assert(self@.incoming =~= old(self)@.incoming.remove(link_id.0));
            assert(self@.outgoing =~= old(self)@.outgoing.remove(link_id.0));
            assert(self@.link_info =~= old(self)@.link_info.remove(link_id.0));
        }
        let ghost target = forget_routes(self@, lost.deep_view());
        let mut j: usize = 0;
        assert(lost.deep_view().skip(0) =~= lost.deep_view());
        while j < lost.len()
            invariant
                j <= lost@.len(),
                forget_routes(self@, lost.deep_view().skip(j as int)) == target,
                self.wf(),
                self.seed_spec() == old(self).seed_spec(),
            decreases lost@.len() - j,
        {
            proof {
                assert(lost.deep_view().skip(j as int)[0] == lost@[j as int]@);
                assert(lost.deep_view().skip(j as int).drop_first() =~= lost.deep_view().skip(j as int + 1));
            }
            self.routing_table.remove(&lost[j]);
            self.direct_broadcast(None, DirectBody::LostRouteTo { peer: lost[j].clone() });
            j = j + 1;
        }
        self.eval_neighbors();
    }

    /// Relaxes the routing table with the announcements received on
    /// `link_id`, then re-evaluates the neighbors.
    fn update_routing_table(&mut self, link_id: &LinkID, entries: Vec<(PeerID, RoutingCost)>)
        requires
            old(self).wf(),
            relax_all_fits(old(self)@, link_id.0, entries.deep_view()),
        ensures
            final(self)@ == update_routing_table(old(self)@, link_id.0, entries.deep_view()),
            final(self).wf(),
            final(self).seed_spec() == old(self).seed_spec(),
    {
        let ghost all = entries.deep_view();
        let ghost target = relax_all(old(self)@, link_id.0, all);
        let mut i: usize = 0;
        assert(all.skip(0) =~= all);
        while i < entries.len()
            invariant
                i <= all.len(),
                all == entries.deep_view(),
                relax_all(self@, link_id.0, all.skip(i as int)) == target,
                relax_all_fits(self@, link_id.0, all.skip(i as int)),
                self.wf(),
                self.seed_spec() == old(self).seed_spec(),
            decreases all.len() - i,
        {
            let ghost before = self@;
            proof {
                assert(all.skip(i as int)[0] == all[i as int]);
                assert(all.skip(i as int).drop_first() =~= all.skip(i as int + 1));
                assert(all[i as int] == (entries@[i as int].0@, entries@[i as int].1));
            }
            let peer_id = &entries[i].0;
            let routing_cost = entries[i].1;
            if !peer_id.same(&self.my_id) {
                match self.routing_table.get(peer_id) {
                    Some(current) => {
                        let current = *current;
                        if routing_cost < current.routing_cost && routing_cost + 1 < current.routing_cost {
                            self.routing_table.insert(peer_id.clone(), RoutingEntry { next_hop: *link_id, routing_cost: routing_cost + 1 });
                        } else if routing_cost >= current.routing_cost && link_id.0 == current.next_hop.0 {
                            let mut trace: Vec<PeerID> = Vec::new();
                            trace.push(self.my_id.clone());
                            assert(trace.deep_view() =~= seq![self@.my_id]);
                            let body = DirectBody::RouteTraceFromOriginatorToTarget { target: peer_id.clone(), trace };
                            self.send_direct(*link_id, DirectPacket::new(body));
                        }
                    },
                    None => {
                        self.routing_table.insert(peer_id.clone(), RoutingEntry { next_hop: *link_id, routing_cost: routing_cost + 1 });
                    },
                }
            }
            assert(self@ == relax(before, link_id.0, all[i as int]));
            i = i + 1;
        }
        self.eval_neighbors();
    }

    /// Tells every neighbor the routes the node knows, except its own.
    pub fn share_routing_info(&mut self)
        ensures
            final(self)@ == share_routing_info(old(self)@),
            final(self).wf() == old(self).wf(),
            final(self).seed_spec() == old(self).seed_spec(),
    {
        let ghost start = self@;
        let mut i: usize = 0;
        while i < self.neighbors.len()
            invariant
                i <= start.neighbors.len(),
                self@ == (NodeView { queue: start.queue + share_cmds(start.neighbors.take(i as int), start.routing), ..start }),
                self.wf() == old(self).wf(),
                self.seed_spec() == old(self).seed_spec(),
                start == old(self)@,
            decreases start.neighbors.len() - i,
        {
            let peer = self.neighbors.key_at(i).clone();
            let link = *self.neighbors.value_at(i);
            let entries = self.announce(Some(&peer), false);
            proof {
                let t = start.neighbors.take(i as int + 1);
                assert(t.drop_last() =~= start.neighbors.take(i as int));
                assert(t.last() == start.neighbors[i as int]);
            }
            self.send_direct(link, DirectPacket::new(DirectBody::RoutingInformationExchange { entries }));
            assert(self@.queue =~= start.queue + share_cmds(start.neighbors.take(i as int + 1), start.routing));
            i = i + 1;
        }
        assert(start.neighbors.take(start.neighbors.len() as int) =~= start.neighbors);
    }

    /// A periodic tick: re-evaluate the neighbors, then share routing
    /// information.
    pub fn tick(&mut self)
        requires
            old(self).wf(),
        ensures
            final(self)@ == tick(old(self)@),
            final(self).wf(),
            final(self).seed_spec() == old(self).seed_spec(),
    {
        self.eval_neighbors();
        self.share_routing_info();
    }

    /// Sends the routing information that follows the greetings on
    /// `link_id` (see `post_greeting`).
    fn post_greeting(&mut self, link_id: &LinkID)
        ensures
            final(self)@ == post_greeting(old(self)@, link_id.0),
            final(self).wf() == old(self).wf(),
            final(self).seed_spec() == old(self).seed_spec(),
    {
        let them = self.get_peer_id_from_link_id(link_id);
        let routing_info = match &them {
            Some(t) => self.announce(Some(t), true),
            None => self.announce(None, true),
        };
        if routing_info.len() > 0 {
            self.send_direct(*link_id, DirectPacket::new(DirectBody::RoutingInformationExchange { entries: routing_info }));
        }
    }

    /// Sets the protocol the other side of `link_id` speaks, when the link is
    /// open.
    fn set_protocal_out(&mut self, link_id: &LinkID, version: String)
        ensures
            final(self)@ == if old(self)@.link_info.contains_key(link_id.0) {
                NodeView {
                    link_info: old(self)@.link_info.insert(
                        link_id.0,
                        LinkInfoView { protocal_out: Some(version@), ..old(self)@.link_info[link_id.0] },
                    ),
                    ..old(self)@
                }
            } else {
                old(self)@
            },
            final(self).wf() == old(self).wf(),
            final(self).seed_spec() == old(self).seed_spec(),
    {
        let ghost v = version@;
        match self.link_info.remove(&link_id.0) {
            Some(mut info) => {
                let ghost before = info@;
                info.protocal_out = Some(version);
                self.link_info.insert(link_id.0, info);
                assert(self@.link_info =~= old(self)@.link_info.insert(
                    link_id.0,
                    LinkInfoView { protocal_out: Some(v), ..old(self)@.link_info[link_id.0] },
                ));
            },
            None => {
                assert(self@.link_info =~= old(self)@.link_info);
            },
        }
    }

    /// Handles a direct packet that arrived on `link_id` (see
    /// `direct_step`).
    pub fn receive_direct_rust0_1(&mut self, link_id: &LinkID, packet: DirectPacket)
        requires
            old(self).wf(),
            direct_step_ok(old(self)@, link_id.0, packet@),
        ensures
            final(self)@ == direct_step(old(self)@, link_id.0, packet@),
            final(self).wf(),
            final(self).seed_spec() == old(self).seed_spec(),
    {
        if !packet.varify() {
            return;
        }
        let ghost n = self@;
        match packet.body {
            DirectBody::DearJohn => {
                let peer_id = match self.get_peer_id_from_link_id(link_id) {
                    Some(p) => p,
                    None => {
                        return;
                    },
                };
                if !self.is_keeper(&peer_id) {
                    self.send_direct(*link_id, DirectPacket::new(DirectBody::Goodbye));
                }
            },
            DirectBody::DistanceIncrease { peer, mut trace } => {
                if peer.same(&self.my_id) {
                    return;
                }
                let next_hop = match self.get_next_hop_to(&peer) {
                    Some(hop) => hop,
                    None => {
                        return;
                    },
                };
                if link_id.0 == next_hop.0 {
                    let ghost before = trace.deep_view();
                    if trace_contains_from(&trace, 0, &self.my_id) {
                        assert(before.subrange(0, before.len() as int) =~= before);
                        self.routing_table.remove(&peer);
                        self.direct_broadcast(None, DirectBody::LostRouteTo { peer });
                        return;
                    }
                    assert(before.subrange(0, before.len() as int) =~= before);
                    trace.push(self.my_id.clone());
                    assert(trace.deep_view() =~= before.push(n.my_id));
                    let cost = trace.len() as u32;
                    self.routing_table.insert(peer.clone(), RoutingEntry::new(next_hop, cost));
                    self.direct_broadcast(Some(*link_id), DirectBody::DistanceIncrease { peer, trace });
                }
            },
            DirectBody::Greetings { me, supported_versions } => {
                let version = String::from_str("Rust:0.1");
                if contains_text(&supported_versions, &version) {
                    if self.neighbors.contains_key(&me) {
                        self.send_direct(*link_id, DirectPacket::new(DirectBody::NotYouAgain));
                    } else {
                        self.set_protocal_out(link_id, version.clone());
                        self.neighbors.insert(me.clone(), *link_id);
                        self.routing_table.insert(me, RoutingEntry::new(*link_id, 0));
                        self.send_direct(*link_id, DirectPacket::new(DirectBody::TellItToMeIn { version }));
                    }
                } else {
                    self.send_direct(*link_id, DirectPacket::new(DirectBody::UnknownVersion));
                }
            },
            DirectBody::LostRouteTo { peer } => {
                let entry = match self.routing_table.get(&peer) {
                    Some(e) => *e,
                    None => {
                        return;
                    },
                };
                if entry.next_hop.0 == link_id.0 {
                    self.direct_broadcast(None, DirectBody::LostRouteTo { peer });
                } else {
                    let mut entries: Vec<(PeerID, RoutingCost)> = Vec::new();
                    entries.push((peer, entry.routing_cost));
                    let ghost ev = entries.deep_view();
                    assert(ev =~= seq![(ev[0].0, entry.routing_cost)]);
                    self.send_direct(*link_id, DirectPacket::new(DirectBody::RoutingInformationExchange { entries }));
                }
            },
            DirectBody::Me { .. } => {},
            DirectBody::NotYouAgain => {},
            DirectBody::RouteTraceFromOriginatorToTarget { target, mut trace } => {
                if trace.len() == 0 {
                    return;
                }
                if self.my_id.same(&target) {
                    let originator = trace[0].clone();
                    self.send_to(originator, PacketBody::ReturnRouteTrace { trace });
                    return;
                }
                let next_hop = match self.get_next_hop_to(&target) {
                    Some(hop) => hop,
                    None => {
                        return;
                    },
                };
                let ghost before = trace.deep_view();
                trace.push(self.my_id.clone());
                assert(trace.deep_view() =~= before.push(n.my_id));
                self.send_direct(next_hop, DirectPacket::new(DirectBody::RouteTraceFromOriginatorToTarget { target, trace }));
            },
            DirectBody::RouteTraceToOriginatorFromTarget { originator, mut trace } => {
                if trace.len() == 0 {
                    return;
                }
                if originator.same(&self.my_id) {
                    return;
                }
                let next_hop = match self.get_next_hop_to(&originator) {
                    Some(hop) => hop,
                    None => {
                        return;
                    },
                };
                let ghost before = trace.deep_view();
                trace.push(self.my_id.clone());
                assert(trace.deep_view() =~= before.push(n.my_id));
                self.send_direct(next_hop, DirectPacket::new(DirectBody::RouteTraceToOriginatorFromTarget { originator, trace }));
            },
            DirectBody::RoutingInformationExchange { entries } => {
                self.update_routing_table(link_id, entries);
            },
            DirectBody::TellItToMeIn { version } => {
                self.set_protocal_out(link_id, version);
            },
            DirectBody::Who => {
                let me = self.my_id.clone();
                self.send_direct(*link_id, DirectPacket::new(DirectBody::Me { me }));
            },
            _ => {},
        }
    }

    /// A direct packet arrived on `link_id` (see `receive_direct`).
    pub fn receive_direct(&mut self, link_id: &LinkID, packet: DirectPacket)
        requires
            old(self).wf(),
            old(self)@.link_info.contains_key(link_id.0) ==> direct_step_ok(old(self)@, link_id.0, packet@),
        ensures
            final(self)@ == receive_direct(old(self)@, link_id.0, packet@),
            final(self).wf(),
            final(self).seed_spec() == old(self).seed_spec(),
    {
        if self.link_info.contains_key(&link_id.0) {
            self.receive_direct_rust0_1(link_id, packet);
        }
        let ghost m = self@;
        match self.link_info.remove(&link_id.0) {
            Some(mut info) => {
                let ghost before = info@;
                if info.protocal_out.is_some() && !info.post_init_greeting {
                    info.post_init_greeting = true;
                    self.link_info.insert(link_id.0, info);
                    assert(self@.link_info =~= m.link_info.insert(
                        link_id.0,
                        LinkInfoView { post_init_greeting: true, ..m.link_info[link_id.0] },
                    ));
                    self.post_greeting(link_id);
                } else {
                    self.link_info.insert(link_id.0, info);
                    assert(self@.link_info =~= m.link_info);
                }
            },
            None => {
                assert(self@.link_info =~= m.link_info);
            },
        }
    }

    /// Whether every announcement relaxes without overflow (see
    /// `announcements_fit`).
    fn announcements_fit(&self, entries: &Vec<(PeerID, RoutingCost)>) -> (fit: bool)
        ensures
            fit == announcements_fit(self@, entries.deep_view()),
    {
        let ghost all = entries.deep_view();
        let mut i: usize = 0;
        while i < entries.len()
            invariant
                i <= all.len(),
                all == entries.deep_view(),
                forall|k: int| 0 <= k < i ==> #[trigger] announcement_fits(self@, all, k),
            decreases all.len() - i,
        {
            assert(all[i as int] == (entries@[i as int].0@, entries@[i as int].1));
            if entries[i].1 == RoutingCost::MAX && !entries[i].0.same(&self.my_id) && !self.routing_table.contains_key(&entries[i].0) {
                let mut j: usize = 0;
                let mut seen = false;
                while j < i
                    invariant
                        j <= i < all.len(),
                        all == entries.deep_view(),
                        !seen ==> forall|k: int| 0 <= k < j ==> all[k].0 != all[i as int].0,
                        seen ==> announced_before(all, i as int),
                    decreases i - j,
                {
                    assert(all[j as int] == (entries@[j as int].0@, entries@[j as int].1));
                    if entries[j].0.same(&entries[i].0) {
                        assert(all[j as int].0 == all[i as int].0);
                        seen = true;
                    }
                    j = j + 1;
                }
                if !seen {
                    assert(!announcement_fits(self@, all, i as int));
                    return false;
                }
            }
            i = i + 1;
        }
        true
    }

    /// A direct packet arrived on `link_id`, from a source that may send
    /// anything: it is handed to `receive_direct` when the node can handle
    /// it (see `direct_checked_ok`), and the node is left unchanged
    /// otherwise. Returns whether it was handed on.
    pub fn receive_direct_checked(&mut self, link_id: &LinkID, packet: DirectPacket) -> (handled: bool)
        requires
            old(self).wf(),
        ensures
            handled == direct_checked_ok(old(self)@, link_id.0, packet@),
            handled ==> final(self)@ == receive_direct(old(self)@, link_id.0, packet@),
            !handled ==> final(self)@ == old(self)@,
            final(self).wf(),
            final(self).seed_spec() == old(self).seed_spec(),
    {
        if self.link_info.contains_key(&link_id.0) && packet.varify() {
            let refused = match &packet.body {
                DirectBody::Goodbye => true,
                DirectBody::InvalidPacket => true,
                DirectBody::InvalidSalutation => true,
                DirectBody::UnknownVersion => true,
                DirectBody::RoutingInformationExchange { entries } => !self.announcements_fit(entries),
                _ => false,
            };
            if refused {
                return false;
            }
            proof {
                if let DirectBodyView::RoutingInformationExchange { entries } = packet@.body {
                    crate::laws::law_announcements_fit_exactly(self@, link_id.0, entries);
                }
            }
        }
        self.receive_direct(link_id, packet);
        true
    }

    /// One `AddICE` per candidate for `link_id`, appended in order.
    fn push_ice_commands(&mut self, link_id: LinkID, ice: &Vec<ICE>)
        ensures
            final(self)@ == (NodeView { queue: old(self)@.queue + ice_cmds(link_id.0, ice.deep_view()), ..old(self)@ }),
            final(self).wf() == old(self).wf(),
            final(self).seed_spec() == old(self).seed_spec(),
    {
        let ghost start = self@;
        let mut i: usize = 0;
        while i < ice.len()
            invariant
                i <= ice@.len(),
                self@ == (NodeView { queue: start.queue + ice_cmds(link_id.0, ice.deep_view().take(i as int)), ..start }),
                self.wf() == old(self).wf(),
                self.seed_spec() == old(self).seed_spec(),
                start == old(self)@,
            decreases ice@.len() - i,
        {
            let candidate = ice[i].clone();
            self.push_command(Command::AddICE { link_id, ice: candidate });
            assert(ice_cmds(link_id.0, ice.deep_view().take(i as int + 1)) =~= ice_cmds(link_id.0, ice.deep_view().take(i as int)).push(
                CommandView::AddICE { link_id: link_id.0, ice: ice.deep_view()[i as int] },
            ));
            assert(self@.queue =~= start.queue + ice_cmds(link_id.0, ice.deep_view().take(i as int + 1)));
            i = i + 1;
        }
        assert(ice.deep_view().take(ice@.len() as int) =~= ice.deep_view());
    }

    /// Handles a routed packet that arrived on `link_id` (see
    /// `packet_step`).
    pub fn receive_packet_rust0_1(&mut self, link_id: &LinkID, packet: Packet<String, String>)
        requires
            old(self).wf(),
            packet_step_ok(old(self)@, packet@),
        ensures
            final(self)@ == packet_step(old(self)@, link_id.0, packet@),
            final(self).wf(),
            final(self).seed_spec() == old(self).seed_spec(),
    {
        if !packet.destination.same(&self.my_id) {
            self.send_packet(packet);
            return;
        }
        let ghost n = self@;
        let Packet { source, destination, body, md5 } = packet;
        match body {
            PacketBody::Answer { answer, offer_id, ice } => {
                let answer_link_id = self.offer_id_to_link_id(&offer_id);
                self.push_command(Command::AnswerOffer { link_id: answer_link_id, answer });
                self.push_ice_commands(answer_link_id, &ice);
                assert(self@.queue =~= n.queue.push(
                    CommandView::AnswerOffer { link_id: offer_id.0, answer: packet@.body->Answer_answer },
                ) + ice_cmds(offer_id.0, ice.deep_view()));
            },
            PacketBody::Offer { offer, offer_id, ice } => {
                let id = self.receive_offer(offer, offer_id, None);
                self.push_ice_commands(id, &ice);
            },
            PacketBody::NewICE { link_id: ice_link, ice } => {
                let ghost candidate = ice@;
                match self.incoming.remove(&ice_link.0) {
                    Some(mut incoming) => {
                        let ghost before = incoming@;
                        incoming.ice.push(ice);
                        assert(incoming@.ice =~= before.ice.push(candidate));
                        self.incoming.insert(ice_link.0, incoming);
                        assert(self@.incoming =~= n.incoming.insert(
                            ice_link.0,
                            IncomingView { ice: n.incoming[ice_link.0].ice.push(candidate), ..n.incoming[ice_link.0] },
                        ));
                    },
                    None => {
                        assert(self@.incoming =~= n.incoming);
                    },
                }
            },
            PacketBody::RequestOffer => {
                self.generate_offer(Some(source));
            },
            PacketBody::RequestTraceToMe => {
                let next_hop = match self.get_next_hop_to(&source) {
                    Some(hop) => hop,
                    None => {
                        return;
                    },
                };
                let mut trace: Vec<PeerID> = Vec::new();
                trace.push(self.my_id.clone());
                assert(trace.deep_view() =~= seq![n.my_id]);
                self.send_direct(next_hop, DirectPacket::new(DirectBody::RouteTraceToOriginatorFromTarget { originator: source, trace }));
            },
            PacketBody::ReturnRouteTrace { trace } => {
                if trace.len() < 2 || !trace[0].same(&self.my_id) {
                    return;
                }
                let next_hop = match self.get_next_hop_to(&source) {
                    Some(hop) => hop,
                    None => {
                        return;
                    },
                };
                let first_hop = match self.get_peer_id_from_link_id(&next_hop) {
                    Some(p) => p,
                    None => {
                        return;
                    },
                };
                if !first_hop.same(&trace[1]) {
                    return;
                }
                if trace_contains_from(&trace, 1, &self.my_id) {
                    self.routing_table.remove(&source);
                    self.direct_broadcast(None, DirectBody::LostRouteTo { peer: source });
                    return;
                }
                let cost = (trace.len() - 1) as u32 + 1;
                self.routing_table.insert(source.clone(), RoutingEntry::new(next_hop, cost));
                self.direct_broadcast(Some(*link_id), DirectBody::DistanceIncrease { peer: source, trace });
            },
            _ => {},
        }
    }

    /// A routed packet arrived on `link_id` (see `receive_packet`).
    pub fn receive_packet(&mut self, link_id: &LinkID, packet: Packet<String, String>)
        requires
            old(self).wf(),
            old(self)@.link_info.contains_key(link_id.0) ==> packet_step_ok(old(self)@, packet@),
        ensures
            final(self)@ == receive_packet(old(self)@, link_id.0, packet@),
            final(self).wf(),
            final(self).seed_spec() == old(self).seed_spec(),
    {
        if self.link_info.contains_key(&link_id.0) {
            self.receive_packet_rust0_1(link_id, packet);
        }
    }
}

} // verus!
