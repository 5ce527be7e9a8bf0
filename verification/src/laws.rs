//! Properties of the node and of Perigee that hold across operations.

use vstd::prelude::*;
use crate::aux::LinkID;
use crate::direct_packet::{DirectBodyView, DirectPacketView, direct_packet_of};
use crate::ice::IceView;
use crate::command::CommandView;
use crate::node::{
    announced_before, announcement_fits, announcements_fit, relax_all_fits, relax_step_fits,
    forget_routes, routed_through,
    IDEAL_NUMBER_OF_NEIGHBORS, IncomingView, LinkInfoView, NodeView, available_peers, can_allocate, route_via, OutgoingView, add_ice, all_peers, complete_peer_draw, draw_requests,
    generate_offer, ice_cmds, link_closed, link_established, next_id, on_answer_generated, on_offer_generated,
    packet_step, receive_direct, receive_offer, receive_packet, share_cmds, share_routing_info, tick, announcements, broadcast, broadcast_cmds, dear_john_cmds, direct_step,
    eval_neighbors, next_hop, only_peer, peer_on_link, post_greeting, push_cmd, relax, relax_all, send_direct,
    send_to, update_routing_table,
};
use crate::packet::{PacketBodyView, PacketView};
use crate::peer_map::{assoc_insert, assoc_remove, distinct_keys, drop_value, has_key, lemma_assoc_ops, lemma_drop_value, lemma_key_index, lookup};
use crate::perigee::{Observation, PacketID, PerigeeView, garbage_collected_after, observe};
use crate::routing_entry::{RoutingCost, RoutingEntry};

verus! {

/// `m`'s command queue is `n`'s with commands appended.
pub open spec fn appends(n: NodeView, m: NodeView) -> bool {
    n.queue.is_prefix_of(m.queue)
}

proof fn lemma_appends_trans(a: NodeView, b: NodeView, c: NodeView)
    requires
        appends(a, b),
        appends(b, c),
    ensures
        appends(a, c),
{
    assert forall|i: int| 0 <= i < a.queue.len() implies a.queue[i] == c.queue.subrange(0, a.queue.len() as int)[i] by {
        assert(a.queue[i] == b.queue.subrange(0, a.queue.len() as int)[i]);
        assert(b.queue[i] == c.queue.subrange(0, b.queue.len() as int)[i]);
    }
    assert(a.queue =~= c.queue.subrange(0, a.queue.len() as int));
}

proof fn lemma_appends_concat(n: NodeView, m: NodeView, s: Seq<CommandView>)
    requires
        m.queue == n.queue + s,
    ensures
        appends(n, m),
{
    assert(n.queue =~= m.queue.subrange(0, n.queue.len() as int));
}

proof fn lemma_appends_same(n: NodeView, m: NodeView)
    requires
        m.queue == n.queue,
    ensures
        appends(n, m),
{
    assert(n.queue =~= m.queue.subrange(0, n.queue.len() as int));
}

proof fn lemma_push_appends(n: NodeView, c: CommandView)
    ensures
        appends(n, push_cmd(n, c)),
{
    assert(push_cmd(n, c).queue =~= n.queue + seq![c]);
    lemma_appends_concat(n, push_cmd(n, c), seq![c]);
}

proof fn lemma_send_to_appends(n: NodeView, destination: Seq<char>, body: PacketBodyView)
    ensures
        appends(n, send_to(n, destination, body)),
{
    match next_hop(n, destination) {
        Some(link) => lemma_push_appends(n, CommandView::Send { link_id: link, packet: crate::packet::packet_of(n.my_id, destination, body) }),
        None => lemma_appends_same(n, n),
    }
}

proof fn lemma_broadcast_appends(n: NodeView, exclude: Option<i32>, body: crate::direct_packet::DirectBodyView)
    ensures
        appends(n, broadcast(n, exclude, body)),
{
    lemma_appends_concat(n, broadcast(n, exclude, body), broadcast_cmds(n.neighbors, exclude, crate::direct_packet::direct_packet_of(body)));
}

proof fn lemma_eval_appends(n: NodeView)
    ensures
        appends(n, eval_neighbors(n)),
{
    lemma_appends_concat(n, eval_neighbors(n), dear_john_cmds(n.neighbors, Seq::empty()));
}

proof fn lemma_relax_all_appends(n: NodeView, link: i32, entries: Seq<(Seq<char>, RoutingCost)>)
    ensures
        appends(n, relax_all(n, link, entries)),
    decreases entries.len(),
{
    if entries.len() == 0 {
        lemma_appends_same(n, n);
    } else {
        let m = relax(n, link, entries[0]);
        let (peer, cost) = entries[0];
        if peer != n.my_id {
            if let Some(current) = lookup(n.routing, peer) {
                if !(cost + 1 < current.routing_cost) && cost >= current.routing_cost && link == current.next_hop.0 {
                    lemma_push_appends(n, CommandView::SendDirect {
                        link_id: link,
                        packet: crate::direct_packet::direct_packet_of(
                            crate::direct_packet::DirectBodyView::RouteTraceFromOriginatorToTarget { target: peer, trace: seq![n.my_id] },
                        ),
                    });
                } else {
                    lemma_appends_same(n, m);
                }
            } else {
                lemma_appends_same(n, m);
            }
        } else {
            lemma_appends_same(n, m);
        }
        lemma_relax_all_appends(m, link, entries.drop_first());
        lemma_appends_trans(n, m, relax_all(m, link, entries.drop_first()));
    }
}

proof fn lemma_forget_appends(n: NodeView, lost: Seq<Seq<char>>)
    ensures
        appends(n, forget_routes(n, lost)),
    decreases lost.len(),
{
    if lost.len() == 0 {
        lemma_appends_same(n, n);
    } else {
        let forgot = NodeView { routing: assoc_remove(n.routing, lost[0]), ..n };
        let m = broadcast(forgot, None, DirectBodyView::LostRouteTo { peer: lost[0] });
        lemma_appends_same(n, forgot);
        lemma_broadcast_appends(forgot, None, DirectBodyView::LostRouteTo { peer: lost[0] });
        lemma_appends_trans(n, forgot, m);
        lemma_forget_appends(m, lost.drop_first());
        lemma_appends_trans(n, m, forget_routes(m, lost.drop_first()));
    }
}

proof fn lemma_link_closed_appends(n: NodeView, link: i32)
    ensures
        appends(n, link_closed(n, link)),
{
    let closed = NodeView {
        neighbors: drop_value(n.neighbors, LinkID(link)),
        incoming: n.incoming.remove(link),
        outgoing: n.outgoing.remove(link),
        link_info: n.link_info.remove(link),
        ..n
    };
    let f = forget_routes(closed, routed_through(n.routing, link));
    lemma_appends_same(n, closed);
    lemma_forget_appends(closed, routed_through(n.routing, link));
    lemma_appends_trans(n, closed, f);
    lemma_eval_appends(f);
    lemma_appends_trans(n, f, eval_neighbors(f));
}

proof fn lemma_update_appends(n: NodeView, link: i32, entries: Seq<(Seq<char>, RoutingCost)>)
    ensures
        appends(n, update_routing_table(n, link, entries)),
{
    let m = relax_all(n, link, entries);
    lemma_relax_all_appends(n, link, entries);
    lemma_eval_appends(m);
    lemma_appends_trans(n, m, eval_neighbors(m));
}

proof fn lemma_post_greeting_appends(n: NodeView, link: i32)
    ensures
        appends(n, post_greeting(n, link)),
{
    lemma_appends_same(n, n);
    lemma_push_appends(n, CommandView::SendDirect { link_id: link, packet: crate::direct_packet::direct_packet_of(
        crate::direct_packet::DirectBodyView::RoutingInformationExchange {
            entries: match peer_on_link(n.neighbors, link) {
                Some(them) => announcements(n.routing, only_peer(them)),
                None => announcements(n.routing, all_peers()),
            },
        },
    ) });
}

proof fn lemma_direct_step_appends(n: NodeView, link: i32, packet: DirectPacketView)
    ensures
        appends(n, direct_step(n, link, packet)),
{
    lemma_appends_same(n, n);
    assert forall|c: CommandView| #[trigger] appends(n, push_cmd(n, c)) by {
        lemma_push_appends(n, c);
    }
    match packet.body {
        crate::direct_packet::DirectBodyView::DistanceIncrease { peer, trace } => {
            let forgot = NodeView { routing: assoc_remove(n.routing, peer), ..n };
            lemma_appends_same(n, forgot);
            lemma_broadcast_appends(forgot, None, crate::direct_packet::DirectBodyView::LostRouteTo { peer });
            lemma_appends_trans(n, forgot, broadcast(forgot, None, crate::direct_packet::DirectBodyView::LostRouteTo { peer }));
            if let Some(hop) = next_hop(n, peer) {
                let longer = trace.push(n.my_id);
                let m = NodeView {
                    routing: crate::peer_map::assoc_insert(
                        n.routing,
                        peer,
                        crate::routing_entry::RoutingEntry { next_hop: LinkID(hop), routing_cost: longer.len() as RoutingCost },
                    ),
                    ..n
                };
                lemma_appends_same(n, m);
                lemma_broadcast_appends(m, Some(link), crate::direct_packet::DirectBodyView::DistanceIncrease { peer, trace: longer });
                lemma_appends_trans(n, m, broadcast(m, Some(link), crate::direct_packet::DirectBodyView::DistanceIncrease { peer, trace: longer }));
            }
        },
        crate::direct_packet::DirectBodyView::Greetings { me, supported_versions } => {
            let info = if n.link_info.contains_key(link) {
                n.link_info.insert(link, LinkInfoView { protocal_out: Some("Rust:0.1"@), ..n.link_info[link] })
            } else {
                n.link_info
            };
            let m = NodeView {
                link_info: info,
                neighbors: crate::peer_map::assoc_insert(n.neighbors, me, LinkID(link)),
                routing: crate::peer_map::assoc_insert(n.routing, me, crate::routing_entry::RoutingEntry { next_hop: LinkID(link), routing_cost: 0 }),
                ..n
            };
            lemma_appends_same(n, m);
            lemma_push_appends(m, CommandView::SendDirect { link_id: link, packet: crate::direct_packet::direct_packet_of(
                crate::direct_packet::DirectBodyView::TellItToMeIn { version: "Rust:0.1"@ },
            ) });
            lemma_appends_trans(n, m, send_direct(m, link, crate::direct_packet::DirectBodyView::TellItToMeIn { version: "Rust:0.1"@ }));
        },
        crate::direct_packet::DirectBodyView::LostRouteTo { peer } => {
            lemma_broadcast_appends(n, None, crate::direct_packet::DirectBodyView::LostRouteTo { peer });
        },
        crate::direct_packet::DirectBodyView::RouteTraceFromOriginatorToTarget { target, trace } => {
            if trace.len() > 0 {
                lemma_send_to_appends(n, trace[0], PacketBodyView::ReturnRouteTrace { trace });
            }
        },
        crate::direct_packet::DirectBodyView::RoutingInformationExchange { entries } => {
            lemma_update_appends(n, link, entries);
        },
        _ => {},
    }
}

proof fn lemma_draw_appends(n: NodeView, candidates: Seq<Seq<char>>, count: nat, picks: Seq<u32>)
    ensures
        appends(n, draw_requests(n, candidates, count, picks)),
    decreases picks.len(),
{
    if count == 0 || picks.len() == 0 || candidates.len() == 0 {
        lemma_appends_same(n, n);
    } else {
        let index = picks[0] as int % candidates.len() as int;
        let m = send_to(n, candidates[index], PacketBodyView::RequestOffer);
        lemma_send_to_appends(n, candidates[index], PacketBodyView::RequestOffer);
        lemma_draw_appends(m, candidates.remove(index), (count - 1) as nat, picks.drop_first());
        lemma_appends_trans(n, m, draw_requests(m, candidates.remove(index), (count - 1) as nat, picks.drop_first()));
    }
}

proof fn lemma_packet_step_appends(n: NodeView, link: i32, packet: PacketView)
    ensures
        appends(n, packet_step(n, link, packet)),
{
    lemma_appends_same(n, n);
    assert forall|c: CommandView| #[trigger] appends(n, push_cmd(n, c)) by {
        lemma_push_appends(n, c);
    }
    if packet.destination == n.my_id {
        match packet.body {
            PacketBodyView::Answer { answer, offer_id, ice } => {
                let r = packet_step(n, link, packet);
                assert(r.queue =~= n.queue + (seq![CommandView::AnswerOffer { link_id: offer_id, answer }] + ice_cmds(offer_id, ice)));
                lemma_appends_concat(n, r, seq![CommandView::AnswerOffer { link_id: offer_id, answer }] + ice_cmds(offer_id, ice));
            },
            PacketBodyView::Offer { offer, offer_id, ice } => {
                let r = packet_step(n, link, packet);
                assert(r.queue =~= n.queue + (seq![CommandView::GenerateAnswer { link_id: next_id(n), offer }] + ice_cmds(next_id(n), ice)));
                lemma_appends_concat(n, r, seq![CommandView::GenerateAnswer { link_id: next_id(n), offer }] + ice_cmds(next_id(n), ice));
            },
            PacketBodyView::RequestOffer => {
                let r = packet_step(n, link, packet);
                assert(r.queue =~= n.queue + seq![CommandView::GenerateOffer(next_id(n))]);
                lemma_appends_concat(n, r, seq![CommandView::GenerateOffer(next_id(n))]);
            },
            PacketBodyView::ReturnRouteTrace { trace } => {
                let source = packet.source;
                let removed = NodeView { routing: assoc_remove(n.routing, source), ..n };
                lemma_appends_same(n, removed);
                lemma_broadcast_appends(removed, None, DirectBodyView::LostRouteTo { peer: source });
                lemma_appends_trans(n, removed, broadcast(removed, None, DirectBodyView::LostRouteTo { peer: source }));
                if let Some(hop) = next_hop(n, source) {
                    let inserted = NodeView {
                        routing: assoc_insert(
                            n.routing,
                            source,
                            RoutingEntry { next_hop: LinkID(hop), routing_cost: ((trace.len() - 1) as RoutingCost + 1) as RoutingCost },
                        ),
                        ..n
                    };
                    lemma_appends_same(n, inserted);
                    lemma_broadcast_appends(inserted, Some(link), DirectBodyView::DistanceIncrease { peer: source, trace });
                    lemma_appends_trans(n, inserted, broadcast(inserted, Some(link), DirectBodyView::DistanceIncrease { peer: source, trace }));
                }
            },
            _ => {},
        }
    }
}

proof fn lemma_share_appends(n: NodeView)
    ensures
        appends(n, share_routing_info(n)),
{
    lemma_appends_concat(n, share_routing_info(n), share_cmds(n.neighbors, n.routing));
}

/// Every operation of the node only appends to its command queue: the
/// commands already queued stay, in order, ahead of the new ones.
pub proof fn law_operations_only_append(
    n: NodeView,
    link: i32,
    direct: DirectPacketView,
    packet: PacketView,
    picks: Seq<u32>,
    peer: Option<Seq<char>>,
    text: Seq<char>,
    offer_id: i32,
    ice: IceView,
)
    ensures
        appends(n, receive_direct(n, link, direct)),
        appends(n, receive_packet(n, link, packet)),
        appends(n, link_closed(n, link)),
        appends(n, link_established(n, link)),
        appends(n, tick(n)),
        appends(n, eval_neighbors(n)),
        appends(n, share_routing_info(n)),
        appends(n, complete_peer_draw(n, picks)),
        appends(n, generate_offer(n, peer)),
        appends(n, receive_offer(n, text, offer_id, peer)),
        appends(n, on_answer_generated(n, link, text)),
        appends(n, on_offer_generated(n, link, text)),
        appends(n, add_ice(n, link, ice)),
{
    assert forall|m: NodeView, c: CommandView| #[trigger] appends(m, push_cmd(m, c)) by {
        lemma_push_appends(m, c);
    }
    assert forall|m: NodeView, d: Seq<char>, b: PacketBodyView| #[trigger] appends(m, send_to(m, d, b)) by {
        lemma_send_to_appends(m, d, b);
    }
    assert forall|m: NodeView| #[trigger] appends(m, eval_neighbors(m)) by {
        lemma_eval_appends(m);
    }
    assert forall|a: NodeView, b: NodeView, c: NodeView| #[trigger] appends(a, b) && #[trigger] appends(b, c) implies appends(a, c) by {
        lemma_appends_trans(a, b, c);
    }
    lemma_appends_same(n, n);
    // receive_direct
    let m = if n.link_info.contains_key(link) { direct_step(n, link, direct) } else { n };
    lemma_direct_step_appends(n, link, direct);
    let flagged = NodeView { link_info: m.link_info.insert(link, LinkInfoView { post_init_greeting: true, ..m.link_info[link] }), ..m };
    lemma_appends_same(m, flagged);
    lemma_post_greeting_appends(flagged, link);
    lemma_appends_trans(m, flagged, post_greeting(flagged, link));
    lemma_appends_trans(n, m, post_greeting(flagged, link));
    // receive_packet
    lemma_packet_step_appends(n, link, packet);
    // link_closed
    lemma_link_closed_appends(n, link);
    // tick
    lemma_eval_appends(n);
    lemma_share_appends(eval_neighbors(n));
    lemma_share_appends(n);
    // link_established
    let est = NodeView {
        incoming: n.incoming.remove(link),
        outgoing: n.outgoing.remove(link),
        link_info: n.link_info.insert(link, LinkInfoView { protocal_in: None, protocal_out: None, post_init_greeting: false }),
        ..n
    };
    lemma_appends_same(n, est);
    // complete_peer_draw
    if let Some((candidates, count)) = n.draw {
        let cleared = NodeView { draw: None, ..n };
        lemma_appends_same(n, cleared);
        lemma_draw_appends(cleared, candidates, count, picks);
    }
    // generate_offer, receive_offer
    assert(generate_offer(n, peer).queue =~= n.queue + seq![CommandView::GenerateOffer(next_id(n))]);
    lemma_appends_concat(n, generate_offer(n, peer), seq![CommandView::GenerateOffer(next_id(n))]);
    assert(receive_offer(n, text, offer_id, peer).queue =~= n.queue + seq![CommandView::GenerateAnswer { link_id: next_id(n), offer: text }]);
    lemma_appends_concat(n, receive_offer(n, text, offer_id, peer), seq![CommandView::GenerateAnswer { link_id: next_id(n), offer: text }]);
    // on_answer_generated, on_offer_generated, add_ice
    if n.outgoing.contains_key(link) {
        let o = n.outgoing[link];
        let a = NodeView { outgoing: n.outgoing.insert(link, OutgoingView { answer: Some(text), ..o }), ..n };
        lemma_appends_same(n, a);
    }
    if n.incoming.contains_key(link) {
        let i = n.incoming[link];
        let a = NodeView { incoming: n.incoming.insert(link, IncomingView { offer: Some(text), ..i }), ..n };
        lemma_appends_same(n, a);
    }
    lemma_appends_same(n, add_ice(n, link, ice));
}

proof fn lemma_relax_step(n: NodeView, link: i32, entry: (Seq<char>, RoutingCost))
    requires
        distinct_keys(n.routing),
    ensures
        distinct_keys(relax(n, link, entry).routing),
        relax(n, link, entry).my_id == n.my_id,
        relax(n, link, entry).neighbors == n.neighbors,
        forall|p: Seq<char>| has_key(n.routing, p) ==> #[trigger] has_key(relax(n, link, entry).routing, p),
        entry.0 != n.my_id ==> has_key(relax(n, link, entry).routing, entry.0),
        forall|p: Seq<char>| !has_key(n.routing, p) && p != entry.0 ==> !#[trigger] has_key(relax(n, link, entry).routing, p),
{
    let (peer, cost) = entry;
    let r = relax(n, link, entry);
    let ins = assoc_insert(n.routing, peer, route_via(link, cost));
    lemma_assoc_ops(n.routing, peer, route_via(link, cost));
    assert(r.routing == n.routing || (r.routing == ins && peer != n.my_id));
    assert forall|p: Seq<char>| has_key(n.routing, p) implies #[trigger] has_key(r.routing, p) by {
        assert(lookup(ins, p) == if p == peer { Some(route_via(link, cost)) } else { lookup(n.routing, p) });
    }
    assert forall|p: Seq<char>| !has_key(n.routing, p) && p != entry.0 implies !#[trigger] has_key(r.routing, p) by {
        assert(lookup(ins, p) == lookup(n.routing, p));
    }
    if peer != n.my_id {
        assert(lookup(ins, peer) == Some(route_via(link, cost)));
        if lookup(n.routing, peer) is None {
            assert(r.routing == ins);
        }
    }
}

/// Relaxing a list of announcements overflows no cost exactly when each
/// announcement at the highest cost is about this node, a peer already in
/// the table, or a peer announced earlier in the list.
pub proof fn law_announcements_fit_exactly(n: NodeView, link: i32, entries: Seq<(Seq<char>, RoutingCost)>)
    requires
        distinct_keys(n.routing),
    ensures
        relax_all_fits(n, link, entries) <==> announcements_fit(n, entries),
    decreases entries.len(),
{
    if entries.len() > 0 {
        let e0 = entries[0];
        let rest = entries.drop_first();
        let m = relax(n, link, e0);
        lemma_relax_step(n, link, e0);
        law_announcements_fit_exactly(m, link, rest);
        assert(relax_step_fits(n, e0) <==> announcement_fits(n, entries, 0));
        assert forall|i: int| 1 <= i < entries.len() implies (announcement_fits(n, entries, i) <==> announcement_fits(m, rest, i - 1)) by {
            assert(rest[i - 1] == entries[i]);
            let q = entries[i].0;
            if announced_before(entries, i) {
                let j = choose|j: int| 0 <= j < i && #[trigger] entries[j].0 == entries[i].0;
                if j > 0 {
                    assert(rest[j - 1] == entries[j]);
                    assert(announced_before(rest, i - 1));
                }
            }
            if announced_before(rest, i - 1) {
                let j = choose|j: int| 0 <= j < i - 1 && #[trigger] rest[j].0 == rest[i - 1].0;
                assert(rest[j] == entries[j + 1]);
                assert(announced_before(entries, i));
            }
            if q == e0.0 {
                assert(entries[0].0 == entries[i].0);
                assert(announced_before(entries, i));
                if e0.0 == n.my_id {
                    assert(m == n);
                }
            }
        }
        if announcements_fit(n, entries) {
            assert(announcement_fits(n, entries, 0));
            assert forall|i: int| 0 <= i < rest.len() implies #[trigger] announcement_fits(m, rest, i) by {
                assert(announcement_fits(n, entries, i + 1));
            }
        }
        if relax_all_fits(n, link, entries) {
            assert forall|i: int| 0 <= i < entries.len() implies #[trigger] announcement_fits(n, entries, i) by {
                if i > 0 {
                    assert(announcement_fits(m, rest, i - 1));
                }
            }
        }
    }
}

/// Relaxing announcements (Bellman-Ford) never loses a route, gives a route
/// to every announced peer other than the node itself, never adds a route to
/// the node itself, and keeps every peer at most once in the table. The
/// neighbors are not changed.
pub proof fn law_relaxation_keeps_and_adds_routes(n: NodeView, link: i32, entries: Seq<(Seq<char>, RoutingCost)>)
    requires
        distinct_keys(n.routing),
    ensures
        distinct_keys(update_routing_table(n, link, entries).routing),
        update_routing_table(n, link, entries).neighbors == n.neighbors,
        forall|p: Seq<char>| has_key(n.routing, p) ==> #[trigger] has_key(update_routing_table(n, link, entries).routing, p),
        forall|i: int| 0 <= i < entries.len() && entries[i].0 != n.my_id ==> has_key(
            update_routing_table(n, link, entries).routing,
            #[trigger] entries[i].0,
        ),
        !has_key(n.routing, n.my_id) ==> !has_key(update_routing_table(n, link, entries).routing, n.my_id),
    decreases entries.len(),
{
    if entries.len() > 0 {
        let m = relax(n, link, entries[0]);
        lemma_relax_step(n, link, entries[0]);
        let rest = entries.drop_first();
        law_relaxation_keeps_and_adds_routes(m, link, rest);
        assert(update_routing_table(n, link, entries).routing == update_routing_table(m, link, rest).routing);
        assert forall|i: int| 0 <= i < entries.len() && entries[i].0 != n.my_id implies has_key(
            update_routing_table(n, link, entries).routing,
            #[trigger] entries[i].0,
        ) by {
            if i > 0 {
                assert(rest[i - 1] == entries[i]);
            }
        }
    }
}

/// Every entry through `link` has its peer among those routed through it.
proof fn lemma_routed_through(routing: Seq<(Seq<char>, RoutingEntry)>, link: i32)
    ensures
        forall|i: int| 0 <= i < routing.len() && (#[trigger] routing[i]).1.next_hop.0 == link
            ==> routed_through(routing, link).contains(routing[i].0),
    decreases routing.len(),
{
    if routing.len() > 0 {
        let rest = routing.drop_last();
        lemma_routed_through(rest, link);
        assert forall|i: int| 0 <= i < routing.len() && (#[trigger] routing[i]).1.next_hop.0 == link
            implies routed_through(routing, link).contains(routing[i].0) by {
            if i < routing.len() - 1 {
                assert(routing[i] == rest[i]);
                let r = routed_through(rest, link);
                let k = choose|k: int| 0 <= k < r.len() && r[k] == routing[i].0;
                assert(routed_through(routing, link)[k] == r[k]);
            } else {
                let r = routed_through(routing, link);
                assert(r[r.len() - 1] == routing[i].0);
            }
        }
    }
}

/// Forgetting routes removes exactly the lost peers from the routing table and
/// leaves the neighbors alone.
proof fn lemma_forget_routes(n: NodeView, lost: Seq<Seq<char>>)
    requires
        distinct_keys(n.routing),
    ensures
        forget_routes(n, lost).neighbors == n.neighbors,
        distinct_keys(forget_routes(n, lost).routing),
        forall|p: Seq<char>| #[trigger] lookup(forget_routes(n, lost).routing, p)
            == if lost.contains(p) { None } else { lookup(n.routing, p) },
    decreases lost.len(),
{
    if lost.len() > 0 {
        let forgot = NodeView { routing: assoc_remove(n.routing, lost[0]), ..n };
        let m = broadcast(forgot, None, DirectBodyView::LostRouteTo { peer: lost[0] });
        lemma_assoc_ops(n.routing, lost[0], arbitrary());
        lemma_forget_routes(m, lost.drop_first());
        assert forall|p: Seq<char>| #[trigger] lookup(forget_routes(n, lost).routing, p)
            == if lost.contains(p) { None } else { lookup(n.routing, p) } by {
            assert(lookup(forgot.routing, p) == if p == lost[0] { None } else { lookup(n.routing, p) });
            if lost.drop_first().contains(p) {
                let k = choose|k: int| 0 <= k < lost.drop_first().len() && lost.drop_first()[k] == p;
                assert(lost[k + 1] == p);
            }
            if lost.contains(p) && p != lost[0] {
                let k = choose|k: int| 0 <= k < lost.len() && lost[k] == p;
                assert(lost.drop_first()[k - 1] == p);
            }
            assert(lost[0] == lost[0]);
        }
    }
}

/// After a link closes no neighbor is on it and no route goes through it,
/// every other neighbor and route stays, and peers stay distinct.
pub proof fn law_closed_link_is_forgotten(n: NodeView, link: i32)
    requires
        distinct_keys(n.neighbors),
        distinct_keys(n.routing),
    ensures
        forall|e: (Seq<char>, LinkID)| #[trigger] link_closed(n, link).neighbors.contains(e) ==> e.1 != LinkID(link),
        forall|e: (Seq<char>, LinkID)| n.neighbors.contains(e) && e.1 != LinkID(link) ==> #[trigger] link_closed(n, link).neighbors.contains(e),
        distinct_keys(link_closed(n, link).neighbors),
        forall|p: Seq<char>| #[trigger] lookup(link_closed(n, link).routing, p) is Some
            ==> lookup(link_closed(n, link).routing, p)->0.next_hop != LinkID(link),
        forall|p: Seq<char>| #[trigger] lookup(n.routing, p) is Some && lookup(n.routing, p)->0.next_hop != LinkID(link)
            ==> lookup(link_closed(n, link).routing, p) == lookup(n.routing, p),
        distinct_keys(link_closed(n, link).routing),
{
    lemma_drop_value(n.neighbors, LinkID(link));
    let closed = NodeView {
        neighbors: drop_value(n.neighbors, LinkID(link)),
        incoming: n.incoming.remove(link),
        outgoing: n.outgoing.remove(link),
        link_info: n.link_info.remove(link),
        ..n
    };
    let lost = routed_through(n.routing, link);
    lemma_forget_routes(closed, lost);
    lemma_routed_through(n.routing, link);
    let r = link_closed(n, link);
    assert(r.routing == forget_routes(closed, lost).routing);
    assert(r.neighbors == closed.neighbors);
    assert forall|p: Seq<char>| #[trigger] lookup(r.routing, p) is Some implies lookup(r.routing, p)->0.next_hop != LinkID(link) by {
        assert(!lost.contains(p));
        lemma_key_index(n.routing, p);
        let i = crate::peer_map::key_index(n.routing, p);
        assert(n.routing[i].0 == p);
    }
    assert forall|p: Seq<char>| #[trigger] lookup(n.routing, p) is Some && lookup(n.routing, p)->0.next_hop != LinkID(link)
        implies lookup(r.routing, p) == lookup(n.routing, p) by {
        if lost.contains(p) {
            let k = choose|k: int| 0 <= k < lost.len() && lost[k] == p;
            lemma_routed_through_only(n.routing, link);
            lemma_key_index(n.routing, p);
        }
    }
}

/// Every peer routed through `link` has an entry through it.
proof fn lemma_routed_through_only(routing: Seq<(Seq<char>, RoutingEntry)>, link: i32)
    requires
        distinct_keys(routing),
    ensures
        forall|p: Seq<char>| #[trigger] routed_through(routing, link).contains(p)
            ==> lookup(routing, p) is Some && lookup(routing, p)->0.next_hop.0 == link,
    decreases routing.len(),
{
    if routing.len() > 0 {
        let rest = routing.drop_last();
        assert(distinct_keys(rest)) by {
            assert forall|i: int, j: int| 0 <= i < j < rest.len() implies rest[i].0 != rest[j].0 by {
                assert(rest[i] == routing[i] && rest[j] == routing[j]);
            }
        }
        lemma_routed_through_only(rest, link);
        assert forall|p: Seq<char>| #[trigger] routed_through(routing, link).contains(p)
            implies lookup(routing, p) is Some && lookup(routing, p)->0.next_hop.0 == link by {
            let r = routed_through(routing, link);
            let rr = routed_through(rest, link);
            let k = choose|k: int| 0 <= k < r.len() && r[k] == p;
            lemma_key_index(routing, p);
            lemma_key_index(rest, p);
            if k < rr.len() {
                assert(rr[k] == p);
                assert(rr.contains(p));
                let j = crate::peer_map::key_index(rest, p);
                assert(routing[j] == rest[j]);
                crate::peer_map::lemma_key_index_unique(routing, j);
            } else {
                crate::peer_map::lemma_key_index_unique(routing, routing.len() - 1);
            }
        }
    }
}

/// A verified greeting, in a version this node speaks, from a peer that is
/// not yet a neighbor makes it a neighbor on that link, with a route of cost
/// zero through the link, and records the version the other side speaks.
pub proof fn law_greeting_makes_neighbor(n: NodeView, link: i32, me: Seq<char>, versions: Seq<Seq<char>>)
    requires
        distinct_keys(n.neighbors),
        distinct_keys(n.routing),
        n.link_info.contains_key(link),
        !has_key(n.neighbors, me),
        versions.contains("Rust:0.1"@),
    ensures
        ({
            let r = receive_direct(n, link, direct_packet_of(DirectBodyView::Greetings { me, supported_versions: versions }));
            &&& lookup(r.neighbors, me) == Some(LinkID(link))
            &&& lookup(r.routing, me) == Some(RoutingEntry { next_hop: LinkID(link), routing_cost: 0 })
            &&& r.link_info[link].protocal_out == Some("Rust:0.1"@)
            &&& (me != "User"@ ==> next_hop(r, me) == Some(link))
        }),
{
    lemma_assoc_ops(n.neighbors, me, LinkID(link));
    lemma_assoc_ops(n.routing, me, RoutingEntry { next_hop: LinkID(link), routing_cost: 0 });
}

/// Identifiers are handed out in increasing order: each offer or answer gets
/// a number above every one handed out before.
pub proof fn law_identifiers_are_fresh(n: NodeView, peer: Option<Seq<char>>, offer: Seq<char>, offer_id: i32)
    requires
        can_allocate(n),
    ensures
        next_id(n) > n.counter,
        generate_offer(n, peer).counter == next_id(n),
        receive_offer(n, offer, offer_id, peer).counter == next_id(n),
        generate_offer(n, peer).incoming.contains_key(next_id(n)),
        receive_offer(n, offer, offer_id, peer).outgoing.contains_key(next_id(n)),
{
}

proof fn lemma_available_peers(routing: Seq<(Seq<char>, RoutingEntry)>, neighbors: Seq<(Seq<char>, LinkID)>)
    ensures
        available_peers(routing, neighbors).len() <= routing.len(),
        forall|i: int| 0 <= i < available_peers(routing, neighbors).len() ==> {
            &&& has_key(routing, #[trigger] available_peers(routing, neighbors)[i])
            &&& !has_key(neighbors, available_peers(routing, neighbors)[i])
        },
    decreases routing.len(),
{
    if routing.len() > 0 {
        let rest = routing.drop_last();
        lemma_available_peers(rest, neighbors);
        let a = available_peers(routing, neighbors);
        let ar = available_peers(rest, neighbors);
        assert forall|i: int| 0 <= i < a.len() implies has_key(routing, #[trigger] a[i]) && !has_key(neighbors, a[i]) by {
            if i < ar.len() {
                assert(a[i] == ar[i]);
                lemma_key_index(rest, a[i]);
                lemma_key_index(routing, a[i]);
                let j = crate::peer_map::key_index(rest, a[i]);
                assert(routing[j] == rest[j]);
            } else {
                lemma_key_index(routing, a[i]);
                assert(routing[routing.len() - 1].0 == a[i]);
            }
        }
    }
}

/// What the host generates for an offer is what the node gives back for it:
/// after an offer is started, a candidate added and the offer generated, the
/// offer recorded under its identifier holds that offer and that candidate,
/// for the peer it was started for.
pub proof fn law_generated_offer_is_recorded(n: NodeView, peer: Option<Seq<char>>, ice: IceView, offer: Seq<char>)
    requires
        can_allocate(n),
    ensures
        ({
            let id = next_id(n);
            let r = on_offer_generated(add_ice(generate_offer(n, peer), id, ice), id, offer);
            &&& r.incoming.contains_key(id)
            &&& r.incoming[id] == (IncomingView { for_peer: peer, offer: Some(offer), ice: seq![ice] })
        }),
{
    let id = next_id(n);
    let m = add_ice(generate_offer(n, peer), id, ice);
    assert(m.incoming[id].ice =~= seq![ice]);
    match peer {
        Some(p) => {
            let k = NodeView { incoming: m.incoming.insert(id, IncomingView { offer: Some(offer), ..m.incoming[id] }), ..m };
            assert(send_to(k, p, PacketBodyView::Offer { offer, offer_id: id, ice: m.incoming[id].ice }).incoming == k.incoming);
        },
        None => {},
    }
}

/// What the host generates for an answer is what the node gives back for it:
/// after an offer is received and its answer generated, the answer recorded
/// under the new link holds that answer, for the offer it answers and the
/// peer that sent it.
pub proof fn law_generated_answer_is_recorded(n: NodeView, offer: Seq<char>, offer_id: i32, peer: Option<Seq<char>>, answer: Seq<char>)
    requires
        can_allocate(n),
    ensures
        ({
            let id = next_id(n);
            let r = on_answer_generated(receive_offer(n, offer, offer_id, peer), id, answer);
            &&& r.outgoing.contains_key(id)
            &&& r.outgoing[id] == (OutgoingView { peer, offer_id, answer: Some(answer), ice: Seq::empty() })
        }),
{
    let id = next_id(n);
    let m = receive_offer(n, offer, offer_id, peer);
    match peer {
        Some(p) => {
            let k = NodeView { outgoing: m.outgoing.insert(id, OutgoingView { answer: Some(answer), ..m.outgoing[id] }), ..m };
            assert(send_to(k, p, PacketBodyView::Answer { answer, offer_id, ice: m.outgoing[id].ice }).outgoing == k.outgoing);
        },
        None => {},
    }
}

/// With distinct keys, the peers available for a draw are distinct.
proof fn lemma_available_peers_distinct(routing: Seq<(Seq<char>, RoutingEntry)>, neighbors: Seq<(Seq<char>, LinkID)>)
    requires
        distinct_keys(routing),
    ensures
        available_peers(routing, neighbors).no_duplicates(),
    decreases routing.len(),
{
    if routing.len() > 0 {
        let rest = routing.drop_last();
        assert(distinct_keys(rest)) by {
            assert forall|i: int, j: int| 0 <= i < j < rest.len() implies rest[i].0 != rest[j].0 by {
                assert(rest[i] == routing[i] && rest[j] == routing[j]);
            }
        }
        lemma_available_peers_distinct(rest, neighbors);
        lemma_available_peers(rest, neighbors);
        let ar = available_peers(rest, neighbors);
        let last = routing.last().0;
        assert forall|i: int| 0 <= i < ar.len() implies ar[i] != last by {
            lemma_key_index(rest, ar[i]);
            let j = crate::peer_map::key_index(rest, ar[i]);
            assert(routing[j] == rest[j]);
        }
    }
}

/// The random draw that re-evaluating the neighbors asks for is over known
/// peers that are not neighbors, each once, and for no more of them than
/// there is room for under the ideal number of neighbors.
pub proof fn law_draw_stays_within_room(n: NodeView)
    requires
        distinct_keys(n.routing),
    ensures
        eval_neighbors(n).draw matches Some((candidates, count)) ==> {
            &&& 0 < count <= candidates.len()
            &&& n.neighbors.len() + count <= IDEAL_NUMBER_OF_NEIGHBORS
            &&& candidates.no_duplicates()
            &&& forall|i: int| 0 <= i < candidates.len() ==> has_key(n.routing, #[trigger] candidates[i]) && !has_key(n.neighbors, candidates[i])
        },
{
    lemma_available_peers(n.routing, n.neighbors);
    lemma_available_peers_distinct(n.routing, n.neighbors);
}

/// The peer that a command asks for an offer, if it is such a request.
pub open spec fn offer_request_to(c: CommandView) -> Option<Seq<char>> {
    match c {
        CommandView::Send { packet, .. } => if packet.body == PacketBodyView::RequestOffer {
            Some(packet.destination)
        } else {
            None
        },
        _ => None,
    }
}

/// The commands that `m` has after those of `n`.
pub open spec fn added(n: NodeView, m: NodeView) -> Seq<CommandView> {
    m.queue.subrange(n.queue.len() as int, m.queue.len() as int)
}

proof fn lemma_draw_requests(n: NodeView, candidates: Seq<Seq<char>>, count: nat, picks: Seq<u32>)
    requires
        candidates.no_duplicates(),
    ensures
        appends(n, draw_requests(n, candidates, count, picks)),
        added(n, draw_requests(n, candidates, count, picks)).len() <= count,
        forall|i: int| 0 <= i < added(n, draw_requests(n, candidates, count, picks)).len()
            ==> (#[trigger] offer_request_to(added(n, draw_requests(n, candidates, count, picks))[i]) matches Some(p) && candidates.contains(p)),
        forall|i: int, j: int| 0 <= i < j < added(n, draw_requests(n, candidates, count, picks)).len()
            ==> offer_request_to(#[trigger] added(n, draw_requests(n, candidates, count, picks))[i])
                != offer_request_to(#[trigger] added(n, draw_requests(n, candidates, count, picks))[j]),
    decreases picks.len(),
{
    lemma_draw_appends(n, candidates, count, picks);
    let r = draw_requests(n, candidates, count, picks);
    if count == 0 || picks.len() == 0 || candidates.len() == 0 {
        assert(added(n, r).len() == 0);
    } else {
        let index = picks[0] as int % candidates.len() as int;
        let x = candidates[index];
        let rest = candidates.remove(index);
        let m = send_to(n, x, PacketBodyView::RequestOffer);
        lemma_send_to_appends(n, x, PacketBodyView::RequestOffer);
        assert(rest.no_duplicates()) by {
            assert forall|i: int, j: int| 0 <= i < j < rest.len() implies rest[i] != rest[j] by {
                let a = if i < index { i } else { i + 1 };
                let b = if j < index { j } else { j + 1 };
                assert(rest[i] == candidates[a] && rest[j] == candidates[b]);
            }
        }
        assert forall|y: Seq<char>| rest.contains(y) implies candidates.contains(y) && y != x by {
            let i = choose|i: int| 0 <= i < rest.len() && rest[i] == y;
            let a = if i < index { i } else { i + 1 };
            assert(rest[i] == candidates[a]);
        }
        lemma_draw_requests(m, rest, (count - 1) as nat, picks.drop_first());
        assert(r == draw_requests(m, rest, (count - 1) as nat, picks.drop_first()));
        let head = added(n, m);
        let tail = added(m, r);
        assert(n.queue.len() <= m.queue.len() <= r.queue.len());
        assert(added(n, r) =~= head + tail);
        assert(head.len() <= 1);
        assert(head.len() == 1 ==> offer_request_to(head[0]) == Some(x)) by {
            if head.len() == 1 {
                assert(head[0] == m.queue[n.queue.len() as int]);
            }
        }
        assert forall|i: int| 0 <= i < added(n, r).len() implies (#[trigger] offer_request_to(added(n, r)[i]) matches Some(p) && candidates.contains(p)) by {
            if i >= head.len() {
                assert(added(n, r)[i] == tail[i - head.len()]);
            } else {
                assert(added(n, r)[i] == head[i]);
            }
        }
        assert forall|i: int, j: int| 0 <= i < j < added(n, r).len()
            implies offer_request_to(#[trigger] added(n, r)[i]) != offer_request_to(#[trigger] added(n, r)[j]) by {
            assert(added(n, r)[j] == tail[j - head.len()]);
            if i >= head.len() {
                assert(added(n, r)[i] == tail[i - head.len()]);
            } else {
                assert(added(n, r)[i] == head[i]);
                let t = tail[j - head.len()];
                assert(offer_request_to(t) matches Some(p) && rest.contains(p)) by {
                    assert(t == added(m, r)[j - head.len()]);
                }
            }
        }
    }
}

/// Completing the draw that re-evaluating the neighbors asked for only adds
/// offer requests, to distinct known peers that are not neighbors, and no
/// more of them than there is room for under the ideal number of neighbors.
pub proof fn law_draw_asks_distinct_known_peers(n: NodeView, picks: Seq<u32>)
    requires
        distinct_keys(n.routing),
    ensures
        ({
            let m = eval_neighbors(n);
            let r = complete_peer_draw(m, picks);
            &&& appends(m, r)
            &&& added(m, r).len() == 0 || n.neighbors.len() + added(m, r).len() <= IDEAL_NUMBER_OF_NEIGHBORS
            &&& forall|i: int| 0 <= i < added(m, r).len() ==> (#[trigger] offer_request_to(added(m, r)[i]) matches Some(p)
                && has_key(n.routing, p) && !has_key(n.neighbors, p))
            &&& forall|i: int, j: int| 0 <= i < j < added(m, r).len()
                ==> offer_request_to(#[trigger] added(m, r)[i]) != offer_request_to(#[trigger] added(m, r)[j])
        }),
{
    let m = eval_neighbors(n);
    law_draw_stays_within_room(n);
    match m.draw {
        Some((candidates, count)) => {
            let cleared = NodeView { draw: None, ..m };
            lemma_draw_requests(cleared, candidates, count, picks);
            lemma_appends_same(m, cleared);
            let r = complete_peer_draw(m, picks);
            assert(added(m, r) == added(cleared, r));
            assert forall|i: int| 0 <= i < added(m, r).len() implies (#[trigger] offer_request_to(added(m, r)[i]) matches Some(p)
                && has_key(n.routing, p) && !has_key(n.neighbors, p)) by {
                let p = offer_request_to(added(m, r)[i])->0;
                assert(candidates.contains(p));
                let k = choose|k: int| 0 <= k < candidates.len() && candidates[k] == p;
                assert(has_key(n.routing, candidates[k]));
            }
        },
        None => {
            lemma_appends_same(m, m);
            assert(added(m, m).len() == 0);
        },
    }
}

/// Every first sighting is no later than any delivery of that packet.
pub open spec fn firsts_are_earliest(p: PerigeeView) -> bool {
    forall|j: int, k: PacketID|
        0 <= j < p.observations.len() && #[trigger] p.observations[j].1.contains_key(k) && p.firsts.contains_key(k)
            ==> p.firsts[k].1 <= p.observations[j].1[k]
}

/// Every packet that a neighbor delivered has a first sighting.
pub open spec fn deliveries_have_firsts(p: PerigeeView) -> bool {
    forall|j: int, k: PacketID|
        0 <= j < p.observations.len() && #[trigger] p.observations[j].1.contains_key(k) ==> p.firsts.contains_key(k)
}

/// Observing keeps every delivered packet with a first sighting no later than
/// each of its deliveries, and never makes a first sighting later.
pub proof fn law_observe_keeps_first_sightings_earliest(p: PerigeeView, peer: Seq<char>, packet: PacketID, observation: Observation)
    requires
        distinct_keys(p.observations),
        firsts_are_earliest(p),
        deliveries_have_firsts(p),
    ensures
        firsts_are_earliest(observe(p, peer, packet, observation)),
        deliveries_have_firsts(observe(p, peer, packet, observation)),
        observe(p, peer, packet, observation).firsts[packet].1 <= observation,
        p.firsts.contains_key(packet) ==> observe(p, peer, packet, observation).firsts[packet].1 <= p.firsts[packet].1,
{
    let q = observe(p, peer, packet, observation);
    lemma_key_index(p.observations, peer);
    let i = crate::peer_map::key_index(p.observations, peer);
    assert forall|j: int, k: PacketID|
        0 <= j < q.observations.len() && #[trigger] q.observations[j].1.contains_key(k)
        implies q.firsts.contains_key(k) && q.firsts[k].1 <= q.observations[j].1[k] by {
        if q.observations == p.observations {
            assert(p.observations[j].1.contains_key(k));
        } else if i >= 0 {
            let m = p.observations[i].1;
            assert(q.observations == p.observations.update(i, (peer, m.insert(packet, observation))));
            if j == i {
                if k != packet {
                    assert(m.contains_key(k));
                    assert(p.observations[i].1.contains_key(k));
                }
            } else {
                assert(q.observations[j] == p.observations[j]);
                assert(p.observations[j].1.contains_key(k));
            }
        } else {
            assert(q.observations == p.observations.push((peer, Map::<PacketID, Observation>::empty().insert(packet, observation))));
            if j < p.observations.len() {
                assert(q.observations[j] == p.observations[j]);
                assert(p.observations[j].1.contains_key(k));
            }
        }
    }
}

/// Forgetting what came before a limit twice forgets no more than once.
pub proof fn law_garbage_collection_is_idempotent(p: PerigeeView, limit: Observation)
    ensures
        garbage_collected_after(garbage_collected_after(p, limit), limit) == garbage_collected_after(p, limit),
{
    let once = garbage_collected_after(p, limit);
    let twice = garbage_collected_after(once, limit);
    assert(twice.firsts =~= once.firsts);
    assert forall|j: int| 0 <= j < once.observations.len() implies twice.observations[j] == once.observations[j] by {
        assert(twice.observations[j].1 =~= once.observations[j].1);
    }
    assert(twice.observations =~= once.observations);
}

/// The cost of the route to `p`, if there is one.
pub open spec fn route_cost(routing: Seq<(Seq<char>, RoutingEntry)>, p: Seq<char>) -> Option<RoutingCost> {
    match lookup(routing, p) {
        Some(e) => Some(e.routing_cost),
        None => None,
    }
}

/// One announcement never makes a route worse and leaves the announced peer
/// (other than the node itself) with a route no worse than the announced
/// cost plus one.
proof fn lemma_relax_bounds(n: NodeView, link: i32, entry: (Seq<char>, RoutingCost))
    requires
        distinct_keys(n.routing),
    ensures
        forall|q: Seq<char>| #[trigger] lookup(n.routing, q) is Some ==> {
            &&& lookup(relax(n, link, entry).routing, q) is Some
            &&& lookup(relax(n, link, entry).routing, q)->0.routing_cost <= lookup(n.routing, q)->0.routing_cost
        },
        entry.0 != n.my_id ==> {
            &&& lookup(relax(n, link, entry).routing, entry.0) is Some
            &&& lookup(relax(n, link, entry).routing, entry.0)->0.routing_cost <= entry.1 + 1
        },
{
    let (peer, cost) = entry;
    lemma_assoc_ops(n.routing, peer, route_via(link, cost));
    let ins = assoc_insert(n.routing, peer, route_via(link, cost));
    assert forall|q: Seq<char>| #[trigger] lookup(n.routing, q) is Some implies {
        &&& lookup(relax(n, link, entry).routing, q) is Some
        &&& lookup(relax(n, link, entry).routing, q)->0.routing_cost <= lookup(n.routing, q)->0.routing_cost
    } by {
        assert(lookup(ins, q) == if q == peer { Some(route_via(link, cost)) } else { lookup(n.routing, q) });
    }
    assert(lookup(ins, peer) == Some(route_via(link, cost)));
}

proof fn lemma_relax_all_bounds(n: NodeView, link: i32, entries: Seq<(Seq<char>, RoutingCost)>)
    requires
        distinct_keys(n.routing),
    ensures
        relax_all(n, link, entries).my_id == n.my_id,
        distinct_keys(relax_all(n, link, entries).routing),
        forall|q: Seq<char>| #[trigger] lookup(n.routing, q) is Some ==> {
            &&& lookup(relax_all(n, link, entries).routing, q) is Some
            &&& lookup(relax_all(n, link, entries).routing, q)->0.routing_cost <= lookup(n.routing, q)->0.routing_cost
        },
        forall|i: int| 0 <= i < entries.len() && (#[trigger] entries[i]).0 != n.my_id ==> {
            &&& lookup(relax_all(n, link, entries).routing, entries[i].0) is Some
            &&& lookup(relax_all(n, link, entries).routing, entries[i].0)->0.routing_cost <= entries[i].1 + 1
        },
    decreases entries.len(),
{
    if entries.len() > 0 {
        let m = relax(n, link, entries[0]);
        let rest = entries.drop_first();
        lemma_relax_step(n, link, entries[0]);
        lemma_relax_bounds(n, link, entries[0]);
        lemma_relax_all_bounds(m, link, rest);
        let r = relax_all(n, link, entries);
        assert(r == relax_all(m, link, rest));
        assert forall|q: Seq<char>| #[trigger] lookup(n.routing, q) is Some implies {
            &&& lookup(r.routing, q) is Some
            &&& lookup(r.routing, q)->0.routing_cost <= lookup(n.routing, q)->0.routing_cost
        } by {
            assert(lookup(m.routing, q) is Some);
        }
        assert forall|i: int| 0 <= i < entries.len() && (#[trigger] entries[i]).0 != n.my_id implies {
            &&& lookup(r.routing, entries[i].0) is Some
            &&& lookup(r.routing, entries[i].0)->0.routing_cost <= entries[i].1 + 1
        } by {
            if i > 0 {
                assert(rest[i - 1] == entries[i]);
            } else {
                assert(lookup(m.routing, entries[0].0) is Some);
            }
        }
    }
}

/// Routing information never makes a known route worse, and after it is
/// taken in every announced peer other than the node itself has a route no
/// worse than its announced cost plus one, whichever link announced it.
pub proof fn law_routes_are_no_worse_than_announced(n: NodeView, link: i32, entries: Seq<(Seq<char>, RoutingCost)>)
    requires
        distinct_keys(n.routing),
    ensures
        forall|q: Seq<char>| #[trigger] lookup(n.routing, q) is Some ==> {
            &&& lookup(update_routing_table(n, link, entries).routing, q) is Some
            &&& lookup(update_routing_table(n, link, entries).routing, q)->0.routing_cost
                <= lookup(n.routing, q)->0.routing_cost
        },
        forall|i: int| 0 <= i < entries.len() && (#[trigger] entries[i]).0 != n.my_id ==> {
            &&& lookup(update_routing_table(n, link, entries).routing, entries[i].0) is Some
            &&& lookup(update_routing_table(n, link, entries).routing, entries[i].0)->0.routing_cost <= entries[i].1 + 1
        },
{
    lemma_relax_all_bounds(n, link, entries);
}

/// A single announcement of a peer that is new, or of a better route to a
/// known peer, routes the peer through the announcing link at the announced
/// cost plus one, whichever link that is; other routes stay.
pub proof fn law_better_route_replaces(n: NodeView, link: i32, peer: Seq<char>, cost: RoutingCost)
    requires
        distinct_keys(n.routing),
        peer != n.my_id,
        cost < RoutingCost::MAX,
        (lookup(n.routing, peer) is Some ==> cost + 1 < lookup(n.routing, peer)->0.routing_cost),
    ensures
        lookup(update_routing_table(n, link, seq![(peer, cost)]).routing, peer)
            == Some(RoutingEntry { next_hop: LinkID(link), routing_cost: (cost + 1) as RoutingCost }),
        forall|q: Seq<char>| q != peer ==> #[trigger] lookup(update_routing_table(n, link, seq![(peer, cost)]).routing, q)
            == lookup(n.routing, q),
{
    let entries = seq![(peer, cost)];
    lemma_assoc_ops(n.routing, peer, route_via(link, cost));
    assert(entries.drop_first() =~= Seq::<(Seq<char>, RoutingCost)>::empty());
    assert(entries[0] == (peer, cost));
    let m = relax(n, link, (peer, cost));
    assert(relax_all(m, link, entries.drop_first()) == m);
    assert(relax_all(n, link, entries) == m);
}

/// A single announcement, on the link a peer is routed through, of a cost no
/// lower than the route's (so the distance grew) keeps the route and starts
/// a route trace to that peer on the link, with this node as the trace's
/// origin.
pub proof fn law_longer_distance_starts_a_trace(n: NodeView, link: i32, peer: Seq<char>, cost: RoutingCost)
    requires
        peer != n.my_id,
        (lookup(n.routing, peer) is Some),
        lookup(n.routing, peer)->0.next_hop == LinkID(link),
        cost >= lookup(n.routing, peer)->0.routing_cost,
    ensures
        update_routing_table(n, link, seq![(peer, cost)]).routing == n.routing,
        added(n, update_routing_table(n, link, seq![(peer, cost)])).len() > 0,
        added(n, update_routing_table(n, link, seq![(peer, cost)]))[0] == (CommandView::SendDirect {
            link_id: link,
            packet: direct_packet_of(DirectBodyView::RouteTraceFromOriginatorToTarget { target: peer, trace: seq![n.my_id] }),
        }),
{
    let entries = seq![(peer, cost)];
    assert(entries.drop_first() =~= Seq::<(Seq<char>, RoutingCost)>::empty());
    assert(entries[0] == (peer, cost));
    let m = relax(n, link, (peer, cost));
    assert(relax_all(m, link, entries.drop_first()) == m);
    assert(relax_all(n, link, entries) == m);
    let r = update_routing_table(n, link, entries);
    lemma_eval_appends(m);
    assert(r.queue.subrange(0, m.queue.len() as int) == m.queue);
    assert(added(n, r)[0] == r.queue[n.queue.len() as int]);
    assert(r.queue[n.queue.len() as int] == m.queue[n.queue.len() as int]);
}

/// A broadcast sends `packet` on the link of every neighbor that is not on
/// the excluded link.
proof fn lemma_broadcast_reaches(neighbors: Seq<(Seq<char>, LinkID)>, exclude: Option<i32>, packet: DirectPacketView)
    ensures
        forall|i: int| 0 <= i < neighbors.len() && exclude != Some((#[trigger] neighbors[i]).1.0)
            ==> broadcast_cmds(neighbors, exclude, packet).contains(CommandView::SendDirect { link_id: neighbors[i].1.0, packet }),
    decreases neighbors.len(),
{
    if neighbors.len() > 0 {
        let rest = neighbors.drop_last();
        lemma_broadcast_reaches(rest, exclude, packet);
        let b = broadcast_cmds(neighbors, exclude, packet);
        let br = broadcast_cmds(rest, exclude, packet);
        assert forall|i: int| 0 <= i < neighbors.len() && exclude != Some((#[trigger] neighbors[i]).1.0)
            implies b.contains(CommandView::SendDirect { link_id: neighbors[i].1.0, packet }) by {
            let c = CommandView::SendDirect { link_id: neighbors[i].1.0, packet };
            if i < rest.len() {
                assert(rest[i] == neighbors[i]);
                assert(br.contains(c));
                let j = choose|j: int| 0 <= j < br.len() && br[j] == c;
                assert(b[j] == br[j]);
            } else {
                assert(b[b.len() - 1] == c);
            }
        }
    }
}

/// A distance increase that arrives on the link a peer is routed through,
/// with a trace that does not pass through this node, sets the route to that
/// peer through the link at the trace's length plus one (this node's hop),
/// and passes the trace, with this node added, to every neighbor on another
/// link.
pub proof fn law_distance_increase_sets_the_route(n: NodeView, link: i32, peer: Seq<char>, trace: Seq<Seq<char>>)
    requires
        distinct_keys(n.routing),
        n.link_info.contains_key(link),
        peer != n.my_id,
        next_hop(n, peer) == Some(link),
        !trace.contains(n.my_id),
        trace.len() + 1 <= RoutingCost::MAX,
    ensures
        ({
            let r = receive_direct(n, link, direct_packet_of(DirectBodyView::DistanceIncrease { peer, trace }));
            &&& lookup(r.routing, peer) == Some(RoutingEntry { next_hop: LinkID(link), routing_cost: (trace.len() + 1) as RoutingCost })
            &&& r.neighbors == n.neighbors
            &&& forall|q: Seq<char>| q != peer ==> #[trigger] lookup(r.routing, q) == lookup(n.routing, q)
            &&& forall|i: int| 0 <= i < n.neighbors.len() && (#[trigger] n.neighbors[i]).1.0 != link ==> added(n, r).contains(
                CommandView::SendDirect {
                    link_id: n.neighbors[i].1.0,
                    packet: direct_packet_of(DirectBodyView::DistanceIncrease { peer, trace: trace.push(n.my_id) }),
                },
            )
        }),
{
    let e = RoutingEntry { next_hop: LinkID(link), routing_cost: trace.push(n.my_id).len() as RoutingCost };
    lemma_assoc_ops(n.routing, peer, e);
    let packet = direct_packet_of(DirectBodyView::DistanceIncrease { peer, trace: trace.push(n.my_id) });
    lemma_broadcast_reaches(n.neighbors, Some(link), packet);
    let m = direct_step(n, link, direct_packet_of(DirectBodyView::DistanceIncrease { peer, trace }));
    let cmds = broadcast_cmds(n.neighbors, Some(link), packet);
    assert(m.queue == n.queue + cmds);
    let r = receive_direct(n, link, direct_packet_of(DirectBodyView::DistanceIncrease { peer, trace }));
    lemma_direct_step_appends(n, link, direct_packet_of(DirectBodyView::DistanceIncrease { peer, trace }));
    let flagged = NodeView { link_info: m.link_info.insert(link, LinkInfoView { post_init_greeting: true, ..m.link_info[link] }), ..m };
    lemma_post_greeting_appends(flagged, link);
    assert(r.queue.subrange(0, m.queue.len() as int) == m.queue);
    assert forall|i: int| 0 <= i < n.neighbors.len() && (#[trigger] n.neighbors[i]).1.0 != link implies added(n, r).contains(
        CommandView::SendDirect { link_id: n.neighbors[i].1.0, packet },
    ) by {
        let c = CommandView::SendDirect { link_id: n.neighbors[i].1.0, packet };
        assert(cmds.contains(c));
        let j = choose|j: int| 0 <= j < cmds.len() && cmds[j] == c;
        assert(m.queue[n.queue.len() + j] == c);
        assert(r.queue[n.queue.len() + j] == c);
        assert(added(n, r)[j] == c);
    }
}

/// A lost route announced on the link this node routes the peer through is
/// passed on to every neighbor; announced on another link, it is answered on
/// that link with this node's own route to the peer.
pub proof fn law_lost_route_is_passed_on_or_answered(n: NodeView, link: i32, peer: Seq<char>)
    requires
        n.link_info.contains_key(link),
        (lookup(n.routing, peer) is Some),
    ensures
        ({
            let r = receive_direct(n, link, direct_packet_of(DirectBodyView::LostRouteTo { peer }));
            let e = lookup(n.routing, peer)->0;
            &&& r.routing == n.routing
            &&& r.neighbors == n.neighbors
            &&& e.next_hop == LinkID(link) ==> forall|i: int| 0 <= i < n.neighbors.len() ==> added(n, r).contains(
                CommandView::SendDirect {
                    link_id: (#[trigger] n.neighbors[i]).1.0,
                    packet: direct_packet_of(DirectBodyView::LostRouteTo { peer }),
                },
            )
            &&& e.next_hop != LinkID(link) ==> added(n, r).len() > 0 && added(n, r)[0] == (CommandView::SendDirect {
                link_id: link,
                packet: direct_packet_of(DirectBodyView::RoutingInformationExchange { entries: seq![(peer, e.routing_cost)] }),
            })
        }),
{
    let packet = direct_packet_of(DirectBodyView::LostRouteTo { peer });
    lemma_broadcast_reaches(n.neighbors, None, packet);
    let m = direct_step(n, link, packet);
    let r = receive_direct(n, link, packet);
    lemma_direct_step_appends(n, link, packet);
    let flagged = NodeView { link_info: m.link_info.insert(link, LinkInfoView { post_init_greeting: true, ..m.link_info[link] }), ..m };
    lemma_post_greeting_appends(flagged, link);
    assert(r.queue.subrange(0, m.queue.len() as int) == m.queue);
    let e = lookup(n.routing, peer)->0;
    if e.next_hop == LinkID(link) {
        let cmds = broadcast_cmds(n.neighbors, None, packet);
        assert(m.queue == n.queue + cmds);
        assert forall|i: int| 0 <= i < n.neighbors.len() implies added(n, r).contains(
            CommandView::SendDirect { link_id: (#[trigger] n.neighbors[i]).1.0, packet },
        ) by {
            let c = CommandView::SendDirect { link_id: n.neighbors[i].1.0, packet };
            assert(cmds.contains(c));
            let j = choose|j: int| 0 <= j < cmds.len() && cmds[j] == c;
            assert(m.queue[n.queue.len() + j] == c);
            assert(r.queue[n.queue.len() + j] == c);
            assert(added(n, r)[j] == c);
        }
    } else {
        assert(added(n, r)[0] == r.queue[n.queue.len() as int]);
        assert(r.queue[n.queue.len() as int] == m.queue[n.queue.len() as int]);
    }
}

/// A returned trace that starts at this node and leaves through the
/// neighbor this node routes the trace's source through decides the route
/// to the source: a trace that comes back through this node is a loop, and
/// the route is forgotten; otherwise the source is routed through that link
/// at the trace's length.
pub proof fn law_returned_trace_decides_the_route(
    n: NodeView,
    link: i32,
    packet: PacketView,
    trace: Seq<Seq<char>>,
    hop: i32,
)
    requires
        distinct_keys(n.routing),
        n.link_info.contains_key(link),
        packet.destination == n.my_id,
        packet.body == (PacketBodyView::ReturnRouteTrace { trace }),
        trace.len() >= 2,
        trace[0] == n.my_id,
        next_hop(n, packet.source) == Some(hop),
        peer_on_link(n.neighbors, hop) == Some(trace[1]),
        trace.len() <= RoutingCost::MAX,
    ensures
        trace.subrange(1, trace.len() as int).contains(n.my_id)
            ==> lookup(receive_packet(n, link, packet).routing, packet.source) is None,
        !trace.subrange(1, trace.len() as int).contains(n.my_id)
            ==> lookup(receive_packet(n, link, packet).routing, packet.source)
                == Some(RoutingEntry { next_hop: LinkID(hop), routing_cost: trace.len() as RoutingCost }),
{
    lemma_assoc_ops(
        n.routing,
        packet.source,
        RoutingEntry { next_hop: LinkID(hop), routing_cost: ((trace.len() - 1) as RoutingCost + 1) as RoutingCost },
    );
}

/// The routing entries announced as `(peer, cost)` pairs are exactly those
/// of the table whose peer `keep` selects.
proof fn lemma_announcements_members(routing: Seq<(Seq<char>, RoutingEntry)>, keep: spec_fn(Seq<char>) -> bool)
    ensures
        forall|e: (Seq<char>, RoutingCost)| #[trigger] announcements(routing, keep).contains(e) <==> exists|k: int|
            0 <= k < routing.len() && keep(#[trigger] routing[k].0) && e == (routing[k].0, routing[k].1.routing_cost),
    decreases routing.len(),
{
    if routing.len() > 0 {
        let rest = routing.drop_last();
        lemma_announcements_members(rest, keep);
        let a = announcements(routing, keep);
        let ar = announcements(rest, keep);
        let last = routing.len() - 1;
        assert forall|e: (Seq<char>, RoutingCost)| #[trigger] a.contains(e) <==> exists|k: int|
            0 <= k < routing.len() && keep(#[trigger] routing[k].0) && e == (routing[k].0, routing[k].1.routing_cost) by {
            if a.contains(e) {
                let j = choose|j: int| 0 <= j < a.len() && a[j] == e;
                if j < ar.len() {
                    assert(a[j] == ar[j]);
                    assert(ar.contains(e));
                    let k = choose|k: int| 0 <= k < rest.len() && keep(#[trigger] rest[k].0) && e == (rest[k].0, rest[k].1.routing_cost);
                    assert(routing[k] == rest[k]);
                } else {
                    assert(keep(routing[last].0));
                }
            }
            if exists|k: int| 0 <= k < routing.len() && keep(#[trigger] routing[k].0) && e == (routing[k].0, routing[k].1.routing_cost) {
                let k = choose|k: int| 0 <= k < routing.len() && keep(#[trigger] routing[k].0) && e == (routing[k].0, routing[k].1.routing_cost);
                if k < last {
                    assert(routing[k] == rest[k]);
                    assert(ar.contains(e));
                    let j = choose|j: int| 0 <= j < ar.len() && ar[j] == e;
                    assert(a[j] == ar[j]);
                } else {
                    assert(a[a.len() - 1] == e);
                }
            }
        }
    }
}

spec fn share_cmd(neighbor: (Seq<char>, LinkID), routing: Seq<(Seq<char>, RoutingEntry)>) -> CommandView {
    CommandView::SendDirect {
        link_id: neighbor.1.0,
        packet: direct_packet_of(DirectBodyView::RoutingInformationExchange {
            entries: announcements(routing, crate::node::except_peer(neighbor.0)),
        }),
    }
}

proof fn lemma_share_cmds_shape(neighbors: Seq<(Seq<char>, LinkID)>, routing: Seq<(Seq<char>, RoutingEntry)>)
    ensures
        share_cmds(neighbors, routing).len() == neighbors.len(),
        forall|i: int| 0 <= i < neighbors.len() ==> #[trigger] share_cmds(neighbors, routing)[i] == share_cmd(neighbors[i], routing),
    decreases neighbors.len(),
{
    if neighbors.len() > 0 {
        let rest = neighbors.drop_last();
        lemma_share_cmds_shape(rest, routing);
        assert forall|i: int| 0 <= i < neighbors.len() implies #[trigger] share_cmds(neighbors, routing)[i] == share_cmd(neighbors[i], routing) by {
            if i < rest.len() {
                assert(rest[i] == neighbors[i]);
            }
        }
    }
}

/// `entries` lists exactly the table's routes, as `(peer, cost)`, to peers
/// other than `except`.
pub open spec fn lists_routes_except(
    entries: Seq<(Seq<char>, RoutingCost)>,
    routing: Seq<(Seq<char>, RoutingEntry)>,
    except: Seq<char>,
) -> bool {
    forall|e: (Seq<char>, RoutingCost)| #[trigger] entries.contains(e) <==> (e.0 != except
        && exists|k: int| 0 <= k < routing.len() && #[trigger] routing[k].0 == e.0 && routing[k].1.routing_cost == e.1)
}

/// `c` sends `neighbor`, on its link, a sealed routing-information packet
/// that lists exactly the table's routes to peers other than that neighbor.
pub open spec fn tells_other_routes(c: CommandView, neighbor: (Seq<char>, LinkID), routing: Seq<(Seq<char>, RoutingEntry)>) -> bool {
    match c {
        CommandView::SendDirect { link_id, packet } => {
            &&& link_id == neighbor.1.0
            &&& crate::direct_packet::direct_packet_verifies(packet)
            &&& match packet.body {
                DirectBodyView::RoutingInformationExchange { entries } => lists_routes_except(entries, routing, neighbor.0),
                _ => false,
            }
        },
        _ => false,
    }
}

/// Sharing routing information sends each neighbor, in order and on its own
/// link, one sealed routing-information packet that lists exactly the
/// table's routes (peer and cost) to peers other than that neighbor.
pub proof fn law_each_neighbor_learns_every_other_route(n: NodeView)
    ensures
        appends(n, share_routing_info(n)),
        added(n, share_routing_info(n)).len() == n.neighbors.len(),
        forall|i: int| 0 <= i < n.neighbors.len()
            ==> tells_other_routes(#[trigger] added(n, share_routing_info(n))[i], n.neighbors[i], n.routing),
{
    let r = share_routing_info(n);
    lemma_share_appends(n);
    lemma_share_cmds_shape(n.neighbors, n.routing);
    let sent = added(n, r);
    assert(sent =~= share_cmds(n.neighbors, n.routing));
    assert forall|i: int| 0 <= i < n.neighbors.len() implies tells_other_routes(#[trigger] sent[i], n.neighbors[i], n.routing) by {
        let keep = crate::node::except_peer(n.neighbors[i].0);
        lemma_announcements_members(n.routing, keep);
        let entries = announcements(n.routing, keep);
        assert(sent[i] == share_cmd(n.neighbors[i], n.routing));
        assert forall|e: (Seq<char>, RoutingCost)| #[trigger] entries.contains(e) <==> (e.0 != n.neighbors[i].0
            && exists|k: int| 0 <= k < n.routing.len() && #[trigger] n.routing[k].0 == e.0 && n.routing[k].1.routing_cost == e.1) by {
            if e.0 != n.neighbors[i].0 && exists|k: int| 0 <= k < n.routing.len() && #[trigger] n.routing[k].0 == e.0
                && n.routing[k].1.routing_cost == e.1 {
                let k = choose|k: int| 0 <= k < n.routing.len() && #[trigger] n.routing[k].0 == e.0
                    && n.routing[k].1.routing_cost == e.1;
                assert(keep(n.routing[k].0));
            }
            if entries.contains(e) {
                let k = choose|k: int| 0 <= k < n.routing.len() && keep(#[trigger] n.routing[k].0) && e == (n.routing[k].0, n.routing[k].1.routing_cost);
                assert(n.routing[k].0 == e.0);
            }
        }
        assert(lists_routes_except(entries, n.routing, n.neighbors[i].0));
    }
}

/// A new ICE candidate for a link that is being answered (and not offered)
/// is appended to that answer's candidates; nothing else changes.
pub proof fn law_candidate_joins_the_answer(n: NodeView, link: i32, ice: IceView)
    requires
        !n.incoming.contains_key(link),
        n.outgoing.contains_key(link),
    ensures
        add_ice(n, link, ice).outgoing[link].ice == n.outgoing[link].ice.push(ice),
        add_ice(n, link, ice).outgoing[link].answer == n.outgoing[link].answer,
        add_ice(n, link, ice).outgoing[link].offer_id == n.outgoing[link].offer_id,
        add_ice(n, link, ice).outgoing[link].peer == n.outgoing[link].peer,
        add_ice(n, link, ice).outgoing.dom() == n.outgoing.dom(),
        add_ice(n, link, ice).incoming == n.incoming,
        add_ice(n, link, ice).queue == n.queue,
{
    assert(add_ice(n, link, ice).outgoing.dom() =~= n.outgoing.dom());
}

/// A new ICE candidate for a link that is being offered is appended to that
/// offer's candidates; nothing else changes.
pub proof fn law_candidate_joins_the_offer(n: NodeView, link: i32, ice: IceView)
    requires
        n.incoming.contains_key(link),
    ensures
        add_ice(n, link, ice).incoming[link].ice == n.incoming[link].ice.push(ice),
        add_ice(n, link, ice).incoming[link].offer == n.incoming[link].offer,
        add_ice(n, link, ice).incoming[link].for_peer == n.incoming[link].for_peer,
        add_ice(n, link, ice).incoming.dom() == n.incoming.dom(),
        add_ice(n, link, ice).outgoing == n.outgoing,
        add_ice(n, link, ice).queue == n.queue,
{
    assert(add_ice(n, link, ice).incoming.dom() =~= n.incoming.dom());
}

/// What the host generates for an answer, with the candidates gathered
/// before it, is what the node records for it: after an offer is received,
/// a candidate added on the new link and the answer generated, the answer
/// recorded holds that answer and that candidate.
pub proof fn law_answer_keeps_its_candidates(n: NodeView, offer: Seq<char>, offer_id: i32, peer: Option<Seq<char>>, ice: IceView, answer: Seq<char>)
    requires
        can_allocate(n),
        !n.incoming.contains_key(next_id(n)),
    ensures
        ({
            let id = next_id(n);
            let r = on_answer_generated(add_ice(receive_offer(n, offer, offer_id, peer), id, ice), id, answer);
            &&& r.outgoing.contains_key(id)
            &&& r.outgoing[id] == (OutgoingView { peer, offer_id, answer: Some(answer), ice: seq![ice] })
        }),
{
    let id = next_id(n);
    let m = add_ice(receive_offer(n, offer, offer_id, peer), id, ice);
    assert(m.outgoing[id].ice =~= seq![ice]);
    match peer {
        Some(p) => {
            let k = NodeView { outgoing: m.outgoing.insert(id, OutgoingView { answer: Some(answer), ..m.outgoing[id] }), ..m };
            assert(send_to(k, p, PacketBodyView::Answer { answer, offer_id, ice: m.outgoing[id].ice }).outgoing == k.outgoing);
        },
        None => {},
    }
}

} // verus!
