use almeta_p2p::aux::{LinkID, OfferID};
use almeta_p2p::command::Command;
use almeta_p2p::direct_packet::{DirectBody, DirectPacket};
use almeta_p2p::ice::ICE;
use almeta_p2p::node::Node;
use almeta_p2p::packet::{Packet, PacketBody};
use almeta_p2p::peer_id::PeerID;

type Cmd = Command<String, String>;

fn node(name: &str) -> Node<String, String> {
    Node::new(name.to_string(), 7)
}

fn direct(link: i32, body: DirectBody) -> Cmd {
    Command::SendDirect { link_id: LinkID(link), packet: DirectPacket::new(body) }
}

fn greetings(me: &str) -> DirectBody {
    DirectBody::Greetings { me: me.into(), supported_versions: vec!["Rust:0.1".to_string()] }
}

fn queue(n: &Node<String, String>) -> Vec<&Cmd> {
    n.command_queue.iter().collect()
}

/// A node `me` with `peer` as its neighbor on `link`, and an empty queue.
fn with_neighbor(me: &str, peer: &str, link: i32) -> Node<String, String> {
    let mut n = node(me);
    n.link_established(&LinkID(link));
    n.receive_direct(&LinkID(link), DirectPacket::new(greetings(peer)));
    n.command_queue.clear();
    n
}

fn peers(names: &[&str]) -> Vec<PeerID> {
    names.iter().map(|n| PeerID::from(*n)).collect()
}

#[test]
fn new_node_is_empty() {
    let n = node("A");
    assert!(n.command_queue.is_empty());
    assert_eq!(n.my_id, PeerID::from("A"));
    assert!(n.get_neighbors().is_empty());
    assert!(n.peer_draw().is_none());
    assert_eq!(n.seed(), 7);
}

#[test]
fn link_established_greets() {
    let mut n = node("A");
    n.link_established(&LinkID(3));
    assert_eq!(queue(&n), vec![&direct(3, greetings("A"))]);
}

#[test]
fn greeting_makes_a_neighbor() {
    let mut n = node("A");
    n.link_established(&LinkID(1));
    n.receive_direct(&LinkID(1), DirectPacket::new(greetings("B")));
    assert_eq!(
        queue(&n),
        vec![
            &direct(1, greetings("A")),
            &direct(1, DirectBody::TellItToMeIn { version: "Rust:0.1".into() }),
            &direct(1, DirectBody::RoutingInformationExchange { entries: vec![("B".into(), 0)] }),
        ]
    );
    assert_eq!(n.get_neighbors(), peers(&["B"]));
    assert_eq!(n.get_next_hop_to(&"B".into()), Some(LinkID(1)));
}

#[test]
fn greeting_in_unknown_version_is_refused() {
    let mut n = node("A");
    n.link_established(&LinkID(1));
    n.command_queue.clear();
    let body = DirectBody::Greetings { me: "B".into(), supported_versions: vec!["Go:9".to_string()] };
    n.receive_direct(&LinkID(1), DirectPacket::new(body));
    assert_eq!(queue(&n), vec![&direct(1, DirectBody::UnknownVersion)]);
    assert!(n.get_neighbors().is_empty());
}

#[test]
fn second_greeting_from_a_neighbor() {
    let mut n = with_neighbor("A", "B", 1);
    n.link_established(&LinkID(2));
    n.command_queue.clear();
    n.receive_direct(&LinkID(2), DirectPacket::new(greetings("B")));
    assert_eq!(queue(&n), vec![&direct(2, DirectBody::NotYouAgain)]);
    assert_eq!(n.get_next_hop_to(&"B".into()), Some(LinkID(1)));
}

#[test]
fn tampered_direct_packet_is_ignored() {
    let mut n = node("A");
    n.link_established(&LinkID(1));
    n.command_queue.clear();
    let mut packet = DirectPacket::new(greetings("B"));
    packet.md5 = "0".into();
    n.receive_direct(&LinkID(1), packet);
    assert!(n.command_queue.is_empty());
    assert!(n.get_neighbors().is_empty());
}

#[test]
fn direct_packet_on_unknown_link_is_ignored() {
    let mut n = node("A");
    n.receive_direct(&LinkID(5), DirectPacket::new(DirectBody::Who));
    assert!(n.command_queue.is_empty());
}

#[test]
fn who_is_answered_with_me() {
    let mut n = with_neighbor("A", "B", 1);
    n.receive_direct(&LinkID(1), DirectPacket::new(DirectBody::Who));
    assert_eq!(queue(&n), vec![&direct(1, DirectBody::Me { me: "A".into() })]);
}

#[test]
fn next_hop_of_user_and_unknown_peers() {
    let n = with_neighbor("A", "B", 4);
    assert_eq!(n.get_next_hop_to(&"User".into()), Some(LinkID(0)));
    assert_eq!(n.get_next_hop_to(&"Z".into()), None);
}

#[test]
fn routing_information_adds_routes_and_asks_for_a_draw() {
    let mut n = with_neighbor("A", "B", 1);
    let body = DirectBody::RoutingInformationExchange { entries: vec![("C".into(), 1), ("A".into(), 3), ("D".into(), 0)] };
    n.receive_direct(&LinkID(1), DirectPacket::new(body));
    assert!(n.command_queue.is_empty());
    assert_eq!(n.get_next_hop_to(&"C".into()), Some(LinkID(1)));
    assert_eq!(n.get_next_hop_to(&"D".into()), Some(LinkID(1)));
    let draw = n.peer_draw().as_ref().unwrap();
    assert_eq!(draw.candidates, peers(&["C", "D"]));
    assert_eq!(draw.count, 2);
    n.complete_peer_draw(&vec![1, 0]);
    assert_eq!(
        queue(&n),
        vec![
            &Command::Send { link_id: LinkID(1), packet: Packet::new("A".into(), "D".into(), PacketBody::RequestOffer) },
            &Command::Send { link_id: LinkID(1), packet: Packet::new("A".into(), "C".into(), PacketBody::RequestOffer) },
        ]
    );
    assert!(n.peer_draw().is_none());
}

#[test]
fn draw_stops_when_picks_run_out() {
    let mut n = with_neighbor("A", "B", 1);
    let body = DirectBody::RoutingInformationExchange { entries: vec![("C".into(), 1), ("D".into(), 1), ("E".into(), 1)] };
    n.receive_direct(&LinkID(1), DirectPacket::new(body));
    n.complete_peer_draw(&vec![4]);
    assert_eq!(
        queue(&n),
        vec![&Command::Send { link_id: LinkID(1), packet: Packet::new("A".into(), "D".into(), PacketBody::RequestOffer) }]
    );
    n.command_queue.clear();
    n.complete_peer_draw(&vec![0, 0, 0]);
    assert!(n.command_queue.is_empty());
}

#[test]
fn worse_route_from_the_next_hop_starts_a_trace() {
    let mut n = with_neighbor("A", "B", 1);
    n.receive_direct(&LinkID(1), DirectPacket::new(DirectBody::RoutingInformationExchange { entries: vec![("C".into(), 1)] }));
    n.command_queue.clear();
    n.receive_direct(&LinkID(1), DirectPacket::new(DirectBody::RoutingInformationExchange { entries: vec![("C".into(), 5)] }));
    assert_eq!(
        queue(&n),
        vec![&direct(1, DirectBody::RouteTraceFromOriginatorToTarget { target: "C".into(), trace: peers(&["A"]) })]
    );
}

#[test]
fn link_closed_forgets_the_neighbor_and_its_routes() {
    let mut n = with_neighbor("A", "B", 1);
    n.receive_direct(&LinkID(1), DirectPacket::new(DirectBody::RoutingInformationExchange { entries: vec![("C".into(), 1)] }));
    n.link_closed(&LinkID(1));
    assert!(n.get_neighbors().is_empty());
    assert!(n.command_queue.is_empty());
    assert_eq!(n.get_next_hop_to(&"B".into()), None);
    assert_eq!(n.get_next_hop_to(&"C".into()), None);
    assert!(n.peer_draw().is_none());
}

#[test]
fn link_closed_tells_the_other_neighbors() {
    let mut n = with_neighbor("A", "B", 1);
    n.link_established(&LinkID(2));
    n.receive_direct(&LinkID(2), DirectPacket::new(greetings("C")));
    n.receive_direct(&LinkID(1), DirectPacket::new(DirectBody::RoutingInformationExchange { entries: vec![("D".into(), 1)] }));
    n.command_queue.clear();
    n.link_closed(&LinkID(1));
    assert_eq!(
        queue(&n),
        vec![&direct(2, DirectBody::LostRouteTo { peer: "B".into() }), &direct(2, DirectBody::LostRouteTo { peer: "D".into() })]
    );
    assert_eq!(n.get_neighbors(), peers(&["C"]));
    assert_eq!(n.get_next_hop_to(&"C".into()), Some(LinkID(2)));
    assert_eq!(n.get_next_hop_to(&"D".into()), None);
}

#[test]
fn only_a_better_route_replaces_the_current_one() {
    let mut n = with_neighbor("A", "B", 1);
    n.link_established(&LinkID(2));
    n.receive_direct(&LinkID(2), DirectPacket::new(greetings("E")));
    n.receive_direct(&LinkID(1), DirectPacket::new(DirectBody::RoutingInformationExchange { entries: vec![("C".into(), 1)] }));
    n.command_queue.clear();
    n.receive_direct(&LinkID(2), DirectPacket::new(DirectBody::RoutingInformationExchange { entries: vec![("C".into(), 1)] }));
    assert_eq!(n.get_next_hop_to(&"C".into()), Some(LinkID(1)));
    n.receive_direct(&LinkID(2), DirectPacket::new(DirectBody::RoutingInformationExchange { entries: vec![("C".into(), 7)] }));
    assert_eq!(n.get_next_hop_to(&"C".into()), Some(LinkID(1)));
    assert!(n.command_queue.is_empty());
    n.receive_direct(&LinkID(2), DirectPacket::new(DirectBody::RoutingInformationExchange { entries: vec![("C".into(), 0)] }));
    assert_eq!(n.get_next_hop_to(&"C".into()), Some(LinkID(2)));
}

#[test]
fn same_distance_from_the_next_hop_starts_no_trace() {
    let mut n = with_neighbor("A", "B", 1);
    n.receive_direct(&LinkID(1), DirectPacket::new(DirectBody::RoutingInformationExchange { entries: vec![("C".into(), 1)] }));
    n.command_queue.clear();
    n.receive_direct(&LinkID(1), DirectPacket::new(DirectBody::RoutingInformationExchange { entries: vec![("C".into(), 1)] }));
    assert!(n.command_queue.is_empty());
}

#[test]
fn checked_entry_refuses_exactly_the_overflowing_announcements() {
    let mut n = with_neighbor("A", "B", 1);
    let max = u32::MAX;
    let new_at_max = DirectBody::RoutingInformationExchange { entries: vec![("C".into(), max)] };
    assert!(!n.receive_direct_checked(&LinkID(1), DirectPacket::new(new_at_max)));
    assert_eq!(n.get_next_hop_to(&"C".into()), None);
    let known_at_max = DirectBody::RoutingInformationExchange { entries: vec![("B".into(), max), ("A".into(), max)] };
    assert!(n.receive_direct_checked(&LinkID(1), DirectPacket::new(known_at_max)));
    let announced_earlier = DirectBody::RoutingInformationExchange { entries: vec![("C".into(), 3), ("C".into(), max)] };
    assert!(n.receive_direct_checked(&LinkID(1), DirectPacket::new(announced_earlier)));
    assert_eq!(n.get_next_hop_to(&"C".into()), Some(LinkID(1)));
}

#[test]
fn tick_shares_routes_except_the_neighbors_own() {
    let mut n = with_neighbor("A", "B", 1);
    n.receive_direct(&LinkID(1), DirectPacket::new(DirectBody::RoutingInformationExchange { entries: vec![("C".into(), 1)] }));
    n.command_queue.clear();
    n.tick();
    assert_eq!(queue(&n), vec![&direct(1, DirectBody::RoutingInformationExchange { entries: vec![("C".into(), 2)] })]);
}

#[test]
fn offer_for_the_user() {
    let mut n = node("A");
    let (link, offer) = n.generate_offer(None);
    assert_eq!(link, LinkID(1));
    assert_eq!(offer, OfferID(1));
    n.add_ice(&link, ICE::new("m".into(), 2, "c".into()));
    n.on_offer_generated(&link, "sdp".into());
    assert_eq!(
        queue(&n),
        vec![&Command::GenerateOffer(LinkID(1)), &Command::UserOffer { link_id: LinkID(1), offer: "sdp".into() }]
    );
    let packet = n.get_offer_packet_by_id(&OfferID(1)).unwrap();
    let body = PacketBody::Offer { offer: "sdp".into(), offer_id: OfferID(1), ice: vec![ICE::new("m".into(), 2, "c".into())] };
    assert_eq!(packet, Packet::new("User".into(), "A".into(), body));
    assert!(packet.varify());
    assert!(n.get_offer_packet_by_id(&OfferID(2)).is_none());
}

#[test]
fn answer_for_the_user() {
    let mut n = node("A");
    n.generate_offer(None);
    let link = n.receive_offer("o".into(), OfferID(9), None);
    assert_eq!(link, LinkID(2));
    assert!(n.get_answer_packet_by_id(&link).is_none());
    n.on_answer_generated(&link, "ans".into());
    assert_eq!(
        queue(&n),
        vec![
            &Command::GenerateOffer(LinkID(1)),
            &Command::GenerateAnswer { link_id: LinkID(2), offer: "o".into() },
            &Command::UserAnswer { link_id: LinkID(2), answer: "ans".into() },
        ]
    );
    let packet = n.get_answer_packet_by_id(&link).unwrap();
    let body = PacketBody::Answer { answer: "ans".into(), offer_id: OfferID(9), ice: Vec::new() };
    assert_eq!(packet, Packet::new("User".into(), "A".into(), body));
}

#[test]
fn answer_for_a_peer_is_routed() {
    let mut n = with_neighbor("A", "B", 1);
    let link = n.receive_offer("o".into(), OfferID(4), Some("B".into()));
    n.command_queue.clear();
    n.on_answer_generated(&link, "ans".into());
    let body = PacketBody::Answer { answer: "ans".into(), offer_id: OfferID(4), ice: Vec::new() };
    assert_eq!(queue(&n), vec![&Command::Send { link_id: LinkID(1), packet: Packet::new("A".into(), "B".into(), body) }]);
}

#[test]
fn generated_output_for_unknown_links_is_dropped() {
    let mut n = node("A");
    n.on_answer_generated(&LinkID(3), "x".into());
    n.on_offer_generated(&LinkID(3), "y".into());
    n.add_ice(&LinkID(3), ICE::new("m".into(), 0, "c".into()));
    assert!(n.command_queue.is_empty());
}

#[test]
fn receive_answer_applies_it() {
    let mut n = node("A");
    n.receive_answer(LinkID(6), "a".into());
    assert_eq!(queue(&n), vec![&Command::AnswerOffer { link_id: LinkID(6), answer: "a".into() }]);
}

#[test]
fn request_offer_packet_generates_an_offer_for_its_source() {
    let mut n = with_neighbor("A", "B", 1);
    n.receive_packet(&LinkID(1), Packet::new("B".into(), "A".into(), PacketBody::RequestOffer));
    assert_eq!(queue(&n), vec![&Command::GenerateOffer(LinkID(1))]);
    n.on_offer_generated(&LinkID(1), "sdp".into());
    let body = PacketBody::Offer { offer: "sdp".into(), offer_id: OfferID(1), ice: Vec::new() };
    assert_eq!(queue(&n)[1], &Command::Send { link_id: LinkID(1), packet: Packet::new("A".into(), "B".into(), body) });
}

#[test]
fn answer_packet_applies_answer_and_candidates() {
    let mut n = with_neighbor("A", "B", 1);
    let body = PacketBody::Answer { answer: "ans".into(), offer_id: OfferID(3), ice: vec![ICE::new("m".into(), 0, "c".into())] };
    n.receive_packet(&LinkID(1), Packet::new("B".into(), "A".into(), body));
    assert_eq!(
        queue(&n),
        vec![
            &Command::AnswerOffer { link_id: LinkID(3), answer: "ans".into() },
            &Command::AddICE { link_id: LinkID(3), ice: ICE::new("m".into(), 0, "c".into()) },
        ]
    );
}

#[test]
fn packet_for_another_peer_is_forwarded() {
    let mut n = with_neighbor("A", "B", 1);
    n.link_established(&LinkID(2));
    n.command_queue.clear();
    n.receive_packet(&LinkID(2), Packet::new("C".into(), "B".into(), PacketBody::Goodbye));
    assert_eq!(
        queue(&n),
        vec![&Command::Send { link_id: LinkID(1), packet: Packet::new("C".into(), "B".into(), PacketBody::Goodbye) }]
    );
    n.command_queue.clear();
    n.receive_packet(&LinkID(2), Packet::new("C".into(), "Z".into(), PacketBody::RequestOffer));
    assert!(n.command_queue.is_empty());
}

#[test]
fn packet_on_unknown_link_is_ignored() {
    let mut n = node("A");
    n.receive_packet(&LinkID(2), Packet::new("B".into(), "A".into(), PacketBody::RequestOffer));
    assert!(n.command_queue.is_empty());
}

#[test]
fn trace_reaching_its_target_is_returned() {
    let mut n = with_neighbor("A", "B", 1);
    let body = DirectBody::RouteTraceFromOriginatorToTarget { target: "A".into(), trace: peers(&["B"]) };
    n.receive_direct(&LinkID(1), DirectPacket::new(body));
    let reply = PacketBody::ReturnRouteTrace { trace: peers(&["B"]) };
    assert_eq!(queue(&n), vec![&Command::Send { link_id: LinkID(1), packet: Packet::new("A".into(), "B".into(), reply) }]);
}

#[test]
fn trace_on_its_way_is_extended_and_forwarded() {
    let mut n = with_neighbor("A", "B", 1);
    let body = DirectBody::RouteTraceFromOriginatorToTarget { target: "B".into(), trace: peers(&["X"]) };
    n.receive_direct(&LinkID(1), DirectPacket::new(body));
    let next = DirectBody::RouteTraceFromOriginatorToTarget { target: "B".into(), trace: peers(&["X", "A"]) };
    assert_eq!(queue(&n), vec![&direct(1, next)]);
}

#[test]
fn lost_route_is_announced_when_routed_through_the_link() {
    let mut n = with_neighbor("A", "B", 1);
    n.link_established(&LinkID(2));
    n.receive_direct(&LinkID(2), DirectPacket::new(greetings("C")));
    n.receive_direct(&LinkID(1), DirectPacket::new(DirectBody::RoutingInformationExchange { entries: vec![("D".into(), 1)] }));
    n.command_queue.clear();
    n.receive_direct(&LinkID(1), DirectPacket::new(DirectBody::LostRouteTo { peer: "D".into() }));
    assert_eq!(
        queue(&n),
        vec![&direct(1, DirectBody::LostRouteTo { peer: "D".into() }), &direct(2, DirectBody::LostRouteTo { peer: "D".into() })]
    );
    n.command_queue.clear();
    n.receive_direct(&LinkID(2), DirectPacket::new(DirectBody::LostRouteTo { peer: "D".into() }));
    assert_eq!(queue(&n), vec![&direct(2, DirectBody::RoutingInformationExchange { entries: vec![("D".into(), 2)] })]);
}

#[test]
fn distance_increase_from_the_next_hop_is_passed_on() {
    let mut n = with_neighbor("A", "B", 1);
    n.link_established(&LinkID(2));
    n.receive_direct(&LinkID(2), DirectPacket::new(greetings("C")));
    n.receive_direct(&LinkID(1), DirectPacket::new(DirectBody::RoutingInformationExchange { entries: vec![("D".into(), 1)] }));
    n.command_queue.clear();
    let body = DirectBody::DistanceIncrease { peer: "D".into(), trace: peers(&["D", "E", "B"]) };
    n.receive_direct(&LinkID(1), DirectPacket::new(body));
    let passed = DirectBody::DistanceIncrease { peer: "D".into(), trace: peers(&["D", "E", "B", "A"]) };
    assert_eq!(queue(&n), vec![&direct(2, passed)]);
    n.command_queue.clear();
    let looped = DirectBody::DistanceIncrease { peer: "D".into(), trace: peers(&["D", "A", "B"]) };
    n.receive_direct(&LinkID(1), DirectPacket::new(looped));
    assert_eq!(
        queue(&n),
        vec![&direct(1, DirectBody::LostRouteTo { peer: "D".into() }), &direct(2, DirectBody::LostRouteTo { peer: "D".into() })]
    );
    assert_eq!(n.get_next_hop_to(&"D".into()), None);
}

#[test]
fn dear_john_is_ignored_while_keeping_everyone() {
    let mut n = with_neighbor("A", "B", 1);
    n.receive_direct(&LinkID(1), DirectPacket::new(DirectBody::DearJohn));
    assert!(n.command_queue.is_empty());
}

#[test]
fn unhandled_bodies_are_refused_by_the_checked_entry() {
    let mut n = with_neighbor("A", "B", 1);
    assert!(!n.receive_direct_checked(&LinkID(1), DirectPacket::new(DirectBody::Goodbye)));
    assert!(!n.receive_direct_checked(&LinkID(1), DirectPacket::new(DirectBody::UnknownVersion)));
    assert!(n.command_queue.is_empty());
    assert!(n.receive_direct_checked(&LinkID(1), DirectPacket::new(DirectBody::Who)));
    assert_eq!(queue(&n), vec![&direct(1, DirectBody::Me { me: "A".into() })]);
    let mut tampered = DirectPacket::new(DirectBody::Goodbye);
    tampered.md5 = "x".into();
    assert!(n.receive_direct_checked(&LinkID(1), tampered));
}

#[test]
fn identifiers_increase() {
    let mut n = node("A");
    let (l1, o1) = n.generate_offer(None);
    let l2 = n.receive_offer("o".into(), OfferID(1), None);
    let (l3, _) = n.generate_offer(Some("B".into()));
    assert!(l1.0 < l2.0 && l2.0 < l3.0);
    assert_eq!(o1.to_inner(), l1.to_inner());
}

#[test]
fn poll_takes_commands_oldest_first() {
    let mut n = node("A");
    assert!(n.poll().is_none());
    n.link_established(&LinkID(1));
    n.receive_answer(LinkID(2), "a".into());
    assert_eq!(n.poll(), Some(direct(1, greetings("A"))));
    assert_eq!(n.poll(), Some(Command::AnswerOffer { link_id: LinkID(2), answer: "a".into() }));
    assert!(n.poll().is_none());
}

#[test]
fn links_open_and_close() {
    let mut n = node("A");
    assert!(!n.is_link_open(&LinkID(1)));
    n.link_established(&LinkID(1));
    assert!(n.is_link_open(&LinkID(1)));
    n.link_closed(&LinkID(1));
    assert!(!n.is_link_open(&LinkID(1)));
}

#[test]
fn fresh_node_has_identifiers_left() {
    let mut n = node("A");
    assert!(n.has_free_identifier());
    n.generate_offer(None);
    assert!(n.has_free_identifier());
}

#[test]
fn draw_asks_each_peer_once() {
    let mut n = with_neighbor("A", "B", 1);
    let body = DirectBody::RoutingInformationExchange { entries: vec![("C".into(), 1), ("D".into(), 1), ("E".into(), 1)] };
    n.receive_direct(&LinkID(1), DirectPacket::new(body));
    n.complete_peer_draw(&vec![0, 0, 0, 0]);
    let asked: Vec<PeerID> = n
        .command_queue
        .iter()
        .map(|c| match c {
            Command::Send { packet, .. } => packet.destination.clone(),
            _ => panic!("only offer requests are sent"),
        })
        .collect();
    assert_eq!(asked, peers(&["C", "D", "E"]));
}

#[test]
fn queued_commands_stay_ahead_of_new_ones() {
    let mut n = with_neighbor("A", "B", 1);
    n.receive_answer(LinkID(9), "first".into());
    n.receive_direct(&LinkID(1), DirectPacket::new(DirectBody::Who));
    n.tick();
    n.link_closed(&LinkID(1));
    n.generate_offer(None);
    assert_eq!(queue(&n)[0], &Command::AnswerOffer { link_id: LinkID(9), answer: "first".into() });
    assert_eq!(queue(&n)[1], &direct(1, DirectBody::Me { me: "A".into() }));
    assert_eq!(n.command_queue.back(), Some(&Command::GenerateOffer(LinkID(1))));
}
