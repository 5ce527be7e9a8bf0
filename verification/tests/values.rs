use almeta_p2p::aux::{Incoming, LinkID, OfferID, Outgoing};
use almeta_p2p::direct_packet::{DirectBody, DirectPacket};
use almeta_p2p::ice::ICE;
use almeta_p2p::macros::{ROO, UOR};
use almeta_p2p::node::{LinkInfo, Node, IDEAL_NUMBER_OF_NEIGHBORS};
use almeta_p2p::packet::PacketBody;
use almeta_p2p::peer_id::PeerID;
use almeta_p2p::peer_map::PeerMap;
use almeta_p2p::routing_entry::RoutingEntry;
use almeta_p2p::user_json::UserJSON;

#[test]
fn identifiers_print_in_decimal() {
    assert_eq!(OfferID(0).to_string(), "0");
    assert_eq!(OfferID(1234).to_string(), "1234");
    assert_eq!(LinkID(-56).to_string(), "-56");
    assert_eq!(LinkID(i32::MIN).to_string(), "-2147483648");
    assert_eq!(LinkID(i32::MAX).to_string(), "2147483647");
    let link: LinkID = 5.into();
    let offer: OfferID = 5.into();
    assert_eq!(link.to_inner(), offer.to_inner());
}

#[test]
fn peer_ids_compare_by_name() {
    let a = PeerID::from("alice");
    let b = PeerID::from(String::from("alice"));
    assert!(a.same(&b));
    assert!(a.is("alice"));
    assert!(!a.is("bob"));
    assert_eq!(a.to_string(), "alice");
    assert_eq!(a.as_str(), "alice");
    assert_eq!(a.clone(), b);
}

#[test]
fn routing_entry_holds_hop_and_cost() {
    let e = RoutingEntry::new(LinkID(3), 7);
    assert_eq!(e.next_hop, LinkID(3));
    assert_eq!(e.routing_cost, 7);
}

#[test]
fn ice_debug_text() {
    let ice = ICE::new("audio".into(), -1, "c\"1".into());
    assert_eq!(ice.debug_text(), "ICE { media: \"audio\", index: -1, name: \"c\\\"1\" }");
    assert_eq!(ice.clone(), ice);
}

#[test]
fn negotiation_records_start_as_given() {
    let o: Outgoing<String> = Outgoing::new(OfferID(2), None, Vec::new(), Some("p".into()));
    assert_eq!(o.offer_id, OfferID(2));
    assert!(o.answer.is_none());
    assert_eq!(o.peer, Some(PeerID::from("p")));
    let i: Incoming<String> = Incoming::new(Some("sdp".into()), vec![ICE::new("m".into(), 0, "n".into())], None);
    assert_eq!(i.offer, Some("sdp".to_string()));
    assert_eq!(i.ice.len(), 1);
    assert!(i.for_peer.is_none());
    let info = LinkInfo::new();
    assert!(info.protocal_in.is_none() && info.protocal_out.is_none() && !info.post_init_greeting);
}

#[test]
fn user_json_holds_destination_and_body() {
    let u: UserJSON<String, String> = UserJSON { destination: "B".into(), packet_type: PacketBody::RequestOffer };
    assert_eq!(u.destination, PeerID::from("B"));
    assert_eq!(u.packet_type, PacketBody::RequestOffer);
}

#[test]
fn wrap_results_and_options() {
    let r: Result<u8, String> = Ok(3);
    assert!(matches!(r.wrap(), ROO::R(Ok(3))));
    let o: Option<u8> = None;
    assert!(matches!(o.wrap(), ROO::O(None)));
}

#[test]
fn peer_map_keeps_insertion_order_and_distinct_keys() {
    let mut m: PeerMap<u32> = PeerMap::new();
    m.insert("b".into(), 1);
    m.insert("a".into(), 2);
    m.insert("b".into(), 3);
    assert_eq!(m.len(), 2);
    assert_eq!(m.key_at(0), &PeerID::from("b"));
    assert_eq!(*m.value_at(0), 3);
    assert_eq!(m.index_of(&"a".into()), Some(1));
    assert_eq!(m.get(&"a".into()), Some(&2));
    assert_eq!(m.remove(&"b".into()), Some(3));
    assert_eq!(m.remove(&"b".into()), None);
    assert!(!m.contains_key(&"b".into()));
    assert_eq!(m.len(), 1);
    assert_eq!(m.replace_value_at(0, 9), 2);
    assert_eq!(m.get(&"a".into()), Some(&9));
}

#[test]
fn peer_map_remove_value_drops_every_entry_with_it() {
    let mut m: PeerMap<LinkID> = PeerMap::new();
    m.insert("a".into(), LinkID(1));
    m.insert("b".into(), LinkID(2));
    m.insert("c".into(), LinkID(1));
    m.remove_value(LinkID(1));
    assert_eq!(m.len(), 1);
    assert_eq!(m.key_at(0), &PeerID::from("b"));
}

#[test]
fn draw_asks_for_no_more_than_the_room_left() {
    let mut n: Node<String, String> = Node::new("A".into(), 1);
    n.link_established(&LinkID(1));
    n.receive_direct(&LinkID(1), DirectPacket::new(DirectBody::Greetings { me: "B".into(), supported_versions: vec!["Rust:0.1".into()] }));
    let entries = (0..12).map(|i| (PeerID::from(format!("P{i}")), 1u32)).collect();
    n.receive_direct(&LinkID(1), DirectPacket::new(DirectBody::RoutingInformationExchange { entries }));
    let draw = n.peer_draw().as_ref().unwrap();
    assert_eq!(draw.candidates.len(), 12);
    assert_eq!(draw.count, IDEAL_NUMBER_OF_NEIGHBORS - 1);
    n.command_queue.clear();
    n.complete_peer_draw(&(0..20).collect());
    assert_eq!(n.command_queue.len(), IDEAL_NUMBER_OF_NEIGHBORS - 1);
}
