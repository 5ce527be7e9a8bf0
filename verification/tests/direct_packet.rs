use almeta_p2p::direct_packet::{DirectBody, DirectPacket};
use almeta_p2p::peer_id::PeerID;

#[test]
fn direct_packet_dear_john() {
    let packet: DirectPacket = DirectBody::DearJohn.into();
    assert!(packet.varify());
}

#[test]
fn direct_packet_distance_increase() {
    let packet: DirectPacket = DirectBody::DistanceIncrease { peer: "PeerID".into(), trace: Vec::from(["A".into(), "B".into()]) }.into();
    assert!(packet.varify());
}

#[test]
fn direct_packet_goodbye() {
    let packet: DirectPacket = DirectBody::Goodbye.into();
    assert!(packet.varify());
}

#[test]
fn direct_packet_greetings() {
    let packet: DirectPacket = DirectBody::Greetings {
        me: "PeerID".into(),
        supported_versions: Vec::from(["a".into(), "b".into()]),
    }
    .into();
    assert!(packet.varify());
}

#[test]
fn direct_packet_invalid_packet() {
    let packet: DirectPacket = DirectBody::InvalidPacket.into();
    assert!(packet.varify());
}

#[test]
fn direct_packet_invalid_salutation() {
    let packet: DirectPacket = DirectBody::InvalidSalutation.into();
    assert!(packet.varify());
}

#[test]
fn direct_packet_lost_route_to() {
    let packet: DirectPacket = DirectBody::LostRouteTo { peer: "PeerID".into() }.into();
    assert!(packet.varify());
}

#[test]
fn direct_packet_me() {
    let packet: DirectPacket = DirectBody::Me { me: "PeerID".into() }.into();
    assert!(packet.varify());
}

#[test]
fn direct_packet_not_you_again() {
    let packet: DirectPacket = DirectBody::NotYouAgain.into();
    assert!(packet.varify());
}

#[test]
fn direct_packet_route_trace_from_originator_to_target() {
    let packet: DirectPacket = DirectBody::RouteTraceFromOriginatorToTarget { target: "PeerID".into(), trace: Vec::from(["a".into(), "b".into()]) }.into();
    assert!(packet.varify());
}

#[test]
fn direct_packet_route_trace_to_originator_from_target() {
    let packet: DirectPacket = DirectBody::RouteTraceToOriginatorFromTarget { originator: "PeerID".into(), trace: Vec::from(["a".into(), "b".into()]) }.into();
    assert!(packet.varify());
}

#[test]
fn direct_packet_routing_information_exchange() {
    let packet: DirectPacket = DirectBody::RoutingInformationExchange { entries: Vec::from([("a".into(), 1), ("b".into(), 2)]) }.into();
    assert!(packet.varify());
}

#[test]
fn direct_packet_tell_it_to_me_in() {
    let packet: DirectPacket = DirectBody::TellItToMeIn { version: "V".into() }.into();
    assert!(packet.varify());
}

#[test]
fn direct_packet_unknown_version() {
    let packet: DirectPacket = DirectBody::UnknownVersion.into();
    assert!(packet.varify());
}

#[test]
fn direct_packet_who() {
    let packet: DirectPacket = DirectBody::Who.into();
    assert!(packet.varify());
}

#[test]
fn canonical_form_of_bodies_without_fields() {
    assert_eq!(DirectBody::DearJohn.to_canonical_form(), "Direct:DearJohn");
    assert_eq!(DirectBody::Goodbye.to_canonical_form(), "Direct:Goodbye");
    assert_eq!(DirectBody::InvalidPacket.to_canonical_form(), "Direct:InvalidPacket");
    assert_eq!(DirectBody::InvalidSalutation.to_canonical_form(), "Direct:InvalidSalutation");
    assert_eq!(DirectBody::NotYouAgain.to_canonical_form(), "Direct:NotYouAgain");
    assert_eq!(DirectBody::UnknownVersion.to_canonical_form(), "Direct:UnknownVersion");
    assert_eq!(DirectBody::Who.to_canonical_form(), "Direct:Who");
}

#[test]
fn canonical_form_writes_peers_and_lists_as_debug() {
    let body = DirectBody::DistanceIncrease { peer: "PeerID".into(), trace: Vec::from(["A".into(), "B".into()]) };
    assert_eq!(body.to_canonical_form(), "Direct:DistanceIncrease:PeerID:[PeerID(\"A\"), PeerID(\"B\")]");
    let body = DirectBody::Greetings { me: "PeerID".into(), supported_versions: Vec::from(["a".into(), "b".into()]) };
    assert_eq!(body.to_canonical_form(), "Direct:Greetings:PeerID:[\"a\", \"b\"]");
    let body = DirectBody::RoutingInformationExchange { entries: Vec::from([("a".into(), 1), ("b".into(), 2)]) };
    assert_eq!(body.to_canonical_form(), "Direct:RoutingInformationExchange:[(PeerID(\"a\"), 1), (PeerID(\"b\"), 2)]");
    let body = DirectBody::LostRouteTo { peer: "PeerID".into() };
    assert_eq!(body.to_canonical_form(), "Direct:LostRouteTo:PeerID");
    let body = DirectBody::Me { me: "X".into() };
    assert_eq!(body.to_canonical_form(), "Direct:Me:X");
    let body = DirectBody::TellItToMeIn { version: "V".into() };
    assert_eq!(body.to_canonical_form(), "Direct:TellItToMeIn:V");
    let body = DirectBody::RouteTraceFromOriginatorToTarget { target: "T".into(), trace: Vec::new() };
    assert_eq!(body.to_canonical_form(), "Direct:RouteTraceFromOriginatorToTarget:T:[]");
    let body = DirectBody::RouteTraceToOriginatorFromTarget { originator: "O".into(), trace: Vec::from(["a".into()]) };
    assert_eq!(body.to_canonical_form(), "Direct:RouteTraceToOriginatorFromTarget:O:[PeerID(\"a\")]");
}

#[test]
fn canonical_form_escapes_quotes_in_peers() {
    let body = DirectBody::RouteTraceFromOriginatorToTarget { target: "T".into(), trace: Vec::from(["a\"b".into()]) };
    assert_eq!(body.to_canonical_form(), "Direct:RouteTraceFromOriginatorToTarget:T:[PeerID(\"a\\\"b\")]");
}

#[test]
fn checksum_is_md5_of_canonical_form_in_hex() {
    assert_eq!(DirectBody::DearJohn.checksum(), "c11a8ad89d041ad9dc74409d08bb1072");
    let body = DirectBody::DistanceIncrease { peer: "PeerID".into(), trace: Vec::from(["A".into(), "B".into()]) };
    assert_eq!(body.checksum(), "e9d9df06bf1f4b9c7df48a7cc1c36bea");
    let body = DirectBody::Greetings { me: "PeerID".into(), supported_versions: Vec::from(["a".into(), "b".into()]) };
    assert_eq!(body.checksum(), "7cd2ed0a023da5fbcc11a02695361e4c");
    let body = DirectBody::RoutingInformationExchange { entries: Vec::from([("a".into(), 1), ("b".into(), 2)]) };
    assert_eq!(body.checksum(), "d1f6c7de3f4050c13aec22db234f66ef");
}

#[test]
fn new_and_from_seal_the_same_checksum() {
    let a = DirectPacket::new(DirectBody::TellItToMeIn { version: "V".into() });
    let b: DirectPacket = DirectBody::TellItToMeIn { version: "V".into() }.into();
    assert_eq!(a, b);
    assert_eq!(a.md5, "c60bd325e68f10acaf5a79c1333b3ba1");
}

#[test]
fn tampered_checksum_fails_verification() {
    let mut packet = DirectPacket::new(DirectBody::LostRouteTo { peer: "PeerID".into() });
    assert_eq!(packet.md5, "b684ca11fadee61af9f05c47336260e4");
    packet.md5 = "00000000000000000000000000000000".into();
    assert!(!packet.varify());
}

#[test]
fn changed_body_fails_verification() {
    let mut packet = DirectPacket::new(DirectBody::Me { me: "A".into() });
    packet.body = DirectBody::Me { me: PeerID::from("B") };
    assert!(!packet.varify());
}

#[test]
fn checksums_are_32_hex_digits_and_empty_ones_fail() {
    let sum = DirectBody::Who.checksum();
    assert_eq!(sum.len(), 32);
    assert!(sum.chars().all(|c| c.is_ascii_digit() || ('a'..='f').contains(&c)));
    let packet = DirectPacket { md5: String::new(), body: DirectBody::Who };
    assert!(!packet.varify());
}

#[test]
fn different_bodies_have_different_canonical_forms() {
    let bodies = vec![
        DirectBody::DearJohn,
        DirectBody::Goodbye,
        DirectBody::InvalidPacket,
        DirectBody::InvalidSalutation,
        DirectBody::NotYouAgain,
        DirectBody::UnknownVersion,
        DirectBody::Who,
        DirectBody::Me { me: "A".into() },
        DirectBody::Me { me: "B".into() },
        DirectBody::LostRouteTo { peer: "A".into() },
        DirectBody::TellItToMeIn { version: "A".into() },
        DirectBody::RouteTraceFromOriginatorToTarget { target: "A".into(), trace: Vec::new() },
        DirectBody::RouteTraceToOriginatorFromTarget { originator: "A".into(), trace: Vec::new() },
        DirectBody::RoutingInformationExchange { entries: Vec::new() },
    ];
    for (i, a) in bodies.iter().enumerate() {
        for b in bodies.iter().skip(i + 1) {
            assert_ne!(a.to_canonical_form(), b.to_canonical_form());
        }
    }
}
