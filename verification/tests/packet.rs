use almeta_p2p::aux::{LinkID, OfferID};
use almeta_p2p::digest::{checksum, to_hex_lower};
use almeta_p2p::ice::ICE;
use almeta_p2p::packet::{Packet, PacketBody};

#[test]
fn packet_answer() {
    let body = PacketBody::<String, String>::Answer {
        answer: "Answer".into(),
        offer_id: 1.into(),
        ice: Vec::from([ICE::new("media".into(), 1, "name".into())]),
    };
    let packet = Packet::new("A".into(), "B".into(), body);
    assert!(packet.varify());
}

#[test]
fn packet_offer() {
    let body = PacketBody::<String, String>::Offer {
        offer: "Offer".into(),
        offer_id: 1.into(),
        ice: Vec::from([ICE::new("media".into(), 1, "name".into())]),
    };
    let packet = Packet::new("A".into(), "B".into(), body);
    assert!(packet.varify());
}

#[test]
fn packet_invalid_packet() {
    let body = PacketBody::<String, String>::InvalidPacket;
    let packet = Packet::new("A".into(), "B".into(), body);
    assert!(packet.varify());
}

#[test]
fn packet_goodbye() {
    let body = PacketBody::<String, String>::Goodbye;
    let packet = Packet::new("A".into(), "B".into(), body);
    assert!(packet.varify());
}

#[test]
fn packet_new_ice() {
    let body = PacketBody::<String, String>::NewICE {
        link_id: 1.into(),
        ice: ICE::new("media".into(), 1, "name".into()),
    };
    let packet = Packet::new("A".into(), "B".into(), body);
    assert!(packet.varify());
}

#[test]
fn packet_request_offer() {
    let body = PacketBody::<String, String>::RequestOffer;
    let packet = Packet::new("A".into(), "B".into(), body);
    assert!(packet.varify());
}

#[test]
fn packet_request_trace_to_me() {
    let body = PacketBody::<String, String>::RequestTraceToMe;
    let packet = Packet::new("A".into(), "B".into(), body);
    assert!(packet.varify());
}

#[test]
fn packet_return_route_trace() {
    let body = PacketBody::<String, String>::ReturnRouteTrace { trace: Vec::from(["A".into(), "B".into()]) };
    let packet = Packet::new("A".into(), "B".into(), body);
    assert!(packet.varify());
}

#[test]
fn body_canonical_forms() {
    let body = PacketBody::<String, String>::Answer {
        answer: "Answer".into(),
        offer_id: OfferID(1),
        ice: Vec::from([ICE::new("media".into(), 1, "name".into())]),
    };
    assert_eq!(body.to_canonical_form(), "Answer:\"Answer\":1:[ICE { media: \"media\", index: 1, name: \"name\" }]");
    let body = PacketBody::<String, String>::Offer { offer: "o".into(), offer_id: OfferID(-3), ice: Vec::new() };
    assert_eq!(body.to_canonical_form(), "Offer:\"o\":-3:[]");
    let body = PacketBody::<String, String>::NewICE { link_id: LinkID(12), ice: ICE::new("m".into(), -7, "n".into()) };
    assert_eq!(body.to_canonical_form(), "NewICE:12:ICE { media: \"m\", index: -7, name: \"n\" }");
    assert_eq!(PacketBody::<String, String>::InvalidPacket.to_canonical_form(), "InvalidPacket");
    assert_eq!(PacketBody::<String, String>::Goodbye.to_canonical_form(), "Goodbye");
    assert_eq!(PacketBody::<String, String>::RequestOffer.to_canonical_form(), "RequestOffer");
    assert_eq!(PacketBody::<String, String>::RequestTraceToMe.to_canonical_form(), "RequestTraceToMe");
    let body = PacketBody::<String, String>::ReturnRouteTrace { trace: Vec::from(["A".into(), "B".into()]) };
    assert_eq!(body.to_canonical_form(), "ReturnRouteTrace:[PeerID(\"A\"), PeerID(\"B\")]");
}

#[test]
fn packet_canonical_form_quotes_the_body() {
    let body = PacketBody::<String, String>::Answer {
        answer: "Answer".into(),
        offer_id: OfferID(1),
        ice: Vec::from([ICE::new("media".into(), 1, "name".into())]),
    };
    let packet = Packet::new("A".into(), "B".into(), body);
    assert_eq!(
        packet.to_canonical_form(),
        "Packet:A:B:\"Answer:\\\"Answer\\\":1:[ICE { media: \\\"media\\\", index: 1, name: \\\"name\\\" }]\""
    );
    assert_eq!(packet.md5, "68c2b26a3a5cbfa44bffb3d674a7f346");
    assert_eq!(packet.checksum(), packet.md5);
}

#[test]
fn packet_checksums() {
    let packet = Packet::new("A".into(), "B".into(), PacketBody::<String, String>::Goodbye);
    assert_eq!(packet.to_canonical_form(), "Packet:A:B:\"Goodbye\"");
    assert_eq!(packet.md5, "38db467e710c3dcb8d75e76bee3a55d5");
    let packet = Packet::new("A".into(), "B".into(), PacketBody::<String, String>::ReturnRouteTrace { trace: Vec::from(["A".into(), "B".into()]) });
    assert_eq!(packet.md5, "82089c5e7f9ce20a165803d11a7831f3");
    let packet = Packet::new("A".into(), "B".into(), PacketBody::<String, String>::NewICE { link_id: LinkID(1), ice: ICE::new("media".into(), 1, "name".into()) });
    assert_eq!(packet.md5, "b8f0a4604ce680ad61e4b0534137db76");
}

#[test]
fn tampered_packet_fails_verification() {
    let mut packet = Packet::new("A".into(), "B".into(), PacketBody::<String, String>::RequestOffer);
    assert!(packet.varify());
    packet.destination = "C".into();
    assert!(!packet.varify());
    let mut packet = Packet::new("A".into(), "B".into(), PacketBody::<String, String>::RequestOffer);
    packet.md5 = String::new();
    assert!(!packet.varify());
}

#[test]
fn md5_checksum_of_known_texts() {
    assert_eq!(checksum(""), "d41d8cd98f00b204e9800998ecf8427e");
    assert_eq!(checksum("abc"), "900150983cd24fb0d6963f7d28e17f72");
}

#[test]
fn hex_is_two_lowercase_digits_per_byte() {
    assert_eq!(to_hex_lower(&[0u8, 1, 15, 16, 171, 255]), "00010f10abff");
    assert_eq!(to_hex_lower(&[]), "");
}
