use bytes::Bytes;
use zestors::frame::Frame;
use zestors::message::{gossip_from_its_sender, Delivery, Message};
use zestors::names::NodeName;

#[test]
fn messages_round_trip() {
    for message in [
        Message::Gossip(Bytes::from_static(b"hello")),
        Message::Departure,
    ] {
        assert_eq!(Message::decode(message.encode()), Some(message));
    }
}

#[test]
fn garbage_is_not_a_message() {
    assert_eq!(Message::decode(Bytes::new()), None);
    assert_eq!(Message::decode(Bytes::from_static(&[0xff, 1, 2])), None);
}

#[test]
fn messages_are_a_kind_byte_then_the_payload() {
    assert_eq!(
        Message::Gossip(Bytes::from_static(b"ab")).encode(),
        Bytes::from_static(b"\x01ab")
    );
    assert_eq!(Message::Departure.encode(), Bytes::from_static(&[2]));
    assert_eq!(
        Message::decode(Bytes::from_static(&[2, 9, 9])),
        Some(Message::Departure)
    );
    assert_eq!(
        Message::decode(Bytes::from_static(&[1])),
        Some(Message::Gossip(Bytes::new()))
    );
}

#[test]
fn gossip_goes_as_datagrams_and_departures_in_order() {
    assert_eq!(
        Message::Gossip(Bytes::new()).delivery(),
        Delivery::Datagram
    );
    assert_eq!(Message::Departure.delivery(), Delivery::Ordered);
}

#[test]
fn frames_round_trip_and_only_gossip_is_a_datagram() {
    for frame in [Frame::Gossip(Bytes::from_static(b"x")), Frame::Departure] {
        assert_eq!(Frame::decode(frame.encode()), Some(frame));
    }
    assert!(Frame::Gossip(Bytes::new()).is_datagram());
    assert!(!Frame::Departure.is_datagram());
    assert_eq!(Frame::decode(Bytes::from_static(&[3])), None);
}

#[test]
fn gossip_is_taken_from_the_node_it_names() {
    // The packet names node-b, and the transport says it came from node-b.
    let named = Some(NodeName::new("node-b"));
    assert!(gossip_from_its_sender(&named, &NodeName::new("node-b")));
}

#[test]
fn gossip_naming_another_sender_is_dropped() {
    // The packet says node-b, but the transport says it came from mallory.
    let named = Some(NodeName::new("node-b"));
    assert!(!gossip_from_its_sender(&named, &NodeName::new("mallory")));
    // A packet that names nobody is not taken either.
    assert!(!gossip_from_its_sender(&None, &NodeName::new("mallory")));
}

/// The header of a gossip packet from node-a to node-target: each member as
/// its name, address and generation, the sender's incarnation, then a probe.
fn packet_from(from: &str) -> Vec<u8> {
    let mut packet = Vec::new();
    let member = |packet: &mut Vec<u8>, name: &str| {
        let addr = format!("{name}:7000");
        packet.push(name.len() as u8);
        packet.extend_from_slice(name.as_bytes());
        packet.push(addr.len() as u8);
        packet.extend_from_slice(addr.as_bytes());
        packet.push(1);
    };
    member(&mut packet, from);
    packet.push(0);
    member(&mut packet, "node-target");
    packet.extend_from_slice(&[0, 5]);
    packet
}

#[test]
fn a_packet_names_its_sender() {
    assert_eq!(
        zestors::message::sender_of(&packet_from("node-a")),
        Some(NodeName::new("node-a"))
    );
    assert_eq!(zestors::message::sender_of(b"not a packet"), None);
}
