use tesseras::addr::{IpAddr, NetAddr};
use tesseras::codec::{decode_message, encode_message};
use tesseras::message::{PeerInfo, RendezvousMessage};

fn v4(a: u8, b: u8, c: u8, d: u8, port: u16) -> NetAddr {
    let ip = ((a as u32) << 24) | ((b as u32) << 16) | ((c as u32) << 8) | (d as u32);
    NetAddr { ip: IpAddr::V4(ip), port }
}

fn v6(value: u128, port: u16) -> NetAddr {
    NetAddr { ip: IpAddr::V6(value), port }
}

#[test]
fn register_round_trip() {
    let msg = RendezvousMessage::Register {
        peer_id: String::from("alice"),
        private_addr: Some(v4(10, 0, 0, 5, 4000)),
    };
    let bytes = encode_message(&msg).unwrap();
    match decode_message(&bytes).unwrap() {
        RendezvousMessage::Register { peer_id, private_addr } => {
            assert_eq!(peer_id, "alice");
            assert_eq!(private_addr, Some(v4(10, 0, 0, 5, 4000)));
        }
        _ => panic!("wrong variant"),
    }
}

#[test]
fn register_without_private_round_trip() {
    let msg = RendezvousMessage::Register {
        peer_id: String::from("p"),
        private_addr: None,
    };
    let bytes = encode_message(&msg).unwrap();
    match decode_message(&bytes).unwrap() {
        RendezvousMessage::Register { peer_id, private_addr } => {
            assert_eq!(peer_id, "p");
            assert_eq!(private_addr, None);
        }
        _ => panic!("wrong variant"),
    }
}

#[test]
fn query_round_trip() {
    let msg = RendezvousMessage::Query {
        target_peer_id: String::from("bob"),
    };
    let bytes = encode_message(&msg).unwrap();
    match decode_message(&bytes).unwrap() {
        RendezvousMessage::Query { target_peer_id } => assert_eq!(target_peer_id, "bob"),
        _ => panic!("wrong variant"),
    }
}

#[test]
fn peer_info_round_trip_v6() {
    let msg = RendezvousMessage::PeerInfo {
        peer: PeerInfo {
            peer_id: String::from("carol"),
            public_addr: v6(0x2001_0db8_0000_0000_0000_0000_0000_0001, 8000),
            private_addr: Some(v6(1, 4001)),
            last_seen: 1_700_000_000,
        },
    };
    let bytes = encode_message(&msg).unwrap();
    match decode_message(&bytes).unwrap() {
        RendezvousMessage::PeerInfo { peer } => {
            assert_eq!(peer.peer_id, "carol");
            assert_eq!(peer.public_addr, v6(0x2001_0db8_0000_0000_0000_0000_0000_0001, 8000));
            assert_eq!(peer.private_addr, Some(v6(1, 4001)));
            assert_eq!(peer.last_seen, 1_700_000_000);
        }
        _ => panic!("wrong variant"),
    }
}

#[test]
fn initiate_connection_round_trip() {
    let msg = RendezvousMessage::InitiateConnection {
        from_peer_id: String::from("alice"),
        to_peer_id: String::from("bob"),
    };
    let bytes = encode_message(&msg).unwrap();
    match decode_message(&bytes).unwrap() {
        RendezvousMessage::InitiateConnection { from_peer_id, to_peer_id } => {
            assert_eq!(from_peer_id, "alice");
            assert_eq!(to_peer_id, "bob");
        }
        _ => panic!("wrong variant"),
    }
}

#[test]
fn unicode_identifier_round_trip() {
    let msg = RendezvousMessage::Query {
        target_peer_id: String::from("péer-Ω-名"),
    };
    let bytes = encode_message(&msg).unwrap();
    match decode_message(&bytes).unwrap() {
        RendezvousMessage::Query { target_peer_id } => assert_eq!(target_peer_id, "péer-Ω-名"),
        _ => panic!("wrong variant"),
    }
}

#[test]
fn exact_bytes_of_a_query() {
    // tag 1, length 2 little-endian, then the UTF-8 bytes of "hi".
    let msg = RendezvousMessage::Query {
        target_peer_id: String::from("hi"),
    };
    let bytes = encode_message(&msg).unwrap();
    assert_eq!(bytes, vec![1u8, 2, 0, b'h', b'i']);
}

#[test]
fn exact_bytes_of_a_register() {
    // tag 0; id "a"; presence byte 1; v4 tag 0; ip 0x0A000005 little-endian;
    // port 4000 little-endian.
    let msg = RendezvousMessage::Register {
        peer_id: String::from("a"),
        private_addr: Some(v4(10, 0, 0, 5, 4000)),
    };
    let bytes = encode_message(&msg).unwrap();
    assert_eq!(
        bytes,
        vec![0u8, 1, 0, b'a', 1, 0, 0x05, 0x00, 0x00, 0x0A, 0xA0, 0x0F]
    );
}

#[test]
fn empty_datagram_is_rejected() {
    assert!(decode_message(&[]).is_err());
}

#[test]
fn unknown_discriminant_is_rejected() {
    assert!(decode_message(&[9u8, 0, 0]).is_err());
}

#[test]
fn truncated_datagram_is_rejected() {
    let msg = RendezvousMessage::Query {
        target_peer_id: String::from("bob"),
    };
    let bytes = encode_message(&msg).unwrap();
    assert!(decode_message(&bytes[..bytes.len() - 1]).is_err());
}

#[test]
fn trailing_bytes_are_rejected() {
    let msg = RendezvousMessage::Query {
        target_peer_id: String::from("bob"),
    };
    let mut bytes = encode_message(&msg).unwrap();
    bytes.push(0);
    assert!(decode_message(&bytes).is_err());
}

#[test]
fn oversized_length_prefix_is_rejected() {
    // Claims a 300-byte identifier but carries one byte of it.
    assert!(decode_message(&[1u8, 0x2C, 0x01, b'x']).is_err());
}

#[test]
fn invalid_utf8_identifier_is_rejected() {
    assert!(decode_message(&[1u8, 1, 0, 0xFF]).is_err());
}

#[test]
fn corrupted_address_tag_is_rejected() {
    // A register whose optional-address presence byte is valid but whose
    // address family tag is neither v4 nor v6.
    assert!(decode_message(&[0u8, 1, 0, b'a', 1, 7, 0, 0]).is_err());
}

#[test]
fn too_long_identifier_is_not_encodable() {
    let msg = RendezvousMessage::Query {
        target_peer_id: "x".repeat(70_000),
    };
    assert!(encode_message(&msg).is_none());
}

#[test]
fn longest_encodable_identifier_round_trips() {
    let id = "y".repeat(65_535);
    let msg = RendezvousMessage::Query {
        target_peer_id: id.clone(),
    };
    let bytes = encode_message(&msg).unwrap();
    match decode_message(&bytes).unwrap() {
        RendezvousMessage::Query { target_peer_id } => assert_eq!(target_peer_id, id),
        _ => panic!("wrong variant"),
    }
}
