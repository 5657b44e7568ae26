use tesseras::addr::{IpAddr, NetAddr};
use tesseras::codec::{decode_message, encode_message};
use tesseras::message::RendezvousMessage;
use tesseras::server::RendezvousServer;

fn v4(a: u8, b: u8, c: u8, d: u8, port: u16) -> NetAddr {
    let ip = ((a as u32) << 24) | ((b as u32) << 16) | ((c as u32) << 8) | (d as u32);
    NetAddr { ip: IpAddr::V4(ip), port }
}

fn register(server: &mut RendezvousServer, id: &str, private: Option<NetAddr>, from: NetAddr, now: u64) {
    let msg = RendezvousMessage::Register {
        peer_id: String::from(id),
        private_addr: private,
    };
    let out = server.handle_message(msg, from, now);
    assert_eq!(out.len(), 0);
}

#[test]
fn register_records_observed_source_and_declared_private() {
    let mut server = RendezvousServer::new();
    let source = v4(203, 0, 113, 9, 55000);
    let private = v4(10, 0, 0, 5, 4000);
    register(&mut server, "alice", Some(private), source, 100);

    let rec = server.lookup(&String::from("alice")).unwrap();
    assert_eq!(rec.peer_id, "alice");
    assert_eq!(rec.public_addr, source);
    assert_eq!(rec.private_addr, Some(private));
    assert_eq!(rec.last_seen, 100);
}

#[test]
fn reregistration_last_write_wins_and_advances_last_seen() {
    let mut server = RendezvousServer::new();
    let s1 = v4(203, 0, 113, 9, 55000);
    let s2 = v4(198, 51, 100, 7, 41000);
    register(&mut server, "alice", Some(v4(10, 0, 0, 5, 4000)), s1, 100);
    let first_seen = server.lookup(&String::from("alice")).unwrap().last_seen;
    register(&mut server, "alice", None, s2, 250);

    let rec = server.lookup(&String::from("alice")).unwrap();
    assert_eq!(rec.public_addr, s2);
    assert_eq!(rec.private_addr, None);
    assert!(rec.last_seen > first_seen);
    assert_eq!(rec.last_seen, 250);
}

#[test]
fn query_registered_peer_answers_querier_with_current_record() {
    let mut server = RendezvousServer::new();
    let source = v4(203, 0, 113, 9, 55000);
    let private = v4(10, 0, 0, 5, 4000);
    register(&mut server, "alice", Some(private), source, 100);

    let querier = v4(192, 0, 2, 33, 60000);
    let out = server.handle_message(
        RendezvousMessage::Query { target_peer_id: String::from("alice") },
        querier,
        200,
    );
    assert_eq!(out.len(), 1);
    assert_eq!(out[0].dest, querier);
    match &out[0].payload {
        RendezvousMessage::PeerInfo { peer } => {
            assert_eq!(peer.peer_id, "alice");
            assert_eq!(peer.public_addr, source);
            assert_eq!(peer.private_addr, Some(private));
            assert_eq!(peer.last_seen, 100);
        }
        _ => panic!("expected a PeerInfo payload"),
    }
}

#[test]
fn query_unknown_peer_is_silent() {
    let mut server = RendezvousServer::new();
    let out = server.handle_message(
        RendezvousMessage::Query { target_peer_id: String::from("nobody") },
        v4(192, 0, 2, 33, 60000),
        200,
    );
    assert_eq!(out.len(), 0);
}

#[test]
fn initiate_connection_notifies_both_sides() {
    // The concrete exchange: alice at 203.0.113.9:55000 declaring
    // 10.0.0.5:4000, bob at 203.0.113.10:55001 declaring 10.0.0.6:4000.
    let mut server = RendezvousServer::new();
    let alice_pub = v4(203, 0, 113, 9, 55000);
    let alice_priv = v4(10, 0, 0, 5, 4000);
    let bob_pub = v4(203, 0, 113, 10, 55001);
    let bob_priv = v4(10, 0, 0, 6, 4000);
    register(&mut server, "alice", Some(alice_priv), alice_pub, 100);
    register(&mut server, "bob", Some(bob_priv), bob_pub, 110);

    let out = server.handle_message(
        RendezvousMessage::InitiateConnection {
            from_peer_id: String::from("alice"),
            to_peer_id: String::from("bob"),
        },
        v4(203, 0, 113, 9, 55000),
        300,
    );
    assert_eq!(out.len(), 2);

    assert_eq!(out[0].dest, alice_pub);
    match &out[0].payload {
        RendezvousMessage::PeerInfo { peer } => {
            assert_eq!(peer.peer_id, "bob");
            assert_eq!(peer.public_addr, bob_pub);
            assert_eq!(peer.private_addr, Some(bob_priv));
        }
        _ => panic!("expected a PeerInfo payload"),
    }

    assert_eq!(out[1].dest, bob_pub);
    match &out[1].payload {
        RendezvousMessage::PeerInfo { peer } => {
            assert_eq!(peer.peer_id, "alice");
            assert_eq!(peer.public_addr, alice_pub);
            assert_eq!(peer.private_addr, Some(alice_priv));
        }
        _ => panic!("expected a PeerInfo payload"),
    }
}

#[test]
fn initiate_connection_with_either_side_unknown_is_silent() {
    let mut server = RendezvousServer::new();
    register(&mut server, "alice", None, v4(203, 0, 113, 9, 55000), 100);

    let out = server.handle_message(
        RendezvousMessage::InitiateConnection {
            from_peer_id: String::from("alice"),
            to_peer_id: String::from("bob"),
        },
        v4(203, 0, 113, 9, 55000),
        200,
    );
    assert_eq!(out.len(), 0);

    let out = server.handle_message(
        RendezvousMessage::InitiateConnection {
            from_peer_id: String::from("bob"),
            to_peer_id: String::from("alice"),
        },
        v4(203, 0, 113, 9, 55000),
        201,
    );
    assert_eq!(out.len(), 0);

    let out = server.handle_message(
        RendezvousMessage::InitiateConnection {
            from_peer_id: String::from("carol"),
            to_peer_id: String::from("dave"),
        },
        v4(203, 0, 113, 9, 55000),
        202,
    );
    assert_eq!(out.len(), 0);
}

#[test]
fn inbound_peer_info_is_ignored() {
    let mut server = RendezvousServer::new();
    register(&mut server, "alice", None, v4(203, 0, 113, 9, 55000), 100);
    let rec = server.lookup(&String::from("alice")).unwrap().duplicate();

    let out = server.handle_message(
        RendezvousMessage::PeerInfo { peer: rec },
        v4(192, 0, 2, 33, 60000),
        200,
    );
    assert_eq!(out.len(), 0);
}

#[test]
fn corrupted_datagram_is_discarded_and_processing_continues() {
    let mut server = RendezvousServer::new();
    let source = v4(203, 0, 113, 9, 55000);

    // A corrupted and a truncated datagram: nothing out, nothing registered.
    let out = server.process_datagram(&[0xFFu8, 0x01, 0x02], source, 100);
    assert_eq!(out.len(), 0);
    let out = server.process_datagram(&[0u8, 5], source, 101);
    assert_eq!(out.len(), 0);
    assert!(server.lookup(&String::from("alice")).is_none());

    // A well-formed datagram right after is still processed.
    let reg = encode_message(&RendezvousMessage::Register {
        peer_id: String::from("alice"),
        private_addr: Some(v4(10, 0, 0, 5, 4000)),
    })
    .unwrap();
    let out = server.process_datagram(&reg, source, 102);
    assert_eq!(out.len(), 0);
    let rec = server.lookup(&String::from("alice")).unwrap();
    assert_eq!(rec.public_addr, source);
}

#[test]
fn datagram_level_query_answers_with_encoded_peer_info() {
    let mut server = RendezvousServer::new();
    let source = v4(203, 0, 113, 9, 55000);
    let reg = encode_message(&RendezvousMessage::Register {
        peer_id: String::from("alice"),
        private_addr: Some(v4(10, 0, 0, 5, 4000)),
    })
    .unwrap();
    assert_eq!(server.process_datagram(&reg, source, 100).len(), 0);

    let querier = v4(192, 0, 2, 33, 60000);
    let query = encode_message(&RendezvousMessage::Query {
        target_peer_id: String::from("alice"),
    })
    .unwrap();
    let out = server.process_datagram(&query, querier, 200);
    assert_eq!(out.len(), 1);
    assert_eq!(out[0].dest, querier);
    match decode_message(&out[0].bytes).unwrap() {
        RendezvousMessage::PeerInfo { peer } => {
            assert_eq!(peer.peer_id, "alice");
            assert_eq!(peer.public_addr, source);
            assert_eq!(peer.private_addr, Some(v4(10, 0, 0, 5, 4000)));
            assert_eq!(peer.last_seen, 100);
        }
        _ => panic!("expected a PeerInfo payload"),
    }
}
