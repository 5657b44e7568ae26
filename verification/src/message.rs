//! The protocol's data model: peer records and the wire message variants.

use vstd::prelude::*;
use vstd::utf8::encode_utf8;
use crate::addr::NetAddr;

verus! {

/// What the registry knows of one peer: its identifier, the source address
/// the server itself observed on the peer's most recent registration, the
/// address the peer declared for same-subnet reachability, and the time of
/// the most recent registration.
pub struct PeerInfo {
    pub peer_id: String,
    pub public_addr: NetAddr,
    pub private_addr: Option<NetAddr>,
    pub last_seen: u64,
}

/// The mathematical value of a `PeerInfo`: the identifier as a sequence of
/// characters, the rest as the plain values it already holds.
pub ghost struct PeerRecord {
    pub peer_id: Seq<char>,
    pub public_addr: NetAddr,
    pub private_addr: Option<NetAddr>,
    pub last_seen: u64,
}

impl View for PeerInfo {
    type V = PeerRecord;

    open spec fn view(&self) -> PeerRecord {
        PeerRecord {
            peer_id: self.peer_id@,
            public_addr: self.public_addr,
            private_addr: self.private_addr,
            last_seen: self.last_seen,
        }
    }
}

/// An identifier fits on the wire when its UTF-8 form fits the two-byte
/// length prefix the codec writes before it.
pub open spec fn id_fits(s: Seq<char>) -> bool {
    encode_utf8(s).len() <= 0xFFFF
}

impl PeerRecord {
    /// The record can be carried in a wire message.
    pub open spec fn wf(self) -> bool {
        id_fits(self.peer_id)
    }
}

impl PeerInfo {
    /// A copy of the record with the same value.
    pub fn duplicate(&self) -> (r: PeerInfo)
        ensures
            r@ == self@,
    {
        PeerInfo {
            peer_id: self.peer_id.clone(),
            public_addr: self.public_addr,
            private_addr: self.private_addr,
            last_seen: self.last_seen,
        }
    }
}

/// One wire message. Exactly one variant is active per datagram; a message
/// lives only for the processing of that datagram.
pub enum RendezvousMessage {
    Register { peer_id: String, private_addr: Option<NetAddr> },
    Query { target_peer_id: String },
    PeerInfo { peer: PeerInfo },
    InitiateConnection { from_peer_id: String, to_peer_id: String },
}

/// The mathematical value of a `RendezvousMessage`.
pub ghost enum Message {
    Register { peer_id: Seq<char>, private_addr: Option<NetAddr> },
    Query { target_peer_id: Seq<char> },
    PeerInfo { peer: PeerRecord },
    InitiateConnection { from_peer_id: Seq<char>, to_peer_id: Seq<char> },
}

impl View for RendezvousMessage {
    type V = Message;

    open spec fn view(&self) -> Message {
        match self {
            RendezvousMessage::Register { peer_id, private_addr } => Message::Register {
                peer_id: peer_id@,
                private_addr: *private_addr,
            },
            RendezvousMessage::Query { target_peer_id } => Message::Query {
                target_peer_id: target_peer_id@,
            },
            RendezvousMessage::PeerInfo { peer } => Message::PeerInfo { peer: peer@ },
            RendezvousMessage::InitiateConnection { from_peer_id, to_peer_id } => {
                Message::InitiateConnection {
                    from_peer_id: from_peer_id@,
                    to_peer_id: to_peer_id@,
                }
            },
        }
    }
}

impl Message {
    /// Every identifier the message carries fits the wire format's length
    /// prefix.
    pub open spec fn wf(self) -> bool {
        match self {
            Message::Register { peer_id, .. } => id_fits(peer_id),
            Message::Query { target_peer_id } => id_fits(target_peer_id),
            Message::PeerInfo { peer } => peer.wf(),
            Message::InitiateConnection { from_peer_id, to_peer_id } => id_fits(from_peer_id)
                && id_fits(to_peer_id),
        }
    }
}

} // verus!
