//! The protocol handler: dispatch of one decoded message against the
//! registry, and the datagram-level step the transport loop drives.
//!
//! `dispatch_map` and `dispatch_out` state the whole dispatch table: what a
//! message does to the registry, and which notifications go out. Every
//! lookup miss degrades silently — no error datagram exists in this
//! protocol — and an inbound `PeerInfo` or unrecognizable datagram is
//! ignored.

use vstd::prelude::*;
use crate::addr::NetAddr;
use crate::message::{PeerInfo, PeerRecord, RendezvousMessage, Message};
use crate::registry::{PeerRegistry, spec_register};
use crate::codec::{enc_message, parse_message, encode_message, decode_message};

verus! {

/// One outbound notification at the message level: what to send, and to
/// which address.
pub struct Notification {
    pub dest: NetAddr,
    pub payload: RendezvousMessage,
}

/// One outbound datagram at the byte level, ready for the transport.
pub struct OutboundDatagram {
    pub dest: NetAddr,
    pub bytes: Vec<u8>,
}

/// What a message does to the registry: only `Register` changes it, binding
/// the sender's identifier to the observed source address.
pub open spec fn dispatch_map(
    m: Map<Seq<char>, PeerRecord>,
    msg: Message,
    from: NetAddr,
    now: u64,
) -> Map<Seq<char>, PeerRecord> {
    match msg {
        Message::Register { peer_id, private_addr } => spec_register(
            m,
            peer_id,
            from,
            private_addr,
            now,
        ),
        _ => m,
    }
}

/// Which notifications a message causes, in order. A `Query` for a
/// registered peer is answered to the querying source with that peer's
/// record; `InitiateConnection` with both sides registered sends each
/// side's record to the other side's public address; everything else —
/// including every lookup miss — sends nothing.
pub open spec fn dispatch_out(
    m: Map<Seq<char>, PeerRecord>,
    msg: Message,
    from: NetAddr,
) -> Seq<(NetAddr, Message)> {
    match msg {
        Message::Register { .. } => Seq::empty(),
        Message::Query { target_peer_id } => if m.contains_key(target_peer_id) {
            seq![(from, Message::PeerInfo { peer: m[target_peer_id] })]
        } else {
            Seq::empty()
        },
        Message::PeerInfo { .. } => Seq::empty(),
        Message::InitiateConnection { from_peer_id, to_peer_id } => if m.contains_key(
            from_peer_id,
        ) && m.contains_key(to_peer_id) {
            seq![
                (m[from_peer_id].public_addr, Message::PeerInfo { peer: m[to_peer_id] }),
                (m[to_peer_id].public_addr, Message::PeerInfo { peer: m[from_peer_id] }),
            ]
        } else {
            Seq::empty()
        },
    }
}

/// The rendezvous server's protocol state: the peer registry. The UDP
/// socket itself stays with the transport loop outside the crate, which
/// hands in each datagram's bytes, observed source address and clock
/// reading, and sends whatever comes back.
pub struct RendezvousServer {
    peers: PeerRegistry,
}

impl View for RendezvousServer {
    type V = Map<Seq<char>, PeerRecord>;

    closed spec fn view(&self) -> Map<Seq<char>, PeerRecord> {
        self.peers@
    }
}

impl RendezvousServer {
    pub closed spec fn wf(self) -> bool {
        self.peers.wf()
    }

    /// A server with an empty registry.
    pub fn new() -> (r: RendezvousServer)
        ensures
            r.wf(),
            r@ == Map::<Seq<char>, PeerRecord>::empty(),
    {
        RendezvousServer { peers: PeerRegistry::new() }
    }

    /// The record registered for `peer_id`, or nothing.
    pub fn lookup(&self, peer_id: &String) -> (r: Option<&PeerInfo>)
        requires
            self.wf(),
        ensures
            match r {
                Option::Some(p) => self@.contains_key(peer_id@) && p@ == self@[peer_id@],
                Option::None => !self@.contains_key(peer_id@),
            },
    {
        self.peers.lookup(peer_id)
    }

    /// Dispatches one decoded message, observed to come from `from` at
    /// clock reading `now`: the registry changes by `dispatch_map`, and the
    /// returned notifications are exactly `dispatch_out`.
    pub fn handle_message(&mut self, msg: RendezvousMessage, from: NetAddr, now: u64) -> (out: Vec<
        Notification,
    >)
        requires
            old(self).wf(),
            msg@.wf(),
        ensures
            final(self).wf(),
            final(self)@ == dispatch_map(old(self)@, msg@, from, now),
            out@.len() == dispatch_out(old(self)@, msg@, from).len(),
            forall|k: int|
                0 <= k < out@.len() ==> (#[trigger] out@[k]).dest == dispatch_out(
                    old(self)@,
                    msg@,
                    from,
                )[k].0 && out@[k].payload@ == dispatch_out(old(self)@, msg@, from)[k].1
                    && out@[k].payload@.wf(),
    {
        match msg {
            RendezvousMessage::Register { peer_id, private_addr } => {
                self.peers.register(peer_id, from, private_addr, now);
                Vec::new()
            },
            RendezvousMessage::Query { target_peer_id } => {
                let mut out: Vec<Notification> = Vec::new();
                match self.peers.lookup(&target_peer_id) {
                    Option::Some(p) => {
                        let payload = RendezvousMessage::PeerInfo { peer: p.duplicate() };
                        out.push(Notification { dest: from, payload });
                    },
                    Option::None => {},
                }
                out
            },
            RendezvousMessage::PeerInfo { .. } => Vec::new(),
            RendezvousMessage::InitiateConnection { from_peer_id, to_peer_id } => {
                let mut out: Vec<Notification> = Vec::new();
                match self.peers.lookup(&from_peer_id) {
                    Option::Some(from_rec) => match self.peers.lookup(&to_peer_id) {
                        Option::Some(to_rec) => {
                            let to_first = Notification {
                                dest: from_rec.public_addr,
                                payload: RendezvousMessage::PeerInfo { peer: to_rec.duplicate() },
                            };
                            let to_second = Notification {
                                dest: to_rec.public_addr,
                                payload: RendezvousMessage::PeerInfo {
                                    peer: from_rec.duplicate(),
                                },
                            };
                            out.push(to_first);
                            out.push(to_second);
                        },
                        Option::None => {},
                    },
                    Option::None => {},
                }
                out
            },
        }
    }

    /// One step of the transport loop: decode the datagram, dispatch it,
    /// encode the replies. A datagram that decodes to no message — corrupt,
    /// truncated, or carrying an unknown discriminant — is discarded: the
    /// registry does not change and nothing goes out, and processing
    /// continues with the next datagram.
    pub fn process_datagram(&mut self, bytes: &[u8], from: NetAddr, now: u64) -> (out: Vec<
        OutboundDatagram,
    >)
        requires
            old(self).wf(),
        ensures
            final(self).wf(),
            match parse_message(bytes@) {
                Some(msg) => {
                    &&& final(self)@ == dispatch_map(old(self)@, msg, from, now)
                    &&& out@.len() == dispatch_out(old(self)@, msg, from).len()
                    &&& forall|k: int|
                        0 <= k < out@.len() ==> (#[trigger] out@[k]).dest == dispatch_out(
                            old(self)@,
                            msg,
                            from,
                        )[k].0 && out@[k].bytes@ == enc_message(
                            dispatch_out(old(self)@, msg, from)[k].1,
                        )
                },
                None => {
                    &&& final(self)@ == old(self)@
                    &&& out@.len() == 0
                },
            },
    {
        let msg = match decode_message(bytes) {
            Result::Ok(m) => m,
            Result::Err(_) => {
                return Vec::new();
            },
        };
        let ghost m0 = self@;
        let notes = self.handle_message(msg, from, now);
        let ghost want = dispatch_out(m0, parse_message(bytes@)->Some_0, from);
        let n: usize = notes.len();
        let mut out: Vec<OutboundDatagram> = Vec::new();
        let mut i: usize = 0;
        while i < n
            invariant
                i <= n == notes@.len(),
                notes@.len() == want.len(),
                forall|k: int|
                    0 <= k < notes@.len() ==> (#[trigger] notes@[k]).dest == want[k].0
                        && notes@[k].payload@ == want[k].1 && notes@[k].payload@.wf(),
                out@.len() == i,
                forall|k: int|
                    0 <= k < i ==> (#[trigger] out@[k]).dest == want[k].0 && out@[k].bytes@
                        == enc_message(want[k].1),
            decreases n - i,
        {
            let note = &notes[i];
            match encode_message(&note.payload) {
                Option::Some(b) => {
                    out.push(OutboundDatagram { dest: note.dest, bytes: b });
                },
                Option::None => {
                    proof {
                        assert(false);
                    }
                },
            }
            i = i + 1;
        }
        out
    }
}

/// Law: a query for a registered peer yields exactly one notification, to
/// the querying source, carrying the current record of the queried peer; a
/// query for an unknown peer yields none.
pub proof fn lemma_query_response(m: Map<Seq<char>, PeerRecord>, t: Seq<char>, from: NetAddr)
    ensures
        m.contains_key(t) ==> dispatch_out(m, Message::Query { target_peer_id: t }, from) =~= seq![
            (from, Message::PeerInfo { peer: m[t] }),
        ],
        !m.contains_key(t) ==> dispatch_out(m, Message::Query { target_peer_id: t }, from).len()
            == 0,
{
}

/// Law: a connection request between two registered peers yields exactly
/// two notifications — the second peer's record to the first peer's public
/// address, and the first peer's record to the second peer's public
/// address; with either side unknown it yields none.
pub proof fn lemma_initiate_connection(
    m: Map<Seq<char>, PeerRecord>,
    a: Seq<char>,
    b: Seq<char>,
    from: NetAddr,
)
    ensures
        m.contains_key(a) && m.contains_key(b) ==> dispatch_out(
            m,
            Message::InitiateConnection { from_peer_id: a, to_peer_id: b },
            from,
        ) =~= seq![
            (m[a].public_addr, Message::PeerInfo { peer: m[b] }),
            (m[b].public_addr, Message::PeerInfo { peer: m[a] }),
        ],
        !(m.contains_key(a) && m.contains_key(b)) ==> dispatch_out(
            m,
            Message::InitiateConnection { from_peer_id: a, to_peer_id: b },
            from,
        ).len() == 0,
{
}

} // verus!
