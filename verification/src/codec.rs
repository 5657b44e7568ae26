//! The wire codec: a deterministic, compact binary form for
//! `RendezvousMessage`.
//!
//! Layout: one discriminant byte, then the variant's fields in order. A
//! string is its UTF-8 bytes behind a two-byte little-endian length; an
//! address is a one-byte family tag, the address value little-endian (four
//! bytes for v4, sixteen for v6) and a two-byte port; an optional address is
//! a presence byte, then the address if present; a timestamp is eight
//! little-endian bytes. A datagram that is not exactly such an encoding is
//! rejected, which the caller treats as a recoverable condition.
//!
//! `enc_message` says what the bytes of a message are; `parse_message` says
//! which byte strings decode, and to what. `lemma_parse_enc_message` proves
//! that decoding inverts encoding.

use vstd::prelude::*;
use vstd::utf8::{encode_utf8, decode_utf8, valid_utf8, encode_utf8_valid_utf8,
    encode_utf8_decode_utf8, decode_utf8_encode_utf8};
use crate::addr::{IpAddr, NetAddr};
use crate::message::{PeerInfo, PeerRecord, RendezvousMessage, Message, id_fits};
use crate::wire::{le_bytes, le_val, pow256, push_le, read_le, lemma_le_bytes_len,
    lemma_le_val_le_bytes, lemma_le_val_bound};

verus! {

/// A datagram that is not a well-formed encoding of any message. The
/// receiver discards such a datagram and sends nothing.
#[derive(Clone, Copy, PartialEq, Eq, Structural, Debug)]
pub struct DecodeError;

// ---------------------------------------------------------------------------
// What the bytes of a message are.
// ---------------------------------------------------------------------------

/// A string on the wire: two length bytes, then the UTF-8 bytes.
pub open spec fn enc_str(s: Seq<char>) -> Seq<u8> {
    le_bytes(encode_utf8(s).len(), 2) + encode_utf8(s)
}

/// An address on the wire: family tag, address value, port.
pub open spec fn enc_addr(a: NetAddr) -> Seq<u8> {
    (match a.ip {
        IpAddr::V4(v) => seq![0u8] + le_bytes(v as nat, 4),
        IpAddr::V6(v) => seq![1u8] + le_bytes(v as nat, 16),
    }) + le_bytes(a.port as nat, 2)
}

/// An optional address on the wire: a presence byte, then the address.
pub open spec fn enc_opt_addr(o: Option<NetAddr>) -> Seq<u8> {
    match o {
        Option::None => seq![0u8],
        Option::Some(a) => seq![1u8] + enc_addr(a),
    }
}

/// A peer record on the wire: identifier, public address, declared private
/// address, last-seen time.
pub open spec fn enc_record(p: PeerRecord) -> Seq<u8> {
    enc_str(p.peer_id) + enc_addr(p.public_addr) + enc_opt_addr(p.private_addr)
        + le_bytes(p.last_seen as nat, 8)
}

/// A message on the wire: discriminant byte, then the fields.
pub open spec fn enc_message(m: Message) -> Seq<u8> {
    match m {
        Message::Register { peer_id, private_addr } => seq![0u8] + enc_str(peer_id)
            + enc_opt_addr(private_addr),
        Message::Query { target_peer_id } => seq![1u8] + enc_str(target_peer_id),
        Message::PeerInfo { peer } => seq![2u8] + enc_record(peer),
        Message::InitiateConnection { from_peer_id, to_peer_id } => seq![3u8]
            + enc_str(from_peer_id) + enc_str(to_peer_id),
    }
}

// ---------------------------------------------------------------------------
// Which byte strings decode, and to what. Each parser yields the value and
// the position after it, or nothing.
// ---------------------------------------------------------------------------

pub open spec fn parse_uint(s: Seq<u8>, i: int, n: int) -> Option<(nat, int)> {
    if 0 <= i && 0 <= n && i + n <= s.len() {
        Some((le_val(s.subrange(i, i + n)), i + n))
    } else {
        None
    }
}

pub open spec fn parse_str(s: Seq<u8>, i: int) -> Option<(Seq<char>, int)> {
    match parse_uint(s, i, 2) {
        Some((len, j)) => {
            if j + len <= s.len() {
                let b = s.subrange(j, j + len);
                if valid_utf8(b) {
                    Some((decode_utf8(b), j + len))
                } else {
                    None
                }
            } else {
                None
            }
        },
        None => None,
    }
}

pub open spec fn parse_addr(s: Seq<u8>, i: int) -> Option<(NetAddr, int)> {
    if 0 <= i < s.len() {
        let width: int = if s[i] == 0u8 {
            4
        } else {
            16
        };
        if s[i] == 0u8 || s[i] == 1u8 {
            match parse_uint(s, i + 1, width) {
                Some((v, j)) => match parse_uint(s, j, 2) {
                    Some((p, k)) => {
                        let ip = if s[i] == 0u8 {
                            IpAddr::V4(v as u32)
                        } else {
                            IpAddr::V6(v as u128)
                        };
                        Some((NetAddr { ip, port: p as u16 }, k))
                    },
                    None => None,
                },
                None => None,
            }
        } else {
            None
        }
    } else {
        None
    }
}

pub open spec fn parse_opt_addr(s: Seq<u8>, i: int) -> Option<(Option<NetAddr>, int)> {
    if 0 <= i < s.len() {
        if s[i] == 0u8 {
            Some((Option::None, i + 1))
        } else if s[i] == 1u8 {
            match parse_addr(s, i + 1) {
                Some((a, j)) => Some((Option::Some(a), j)),
                None => None,
            }
        } else {
            None
        }
    } else {
        None
    }
}

pub open spec fn parse_record(s: Seq<u8>, i: int) -> Option<(PeerRecord, int)> {
    match parse_str(s, i) {
        Some((id, j)) => match parse_addr(s, j) {
            Some((pub_a, k)) => match parse_opt_addr(s, k) {
                Some((priv_a, l)) => match parse_uint(s, l, 8) {
                    Some((t, e)) => Some(
                        (PeerRecord {
                            peer_id: id,
                            public_addr: pub_a,
                            private_addr: priv_a,
                            last_seen: t as u64,
                        }, e),
                    ),
                    None => None,
                },
                None => None,
            },
            None => None,
        },
        None => None,
    }
}

/// The one message a whole byte string encodes, if any. A parse that leaves
/// bytes over is no parse: one datagram carries one message.
pub open spec fn parse_message(s: Seq<u8>) -> Option<Message> {
    if s.len() == 0 {
        None
    } else if s[0] == 0u8 {
        match parse_str(s, 1) {
            Some((id, j)) => match parse_opt_addr(s, j) {
                Some((a, e)) => if e == s.len() {
                    Some(Message::Register { peer_id: id, private_addr: a })
                } else {
                    None
                },
                None => None,
            },
            None => None,
        }
    } else if s[0] == 1u8 {
        match parse_str(s, 1) {
            Some((id, e)) => if e == s.len() {
                Some(Message::Query { target_peer_id: id })
            } else {
                None
            },
            None => None,
        }
    } else if s[0] == 2u8 {
        match parse_record(s, 1) {
            Some((p, e)) => if e == s.len() {
                Some(Message::PeerInfo { peer: p })
            } else {
                None
            },
            None => None,
        }
    } else if s[0] == 3u8 {
        match parse_str(s, 1) {
            Some((a, j)) => match parse_str(s, j) {
                Some((b, e)) => if e == s.len() {
                    Some(Message::InitiateConnection { from_peer_id: a, to_peer_id: b })
                } else {
                    None
                },
                None => None,
            },
            None => None,
        }
    } else {
        None
    }
}

// ---------------------------------------------------------------------------
// Decoding inverts encoding.
// ---------------------------------------------------------------------------

/// Splitting a concatenation placed inside a longer byte string.
proof fn lemma_split_at(s: Seq<u8>, i: int, a: Seq<u8>, b: Seq<u8>)
    requires
        0 <= i,
        i + a.len() + b.len() <= s.len(),
        s.subrange(i, i + a.len() + b.len()) == a + b,
    ensures
        s.subrange(i, i + a.len()) == a,
        s.subrange(i + a.len(), i + a.len() + b.len()) == b,
{
    let ab = s.subrange(i, i + a.len() + b.len());
    assert forall|k: int| 0 <= k < a.len() implies s.subrange(i, i + a.len())[k] == a[k] by {
        assert(ab[k] == (a + b)[k]);
    }
    assert(s.subrange(i, i + a.len()) =~= a);
    assert forall|k: int| 0 <= k < b.len() implies s.subrange(
        i + a.len(),
        i + a.len() + b.len(),
    )[k] == b[k] by {
        assert(ab[a.len() + k] == (a + b)[a.len() + k]);
    }
    assert(s.subrange(i + a.len(), i + a.len() + b.len()) =~= b);
}

proof fn lemma_parse_uint_at(s: Seq<u8>, i: int, v: nat, n: int)
    requires
        0 <= i,
        0 <= n,
        i + n <= s.len(),
        v < pow256(n as nat),
        s.subrange(i, i + n) == le_bytes(v, n as nat),
    ensures
        parse_uint(s, i, n) == Some((v, i + n)),
{
    lemma_le_val_le_bytes(v, n as nat);
}

proof fn lemma_parse_str_at(s: Seq<u8>, i: int, cs: Seq<char>)
    requires
        0 <= i,
        id_fits(cs),
        i + enc_str(cs).len() <= s.len(),
        s.subrange(i, i + enc_str(cs).len()) == enc_str(cs),
    ensures
        enc_str(cs).len() == 2 + encode_utf8(cs).len(),
        parse_str(s, i) == Some((cs, i + enc_str(cs).len())),
{
    let u = encode_utf8(cs);
    let lenb = le_bytes(u.len(), 2);
    lemma_le_bytes_len(u.len(), 2);
    lemma_split_at(s, i, lenb, u);
    assert(u.len() < pow256(2)) by {
        assert(pow256(2) == 0x10000) by {
            reveal_with_fuel(pow256, 3);
        }
    }
    lemma_parse_uint_at(s, i, u.len(), 2);
    broadcast use encode_utf8_valid_utf8, encode_utf8_decode_utf8;

    assert(s.subrange(i + 2, i + 2 + u.len()) == u);
}

proof fn lemma_parse_addr_at(s: Seq<u8>, i: int, a: NetAddr)
    requires
        0 <= i,
        i + enc_addr(a).len() <= s.len(),
        s.subrange(i, i + enc_addr(a).len()) == enc_addr(a),
    ensures
        enc_addr(a).len() == (match a.ip {
            IpAddr::V4(_) => 7int,
            IpAddr::V6(_) => 19int,
        }),
        parse_addr(s, i) == Some((a, i + enc_addr(a).len())),
{
    let portb = le_bytes(a.port as nat, 2);
    lemma_le_bytes_len(a.port as nat, 2);
    assert(pow256(2) == 0x10000) by {
        reveal_with_fuel(pow256, 3);
    }
    match a.ip {
        IpAddr::V4(v) => {
            let body = seq![0u8] + le_bytes(v as nat, 4);
            lemma_le_bytes_len(v as nat, 4);
            lemma_split_at(s, i, body, portb);
            assert((seq![0u8] + le_bytes(v as nat, 4)) + portb =~= seq![0u8] + (le_bytes(
                v as nat,
                4,
            ) + portb));
            lemma_split_at(s, i, seq![0u8], le_bytes(v as nat, 4) + portb);
            lemma_split_at(s, i + 1, le_bytes(v as nat, 4), portb);
            assert(s.subrange(i, i + 1)[0] == s[i]);
            assert(s[i] == 0u8);
            assert((v as nat) < pow256(4)) by {
                assert(pow256(4) == 0x1_0000_0000) by {
                    reveal_with_fuel(pow256, 5);
                }
            }
            lemma_parse_uint_at(s, i + 1, v as nat, 4);
            lemma_parse_uint_at(s, i + 5, a.port as nat, 2);
        },
        IpAddr::V6(v) => {
            let body = seq![1u8] + le_bytes(v as nat, 16);
            lemma_le_bytes_len(v as nat, 16);
            lemma_split_at(s, i, body, portb);
            assert((seq![1u8] + le_bytes(v as nat, 16)) + portb =~= seq![1u8] + (le_bytes(
                v as nat,
                16,
            ) + portb));
            lemma_split_at(s, i, seq![1u8], le_bytes(v as nat, 16) + portb);
            lemma_split_at(s, i + 1, le_bytes(v as nat, 16), portb);
            assert(s.subrange(i, i + 1)[0] == s[i]);
            assert(s[i] == 1u8);
            assert((v as nat) < pow256(16)) by {
                assert(pow256(16) == 0x1_0000_0000_0000_0000_0000_0000_0000_0000) by {
                    reveal_with_fuel(pow256, 17);
                }
            }
            lemma_parse_uint_at(s, i + 1, v as nat, 16);
            lemma_parse_uint_at(s, i + 17, a.port as nat, 2);
        },
    }
}

proof fn lemma_parse_opt_addr_at(s: Seq<u8>, i: int, o: Option<NetAddr>)
    requires
        0 <= i,
        i + enc_opt_addr(o).len() <= s.len(),
        s.subrange(i, i + enc_opt_addr(o).len()) == enc_opt_addr(o),
    ensures
        enc_opt_addr(o).len() == (match o {
            Option::None => 1int,
            Option::Some(a) => 1 + enc_addr(a).len() as int,
        }),
        parse_opt_addr(s, i) == Some((o, i + enc_opt_addr(o).len())),
{
    match o {
        Option::None => {
            assert(s.subrange(i, i + 1)[0] == s[i]);
            assert(s[i] == 0u8);
        },
        Option::Some(a) => {
            lemma_split_at(s, i, seq![1u8], enc_addr(a));
            assert(s.subrange(i, i + 1)[0] == s[i]);
            assert(s[i] == 1u8);
            lemma_parse_addr_at(s, i + 1, a);
        },
    }
}

proof fn lemma_parse_record_at(s: Seq<u8>, i: int, p: PeerRecord)
    requires
        0 <= i,
        p.wf(),
        i + enc_record(p).len() <= s.len(),
        s.subrange(i, i + enc_record(p).len()) == enc_record(p),
    ensures
        parse_record(s, i) == Some((p, i + enc_record(p).len())),
{
    let idb = enc_str(p.peer_id);
    let puba = enc_addr(p.public_addr);
    let priva = enc_opt_addr(p.private_addr);
    let tb = le_bytes(p.last_seen as nat, 8);
    lemma_le_bytes_len(p.last_seen as nat, 8);
    assert(enc_record(p) =~= idb + (puba + (priva + tb)));
    lemma_split_at(s, i, idb, puba + (priva + tb));
    lemma_parse_str_at(s, i, p.peer_id);
    let j = i + idb.len();
    lemma_split_at(s, j, puba, priva + tb);
    lemma_parse_addr_at(s, j, p.public_addr);
    let k = j + puba.len();
    lemma_split_at(s, k, priva, tb);
    lemma_parse_opt_addr_at(s, k, p.private_addr);
    let l = k + priva.len();
    assert((p.last_seen as nat) < pow256(8)) by {
        assert(pow256(8) == 0x1_0000_0000_0000_0000) by {
            reveal_with_fuel(pow256, 9);
        }
    }
    lemma_parse_uint_at(s, l, p.last_seen as nat, 8);
}

/// The codec's round trip: a well-formed message's encoding decodes to that
/// message and to nothing else.
pub proof fn lemma_parse_enc_message(m: Message)
    requires
        m.wf(),
    ensures
        parse_message(enc_message(m)) == Some(m),
{
    let s = enc_message(m);
    match m {
        Message::Register { peer_id, private_addr } => {
            let idb = enc_str(peer_id);
            let ob = enc_opt_addr(private_addr);
            assert(s =~= seq![0u8] + (idb + ob));
            assert(s.subrange(0, s.len() as int) =~= s);
            lemma_split_at(s, 0, seq![0u8], idb + ob);
            assert(s.subrange(0, 1)[0] == s[0]);
            assert(s[0] == 0u8);
            lemma_split_at(s, 1, idb, ob);
            lemma_parse_str_at(s, 1, peer_id);
            lemma_parse_opt_addr_at(s, 1 + idb.len() as int, private_addr);
        },
        Message::Query { target_peer_id } => {
            let idb = enc_str(target_peer_id);
            assert(s =~= seq![1u8] + idb);
            assert(s.subrange(0, s.len() as int) =~= s);
            lemma_split_at(s, 0, seq![1u8], idb);
            assert(s.subrange(0, 1)[0] == s[0]);
            assert(s[0] == 1u8);
            lemma_parse_str_at(s, 1, target_peer_id);
        },
        Message::PeerInfo { peer } => {
            let pb = enc_record(peer);
            assert(s =~= seq![2u8] + pb);
            assert(s.subrange(0, s.len() as int) =~= s);
            lemma_split_at(s, 0, seq![2u8], pb);
            assert(s.subrange(0, 1)[0] == s[0]);
            assert(s[0] == 2u8);
            lemma_parse_record_at(s, 1, peer);
        },
        Message::InitiateConnection { from_peer_id, to_peer_id } => {
            let ab = enc_str(from_peer_id);
            let bb = enc_str(to_peer_id);
            assert(s =~= seq![3u8] + (ab + bb));
            assert(s.subrange(0, s.len() as int) =~= s);
            lemma_split_at(s, 0, seq![3u8], ab + bb);
            assert(s.subrange(0, 1)[0] == s[0]);
            assert(s[0] == 3u8);
            lemma_split_at(s, 1, ab, bb);
            lemma_parse_str_at(s, 1, from_peer_id);
            lemma_parse_str_at(s, 1 + ab.len() as int, to_peer_id);
        },
    }
}

// ---------------------------------------------------------------------------
// Executable encoding.
// ---------------------------------------------------------------------------

fn push_str_bytes(out: &mut Vec<u8>, s: &str)
    requires
        id_fits(s@),
    ensures
        final(out)@ == old(out)@ + enc_str(s@),
{
    let bytes: &[u8] = s.as_bytes();
    let len: usize = bytes.len();
    push_le(out, len as u128, 2);
    out.extend_from_slice(bytes);
    proof {
        assert(out@ =~= old(out)@ + enc_str(s@));
    }
}

fn push_addr(out: &mut Vec<u8>, a: &NetAddr)
    ensures
        final(out)@ == old(out)@ + enc_addr(*a),
{
    match a.ip {
        IpAddr::V4(v) => {
            out.push(0u8);
            push_le(out, v as u128, 4);
        },
        IpAddr::V6(v) => {
            out.push(1u8);
            push_le(out, v as u128, 16);
        },
    }
    push_le(out, a.port as u128, 2);
    proof {
        assert(out@ =~= old(out)@ + enc_addr(*a));
    }
}

fn push_opt_addr(out: &mut Vec<u8>, o: &Option<NetAddr>)
    ensures
        final(out)@ == old(out)@ + enc_opt_addr(*o),
{
    match o {
        Option::None => {
            out.push(0u8);
        },
        Option::Some(a) => {
            out.push(1u8);
            push_addr(out, a);
        },
    }
    proof {
        assert(out@ =~= old(out)@ + enc_opt_addr(*o));
    }
}

fn push_record(out: &mut Vec<u8>, p: &PeerInfo)
    requires
        p@.wf(),
    ensures
        final(out)@ == old(out)@ + enc_record(p@),
{
    push_str_bytes(out, p.peer_id.as_str());
    push_addr(out, &p.public_addr);
    push_opt_addr(out, &p.private_addr);
    push_le(out, p.last_seen as u128, 8);
    proof {
        assert(out@ =~= old(out)@ + enc_record(p@));
    }
}

/// Encodes a message for the wire. `None` exactly when an identifier the
/// message carries is too long for the two-byte length prefix; the encoding
/// is then `enc_message` of the message's value.
pub fn encode_message(m: &RendezvousMessage) -> (r: Option<Vec<u8>>)
    ensures
        r is Some <==> m@.wf(),
        r is Some ==> r.unwrap()@ == enc_message(m@),
{
    match m {
        RendezvousMessage::Register { peer_id, private_addr } => {
            if peer_id.as_str().as_bytes().len() > 0xFFFF {
                return Option::None;
            }
            let mut out: Vec<u8> = Vec::new();
            out.push(0u8);
            push_str_bytes(&mut out, peer_id.as_str());
            push_opt_addr(&mut out, private_addr);
            proof {
                assert(out@ =~= enc_message(m@));
            }
            Option::Some(out)
        },
        RendezvousMessage::Query { target_peer_id } => {
            if target_peer_id.as_str().as_bytes().len() > 0xFFFF {
                return Option::None;
            }
            let mut out: Vec<u8> = Vec::new();
            out.push(1u8);
            push_str_bytes(&mut out, target_peer_id.as_str());
            proof {
                assert(out@ =~= enc_message(m@));
            }
            Option::Some(out)
        },
        RendezvousMessage::PeerInfo { peer } => {
            if peer.peer_id.as_str().as_bytes().len() > 0xFFFF {
                return Option::None;
            }
            let mut out: Vec<u8> = Vec::new();
            out.push(2u8);
            push_record(&mut out, peer);
            proof {
                assert(out@ =~= enc_message(m@));
            }
            Option::Some(out)
        },
        RendezvousMessage::InitiateConnection { from_peer_id, to_peer_id } => {
            if from_peer_id.as_str().as_bytes().len() > 0xFFFF || to_peer_id.as_str().as_bytes().len() > 0xFFFF {
                return Option::None;
            }
            let mut out: Vec<u8> = Vec::new();
            out.push(3u8);
            push_str_bytes(&mut out, from_peer_id.as_str());
            push_str_bytes(&mut out, to_peer_id.as_str());
            proof {
                assert(out@ =~= enc_message(m@));
            }
            Option::Some(out)
        },
    }
}

// ---------------------------------------------------------------------------
// Executable decoding.
// ---------------------------------------------------------------------------

/// Relies on `String::from_utf8`: it returns `Ok` exactly when the bytes
/// are valid UTF-8, and the string then holds the characters those bytes
/// encode.
#[verifier::external_body]
fn string_from_utf8(v: Vec<u8>) -> (r: Option<String>)
    ensures
        r is Some <==> valid_utf8(v@),
        r is Some ==> r.unwrap()@ == decode_utf8(v@),
{
    match String::from_utf8(v) {
        Ok(s) => Option::Some(s),
        Err(_) => Option::None,
    }
}

fn read_str(s: &[u8], i: usize) -> (r: Option<(String, usize)>)
    requires
        i <= s@.len(),
    ensures
        match r {
            Option::Some(v) => parse_str(s@, i as int) == Some((v.0@, v.1 as int))
                && i <= v.1 <= s@.len() && id_fits(v.0@),
            Option::None => parse_str(s@, i as int) is None,
        },
{
    let slen: usize = s.len();
    if slen - i < 2 {
        return Option::None;
    }
    let len128: u128 = read_le(s, i, 2);
    proof {
        lemma_le_val_bound(s@.subrange(i as int, i + 2));
        assert(pow256(2) == 0x10000) by {
            reveal_with_fuel(pow256, 3);
        }
    }
    let len: usize = len128 as usize;
    let j: usize = i + 2;
    if slen - j < len {
        return Option::None;
    }
    let end: usize = j + len;
    let mut b: Vec<u8> = Vec::new();
    let mut k: usize = j;
    while k < end
        invariant
            j <= k <= end <= s@.len(),
            end == j + len,
            b@ == s@.subrange(j as int, k as int),
        decreases end - k,
    {
        b.push(s[k]);
        k = k + 1;
        proof {
            assert(b@ =~= s@.subrange(j as int, k as int));
        }
    }
    proof {
        broadcast use decode_utf8_encode_utf8;
    }
    match string_from_utf8(b) {
        Option::Some(st) => Option::Some((st, j + len)),
        Option::None => Option::None,
    }
}

fn read_addr(s: &[u8], i: usize) -> (r: Option<(NetAddr, usize)>)
    requires
        i <= s@.len(),
    ensures
        match r {
            Option::Some(v) => parse_addr(s@, i as int) == Some((v.0, v.1 as int)) && i <= v.1
                <= s@.len(),
            Option::None => parse_addr(s@, i as int) is None,
        },
{
    let slen: usize = s.len();
    if i >= slen {
        return Option::None;
    }
    let tag: u8 = s[i];
    if tag == 0u8 {
        if slen - (i + 1) < 4 {
            return Option::None;
        }
        let v128: u128 = read_le(s, i + 1, 4);
        proof {
            lemma_le_val_bound(s@.subrange(i + 1, i + 5));
            assert(pow256(4) == 0x1_0000_0000) by {
                reveal_with_fuel(pow256, 5);
            }
        }
        let j: usize = i + 5;
        if slen - j < 2 {
            return Option::None;
        }
        let p128: u128 = read_le(s, j, 2);
        proof {
            lemma_le_val_bound(s@.subrange(j as int, j + 2));
            assert(pow256(2) == 0x10000) by {
                reveal_with_fuel(pow256, 3);
            }
        }
        Option::Some((NetAddr { ip: IpAddr::V4(v128 as u32), port: p128 as u16 }, j + 2))
    } else if tag == 1u8 {
        if slen - (i + 1) < 16 {
            return Option::None;
        }
        let v128: u128 = read_le(s, i + 1, 16);
        let j: usize = i + 17;
        if slen - j < 2 {
            return Option::None;
        }
        let p128: u128 = read_le(s, j, 2);
        proof {
            lemma_le_val_bound(s@.subrange(j as int, j + 2));
            assert(pow256(2) == 0x10000) by {
                reveal_with_fuel(pow256, 3);
            }
        }
        Option::Some((NetAddr { ip: IpAddr::V6(v128), port: p128 as u16 }, j + 2))
    } else {
        Option::None
    }
}

fn read_opt_addr(s: &[u8], i: usize) -> (r: Option<(Option<NetAddr>, usize)>)
    requires
        i <= s@.len(),
    ensures
        match r {
            Option::Some(v) => parse_opt_addr(s@, i as int) == Some((v.0, v.1 as int)) && i <= v.1
                <= s@.len(),
            Option::None => parse_opt_addr(s@, i as int) is None,
        },
{
    let slen: usize = s.len();
    if i >= slen {
        return Option::None;
    }
    let tag: u8 = s[i];
    if tag == 0u8 {
        Option::Some((Option::None, i + 1))
    } else if tag == 1u8 {
        match read_addr(s, i + 1) {
            Option::Some(v) => Option::Some((Option::Some(v.0), v.1)),
            Option::None => Option::None,
        }
    } else {
        Option::None
    }
}

fn read_record(s: &[u8], i: usize) -> (r: Option<(PeerInfo, usize)>)
    requires
        i <= s@.len(),
    ensures
        match r {
            Option::Some(v) => parse_record(s@, i as int) == Some((v.0@, v.1 as int)) && i <= v.1
                <= s@.len() && v.0@.wf(),
            Option::None => parse_record(s@, i as int) is None,
        },
{
    let slen: usize = s.len();
    match read_str(s, i) {
        Option::Some(id) => match read_addr(s, id.1) {
            Option::Some(pub_a) => match read_opt_addr(s, pub_a.1) {
                Option::Some(priv_a) => {
                    let l: usize = priv_a.1;
                    if slen - l < 8 {
                        return Option::None;
                    }
                    let t128: u128 = read_le(s, l, 8);
                    proof {
                        lemma_le_val_bound(s@.subrange(l as int, l + 8));
                        assert(pow256(8) == 0x1_0000_0000_0000_0000) by {
                            reveal_with_fuel(pow256, 9);
                        }
                    }
                    Option::Some(
                        (PeerInfo {
                            peer_id: id.0,
                            public_addr: pub_a.0,
                            private_addr: priv_a.0,
                            last_seen: t128 as u64,
                        }, l + 8),
                    )
                },
                Option::None => Option::None,
            },
            Option::None => Option::None,
        },
        Option::None => Option::None,
    }
}

/// Decodes one datagram. `Ok` exactly when the bytes are the encoding of a
/// message, which is then returned; any malformed, truncated or oversized
/// datagram is an error the caller recovers from by discarding it.
pub fn decode_message(s: &[u8]) -> (r: Result<RendezvousMessage, DecodeError>)
    ensures
        match r {
            Ok(m) => parse_message(s@) == Some(m@) && m@.wf(),
            Err(_) => parse_message(s@) is None,
        },
{
    let slen: usize = s.len();
    if slen == 0 {
        return Result::Err(DecodeError);
    }
    let tag: u8 = s[0];
    if tag == 0u8 {
        match read_str(s, 1) {
            Option::Some(id) => match read_opt_addr(s, id.1) {
                Option::Some(a) => {
                    if a.1 == slen {
                        Result::Ok(
                            RendezvousMessage::Register { peer_id: id.0, private_addr: a.0 },
                        )
                    } else {
                        Result::Err(DecodeError)
                    }
                },
                Option::None => Result::Err(DecodeError),
            },
            Option::None => Result::Err(DecodeError),
        }
    } else if tag == 1u8 {
        match read_str(s, 1) {
            Option::Some(id) => {
                if id.1 == slen {
                    Result::Ok(RendezvousMessage::Query { target_peer_id: id.0 })
                } else {
                    Result::Err(DecodeError)
                }
            },
            Option::None => Result::Err(DecodeError),
        }
    } else if tag == 2u8 {
        match read_record(s, 1) {
            Option::Some(p) => {
                if p.1 == slen {
                    Result::Ok(RendezvousMessage::PeerInfo { peer: p.0 })
                } else {
                    Result::Err(DecodeError)
                }
            },
            Option::None => Result::Err(DecodeError),
        }
    } else if tag == 3u8 {
        match read_str(s, 1) {
            Option::Some(a) => match read_str(s, a.1) {
                Option::Some(b) => {
                    if b.1 == slen {
                        Result::Ok(
                            RendezvousMessage::InitiateConnection {
                                from_peer_id: a.0,
                                to_peer_id: b.0,
                            },
                        )
                    } else {
                        Result::Err(DecodeError)
                    }
                },
                Option::None => Result::Err(DecodeError),
            },
            Option::None => Result::Err(DecodeError),
        }
    } else {
        Result::Err(DecodeError)
    }
}

} // verus!
