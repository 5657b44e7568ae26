//! The peer registry: the authoritative in-memory table of known peers,
//! keyed by peer identifier.
//!
//! The registry's value is a map from identifier to record. Registration
//! inserts or overwrites — last write wins — and cannot fail; lookup is a
//! pure read. No entry is ever deleted: the table persists for the life of
//! the process.

use vstd::prelude::*;
use crate::addr::NetAddr;
use crate::message::{PeerInfo, PeerRecord, id_fits};

verus! {

/// The map a sequence of records stands for: each record keyed by its
/// identifier, a later record overriding an earlier one with the same
/// identifier.
pub open spec fn records_map(s: Seq<PeerRecord>) -> Map<Seq<char>, PeerRecord>
    decreases s.len(),
{
    if s.len() == 0 {
        Map::empty()
    } else {
        records_map(s.drop_last()).insert(s.last().peer_id, s.last())
    }
}

/// No two records carry the same identifier.
pub open spec fn unique_ids(s: Seq<PeerRecord>) -> bool {
    forall|i: int, j: int| 0 <= i < j < s.len() ==> s[i].peer_id != s[j].peer_id
}

/// The values of a sequence of stored records.
pub open spec fn rec_views(s: Seq<PeerInfo>) -> Seq<PeerRecord> {
    Seq::new(s.len(), |i: int| s[i]@)
}

/// What registration does to the registry's map: it binds the identifier to
/// a fresh record whose public address is the caller-observed source, whose
/// private address is the peer's own declaration, and whose last-seen time
/// is the clock reading of the registration.
pub open spec fn spec_register(
    m: Map<Seq<char>, PeerRecord>,
    peer_id: Seq<char>,
    public_addr: NetAddr,
    private_addr: Option<NetAddr>,
    now: u64,
) -> Map<Seq<char>, PeerRecord> {
    m.insert(
        peer_id,
        PeerRecord { peer_id, public_addr, private_addr, last_seen: now },
    )
}

proof fn lemma_map_absent(s: Seq<PeerRecord>, id: Seq<char>)
    requires
        forall|i: int| 0 <= i < s.len() ==> s[i].peer_id != id,
    ensures
        !records_map(s).contains_key(id),
    decreases s.len(),
{
    if s.len() > 0 {
        assert(s.drop_last() =~= s.subrange(0, s.len() - 1));
        lemma_map_absent(s.drop_last(), id);
    }
}

proof fn lemma_map_index(s: Seq<PeerRecord>, i: int)
    requires
        unique_ids(s),
        0 <= i < s.len(),
    ensures
        records_map(s).contains_key(s[i].peer_id),
        records_map(s)[s[i].peer_id] == s[i],
    decreases s.len(),
{
    if i < s.len() - 1 {
        assert(unique_ids(s.drop_last()));
        lemma_map_index(s.drop_last(), i);
        assert(s.drop_last()[i] == s[i]);
        assert(s.last().peer_id != s[i].peer_id);
    }
}

proof fn lemma_map_update(s: Seq<PeerRecord>, i: int, r: PeerRecord)
    requires
        unique_ids(s),
        0 <= i < s.len(),
        r.peer_id == s[i].peer_id,
    ensures
        records_map(s.update(i, r)) == records_map(s).insert(r.peer_id, r),
    decreases s.len(),
{
    let s2 = s.update(i, r);
    if i == s.len() - 1 {
        assert(s2.drop_last() =~= s.drop_last());
        assert(s2.last() == r);
        assert(records_map(s2) =~= records_map(s).insert(r.peer_id, r));
    } else {
        assert(unique_ids(s.drop_last()));
        assert(s2.drop_last() =~= s.drop_last().update(i, r));
        assert(s2.last() == s.last());
        lemma_map_update(s.drop_last(), i, r);
        assert(s.last().peer_id != r.peer_id);
        assert(records_map(s2) =~= records_map(s).insert(r.peer_id, r));
    }
}

/// The in-memory peer table. Its mathematical value is the map from
/// identifier to record; the vector holds one record per identifier.
pub struct PeerRegistry {
    records: Vec<PeerInfo>,
}

impl View for PeerRegistry {
    type V = Map<Seq<char>, PeerRecord>;

    closed spec fn view(&self) -> Map<Seq<char>, PeerRecord> {
        records_map(rec_views(self.records@))
    }
}

impl PeerRegistry {
    /// One record per identifier, and every stored record fits the wire.
    pub closed spec fn wf(self) -> bool {
        &&& unique_ids(rec_views(self.records@))
        &&& forall|i: int|
            0 <= i < self.records@.len() ==> (#[trigger] self.records@[i])@.wf()
    }

    /// An empty registry.
    pub fn new() -> (r: PeerRegistry)
        ensures
            r.wf(),
            r@ == Map::<Seq<char>, PeerRecord>::empty(),
    {
        let r = PeerRegistry { records: Vec::new() };
        proof {
            assert(rec_views(r.records@) =~= Seq::<PeerRecord>::empty());
        }
        r
    }

    /// Inserts or overwrites the record for `peer_id`. `public_addr` must be
    /// the transport-observed source of the registering datagram — the
    /// caller, not the registry, enforces that provenance — and `now` the
    /// clock reading of the registration. Cannot fail.
    pub fn register(
        &mut self,
        peer_id: String,
        public_addr: NetAddr,
        private_addr: Option<NetAddr>,
        now: u64,
    )
        requires
            old(self).wf(),
            id_fits(peer_id@),
        ensures
            final(self).wf(),
            final(self)@ == spec_register(old(self)@, peer_id@, public_addr, private_addr, now),
    {
        let ghost s0 = rec_views(self.records@);
        let n: usize = self.records.len();
        let mut i: usize = 0;
        while i < n
            invariant
                i <= n == self.records@.len(),
                self.records@ == old(self).records@,
                self.wf(),
                s0 == rec_views(self.records@),
                id_fits(peer_id@),
                forall|k: int| 0 <= k < i ==> rec_views(self.records@)[k].peer_id != peer_id@,
            decreases n - i,
        {
            if self.records[i].peer_id == peer_id {
                let rec = PeerInfo { peer_id, public_addr, private_addr, last_seen: now };
                proof {
                    assert(s0[i as int].peer_id == rec@.peer_id);
                    lemma_map_update(s0, i as int, rec@);
                }
                self.records[i] = rec;
                proof {
                    assert(rec_views(self.records@) =~= s0.update(i as int, rec@));
                    assert(forall|a: int, b: int|
                        0 <= a < b < rec_views(self.records@).len() ==> rec_views(
                            self.records@,
                        )[a].peer_id != rec_views(self.records@)[b].peer_id);
                }
                return ;
            }
            i = i + 1;
        }
        let rec = PeerInfo { peer_id, public_addr, private_addr, last_seen: now };
        self.records.push(rec);
        proof {
            assert(rec_views(self.records@) =~= s0.push(rec@));
            assert(rec_views(self.records@).drop_last() =~= s0);
            assert(forall|a: int, b: int|
                0 <= a < b < rec_views(self.records@).len() ==> rec_views(
                    self.records@,
                )[a].peer_id != rec_views(self.records@)[b].peer_id);
        }
    }

    /// The record registered for `peer_id`, or nothing. A pure read with no
    /// side effect; a miss is a normal outcome, not an error.
    pub fn lookup(&self, peer_id: &String) -> (r: Option<&PeerInfo>)
        requires
            self.wf(),
        ensures
            match r {
                Option::Some(p) => self@.contains_key(peer_id@) && p@ == self@[peer_id@]
                    && p@.wf(),
                Option::None => !self@.contains_key(peer_id@),
            },
    {
        let n: usize = self.records.len();
        let mut i: usize = 0;
        while i < n
            invariant
                i <= n == self.records@.len(),
                self.wf(),
                forall|k: int| 0 <= k < i ==> rec_views(self.records@)[k].peer_id != peer_id@,
            decreases n - i,
        {
            if self.records[i].peer_id == *peer_id {
                proof {
                    lemma_map_index(rec_views(self.records@), i as int);
                }
                return Option::Some(&self.records[i]);
            }
            i = i + 1;
        }
        proof {
            lemma_map_absent(rec_views(self.records@), peer_id@);
        }
        Option::None
    }
}

/// Law: for every peer identifier, registering it binds the identifier, and
/// the bound record's public address is exactly the caller-observed source,
/// its private address exactly the peer's declaration, and its last-seen
/// time the clock reading of the registration.
pub proof fn lemma_register_lookup(
    m: Map<Seq<char>, PeerRecord>,
    p: Seq<char>,
    source: NetAddr,
    declared: Option<NetAddr>,
    now: u64,
)
    ensures
        spec_register(m, p, source, declared, now).contains_key(p),
        spec_register(m, p, source, declared, now)[p].public_addr == source,
        spec_register(m, p, source, declared, now)[p].private_addr == declared,
        spec_register(m, p, source, declared, now)[p].last_seen == now,
{
}

/// Law: registration is idempotent — registering the same peer twice with
/// the same source, declaration and clock reading leaves the registry as
/// after the first registration.
pub proof fn lemma_register_idempotent(
    m: Map<Seq<char>, PeerRecord>,
    p: Seq<char>,
    source: NetAddr,
    declared: Option<NetAddr>,
    now: u64,
)
    ensures
        spec_register(spec_register(m, p, source, declared, now), p, source, declared, now)
            == spec_register(m, p, source, declared, now),
{
    assert(spec_register(spec_register(m, p, source, declared, now), p, source, declared, now)
        =~= spec_register(m, p, source, declared, now));
}

/// Law: re-registering the same peer from a different source replaces the
/// public address — last write wins — and, the second clock reading being
/// later, strictly advances the record's last-seen time.
pub proof fn lemma_reregister_last_write_wins(
    m: Map<Seq<char>, PeerRecord>,
    p: Seq<char>,
    source1: NetAddr,
    declared1: Option<NetAddr>,
    t1: u64,
    source2: NetAddr,
    declared2: Option<NetAddr>,
    t2: u64,
)
    requires
        t1 < t2,
    ensures
        spec_register(spec_register(m, p, source1, declared1, t1), p, source2, declared2, t2)[p]
            .public_addr == source2,
        spec_register(spec_register(m, p, source1, declared1, t1), p, source2, declared2, t2)[p]
            .private_addr == declared2,
        spec_register(spec_register(m, p, source1, declared1, t1), p, source2, declared2, t2)[p]
            .last_seen > spec_register(m, p, source1, declared1, t1)[p].last_seen,
{
}

} // verus!
