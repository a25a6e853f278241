//! The peer directory: a table of the peers heard from, keyed by
//! identifier, refreshed on every valid announcement and swept by age.
//!
//! The table's mathematical view is a map from identifier bytes to the
//! peer's record and the time it was last seen. Announcement datagrams
//! are decoded here and upserted under a caller-supplied receipt time;
//! the loops that move the datagrams and pick the times live outside the
//! crate, which keeps every table operation verified for every time the
//! caller may pass.

use vstd::prelude::*;

use crate::codec::{decode_peer_info_wire, encode_peer_info_wire, lemma_record_round_trip_exact,
    spec_encode_record, spec_parse_record};
use crate::peer_info::{DecodeError, PeerInfo, PeerRecord, valid_peer_id};

verus! {

/// Milliseconds between two announcements of this instance's record.
pub const ANNOUNCE_INTERVAL_MS: u64 = 2000;

/// Milliseconds between two sweeps of the table.
pub const SWEEP_INTERVAL_MS: u64 = 1000;

/// Milliseconds an entry may go unrefreshed before a sweep evicts it.
pub const PEER_TIMEOUT_MS: u64 = 5000;

/// Largest announcement datagram that is accepted.
pub const MAX_DATAGRAM_LEN: usize = 1024;

/// One table entry: a peer's record and when it was last heard from.
struct DirEntry {
    info: PeerInfo,
    last_seen_ms: u64,
}

/// The entry's mathematical content.
spec fn entry_rec(e: DirEntry) -> (PeerRecord, u64) {
    (e.info@, e.last_seen_ms)
}

/// Whether some entry of `s` carries the identifier `id`.
spec fn has_id(s: Seq<DirEntry>, id: Seq<u8>) -> bool {
    exists|i: int| 0 <= i < s.len() && s[i].info@.id == id
}

/// The index of the entry of `s` that carries `id`.
spec fn idx_of(s: Seq<DirEntry>, id: Seq<u8>) -> int {
    choose|i: int| 0 <= i < s.len() && s[i].info@.id == id
}

/// No two entries of `s` carry the same identifier.
spec fn ids_distinct(s: Seq<DirEntry>) -> bool {
    forall|i: int, j: int|
        0 <= i < j < s.len() ==> s[i].info@.id != s[j].info@.id
}

/// Every entry of `s` carries a well-formed identifier.
spec fn ids_valid(s: Seq<DirEntry>) -> bool {
    forall|i: int| 0 <= i < s.len() ==> valid_peer_id(#[trigger] s[i].info@.id)
}

/// The map that a sequence of entries denotes.
spec fn entries_map(s: Seq<DirEntry>) -> Map<Seq<u8>, (PeerRecord, u64)> {
    Map::new(|id: Seq<u8>| has_id(s, id), |id: Seq<u8>| entry_rec(s[idx_of(s, id)]))
}

/// With distinct identifiers, the entry at `i` is what the map holds
/// under its identifier.
proof fn lemma_entries_map_at(s: Seq<DirEntry>, i: int)
    requires
        ids_distinct(s),
        0 <= i < s.len(),
    ensures
        entries_map(s).contains_key(s[i].info@.id),
        entries_map(s)[s[i].info@.id] == entry_rec(s[i]),
{
    let id = s[i].info@.id;
    assert(has_id(s, id));
    let j = idx_of(s, id);
    assert(0 <= j < s.len() && s[j].info@.id == id);
    assert(i == j);
}

/// Replacing or appending the entry of one identifier inserts its record
/// into the denoted map and leaves every other identifier's record alone.
proof fn lemma_upsert_map(
    s0: Seq<DirEntry>,
    s1: Seq<DirEntry>,
    k: int,
    id: Seq<u8>,
    v: (PeerRecord, u64),
)
    requires
        ids_distinct(s0),
        ids_distinct(s1),
        0 <= k < s1.len(),
        s0.len() <= s1.len(),
        forall|j: int| 0 <= j < s1.len() && j != k ==> 0 <= j < s0.len() && s1[j] == s0[j],
        s1[k].info@.id == id,
        entry_rec(s1[k]) == v,
        k < s0.len() ==> s0[k].info@.id == id,
        forall|j: int| 0 <= j < s0.len() && j != k ==> s0[j].info@.id != id,
    ensures
        entries_map(s1) =~= entries_map(s0).insert(id, v),
{
    assert forall|key: Seq<u8>|
        entries_map(s1).contains_key(key) == entries_map(s0).insert(id, v).contains_key(key) by {
        if has_id(s1, key) {
            let i = idx_of(s1, key);
            if i != k {
                assert(s0[i].info@.id == key);
            }
        }
        if key == id {
            assert(s1[k].info@.id == key);
            assert(has_id(s1, key));
        } else if has_id(s0, key) {
            let i = idx_of(s0, key);
            assert(i != k);
            assert(s1[i].info@.id == key);
            assert(has_id(s1, key));
        }
    }
    assert forall|key: Seq<u8>| #[trigger]
        entries_map(s1).contains_key(key) implies entries_map(s1)[key] == entries_map(s0).insert(
        id,
        v,
    )[key] by {
        let i = idx_of(s1, key);
        assert(0 <= i < s1.len() && s1[i].info@.id == key);
        lemma_entries_map_at(s1, i);
        if key == id {
            assert(i == k);
        } else {
            assert(i != k);
            assert(s1[i] == s0[i]);
            lemma_entries_map_at(s0, i);
        }
    }
    assert(entries_map(s1) =~= entries_map(s0).insert(id, v));
}

/// A sequence holding exactly the fresh entries of another, records kept
/// and sources given position by position, denotes the other's map
/// restricted to its fresh identifiers.
proof fn lemma_sweep_map(s0: Seq<DirEntry>, s1: Seq<DirEntry>, src: Seq<int>, now_ms: u64)
    requires
        ids_distinct(s0),
        ids_valid(s0),
        src.len() == s1.len(),
        forall|p: int| 0 <= p < src.len() ==> 0 <= #[trigger] src[p] < s0.len(),
        forall|p: int|
            0 <= p < src.len() ==> entry_rec(s1[p]) == entry_rec(s0[#[trigger] src[p]]) && fresh_at(
                s0[src[p]].last_seen_ms,
                now_ms,
            ),
        forall|p: int, q: int| 0 <= p < q < src.len() ==> src[p] < src[q],
        forall|j: int|
            0 <= j < s0.len() && fresh_at(#[trigger] s0[j].last_seen_ms, now_ms) ==> exists|p: int|
                0 <= p < src.len() && src[p] == j,
    ensures
        ids_distinct(s1),
        ids_valid(s1),
        forall|id: Seq<u8>|
            #[trigger] entries_map(s1).contains_key(id) == (entries_map(s0).contains_key(id)
                && fresh_at(entries_map(s0)[id].1, now_ms)),
        forall|id: Seq<u8>|
            #[trigger] entries_map(s1).contains_key(id) ==> entries_map(s1)[id] == entries_map(
                s0,
            )[id],
{
    assert forall|p: int, q: int| 0 <= p < q < s1.len() implies s1[p].info@.id
        != s1[q].info@.id by {
        assert(s0[src[p]].info@.id != s0[src[q]].info@.id);
    }
    assert forall|p: int| 0 <= p < s1.len() implies valid_peer_id(#[trigger] s1[p].info@.id) by {
        assert(valid_peer_id(s0[src[p]].info@.id));
    }
    assert forall|id: Seq<u8>|
        entries_map(s1).contains_key(id) == (entries_map(s0).contains_key(id) && fresh_at(
            entries_map(s0)[id].1,
            now_ms,
        )) by {
        if has_id(s1, id) {
            let p = idx_of(s1, id);
            let j = src[p];
            assert(entry_rec(s1[p]) == entry_rec(s0[j]));
            assert(s0[j].info@.id == id);
            lemma_entries_map_at(s0, j);
        }
        if has_id(s0, id) {
            let j = idx_of(s0, id);
            lemma_entries_map_at(s0, j);
            if fresh_at(s0[j].last_seen_ms, now_ms) {
                let p = choose|p: int| 0 <= p < src.len() && src[p] == j;
                assert(entry_rec(s1[p]) == entry_rec(s0[j]));
                assert(s1[p].info@.id == id);
                assert(has_id(s1, id));
            }
        }
    }
    assert forall|id: Seq<u8>| #[trigger]
        entries_map(s1).contains_key(id) implies entries_map(s1)[id] == entries_map(s0)[id] by {
        let p = idx_of(s1, id);
        lemma_entries_map_at(s1, p);
        let j = src[p];
        assert(entry_rec(s1[p]) == entry_rec(s0[j]));
        assert(s0[j].info@.id == id);
        lemma_entries_map_at(s0, j);
    }
}

/// Whether an entry seen at `seen` is still fresh at `now`: no older
/// than [`PEER_TIMEOUT_MS`].
pub open spec fn fresh_at(seen: u64, now: u64) -> bool {
    now <= seen || now - seen <= PEER_TIMEOUT_MS
}

/// The peer directory: this instance's own record and the table of the
/// peers heard from.
pub struct DiscoveryService {
    self_info: PeerInfo,
    entries: Vec<DirEntry>,
}

impl DiscoveryService {
    /// The table is well formed: identifiers are distinct and valid.
    pub closed spec fn wf(&self) -> bool {
        ids_distinct(self.entries@) && ids_valid(self.entries@)
    }

    /// The record this instance announces.
    pub closed spec fn self_record(&self) -> PeerRecord {
        self.self_info@
    }

    /// The table as a map from identifier to record and last-seen time.
    pub closed spec fn peers(&self) -> Map<Seq<u8>, (PeerRecord, u64)> {
        entries_map(self.entries@)
    }

    /// Creates a directory that will announce `self_info`, with an empty
    /// table.
    pub fn new(self_info: PeerInfo) -> (r: DiscoveryService)
        ensures
            r.wf(),
            r.self_record() == self_info@,
            r.peers() =~= Map::<Seq<u8>, (PeerRecord, u64)>::empty(),
    {
        DiscoveryService { self_info, entries: Vec::new() }
    }

    /// This instance's own record.
    pub fn get_peer_info(&self) -> (r: &PeerInfo)
        ensures
            r@ == self.self_record(),
    {
        &self.self_info
    }

    /// The datagram this instance announces: its own record in wire form.
    pub fn announcement(&self) -> (r: Vec<u8>)
        ensures
            r@ == spec_encode_record(self.self_record()),
    {
        encode_peer_info_wire(&self.self_info.to_wire())
    }

    /// Puts `info` into the table as seen at `now_ms`, overwriting
    /// whatever entry its identifier had.
    pub fn upsert(&mut self, info: PeerInfo, now_ms: u64)
        requires
            old(self).wf(),
            info.wf(),
        ensures
            final(self).wf(),
            final(self).self_record() == old(self).self_record(),
            final(self).peers() =~= old(self).peers().insert(info@.id, (info@, now_ms)),
    {
        let ghost s0 = old(self).entries@;
        let ghost id = info@.id;
        let mut k: usize = 0;
        while k < self.entries.len()
            invariant
                *self == *old(self),
                s0 == old(self).entries@,
                ids_distinct(s0),
                ids_valid(s0),
                id == info@.id,
                valid_peer_id(id),
                k <= s0.len(),
                forall|j: int| 0 <= j < k ==> s0[j].info@.id != id,
            decreases s0.len() - k,
        {
            if self.entries[k].info.peer_id.same_as(&info.peer_id) {
                let e = DirEntry { info, last_seen_ms: now_ms };
                self.entries.set(k, e);
                proof {
                    let s1 = self.entries@;
                    assert(s0[k as int].info@.id == id);
                    assert(ids_distinct(s1));
                    assert(ids_valid(s1));
                    lemma_upsert_map(s0, s1, k as int, id, (info@, now_ms));
                }
                return ;
            }
            k += 1;
        }
        let e = DirEntry { info, last_seen_ms: now_ms };
        self.entries.push(e);
        proof {
            let s1 = self.entries@;
            assert(forall|j: int| 0 <= j < s0.len() ==> s0[j].info@.id != id);
            assert(ids_distinct(s1));
            assert(ids_valid(s1));
            lemma_upsert_map(s0, s1, s0.len() as int, id, (info@, now_ms));
        }
    }

    /// Decodes one announcement datagram and, when it carries a valid
    /// record, upserts that record as seen at `now_ms`. A datagram that
    /// does not decode, or whose identity bytes are not a well-formed
    /// identifier, leaves the table exactly as it was.
    pub fn handle_datagram(&mut self, bs: &[u8], now_ms: u64) -> (r: Result<(), DecodeError>)
        requires
            old(self).wf(),
        ensures
            final(self).wf(),
            final(self).self_record() == old(self).self_record(),
            match spec_parse_record(bs@) {
                Ok((rec, n)) => {
                    if valid_peer_id(rec.id) {
                        r is Ok && final(self).peers() =~= old(self).peers().insert(
                            rec.id,
                            (rec, now_ms),
                        )
                    } else {
                        r == Result::<(), DecodeError>::Err(DecodeError::InvalidPeerId)
                            && final(self).peers() == old(self).peers()
                    }
                },
                Err(e) => r == Result::<(), DecodeError>::Err(e) && final(self).peers() == old(
                    self,
                ).peers(),
            },
    {
        let (wire, _consumed) = match decode_peer_info_wire(bs) {
            Ok(pair) => pair,
            Err(e) => {
                return Err(e);
            },
        };
        let info = match PeerInfo::try_from_wire(wire) {
            Ok(p) => p,
            Err(e) => {
                return Err(e);
            },
        };
        self.upsert(info, now_ms);
        Ok(())
    }

    /// Removes every entry whose last-seen time is more than
    /// [`PEER_TIMEOUT_MS`] before `now_ms`; every fresh entry survives
    /// unchanged.
    #[verifier::rlimit(50)]
    pub fn sweep_once(&mut self, now_ms: u64)
        requires
            old(self).wf(),
        ensures
            final(self).wf(),
            final(self).self_record() == old(self).self_record(),
            forall|id: Seq<u8>|
                #[trigger] final(self).peers().contains_key(id) <==> (old(
                    self,
                ).peers().contains_key(id) && fresh_at(old(self).peers()[id].1, now_ms)),
            forall|id: Seq<u8>|
                #[trigger] final(self).peers().contains_key(id) ==> final(self).peers()[id] == old(
                    self,
                ).peers()[id],
    {
        let ghost s0 = old(self).entries@;
        let mut kept: Vec<DirEntry> = Vec::new();
        let ghost mut src: Seq<int> = Seq::empty();
        let mut i: usize = 0;
        while i < self.entries.len()
            invariant
                *self == *old(self),
                s0 == old(self).entries@,
                ids_distinct(s0),
                ids_valid(s0),
                i <= s0.len(),
                src.len() == kept@.len(),
                forall|p: int| 0 <= p < src.len() ==> 0 <= #[trigger] src[p] < i,
                forall|p: int|
                    0 <= p < src.len() ==> entry_rec(kept@[p]) == entry_rec(s0[#[trigger] src[p]])
                        && fresh_at(s0[src[p]].last_seen_ms, now_ms),
                forall|p: int, q: int| 0 <= p < q < src.len() ==> src[p] < src[q],
                forall|j: int|
                    0 <= j < i && fresh_at(#[trigger] s0[j].last_seen_ms, now_ms) ==> exists|p: int|
                        0 <= p < src.len() && src[p] == j,
            decreases s0.len() - i,
        {
            let e = &self.entries[i];
            if now_ms <= e.last_seen_ms || now_ms - e.last_seen_ms <= PEER_TIMEOUT_MS {
                kept.push(DirEntry { info: e.info.duplicate(), last_seen_ms: e.last_seen_ms });
                proof {
                    let src0 = src;
                    src = src.push(i as int);
                    assert forall|j: int|
                        0 <= j < i + 1 && fresh_at(
                            #[trigger] s0[j].last_seen_ms,
                            now_ms,
                        ) implies exists|p: int| 0 <= p < src.len() && src[p] == j by {
                        if j < i {
                            let p = choose|p: int| 0 <= p < src0.len() && src0[p] == j;
                            assert(src[p] == j);
                        } else {
                            assert(src[src.len() - 1] == j);
                        }
                    }
                }
            } else {
                proof {
                    assert(!fresh_at(s0[i as int].last_seen_ms, now_ms));
                }
            }
            i += 1;
        }
        self.entries = kept;
        proof {
            lemma_sweep_map(s0, self.entries@, src, now_ms);
        }
    }

    /// A point-in-time copy of every peer in the table, identifiers
    /// distinct, without the timestamps.
    pub fn get_peers(&self) -> (r: Vec<PeerInfo>)
        requires
            self.wf(),
        ensures
            forall|p: int|
                0 <= p < r@.len() ==> #[trigger] self.peers().contains_key(r@[p]@.id)
                    && self.peers()[r@[p]@.id].0 == r@[p]@ && r@[p].wf(),
            forall|id: Seq<u8>|
                #[trigger] self.peers().contains_key(id) ==> exists|p: int|
                    0 <= p < r@.len() && r@[p]@.id == id,
            forall|p: int, q: int| 0 <= p < q < r@.len() ==> r@[p]@.id != r@[q]@.id,
    {
        let mut r: Vec<PeerInfo> = Vec::new();
        let mut i: usize = 0;
        while i < self.entries.len()
            invariant
                self.wf(),
                i <= self.entries@.len(),
                r@.len() == i,
                forall|p: int| 0 <= p < i ==> #[trigger] r@[p]@ == self.entries@[p].info@,
            decreases self.entries@.len() - i,
        {
            r.push(self.entries[i].info.duplicate());
            i += 1;
        }
        proof {
            let s = self.entries@;
            assert forall|p: int|
                0 <= p < r@.len() implies #[trigger] self.peers().contains_key(r@[p]@.id)
                && self.peers()[r@[p]@.id].0 == r@[p]@ && r@[p].wf() by {
                lemma_entries_map_at(s, p);
            }
            assert forall|id: Seq<u8>| #[trigger]
                self.peers().contains_key(id) implies exists|p: int|
                0 <= p < r@.len() && r@[p]@.id == id by {
                let j = idx_of(s, id);
                assert(r@[j]@.id == id);
            }
        }
        r
    }
}

/// A valid announcement is never dropped and never altered: the datagram
/// a directory announces for a record decodes to exactly that record, so
/// a directory that handles it upserts that record, nothing else.
pub proof fn lemma_announcement_accepted(r: PeerRecord)
    requires
        valid_peer_id(r.id),
    ensures
        spec_parse_record(spec_encode_record(r)) == Ok::<_, DecodeError>(
            (r, spec_encode_record(r).len() as int),
        ),
{
    lemma_record_round_trip_exact(r);
}

} // verus!
