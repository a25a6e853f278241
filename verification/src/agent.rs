//! The agent: composes the peer directory with the deal codec, applies
//! the matching predicate, and keeps the table of inbound deals.
//!
//! A deal matches a peer when the peer's spare capacity, in bytes, covers
//! the deal's file length and the peer's price is at most the price the
//! offer pays; both bounds are inclusive. The agent picks the matching
//! peers out of the directory's snapshot; the channel that then carries
//! the encoded deal to each of them lives outside the crate. Inbound
//! deals are keyed by the sender's advertised endpoint, the latest deal
//! overwriting the one before it.

use vstd::prelude::*;

use crate::codec::{decode_deal, spec_parse_deal};
use crate::deal::{BYTES_PER_MEBIBYTE, Deal, DealRecord};
use crate::discovery::DiscoveryService;
use crate::peer_info::{DecodeError, NetAddr, PeerInfo, PeerRecord};
use crate::price::spec_price_le;

verus! {

/// A peer's spare capacity in bytes: its advertised mebibytes scaled,
/// saturating at the largest 64-bit value.
pub open spec fn spec_spare_bytes(spare_mbs: u64) -> int {
    if spare_mbs * (BYTES_PER_MEBIBYTE as int) > u64::MAX {
        u64::MAX as int
    } else {
        spare_mbs * (BYTES_PER_MEBIBYTE as int)
    }
}

/// Whether a deal should be offered to a peer: the peer's capacity covers
/// the file and the peer's price is at most what the offer pays.
pub open spec fn spec_deal_match(p: PeerRecord, d: DealRecord) -> bool {
    spec_spare_bytes(p.spare_mbs) >= d.file_len && spec_price_le(p.price_bits, d.price_bits)
}

/// Whether some entry of `s` is keyed by the endpoint `a`.
spec fn has_addr(s: Seq<(NetAddr, Deal)>, a: NetAddr) -> bool {
    exists|i: int| 0 <= i < s.len() && s[i].0 == a
}

/// The index of the entry of `s` keyed by `a`.
spec fn addr_idx(s: Seq<(NetAddr, Deal)>, a: NetAddr) -> int {
    choose|i: int| 0 <= i < s.len() && s[i].0 == a
}

/// No two entries of `s` share a key.
spec fn addrs_distinct(s: Seq<(NetAddr, Deal)>) -> bool {
    forall|i: int, j: int| 0 <= i < j < s.len() ==> s[i].0 != s[j].0
}

/// The map that a sequence of keyed deals denotes.
spec fn deals_map(s: Seq<(NetAddr, Deal)>) -> Map<NetAddr, DealRecord> {
    Map::new(|a: NetAddr| has_addr(s, a), |a: NetAddr| s[addr_idx(s, a)].1@)
}

/// With distinct keys, the entry at `i` is what the map holds under its
/// key.
proof fn lemma_deals_map_at(s: Seq<(NetAddr, Deal)>, i: int)
    requires
        addrs_distinct(s),
        0 <= i < s.len(),
    ensures
        deals_map(s).contains_key(s[i].0),
        deals_map(s)[s[i].0] == s[i].1@,
{
    let a = s[i].0;
    assert(has_addr(s, a));
    let j = addr_idx(s, a);
    assert(0 <= j < s.len() && s[j].0 == a);
    assert(i == j);
}

/// Replacing or appending the entry of one key inserts its deal into the
/// denoted map and leaves every other key's deal alone.
proof fn lemma_deals_upsert(
    s0: Seq<(NetAddr, Deal)>,
    s1: Seq<(NetAddr, Deal)>,
    k: int,
    a: NetAddr,
    v: DealRecord,
)
    requires
        addrs_distinct(s0),
        addrs_distinct(s1),
        0 <= k < s1.len(),
        s0.len() <= s1.len(),
        forall|j: int| 0 <= j < s1.len() && j != k ==> 0 <= j < s0.len() && s1[j] == s0[j],
        s1[k].0 == a,
        s1[k].1@ == v,
        k < s0.len() ==> s0[k].0 == a,
        forall|j: int| 0 <= j < s0.len() && j != k ==> s0[j].0 != a,
    ensures
        deals_map(s1) =~= deals_map(s0).insert(a, v),
{
    assert forall|key: NetAddr|
        deals_map(s1).contains_key(key) == deals_map(s0).insert(a, v).contains_key(key) by {
        if has_addr(s1, key) {
            let i = addr_idx(s1, key);
            if i != k {
                assert(s0[i].0 == key);
            }
        }
        if key == a {
            assert(s1[k].0 == key);
            assert(has_addr(s1, key));
        } else if has_addr(s0, key) {
            let i = addr_idx(s0, key);
            assert(i != k);
            assert(s1[i].0 == key);
            assert(has_addr(s1, key));
        }
    }
    assert forall|key: NetAddr| #[trigger]
        deals_map(s1).contains_key(key) implies deals_map(s1)[key] == deals_map(s0).insert(
        a,
        v,
    )[key] by {
        let i = addr_idx(s1, key);
        assert(0 <= i < s1.len() && s1[i].0 == key);
        lemma_deals_map_at(s1, i);
        if key == a {
            assert(i == k);
        } else {
            assert(i != k);
            assert(s1[i] == s0[i]);
            lemma_deals_map_at(s0, i);
        }
    }
    assert(deals_map(s1) =~= deals_map(s0).insert(a, v));
}

/// The orchestrating entity: one peer directory and the table of the
/// deals received, keyed by the sender's advertised endpoint.
pub struct Agent {
    pub discovery: DiscoveryService,
    incoming_deals: Vec<(NetAddr, Deal)>,
}

impl Agent {
    /// The agent is well formed: its directory is, and the inbound keys
    /// are distinct.
    pub closed spec fn wf(&self) -> bool {
        self.discovery.wf() && addrs_distinct(self.incoming_deals@)
    }

    /// The number of senders with a deal in the inbound table.
    pub closed spec fn incoming_count(&self) -> nat {
        self.incoming_deals@.len()
    }

    /// The record this agent announces.
    pub closed spec fn self_record(&self) -> PeerRecord {
        self.discovery.self_record()
    }

    /// The directory's table, as the directory views it.
    pub closed spec fn peers(&self) -> Map<Seq<u8>, (PeerRecord, u64)> {
        self.discovery.peers()
    }

    /// The inbound-deal table as a map from sender endpoint to the most
    /// recently received deal's record.
    pub closed spec fn incoming(&self) -> Map<NetAddr, DealRecord> {
        deals_map(self.incoming_deals@)
    }

    /// Creates an agent that will announce `peer_info`, with an empty
    /// directory and an empty inbound table.
    pub fn new(peer_info: PeerInfo) -> (r: Agent)
        ensures
            r.wf(),
            r.self_record() == peer_info@,
            r.peers() =~= Map::<Seq<u8>, (PeerRecord, u64)>::empty(),
            r.incoming() =~= Map::<NetAddr, DealRecord>::empty(),
    {
        Agent { discovery: DiscoveryService::new(peer_info), incoming_deals: Vec::new() }
    }

    /// This agent's own record.
    pub fn get_peer_info(&self) -> (r: &PeerInfo)
        ensures
            r@ == self.self_record(),
    {
        self.discovery.get_peer_info()
    }

    /// Whether `deal` should be offered to `peer_info`.
    pub fn deal_match(&self, peer_info: &PeerInfo, deal: &Deal) -> (r: bool)
        ensures
            r == spec_deal_match(peer_info@, deal@),
    {
        let spare_bytes = saturating_spare_bytes(peer_info.spare_mbs);
        spare_bytes >= deal.file_len && peer_info.price.le(&deal.price_per_mb)
    }

    /// The peers of the directory's current snapshot that `deal` should
    /// be offered to: every one of them matches, every matching directory
    /// entry is represented, and no identifier repeats.
    pub fn matched_peers(&self, deal: &Deal) -> (r: Vec<PeerInfo>)
        requires
            self.wf(),
        ensures
            forall|p: int|
                0 <= p < r@.len() ==> self.peers().contains_key(
                    (#[trigger] r@[p])@.id,
                ) && self.peers()[r@[p]@.id].0 == r@[p]@ && spec_deal_match(
                    r@[p]@,
                    deal@,
                ) && r@[p].wf(),
            forall|id: Seq<u8>|
                #[trigger] self.peers().contains_key(id) && spec_deal_match(
                    self.peers()[id].0,
                    deal@,
                ) ==> exists|p: int| 0 <= p < r@.len() && r@[p]@.id == id,
            forall|p: int, q: int| 0 <= p < q < r@.len() ==> r@[p]@.id != r@[q]@.id,
    {
        let peers = self.discovery.get_peers();
        let mut r: Vec<PeerInfo> = Vec::new();
        let ghost mut src: Seq<int> = Seq::empty();
        let mut i: usize = 0;
        while i < peers.len()
            invariant
                i <= peers@.len(),
                src.len() == r@.len(),
                forall|p: int| 0 <= p < src.len() ==> 0 <= #[trigger] src[p] < i,
                forall|p: int|
                    0 <= p < src.len() ==> (#[trigger] r@[p])@ == peers@[src[p]]@ && spec_deal_match(
                        r@[p]@,
                        deal@,
                    ),
                forall|p: int, q: int| 0 <= p < q < src.len() ==> src[p] < src[q],
                forall|q: int|
                    0 <= q < i && spec_deal_match((#[trigger] peers@[q])@, deal@) ==> exists|p: int|
                        0 <= p < src.len() && src[p] == q,
            decreases peers@.len() - i,
        {
            if self.deal_match(&peers[i], deal) {
                r.push(peers[i].duplicate());
                proof {
                    let src0 = src;
                    src = src.push(i as int);
                    assert forall|q: int|
                        0 <= q < i + 1 && spec_deal_match(
                            (#[trigger] peers@[q])@,
                            deal@,
                        ) implies exists|p: int| 0 <= p < src.len() && src[p] == q by {
                        if q < i {
                            let p = choose|p: int| 0 <= p < src0.len() && src0[p] == q;
                            assert(src[p] == q);
                        } else {
                            assert(src[src.len() - 1] == q);
                        }
                    }
                }
            }
            i += 1;
        }
        proof {
            assert forall|p: int|
                0 <= p < r@.len() implies self.peers().contains_key(
                (#[trigger] r@[p])@.id,
            ) && self.peers()[r@[p]@.id].0 == r@[p]@ && spec_deal_match(r@[p]@, deal@)
                && r@[p].wf() by {
                assert(0 <= src[p] < peers@.len());
                assert(r@[p]@ == peers@[src[p]]@);
            }
            assert forall|id: Seq<u8>|
                #[trigger] self.peers().contains_key(id) && spec_deal_match(
                    self.peers()[id].0,
                    deal@,
                ) implies exists|p: int| 0 <= p < r@.len() && r@[p]@.id == id by {
                let q = choose|q: int| 0 <= q < peers@.len() && (#[trigger] peers@[q])@.id == id;
                assert(self.peers()[id].0 == peers@[q]@);
                assert(spec_deal_match(peers@[q]@, deal@));
                let p = choose|p: int| 0 <= p < src.len() && src[p] == q;
                assert(r@[p]@.id == id);
            }
            assert forall|p: int, q: int| 0 <= p < q < r@.len() implies r@[p]@.id != r@[q]@.id by {
                assert(peers@[src[p]]@.id != peers@[src[q]]@.id);
            }
        }
        r
    }

    /// Puts `deal` into the inbound table under its sender's advertised
    /// endpoint, overwriting whatever deal that endpoint had.
    pub fn record_incoming(&mut self, deal: Deal)
        requires
            old(self).wf(),
        ensures
            final(self).wf(),
            final(self).peers() == old(self).peers(),
            final(self).self_record() == old(self).self_record(),
            final(self).incoming() =~= old(self).incoming().insert(
                deal@.origin.addr,
                deal@,
            ),
    {
        let ghost s0 = old(self).incoming_deals@;
        let addr = deal.peer_info_wire.addr;
        let mut k: usize = 0;
        while k < self.incoming_deals.len()
            invariant
                *self == *old(self),
                old(self).wf(),
                s0 == old(self).incoming_deals@,
                addrs_distinct(s0),
                addr == deal.peer_info_wire.addr,
                k <= s0.len(),
                forall|j: int| 0 <= j < k ==> s0[j].0 != addr,
            decreases s0.len() - k,
        {
            if self.incoming_deals[k].0 == addr {
                self.incoming_deals.set(k, (addr, deal));
                proof {
                    let s1 = self.incoming_deals@;
                    assert(s0[k as int].0 == addr);
                    assert(addrs_distinct(s1));
                    lemma_deals_upsert(s0, s1, k as int, addr, s1[k as int].1@);
                }
                return ;
            }
            k += 1;
        }
        self.incoming_deals.push((addr, deal));
        proof {
            let s1 = self.incoming_deals@;
            assert(forall|j: int| 0 <= j < s0.len() ==> s0[j].0 != addr);
            assert(addrs_distinct(s1));
            lemma_deals_upsert(s0, s1, s0.len() as int, addr, s1[s0.len() as int].1@);
        }
    }

    /// Decodes one inbound message and records the deal it carries; bytes
    /// that do not decode leave the table exactly as it was.
    pub fn handle_deal_bytes(&mut self, bs: &[u8]) -> (r: Result<(), DecodeError>)
        requires
            old(self).wf(),
        ensures
            final(self).wf(),
            final(self).peers() == old(self).peers(),
            final(self).self_record() == old(self).self_record(),
            match spec_parse_deal(bs@) {
                Ok((rec, n)) => r is Ok && final(self).incoming() =~= old(self).incoming().insert(
                    rec.origin.addr,
                    rec,
                ),
                Err(e) => r == Result::<(), DecodeError>::Err(e) && final(self).incoming() == old(
                    self,
                ).incoming(),
            },
    {
        let deal = match decode_deal(bs) {
            Ok(d) => d,
            Err(e) => {
                return Err(e);
            },
        };
        self.record_incoming(deal);
        Ok(())
    }

    /// The deal last received from `addr`, if any.
    pub fn incoming_deal(&self, addr: &NetAddr) -> (r: Option<&Deal>)
        requires
            self.wf(),
        ensures
            match r {
                Some(d) => self.incoming().contains_key(*addr) && self.incoming()[*addr] == d@,
                None => !self.incoming().contains_key(*addr),
            },
    {
        let mut k: usize = 0;
        while k < self.incoming_deals.len()
            invariant
                self.wf(),
                k <= self.incoming_deals@.len(),
                forall|j: int| 0 <= j < k ==> (#[trigger] self.incoming_deals@[j]).0 != *addr,
            decreases self.incoming_deals@.len() - k,
        {
            if self.incoming_deals[k].0 == *addr {
                proof {
                    lemma_deals_map_at(self.incoming_deals@, k as int);
                }
                return Some(&self.incoming_deals[k].1);
            }
            k += 1;
        }
        None
    }

    /// How many senders have a deal in the inbound table.
    pub fn incoming_len(&self) -> (r: usize)
        ensures
            r == self.incoming_count(),
    {
        self.incoming_deals.len()
    }
}

/// Computes [`spec_spare_bytes`]: mebibytes to bytes, saturating.
fn saturating_spare_bytes(spare_mbs: u64) -> (r: u64)
    ensures
        r == spec_spare_bytes(spare_mbs),
{
    if spare_mbs > u64::MAX / BYTES_PER_MEBIBYTE {
        u64::MAX
    } else {
        spare_mbs * BYTES_PER_MEBIBYTE
    }
}

} // verus!
