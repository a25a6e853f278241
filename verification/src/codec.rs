//! The wire codec: compact binary encodings of peer records and deals,
//! with round-trip proofs.
//!
//! A peer record is laid out as: a 32-bit endpoint-family tag (zero for
//! IPv4, the only family carried), four address octets, a 16-bit port, the
//! identity bytes behind a 64-bit length, the 64-bit spare capacity, and
//! the 32-bit price pattern, every integer little-endian. A deal appends
//! its 64-bit file length and 32-bit price pattern to the origin's record.
//! A decoder reads one record off the front of its input and leaves
//! trailing bytes alone.

use vstd::prelude::*;

use crate::bytes::{
    push_u16_le, push_u32_le, push_u64_le, read_u16_le, read_u32_le, read_u64_le,
    lemma_u16_le_round_trip, lemma_u32_le_round_trip, lemma_u64_le_round_trip, spec_u16_from_le,
    spec_u16_to_le, spec_u32_from_le, spec_u32_to_le, spec_u64_from_le, spec_u64_to_le,
};
use crate::deal::{Deal, DealRecord};
use crate::peer_info::{DecodeError, NetAddr, PeerInfoWire, PeerRecord};
use crate::price::Price;

verus! {

/// The bytes that encode a peer record.
pub open spec fn spec_encode_record(r: PeerRecord) -> Seq<u8> {
    spec_u32_to_le(0) + seq![r.addr.a, r.addr.b, r.addr.c, r.addr.d] + spec_u16_to_le(
        r.addr.port,
    ) + spec_u64_to_le(r.id.len() as u64) + r.id + spec_u64_to_le(r.spare_mbs) + spec_u32_to_le(
        r.price_bits,
    )
}

/// The bytes that encode a deal.
pub open spec fn spec_encode_deal(d: DealRecord) -> Seq<u8> {
    spec_encode_record(d.origin) + spec_u64_to_le(d.file_len) + spec_u32_to_le(d.price_bits)
}

/// Reads one peer record off the front of `bs`: the record and the number
/// of bytes it took, or the first error the bytes show.
pub open spec fn spec_parse_record(bs: Seq<u8>) -> Result<(PeerRecord, int), DecodeError> {
    if bs.len() < 4 {
        Err(DecodeError::Truncated)
    } else if spec_u32_from_le(bs.subrange(0, 4)) != 0 {
        Err(DecodeError::UnsupportedAddress)
    } else if bs.len() < 18 {
        Err(DecodeError::Truncated)
    } else {
        let idlen = spec_u64_from_le(bs.subrange(10, 18)) as int;
        if bs.len() < 30 + idlen {
            Err(DecodeError::Truncated)
        } else {
            let r = PeerRecord {
                addr: NetAddr {
                    a: bs[4],
                    b: bs[5],
                    c: bs[6],
                    d: bs[7],
                    port: spec_u16_from_le(bs.subrange(8, 10)),
                },
                id: bs.subrange(18, 18 + idlen),
                spare_mbs: spec_u64_from_le(bs.subrange(18 + idlen, 26 + idlen)),
                price_bits: spec_u32_from_le(bs.subrange(26 + idlen, 30 + idlen)),
            };
            Ok((r, 30 + idlen))
        }
    }
}

/// Reads one deal off the front of `bs`: the deal and the number of bytes
/// it took, or the first error the bytes show.
pub open spec fn spec_parse_deal(bs: Seq<u8>) -> Result<(DealRecord, int), DecodeError> {
    match spec_parse_record(bs) {
        Err(e) => Err(e),
        Ok((origin, n)) => {
            if bs.len() < n + 12 {
                Err(DecodeError::Truncated)
            } else {
                let d = DealRecord {
                    origin,
                    file_len: spec_u64_from_le(bs.subrange(n, n + 8)),
                    price_bits: spec_u32_from_le(bs.subrange(n + 8, n + 12)),
                };
                Ok((d, n + 12))
            }
        },
    }
}

/// Parsing starts over what an encoder laid down, followed by anything,
/// and yields the record again, field for field.
pub proof fn lemma_record_round_trip(r: PeerRecord, rest: Seq<u8>)
    requires
        r.id.len() <= u64::MAX,
    ensures
        spec_parse_record(spec_encode_record(r) + rest) == Ok::<_, DecodeError>(
            (r, spec_encode_record(r).len() as int),
        ),
{
    let enc = spec_encode_record(r);
    let bs = enc + rest;
    let idlen = r.id.len() as int;
    assert(enc.len() == 30 + idlen);
    assert(bs.subrange(0, 4) =~= spec_u32_to_le(0));
    lemma_u32_le_round_trip(0);
    assert(spec_u32_from_le(bs.subrange(0, 4)) == 0);
    assert(bs.subrange(8, 10) =~= spec_u16_to_le(r.addr.port));
    lemma_u16_le_round_trip(r.addr.port);
    assert(bs.subrange(10, 18) =~= spec_u64_to_le(r.id.len() as u64));
    lemma_u64_le_round_trip(r.id.len() as u64);
    assert(spec_u64_from_le(bs.subrange(10, 18)) == r.id.len() as u64);
    assert(bs.subrange(18, 18 + idlen) =~= r.id);
    assert(bs.subrange(18 + idlen, 26 + idlen) =~= spec_u64_to_le(r.spare_mbs));
    lemma_u64_le_round_trip(r.spare_mbs);
    assert(bs.subrange(26 + idlen, 30 + idlen) =~= spec_u32_to_le(r.price_bits));
    lemma_u32_le_round_trip(r.price_bits);
    assert(bs[4] == r.addr.a && bs[5] == r.addr.b && bs[6] == r.addr.c && bs[7] == r.addr.d);
    let parsed = spec_parse_record(bs)->Ok_0.0;
    assert(parsed =~= r);
}

/// A subrange that stays within the left part of a concatenation reads
/// from the left part.
proof fn lemma_subrange_prefix(a: Seq<u8>, b: Seq<u8>, from: int, to: int)
    requires
        0 <= from <= to <= a.len(),
    ensures
        (a + b).subrange(from, to) =~= a.subrange(from, to),
{
}

/// A subrange that sits past the left part of a concatenation reads from
/// the right part.
proof fn lemma_subrange_after(a: Seq<u8>, b: Seq<u8>, from: int, to: int)
    requires
        0 <= from <= to <= b.len(),
    ensures
        (a + b).subrange(a.len() + from, a.len() + to) =~= b.subrange(from, to),
{
}

/// The first bytes of an encoded deal parse as the origin's record.
proof fn lemma_deal_prefix(d: DealRecord, rest: Seq<u8>)
    requires
        d.origin.id.len() <= u64::MAX,
    ensures
        spec_parse_record(spec_encode_deal(d) + rest) == Ok::<_, DecodeError>(
            (d.origin, spec_encode_record(d.origin).len() as int),
        ),
{
    let tail = spec_u64_to_le(d.file_len) + spec_u32_to_le(d.price_bits) + rest;
    assert(spec_encode_deal(d) + rest =~= spec_encode_record(d.origin) + tail);
    lemma_record_round_trip(d.origin, tail);
}

/// Parsing starts over an encoded deal, followed by anything, and yields
/// the deal again, field for field.
pub proof fn lemma_deal_round_trip(d: DealRecord, rest: Seq<u8>)
    requires
        d.origin.id.len() <= u64::MAX,
    ensures
        spec_parse_deal(spec_encode_deal(d) + rest) == Ok::<_, DecodeError>(
            (d, spec_encode_deal(d).len() as int),
        ),
{
    let flen = spec_u64_to_le(d.file_len);
    let price = spec_u32_to_le(d.price_bits);
    let renc = spec_encode_record(d.origin);
    let tail = flen + price + rest;
    let bs = spec_encode_deal(d) + rest;
    assert(bs =~= renc + tail);
    lemma_record_round_trip(d.origin, tail);
    let n = renc.len() as int;
    assert(spec_parse_record(bs) == Ok::<_, DecodeError>((d.origin, n)));
    lemma_subrange_after(renc, tail, 0, 8);
    lemma_subrange_prefix(flen + price, rest, 0, 8);
    lemma_subrange_prefix(flen, price, 0, 8);
    assert(flen.subrange(0, 8) =~= flen);
    assert(bs.subrange(n, n + 8) == flen);
    lemma_u64_le_round_trip(d.file_len);
    lemma_subrange_after(renc, tail, 8, 12);
    lemma_subrange_prefix(flen + price, rest, 8, 12);
    lemma_subrange_after(flen, price, 0, 4);
    assert(price.subrange(0, 4) =~= price);
    assert(bs.subrange(n + 8, n + 12) == price);
    lemma_u32_le_round_trip(d.price_bits);
    let parsed = spec_parse_deal(bs)->Ok_0.0;
    assert(parsed =~= d);
}

/// Round trip for peer records: decoding an encoded record, and nothing
/// more, yields the record again, field for field.
pub proof fn lemma_record_round_trip_exact(r: PeerRecord)
    requires
        r.id.len() <= u64::MAX,
    ensures
        spec_parse_record(spec_encode_record(r)) == Ok::<_, DecodeError>(
            (r, spec_encode_record(r).len() as int),
        ),
{
    lemma_record_round_trip(r, Seq::empty());
    assert(spec_encode_record(r) + Seq::<u8>::empty() =~= spec_encode_record(r));
}

/// Round trip for deals: decoding an encoded deal, and nothing more,
/// yields the deal again, field for field.
pub proof fn lemma_deal_round_trip_exact(d: DealRecord)
    requires
        d.origin.id.len() <= u64::MAX,
    ensures
        spec_parse_deal(spec_encode_deal(d)) == Ok::<_, DecodeError>(
            (d, spec_encode_deal(d).len() as int),
        ),
{
    lemma_deal_round_trip(d, Seq::empty());
    assert(spec_encode_deal(d) + Seq::<u8>::empty() =~= spec_encode_deal(d));
}

/// Appends the bytes of `src` to `out`.
fn append_bytes(out: &mut Vec<u8>, src: &Vec<u8>)
    ensures
        final(out)@ == old(out)@ + src@,
{
    let mut i: usize = 0;
    while i < src.len()
        invariant
            i <= src@.len(),
            out@ == old(out)@ + src@.subrange(0, i as int),
        decreases src@.len() - i,
    {
        out.push(src[i]);
        proof {
            assert(old(out)@ + src@.subrange(0, i as int) + seq![src@[i as int]] =~= old(out)@
                + src@.subrange(0, i + 1));
        }
        i += 1;
    }
    proof {
        assert(src@.subrange(0, src@.len() as int) =~= src@);
    }
}

/// Encodes a peer record for the wire.
pub fn encode_peer_info_wire(w: &PeerInfoWire) -> (r: Vec<u8>)
    ensures
        r@ == spec_encode_record(w@),
{
    let mut out: Vec<u8> = Vec::new();
    push_u32_le(&mut out, 0);
    out.push(w.addr.a);
    out.push(w.addr.b);
    out.push(w.addr.c);
    out.push(w.addr.d);
    push_u16_le(&mut out, w.addr.port);
    push_u64_le(&mut out, w.peer_id_bytes.len() as u64);
    append_bytes(&mut out, &w.peer_id_bytes);
    push_u64_le(&mut out, w.spare_mbs);
    push_u32_le(&mut out, w.price.bits);
    proof {
        assert(out@ =~= spec_encode_record(w@));
    }
    out
}

/// Encodes a deal for the wire.
pub fn encode_deal(d: &Deal) -> (r: Vec<u8>)
    ensures
        r@ == spec_encode_deal(d@),
{
    let mut out = encode_peer_info_wire(&d.peer_info_wire);
    push_u64_le(&mut out, d.file_len);
    push_u32_le(&mut out, d.price_per_mb.bits);
    proof {
        assert(out@ =~= spec_encode_deal(d@));
    }
    out
}

/// Decodes one peer record off the front of `bs`, exactly as
/// [`spec_parse_record`] reads it; trailing bytes are left alone.
pub fn decode_peer_info_wire(bs: &[u8]) -> (r: Result<(PeerInfoWire, usize), DecodeError>)
    ensures
        match r {
            Ok((w, n)) => spec_parse_record(bs@) == Ok::<_, DecodeError>((w@, n as int)),
            Err(e) => spec_parse_record(bs@) == Err::<(PeerRecord, int), _>(e),
        },
{
    let len = bs.len();
    if len < 4 {
        return Err(DecodeError::Truncated);
    }
    let tag = read_u32_le(bs, 0);
    if tag != 0 {
        return Err(DecodeError::UnsupportedAddress);
    }
    if len < 18 {
        return Err(DecodeError::Truncated);
    }
    let addr = NetAddr { a: bs[4], b: bs[5], c: bs[6], d: bs[7], port: read_u16_le(bs, 8) };
    let idlen64 = read_u64_le(bs, 10);
    if idlen64 > (len - 18) as u64 || (len - 18) as u64 - idlen64 < 12 {
        return Err(DecodeError::Truncated);
    }
    let idlen = idlen64 as usize;
    let mut id: Vec<u8> = Vec::new();
    let mut i: usize = 0;
    while i < idlen
        invariant
            i <= idlen,
            18 + idlen <= len,
            len == bs@.len(),
            id@ == bs@.subrange(18, 18 + i as int),
        decreases idlen - i,
    {
        id.push(bs[18 + i]);
        proof {
            assert(bs@.subrange(18, 18 + i as int) + seq![bs@[18 + i]] =~= bs@.subrange(
                18,
                18 + (i + 1),
            ));
        }
        i += 1;
    }
    let spare_mbs = read_u64_le(bs, 18 + idlen);
    let price_bits = read_u32_le(bs, 26 + idlen);
    let w = PeerInfoWire { addr, peer_id_bytes: id, spare_mbs, price: Price { bits: price_bits } };
    Ok((w, 30 + idlen))
}

/// Decodes one deal off the front of `bs`, exactly as [`spec_parse_deal`]
/// reads it; trailing bytes are left alone.
pub fn decode_deal(bs: &[u8]) -> (r: Result<Deal, DecodeError>)
    ensures
        match r {
            Ok(d) => spec_parse_deal(bs@) matches Ok((rec, _)) && rec == d@,
            Err(e) => spec_parse_deal(bs@) == Err::<(DealRecord, int), _>(e),
        },
{
    let (origin, n) = match decode_peer_info_wire(bs) {
        Ok(pair) => pair,
        Err(e) => {
            return Err(e);
        },
    };
    if bs.len() - n < 12 {
        return Err(DecodeError::Truncated);
    }
    let file_len = read_u64_le(bs, n);
    let price_bits = read_u32_le(bs, n + 8);
    Ok(Deal { peer_info_wire: origin, file_len, price_per_mb: Price { bits: price_bits } })
}

} // verus!
