//! The data model: peer identities, network endpoints, and the in-memory
//! and wire representations of a peer's advertisement.

use vstd::prelude::*;

use crate::price::Price;

verus! {

/// Length in bytes of a peer identifier: a 32-byte identity digest
/// behind its two-byte multihash header.
pub const PEER_ID_LEN: usize = 34;

/// An IPv4 network endpoint: four address octets and a port.
#[derive(Clone, Copy, Debug, PartialEq, Eq, Structural)]
pub struct NetAddr {
    pub a: u8,
    pub b: u8,
    pub c: u8,
    pub d: u8,
    pub port: u16,
}

/// An opaque peer identity: a byte string of exactly [`PEER_ID_LEN`] bytes.
#[derive(Debug)]
pub struct PeerId {
    bytes: Vec<u8>,
}

impl View for PeerId {
    type V = Seq<u8>;

    closed spec fn view(&self) -> Seq<u8> {
        self.bytes@
    }
}

/// Whether a byte string is a well-formed peer identifier.
pub open spec fn valid_peer_id(id: Seq<u8>) -> bool {
    id.len() == PEER_ID_LEN
}

/// The errors of turning bytes back into the model's values.
#[derive(Clone, Copy, Debug, PartialEq, Eq, Structural)]
pub enum DecodeError {
    /// The input ended before the record did.
    Truncated,
    /// The record carries an endpoint family other than IPv4.
    UnsupportedAddress,
    /// The identity bytes are not a well-formed peer identifier.
    InvalidPeerId,
}

impl PeerId {
    /// Validates a byte string as a peer identifier.
    pub fn from_bytes(bytes: Vec<u8>) -> (r: Result<PeerId, DecodeError>)
        ensures
            valid_peer_id(bytes@) ==> (r matches Ok(id) && id@ == bytes@),
            !valid_peer_id(bytes@) ==> r == Result::<PeerId, DecodeError>::Err(
                DecodeError::InvalidPeerId,
            ),
    {
        if bytes.len() == PEER_ID_LEN {
            Ok(PeerId { bytes })
        } else {
            Err(DecodeError::InvalidPeerId)
        }
    }

    /// The identifier's bytes.
    pub fn to_bytes(&self) -> (r: Vec<u8>)
        ensures
            r@ == self@,
    {
        self.bytes.clone()
    }

    /// A copy with the same bytes.
    pub fn duplicate(&self) -> (r: PeerId)
        ensures
            r@ == self@,
    {
        PeerId { bytes: self.bytes.clone() }
    }

    /// Whether two identifiers hold the same bytes.
    pub fn same_as(&self, other: &PeerId) -> (r: bool)
        ensures
            r == (self@ == other@),
    {
        eq_bytes(&self.bytes, &other.bytes)
    }
}

/// Whether two byte vectors hold the same bytes.
fn eq_bytes(x: &Vec<u8>, y: &Vec<u8>) -> (r: bool)
    ensures
        r == (x@ == y@),
{
    if x.len() != y.len() {
        return false;
    }
    let mut i: usize = 0;
    while i < x.len()
        invariant
            i <= x@.len(),
            x@.len() == y@.len(),
            forall|j: int| 0 <= j < i ==> x@[j] == y@[j],
        decreases x@.len() - i,
    {
        if x[i] != y[i] {
            return false;
        }
        i += 1;
    }
    proof {
        assert(x@ =~= y@);
    }
    true
}

/// The mathematical record that both peer representations project to.
#[verifier::ext_equal]
pub ghost struct PeerRecord {
    pub addr: NetAddr,
    pub id: Seq<u8>,
    pub spare_mbs: u64,
    pub price_bits: u32,
}

/// In-memory representation of a peer: its reachable endpoint, its
/// identity, its spare capacity in mebibytes, and the price per mebibyte
/// it is willing to accept.
#[derive(Debug)]
pub struct PeerInfo {
    pub addr: NetAddr,
    pub peer_id: PeerId,
    pub spare_mbs: u64,
    pub price: Price,
}

/// Wire representation of a peer: the identity as a raw byte buffer.
#[derive(Debug)]
pub struct PeerInfoWire {
    pub addr: NetAddr,
    pub peer_id_bytes: Vec<u8>,
    pub spare_mbs: u64,
    pub price: Price,
}

impl View for PeerInfo {
    type V = PeerRecord;

    open spec fn view(&self) -> PeerRecord {
        PeerRecord {
            addr: self.addr,
            id: self.peer_id@,
            spare_mbs: self.spare_mbs,
            price_bits: self.price.bits,
        }
    }
}

impl View for PeerInfoWire {
    type V = PeerRecord;

    open spec fn view(&self) -> PeerRecord {
        PeerRecord {
            addr: self.addr,
            id: self.peer_id_bytes@,
            spare_mbs: self.spare_mbs,
            price_bits: self.price.bits,
        }
    }
}

impl PeerInfo {
    /// A well-formed peer holds a well-formed identifier.
    pub open spec fn wf(&self) -> bool {
        valid_peer_id(self@.id)
    }

    /// A copy with the same record.
    pub fn duplicate(&self) -> (r: PeerInfo)
        ensures
            r@ == self@,
    {
        PeerInfo {
            addr: self.addr,
            peer_id: self.peer_id.duplicate(),
            spare_mbs: self.spare_mbs,
            price: self.price,
        }
    }

    /// Projects a peer onto its wire representation; the record is kept
    /// field for field.
    pub fn to_wire(&self) -> (r: PeerInfoWire)
        ensures
            r@ == self@,
    {
        PeerInfoWire {
            addr: self.addr,
            peer_id_bytes: self.peer_id.to_bytes(),
            spare_mbs: self.spare_mbs,
            price: self.price,
        }
    }

    /// Converts a wire record back, validating the identity bytes; the
    /// record is kept field for field, and the conversion succeeds exactly
    /// for well-formed identifiers.
    pub fn try_from_wire(w: PeerInfoWire) -> (r: Result<PeerInfo, DecodeError>)
        ensures
            valid_peer_id(w@.id) ==> (r matches Ok(p) && p@ == w@ && p.wf()),
            !valid_peer_id(w@.id) ==> r == Result::<PeerInfo, DecodeError>::Err(
                DecodeError::InvalidPeerId,
            ),
    {
        let peer_id = PeerId::from_bytes(w.peer_id_bytes)?;
        Ok(PeerInfo { addr: w.addr, peer_id, spare_mbs: w.spare_mbs, price: w.price })
    }
}

impl PeerInfoWire {
    /// A copy with the same record.
    pub fn duplicate(&self) -> (r: PeerInfoWire)
        ensures
            r@ == self@,
    {
        PeerInfoWire {
            addr: self.addr,
            peer_id_bytes: self.peer_id_bytes.clone(),
            spare_mbs: self.spare_mbs,
            price: self.price,
        }
    }
}

} // verus!
