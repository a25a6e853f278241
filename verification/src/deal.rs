//! A capacity deal: the offer message that one agent pushes to another.

use vstd::prelude::*;

use crate::peer_info::{PeerInfoWire, PeerRecord};
use crate::price::Price;

verus! {

/// Number of bytes in one mebibyte (MiB).
pub const BYTES_PER_MEBIBYTE: u64 = 1024 * 1024;

/// Describes a storage deal request between peers: the offering agent
/// re-states its own advertisement, the file length in bytes, and the
/// price per mebibyte the offer requires.
#[derive(Debug)]
pub struct Deal {
    pub peer_info_wire: PeerInfoWire,
    pub file_len: u64,
    pub price_per_mb: Price,
}

/// The mathematical record of a deal.
#[verifier::ext_equal]
pub ghost struct DealRecord {
    pub origin: PeerRecord,
    pub file_len: u64,
    pub price_bits: u32,
}

impl View for Deal {
    type V = DealRecord;

    open spec fn view(&self) -> DealRecord {
        DealRecord {
            origin: self.peer_info_wire@,
            file_len: self.file_len,
            price_bits: self.price_per_mb.bits,
        }
    }
}

impl Deal {
    /// A copy with the same record.
    pub fn duplicate(&self) -> (r: Deal)
        ensures
            r@ == self@,
    {
        Deal {
            peer_info_wire: self.peer_info_wire.duplicate(),
            file_len: self.file_len,
            price_per_mb: self.price_per_mb,
        }
    }
}

} // verus!
