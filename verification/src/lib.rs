//! Peer-coordination core of a decentralized storage-capacity marketplace.
//!
//! Agents advertise spare capacity and price over a local network, keep a
//! TTL-evicted directory of the peers they hear from, and push capacity
//! deals to the peers whose advertisement matches. This crate holds the
//! verified core: the data model, the wire codec, the peer directory's
//! table logic, and the agent's matching and bookkeeping rules. The
//! sockets and the secure channel that carry the bytes live outside it.

pub mod agent;
pub mod bytes;
pub mod codec;
pub mod discovery;
pub mod deal;
pub mod peer_info;
pub mod price;
