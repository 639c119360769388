//! Peer-to-peer block replication engine: a disjoint-interval tracker,
//! a fixed-tag wire packet codec, a block-addressable partial-file store,
//! a peer directory with a monotonic status lattice, a fixed-capacity
//! link slot table, and the discovery protocol decision logic.

pub mod bytes;
pub mod host;
pub mod links;
pub mod peers;
pub mod pfs;
pub mod proto;
pub mod range;

pub use host::{EndpointEvent, HostAction};
pub use links::Links;
pub use peers::{Peer, PeerStatus, Peers};
pub use pfs::{BlockState, FileError, PartialFile, PartialFiller, PartialMode, BLOCK_LEN};
pub use proto::{CodecError, Packet, PeerAddr};
pub use range::RangeVec;
