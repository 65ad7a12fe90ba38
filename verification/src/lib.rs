//! Client-side protocol machinery for talking to GNUnet services.
//!
//! The crate is free of I/O: it builds the frames to send, decodes the frames
//! received, and keeps the per-connection state (correlation ids, pending
//! requests, the mirror of egos). A caller owns the socket and moves bytes
//! between it and these types.

pub mod bytes;
pub mod channel;
pub mod codec;
pub mod correlator;
pub mod gns;
pub mod identity;
pub mod keys;
pub mod record;
pub mod transport;

pub use crate::gns::{lookup_in_master, LocalOptions, LookupQuery, GNS};
pub use crate::identity::{Ego, IdentityService};
pub use crate::keys::{EcdsaPrivateKey, EcdsaPublicKey, HashCode, PeerIdentity};
pub use crate::record::Record;
pub use crate::transport::{self_hello, TransportService};
