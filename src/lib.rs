//! Verified kernel of a peer-to-peer personal memory federation protocol:
//! vector clocks and CRDT reconciliation, signed memories and identities,
//! claim tokens, authenticated framing with replay and rate protection,
//! and hash-diff synchronisation.

pub mod clock;
pub mod table;
pub mod text;
pub mod validation;
pub mod codec;
pub mod crypto;
pub mod memory;
pub mod identity;
pub mod store;
pub mod claims;
pub mod transport;
pub mod security;
pub mod limits;
pub mod models;
pub mod json;
pub mod crdt;
pub mod sync;
pub mod config;
pub mod peers;
