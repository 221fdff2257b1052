//! Data-integrity and synchronization engine for a peer-to-peer, eventually
//! consistent shared-state application.
//!
//! Record instances are stored as immutable, content-addressed revisions in a
//! local append-only ledger, validated independently by every peer that
//! receives them, and proactively announced to a caller-supplied peer set.
//! The storage substrate (content-addressed storage, get-by-hash, signing,
//! replication, transport) is an external collaborator: it is modeled here as
//! an explicit [`ledger::Ledger`] value handed to each operation, and peer
//! lists are injected by the caller, so every decision the engine makes is
//! verified for all substrate states.

pub mod chain;
pub mod crud;
pub mod entries;
pub mod goal_member;
pub mod hashes;
pub mod header;
pub mod laws;
pub mod ledger;
pub mod member;
pub mod project_meta;
pub mod signals;
pub mod validate;
