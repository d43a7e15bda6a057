//! Verified core of a multi-tenant agent memory store.
//!
//! Every key that the store writes starts with a 16-byte hash of the
//! namespace it belongs to, so that tenants never read one another's data.
//! This crate holds that hashing, the byte layouts of the keys kept in each
//! column family, and the decisions taken while logging and reading
//! episodes, remembering texts, searching the vector index and evicting old
//! episodes. The storage engine, the embedder and the clock stay outside it:
//! callers hand it what they read and take back what to write.

pub mod big_endian;
pub mod episodic;
pub mod namespace;
pub mod order;
pub mod semantic;
pub mod storage;
pub mod structured;
pub mod ttl;

pub use episodic::{Episode, EpisodeEntry, RecentEpisodes};
pub use namespace::ns_hash;
pub use semantic::{SemanticRecord, SemanticWrite};
pub use storage::CfName;
pub use ttl::{EvictionBatch, TtlConfig};
