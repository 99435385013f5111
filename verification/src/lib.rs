//! A versioned, content-addressed key/value map.
//!
//! Every version of the map is identified by a single content-derived
//! identifier. Updates never overwrite history: applying a mutation produces
//! a new identifier whose structure shares unchanged data with the previous
//! version, and whose causal history is recorded in an append-only changelog.

pub mod block;
pub mod codec;
pub mod error;
pub mod ids;
pub mod laws;
pub mod map;
pub mod ops;
pub mod pin;
pub mod store;
pub mod trie;

pub use block::{Block, ChangelogEntry, RootNode, TrieEntry};
pub use error::MapError;
pub use ids::Id;
pub use map::VersionedMap;
pub use ops::{MapOperation, Mutation};
pub use store::MemoryStore;
pub use trie::Trie;
