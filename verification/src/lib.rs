//! A single-participant agent core for a secure group-messaging protocol.
//!
//! The crate provides the parts of the agent that are original to it and
//! proved correct: a versioned, namespaced key-value store that the group
//! engine uses as its storage backend, the durable session state of one
//! participant, and the continuity discipline that derives a pre-shared
//! secret from every committed epoch and injects it into the next commit
//! exactly once.  The group key-agreement engine itself is an external
//! collaborator; the decisions this crate makes about its results are
//! verified for every outcome the engine can produce.

pub mod bytes;
pub mod labels;
pub mod store;
pub mod b64;
pub mod keys;
pub mod state;
pub mod continuity;
pub mod laws;
