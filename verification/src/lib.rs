//! A real-time session logger: the ordering, ingestion and retrieval engine.
//!
//! Each live connection is one session. Every text frame a session receives is
//! recorded in a shared ordered key-value store under a key that sorts, among
//! the keys of that session, in the order of arrival. The transcript of a
//! session is read back with one ordered prefix scan.

pub mod analysis;
pub mod gateway;
pub mod guarantees;
pub mod key;
pub mod order;
pub mod retrieval;
pub mod session;
pub mod store;
