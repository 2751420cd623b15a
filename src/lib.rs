//! Differential synchronization of a shared text document.
//!
//! The library holds the diff and fuzzy patch primitives over UTF-8 byte
//! offsets, the per-participant synchronization engine, the in-memory
//! document store, the wire messages and their line framing, and the
//! server that reconciles many clients against one authoritative document.

pub mod client;
pub mod diff;
pub mod document;
pub mod protocol;
pub mod server;
pub mod store;
pub mod sync;
pub mod system;
pub mod text;
