//! A last-write-wins per-user field store.
//!
//! Each user owns a collection of named fields; every field carries the
//! logical timestamp of the write that set it, and an update is accepted
//! per field only when its timestamp is strictly newer than the stored
//! one.  On top of the store sit a symmetric friend graph with broadcast
//! records for accepted updates, and a round-robin work partitioner for
//! running the merge over a fixed pool of workers.

pub mod broadcast;
pub mod friends;
pub mod partition;
pub mod state;
pub mod table;
