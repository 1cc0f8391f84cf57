//! TTL-bounded gossip dissemination: a wire codec for gossip frames, a
//! deduplication cache that decides whether a frame is accepted and relayed,
//! and the ingest step that ties them together for one scan cycle.

pub mod message;
pub mod codec;
pub mod cache;
pub mod ingest;
