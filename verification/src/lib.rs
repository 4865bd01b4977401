//! Peer-to-peer recipe sharing: the verified core.
//!
//! A set of peers on a local network keeps a shared, eventually consistent
//! view of recipe records.  Each peer owns its local collection, may mark
//! entries public, and answers list queries from other peers over one
//! broadcast topic.  This crate holds the logic of that protocol: the
//! recipe store operations, the canonical wire codec, the operator command
//! interpreter, the overlay membership policy, and the event dispatch that
//! ties them together.  Transport, discovery, file I/O and the async event
//! sources live outside and hand plain values in.

pub mod types;
pub mod store;
pub mod codec;
pub mod codec_laws;
pub mod overlay;
pub mod commands;
pub mod protocol;
pub mod events;
