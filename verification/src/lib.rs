//! Core of a minimal real-time chat relay.
//!
//! The library tracks live connections in a registry, arbitrates username
//! claims so that a name belongs to at most one connection at a time, and
//! fans each chat message out to every other registered connection. Message
//! payloads are plain byte strings; each connection's outbound endpoint is
//! the sending half of an in-memory channel whose receiving half is drained
//! by the connection's transport task.

mod channel;
pub mod fanout;
pub mod protocol;
pub mod registry;
pub mod session;
