//! A topic-based notification service core: topic and text validation,
//! the wire-level protocol values, the subscription hub that fans
//! messages out to connections, the per-command decisions of a session
//! and the storage-side transformations.

pub mod text;
pub mod domain;
pub mod protocol;
pub mod channel;
pub mod hub;
pub mod session;
pub mod storage;
pub mod settings;
