//! A key-value store with a sliding time-to-live on every entry: reading an
//! entry postpones its expiration, and entries left unread for longer than
//! the configured timeout are reclaimed lazily, without an external trigger.

pub mod expire;
pub mod queue;
pub mod store;

pub use expire::ExpireMap;
