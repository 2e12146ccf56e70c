//! Bounded memory for conversations about a text.
//!
//! A [`store::SessionStore`] keeps at most a hundred sessions under their
//! identifiers and gives up the least recently used one when another needs the
//! room. A [`session::Session`] keeps the prompts it was created with for good,
//! and after them a rolling window of the last hundred messages.
//!
//! The store takes `&mut self` for every operation: whoever shares one store
//! among several callers puts it behind a lock of its own.
//!
//! - [`message`]: messages and their roles.
//! - [`window`]: the ring buffer of a session, kept by `arraydeque`.
//! - [`session`]: a session and what appending does to it.
//! - [`entries`]: the entries of a store as contracts speak of them.
//! - [`recency`]: the table of a store, kept by `lru`.
//! - [`store`]: the store and its four operations.
//! - [`dialogue`]: the steps of a conversation, as they touch the store.
//! - [`laws`]: what holds of the store whatever is done with it.

pub mod message;
pub mod window;
pub mod session;
pub mod entries;
pub mod recency;
pub mod store;
pub mod dialogue;
pub mod laws;
