//! A presence-aware real-time relay library.
//!
//! Clients identified by a string name connect over a persistent duplex
//! channel. Mail addressed to a currently reachable recipient is handed to
//! that recipient's live connection; mail addressed to an unreachable
//! recipient is persisted in a durable mailbox store and can be fetched
//! later. The session registry, the routing decision and the per-connection
//! protocol handler are verified; the durable store is reached through a
//! narrow trusted interface over SQLite.

pub mod client;
pub mod codec;
pub mod database;
pub mod types;

pub use client::Action;
pub use client::Client;
pub use client::Frame;
pub use client::Phase;
pub use codec::DecodeError;
pub use codec::Envelope;

pub use database::Database;
pub use database::DatabaseError;
pub use database::RouteOutcome;
pub use database::Session;
pub use database::StoreError;
pub use types::Email;
