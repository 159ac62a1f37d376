//! A connection relay for a chat, presence and call-signalling service.
//!
//! Sessions (one per client) hand what their clients send to a hub. The hub owns the
//! [`registry::Registry`] of live connections and the [`directory::Directory`] of
//! presence state; [`orchestrator::handler`] turns each session message into envelopes
//! for mailboxes, following the routing policy of [`directory::Directory::on_message`].
//! [`client::handler`] holds the decisions of a session's own loop.

pub mod client;
pub mod directory;
pub mod error;
pub mod message;
pub mod orchestrator;
pub mod registry;
