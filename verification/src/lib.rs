//! A per-connection request/reply correlation and resequencing engine for an
//! administrative control-plane protocol fronting a clustered backend.
//!
//! A client connection issues a stream of administrative requests. Each request
//! is stamped with a correlation identity (connection identity plus a sequence
//! number), routed to the backend service responsible for it, and forwarded
//! asynchronously. Replies can arrive in any order, or not at all; a timeout
//! event stands in for a reply that never came. The engine guarantees that
//! replies are surfaced back to the client in exactly the order the requests
//! were issued, buffering early arrivals until their turn.

pub mod connection_handler;
pub mod messages;
pub mod resequencer;
