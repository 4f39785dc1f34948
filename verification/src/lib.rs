//! A real-time chat relay core: rooms, membership, bounded fan-out
//! delivery, and the per-connection session lifecycle.
//!
//! The crate is transport-agnostic: it owns every decision of the relay
//! (handshake acceptance, name uniqueness, message formatting, drop-oldest
//! delivery, room teardown) while the surrounding program supplies the
//! connections and drives the loops.

pub mod channel;
pub mod laws;
pub mod lines;
pub mod registry;
pub mod room;
pub mod session;
