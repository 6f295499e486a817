//! A signaling relay core: users and devices register, pair exclusively, and
//! exchange opaque signaling payloads routed through a single serialized
//! decision point.
//!
//! The crate is split into the pairing state machine ([`pairing`]), the
//! entity records ([`entities`]), the command and notification catalog
//! ([`commands`]), and the connection server engine ([`server`]) that applies
//! one command at a time and returns the notifications to deliver.

pub mod commands;
pub mod entities;
pub mod pairing;
pub mod server;
