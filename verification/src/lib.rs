//! Route bookkeeping for a virtual network: exit nodes (virtual addresses
//! that traffic leaves through, the real addresses they resolve to, and the
//! routes installed for them) and peer routes (a host route to the public
//! address of each connected peer).
//!
//! The routing table and the operating system are not touched here. Every
//! operation that needs them is a small state machine: the manager asks for
//! one thing at a time and is told how it went.

pub mod ip;
pub mod route;
pub mod model;
pub mod manager;
pub mod text;
pub mod gateway;
pub mod peer_routes;
pub mod laws;
pub mod history;
pub mod gateway_laws;
pub mod text_laws;
