//! A protocol-aware reverse proxy library for Minecraft clients.
//!
//! The crate verifies the three subsystems at the heart of such a proxy:
//! the handshake wire codec (VarInts, length-prefixed strings, packet
//! frames), the routing table that maps virtual hosts to backends, and the
//! decision logic of the connection handler and the control-plane event
//! loop.  All I/O (sockets, channels, the RPC transport) lives outside the
//! library and drives these verified cores with plain values.

pub mod backend;
pub mod codec;
pub mod connection;
pub mod event;
pub mod handshake;
pub mod listener;
pub mod status;
pub mod storage;

pub use codec::WireError;
