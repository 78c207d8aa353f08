//! Admission control for an identity-scoped publish/subscribe fabric.
//!
//! Clients generate ephemeral credentials, publish a connect request on a
//! well-known channel, and poll until the server provisions a capability
//! grant scoped to their own channel plus the broadcast channel. The server
//! runs an admission handler, a liveness monitor with self-clearing control
//! flags, and a watchdog that fails fast on a stale heartbeat.
//!
//! This crate holds the verified core: the wire codec, the admission
//! decision and its effect on the authorization store, the client handshake
//! state machine, and the monitor/watchdog decisions. The bus and store
//! drivers live outside and hand the core plain values.

pub mod message;
pub mod codec;
pub mod admission;
pub mod handshake;
pub mod monitor;




