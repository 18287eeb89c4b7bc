//! Core of a TLS-terminated WebSocket fan-out server: a broadcast queue, the
//! HTTP upgrade handshake, the per-connection state machine and the reactor's
//! dispatch rules.
pub mod mpmc;
pub mod text;
pub mod handshake;
pub mod connection;
pub mod server;
pub mod application;
