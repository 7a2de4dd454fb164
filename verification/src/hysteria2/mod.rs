//! Hysteria2 over QUIC.

pub mod auth;
pub mod masquerade;
pub mod server;
