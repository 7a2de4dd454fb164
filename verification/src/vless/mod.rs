//! VLESS over TCP, TLS, WebSocket and Reality.

pub mod listener;
pub mod protocol;
pub mod tls;
pub mod transport;
