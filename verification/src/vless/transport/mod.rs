//! What VLESS is carried over.

pub mod reality;
pub mod tls;
pub mod websocket;
