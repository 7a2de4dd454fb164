//! Protocol logic of a proxy server that speaks Hysteria2, VLESS and VMess.
//!
//! Everything here works on plain values: bytes, text, integers and the types
//! of this crate. Sockets, timers and TLS sessions belong to the program that
//! uses it.

pub mod buffer;
pub mod varint;
pub mod text;
pub mod crypto;
pub mod config;
pub mod address;
pub mod proxy;
pub mod vless;
pub mod vmess;
pub mod hysteria2;
pub mod cli;
