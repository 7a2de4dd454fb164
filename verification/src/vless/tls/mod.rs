//! TLS layers below VLESS.

pub mod reality;
