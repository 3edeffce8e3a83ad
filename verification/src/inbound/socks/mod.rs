//! The SOCKS5 inbound.

pub mod codec;
pub mod error;
pub mod protocol;
pub mod server;
