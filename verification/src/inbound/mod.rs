//! Inbounds: where sessions come from.

pub mod common;
pub mod direct;
pub mod redirect;
pub mod serve;
pub mod socks;
pub mod tproxy;
pub mod transparent;
