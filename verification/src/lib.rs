//! Verified core of a proxy runtime.

pub mod dns;
pub mod error;
pub mod execution;
pub mod inbound;
pub mod session;
pub mod text;
pub mod time;
pub mod types;
