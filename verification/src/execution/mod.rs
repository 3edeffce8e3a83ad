//! Execution: outbounds, stream relaying and packet associations.

pub mod catalog;
pub mod outbound;
pub mod packet;
pub mod registry;
pub mod relay;
pub mod route;
pub mod stream;
