//! DNS: wire format, cache, server selection and query execution.

pub mod cache;
pub mod dialer;
pub mod exchange;
pub mod executor;
pub mod frame;
pub mod headers;
pub mod http;
pub mod request;
pub mod router;
pub mod types;
pub mod upstream;
pub mod wire;
