//! The transports: stdio and HTTP.

pub mod http;
pub mod stdio;
