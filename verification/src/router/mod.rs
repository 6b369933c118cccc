//! Request dispatch: MCP methods in, JSON-RPC responses out.

pub mod dispatch;
pub mod routes;
pub mod status;

pub use dispatch::Router;
