//! omni-mcp: one process that serves native tools, supervises local MCP
//! sidecars and proxies remote MCP servers, behind a single stdio or HTTP
//! endpoint.
//!
//! The design goal is containment: every path that can create work is bounded,
//! every call has a deadline, and no operation fans out to a backend that does
//! not own the tool being called.

use vstd::prelude::*;

pub mod backend;
pub mod bytes;
pub mod cli;
pub mod config;
pub mod decode;
pub mod diff;
pub mod error;
pub mod json;
pub mod modules;
pub mod pattern;
pub mod protocol;
pub mod registry;
pub mod router;
pub mod server;
pub mod sorted;
pub mod text;
pub mod time;
pub mod tools;
pub mod xml;

pub use config::Config;
pub use error::{StartupError, ToolError};
pub use router::Router;

verus! {

/// The version reported over `initialize` and `--version`.
pub const VERSION: &'static str = "0.1.0";

} // verus!
