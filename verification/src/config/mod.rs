//! Configuration model, loading and validation.

pub mod decode;
pub mod duration;
pub mod interpolate;
pub mod laws;
pub mod model;
pub mod toml_value;
pub mod validate;

pub use model::{
    Config, Limits, ProxyConfig, ServerConfig, SidecarConfig, SshServerConfig, ToolPolicy,
};
