//! Crate-wide error types.
//!
//! Backend failures are deliberately *not* fatal: a dead sidecar or an
//! unreachable proxy must degrade to a tool-level error message, never take
//! down the gateway and with it the client's whole MCP session.

use vstd::prelude::*;

use crate::protocol::code;
use crate::text::{
    cat2, cat3, cat4, contains, debug, debug_text, decimal, decimal_text, lemma_contains,
};

verus! {

/// A configuration that cannot be used.
#[derive(Debug, PartialEq)]
pub enum ConfigError {
    /// The file at `path` could not be read; `source` says why.
    Read { path: String, source: String },
    /// The file at `path` is not a configuration; `source` says why.
    Parse { path: String, source: String },
    /// A placeholder names a variable that is not set and has no default.
    MissingEnv { var: String },
    /// A duration is written in a form that is not known.
    Duration { value: String },
    /// The configuration would misbehave at runtime.
    Invalid(String),
}

/// What a [`ConfigError`] says.
pub enum ConfigErrorView {
    Read { path: Seq<char>, source: Seq<char> },
    Parse { path: Seq<char>, source: Seq<char> },
    MissingEnv { var: Seq<char> },
    Duration { value: Seq<char> },
    Invalid(Seq<char>),
}

impl View for ConfigError {
    type V = ConfigErrorView;

    open spec fn view(&self) -> ConfigErrorView {
        match self {
            ConfigError::Read { path, source } => ConfigErrorView::Read {
                path: path@,
                source: source@,
            },
            ConfigError::Parse { path, source } => ConfigErrorView::Parse {
                path: path@,
                source: source@,
            },
            ConfigError::MissingEnv { var } => ConfigErrorView::MissingEnv { var: var@ },
            ConfigError::Duration { value } => ConfigErrorView::Duration { value: value@ },
            ConfigError::Invalid(reason) => ConfigErrorView::Invalid(reason@),
        }
    }
}

impl ConfigErrorView {
    /// The message for the operator.
    pub open spec fn message(self) -> Seq<char> {
        match self {
            ConfigErrorView::Read { path, source } => "could not read config at "@ + path + ": "@
                + source,
            ConfigErrorView::Parse { path, source } => "config at "@ + path
                + " is not valid TOML: "@ + source,
            ConfigErrorView::MissingEnv { var } => "config references ${"@ + var
                + "} but that environment variable is not set"@,
            ConfigErrorView::Duration { value } => "invalid duration "@ + debug_text(value)
                + ": expected a form like \"30s\", \"1500ms\" or \"2m\""@,
            ConfigErrorView::Invalid(reason) => "invalid configuration: "@ + reason,
        }
    }
}

impl ConfigError {
    /// The message for the operator.
    pub fn message(&self) -> (r: String)
        ensures
            r@ == self@.message(),
    {
        match self {
            ConfigError::Read { path, source } => cat4(
                "could not read config at ",
                path,
                ": ",
                source,
            ),
            ConfigError::Parse { path, source } => cat4(
                "config at ",
                path,
                " is not valid TOML: ",
                source,
            ),
            ConfigError::MissingEnv { var } => cat3(
                "config references ${",
                var,
                "} but that environment variable is not set",
            ),
            ConfigError::Duration { value } => cat3(
                "invalid duration ",
                &debug(value),
                ": expected a form like \"30s\", \"1500ms\" or \"2m\"",
            ),
            ConfigError::Invalid(reason) => cat2("invalid configuration: ", reason),
        }
    }
}

/// The view of an outcome that may be a [`ConfigError`].
pub open spec fn config_result<T: View>(r: Result<T, ConfigError>) -> Result<
    T::V,
    ConfigErrorView,
> {
    match r {
        Ok(value) => Ok(value@),
        Err(err) => Err(err@),
    }
}

/// Something went wrong while talking to a backend, or while a tool ran.
#[derive(Debug, PartialEq)]
pub enum ToolError {
    /// The caller supplied bad arguments. Deterministic; retrying will not help.
    InvalidArguments(String),
    /// The named tool is not registered anywhere.
    NotFound(String),
    /// The tool ran but failed. The model should see this and adapt.
    Failed(String),
    /// The backend did not answer within its deadline.
    Timeout { tool: String, seconds: u64 },
    /// The backend is unreachable or broken (spawn failure, connection refused).
    Unavailable { backend: String, reason: String },
    /// The operation is disabled by policy in the config.
    Denied(String),
}

/// What a [`ToolError`] says.
pub enum ToolErrorView {
    InvalidArguments(Seq<char>),
    NotFound(Seq<char>),
    Failed(Seq<char>),
    Timeout { tool: Seq<char>, seconds: u64 },
    Unavailable { backend: Seq<char>, reason: Seq<char> },
    Denied(Seq<char>),
}

impl View for ToolError {
    type V = ToolErrorView;

    open spec fn view(&self) -> ToolErrorView {
        match self {
            ToolError::InvalidArguments(m) => ToolErrorView::InvalidArguments(m@),
            ToolError::NotFound(name) => ToolErrorView::NotFound(name@),
            ToolError::Failed(m) => ToolErrorView::Failed(m@),
            ToolError::Timeout { tool, seconds } => ToolErrorView::Timeout {
                tool: tool@,
                seconds: *seconds,
            },
            ToolError::Unavailable { backend, reason } => ToolErrorView::Unavailable {
                backend: backend@,
                reason: reason@,
            },
            ToolError::Denied(m) => ToolErrorView::Denied(m@),
        }
    }
}

impl ToolErrorView {
    /// The message for the client.
    pub open spec fn message(self) -> Seq<char> {
        match self {
            ToolErrorView::InvalidArguments(m) => m,
            ToolErrorView::NotFound(name) => "tool "@ + debug_text(name)
                + " is not available; call `omni_status` to list active backends"@,
            ToolErrorView::Failed(m) => m,
            ToolErrorView::Timeout { tool, seconds } => debug_text(tool) + " exceeded its "@
                + decimal(seconds as nat) + "s timeout"@,
            ToolErrorView::Unavailable { backend, reason } => "backend "@ + debug_text(backend)
                + " is unavailable: "@ + reason,
            ToolErrorView::Denied(m) => m,
        }
    }

    /// The JSON-RPC code of the error.
    pub open spec fn rpc_code(self) -> i32 {
        match self {
            ToolErrorView::InvalidArguments(_) => code::INVALID_PARAMS,
            ToolErrorView::NotFound(_) => code::METHOD_NOT_FOUND,
            ToolErrorView::Timeout { .. } => code::TIMEOUT,
            ToolErrorView::Failed(_)
            | ToolErrorView::Unavailable { .. }
            | ToolErrorView::Denied(_) => code::INTERNAL_ERROR,
        }
    }
}

impl ToolError {
    /// JSON-RPC code used when a fault has to surface at the protocol level.
    pub fn rpc_code(&self) -> (r: i32)
        ensures
            r == self@.rpc_code(),
    {
        match self {
            ToolError::InvalidArguments(_) => code::INVALID_PARAMS,
            ToolError::NotFound(_) => code::METHOD_NOT_FOUND,
            ToolError::Timeout { .. } => code::TIMEOUT,
            ToolError::Failed(_) | ToolError::Unavailable { .. } | ToolError::Denied(
                _,
            ) => code::INTERNAL_ERROR,
        }
    }

    /// The message for the client.
    pub fn message(&self) -> (r: String)
        ensures
            r@ == self@.message(),
    {
        match self {
            ToolError::InvalidArguments(m) => m.clone(),
            ToolError::NotFound(name) => cat3(
                "tool ",
                &debug(name),
                " is not available; call `omni_status` to list active backends",
            ),
            ToolError::Failed(m) => m.clone(),
            ToolError::Timeout { tool, seconds } => cat4(
                &debug(tool),
                " exceeded its ",
                &decimal_text(*seconds),
                "s timeout",
            ),
            ToolError::Unavailable { backend, reason } => cat4(
                "backend ",
                &debug(backend),
                " is unavailable: ",
                reason,
            ),
            ToolError::Denied(m) => m.clone(),
        }
    }
}

/// The outcome of a tool.
pub type ToolResult<T> = Result<T, ToolError>;

/// The view of the outcome of a tool.
pub open spec fn tool_result<T: View>(r: ToolResult<T>) -> Result<T::V, ToolErrorView> {
    match r {
        Ok(value) => Ok(value@),
        Err(err) => Err(err@),
    }
}

/// What [`missing`] says of a field.
pub open spec fn missing_view(field: Seq<char>) -> ToolErrorView {
    ToolErrorView::InvalidArguments("missing required argument "@ + debug_text(field))
}

/// Helper for the very common "required string argument" extraction.
pub fn missing(field: &str) -> (r: ToolError)
    ensures
        r@ == missing_view(field@),
{
    ToolError::InvalidArguments(cat2("missing required argument ", &debug(field)))
}

/// The gateway could not start.
#[derive(Debug, PartialEq)]
pub enum StartupError {
    /// The configuration is unusable.
    Config(ConfigError),
    /// The address could not be bound; `source` says why.
    Bind { addr: String, source: String },
    /// Any other input or output failure.
    Io(String),
    /// HTTP without a token was not acknowledged.
    UnauthenticatedHttp,
}

impl StartupError {
    /// The message for the operator.
    pub open spec fn spec_message(&self) -> Seq<char> {
        match self {
            StartupError::Config(err) => err@.message(),
            StartupError::Bind { addr, source } => "could not bind "@ + addr@ + ": "@ + source@,
            StartupError::Io(source) => "i/o error: "@ + source@,
            StartupError::UnauthenticatedHttp => "HTTP mode exposes every tool, including code execution, to any local process. Set `server.auth_token` (e.g. auth_token = \"${OMNI_MCP_TOKEN}\") or pass --allow-unauthenticated to acknowledge the risk."@,
        }
    }

    /// The message for the operator.
    pub fn message(&self) -> (r: String)
        ensures
            r@ == self.spec_message(),
    {
        match self {
            StartupError::Config(err) => err.message(),
            StartupError::Bind { addr, source } => cat4("could not bind ", addr, ": ", source),
            StartupError::Io(source) => cat2("i/o error: ", source),
            StartupError::UnauthenticatedHttp => "HTTP mode exposes every tool, including code execution, to any local process. Set `server.auth_token` (e.g. auth_token = \"${OMNI_MCP_TOKEN}\") or pass --allow-unauthenticated to acknowledge the risk.".to_owned(),
        }
    }
}

/// An error that says the tool is missing is told apart from every other by
/// its JSON-RPC code.
pub proof fn lemma_not_found_code(err: ToolErrorView)
    ensures
        err.rpc_code() == code::METHOD_NOT_FOUND <==> err is NotFound,
        err.rpc_code() == code::INVALID_PARAMS <==> err is InvalidArguments,
        err.rpc_code() == code::TIMEOUT <==> err is Timeout,
{
}

/// A message says what went wrong: the file and the reason, the variable, the value, or
/// what is wrong with the configuration.
pub proof fn lemma_config_messages(err: ConfigErrorView)
    ensures
        match err {
            ConfigErrorView::Read { path, source } => contains(err.message(), path) && contains(
                err.message(),
                source,
            ),
            ConfigErrorView::Parse { path, source } => contains(err.message(), path) && contains(
                err.message(),
                source,
            ),
            ConfigErrorView::MissingEnv { var } => contains(err.message(), "${"@ + var + "}"@),
            ConfigErrorView::Duration { value } => contains(err.message(), debug_text(value)),
            ConfigErrorView::Invalid(reason) => contains(err.message(), reason),
        },
{
    match err {
        ConfigErrorView::Read { path, source } => {
            lemma_contains("could not read config at "@, path, ": "@ + source);
            assert("could not read config at "@ + path + (": "@ + source) =~= err.message());
            let front = "could not read config at "@ + path + ": "@;
            lemma_contains(front, source, seq![]);
            assert(front + source + Seq::<char>::empty() =~= err.message());
        },
        ConfigErrorView::Parse { path, source } => {
            lemma_contains("config at "@, path, " is not valid TOML: "@ + source);
            assert("config at "@ + path + (" is not valid TOML: "@ + source) =~= err.message());
            let front = "config at "@ + path + " is not valid TOML: "@;
            lemma_contains(front, source, seq![]);
            assert(front + source + Seq::<char>::empty() =~= err.message());
        },
        ConfigErrorView::MissingEnv { var } => {
            reveal_strlit("config references ${");
            reveal_strlit("config references ");
            reveal_strlit("${");
            reveal_strlit("}");
            reveal_strlit("} but that environment variable is not set");
            reveal_strlit(" but that environment variable is not set");
            let middle = "${"@ + var + "}"@;
            lemma_contains(
                "config references "@,
                middle,
                " but that environment variable is not set"@,
            );
            assert("config references "@ + middle + " but that environment variable is not set"@
                =~= err.message());
        },
        ConfigErrorView::Duration { value } => {
            lemma_contains(
                "invalid duration "@,
                debug_text(value),
                ": expected a form like \"30s\", \"1500ms\" or \"2m\""@,
            );
        },
        ConfigErrorView::Invalid(reason) => {
            lemma_contains("invalid configuration: "@, reason, seq![]);
            assert("invalid configuration: "@ + reason + Seq::<char>::empty() =~= err.message());
        },
    }
}

/// A message says what went wrong: the tool, the deadline, the backend and the reason;
/// what a tool itself says is passed on as it is.
pub proof fn lemma_tool_messages(err: ToolErrorView)
    ensures
        match err {
            ToolErrorView::InvalidArguments(m) => err.message() == m,
            ToolErrorView::Failed(m) => err.message() == m,
            ToolErrorView::Denied(m) => err.message() == m,
            ToolErrorView::NotFound(name) => contains(err.message(), debug_text(name)),
            ToolErrorView::Timeout { tool, seconds } => contains(err.message(), debug_text(tool))
                && contains(err.message(), decimal(seconds as nat) + "s"@),
            ToolErrorView::Unavailable { backend, reason } => contains(
                err.message(),
                debug_text(backend),
            ) && contains(err.message(), reason),
        },
{
    match err {
        ToolErrorView::NotFound(name) => lemma_contains(
            "tool "@,
            debug_text(name),
            " is not available; call `omni_status` to list active backends"@,
        ),
        ToolErrorView::Timeout { tool, seconds } => {
            reveal_strlit("s timeout");
            reveal_strlit("s");
            reveal_strlit(" timeout");
            let number = decimal(seconds as nat);
            let rest = " exceeded its "@ + number + "s timeout"@;
            lemma_contains(seq![], debug_text(tool), rest);
            assert(Seq::<char>::empty() + debug_text(tool) + rest =~= err.message());
            let front = debug_text(tool) + " exceeded its "@;
            lemma_contains(front, number + "s"@, " timeout"@);
            assert(front + (number + "s"@) + " timeout"@ =~= err.message());
        },
        ToolErrorView::Unavailable { backend, reason } => {
            let rest = " is unavailable: "@ + reason;
            lemma_contains("backend "@, debug_text(backend), rest);
            assert("backend "@ + debug_text(backend) + rest =~= err.message());
            let front = "backend "@ + debug_text(backend) + " is unavailable: "@;
            lemma_contains(front, reason, seq![]);
            assert(front + reason + Seq::<char>::empty() =~= err.message());
        },
        _ => {},
    }
}

/// The code of an error tells its kind: wrong parameters, an unknown method, a deadline
/// that passed, or anything else that went wrong inside.
pub proof fn lemma_error_codes(err: ToolErrorView)
    ensures
        err.rpc_code() == -32602 <==> err is InvalidArguments,
        err.rpc_code() == -32601 <==> err is NotFound,
        err.rpc_code() == -32000 <==> err is Timeout,
        err.rpc_code() == -32603 <==> err is Failed || err is Unavailable || err is Denied,
{
}

} // verus!
