//! Command-line interface.

use vstd::prelude::*;

use crate::text::{chars_of, opt_view};
use crate::tools::path::{join_path, path_in};

verus! {

/// What the gateway is asked to do.
#[derive(Debug, PartialEq)]
pub enum Command {
    /// Serve MCP over stdin/stdout. This is what an IDE launches. (Default.)
    Stdio,
    /// Serve MCP over HTTP.
    Serve {
        /// Address to bind. Overrides server.host and server.port.
        bind: Option<String>,
        /// Start without a bearer token. Every tool, including code execution,
        /// becomes reachable by any local process.
        allow_unauthenticated: bool,
    },
    /// Load the configuration, report what it resolves to, and exit.
    Check,
    /// List every tool the gateway would advertise, then exit.
    Tools {
        /// Emit JSON instead of a table.
        json: bool,
    },
}

/// What a [`Command`] says.
pub enum CommandView {
    Stdio,
    Serve { bind: Option<Seq<char>>, allow_unauthenticated: bool },
    Check,
    Tools { json: bool },
}

impl View for Command {
    type V = CommandView;

    open spec fn view(&self) -> CommandView {
        match self {
            Command::Stdio => CommandView::Stdio,
            Command::Serve { bind, allow_unauthenticated } => CommandView::Serve {
                bind: opt_view(*bind),
                allow_unauthenticated: *allow_unauthenticated,
            },
            Command::Check => CommandView::Check,
            Command::Tools { json } => CommandView::Tools { json: *json },
        }
    }
}

/// Consolidated MCP gateway: native tools, supervised sidecars and HTTP proxies
/// behind a single process.
#[derive(Debug, PartialEq)]
pub struct Cli {
    /// Path to omni-mcp.toml.
    pub config: Option<String>,
    /// Log verbosity. Overrides `RUST_LOG`.
    pub log: Option<String>,
    /// Deprecated alias for the `stdio` subcommand, kept so existing IDE
    /// configurations (`"args": ["--stdio"]`) keep working.
    pub stdio: bool,
    pub command: Option<Command>,
}

/// What a [`Cli`] says.
pub struct CliView {
    pub config: Option<Seq<char>>,
    pub log: Option<Seq<char>>,
    pub stdio: bool,
    pub command: Option<CommandView>,
}

impl View for Cli {
    type V = CliView;

    open spec fn view(&self) -> CliView {
        CliView {
            config: opt_view(self.config),
            log: opt_view(self.log),
            stdio: self.stdio,
            command: opt_view(self.command),
        }
    }
}

impl CliView {
    /// The command that is to be run.
    pub open spec fn chosen(self) -> CommandView {
        if self.stdio {
            CommandView::Stdio
        } else {
            match self.command {
                Some(command) => command,
                None => CommandView::Stdio,
            }
        }
    }
}

/// The directory of a user's configuration: `$XDG_CONFIG_HOME`, else
/// `$HOME/.config`.
pub open spec fn config_home(xdg: Option<Seq<char>>, home: Option<Seq<char>>) -> Option<Seq<char>> {
    match xdg {
        Some(dir) if dir.len() > 0 => Some(dir),
        _ => match home {
            Some(dir) => Some(path_in(dir, ".config"@)),
            None => None,
        },
    }
}

/// Where the configuration is looked for.
pub open spec fn config_location(
    given: Option<Seq<char>>,
    local_exists: bool,
    xdg: Option<Seq<char>>,
    home: Option<Seq<char>>,
) -> Seq<char> {
    match given {
        Some(path) => path,
        None => if local_exists {
            "omni-mcp.toml"@
        } else {
            match config_home(xdg, home) {
                Some(dir) => path_in(dir, "omni-mcp/omni-mcp.toml"@),
                None => "omni-mcp.toml"@,
            }
        },
    }
}

fn dirs_config_home(xdg: &Option<String>, home: &Option<String>) -> (r: Option<String>)
    ensures
        opt_view(r) == config_home(opt_view(*xdg), opt_view(*home)),
{
    match xdg {
        Some(dir) => {
            if chars_of(dir).len() > 0 {
                return Some(dir.clone());
            }
        },
        None => {},
    }
    match home {
        Some(dir) => Some(join_path(dir, ".config")),
        None => None,
    }
}

impl Cli {
    /// Where to look for configuration when `--config` was not given:
    /// `omni-mcp.toml` where it exists, else in the user's configuration
    /// directory. `xdg` and `home` are the variables that tell where that is.
    pub fn config_path(&self, local_exists: bool, xdg: &Option<String>, home: &Option<String>) -> (r:
        String)
        ensures
            r@ == config_location(self@.config, local_exists, opt_view(*xdg), opt_view(*home)),
    {
        match &self.config {
            Some(path) => path.clone(),
            None => {
                if local_exists {
                    return "omni-mcp.toml".to_owned();
                }
                match dirs_config_home(xdg, home) {
                    Some(dir) => join_path(&dir, "omni-mcp/omni-mcp.toml"),
                    None => "omni-mcp.toml".to_owned(),
                }
            },
        }
    }

    /// The command that is to be run.
    pub fn command(&self) -> (r: &Command)
        ensures
            r@ == self@.chosen(),
    {
        if self.stdio {
            return &Command::Stdio;
        }
        match &self.command {
            Some(command) => command,
            None => &Command::Stdio,
        }
    }
}

/// The command is the default one exactly where none is named, or where the
/// alias for it is given, whatever is named.
pub proof fn lemma_stdio_is_the_default(cli: CliView)
    ensures
        cli.stdio || cli.command is None ==> cli.chosen() is Stdio,
        !cli.stdio && cli.command is Some ==> cli.chosen() == cli.command->0,
{
}

/// The configuration is the one that is named; without one it is the one at hand, and
/// else the one in the user's directory, which the first variable gives and, where it
/// is not set, the second. Where nothing tells that directory, it is the one at hand
/// again.
pub proof fn lemma_where_to_look(
    given: Option<Seq<char>>,
    local_exists: bool,
    xdg: Option<Seq<char>>,
    home: Option<Seq<char>>,
)
    ensures
        given matches Some(path) ==> config_location(given, local_exists, xdg, home) == path,
        given is None && local_exists ==> config_location(given, local_exists, xdg, home)
            == "omni-mcp.toml"@,
        given is None && !local_exists ==> {
            &&& xdg matches Some(dir) ==> (dir.len() > 0 ==> config_location(
                given,
                local_exists,
                xdg,
                home,
            ) == path_in(dir, "omni-mcp/omni-mcp.toml"@))
            &&& xdg is None || xdg->0.len() == 0 ==> {
                &&& home matches Some(dir) ==> config_location(given, local_exists, xdg, home)
                    == path_in(path_in(dir, ".config"@), "omni-mcp/omni-mcp.toml"@)
                &&& home is None ==> config_location(given, local_exists, xdg, home)
                    == "omni-mcp.toml"@
            }
        },
{
}

} // verus!
