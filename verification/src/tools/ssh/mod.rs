//! Native SSH tools: remote execution on configured servers.

pub mod session;

use vstd::prelude::*;

use super::args::{bool_arg, bool_or, opt_string, opt_string_arg, string, string_arg};
use super::context::{gate, ToolContext, ToolContextView, SSH_DENIED};
use super::schema::{property, property_schema, takes};
use crate::config::model::{SshServerConfig, SshServerConfigView};
use crate::error::{tool_result, ToolError, ToolErrorView, ToolResult};
use crate::json::{json_number, Json, JsonView};
use crate::pattern::{compiled, Pattern};
use crate::protocol::mcp::{
    empty_object_schema, empty_schema, CallToolResult, CallToolResultView, Tool, ToolView,
};
use crate::text::{cat3, cat5, debug, debug_text, opt_view, same, views};

verus! {

/// How large a compiled filter pattern may be.
pub const FILTER_SIZE_LIMIT: usize = 10485760;

/// What `ssh_execute` does.
pub const EXECUTE_DESCRIPTION: &'static str = "Execute a shell command on a configured SSH server and return stdout, stderr, and exit code. Access is denied unless `tools.allow_ssh = true` is set in omni-mcp.toml.";

/// What `ssh_list_servers` does.
pub const LIST_DESCRIPTION: &'static str = "List all configured SSH servers with connection status and verbose hardware/system telemetry (CPU, RAM, disk, GPU, OS, uptime, processes, services).";

/// What `server` of `ssh_execute` is.
pub const SERVER_DESCRIPTION: &'static str = "Server profile name from omni-mcp.toml (optional; defaults to first configured server)";

/// What `save_new_fingerprint` of `ssh_execute` does.
pub const SAVE_DESCRIPTION: &'static str = "Set to true to acknowledge and re-pin the host key when a fingerprint mismatch is detected";

/// The descriptor of `ssh_execute`.
pub open spec fn execute_tool() -> ToolView {
    ToolView::new(
        "ssh_execute"@,
        EXECUTE_DESCRIPTION@,
        JsonView::object().with("type"@, JsonView::Text("object"@)).with(
            "properties"@,
            JsonView::object().with(
                "cmd"@,
                property_schema("string"@, "Command to execute on the remote host"@),
            ).with(
                "cmdString"@,
                property_schema("string"@, "Alias for cmd (legacy compatibility)"@),
            ).with("server"@, property_schema("string"@, SERVER_DESCRIPTION@)).with(
                "save_new_fingerprint"@,
                property_schema("boolean"@, SAVE_DESCRIPTION@),
            ),
        ),
    )
}

/// The descriptor of `ssh_list_servers`.
pub open spec fn list_tool() -> ToolView {
    ToolView::new("ssh_list_servers"@, LIST_DESCRIPTION@, empty_schema())
}

fn execute_descriptor() -> (r: Tool)
    ensures
        r@ == execute_tool(),
{
    Tool::new(
        "ssh_execute",
        EXECUTE_DESCRIPTION,
        Json::object().with("type", Json::string("object")).with(
            "properties",
            Json::object().with(
                "cmd",
                property("string", "Command to execute on the remote host"),
            ).with(
                "cmdString",
                property("string", "Alias for cmd (legacy compatibility)"),
            ).with("server", property("string", SERVER_DESCRIPTION)).with(
                "save_new_fingerprint",
                property("boolean", SAVE_DESCRIPTION),
            ),
        ),
    )
}

fn list_descriptor() -> (r: Tool)
    ensures
        r@ == list_tool(),
{
    Tool::new("ssh_list_servers", LIST_DESCRIPTION, empty_object_schema())
}

/// The tools on configured SSH servers.
pub struct SshTools {
    servers: Vec<SshServerConfig>,
    default_server: Option<String>,
}

/// What [`SshTools`] know: the servers that are enabled, each name once, and the
/// first that was.
pub struct SshToolsView {
    pub servers: Seq<SshServerConfigView>,
    pub default_server: Option<Seq<char>>,
}

impl View for SshTools {
    type V = SshToolsView;

    closed spec fn view(&self) -> SshToolsView {
        SshToolsView {
            servers: views(self.servers@),
            default_server: opt_view(self.default_server),
        }
    }
}

/// The position from `i` on of the server that goes by a name.
pub open spec fn server_named(servers: Seq<SshServerConfigView>, name: Seq<char>, i: int) -> Option<
    int,
>
    decreases servers.len() - i,
{
    if i < 0 || i >= servers.len() {
        None
    } else if servers[i].name == name {
        Some(i)
    } else {
        server_named(servers, name, i + 1)
    }
}

/// The servers with one more, which takes the place of one of the same name.
pub open spec fn with_server(
    servers: Seq<SshServerConfigView>,
    config: SshServerConfigView,
) -> Seq<SshServerConfigView> {
    match server_named(servers, config.name, 0) {
        Some(i) => servers.update(i, config),
        None => servers.push(config),
    }
}

/// What the tools know of a list of configured servers.
pub open spec fn configured(configs: Seq<SshServerConfigView>) -> SshToolsView
    decreases configs.len(),
{
    if configs.len() == 0 {
        SshToolsView { servers: seq![], default_server: None }
    } else {
        let before = configured(configs.drop_last());
        let config = configs.last();
        if config.enabled {
            SshToolsView {
                servers: with_server(before.servers, config),
                default_server: match before.default_server {
                    Some(name) => Some(name),
                    None => Some(config.name),
                },
            }
        } else {
            before
        }
    }
}

impl SshToolsView {
    /// The server that a caller means: the one they name, or the first.
    pub open spec fn resolved(self, name: Option<Seq<char>>) -> Result<
        SshServerConfigView,
        ToolErrorView,
    > {
        let wanted = match name {
            Some(name) => Some(name),
            None => self.default_server,
        };
        match wanted {
            None => Err(ToolErrorView::InvalidArguments("no SSH servers configured"@)),
            Some(wanted) => match server_named(self.servers, wanted, 0) {
                Some(i) => Ok(self.servers[i]),
                None => Err(
                    ToolErrorView::NotFound(
                        "configured SSH server '"@ + wanted + "' not found"@,
                    ),
                ),
            },
        }
    }
}

/// Whether a pattern is a regular expression that matches a command.
pub open spec fn filter_matches(pattern: Seq<char>, command: Seq<char>) -> bool {
    match compiled(pattern, false, FILTER_SIZE_LIMIT as nat) {
        Ok(regex) => regex.matches(command),
        Err(_) => false,
    }
}

/// Whether one of the patterns matches a command.
pub open spec fn any_filter_matches(patterns: Seq<Seq<char>>, command: Seq<char>) -> bool {
    exists|i: int| 0 <= i < patterns.len() && filter_matches(#[trigger] patterns[i], command)
}

/// Whether a command may be run on a server: it matches the whitelist, where
/// there is one, and no pattern of the blacklist.
pub open spec fn command_allowed(config: SshServerConfigView, command: Seq<char>) -> Result<
    (),
    ToolErrorView,
> {
    command_judged(
        config,
        command,
        any_filter_matches(config.whitelist, command),
        any_filter_matches(config.blacklist, command),
    )
}

/// Whether a command may be run on a server, given whether a pattern of its
/// whitelist and one of its blacklist matches.
pub open spec fn command_judged(
    config: SshServerConfigView,
    command: Seq<char>,
    welcome: bool,
    banned: bool,
) -> Result<(), ToolErrorView> {
    if config.whitelist.len() > 0 && !welcome {
        Err(
            ToolErrorView::Denied(
                "command "@ + debug_text(command)
                    + " does not match any whitelist pattern for server '"@ + config.name + "'"@,
            ),
        )
    } else if banned {
        Err(
            ToolErrorView::Denied(
                "command "@ + debug_text(command)
                    + " is blocked by a blacklist pattern for server '"@ + config.name + "'"@,
            ),
        )
    } else {
        Ok(())
    }
}

/// A command that is to be run on a server.
pub struct ExecutePlan {
    pub command: String,
    pub server: String,
    pub save_new_fingerprint: bool,
}

/// What an [`ExecutePlan`] asks for.
pub struct ExecutePlanView {
    pub command: Seq<char>,
    pub server: Seq<char>,
    pub save_new_fingerprint: bool,
}

impl View for ExecutePlan {
    type V = ExecutePlanView;

    open spec fn view(&self) -> ExecutePlanView {
        ExecutePlanView {
            command: self.command@,
            server: self.server@,
            save_new_fingerprint: self.save_new_fingerprint,
        }
    }
}

/// The command that the arguments hold, under either of its names.
pub open spec fn requested_command(args: JsonView) -> Result<Seq<char>, ToolErrorView> {
    match opt_string_arg(args, "cmd"@) {
        Err(err) => Err(err),
        Ok(Some(command)) => Ok(command),
        Ok(None) => string_arg(args, "cmdString"@),
    }
}

impl SshToolsView {
    /// What a call of `ssh_execute` asks for; the permission comes first.
    pub open spec fn execution(self, args: JsonView, ctx: ToolContextView) -> Result<
        ExecutePlanView,
        ToolErrorView,
    > {
        match gate(ctx.policy.allow_ssh, SSH_DENIED@) {
            Err(err) => Err(err),
            Ok(_) => match requested_command(args) {
                Err(err) => Err(err),
                Ok(command) => match opt_string_arg(args, "server"@) {
                    Err(err) => Err(err),
                    Ok(name) => match bool_arg(args, "save_new_fingerprint"@, false) {
                        Err(err) => Err(err),
                        Ok(save) => match self.resolved(name) {
                            Err(err) => Err(err),
                            Ok(config) => match command_allowed(config, command) {
                                Err(err) => Err(err),
                                Ok(_) => Ok(
                                    ExecutePlanView {
                                        command,
                                        server: config.name,
                                        save_new_fingerprint: save,
                                    },
                                ),
                            },
                        },
                    },
                },
            },
        }
    }
}

/// Files that are to be moved to or from a server.
pub struct TransferPlan {
    pub server: String,
    pub save_new_fingerprint: bool,
}

/// What a [`TransferPlan`] asks for.
pub struct TransferPlanView {
    pub server: Seq<char>,
    pub save_new_fingerprint: bool,
}

impl View for TransferPlan {
    type V = TransferPlanView;

    open spec fn view(&self) -> TransferPlanView {
        TransferPlanView {
            server: self.server@,
            save_new_fingerprint: self.save_new_fingerprint,
        }
    }
}

impl SshToolsView {
    /// What a call of `ssh_transfer` asks for; the permission comes first.
    pub open spec fn transfer(self, args: JsonView, ctx: ToolContextView) -> Result<
        TransferPlanView,
        ToolErrorView,
    > {
        match gate(ctx.policy.allow_ssh, SSH_DENIED@) {
            Err(err) => Err(err),
            Ok(_) => match opt_string_arg(args, "server"@) {
                Err(err) => Err(err),
                Ok(name) => match bool_arg(args, "save_new_fingerprint"@, false) {
                    Err(err) => Err(err),
                    Ok(save) => match self.resolved(name) {
                        Err(err) => Err(err),
                        Ok(config) => Ok(
                            TransferPlanView { server: config.name, save_new_fingerprint: save },
                        ),
                    },
                },
            },
        }
    }
}

/// What a call asks for.
pub enum SshPlan {
    Execute(ExecutePlan),
    Transfer(TransferPlan),
    List,
}

/// What an [`SshPlan`] says.
pub enum SshPlanView {
    Execute(ExecutePlanView),
    Transfer(TransferPlanView),
    List,
}

impl View for SshPlan {
    type V = SshPlanView;

    open spec fn view(&self) -> SshPlanView {
        match self {
            SshPlan::Execute(plan) => SshPlanView::Execute(plan@),
            SshPlan::Transfer(plan) => SshPlanView::Transfer(plan@),
            SshPlan::List => SshPlanView::List,
        }
    }
}

impl SshToolsView {
    /// What a call asks for; the permission comes first.
    pub open spec fn planned(self, name: Seq<char>, args: JsonView, ctx: ToolContextView) -> Result<
        SshPlanView,
        ToolErrorView,
    > {
        match gate(ctx.policy.allow_ssh, SSH_DENIED@) {
            Err(err) => Err(err),
            Ok(_) => if name == "ssh_execute"@ {
                match self.execution(args, ctx) {
                    Ok(plan) => Ok(SshPlanView::Execute(plan)),
                    Err(err) => Err(err),
                }
            } else if name == "ssh_transfer"@ {
                match self.transfer(args, ctx) {
                    Ok(plan) => Ok(SshPlanView::Transfer(plan)),
                    Err(err) => Err(err),
                }
            } else if name == "ssh_list_servers"@ {
                Ok(SshPlanView::List)
            } else {
                Err(ToolErrorView::NotFound(name))
            },
        }
    }
}

fn position_named(servers: &Vec<SshServerConfig>, name: &str) -> (r: Option<usize>)
    ensures
        match r {
            Some(i) => i < servers@.len() && server_named(views(servers@), name@, 0) == Some(
                i as int,
            ),
            None => server_named(views(servers@), name@, 0) is None,
        },
{
    let ghost all = views(servers@);
    let mut i: usize = 0;
    while i < servers.len()
        invariant
            0 <= i <= servers@.len(),
            all == views(servers@),
            server_named(all, name@, 0) == server_named(all, name@, i as int),
        decreases servers@.len() - i,
    {
        assert(all[i as int] == servers@[i as int]@);
        if same(&servers[i].name, name) {
            return Some(i);
        }
        i += 1;
    }
    None
}

fn any_matches(patterns: &Vec<String>, command: &str) -> (r: bool)
    ensures
        r == any_filter_matches(views(patterns@), command@),
{
    let ghost all = views(patterns@);
    let mut i: usize = 0;
    while i < patterns.len()
        invariant
            0 <= i <= patterns@.len(),
            all == views(patterns@),
            forall|k: int| 0 <= k < i ==> !filter_matches(#[trigger] all[k], command@),
        decreases patterns@.len() - i,
    {
        assert(all[i as int] == patterns@[i as int]@);
        match Pattern::new(&patterns[i], false, FILTER_SIZE_LIMIT) {
            Ok(regex) => {
                if regex.matches(command) {
                    assert(filter_matches(all[i as int], command@));
                    return true;
                }
            },
            Err(_) => {},
        }
        i += 1;
    }
    false
}

/// What a command that ended is answered with.
pub open spec fn execution_result(stdout: Seq<char>, stderr: Seq<char>, code: u32) -> CallToolResultView {
    let report = CallToolResultView::structured(
        JsonView::object().with("stdout"@, JsonView::Text(stdout)).with(
            "stderr"@,
            JsonView::Text(stderr),
        ).with("exit_code"@, json_number(code as u64)),
    );
    if code == 0 {
        report
    } else {
        CallToolResultView { is_error: Some(true), ..report }
    }
}

/// Answers a call whose command ended.
pub fn report_execution(stdout: &str, stderr: &str, code: u32) -> (r: CallToolResult)
    ensures
        r@ == execution_result(stdout@, stderr@, code),
{
    let mut result = CallToolResult::structured(
        Json::object().with("stdout", Json::string(stdout)).with(
            "stderr",
            Json::string(stderr),
        ).with("exit_code", Json::number(code as u64)),
    );
    if code != 0 {
        result.is_error = Some(true);
    }
    result
}

/// What is known of a server beside its configuration.
pub struct ServerState {
    pub connected: bool,
    pub status: Option<Json>,
}

/// What a [`ServerState`] says.
pub struct ServerStateView {
    pub connected: bool,
    pub status: Option<JsonView>,
}

impl View for ServerState {
    type V = ServerStateView;

    open spec fn view(&self) -> ServerStateView {
        ServerStateView { connected: self.connected, status: opt_view(self.status) }
    }
}

/// One server as JSON.
pub open spec fn server_json(config: SshServerConfigView, state: ServerStateView) -> JsonView {
    JsonView::object().with("name"@, JsonView::Text(config.name)).with(
        "host"@,
        JsonView::Text(config.host),
    ).with("port"@, json_number(config.port as u64)).with(
        "username"@,
        JsonView::Text(config.user),
    ).with("connected"@, JsonView::Bool(state.connected)).with(
        "status"@,
        match state.status {
            Some(status) => status,
            None => JsonView::Null,
        },
    )
}

/// What stands for a server of which nothing is known.
pub open spec fn state_at(states: Seq<ServerStateView>, i: int) -> ServerStateView {
    if 0 <= i < states.len() {
        states[i]
    } else {
        ServerStateView { connected: false, status: None }
    }
}

/// The servers as JSON, each with what is known of it.
pub open spec fn servers_json(
    servers: Seq<SshServerConfigView>,
    states: Seq<ServerStateView>,
) -> JsonView {
    JsonView::Array(
        Seq::new(servers.len(), |i: int| server_json(servers[i], state_at(states, i))),
    )
}

impl SshTools {
    /// The tools on those of the servers that are enabled.
    pub fn new(configs: Vec<SshServerConfig>) -> (r: SshTools)
        ensures
            r@ == configured(views(configs@)),
    {
        let ghost all = views(configs@);
        let mut rest = configs;
        let mut servers: Vec<SshServerConfig> = Vec::new();
        let mut first: Option<String> = None;
        let ghost mut done: int = 0;
        assert(all.take(0) =~= seq![]);
        assert(views(servers@) =~= seq![]);
        assert(views(rest@) =~= all.skip(0));
        while rest.len() > 0
            invariant
                0 <= done <= all.len(),
                rest@.len() == all.len() - done,
                views(rest@) == all.skip(done),
                views(servers@) == configured(all.take(done)).servers,
                opt_view(first) == configured(all.take(done)).default_server,
            decreases rest@.len(),
        {
            let ghost prior = rest@;
            let config = rest.remove(0);
            proof {
                assert(views(prior)[0] == config@);
                assert(all.skip(done)[0] == all[done]);
                assert(all.take(done + 1).drop_last() =~= all.take(done));
                assert(all.take(done + 1).last() == config@);
                assert(views(rest@) =~= all.skip(done + 1)) by {
                    assert forall|k: int| 0 <= k < rest@.len() implies views(rest@)[k] == all.skip(
                        done + 1,
                    )[k] by {
                        assert(rest@[k] == prior[k + 1]);
                        assert(views(prior)[k + 1] == all.skip(done)[k + 1]);
                    }
                }
            }
            if config.enabled {
                if first.is_none() {
                    first = Some(config.name.clone());
                }
                let ghost before = servers@;
                match position_named(&servers, &config.name) {
                    Some(i) => {
                        servers.set(i, config);
                        assert(views(servers@) =~= views(before).update(i as int, config@));
                    },
                    None => {
                        servers.push(config);
                        assert(views(servers@) =~= views(before).push(config@));
                    },
                }
            }
            proof {
                done = done + 1;
            }
        }
        assert(all.take(done) =~= all);
        SshTools { servers, default_server: first }
    }

    /// The servers that are known.
    pub fn servers(&self) -> (r: &Vec<SshServerConfig>)
        ensures
            views(r@) == self@.servers,
    {
        &self.servers
    }

    /// The server that a caller means.
    pub fn resolve_server(&self, name: Option<&str>) -> (r: ToolResult<&SshServerConfig>)
        ensures
            match r {
                Ok(config) => self@.resolved(
                    match name {
                        Some(name) => Some(name@),
                        None => None,
                    },
                ) == Ok::<SshServerConfigView, ToolErrorView>(config@),
                Err(err) => self@.resolved(
                    match name {
                        Some(name) => Some(name@),
                        None => None,
                    },
                ) == Err::<SshServerConfigView, ToolErrorView>(err@),
            },
    {
        let wanted: &str = match name {
            Some(name) => name,
            None => match &self.default_server {
                Some(name) => name.as_str(),
                None => {
                    return Err(
                        ToolError::InvalidArguments("no SSH servers configured".to_owned()),
                    );
                },
            },
        };
        match position_named(&self.servers, wanted) {
            Some(i) => Ok(&self.servers[i]),
            None => Err(
                ToolError::NotFound(cat3("configured SSH server '", wanted, "' not found")),
            ),
        }
    }

    /// Whether a command may be run on a server.
    pub fn validate_command(config: &SshServerConfig, command: &str) -> (r: ToolResult<()>)
        ensures
            tool_result(r) == command_allowed(config@, command@),
    {
        let welcome = any_matches(&config.whitelist, command);
        let banned = any_matches(&config.blacklist, command);
        SshTools::judge_command(config, command, welcome, banned)
    }

    /// Whether a command may be run on a server, given whether a pattern of its
    /// whitelist and one of its blacklist matches.
    pub fn judge_command(
        config: &SshServerConfig,
        command: &str,
        welcome: bool,
        banned: bool,
    ) -> (r: ToolResult<()>)
        ensures
            tool_result(r) == command_judged(config@, command@, welcome, banned),
    {
        if config.whitelist.len() > 0 && !welcome {
            return Err(
                ToolError::Denied(
                    cat5(
                        "command ",
                        &debug(command),
                        " does not match any whitelist pattern for server '",
                        &config.name,
                        "'",
                    ),
                ),
            );
        }
        if banned {
            return Err(
                ToolError::Denied(
                    cat5(
                        "command ",
                        &debug(command),
                        " is blocked by a blacklist pattern for server '",
                        &config.name,
                        "'",
                    ),
                ),
            );
        }
        Ok(())
    }

    /// What the group advertises.
    pub fn descriptors(&self) -> (r: Vec<Tool>)
        ensures
            views(r@) == seq![execute_tool(), list_tool()],
    {
        let tools: Vec<Tool> = vec![execute_descriptor(), list_descriptor()];
        assert(views(tools@) =~= seq![execute_tool(), list_tool()]);
        tools
    }

    /// Reads what a call of `ssh_execute` asks for.
    pub fn plan_execute(&self, args: &Json, ctx: &ToolContext) -> (r: ToolResult<ExecutePlan>)
        ensures
            tool_result(r) == self@.execution(args@, ctx@),
    {
        match ctx.require_ssh() {
            Ok(_) => {},
            Err(err) => return Err(err),
        }
        let command = match opt_string(args, "cmd") {
            Ok(Some(command)) => command,
            Ok(None) => match string(args, "cmdString") {
                Ok(command) => command,
                Err(err) => return Err(err),
            },
            Err(err) => return Err(err),
        };
        let server = match opt_string(args, "server") {
            Ok(server) => server,
            Err(err) => return Err(err),
        };
        let save_new_fingerprint: bool = match bool_or(args, "save_new_fingerprint", false) {
            Ok(save) => save,
            Err(err) => return Err(err),
        };
        let named: Option<&str> = match &server {
            Some(name) => Some(name.as_str()),
            None => None,
        };
        let config = match self.resolve_server(named) {
            Ok(config) => config,
            Err(err) => return Err(err),
        };
        match SshTools::validate_command(config, &command) {
            Ok(_) => {},
            Err(err) => return Err(err),
        }
        Ok(ExecutePlan { command, server: config.name.clone(), save_new_fingerprint })
    }

    /// Reads what a call of `ssh_transfer` asks for.
    pub fn plan_transfer(&self, args: &Json, ctx: &ToolContext) -> (r: ToolResult<TransferPlan>)
        ensures
            tool_result(r) == self@.transfer(args@, ctx@),
    {
        match ctx.require_ssh() {
            Ok(_) => {},
            Err(err) => return Err(err),
        }
        let server = match opt_string(args, "server") {
            Ok(server) => server,
            Err(err) => return Err(err),
        };
        let save_new_fingerprint: bool = match bool_or(args, "save_new_fingerprint", false) {
            Ok(save) => save,
            Err(err) => return Err(err),
        };
        let named: Option<&str> = match &server {
            Some(name) => Some(name.as_str()),
            None => None,
        };
        match self.resolve_server(named) {
            Ok(config) => Ok(
                TransferPlan { server: config.name.clone(), save_new_fingerprint },
            ),
            Err(err) => Err(err),
        }
    }

    /// Reads what a call asks for; the permission comes first.
    pub fn call(&self, name: &str, args: &Json, ctx: &ToolContext) -> (r: ToolResult<SshPlan>)
        ensures
            tool_result(r) == self@.planned(name@, args@, ctx@),
    {
        match ctx.require_ssh() {
            Ok(_) => {},
            Err(err) => return Err(err),
        }
        if same(name, "ssh_execute") {
            match self.plan_execute(args, ctx) {
                Ok(plan) => Ok(SshPlan::Execute(plan)),
                Err(err) => Err(err),
            }
        } else if same(name, "ssh_transfer") {
            match self.plan_transfer(args, ctx) {
                Ok(plan) => Ok(SshPlan::Transfer(plan)),
                Err(err) => Err(err),
            }
        } else if same(name, "ssh_list_servers") {
            Ok(SshPlan::List)
        } else {
            Err(ToolError::NotFound(name.to_owned()))
        }
    }

    /// Lists the servers. `states` says, server by server, what is known of it.
    pub fn list_servers(&self, states: &Vec<ServerState>) -> (r: CallToolResult)
        ensures
            r@ == CallToolResultView::structured(servers_json(self@.servers, views(states@))),
    {
        let ghost all = views(self.servers@);
        let ghost known = views(states@);
        let mut items: Vec<Json> = Vec::new();
        let mut i: usize = 0;
        while i < self.servers.len()
            invariant
                0 <= i <= self.servers@.len(),
                all == views(self.servers@),
                known == views(states@),
                items@.len() == i,
                forall|k: int|
                    0 <= k < i ==> (#[trigger] items@[k])@ == server_json(
                        all[k],
                        state_at(known, k),
                    ),
            decreases self.servers@.len() - i,
        {
            let config = &self.servers[i];
            assert(all[i as int] == config@);
            let mut connected: bool = false;
            let mut status = Json::Null;
            if i < states.len() {
                assert(known[i as int] == states@[i as int]@);
                connected = states[i].connected;
                match &states[i].status {
                    Some(value) => {
                        status = value.dup();
                    },
                    None => {},
                }
            }
            items.push(
                Json::object().with("name", Json::string(&config.name)).with(
                    "host",
                    Json::string(&config.host),
                ).with("port", Json::number(config.port as u64)).with(
                    "username",
                    Json::string(&config.user),
                ).with("connected", Json::Bool(connected)).with("status", status),
            );
            i += 1;
        }
        assert(views(items@) =~= Seq::new(
            all.len(),
            |i: int| server_json(all[i], state_at(known, i)),
        ));
        CallToolResult::structured(Json::array(items))
    }
}

// ---------------------------------------------------------------------------
// Laws

/// Nothing is run over SSH unless the operator enabled it, whatever the
/// arguments.
pub proof fn lemma_ssh_denied(tools: SshToolsView, args: JsonView, ctx: ToolContextView)
    requires
        !ctx.policy.allow_ssh,
    ensures
        tools.execution(args, ctx) == Err::<ExecutePlanView, ToolErrorView>(
            ToolErrorView::Denied(SSH_DENIED@),
        ),
{
}

/// A command that matches a pattern of the blacklist is never run, and with a
/// whitelist only one that matches it is.
pub proof fn lemma_filters_hold(
    tools: SshToolsView,
    args: JsonView,
    ctx: ToolContextView,
    name: Option<Seq<char>>,
)
    requires
        tools.execution(args, ctx) is Ok,
        opt_string_arg(args, "server"@) == Ok::<Option<Seq<char>>, ToolErrorView>(name),
    ensures
        tools.resolved(name) matches Ok(config) && !any_filter_matches(
            config.blacklist,
            tools.execution(args, ctx)->Ok_0.command,
        ) && (config.whitelist.len() > 0 ==> any_filter_matches(
            config.whitelist,
            tools.execution(args, ctx)->Ok_0.command,
        )),
{
}

/// The position that is found is one at which the name stands; where none is
/// found, it stands nowhere.
pub proof fn lemma_server_named(servers: Seq<SshServerConfigView>, name: Seq<char>, i: int)
    requires
        0 <= i,
    ensures
        match server_named(servers, name, i) {
            Some(k) => i <= k < servers.len() && servers[k].name == name,
            None => forall|k: int| i <= k < servers.len() ==> (#[trigger] servers[k]).name != name,
        },
    decreases servers.len() - i,
{
    if i < servers.len() && servers[i].name != name {
        lemma_server_named(servers, name, i + 1);
    }
}

/// Only servers that are enabled are known, and the one that is meant where
/// none is named is one of them.
pub proof fn lemma_only_enabled_servers(configs: Seq<SshServerConfigView>)
    ensures
        forall|i: int|
            0 <= i < configured(configs).servers.len() ==> (#[trigger] configured(
                configs,
            ).servers[i]).enabled,
        configured(configs).default_server is Some <==> configured(configs).servers.len() > 0,
        configured(configs).default_server is Some ==> configured(configs).resolved(None) is Ok,
    decreases configs.len(),
{
    if configs.len() > 0 {
        let before = configured(configs.drop_last());
        let after = configured(configs);
        lemma_only_enabled_servers(configs.drop_last());
        let config = configs.last();
        if config.enabled {
            lemma_server_named(before.servers, config.name, 0);
            match after.default_server {
                Some(name) => {
                    lemma_server_named(before.servers, name, 0);
                    lemma_server_named(after.servers, name, 0);
                    match before.default_server {
                        Some(first) => {
                            let k = server_named(before.servers, first, 0)->0;
                            assert(after.servers[k].name == first);
                        },
                        None => {
                            assert(after.servers.last().name == config.name);
                        },
                    }
                },
                None => {},
            }
        }
    }
}

/// Whether an entry is the one that counts for its name: it is switched on, and no
/// later one of that name is.
pub open spec fn counts(configs: Seq<SshServerConfigView>, i: int) -> bool {
    &&& 0 <= i < configs.len()
    &&& configs[i].enabled
    &&& forall|j: int|
        i < j < configs.len() && (#[trigger] configs[j]).enabled ==> configs[j].name
            != configs[i].name
}

/// Whether an entry is the first that is switched on.
pub open spec fn comes_first(configs: Seq<SshServerConfigView>, i: int) -> bool {
    &&& 0 <= i < configs.len()
    &&& configs[i].enabled
    &&& forall|j: int| 0 <= j < i ==> !(#[trigger] configs[j]).enabled
}

/// The servers that can be reached are those that count, one for each name, and the
/// default is the first that is switched on.
pub proof fn lemma_servers_that_count(configs: Seq<SshServerConfigView>)
    ensures
        ({
            let tools = configured(configs);
            &&& forall|k: int|
                0 <= k < tools.servers.len() ==> exists|i: int| #[trigger]
                    counts(configs, i) && configs[i] == #[trigger] tools.servers[k]
            &&& forall|i: int| #[trigger]
                counts(configs, i) ==> tools.servers.contains(configs[i])
            &&& forall|j: int, k: int|
                0 <= j < k < tools.servers.len() ==> (#[trigger] tools.servers[j]).name != (
                #[trigger] tools.servers[k]).name
            &&& match tools.default_server {
                Some(name) => exists|i: int| #[trigger]
                    comes_first(configs, i) && configs[i].name == name,
                None => forall|i: int| 0 <= i < configs.len() ==> !(#[trigger] configs[i]).enabled,
            }
        }),
    decreases configs.len(),
{
    let tools = configured(configs);
    if configs.len() > 0 {
        let front = configs.drop_last();
        let before = configured(front);
        let config = configs.last();
        let end = configs.len() - 1;
        assert(configs[end] == config);
        assert(forall|i: int| 0 <= i < end ==> #[trigger] configs[i] == front[i]);
        lemma_servers_that_count(front);
        lemma_server_named(before.servers, config.name, 0);
        let place = server_named(before.servers, config.name, 0);
        assert forall|k: int| 0 <= k < tools.servers.len() implies exists|i: int| #[trigger]
            counts(configs, i) && configs[i] == #[trigger] tools.servers[k] by {
            let server = tools.servers[k];
            if config.enabled && server.name == config.name {
                if place is Some && k != place->0 {
                    assert(before.servers[k].name == before.servers[place->0].name);
                }
                assert(server == config);
                assert(counts(configs, end));
            } else {
                assert(server == before.servers[k]);
                let i = choose|i: int| #[trigger]
                    counts(front, i) && front[i] == before.servers[k];
                assert(configs[i] == front[i]);
                assert(counts(configs, i));
            }
        }
        assert forall|i: int| #[trigger] counts(configs, i) implies tools.servers.contains(
            configs[i],
        ) by {
            if i == end {
                match place {
                    Some(p) => assert(tools.servers[p] == config),
                    None => assert(tools.servers[tools.servers.len() - 1] == config),
                }
            } else {
                assert forall|j: int|
                    i < j < front.len() && (#[trigger] front[j]).enabled implies front[j].name
                    != front[i].name by {
                    assert(configs[j] == front[j]);
                }
                assert(counts(front, i));
                let k = choose|k: int| 0 <= k < before.servers.len() && before.servers[k] == front[i];
                if config.enabled {
                    assert(configs[end].name != configs[i].name);
                }
                assert(tools.servers[k] == before.servers[k]);
            }
        }
        match tools.default_server {
            Some(name) => {
                match before.default_server {
                    Some(_) => {
                        let i = choose|i: int| #[trigger]
                            comes_first(front, i) && front[i].name == name;
                        assert(configs[i] == front[i]);
                        assert(comes_first(configs, i));
                    },
                    None => {
                        assert(comes_first(configs, end));
                    },
                }
            },
            None => {},
        }
    }
}

/// A server is found by its name, and the default where no name is given; a name that
/// nothing has is not found.
pub proof fn lemma_servers_are_found(tools: SshToolsView, name: Seq<char>)
    ensures
        match tools.resolved(Some(name)) {
            Ok(config) => config.name == name && tools.servers.contains(config),
            Err(err) => err is NotFound && forall|k: int|
                0 <= k < tools.servers.len() ==> (#[trigger] tools.servers[k]).name != name,
        },
        tools.default_server is None ==> (tools.resolved(None) matches Err(err)
            && err is InvalidArguments),
        tools.default_server matches Some(default) ==> tools.resolved(None) == tools.resolved(
            Some(default),
        ),
{
    lemma_server_named(tools.servers, name, 0);
    match server_named(tools.servers, name, 0) {
        Some(i) => assert(tools.servers[i].name == name),
        None => {},
    }
}

/// A command may be run where a pattern of the list of those that are welcome matches
/// it, or that list is empty, and no pattern of the list of those that are banned does;
/// otherwise it is denied.
pub proof fn lemma_commands_are_filtered(config: SshServerConfigView, command: Seq<char>)
    ensures
        match command_allowed(config, command) {
            Ok(_) => {
                &&& config.whitelist.len() == 0 || exists|i: int|
                    0 <= i < config.whitelist.len() && filter_matches(
                        #[trigger] config.whitelist[i],
                        command,
                    )
                &&& forall|i: int|
                    0 <= i < config.blacklist.len() ==> !filter_matches(
                        #[trigger] config.blacklist[i],
                        command,
                    )
            },
            Err(err) => {
                &&& err is Denied
                &&& {
                    ||| config.whitelist.len() > 0 && forall|i: int|
                        0 <= i < config.whitelist.len() ==> !filter_matches(
                            #[trigger] config.whitelist[i],
                            command,
                        )
                    ||| exists|i: int|
                        0 <= i < config.blacklist.len() && filter_matches(
                            #[trigger] config.blacklist[i],
                            command,
                        )
                }
            },
        },
{
}

/// A command is run as it is given, on the server that is asked for, and only where
/// that is allowed; a changed key is accepted only where that is asked for.
pub proof fn lemma_executions_follow_the_call(
    tools: SshToolsView,
    args: JsonView,
    ctx: ToolContextView,
)
    ensures
        tools.execution(args, ctx) matches Ok(plan) ==> {
            &&& ctx.policy.allow_ssh
            &&& match args.field("cmd"@) {
                Some(JsonView::Text(command)) => plan.command == command,
                Some(JsonView::Null) => args.field("cmdString"@) == Some(
                    JsonView::Text(plan.command),
                ),
                None => args.field("cmdString"@) == Some(JsonView::Text(plan.command)),
                Some(_) => false,
            }
            &&& tools.resolved(
                match args.field("server"@) {
                    Some(JsonView::Text(name)) => Some(name),
                    _ => None,
                },
            ) matches Ok(config) && config.name == plan.server && command_allowed(
                config,
                plan.command,
            ) is Ok
            &&& plan.save_new_fingerprint <==> args.field("save_new_fingerprint"@) == Some(
                JsonView::Bool(true),
            )
        },
        tools.transfer(args, ctx) matches Ok(plan) ==> {
            &&& ctx.policy.allow_ssh
            &&& tools.resolved(
                match args.field("server"@) {
                    Some(JsonView::Text(name)) => Some(name),
                    _ => None,
                },
            ) matches Ok(config) && config.name == plan.server
            &&& plan.save_new_fingerprint <==> args.field("save_new_fingerprint"@) == Some(
                JsonView::Bool(true),
            )
        },
{
}

/// A command that is allowed, on a server that is there, is run.
pub proof fn lemma_allowed_commands_run(
    tools: SshToolsView,
    args: JsonView,
    ctx: ToolContextView,
    command: Seq<char>,
)
    requires
        ctx.policy.allow_ssh,
        args.field("cmd"@) == Some(JsonView::Text(command)),
        args.field("save_new_fingerprint"@) is None,
        args.field("server"@) matches Some(JsonView::Text(name)) && (tools.resolved(
            Some(name),
        ) matches Ok(config) && command_allowed(config, command) is Ok),
    ensures
        tools.execution(args, ctx) is Ok,
        tools.transfer(args, ctx) is Ok,
{
}

/// Each of the tools is answered by its own plan, and any other name by none; without
/// permission every one of them is denied.
pub proof fn lemma_ssh_plans(
    tools: SshToolsView,
    name: Seq<char>,
    args: JsonView,
    ctx: ToolContextView,
)
    ensures
        match tools.planned(name, args, ctx) {
            Ok(SshPlanView::Execute(plan)) => name == "ssh_execute"@ && tools.execution(args, ctx)
                == Ok::<ExecutePlanView, ToolErrorView>(plan),
            Ok(SshPlanView::Transfer(plan)) => name == "ssh_transfer"@ && tools.transfer(args, ctx)
                == Ok::<TransferPlanView, ToolErrorView>(plan),
            Ok(SshPlanView::List) => name == "ssh_list_servers"@,
            Err(err) => name == "ssh_list_servers"@ ==> err is Denied,
        },
        !ctx.policy.allow_ssh ==> (tools.planned(name, args, ctx) matches Err(err)
            && err is Denied),
        ctx.policy.allow_ssh && name != "ssh_execute"@ && name != "ssh_transfer"@ && name
            != "ssh_list_servers"@ ==> tools.planned(name, args, ctx) == Err::<
            SshPlanView,
            ToolErrorView,
        >(ToolErrorView::NotFound(name)),
{
    reveal_strlit("ssh_execute");
    reveal_strlit("ssh_transfer");
    reveal_strlit("ssh_list_servers");
    assert("ssh_execute"@.len() == 11);
    assert("ssh_transfer"@.len() == 12);
    assert("ssh_list_servers"@.len() == 16);
}

/// The report of a command says what it printed and how it ended, and is flagged where
/// that was not well.
pub proof fn lemma_execution_report(stdout: Seq<char>, stderr: Seq<char>, code: u32)
    ensures
        execution_result(stdout, stderr, code).structured_content matches Some(report) && {
            &&& report.field("stdout"@) == Some(JsonView::Text(stdout))
            &&& report.field("stderr"@) == Some(JsonView::Text(stderr))
            &&& report.field("exit_code"@) == Some(json_number(code as u64))
            &&& execution_result(stdout, stderr, code).content == CallToolResultView::structured(
                report,
            ).content
        },
        execution_result(stdout, stderr, code).is_failure() <==> code != 0,
        code == 0 ==> execution_result(stdout, stderr, code).is_error is None,
{
    reveal_strlit("stdout");
    reveal_strlit("stderr");
    reveal_strlit("exit_code");
    assert("stdout"@.len() == 6);
    assert("stderr"@.len() == 6);
    assert("exit_code"@.len() == 9);
    assert("stdout"@[3] == 'o');
    assert("stderr"@[3] == 'e');
}

/// The list shows every server in order, with where it is, who logs in and how it
/// stands, and nothing else of its configuration.
pub proof fn lemma_server_list(
    servers: Seq<SshServerConfigView>,
    states: Seq<ServerStateView>,
    i: int,
    key: Seq<char>,
)
    requires
        0 <= i < servers.len(),
    ensures
        servers_json(servers, states) matches JsonView::Array(items) && items.len() == servers.len()
            && {
            &&& items[i].field("name"@) == Some(JsonView::Text(servers[i].name))
            &&& items[i].field("host"@) == Some(JsonView::Text(servers[i].host))
            &&& items[i].field("port"@) == Some(json_number(servers[i].port as u64))
            &&& items[i].field("username"@) == Some(JsonView::Text(servers[i].user))
            &&& i < states.len() ==> items[i].field("connected"@) == Some(
                JsonView::Bool(states[i].connected),
            ) && items[i].field("status"@) == Some(
                match states[i].status {
                    Some(status) => status,
                    None => JsonView::Null,
                },
            )
            &&& i >= states.len() ==> items[i].field("connected"@) == Some(JsonView::Bool(false))
                && items[i].field("status"@) == Some(JsonView::Null)
            &&& key != "name"@ && key != "host"@ && key != "port"@ && key != "username"@ && key
                != "connected"@ && key != "status"@ ==> items[i].field(key) is None
        },
{
    reveal_strlit("name");
    reveal_strlit("host");
    reveal_strlit("port");
    reveal_strlit("username");
    reveal_strlit("connected");
    reveal_strlit("status");
    assert("name"@.len() == 4);
    assert("host"@.len() == 4);
    assert("port"@.len() == 4);
    assert("username"@.len() == 8);
    assert("connected"@.len() == 9);
    assert("status"@.len() == 6);
    assert("name"@[0] == 'n');
    assert("host"@[0] == 'h');
    assert("port"@[0] == 'p');
}

/// What the two tools take: a command under either of two names, a server and a
/// consent for the one, and nothing for the other.
pub proof fn lemma_ssh_schemas()
    ensures
        execute_tool().name == "ssh_execute"@,
        execute_tool().input_schema.field("type"@) == Some(JsonView::Text("object"@)),
        takes(execute_tool().input_schema, "cmd"@, "string"@),
        takes(execute_tool().input_schema, "cmdString"@, "string"@),
        takes(execute_tool().input_schema, "server"@, "string"@),
        takes(execute_tool().input_schema, "save_new_fingerprint"@, "boolean"@),
        execute_tool().input_schema.field("required"@) is None,
        list_tool().name == "ssh_list_servers"@,
        list_tool().input_schema.field("properties"@) == Some(JsonView::object()),
{
    reveal_strlit("type");
    reveal_strlit("properties");
    reveal_strlit("required");
    reveal_strlit("description");
    reveal_strlit("cmd");
    reveal_strlit("cmdString");
    reveal_strlit("server");
    reveal_strlit("save_new_fingerprint");
    assert("type"@.len() == 4);
    assert("properties"@.len() == 10);
    assert("required"@.len() == 8);
    assert("description"@.len() == 11);
    assert("cmd"@.len() == 3);
    assert("cmdString"@.len() == 9);
    assert("server"@.len() == 6);
    assert("save_new_fingerprint"@.len() == 20);
}

/// A pattern matches a command where it can be compiled and then does; one that cannot
/// be compiled matches none.
pub proof fn lemma_filters(pattern: Seq<char>, command: Seq<char>)
    ensures
        match compiled(pattern, false, FILTER_SIZE_LIMIT as nat) {
            Ok(regex) => filter_matches(pattern, command) == regex.matches(command),
            Err(_) => !filter_matches(pattern, command),
        },
{
}

} // verus!
