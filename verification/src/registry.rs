//! A registry of tool modules behind one JSON-RPC endpoint, with remote servers
//! to fall back on.

use vstd::prelude::*;

use crate::backend::proxy::{call_params, make_call_params, read_tool_list, tool_list};
use crate::config::model::{Config, ConfigView, ProxyConfigView, SidecarConfigView};
use crate::json::{parse_view, parsed_json, Json, JsonView};
use crate::protocol::code;
use crate::protocol::jsonrpc::{
    Request, RequestView, Response, ResponseView, decoded_request, decoded_response,
};
use crate::protocol::mcp::{
    empty_object_schema, empty_schema, CallToolResult, CallToolResultView, Tool, ToolView,
};
use crate::text::{
    cat2, cat3, cat4, contains, decimal, decimal_text, join, joined, lemma_contains, opt_view, same,
    views,
};

verus! {

/// A module that is registered: its name and what it advertises.
pub struct ModuleEntry {
    pub name: String,
    pub tools: Vec<Tool>,
}

/// What a [`ModuleEntry`] says.
pub struct ModuleEntryView {
    pub name: Seq<char>,
    pub tools: Seq<ToolView>,
}

impl View for ModuleEntry {
    type V = ModuleEntryView;

    open spec fn view(&self) -> ModuleEntryView {
        ModuleEntryView { name: self.name@, tools: views(self.tools@) }
    }
}

/// The modules, each under its own name, and the configuration.
pub struct Registry {
    modules: Vec<ModuleEntry>,
    config: Config,
}

/// What a [`Registry`] holds.
pub struct RegistryView {
    pub modules: Seq<ModuleEntryView>,
    pub config: ConfigView,
}

impl View for Registry {
    type V = RegistryView;

    closed spec fn view(&self) -> RegistryView {
        RegistryView { modules: views(self.modules@), config: self.config@ }
    }
}

/// The position from `i` on of the module that goes by a name.
pub open spec fn module_named(modules: Seq<ModuleEntryView>, name: Seq<char>, i: int) -> Option<int>
    decreases modules.len() - i,
{
    if i < 0 || i >= modules.len() {
        None
    } else if modules[i].name == name {
        Some(i)
    } else {
        module_named(modules, name, i + 1)
    }
}

/// The modules with one more, which takes the place of one of the same name.
pub open spec fn with_module(
    modules: Seq<ModuleEntryView>,
    entry: ModuleEntryView,
) -> Seq<ModuleEntryView> {
    match module_named(modules, entry.name, 0) {
        Some(i) => modules.update(i, entry),
        None => modules.push(entry),
    }
}

/// Whether a module advertises a tool.
pub open spec fn advertises(entry: ModuleEntryView, tool: Seq<char>) -> bool {
    exists|k: int| 0 <= k < entry.tools.len() && (#[trigger] entry.tools[k]).name == tool
}

/// The position from `i` on of the module that advertises a tool.
pub open spec fn module_with(modules: Seq<ModuleEntryView>, tool: Seq<char>, i: int) -> Option<int>
    decreases modules.len() - i,
{
    if i < 0 || i >= modules.len() {
        None
    } else if advertises(modules[i], tool) {
        Some(i)
    } else {
        module_with(modules, tool, i + 1)
    }
}

/// What is to be done about a request.
pub enum RegistryPlan {
    /// Answer at once.
    Reply(Response),
    /// Ask the remote servers for their tools, and list all.
    List { id: Option<Json> },
    /// Ask the remote servers how they are, and report on all.
    Report { id: Option<Json> },
    /// Call a tool of a module.
    Module { id: Option<Json>, module: usize, tool: String, arguments: Json },
    /// Try the remote servers one after the other.
    Remote { id: Option<Json>, tool: String, arguments: Json },
}

/// What a [`RegistryPlan`] says.
pub enum RegistryPlanView {
    Reply(ResponseView),
    List { id: Option<JsonView> },
    Report { id: Option<JsonView> },
    Module { id: Option<JsonView>, module: int, tool: Seq<char>, arguments: JsonView },
    Remote { id: Option<JsonView>, tool: Seq<char>, arguments: JsonView },
}

impl View for RegistryPlan {
    type V = RegistryPlanView;

    open spec fn view(&self) -> RegistryPlanView {
        match self {
            RegistryPlan::Reply(response) => RegistryPlanView::Reply(response@),
            RegistryPlan::List { id } => RegistryPlanView::List { id: opt_view(*id) },
            RegistryPlan::Report { id } => RegistryPlanView::Report { id: opt_view(*id) },
            RegistryPlan::Module { id, module, tool, arguments } => RegistryPlanView::Module {
                id: opt_view(*id),
                module: *module as int,
                tool: tool@,
                arguments: arguments@,
            },
            RegistryPlan::Remote { id, tool, arguments } => RegistryPlanView::Remote {
                id: opt_view(*id),
                tool: tool@,
                arguments: arguments@,
            },
        }
    }
}

/// What `initialize` is answered with.
pub open spec fn initialize_result() -> JsonView {
    JsonView::object().with("protocolVersion"@, JsonView::Text("2024-11-05"@)).with(
        "capabilities"@,
        JsonView::object().with("tools"@, JsonView::object()),
    ).with(
        "serverInfo"@,
        JsonView::object().with("name"@, JsonView::Text("omni-mcp"@)).with(
            "version"@,
            JsonView::Text(crate::VERSION@),
        ),
    )
}

/// The arguments of a call.
pub open spec fn call_arguments(params: JsonView) -> JsonView {
    match params.field("arguments"@) {
        Some(arguments) => arguments,
        None => JsonView::object(),
    }
}

impl RegistryView {
    /// What is to be done about a call.
    pub open spec fn call_plan(self, id: Option<JsonView>, params: Option<JsonView>) -> RegistryPlanView {
        match params {
            None => RegistryPlanView::Reply(
                ResponseView::error(id, code::INVALID_PARAMS, "Missing params"@),
            ),
            Some(params) => match params.text_field("name"@) {
                None => RegistryPlanView::Reply(
                    ResponseView::error(id, code::INVALID_PARAMS, "Missing tool name"@),
                ),
                Some(tool) => if tool == "omni_status"@ {
                    RegistryPlanView::Report { id }
                } else {
                    match module_with(self.modules, tool, 0) {
                        Some(module) => RegistryPlanView::Module {
                            id,
                            module,
                            tool,
                            arguments: call_arguments(params),
                        },
                        None => RegistryPlanView::Remote {
                            id,
                            tool,
                            arguments: call_arguments(params),
                        },
                    }
                },
            },
        }
    }

    /// What is to be done about a request.
    pub open spec fn plan(self, request: RequestView) -> RegistryPlanView {
        if request.method == "initialize"@ {
            RegistryPlanView::Reply(ResponseView::success(request.id, initialize_result()))
        } else if request.method == "ping"@ {
            RegistryPlanView::Reply(ResponseView::success(request.id, JsonView::object()))
        } else if request.method == "tools/list"@ {
            RegistryPlanView::List { id: request.id }
        } else if request.method == "tools/call"@ {
            self.call_plan(request.id, request.params)
        } else {
            RegistryPlanView::Reply(
                ResponseView::error(
                    request.id,
                    code::METHOD_NOT_FOUND,
                    "Method not found: "@ + request.method,
                ),
            )
        }
    }
}

/// What `omni_status` does.
pub const STATUS_DESCRIPTION: &'static str = "Provides real-time health diagnostic status of all native tools, proxies, and sidecars in omni-mcp";

/// The tool that reports on the registry itself.
pub open spec fn status_tool() -> ToolView {
    ToolView::new("omni_status"@, STATUS_DESCRIPTION@, empty_schema())
}

/// What a remote server was asked and what it listed, or why it could not.
pub open spec fn outcome_view(r: Result<Vec<Tool>, String>) -> Result<Seq<ToolView>, Seq<char>> {
    match r {
        Ok(tools) => Ok(views(tools@)),
        Err(message) => Err(message@),
    }
}

/// What remote servers listed.
pub open spec fn outcome_views(list: Seq<Result<Vec<Tool>, String>>) -> Seq<
    Result<Seq<ToolView>, Seq<char>>,
> {
    list.map_values(|r: Result<Vec<Tool>, String>| outcome_view(r))
}

/// The tools of modules, one module after the other.
pub open spec fn module_tools(modules: Seq<ModuleEntryView>) -> Seq<ToolView>
    decreases modules.len(),
{
    if modules.len() == 0 {
        seq![]
    } else {
        module_tools(modules.drop_last()) + modules.last().tools
    }
}

/// The tools of the remote servers that answered.
pub open spec fn remote_tools(outcomes: Seq<Result<Seq<ToolView>, Seq<char>>>) -> Seq<ToolView>
    decreases outcomes.len(),
{
    if outcomes.len() == 0 {
        seq![]
    } else {
        remote_tools(outcomes.drop_last()) + match outcomes.last() {
            Ok(tools) => tools,
            Err(_) => seq![],
        }
    }
}

/// Tools as `tools/list` answers them.
pub open spec fn tools_json(tools: Seq<ToolView>) -> JsonView {
    JsonView::object().with(
        "tools"@,
        JsonView::Array(tools.map_values(|t: ToolView| t.encoded())),
    )
}

impl RegistryView {
    /// All tools: the one on the registry itself, those of the modules, and those
    /// of the remote servers that answered.
    pub open spec fn all_tools(self, outcomes: Seq<Result<Seq<ToolView>, Seq<char>>>) -> Seq<
        ToolView,
    > {
        seq![status_tool()] + module_tools(self.modules) + remote_tools(outcomes)
    }
}

/// What a call of a module is answered with: its result, or its failure as one
/// that the model can read.
pub open spec fn module_answer(
    id: Option<JsonView>,
    tool: Seq<char>,
    outcome: Result<CallToolResultView, Seq<char>>,
) -> ResponseView {
    match outcome {
        Ok(result) => ResponseView::success(id, result.encoded()),
        Err(message) => ResponseView::success(
            id,
            CallToolResultView::error(
                "[omni-mcp Error] Tool '"@ + tool + "' failed: "@ + message,
            ).encoded(),
        ),
    }
}

/// What remote servers answered, one after the other.
pub open spec fn call_outcome_views(list: Seq<Result<Json, String>>) -> Seq<
    Result<JsonView, Seq<char>>,
> {
    list.map_values(
        |r: Result<Json, String>|
            match r {
                Ok(value) => Ok::<JsonView, Seq<char>>(value@),
                Err(message) => Err::<JsonView, Seq<char>>(message@),
            },
    )
}

/// The first answer from position `i` on.
pub open spec fn first_answer(outcomes: Seq<Result<JsonView, Seq<char>>>, i: int) -> Option<
    JsonView,
>
    decreases outcomes.len() - i,
{
    if i < 0 || i >= outcomes.len() {
        None
    } else {
        match outcomes[i] {
            Ok(value) => Some(value),
            Err(_) => first_answer(outcomes, i + 1),
        }
    }
}

/// What the model is told of a tool that nobody answered for.
pub open spec fn unavailable_message(tool: Seq<char>) -> Seq<char> {
    "[omni-mcp Feedback] Tool '"@ + tool
        + "' is currently unavailable or failed to respond. Call tool 'omni_status' to view active modules and diagnostics."@
}

/// What a call that was tried on the remote servers is answered with: the first
/// answer, or that there is none.
pub open spec fn remote_answer(
    id: Option<JsonView>,
    tool: Seq<char>,
    outcomes: Seq<Result<JsonView, Seq<char>>>,
) -> ResponseView {
    match first_answer(outcomes, 0) {
        Some(value) => ResponseView::success(id, value),
        None => ResponseView::success(
            id,
            CallToolResultView::error(unavailable_message(tool)).encoded(),
        ),
    }
}

// ---------------------------------------------------------------------------
// The report

/// The lines on modules.
pub open spec fn module_lines(modules: Seq<ModuleEntryView>) -> Seq<char>
    decreases modules.len(),
{
    if modules.len() == 0 {
        seq![]
    } else {
        module_lines(modules.drop_last()) + ("  - **"@ + modules.last().name
            + "**: ACTIVE (Loaded natively)\n"@)
    }
}

/// The line on one remote server.
pub open spec fn proxy_line(
    proxy: ProxyConfigView,
    outcome: Result<Seq<ToolView>, Seq<char>>,
) -> Seq<char> {
    match outcome {
        Ok(tools) => "  - **"@ + proxy.name + "** ("@ + proxy.url + "): ONLINE ("@ + decimal(
            tools.len(),
        ) + " tools registered)\n"@,
        Err(reason) => "  - **"@ + proxy.name + "** ("@ + proxy.url
            + "): OFFLINE / UNREACHABLE\n    - *Reason*: "@ + reason + "\n"@,
    }
}

/// The lines on remote servers.
pub open spec fn proxy_lines(
    proxies: Seq<ProxyConfigView>,
    outcomes: Seq<Result<Seq<ToolView>, Seq<char>>>,
) -> Seq<char>
    decreases proxies.len(),
{
    if proxies.len() == 0 {
        seq![]
    } else {
        proxy_lines(proxies.drop_last(), outcomes) + proxy_line(
            proxies.last(),
            outcomes[proxies.len() - 1],
        )
    }
}

/// The lines on sidecars.
pub open spec fn sidecar_lines(sidecars: Seq<SidecarConfigView>) -> Seq<char>
    decreases sidecars.len(),
{
    if sidecars.len() == 0 {
        seq![]
    } else {
        sidecar_lines(sidecars.drop_last()) + ("  - **"@ + sidecars.last().name
            + "**: Configured command: `"@ + sidecars.last().command + "` "@ + joined(
            sidecars.last().args,
            " "@,
        ) + "\n"@)
    }
}

impl RegistryView {
    /// The report on modules, remote servers and sidecars.
    pub open spec fn status_report(self, outcomes: Seq<Result<Seq<ToolView>, Seq<char>>>) -> Seq<
        char,
    > {
        "# omni-mcp System Health & Diagnostic Report\n\n"@
            + "## 1. Native Rust Modules (0ms Overhead, Instant Execution)\n"@ + module_lines(
            self.modules,
        ) + "\n## 2. Configured Proxies & Remote Endpoints\n"@ + (if self.config.proxies.len()
            == 0 {
            "  (No proxy endpoints configured)\n"@
        } else {
            proxy_lines(self.config.proxies, outcomes)
        }) + "\n## 3. Configured Local Sidecars\n"@ + (if self.config.sidecars.len() == 0 {
            "  (No sidecar executables configured)\n"@
        } else {
            sidecar_lines(self.config.sidecars)
        })
    }
}

// ---------------------------------------------------------------------------
// Remote servers

/// What came of a request to a remote server.
pub enum RemoteReply {
    Unreachable(String),
    Answer { success: bool, status: String, body: String },
}

/// What a [`RemoteReply`] says.
pub enum RemoteReplyView {
    Unreachable(Seq<char>),
    Answer { success: bool, status: Seq<char>, body: Seq<char> },
}

impl View for RemoteReply {
    type V = RemoteReplyView;

    open spec fn view(&self) -> RemoteReplyView {
        match self {
            RemoteReply::Unreachable(reason) => RemoteReplyView::Unreachable(reason@),
            RemoteReply::Answer { success, status, body } => RemoteReplyView::Answer {
                success: *success,
                status: status@,
                body: body@,
            },
        }
    }
}

/// The response in what was read as JSON.
pub open spec fn response_in(parsed: Result<JsonView, Seq<char>>) -> Result<
    ResponseView,
    Seq<char>,
> {
    match parsed {
        Err(message) => Err("Invalid JSON response: "@ + message),
        Ok(value) => match decoded_response(value) {
            Err(message) => Err("Invalid JSON response: "@ + message),
            Ok(response) => Ok(response),
        },
    }
}

/// The response that a body writes.
pub open spec fn body_response(body: Seq<char>) -> Result<ResponseView, Seq<char>> {
    response_in(parsed_json(body))
}

/// The tools that a response lists.
pub open spec fn listed_tools(response: ResponseView) -> Result<Seq<ToolView>, Seq<char>> {
    let list = match response.result {
        Some(result) => result.field("tools"@),
        None => None,
    };
    match list {
        None => Err("Response missing 'tools' array"@),
        Some(list) => match tool_list(list) {
            Ok(tools) => Ok(tools),
            Err(message) => Err("Schema error: "@ + message),
        },
    }
}

/// What a response to a call says.
pub open spec fn call_outcome(response: ResponseView) -> Result<JsonView, Seq<char>> {
    match (response.result, response.error) {
        (Some(result), _) => Ok(result),
        (None, Some(err)) => Err(err.message),
        (None, None) => Err("Empty response from proxy"@),
    }
}

/// The tools that a remote server listed.
pub open spec fn fetched_tools(reply: RemoteReplyView) -> Result<Seq<ToolView>, Seq<char>> {
    match reply {
        RemoteReplyView::Unreachable(reason) => Err("Connection failed: "@ + reason),
        RemoteReplyView::Answer { success, status, body } => if !success {
            Err("HTTP status "@ + status)
        } else {
            match body_response(body) {
                Err(message) => Err(message),
                Ok(response) => listed_tools(response),
            }
        },
    }
}

/// What a remote server answered to a call.
pub open spec fn called_remote(reply: RemoteReplyView) -> Result<JsonView, Seq<char>> {
    match reply {
        RemoteReplyView::Unreachable(reason) => Err("Proxy request failed: "@ + reason),
        RemoteReplyView::Answer { success, status, body } => match body_response(body) {
            Err(message) => Err(message),
            Ok(response) => call_outcome(response),
        },
    }
}

/// The body of a request for the tools of a remote server.
pub open spec fn list_body() -> JsonView {
    JsonView::object().with("jsonrpc"@, JsonView::Text("2.0"@)).with(
        "id"@,
        crate::json::json_number(1),
    ).with("method"@, JsonView::Text("tools/list"@))
}

/// The body of a call of a tool of a remote server.
pub open spec fn call_body(tool: Seq<char>, arguments: JsonView) -> JsonView {
    JsonView::object().with("jsonrpc"@, JsonView::Text("2.0"@)).with(
        "id"@,
        crate::json::json_number(1),
    ).with("method"@, JsonView::Text("tools/call"@)).with("params"@, call_params(tool, arguments))
}

/// The body of a request for the tools of a remote server.
pub fn make_list_body() -> (r: Json)
    ensures
        r@ == list_body(),
{
    Json::object().with("jsonrpc", Json::string("2.0")).with("id", Json::number(1)).with(
        "method",
        Json::string("tools/list"),
    )
}

/// The body of a call of a tool of a remote server.
pub fn make_call_body(tool: &str, arguments: Json) -> (r: Json)
    ensures
        r@ == call_body(tool@, arguments@),
{
    Json::object().with("jsonrpc", Json::string("2.0")).with("id", Json::number(1)).with(
        "method",
        Json::string("tools/call"),
    ).with("params", make_call_params(tool, arguments))
}

/// Takes the response out of what was read as JSON.
pub fn accept_response(parsed: Result<Json, String>) -> (r: Result<Response, String>)
    ensures
        match r {
            Ok(response) => response_in(parse_view(parsed)) == Ok::<ResponseView, Seq<char>>(
                response@,
            ),
            Err(message) => response_in(parse_view(parsed)) == Err::<ResponseView, Seq<char>>(
                message@,
            ),
        },
{
    match parsed {
        Err(message) => Err(cat2("Invalid JSON response: ", &message)),
        Ok(value) => match Response::from_json(&value) {
            Err(message) => Err(cat2("Invalid JSON response: ", &message)),
            Ok(response) => Ok(response),
        },
    }
}

/// Takes the tools out of a response.
pub fn take_tools(response: &Response) -> (r: Result<Vec<Tool>, String>)
    ensures
        outcome_view(r) == listed_tools(response@),
{
    match &response.result {
        Some(result) => match result.get("tools") {
            Some(list) => match read_tool_list(list) {
                Ok(tools) => Ok(tools),
                Err(message) => Err(cat2("Schema error: ", &message)),
            },
            None => Err("Response missing 'tools' array".to_owned()),
        },
        None => Err("Response missing 'tools' array".to_owned()),
    }
}

/// Takes the outcome of a call out of a response.
pub fn take_outcome(response: Response) -> (r: Result<Json, String>)
    ensures
        match r {
            Ok(value) => call_outcome(response@) == Ok::<JsonView, Seq<char>>(value@),
            Err(message) => call_outcome(response@) == Err::<JsonView, Seq<char>>(message@),
        },
{
    match (response.result, response.error) {
        (Some(result), _) => Ok(result),
        (None, Some(err)) => Err(err.message),
        (None, None) => Err("Empty response from proxy".to_owned()),
    }
}

/// Reads the tools that a remote server listed.
pub fn fetch_proxy_tools(reply: RemoteReply) -> (r: Result<Vec<Tool>, String>)
    ensures
        outcome_view(r) == fetched_tools(reply@),
{
    match reply {
        RemoteReply::Unreachable(reason) => Err(cat2("Connection failed: ", &reason)),
        RemoteReply::Answer { success, status, body } => {
            if !success {
                return Err(cat2("HTTP status ", &status));
            }
            match accept_response(Json::parse(&body)) {
                Ok(response) => take_tools(&response),
                Err(message) => Err(message),
            }
        },
    }
}

/// Reads what a remote server answered to a call.
pub fn call_proxy_tool(reply: RemoteReply) -> (r: Result<Json, String>)
    ensures
        match r {
            Ok(value) => called_remote(reply@) == Ok::<JsonView, Seq<char>>(value@),
            Err(message) => called_remote(reply@) == Err::<JsonView, Seq<char>>(message@),
        },
{
    match reply {
        RemoteReply::Unreachable(reason) => Err(cat2("Proxy request failed: ", &reason)),
        RemoteReply::Answer { success, status, body } => match accept_response(
            Json::parse(&body),
        ) {
            Err(message) => Err(message),
            Ok(response) => take_outcome(response),
        },
    }
}

// ---------------------------------------------------------------------------
// The registry

fn dup_id(id: &Option<Json>) -> (r: Option<Json>)
    ensures
        opt_view(r) == opt_view(*id),
{
    match id {
        Some(id) => Some(id.dup()),
        None => None,
    }
}

fn make_initialize_result() -> (r: Json)
    ensures
        r@ == initialize_result(),
{
    Json::object().with("protocolVersion", Json::string("2024-11-05")).with(
        "capabilities",
        Json::object().with("tools", Json::object()),
    ).with(
        "serverInfo",
        Json::object().with("name", Json::string("omni-mcp")).with(
            "version",
            Json::string(crate::VERSION),
        ),
    )
}

fn has_tool(entry: &ModuleEntry, tool: &str) -> (r: bool)
    ensures
        r == advertises(entry@, tool@),
{
    let ghost all = entry@.tools;
    let mut i: usize = 0;
    while i < entry.tools.len()
        invariant
            0 <= i <= entry.tools@.len(),
            all == views(entry.tools@),
            forall|k: int| 0 <= k < i ==> (#[trigger] all[k]).name != tool@,
        decreases entry.tools@.len() - i,
    {
        assert(all[i as int] == entry.tools@[i as int]@);
        if same(&entry.tools[i].name, tool) {
            return true;
        }
        i += 1;
    }
    false
}

fn push_encoded(items: &mut Vec<Json>, tools: &Vec<Tool>)
    ensures
        views(final(items)@) == views(old(items)@) + views(tools@).map_values(
            |t: ToolView| t.encoded(),
        ),
{
    let ghost start = views(items@);
    let ghost all = views(tools@).map_values(|t: ToolView| t.encoded());
    let mut i: usize = 0;
    assert(start + all.take(0) =~= start);
    while i < tools.len()
        invariant
            0 <= i <= tools@.len(),
            all == views(tools@).map_values(|t: ToolView| t.encoded()),
            views(items@) == start + all.take(i as int),
        decreases tools@.len() - i,
    {
        let ghost before = items@;
        let item = tools[i].to_json();
        items.push(item);
        proof {
            assert(all[i as int] == item@);
            assert(views(items@) =~= views(before).push(item@));
            assert(start + all.take(i + 1) =~= (start + all.take(i as int)).push(item@));
        }
        i += 1;
    }
    assert(all.take(i as int) =~= all);
}

impl Registry {
    /// A registry without modules.
    pub fn new(config: Config) -> (r: Registry)
        ensures
            r@ == (RegistryView { modules: seq![], config: config@ }),
    {
        let registry = Registry { modules: Vec::new(), config };
        assert(views(registry.modules@) =~= seq![]);
        registry
    }

    /// The configuration.
    pub fn config(&self) -> (r: &Config)
        ensures
            r@ == self@.config,
    {
        &self.config
    }

    /// Registers a module; one of the same name is replaced.
    pub fn register(&mut self, entry: ModuleEntry)
        ensures
            final(self)@ == (RegistryView {
                modules: with_module(old(self)@.modules, entry@),
                ..old(self)@
            }),
    {
        let ghost all = views(self.modules@);
        let ghost before = self.modules@;
        let ghost prior = self@;
        let mut i: usize = 0;
        while i < self.modules.len()
            invariant
                0 <= i <= self.modules@.len(),
                all == views(self.modules@),
                before == self.modules@,
                prior == self@,
                prior == old(self)@,
                module_named(all, entry@.name, 0) == module_named(all, entry@.name, i as int),
            decreases self.modules@.len() - i,
        {
            assert(all[i as int] == self.modules@[i as int]@);
            if same(&self.modules[i].name, &entry.name) {
                self.modules.set(i, entry);
                assert(views(self.modules@) =~= all.update(i as int, entry@));
                return;
            }
            i += 1;
        }
        self.modules.push(entry);
        assert(views(self.modules@) =~= all.push(entry@));
    }

    fn find_module(&self, tool: &str) -> (r: Option<usize>)
        ensures
            match r {
                Some(i) => module_with(self@.modules, tool@, 0) == Some(i as int),
                None => module_with(self@.modules, tool@, 0) is None,
            },
    {
        let ghost all = views(self.modules@);
        let mut i: usize = 0;
        while i < self.modules.len()
            invariant
                0 <= i <= self.modules@.len(),
                all == views(self.modules@),
                all == self@.modules,
                module_with(all, tool@, 0) == module_with(all, tool@, i as int),
            decreases self.modules@.len() - i,
        {
            assert(all[i as int] == self.modules@[i as int]@);
            if has_tool(&self.modules[i], tool) {
                return Some(i);
            }
            i += 1;
        }
        None
    }

    fn plan_call(&self, id: Option<Json>, params: &Option<Json>) -> (r: RegistryPlan)
        ensures
            r@ == self@.call_plan(opt_view(id), opt_view(*params)),
    {
        match params {
            None => RegistryPlan::Reply(
                Response::error(id, code::INVALID_PARAMS, "Missing params".to_owned()),
            ),
            Some(params) => match params.get_text("name") {
                None => RegistryPlan::Reply(
                    Response::error(id, code::INVALID_PARAMS, "Missing tool name".to_owned()),
                ),
                Some(tool) => {
                    if same(tool, "omni_status") {
                        return RegistryPlan::Report { id };
                    }
                    let arguments = match params.get("arguments") {
                        Some(arguments) => arguments.dup(),
                        None => Json::object(),
                    };
                    match self.find_module(tool) {
                        Some(module) => RegistryPlan::Module {
                            id,
                            module,
                            tool: tool.clone(),
                            arguments,
                        },
                        None => RegistryPlan::Remote { id, tool: tool.clone(), arguments },
                    }
                },
            },
        }
    }

    /// Decides what is to be done about a request.
    pub fn handle_request(&self, request: &Request) -> (r: RegistryPlan)
        ensures
            r@ == self@.plan(request@),
    {
        let id = dup_id(&request.id);
        if same(&request.method, "initialize") {
            RegistryPlan::Reply(Response::success(id, make_initialize_result()))
        } else if same(&request.method, "ping") {
            RegistryPlan::Reply(Response::success(id, Json::object()))
        } else if same(&request.method, "tools/list") {
            RegistryPlan::List { id }
        } else if same(&request.method, "tools/call") {
            self.plan_call(id, &request.params)
        } else {
            RegistryPlan::Reply(
                Response::error(
                    id,
                    code::METHOD_NOT_FOUND,
                    cat2("Method not found: ", &request.method),
                ),
            )
        }
    }

    /// Lists all tools, with what the remote servers listed.
    pub fn finish_list(&self, id: Option<Json>, outcomes: &Vec<Result<Vec<Tool>, String>>) -> (r:
        Response)
        ensures
            r@ == ResponseView::success(
                opt_view(id),
                tools_json(self@.all_tools(outcome_views(outcomes@))),
            ),
    {
        let ghost f = |t: ToolView| t.encoded();
        let ghost mods = views(self.modules@);
        let ghost outs = outcome_views(outcomes@);
        let mut items: Vec<Json> = Vec::new();
        let own = Tool::new("omni_status", STATUS_DESCRIPTION, empty_object_schema());
        items.push(own.to_json());
        assert(views(items@) =~= seq![status_tool()].map_values(f));
        let mut i: usize = 0;
        assert(mods.take(0) =~= seq![]);
        assert((seq![status_tool()] + module_tools(mods.take(0))).map_values(f) =~= seq![
            status_tool(),
        ].map_values(f));
        while i < self.modules.len()
            invariant
                0 <= i <= self.modules@.len(),
                f == (|t: ToolView| t.encoded()),
                mods == views(self.modules@),
                views(items@) == (seq![status_tool()] + module_tools(
                    mods.take(i as int),
                )).map_values(f),
            decreases self.modules@.len() - i,
        {
            let ghost before = items@;
            push_encoded(&mut items, &self.modules[i].tools);
            proof {
                assert(mods.take(i + 1).drop_last() =~= mods.take(i as int));
                assert(mods.take(i + 1).last() == self.modules@[i as int]@);
                assert(views(items@) =~= (seq![status_tool()] + module_tools(
                    mods.take(i + 1),
                )).map_values(f));
            }
            i += 1;
        }
        assert(mods.take(i as int) =~= mods);
        let ghost front = seq![status_tool()] + module_tools(mods);
        let mut k: usize = 0;
        assert(outs.take(0) =~= seq![]);
        assert((front + remote_tools(outs.take(0))).map_values(f) =~= front.map_values(f));
        while k < outcomes.len()
            invariant
                0 <= k <= outcomes@.len(),
                f == (|t: ToolView| t.encoded()),
                outs == outcome_views(outcomes@),
                views(items@) == (front + remote_tools(outs.take(k as int))).map_values(f),
            decreases outcomes@.len() - k,
        {
            proof {
                assert(outs.take(k + 1).drop_last() =~= outs.take(k as int));
                assert(outs.take(k + 1).last() == outcome_view(outcomes@[k as int]));
            }
            match &outcomes[k] {
                Ok(tools) => {
                    push_encoded(&mut items, tools);
                    assert(views(items@) =~= (front + remote_tools(outs.take(k + 1))).map_values(
                        f,
                    ));
                },
                Err(_) => {
                    assert(views(items@) =~= (front + remote_tools(outs.take(k + 1))).map_values(
                        f,
                    ));
                },
            }
            k += 1;
        }
        assert(outs.take(k as int) =~= outs);
        Response::success(id, Json::object().with("tools", Json::array(items)))
    }

    /// Reports on modules, remote servers and sidecars.
    pub fn get_status_report(&self, outcomes: &Vec<Result<Vec<Tool>, String>>) -> (r: String)
        requires
            outcomes@.len() == self@.config.proxies.len(),
        ensures
            r@ == self@.status_report(outcome_views(outcomes@)),
    {
        let mut report = cat2(
            "# omni-mcp System Health & Diagnostic Report\n\n",
            "## 1. Native Rust Modules (0ms Overhead, Instant Execution)\n",
        );
        report.append(self.show_modules().as_str());
        report.append("\n## 2. Configured Proxies & Remote Endpoints\n");
        if self.config.proxies.len() == 0 {
            report.append("  (No proxy endpoints configured)\n");
        } else {
            report.append(self.show_proxies(outcomes).as_str());
        }
        report.append("\n## 3. Configured Local Sidecars\n");
        if self.config.sidecars.len() == 0 {
            report.append("  (No sidecar executables configured)\n");
        } else {
            report.append(self.show_sidecars().as_str());
        }
        report
    }

    fn show_modules(&self) -> (r: String)
        ensures
            r@ == module_lines(self@.modules),
    {
        let ghost all = views(self.modules@);
        let mut out = String::new();
        let mut i: usize = 0;
        assert(all.take(0) =~= seq![]);
        assert(out@ =~= module_lines(all.take(0)));
        while i < self.modules.len()
            invariant
                0 <= i <= self.modules@.len(),
                all == views(self.modules@),
                out@ == module_lines(all.take(i as int)),
            decreases self.modules@.len() - i,
        {
            proof {
                assert(all.take(i + 1).drop_last() =~= all.take(i as int));
                assert(all.take(i + 1).last() == self.modules@[i as int]@);
            }
            out.append(
                cat3("  - **", &self.modules[i].name, "**: ACTIVE (Loaded natively)\n").as_str(),
            );
            i += 1;
        }
        assert(all.take(i as int) =~= all);
        out
    }

    fn show_proxies(&self, outcomes: &Vec<Result<Vec<Tool>, String>>) -> (r: String)
        requires
            outcomes@.len() == self@.config.proxies.len(),
        ensures
            r@ == proxy_lines(self@.config.proxies, outcome_views(outcomes@)),
    {
        let ghost all = self@.config.proxies;
        let ghost outs = outcome_views(outcomes@);
        let mut out = String::new();
        let mut i: usize = 0;
        assert(all.take(0) =~= seq![]);
        assert(out@ =~= proxy_lines(all.take(0), outs));
        while i < self.config.proxies.len()
            invariant
                0 <= i <= self.config.proxies@.len(),
                all == views(self.config.proxies@),
                outs == outcome_views(outcomes@),
                outcomes@.len() == all.len(),
                out@ == proxy_lines(all.take(i as int), outs),
            decreases self.config.proxies@.len() - i,
        {
            let proxy = &self.config.proxies[i];
            proof {
                assert(all.take(i + 1).drop_last() =~= all.take(i as int));
                assert(all.take(i + 1).last() == proxy@);
                assert(outs[i as int] == outcome_view(outcomes@[i as int]));
            }
            match &outcomes[i] {
                Ok(tools) => {
                    let ghost before = out@;
                    out.append("  - **");
                    out.append(proxy.name.as_str());
                    out.append("** (");
                    out.append(proxy.url.as_str());
                    out.append("): ONLINE (");
                    out.append(decimal_text(tools.len() as u64).as_str());
                    out.append(" tools registered)\n");
                    assert(out@ =~= before + proxy_line(proxy@, outs[i as int]));
                },
                Err(reason) => {
                    let ghost before = out@;
                    out.append("  - **");
                    out.append(proxy.name.as_str());
                    out.append("** (");
                    out.append(proxy.url.as_str());
                    out.append("): OFFLINE / UNREACHABLE\n    - *Reason*: ");
                    out.append(reason.as_str());
                    out.append("\n");
                    assert(out@ =~= before + proxy_line(proxy@, outs[i as int]));
                },
            }
            i += 1;
        }
        assert(all.take(i as int) =~= all);
        out
    }

    fn show_sidecars(&self) -> (r: String)
        ensures
            r@ == sidecar_lines(self@.config.sidecars),
    {
        let ghost all = self@.config.sidecars;
        let mut out = String::new();
        let mut i: usize = 0;
        assert(all.take(0) =~= seq![]);
        assert(out@ =~= sidecar_lines(all.take(0)));
        while i < self.config.sidecars.len()
            invariant
                0 <= i <= self.config.sidecars@.len(),
                all == views(self.config.sidecars@),
                out@ == sidecar_lines(all.take(i as int)),
            decreases self.config.sidecars@.len() - i,
        {
            let sidecar = &self.config.sidecars[i];
            let ghost before = out@;
            proof {
                assert(all.take(i + 1).drop_last() =~= all.take(i as int));
                assert(all.take(i + 1).last() == sidecar@);
            }
            out.append("  - **");
            out.append(sidecar.name.as_str());
            out.append("**: Configured command: `");
            out.append(sidecar.command.as_str());
            out.append("` ");
            out.append(join(&sidecar.args, " ").as_str());
            out.append("\n");
            assert(out@ =~= before + ("  - **"@ + sidecar@.name + "**: Configured command: `"@
                + sidecar@.command + "` "@ + joined(sidecar@.args, " "@) + "\n"@));
            i += 1;
        }
        assert(all.take(i as int) =~= all);
        out
    }

    /// Answers a request for the report.
    pub fn finish_report(&self, id: Option<Json>, outcomes: &Vec<Result<Vec<Tool>, String>>) -> (r:
        Response)
        requires
            outcomes@.len() == self@.config.proxies.len(),
        ensures
            r@ == ResponseView::success(
                opt_view(id),
                CallToolResultView::text(
                    self@.status_report(outcome_views(outcomes@)),
                ).encoded(),
            ),
    {
        Response::success(
            id,
            CallToolResult::text(self.get_status_report(outcomes)).into_value(),
        )
    }
}

/// Answers a call of a module.
pub fn finish_module(id: Option<Json>, tool: &str, outcome: Result<CallToolResult, String>) -> (r:
    Response)
    ensures
        r@ == module_answer(opt_view(id), tool@, crate::modules::module_result(outcome)),
{
    match outcome {
        Ok(result) => Response::success(id, result.into_value()),
        Err(message) => Response::success(
            id,
            CallToolResult::error(
                cat4("[omni-mcp Error] Tool '", tool, "' failed: ", &message),
            ).into_value(),
        ),
    }
}

/// Answers a call that was tried on the remote servers.
pub fn finish_remote(id: Option<Json>, tool: &str, outcomes: &Vec<Result<Json, String>>) -> (r:
    Response)
    ensures
        r@ == remote_answer(opt_view(id), tool@, call_outcome_views(outcomes@)),
{
    let ghost all = call_outcome_views(outcomes@);
    let mut i: usize = 0;
    while i < outcomes.len()
        invariant
            0 <= i <= outcomes@.len(),
            all == call_outcome_views(outcomes@),
            first_answer(all, 0) == first_answer(all, i as int),
        decreases outcomes@.len() - i,
    {
        match &outcomes[i] {
            Ok(value) => {
                assert(all[i as int] == Ok::<JsonView, Seq<char>>(value@));
                return Response::success(id, value.dup());
            },
            Err(message) => {
                assert(all[i as int] == Err::<JsonView, Seq<char>>(message@));
            },
        }
        i += 1;
    }
    Response::success(
        id,
        CallToolResult::error(
            cat3(
                "[omni-mcp Feedback] Tool '",
                tool,
                "' is currently unavailable or failed to respond. Call tool 'omni_status' to view active modules and diagnostics.",
            ),
        ).into_value(),
    )
}

/// Which of `count` remote servers is to be tried next, after some were: the next
/// in order, or none once one has answered or all were tried.
pub open spec fn next_remote(outcomes: Seq<Result<JsonView, Seq<char>>>, count: nat) -> Option<
    nat,
> {
    if first_answer(outcomes, 0) is Some || outcomes.len() >= count {
        None
    } else {
        Some(outcomes.len())
    }
}

/// Decides which remote server is to be tried next.
pub fn next_proxy(outcomes: &Vec<Result<Json, String>>, count: usize) -> (r: Option<usize>)
    ensures
        match r {
            Some(i) => next_remote(call_outcome_views(outcomes@), count as nat) == Some(i as nat),
            None => next_remote(call_outcome_views(outcomes@), count as nat) is None,
        },
{
    let ghost all = call_outcome_views(outcomes@);
    let mut i: usize = 0;
    while i < outcomes.len()
        invariant
            0 <= i <= outcomes@.len(),
            all == call_outcome_views(outcomes@),
            first_answer(all, 0) == first_answer(all, i as int),
        decreases outcomes@.len() - i,
    {
        match &outcomes[i] {
            Ok(value) => {
                assert(all[i as int] == Ok::<JsonView, Seq<char>>(value@));
                return None;
            },
            Err(message) => {
                assert(all[i as int] == Err::<JsonView, Seq<char>>(message@));
            },
        }
        i += 1;
    }
    if outcomes.len() >= count {
        None
    } else {
        Some(outcomes.len())
    }
}

// ---------------------------------------------------------------------------
// Laws

/// A tool that fails is never a failure of the protocol: whatever a module or the
/// remote servers do, the request is answered with a result.
pub proof fn lemma_calls_always_answered(
    id: Option<JsonView>,
    tool: Seq<char>,
    outcome: Result<CallToolResultView, Seq<char>>,
    outcomes: Seq<Result<JsonView, Seq<char>>>,
)
    ensures
        module_answer(id, tool, outcome).error is None,
        module_answer(id, tool, outcome).result is Some,
        remote_answer(id, tool, outcomes).error is None,
        remote_answer(id, tool, outcomes).result is Some,
{
}

/// A tool that a module advertises is never looked for elsewhere.
pub proof fn lemma_modules_come_first(
    registry: RegistryView,
    id: Option<JsonView>,
    params: JsonView,
    tool: Seq<char>,
    i: int,
)
    requires
        params.text_field("name"@) == Some(tool),
        tool != "omni_status"@,
        0 <= i < registry.modules.len(),
        advertises(registry.modules[i], tool),
    ensures
        registry.call_plan(id, Some(params)) matches RegistryPlanView::Module { module, .. } && 0
            <= module <= i && advertises(registry.modules[module], tool),
{
    lemma_module_with(registry.modules, tool, 0, i);
}

proof fn lemma_module_with(modules: Seq<ModuleEntryView>, tool: Seq<char>, from: int, i: int)
    requires
        0 <= from <= i < modules.len(),
        advertises(modules[i], tool),
    ensures
        module_with(modules, tool, from) matches Some(k) && from <= k <= i && advertises(
            modules[k],
            tool,
        ),
    decreases i - from,
{
    if !advertises(modules[from], tool) {
        lemma_module_with(modules, tool, from + 1, i);
    }
}

/// A remote server that cannot be reached takes no other's tools away.
pub proof fn lemma_offline_servers_are_skipped(
    before: Seq<Result<Seq<ToolView>, Seq<char>>>,
    reason: Seq<char>,
)
    ensures
        remote_tools(before.push(Err(reason))) == remote_tools(before),
{
    assert(before.push(Err(reason)).drop_last() =~= before);
    assert(remote_tools(before) + Seq::<ToolView>::empty() =~= remote_tools(before));
}

proof fn lemma_module_named(modules: Seq<ModuleEntryView>, name: Seq<char>, i: int)
    requires
        0 <= i,
    ensures
        match module_named(modules, name, i) {
            Some(k) => i <= k < modules.len() && modules[k].name == name,
            None => forall|k: int| i <= k < modules.len() ==> (#[trigger] modules[k]).name != name,
        },
    decreases modules.len() - i,
{
    if i < modules.len() && modules[i].name != name {
        lemma_module_named(modules, name, i + 1);
    }
}

/// Whether no two modules have one name.
pub open spec fn differ_in_name(modules: Seq<ModuleEntryView>) -> bool {
    forall|i: int, j: int|
        0 <= i < j < modules.len() ==> (#[trigger] modules[i]).name != (#[trigger] modules[j]).name
}

/// A module that is registered is there, in the place of one of the same name where
/// there is one and at the end where there is none; the others stay where they are, and
/// no two have one name.
pub proof fn lemma_registering(modules: Seq<ModuleEntryView>, entry: ModuleEntryView)
    requires
        differ_in_name(modules),
    ensures
        ({
            let after = with_module(modules, entry);
            &&& after.contains(entry)
            &&& differ_in_name(after)
            &&& modules.len() <= after.len() <= modules.len() + 1
            &&& forall|i: int|
                0 <= i < modules.len() && (#[trigger] modules[i]).name != entry.name ==> after[i]
                    == modules[i]
            &&& after.len() == modules.len() <==> exists|i: int|
                0 <= i < modules.len() && (#[trigger] modules[i]).name == entry.name
        }),
{
    lemma_module_named(modules, entry.name, 0);
    let after = with_module(modules, entry);
    match module_named(modules, entry.name, 0) {
        Some(k) => {
            assert(after[k] == entry);
            assert(modules[k].name == entry.name);
        },
        None => {
            assert(after[modules.len() as int] == entry);
        },
    }
}

/// A call goes to the first module that advertises the tool, and to the other servers
/// where none does, under its id and with its arguments as they are given; the report
/// is made here. A call without a name is refused.
pub proof fn lemma_registry_calls(
    registry: RegistryView,
    id: Option<JsonView>,
    params: JsonView,
)
    ensures
        match registry.call_plan(id, Some(params)) {
            RegistryPlanView::Module { id: run_id, module, tool, arguments } => {
                &&& run_id == id
                &&& params.field("name"@) == Some(JsonView::Text(tool))
                &&& 0 <= module < registry.modules.len()
                &&& advertises(registry.modules[module], tool)
                &&& forall|j: int| 0 <= j < module ==> !advertises(#[trigger] registry.modules[j], tool)
                &&& params.field("arguments"@) matches Some(given) ==> arguments == given
                &&& params.field("arguments"@) is None ==> arguments == JsonView::Object(
                    Map::empty(),
                )
            },
            RegistryPlanView::Remote { id: run_id, tool, arguments } => {
                &&& run_id == id
                &&& params.field("name"@) == Some(JsonView::Text(tool))
                &&& forall|j: int|
                    0 <= j < registry.modules.len() ==> !advertises(
                        #[trigger] registry.modules[j],
                        tool,
                    )
                &&& params.field("arguments"@) matches Some(given) ==> arguments == given
                &&& params.field("arguments"@) is None ==> arguments == JsonView::Object(
                    Map::empty(),
                )
            },
            RegistryPlanView::Report { id: run_id } => run_id == id && params.field("name"@) == Some(
                JsonView::Text("omni_status"@),
            ),
            RegistryPlanView::Reply(response) => {
                &&& !(params.field("name"@) matches Some(JsonView::Text(_)))
                &&& response.id == id && response.result is None
                &&& response.error matches Some(e) && e.code == -32602
            },
            RegistryPlanView::List { .. } => false,
        },
        registry.call_plan(id, None) matches RegistryPlanView::Reply(response) && response.id == id
            && (response.error matches Some(e) && e.code == -32602),
{
    match params.text_field("name"@) {
        Some(tool) => lemma_first_module(registry.modules, tool, 0),
        None => {},
    }
}

proof fn lemma_first_module(modules: Seq<ModuleEntryView>, tool: Seq<char>, i: int)
    requires
        0 <= i,
    ensures
        match module_with(modules, tool, i) {
            Some(k) => i <= k < modules.len() && advertises(modules[k], tool) && forall|j: int|
                i <= j < k ==> !advertises(#[trigger] modules[j], tool),
            None => forall|j: int|
                i <= j < modules.len() ==> !advertises(#[trigger] modules[j], tool),
        },
    decreases modules.len() - i,
{
    if i < modules.len() && !advertises(modules[i], tool) {
        lemma_first_module(modules, tool, i + 1);
    }
}

/// Which methods are answered, and how.
pub proof fn lemma_registry_methods(registry: RegistryView, request: RequestView)
    ensures
        request.method == "initialize"@ ==> registry.plan(request) == RegistryPlanView::Reply(
            ResponseView::success(request.id, initialize_result()),
        ),
        request.method == "ping"@ ==> registry.plan(request) == RegistryPlanView::Reply(
            ResponseView::success(request.id, JsonView::Object(Map::empty())),
        ),
        registry.plan(request) is List <==> request.method == "tools/list"@,
        registry.plan(request) matches RegistryPlanView::List { id } ==> id == request.id,
        request.method == "tools/call"@ ==> registry.plan(request) == registry.call_plan(
            request.id,
            request.params,
        ),
        request.method != "initialize"@ && request.method != "ping"@ && request.method
            != "tools/list"@ && request.method != "tools/call"@ ==> (registry.plan(
            request,
        ) matches RegistryPlanView::Reply(response) && response.id == request.id && (
        response.error matches Some(e) && e.code == -32601)),
        initialize_result().field("protocolVersion"@) == Some(JsonView::Text("2024-11-05"@)),
        initialize_result().field("capabilities"@) matches Some(abilities) && abilities.field(
            "tools"@,
        ) == Some(JsonView::object()),
        initialize_result().field("serverInfo"@) matches Some(info) && info.field("name"@) == Some(
            JsonView::Text("omni-mcp"@),
        ) && info.field("version"@) == Some(JsonView::Text(crate::VERSION@)),
{
    reveal_strlit("initialize");
    reveal_strlit("ping");
    reveal_strlit("tools/list");
    reveal_strlit("tools/call");
    reveal_strlit("protocolVersion");
    reveal_strlit("capabilities");
    reveal_strlit("serverInfo");
    reveal_strlit("name");
    reveal_strlit("version");
    assert("initialize"@.len() == 10);
    assert("ping"@.len() == 4);
    assert("tools/list"@.len() == 10);
    assert("tools/call"@.len() == 10);
    assert("protocolVersion"@.len() == 15);
    assert("capabilities"@.len() == 12);
    assert("serverInfo"@.len() == 10);
    assert("name"@.len() == 4);
    assert("version"@.len() == 7);
    assert("initialize"@[0] == 'i');
    assert("ping"@[0] == 'p');
    assert("tools/list"@[0] == 't');
    assert("tools/list"@[6] == 'l');
    assert("tools/call"@[0] == 't');
    assert("tools/call"@[6] == 'c');
    assert("serverInfo"@[0] == 's');
    assert("name"@[0] == 'n');
}

/// A listing is the tool that reports, then those of the modules and then those of the
/// servers that answered, each in order; one module or server more adds its own.
pub proof fn lemma_registry_listing(
    registry: RegistryView,
    outcomes: Seq<Result<Seq<ToolView>, Seq<char>>>,
    entry: ModuleEntryView,
    tools: Seq<ToolView>,
)
    ensures
        registry.all_tools(outcomes).len() == 1 + module_tools(registry.modules).len()
            + remote_tools(outcomes).len(),
        registry.all_tools(outcomes)[0].name == "omni_status"@,
        module_tools(registry.modules.push(entry)) == module_tools(registry.modules) + entry.tools,
        remote_tools(outcomes.push(Ok(tools))) == remote_tools(outcomes) + tools,
        registry.all_tools(outcomes.push(Ok(tools))) == registry.all_tools(outcomes) + tools,
        module_tools(seq![]).len() == 0,
        remote_tools(seq![]).len() == 0,
        tools_json(tools).field("tools"@) matches Some(JsonView::Array(items)) && items.len()
            == tools.len() && forall|k: int|
            0 <= k < items.len() ==> #[trigger] items[k] == tools[k].encoded(),
{
    assert(registry.modules.push(entry).drop_last() =~= registry.modules);
    let more = outcomes.push(Ok(tools));
    assert(more.drop_last() =~= outcomes);
    assert(more.last() == Ok::<Seq<ToolView>, Seq<char>>(tools));
    assert(registry.all_tools(more) =~= registry.all_tools(outcomes) + tools);
}

/// The answer of a module is carried as it is, and its failure as a result that is
/// flagged and names the tool and the reason.
pub proof fn lemma_module_answers(
    id: Option<JsonView>,
    tool: Seq<char>,
    outcome: Result<CallToolResultView, Seq<char>>,
)
    ensures
        module_answer(id, tool, outcome).id == id,
        match outcome {
            Ok(result) => module_answer(id, tool, outcome).result == Some(result.encoded()),
            Err(message) => module_answer(id, tool, outcome).result == Some(
                CallToolResultView::error(
                    "[omni-mcp Error] Tool '"@ + tool + "' failed: "@ + message,
                ).encoded(),
            ),
        },
{
}

/// Of the servers that were asked the first that answered counts; where none did, the
/// answer is flagged. Servers are asked in order, until one answers or there is none
/// left.
pub proof fn lemma_remote_answers(
    id: Option<JsonView>,
    tool: Seq<char>,
    outcomes: Seq<Result<JsonView, Seq<char>>>,
    count: nat,
)
    ensures
        remote_answer(id, tool, outcomes).id == id,
        forall|i: int|
            0 <= i < outcomes.len() && (#[trigger] outcomes[i] is Ok) && (forall|j: int|
                0 <= j < i ==> (#[trigger] outcomes[j]) is Err) ==> remote_answer(
                id,
                tool,
                outcomes,
            ).result == Some(outcomes[i]->Ok_0),
        (forall|i: int| 0 <= i < outcomes.len() ==> (#[trigger] outcomes[i]) is Err)
            ==> remote_answer(id, tool, outcomes).result == Some(
            CallToolResultView::error(unavailable_message(tool)).encoded(),
        ),
        next_remote(outcomes, count) == if outcomes.len() < count && (forall|i: int|
            0 <= i < outcomes.len() ==> (#[trigger] outcomes[i]) is Err) {
            Some(outcomes.len())
        } else {
            None::<nat>
        },
{
    lemma_first_answer(outcomes, 0);
}

proof fn lemma_first_answer(outcomes: Seq<Result<JsonView, Seq<char>>>, i: int)
    requires
        0 <= i,
    ensures
        match first_answer(outcomes, i) {
            Some(value) => exists|k: int|
                i <= k < outcomes.len() && #[trigger] outcomes[k] == Ok::<JsonView, Seq<char>>(
                    value,
                ) && forall|j: int| i <= j < k ==> (#[trigger] outcomes[j]) is Err,
            None => forall|j: int| i <= j < outcomes.len() ==> (#[trigger] outcomes[j]) is Err,
        },
    decreases outcomes.len() - i,
{
    if i < outcomes.len() {
        if outcomes[i] is Err {
            lemma_first_answer(outcomes, i + 1);
            match first_answer(outcomes, i + 1) {
                Some(value) => {
                    let k = choose|k: int|
                        i + 1 <= k < outcomes.len() && #[trigger] outcomes[k] == Ok::<
                            JsonView,
                            Seq<char>,
                        >(value) && forall|j: int|
                            i + 1 <= j < k ==> (#[trigger] outcomes[j]) is Err;
                    assert(outcomes[k] == Ok::<JsonView, Seq<char>>(value));
                },
                None => {},
            }
        } else {
            assert(outcomes[i] == Ok::<JsonView, Seq<char>>(outcomes[i]->Ok_0));
        }
    }
}

/// Servers are asked by requests that read as such: for their tools, and for a call of
/// a tool with its arguments.
pub proof fn lemma_servers_are_asked(tool: Seq<char>, arguments: JsonView)
    ensures
        decoded_request(list_body()) == Ok::<RequestView, Seq<char>>(
            RequestView {
                jsonrpc: Some("2.0"@),
                id: Some(crate::json::json_number(1)),
                method: "tools/list"@,
                params: None,
            },
        ),
        decoded_request(call_body(tool, arguments)) matches Ok(request) && {
            &&& request.jsonrpc == Some("2.0"@)
            &&& request.id == Some(crate::json::json_number(1))
            &&& request.method == "tools/call"@
            &&& request.params matches Some(params) && params.field("name"@) == Some(
                JsonView::Text(tool),
            ) && params.field("arguments"@) == Some(arguments)
        },
{
    reveal_strlit("jsonrpc");
    reveal_strlit("id");
    reveal_strlit("method");
    reveal_strlit("params");
    reveal_strlit("name");
    reveal_strlit("arguments");
    assert("jsonrpc"@.len() == 7);
    assert("id"@.len() == 2);
    assert("method"@.len() == 6);
    assert("params"@.len() == 6);
    assert("name"@.len() == 4);
    assert("arguments"@.len() == 9);
    assert("method"@[0] == 'm');
    assert("params"@[0] == 'p');
}

/// The tools of a server are those that its answer lists; no answer, a refusal, and an
/// answer that cannot be read are errors. The outcome of a call is the result where
/// there is one.
pub proof fn lemma_server_replies(reply: RemoteReplyView)
    ensures
        reply is Unreachable ==> fetched_tools(reply) is Err && called_remote(reply) is Err,
        reply matches RemoteReplyView::Answer { success, status, body } ==> {
            &&& !success ==> fetched_tools(reply) is Err
            &&& match body_response(body) {
                Err(_) => fetched_tools(reply) is Err && called_remote(reply) is Err,
                Ok(response) => {
                    &&& response.result matches Some(result) ==> called_remote(reply) == Ok::<
                        JsonView,
                        Seq<char>,
                    >(result)
                    &&& response.result is None ==> called_remote(reply) is Err
                    &&& response.result is None && (response.error matches Some(err)
                        ==> called_remote(reply) == Err::<JsonView, Seq<char>>(err.message))
                        || response.result is Some || response.error is None
                    &&& success ==> match response.result {
                        Some(result) => match result.field("tools"@) {
                            Some(list) => match tool_list(list) {
                                Ok(tools) => fetched_tools(reply) == Ok::<
                                    Seq<ToolView>,
                                    Seq<char>,
                                >(tools),
                                Err(_) => fetched_tools(reply) is Err,
                            },
                            None => fetched_tools(reply) is Err,
                        },
                        None => fetched_tools(reply) is Err,
                    }
                },
            }
        },
{
}

/// The report has a line for each module, each proxy and each sidecar, in order: one
/// more adds its line, which names it, and leaves those before as they are.
pub proof fn lemma_report_lines(
    modules: Seq<ModuleEntryView>,
    entry: ModuleEntryView,
    proxies: Seq<ProxyConfigView>,
    proxy: ProxyConfigView,
    outcomes: Seq<Result<Seq<ToolView>, Seq<char>>>,
    outcome: Result<Seq<ToolView>, Seq<char>>,
    sidecars: Seq<SidecarConfigView>,
    sidecar: SidecarConfigView,
)
    requires
        outcomes.len() == proxies.len(),
    ensures
        exists|line: Seq<char>| #[trigger]
            names(line, entry.name) && module_lines(modules.push(entry)) == module_lines(modules)
                + line,
        exists|line: Seq<char>| #[trigger]
            names(line, proxy.name) && proxy_lines(proxies.push(proxy), outcomes.push(outcome))
                == proxy_lines(proxies, outcomes) + line && line == proxy_line(proxy, outcome),
        exists|line: Seq<char>| #[trigger]
            names(line, sidecar.name) && sidecar_lines(sidecars.push(sidecar)) == sidecar_lines(
                sidecars,
            ) + line,
{
    reveal_strlit("  - **");
    assert("  - **"@.len() == 6);
    let all_modules = modules.push(entry);
    assert(all_modules.drop_last() =~= modules);
    let module_line = "  - **"@ + entry.name + "**: ACTIVE (Loaded natively)\n"@;
    assert(module_line.subrange(0, 6) =~= "  - **"@);
    assert(module_line.subrange(6, 6 + entry.name.len() as int) =~= entry.name);
    assert(names(module_line, entry.name));
    let all_proxies = proxies.push(proxy);
    let all_outcomes = outcomes.push(outcome);
    assert(all_proxies.drop_last() =~= proxies);
    lemma_proxy_lines(proxies, outcomes, outcome);
    let line = proxy_line(proxy, outcome);
    assert(line.subrange(0, 6) =~= "  - **"@);
    assert(line.subrange(6, 6 + proxy.name.len() as int) =~= proxy.name);
    assert(names(line, proxy.name));
    let all_sidecars = sidecars.push(sidecar);
    assert(all_sidecars.drop_last() =~= sidecars);
    let sidecar_line = "  - **"@ + sidecar.name + "**: Configured command: `"@ + sidecar.command
        + "` "@ + joined(sidecar.args, " "@) + "\n"@;
    assert(sidecar_line.subrange(0, 6) =~= "  - **"@);
    assert(sidecar_line.subrange(6, 6 + sidecar.name.len() as int) =~= sidecar.name);
    assert(names(sidecar_line, sidecar.name));
}

/// Whether a line of the report names something: behind the mark of a line.
pub open spec fn names(line: Seq<char>, name: Seq<char>) -> bool {
    &&& line.len() >= 6 + name.len()
    &&& line.subrange(0, 6) == "  - **"@
    &&& line.subrange(6, 6 + name.len() as int) == name
}

proof fn lemma_proxy_lines(
    proxies: Seq<ProxyConfigView>,
    outcomes: Seq<Result<Seq<ToolView>, Seq<char>>>,
    outcome: Result<Seq<ToolView>, Seq<char>>,
)
    requires
        outcomes.len() >= proxies.len(),
    ensures
        proxy_lines(proxies, outcomes.push(outcome)) == proxy_lines(proxies, outcomes),
    decreases proxies.len(),
{
    if proxies.len() > 0 {
        lemma_proxy_lines(proxies.drop_last(), outcomes, outcome);
    }
}

/// A proxy that answered is online, with how many tools it has, and one that did not is
/// offline, with the reason; both with their address.
pub proof fn lemma_proxy_line(proxy: ProxyConfigView, tools: Seq<ToolView>, reason: Seq<char>)
    ensures
        proxy_line(proxy, Ok(tools)) == "  - **"@ + proxy.name + "** ("@ + proxy.url
            + "): ONLINE ("@ + decimal(tools.len()) + " tools registered)\n"@,
        proxy_line(proxy, Err(reason)) == "  - **"@ + proxy.name + "** ("@ + proxy.url
            + "): OFFLINE / UNREACHABLE\n    - *Reason*: "@ + reason + "\n"@,
{
}

/// The report holds the lines of all modules, and those of the proxies and of the
/// sidecars, in this order; where there are none of a kind it says so.
pub proof fn lemma_report_sections(
    registry: RegistryView,
    outcomes: Seq<Result<Seq<ToolView>, Seq<char>>>,
)
    ensures
        contains(registry.status_report(outcomes), module_lines(registry.modules)),
        registry.config.proxies.len() > 0 ==> contains(
            registry.status_report(outcomes),
            proxy_lines(registry.config.proxies, outcomes),
        ),
        registry.config.proxies.len() == 0 ==> contains(
            registry.status_report(outcomes),
            "(No proxy endpoints configured)"@,
        ),
        registry.config.sidecars.len() > 0 ==> contains(
            registry.status_report(outcomes),
            sidecar_lines(registry.config.sidecars),
        ),
        registry.config.sidecars.len() == 0 ==> contains(
            registry.status_report(outcomes),
            "(No sidecar executables configured)"@,
        ),
{
    let report = registry.status_report(outcomes);
    let head = "# omni-mcp System Health & Diagnostic Report\n\n"@
        + "## 1. Native Rust Modules (0ms Overhead, Instant Execution)\n"@;
    let modules = module_lines(registry.modules);
    let second = "\n## 2. Configured Proxies & Remote Endpoints\n"@;
    let proxies = if registry.config.proxies.len() == 0 {
        "  (No proxy endpoints configured)\n"@
    } else {
        proxy_lines(registry.config.proxies, outcomes)
    };
    let third = "\n## 3. Configured Local Sidecars\n"@;
    let sidecars = if registry.config.sidecars.len() == 0 {
        "  (No sidecar executables configured)\n"@
    } else {
        sidecar_lines(registry.config.sidecars)
    };
    assert(report == head + modules + second + proxies + third + sidecars);
    lemma_contains(head, modules, second + proxies + third + sidecars);
    assert(head + modules + (second + proxies + third + sidecars) =~= report);
    let before = head + modules + second;
    lemma_contains(before, proxies, third + sidecars);
    assert(before + proxies + (third + sidecars) =~= report);
    let most = head + modules + second + proxies + third;
    lemma_contains(most, sidecars, seq![]);
    assert(most + sidecars + Seq::<char>::empty() =~= report);
    reveal_strlit("  (No proxy endpoints configured)\n");
    reveal_strlit("(No proxy endpoints configured)");
    reveal_strlit("  (No sidecar executables configured)\n");
    reveal_strlit("(No sidecar executables configured)");
    if registry.config.proxies.len() == 0 {
        let words = "(No proxy endpoints configured)"@;
        lemma_contains(before + seq![' ', ' '], words, seq!['\n'] + (third + sidecars));
        assert(seq![' ', ' '] + words + seq!['\n'] =~= proxies);
        assert(before + seq![' ', ' '] + words + (seq!['\n'] + (third + sidecars)) =~= report);
    }
    if registry.config.sidecars.len() == 0 {
        let words = "(No sidecar executables configured)"@;
        lemma_contains(most + seq![' ', ' '], words, seq!['\n']);
        assert(seq![' ', ' '] + words + seq!['\n'] =~= sidecars);
        assert(most + seq![' ', ' '] + words + seq!['\n'] =~= report);
    }
}

} // verus!
