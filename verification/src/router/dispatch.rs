//! The router: what each request asks for, which backend serves it, and what
//! the client is told.

use vstd::prelude::*;

use super::routes::{
    discovered, lemma_local_names_are_listed, lemma_table_is_consistent, lists,
    strip_injected_timeout, without_timeout, Discovery, DiscoveryView, Routes, RoutesView,
};
use super::status::{
    descriptor, lemma_claimed_names_have_no_other_owner, owns_view, report, status_report, status_tool,
    BackendReport, TOOL_NAME,
};
use crate::backend::headers::{header_contents, HeaderEntry};
use crate::backend::native::{is_native_backend, NativeBackend};
use crate::backend::proxy::{proxy_headers, too_many_headers, ProxyBackend};
use crate::backend::sidecar::SidecarBackend;
use crate::backend::{BackendInfo, BackendInfoView, BackendKind, BackendStatus};
use crate::config::model::{
    enabled_proxy_views, enabled_sidecar_views, Config, ConfigView, Limits, LimitsView,
    ProxyConfigView, SidecarConfigView,
};
use crate::error::{tool_result, ToolError, ToolErrorView, ToolResult};
use crate::json::{Json, JsonNumber, JsonView, item_views, json_number, lemma_item_views};
use crate::protocol::code;
use crate::protocol::jsonrpc::{Request, RequestView, Response, ResponseView};
use crate::protocol::mcp::{
    CallToolResult, CallToolResultView, ContentView, Tool, ToolView, dup_tools,
};
use crate::protocol::version::{negotiated, ProtocolVersion};
use crate::text::{cat3, debug, debug_text, opt_view, same, views};
use crate::time::Duration;

verus! {

/// The answer to `initialize`, negotiating the protocol version against what
/// the client proposed.
pub open spec fn initialize_result(params: JsonView) -> JsonView {
    JsonView::object().with(
        "protocolVersion"@,
        JsonView::Text(negotiated(params.text_field("protocolVersion"@))),
    ).with(
        "capabilities"@,
        JsonView::object().with(
            "tools"@,
            JsonView::object().with("listChanged"@, JsonView::Bool(false)),
        ).with("logging"@, JsonView::object()),
    ).with(
        "serverInfo"@,
        JsonView::object().with("name"@, JsonView::Text("omni-mcp"@)).with(
            "version"@,
            JsonView::Text(crate::VERSION@),
        ),
    )
}

/// Builds the `initialize` result, negotiating the protocol version against
/// what the client proposed.
pub fn initialize(params: &Json) -> (r: Json)
    ensures
        r@ == initialize_result(params@),
{
    let requested: Option<&str> = match params.get_text("protocolVersion") {
        Some(v) => Some(v.as_str()),
        None => None,
    };
    let version = ProtocolVersion::negotiate(requested);
    Json::object().with("protocolVersion", Json::string(version.as_str())).with(
        "capabilities",
        Json::object().with("tools", Json::object().with("listChanged", Json::Bool(false))).with(
            "logging",
            Json::object(),
        ),
    ).with(
        "serverInfo",
        Json::object().with("name", Json::string("omni-mcp")).with(
            "version",
            Json::string(crate::VERSION),
        ),
    )
}

/// What a request asks for.
pub enum Plan {
    /// Nothing: a notification must not be answered.
    Ignore,
    /// This answer.
    Reply(Response),
    /// The list of tools.
    ListTools { id: Option<Json> },
    /// The call of a tool.
    CallTool { id: Option<Json>, params: Option<Json> },
}

/// What a [`Plan`] says.
pub enum PlanView {
    Ignore,
    Reply(ResponseView),
    ListTools { id: Option<JsonView> },
    CallTool { id: Option<JsonView>, params: Option<JsonView> },
}

impl View for Plan {
    type V = PlanView;

    open spec fn view(&self) -> PlanView {
        match self {
            Plan::Ignore => PlanView::Ignore,
            Plan::Reply(response) => PlanView::Reply(response@),
            Plan::ListTools { id } => PlanView::ListTools { id: opt_view(*id) },
            Plan::CallTool { id, params } => PlanView::CallTool {
                id: opt_view(*id),
                params: opt_view(*params),
            },
        }
    }
}

/// What a request asks for.
pub open spec fn planned(request: RequestView) -> PlanView {
    let id = request.id;
    let method = request.method;
    let empty_list = JsonView::Array(seq![]);
    if id is None {
        PlanView::Ignore
    } else if method == "initialize"@ {
        PlanView::Reply(
            ResponseView::success(
                id,
                initialize_result(
                    match request.params {
                        Some(params) => params,
                        None => JsonView::object(),
                    },
                ),
            ),
        )
    } else if method == "tools/list"@ {
        PlanView::ListTools { id }
    } else if method == "tools/call"@ {
        PlanView::CallTool { id, params: request.params }
    } else if method == "prompts/list"@ {
        PlanView::Reply(
            ResponseView::success(id, JsonView::object().with("prompts"@, empty_list)),
        )
    } else if method == "resources/list"@ {
        PlanView::Reply(
            ResponseView::success(id, JsonView::object().with("resources"@, empty_list)),
        )
    } else if method == "resources/templates/list"@ {
        PlanView::Reply(
            ResponseView::success(id, JsonView::object().with("resourceTemplates"@, empty_list)),
        )
    } else if method == "ping"@ || method == "logging/setLevel"@ {
        PlanView::Reply(ResponseView::success(id, JsonView::object()))
    } else {
        PlanView::Reply(
            ResponseView::error(
                id,
                code::METHOD_NOT_FOUND,
                "method "@ + debug_text(method) + " is not supported by omni-mcp"@,
            ),
        )
    }
}

fn empty_list() -> (r: Json)
    ensures
        r@ == JsonView::Array(seq![]),
{
    let none: Vec<Json> = Vec::new();
    assert(item_views(none@) =~= seq![]);
    Json::Array(none)
}

/// Reads what a request asks for.
fn plan(request: Request) -> (r: Plan)
    ensures
        r@ == planned(request@),
{
    if request.is_notification() {
        return Plan::Ignore;
    }
    let params = request.params_or_empty();
    let id = request.id;
    let method: &str = request.method.as_str();
    if same(method, "initialize") {
        Plan::Reply(Response::success(id, initialize(&params)))
    } else if same(method, "tools/list") {
        Plan::ListTools { id }
    } else if same(method, "tools/call") {
        Plan::CallTool { id, params: request.params }
    } else if same(method, "prompts/list") {
        Plan::Reply(Response::success(id, Json::object().with("prompts", empty_list())))
    } else if same(method, "resources/list") {
        Plan::Reply(Response::success(id, Json::object().with("resources", empty_list())))
    } else if same(method, "resources/templates/list") {
        Plan::Reply(Response::success(id, Json::object().with("resourceTemplates", empty_list())))
    } else if same(method, "ping") || same(method, "logging/setLevel") {
        Plan::Reply(Response::success(id, Json::object()))
    } else {
        Plan::Reply(
            Response::error(
                id,
                code::METHOD_NOT_FOUND,
                cat3("method ", &debug(method), " is not supported by omni-mcp"),
            ),
        )
    }
}

/// How long the caller of a tool wants to wait, in milliseconds: the `timeout` or
/// `timeout_ms` argument in whole seconds, or else the configured default.
pub open spec fn wanted_millis(limits: LimitsView, arguments: JsonView) -> nat {
    match arguments.unsigned_field("timeout"@) {
        Some(secs) => 1000 * secs as nat,
        None => match arguments.unsigned_field("timeout_ms"@) {
            Some(ms) => 1000 * ((ms + 999) / 1000) as nat,
            None => limits.default_tool_timeout,
        },
    }
}

/// The longest deadline of a call in milliseconds: the configured maximum, or one
/// second where none is configured.
pub open spec fn most_millis(limits: LimitsView) -> nat {
    if limits.max_tool_timeout == 0 {
        1000
    } else {
        limits.max_tool_timeout
    }
}

/// The deadline of a call in milliseconds: what the caller wants, at most the
/// configured maximum, and at least one second where the maximum allows it.
pub open spec fn deadline_millis(limits: LimitsView, arguments: JsonView) -> nat {
    let wanted = wanted_millis(limits, arguments);
    let least: nat = if wanted < 1000 {
        1000
    } else {
        wanted
    };
    if least > most_millis(limits) {
        most_millis(limits)
    } else {
        least
    }
}

/// Chooses the deadline for a call: the caller's `timeout`/`timeout_ms`
/// argument if present, clamped to the configured maximum.
pub fn deadline(limits: &Limits, arguments: &Json) -> (r: Duration)
    ensures
        r@ == deadline_millis(limits@, arguments@),
        limits@.max_tool_timeout > 0 ==> r@ <= limits@.max_tool_timeout,
{
    let wanted: Duration = match arguments.get_unsigned("timeout") {
        Some(secs) => Duration::from_secs(secs),
        None => match arguments.get_unsigned("timeout_ms") {
            Some(ms) => Duration::from_secs(
                if ms % 1000 == 0 {
                    ms / 1000
                } else {
                    ms / 1000 + 1
                },
            ),
            None => limits.default_tool_timeout.get(),
        },
    };
    let second = Duration::from_secs(1);
    let cap: Duration = limits.max_tool_timeout.get();
    let most: Duration = if cap.exceeds(&Duration::from_secs(0)) {
        cap
    } else {
        second
    };
    let least: Duration = if second.exceeds(&wanted) {
        second
    } else {
        wanted
    };
    least.min(most)
}

/// What the parameters of `tools/call` ask for.
pub enum CallPlan {
    /// This answer: the parameters are unusable.
    Reply(Response),
    /// Run `name` with `arguments` within `timeout`.
    Run { id: Option<Json>, name: String, arguments: Json, timeout: Duration },
}

/// What a [`CallPlan`] says.
pub enum CallPlanView {
    Reply(ResponseView),
    Run { id: Option<JsonView>, name: Seq<char>, arguments: JsonView, timeout: nat },
}

impl View for CallPlan {
    type V = CallPlanView;

    open spec fn view(&self) -> CallPlanView {
        match self {
            CallPlan::Reply(response) => CallPlanView::Reply(response@),
            CallPlan::Run { id, name, arguments, timeout } => CallPlanView::Run {
                id: opt_view(*id),
                name: name@,
                arguments: arguments@,
                timeout: timeout@,
            },
        }
    }
}

/// What the parameters of `tools/call` ask for.
pub open spec fn planned_call(
    limits: LimitsView,
    id: Option<JsonView>,
    params: Option<JsonView>,
) -> CallPlanView {
    match params {
        None => CallPlanView::Reply(
            ResponseView::error(id, code::INVALID_PARAMS, "tools/call requires params"@),
        ),
        Some(params) => match params.text_field("name"@) {
            None => CallPlanView::Reply(
                ResponseView::error(id, code::INVALID_PARAMS, "tools/call requires a tool name"@),
            ),
            Some(name) => {
                let arguments = match params.field("arguments"@) {
                    Some(arguments) => arguments,
                    None => JsonView::object(),
                };
                CallPlanView::Run {
                    id,
                    name,
                    arguments,
                    timeout: deadline_millis(limits, arguments),
                }
            },
        },
    }
}

/// Reads what the parameters of `tools/call` ask for.
pub fn plan_call(limits: &Limits, id: Option<Json>, params: Option<Json>) -> (r: CallPlan)
    ensures
        r@ == planned_call(limits@, opt_view(id), opt_view(params)),
{
    let params = match params {
        None => {
            return CallPlan::Reply(
                Response::error(
                    id,
                    code::INVALID_PARAMS,
                    "tools/call requires params".to_owned(),
                ),
            );
        },
        Some(params) => params,
    };
    let name = match params.get_text("name") {
        None => {
            return CallPlan::Reply(
                Response::error(
                    id,
                    code::INVALID_PARAMS,
                    "tools/call requires a tool name".to_owned(),
                ),
            );
        },
        Some(name) => name.clone(),
    };
    let arguments = match params.get("arguments") {
        Some(arguments) => arguments.dup(),
        None => Json::object(),
    };
    let timeout = deadline(limits, &arguments);
    CallPlan::Run { id, name, arguments, timeout }
}

/// The answer to a call: a tool that fails is a *result*, not a transport
/// error, because the model needs to read the message and try something else;
/// bad arguments and unknown tools are protocol errors.
pub open spec fn call_response(
    id: Option<JsonView>,
    outcome: Result<CallToolResultView, ToolErrorView>,
) -> ResponseView {
    match outcome {
        Ok(result) => ResponseView::success(id, result.encoded()),
        Err(err) => match err {
            ToolErrorView::InvalidArguments(_) | ToolErrorView::NotFound(_) => ResponseView::error(
                id,
                err.rpc_code(),
                err.message(),
            ),
            _ => ResponseView::success(id, CallToolResultView::error(err.message()).encoded()),
        },
    }
}

/// Writes the answer to a call.
pub fn finish_call(id: Option<Json>, outcome: ToolResult<CallToolResult>) -> (r: Response)
    ensures
        r@ == call_response(opt_view(id), tool_result(outcome)),
{
    match outcome {
        Ok(result) => Response::success(id, result.into_value()),
        Err(err) => match err {
            ToolError::InvalidArguments(_) => Response::error(id, err.rpc_code(), err.message()),
            ToolError::NotFound(_) => Response::error(id, err.rpc_code(), err.message()),
            _ => Response::success(id, CallToolResult::error(err.message()).into_value()),
        },
    }
}

/// The answer to `tools/list`.
pub open spec fn list_response(id: Option<JsonView>, tools: Seq<ToolView>) -> ResponseView {
    ResponseView::success(
        id,
        JsonView::object().with(
            "tools"@,
            JsonView::Array(tools.map_values(|t: ToolView| t.encoded())),
        ),
    )
}

/// Writes the answer to `tools/list`.
pub fn finish_list(id: Option<Json>, tools: &Vec<Tool>) -> (r: Response)
    ensures
        r@ == list_response(opt_view(id), views(tools@)),
{
    let mut items: Vec<Json> = Vec::new();
    let mut i: usize = 0;
    while i < tools.len()
        invariant
            0 <= i <= tools@.len(),
            items@.len() == i,
            forall|k: int| 0 <= k < i ==> (#[trigger] items@[k])@ == tools@[k]@.encoded(),
        decreases tools@.len() - i,
    {
        items.push(tools[i].to_json());
        i += 1;
    }
    proof {
        lemma_item_views(items@);
        let wanted = views(tools@).map_values(|t: ToolView| t.encoded());
        assert forall|k: int| 0 <= k < items@.len() implies item_views(items@)[k] == wanted[k] by {
            assert(items@[k]@ == tools@[k]@.encoded());
        }
        assert(item_views(items@) =~= wanted);
    }
    Response::success(id, Json::object().with("tools", Json::Array(items)))
}

/// The call of a tool at the backend that owns it.
pub struct Dispatch {
    /// The index of the backend.
    pub index: usize,
    /// The backend's own name of the tool.
    pub local_name: String,
    /// The arguments without what the gateway added.
    pub arguments: Json,
}

/// What a [`Dispatch`] says.
pub struct DispatchView {
    pub index: usize,
    pub local_name: Seq<char>,
    pub arguments: JsonView,
}

impl View for Dispatch {
    type V = DispatchView;

    open spec fn view(&self) -> DispatchView {
        DispatchView {
            index: self.index,
            local_name: self.local_name@,
            arguments: self.arguments@,
        }
    }
}

/// What the owner of a name calls the tool.
pub open spec fn local_of(table: RoutesView, name: Seq<char>) -> Seq<char> {
    if table.locals.contains_key(name) {
        table.locals[name]
    } else {
        name
    }
}

/// Where a call goes: to the owner of the name, or nowhere.
pub open spec fn dispatched(
    backends: Seq<BackendInfoView>,
    routes: Option<RoutesView>,
    name: Seq<char>,
    arguments: JsonView,
) -> Option<DispatchView> {
    match routes {
        None => None,
        Some(table) => if table.owners.contains_key(name) && table.owners[name] < backends.len() {
            let index = table.owners[name];
            Some(
                DispatchView {
                    index,
                    local_name: local_of(table, name),
                    arguments: if table.augmented.contains(name) {
                        without_timeout(arguments)
                    } else {
                        arguments
                    },
                },
            )
        } else {
            None
        },
    }
}

/// The backends of a configuration: the native tools come first so they always
/// win a name collision against a remote server, then the sidecars, then the
/// proxies.
pub open spec fn backend_infos(config: ConfigView) -> Seq<BackendInfoView> {
    seq![BackendInfoView { name: "native"@, kind: BackendKind::Native, prefix: None }]
        + enabled_sidecar_views(config.sidecars).map_values(
        |s: SidecarConfigView|
            BackendInfoView { name: s.name, kind: BackendKind::Sidecar, prefix: s.prefix },
    ) + enabled_proxy_views(config.proxies).map_values(
        |p: ProxyConfigView|
            BackendInfoView { name: p.name, kind: BackendKind::Proxy, prefix: p.prefix },
    )
}

/// The positions, among all backends, of the sidecars that are not lazy.
pub open spec fn eager_positions(sidecars: Seq<SidecarConfigView>) -> Seq<usize>
    decreases sidecars.len(),
{
    if sidecars.len() == 0 {
        seq![]
    } else {
        let front = eager_positions(sidecars.drop_last());
        if sidecars.last().lazy {
            front
        } else {
            front.push(sidecars.len() as usize)
        }
    }
}

/// Which backends are started before anything is asked of them: the enabled
/// sidecars that are not lazy. All others wait for their first use.
pub fn warm_up_backends(config: &Config) -> (r: Vec<usize>)
    ensures
        r@ == eager_positions(enabled_sidecar_views(config@.sidecars)),
{
    let sidecars = config.enabled_sidecars();
    let ghost all = views(sidecars@);
    let mut out: Vec<usize> = Vec::new();
    let mut i: usize = 0;
    assert(all.take(0) =~= seq![]);
    while i < sidecars.len()
        invariant
            0 <= i <= sidecars@.len(),
            all == views(sidecars@),
            out@ == eager_positions(all.take(i as int)),
        decreases sidecars@.len() - i,
    {
        proof {
            assert(all.take(i + 1).drop_last() =~= all.take(i as int));
            assert(all.take(i + 1).last() == sidecars@[i as int]@);
        }
        i += 1;
        if !sidecars[i - 1].lazy {
            out.push(i);
        }
    }
    assert(all.take(i as int) =~= all);
    out
}

fn dup_prefix(prefix: &Option<String>) -> (r: Option<String>)
    ensures
        opt_view(r) == opt_view(*prefix),
{
    match prefix {
        Some(p) => Some(p.clone()),
        None => None,
    }
}

/// The gateway's view of its backends.
pub struct Router {
    backends: Vec<BackendInfo>,
    routes: Option<Routes>,
    config: Config,
    discoveries: u64,
}

/// What a [`Router`] holds.
pub struct RouterView {
    pub backends: Seq<BackendInfoView>,
    /// What every backend serves, once it was asked.
    pub routes: Option<RoutesView>,
    pub config: ConfigView,
    /// How many discovery sweeps have run.
    pub discoveries: u64,
}

impl View for Router {
    type V = RouterView;

    closed spec fn view(&self) -> RouterView {
        RouterView {
            backends: views(self.backends@),
            routes: opt_view(self.routes),
            config: self.config@,
            discoveries: self.discoveries,
        }
    }
}

/// The backend that a routing table gives a name to.
pub open spec fn owner_in(routes: Option<RoutesView>, name: Seq<char>) -> Option<usize> {
    match routes {
        Some(table) => if table.owners.contains_key(name) {
            Some(table.owners[name])
        } else {
            None
        },
        None => None,
    }
}

impl RouterView {
    /// The tools that are advertised: the report of the gateway itself, and those in
    /// the table.
    pub open spec fn listed(self) -> Seq<ToolView> {
        seq![status_tool()] + match self.routes {
            Some(table) => table.tools,
            None => seq![],
        }
    }

    /// The backends that own the tools that are advertised, one by one.
    pub open spec fn listed_owners(self) -> Seq<Option<usize>> {
        self.listed().map_values(|tool: ToolView| owner_in(self.routes, tool.name))
    }

    /// Whether the table has to be discovered before it is used: it is missing
    /// or, at the age of `elapsed` milliseconds, past its time to live.
    pub open spec fn is_due(self, elapsed: nat) -> bool {
        self.routes is None || elapsed >= self.config.limits.discovery_ttl
    }

    /// The router after a sweep over all backends.
    pub open spec fn refreshed(self, results: Seq<DiscoveryView>) -> RouterView {
        RouterView {
            routes: Some(discovered(results)),
            discoveries: if self.discoveries == u64::MAX {
                0
            } else {
                (self.discoveries + 1) as u64
            },
            ..self
        }
    }
}

impl Router {
    /// A router over the backends of a configuration, none of which was asked
    /// for its tools yet.
    pub fn new(config: Config) -> (r: Router)
        ensures
            r@ == (RouterView {
                backends: backend_infos(config@),
                routes: None,
                config: config@,
                discoveries: 0,
            }),
    {
        let mut backends: Vec<BackendInfo> = Vec::new();
        backends.push(
            BackendInfo { name: "native".to_owned(), kind: BackendKind::Native, prefix: None },
        );
        let sidecars = config.enabled_sidecars();
        let mut i: usize = 0;
        while i < sidecars.len()
            invariant
                0 <= i <= sidecars@.len(),
                backends@.len() == 1 + i,
                backends@[0]@ == (BackendInfoView {
                    name: "native"@,
                    kind: BackendKind::Native,
                    prefix: None,
                }),
                forall|k: int|
                    0 <= k < i ==> (#[trigger] backends@[1 + k])@ == (BackendInfoView {
                        name: sidecars@[k]@.name,
                        kind: BackendKind::Sidecar,
                        prefix: sidecars@[k]@.prefix,
                    }),
            decreases sidecars@.len() - i,
        {
            backends.push(
                BackendInfo {
                    name: sidecars[i].name.clone(),
                    kind: BackendKind::Sidecar,
                    prefix: dup_prefix(&sidecars[i].prefix),
                },
            );
            i += 1;
        }
        let proxies = config.enabled_proxies();
        let ghost n = 1 + sidecars@.len();
        let mut j: usize = 0;
        while j < proxies.len()
            invariant
                n == 1 + sidecars@.len(),
                0 <= j <= proxies@.len(),
                backends@.len() == n + j,
                backends@[0]@ == (BackendInfoView {
                    name: "native"@,
                    kind: BackendKind::Native,
                    prefix: None,
                }),
                forall|k: int|
                    0 <= k < sidecars@.len() ==> (#[trigger] backends@[1 + k])@ == (
                    BackendInfoView {
                        name: sidecars@[k]@.name,
                        kind: BackendKind::Sidecar,
                        prefix: sidecars@[k]@.prefix,
                    }),
                forall|k: int|
                    0 <= k < j ==> (#[trigger] backends@[n + k])@ == (BackendInfoView {
                        name: proxies@[k]@.name,
                        kind: BackendKind::Proxy,
                        prefix: proxies@[k]@.prefix,
                    }),
            decreases proxies@.len() - j,
        {
            backends.push(
                BackendInfo {
                    name: proxies[j].name.clone(),
                    kind: BackendKind::Proxy,
                    prefix: dup_prefix(&proxies[j].prefix),
                },
            );
            j += 1;
        }
        proof {
            let wanted = backend_infos(config@);
            assert(views(sidecars@) == enabled_sidecar_views(config@.sidecars));
            assert(views(proxies@) == enabled_proxy_views(config@.proxies));
            assert forall|k: int| 0 <= k < backends@.len() implies views(backends@)[k]
                == wanted[k] by {
                if k == 0 {
                } else if k < n {
                    assert(backends@[1 + (k - 1)]@.name == sidecars@[k - 1]@.name);
                    assert(views(sidecars@)[k - 1] == sidecars@[k - 1]@);
                } else {
                    assert(backends@[n + (k - n)]@.name == proxies@[k - n]@.name);
                    assert(views(proxies@)[k - n] == proxies@[k - n]@);
                }
            }
            assert(views(backends@) =~= wanted);
        }
        Router { backends, routes: None, config, discoveries: 0 }
    }

    /// The backends, in the order in which they claim names.
    pub fn backends(&self) -> (r: &Vec<BackendInfo>)
        ensures
            views(r@) == self@.backends,
    {
        &self.backends
    }

    /// The limits that the configuration sets.
    pub fn config(&self) -> (r: &Config)
        ensures
            r@ == self@.config,
    {
        &self.config
    }

    /// Reads what one JSON-RPC message asks for.
    pub fn handle(&self, request: Request) -> (r: Plan)
        ensures
            r@ == planned(request@),
    {
        plan(request)
    }

    /// Whether the table has to be discovered before it is used: it is missing
    /// or, at the age of `elapsed`, past its time to live.
    pub fn needs_discovery(&self, elapsed: &Duration) -> (r: bool)
        ensures
            r == self@.is_due(elapsed@),
    {
        match &self.routes {
            None => true,
            Some(_) => Routes::is_stale(elapsed, &self.config.limits.discovery_ttl.get()),
        }
    }

    /// Takes in what one sweep over all backends found, and counts the sweep.
    pub fn refresh(&mut self, results: Vec<Discovery>)
        ensures
            final(self)@ == old(self)@.refreshed(views(results@)),
    {
        self.discoveries = if self.discoveries == u64::MAX {
            0
        } else {
            self.discoveries + 1
        };
        self.routes = Some(Routes::discover(results));
    }

    /// Number of discovery sweeps performed so far.
    pub fn discovery_count(&self) -> (r: u64)
        ensures
            r == self@.discoveries,
    {
        self.discoveries
    }

    /// Every tool the gateway advertises: its own diagnostic first, then those
    /// of the table.
    pub fn list_tools(&self) -> (r: Vec<Tool>)
        ensures
            views(r@) == self@.listed(),
    {
        let mut tools: Vec<Tool> = Vec::new();
        tools.push(descriptor());
        assert(views(tools@) =~= seq![status_tool()]);
        match &self.routes {
            Some(routes) => {
                let mut more = dup_tools(routes.tools());
                let ghost front = tools@;
                let ghost back = more@;
                tools.append(&mut more);
                assert(views(tools@) =~= views(front) + views(back));
            },
            None => {
                assert(seq![status_tool()] + seq![] =~= seq![status_tool()]);
            },
        }
        tools
    }

    /// Resolves `name` to its owning backend: the backend, its own name of the
    /// tool, and the arguments it is to be called with.
    pub fn dispatch(&self, name: &str, arguments: Json) -> (r: Option<Dispatch>)
        ensures
            opt_view(r) == dispatched(self@.backends, self@.routes, name@, arguments@),
    {
        let routes = match &self.routes {
            None => {
                return None;
            },
            Some(routes) => routes,
        };
        match routes.owner(name) {
            None => None,
            Some(index) => {
                if index >= self.backends.len() {
                    return None;
                }
                let local_name = match routes.local_name(name) {
                    Some(local) => local,
                    None => name.to_owned(),
                };
                let arguments = if routes.was_augmented(name) {
                    strip_injected_timeout(arguments)
                } else {
                    arguments
                };
                Some(Dispatch { index, local_name, arguments })
            },
        }
    }

    /// The report of `omni_status`, given how each backend is doing.
    pub fn status_report(&self, backends: &Vec<BackendReport>) -> (r: CallToolResult)
        ensures
            r@ == CallToolResultView::structured(
                status_report(
                    views(backends@),
                    self@.listed(),
                    self@.listed_owners(),
                    match self@.routes {
                        Some(table) => table.failures,
                        None => seq![],
                    },
                    self@.discoveries,
                ),
            ),
    {
        let tools = self.list_tools();
        let mut owners: Vec<Option<usize>> = Vec::new();
        let mut i: usize = 0;
        while i < tools.len()
            invariant
                0 <= i <= tools@.len(),
                views(tools@) == self@.listed(),
                owners@.len() == i,
                forall|k: int|
                    0 <= k < i ==> #[trigger] owners@[k] == owner_in(self@.routes, tools@[k].name@),
            decreases tools@.len() - i,
        {
            owners.push(
                match &self.routes {
                    Some(routes) => routes.owner(&tools[i].name),
                    None => None,
                },
            );
            i += 1;
        }
        proof {
            assert forall|k: int| 0 <= k < owners@.len() implies owners@[k]
                == self@.listed_owners()[k] by {
                assert(views(tools@)[k] == tools@[k]@);
            }
            assert(owners@ =~= self@.listed_owners());
        }
        match &self.routes {
            Some(routes) => report(backends, &tools, &owners, routes.failures(), self.discoveries),
            None => {
                let none: Vec<(String, String)> = Vec::new();
                assert(views(none@) =~= seq![]);
                report(backends, &tools, &owners, &none, self.discoveries)
            },
        }
    }
}

/// What a call asks for next.
pub enum InvokeStep {
    /// The report of how the backends are doing.
    Report,
    /// The call of a tool at its backend.
    Call(Dispatch),
    /// A new discovery: the tool may have appeared since the last one.
    Refresh,
    /// Nothing: the call has failed.
    Fail(ToolError),
}

/// What an [`InvokeStep`] says.
pub enum InvokeStepView {
    Report,
    Call(DispatchView),
    Refresh,
    Fail(ToolErrorView),
}

impl View for InvokeStep {
    type V = InvokeStepView;

    open spec fn view(&self) -> InvokeStepView {
        match self {
            InvokeStep::Report => InvokeStepView::Report,
            InvokeStep::Call(dispatch) => InvokeStepView::Call(dispatch@),
            InvokeStep::Refresh => InvokeStepView::Refresh,
            InvokeStep::Fail(err) => InvokeStepView::Fail(err@),
        }
    }
}

/// What a call asks for next: a name that nobody owns is looked up once more
/// after a new discovery, and then given up.
pub open spec fn invoke_step(
    backends: Seq<BackendInfoView>,
    routes: Option<RoutesView>,
    name: Seq<char>,
    arguments: JsonView,
    refreshed: bool,
) -> InvokeStepView {
    if name == TOOL_NAME@ {
        InvokeStepView::Report
    } else {
        match dispatched(backends, routes, name, arguments) {
            Some(dispatch) => InvokeStepView::Call(dispatch),
            None => if refreshed {
                InvokeStepView::Fail(ToolErrorView::NotFound(name))
            } else {
                InvokeStepView::Refresh
            },
        }
    }
}

impl Router {
    /// What the call of `name` asks for next. `refreshed` says whether the table
    /// was discovered anew for this call.
    pub fn invoke(&self, name: &str, arguments: &Json, refreshed: bool) -> (r: InvokeStep)
        ensures
            r@ == invoke_step(self@.backends, self@.routes, name@, arguments@, refreshed),
    {
        if same(name, TOOL_NAME) {
            return InvokeStep::Report;
        }
        match self.dispatch(name, arguments.dup()) {
            Some(dispatch) => InvokeStep::Call(dispatch),
            None => if refreshed {
                InvokeStep::Fail(ToolError::NotFound(name.to_owned()))
            } else {
                InvokeStep::Refresh
            },
        }
    }
}

/// A router and the backends that it speaks of.
pub struct Gateway {
    pub router: Router,
    pub native: NativeBackend,
    /// The enabled sidecars.
    pub sidecars: Vec<SidecarBackend>,
    /// The enabled proxies.
    pub proxies: Vec<ProxyBackend>,
}

/// Whether a backend is a sidecar of this configuration that was never started.
pub open spec fn is_new_sidecar(backend: SidecarBackend, config: SidecarConfigView) -> bool {
    backend.config@ == config && backend.last_error is None
}

/// Whether a backend is a proxy of this configuration that was never contacted.
pub open spec fn is_new_proxy(backend: ProxyBackend, config: ProxyConfigView) -> bool {
    &&& backend.config@ == config
    &&& proxy_headers(config) == Ok::<Map<Seq<char>, HeaderEntry>, ToolErrorView>(
        header_contents(backend.headers),
    )
    &&& backend.last_error is None
    &&& !backend.contacted
    &&& backend.next_id == 1
}

/// Whether `err` says why no client can be built for a proxy.
pub open spec fn is_proxy_refusal(config: ProxyConfigView, err: ToolErrorView) -> bool {
    ||| proxy_headers(config) == Err::<Map<Seq<char>, HeaderEntry>, ToolErrorView>(err)
    ||| config.headers.len() >= 6_550 && err == too_many_headers(config.name)
}

impl Router {
    /// Builds every configured backend. `canonical` says, allowed root by
    /// allowed root, what the filesystem resolves it to. It fails only where a
    /// header of an enabled proxy is unusable, and then says which.
    pub fn build(config: Config, canonical: &Vec<Option<String>>) -> (r: Result<
        Gateway,
        ToolError,
    >)
        ensures
            match r {
                Ok(gateway) => {
                    let sidecars = enabled_sidecar_views(config@.sidecars);
                    let proxies = enabled_proxy_views(config@.proxies);
                    &&& gateway.router@ == (RouterView {
                        backends: backend_infos(config@),
                        routes: None,
                        config: config@,
                        discoveries: 0,
                    })
                    &&& is_native_backend(gateway.native@, config@, canonical@)
                    &&& gateway.sidecars@.len() == sidecars.len()
                    &&& forall|k: int|
                        0 <= k < sidecars.len() ==> is_new_sidecar(
                            #[trigger] gateway.sidecars@[k],
                            sidecars[k],
                        )
                    &&& gateway.proxies@.len() == proxies.len()
                    &&& forall|k: int|
                        0 <= k < proxies.len() ==> is_new_proxy(
                            #[trigger] gateway.proxies@[k],
                            proxies[k],
                        )
                },
                Err(err) => {
                    let proxies = enabled_proxy_views(config@.proxies);
                    exists|k: int|
                        #![trigger proxies[k]]
                        {
                            &&& 0 <= k < proxies.len()
                            &&& is_proxy_refusal(proxies[k], err@)
                            &&& forall|j: int|
                                0 <= j < k ==> proxy_headers(#[trigger] proxies[j]) is Ok
                        }
                },
            },
    {
        let native = NativeBackend::from_config(&config, canonical);
        let mut sidecars: Vec<SidecarBackend> = Vec::new();
        let wanted = config.enabled_sidecars();
        let ghost sidecar_views = enabled_sidecar_views(config@.sidecars);
        let mut i: usize = 0;
        while i < wanted.len()
            invariant
                0 <= i <= wanted@.len(),
                views(wanted@) == sidecar_views,
                sidecars@.len() == i,
                forall|k: int|
                    0 <= k < i ==> is_new_sidecar(#[trigger] sidecars@[k], sidecar_views[k]),
            decreases wanted@.len() - i,
        {
            assert(views(wanted@)[i as int] == wanted@[i as int]@);
            sidecars.push(SidecarBackend::new(wanted[i].dup()));
            i += 1;
        }
        let mut proxies: Vec<ProxyBackend> = Vec::new();
        let remote = config.enabled_proxies();
        let ghost proxy_views = enabled_proxy_views(config@.proxies);
        let mut j: usize = 0;
        while j < remote.len()
            invariant
                0 <= j <= remote@.len(),
                views(remote@) == proxy_views,
                proxies@.len() == j,
                forall|k: int|
                    0 <= k < j ==> is_new_proxy(#[trigger] proxies@[k], proxy_views[k]),
                proxy_views == enabled_proxy_views(config@.proxies),
            decreases remote@.len() - j,
        {
            assert(views(remote@)[j as int] == remote@[j as int]@);
            match ProxyBackend::new(remote[j].dup()) {
                Ok(proxy) => proxies.push(proxy),
                Err(err) => {
                    assert(is_proxy_refusal(proxy_views[j as int], err@));
                    assert forall|k: int| 0 <= k < j implies proxy_headers(
                        #[trigger] proxy_views[k],
                    ) is Ok by {
                        assert(is_new_proxy(proxies@[k], proxy_views[k]));
                    }
                    return Err(err);
                },
            }
            j += 1;
        }
        assert(views(wanted@).len() == wanted@.len());
        assert(views(remote@).len() == remote@.len());
        Ok(Gateway { router: Router::new(config), native, sidecars, proxies })
    }
}

/// A notification is never answered and starts no work; everything else is.
pub proof fn lemma_notifications_are_never_answered(request: RequestView)
    ensures
        planned(request) is Ignore <==> request.id is None,
{
}

/// Every answer carries the id of its request, whichever way it is come by.
pub proof fn lemma_answers_carry_the_request_id(
    request: RequestView,
    limits: LimitsView,
    outcome: Result<CallToolResultView, ToolErrorView>,
    tools: Seq<ToolView>,
)
    requires
        request.id is Some,
    ensures
        match planned(request) {
            PlanView::Ignore => false,
            PlanView::Reply(response) => response.id == request.id,
            PlanView::ListTools { id } => list_response(id, tools).id == request.id,
            PlanView::CallTool { id, params } => match planned_call(limits, id, params) {
                CallPlanView::Reply(response) => response.id == request.id,
                CallPlanView::Run { id, .. } => call_response(id, outcome).id == request.id,
            },
        },
{
}

/// The deadline of a call is never above the configured maximum, whatever the
/// caller asks for; it is at least one second where the maximum is, and what was
/// asked for where that lies between the two.
pub proof fn lemma_deadline_is_bounded(limits: LimitsView, arguments: JsonView)
    requires
        limits.max_tool_timeout > 0,
    ensures
        0 < deadline_millis(limits, arguments) <= limits.max_tool_timeout,
        limits.max_tool_timeout >= 1000 ==> deadline_millis(limits, arguments) >= 1000,
        1000 <= wanted_millis(limits, arguments) <= limits.max_tool_timeout ==> deadline_millis(
            limits,
            arguments,
        ) == wanted_millis(limits, arguments),
{
}

/// A call reaches the backend that owns its name and no other, under a name that
/// this backend listed; a name that nobody owns reaches none, so that its
/// arguments are never shown to a backend.
pub proof fn lemma_calls_reach_only_the_owner(
    results: Seq<DiscoveryView>,
    backends: Seq<BackendInfoView>,
    name: Seq<char>,
    arguments: JsonView,
)
    requires
        results.len() <= usize::MAX,
    ensures
        match dispatched(backends, Some(discovered(results)), name, arguments) {
            Some(d) => {
                &&& discovered(results).owners.contains_key(name)
                &&& d.index == discovered(results).owners[name]
                &&& d.index < results.len()
                &&& lists(results[d.index as int], d.local_name)
                &&& exists|i: int|
                    0 <= i < discovered(results).tools.len() && (#[trigger] discovered(
                        results,
                    ).tools[i]).name == name
            },
            None => !discovered(results).owners.contains_key(name)
                || discovered(results).owners[name] >= backends.len(),
        },
{
    lemma_table_is_consistent(results);
    if discovered(results).owners.contains_key(name) {
        lemma_local_names_are_listed(results, name);
    }
}

/// A call is given up only after the table was discovered anew for it, and only
/// where the new table has no owner for the name either.
pub proof fn lemma_a_miss_is_looked_up_once_more(
    backends: Seq<BackendInfoView>,
    before: Option<RoutesView>,
    after: Option<RoutesView>,
    name: Seq<char>,
    arguments: JsonView,
)
    ensures
        !(invoke_step(backends, before, name, arguments, false) is Fail),
        !(invoke_step(backends, after, name, arguments, true) is Refresh),
        invoke_step(backends, after, name, arguments, true) is Fail <==> name != TOOL_NAME@
            && dispatched(backends, after, name, arguments) is None,
{
}

/// A tool that fails is a successful response that is flagged; bad arguments
/// and unknown tools are protocol errors with their own codes.
pub proof fn lemma_tool_failures_are_results(id: Option<JsonView>, err: ToolErrorView)
    ensures
        err is Failed || err is Unavailable || err is Denied || err is Timeout ==> call_response(
            id,
            Err(err),
        ).error is None,
        err is InvalidArguments ==> (call_response(id, Err(err)).error matches Some(e) && e.code
            == code::INVALID_PARAMS),
        err is NotFound ==> (call_response(id, Err(err)).error matches Some(e) && e.code
            == code::METHOD_NOT_FOUND),
{
}

/// A table is swept for once and then kept: right after a sweep, and until its
/// time to live has passed, none is due, whatever the sweep found; then one is
/// due again.
pub proof fn lemma_a_fresh_table_is_kept(
    router: RouterView,
    results: Seq<DiscoveryView>,
    elapsed: nat,
)
    ensures
        router.refreshed(results).is_due(elapsed) <==> elapsed
            >= router.config.limits.discovery_ttl,
        router.discoveries < u64::MAX ==> router.refreshed(results).discoveries
            == router.discoveries + 1,
        router.refreshed(results).backends == router.backends,
        router.refreshed(results).config == router.config,
{
}

/// A lazy sidecar is never started ahead of its first use, and every other one is:
/// a backend is warmed up exactly where it is an enabled sidecar that is not lazy.
pub proof fn lemma_lazy_sidecars_wait(sidecars: Seq<SidecarConfigView>, index: usize)
    requires
        sidecars.len() <= usize::MAX,
    ensures
        eager_positions(sidecars).contains(index) <==> 1 <= index <= sidecars.len() && !sidecars[
        index - 1].lazy,
    decreases sidecars.len(),
{
    if sidecars.len() > 0 {
        let front = sidecars.drop_last();
        lemma_lazy_sidecars_wait(front, index);
        let list = eager_positions(front);
        let last = sidecars.len() as usize;
        if !sidecars.last().lazy {
            assert(list.push(last)[list.len() as int] == last);
            if list.contains(index) {
                let k = choose|k: int| 0 <= k < list.len() && list[k] == index;
                assert(list.push(last)[k] == index);
            }
        }
        if 1 <= index <= front.len() {
            assert(front[index - 1] == sidecars[index - 1]);
        }
    }
}

/// After a sweep every tool of a backend that is advertised has one owner, so that
/// the report counts it for no other backend without a prefix.
pub proof fn lemma_advertised_tools_have_one_owner(
    before: RouterView,
    results: Seq<DiscoveryView>,
    k: int,
    prefix: Option<Seq<char>>,
    index: usize,
)
    requires
        results.len() <= usize::MAX,
        0 < k < before.refreshed(results).listed().len(),
        prefix matches Some(p) ==> p.len() == 0,
    ensures
        before.refreshed(results).listed_owners()[k] matches Some(owner) && owner < results.len()
            && (owns_view(
            prefix,
            index,
            before.refreshed(results).listed()[k].name,
            Some(owner),
        ) <==> index == owner),
{
    let table = discovered(results);
    lemma_table_is_consistent(results);
    let name = before.refreshed(results).listed()[k].name;
    assert(name == table.tools[k - 1].name);
    assert(table.owners.contains_key(name));
    lemma_local_names_are_listed(results, name);
    lemma_claimed_names_have_no_other_owner(prefix, index, name, table.owners[name]);
}

/// A caller that gives a deadline in seconds gets it, one that gives it in
/// milliseconds gets the next whole second, and one that gives none gets the default;
/// seconds win over milliseconds. No deadline is under a second or over the maximum.
pub proof fn lemma_deadline_follows_the_caller(
    limits: LimitsView,
    arguments: JsonView,
    secs: u64,
    millis: u64,
)
    requires
        limits.max_tool_timeout >= 1000,
    ensures
        ({
            let deadline = deadline_millis(limits, arguments) as int;
            let most = limits.max_tool_timeout as int;
            let given = arguments.field("timeout"@) matches Some(JsonView::Number(
                JsonNumber::Unsigned(_),
            ));
            let given_millis = arguments.field("timeout_ms"@) matches Some(JsonView::Number(
                JsonNumber::Unsigned(_),
            ));
            &&& arguments.field("timeout"@) == Some(json_number(secs)) ==> {
                &&& secs == 0 ==> deadline == 1000
                &&& 0 < secs && 1000 * secs <= most ==> deadline == 1000 * secs
                &&& 1000 * secs > most ==> deadline == most
            }
            &&& !given && arguments.field("timeout_ms"@) == Some(json_number(millis)) ==> {
                &&& millis == 0 ==> deadline == 1000
                &&& 0 < millis && millis + 999 < most ==> millis <= deadline < millis + 1000
                    && deadline % 1000 == 0
                &&& millis > most ==> deadline == most
            }
            &&& !given && !given_millis ==> {
                &&& 1000 <= limits.default_tool_timeout <= most ==> deadline
                    == limits.default_tool_timeout
                &&& limits.default_tool_timeout < 1000 ==> deadline == 1000
                &&& limits.default_tool_timeout > most ==> deadline == most
            }
        }),
{
}

/// A call is run with the name and the arguments that it gives, under its id; without
/// arguments it is run with none. A call without a name is refused as one whose
/// parameters are wrong.
pub proof fn lemma_calls_are_run_as_given(
    limits: LimitsView,
    id: Option<JsonView>,
    params: JsonView,
)
    ensures
        match planned_call(limits, id, Some(params)) {
            CallPlanView::Run { id: run_id, name, arguments, timeout } => {
                &&& run_id == id
                &&& params.field("name"@) == Some(JsonView::Text(name))
                &&& params.field("arguments"@) matches Some(given) ==> arguments == given
                &&& params.field("arguments"@) is None ==> arguments == JsonView::Object(
                    Map::empty(),
                )
                &&& timeout == deadline_millis(limits, arguments)
            },
            CallPlanView::Reply(response) => {
                &&& !(params.field("name"@) matches Some(JsonView::Text(_)))
                &&& response.id == id
                &&& response.result is None
                &&& response.error matches Some(e) && e.code == -32602
            },
        },
        planned_call(limits, id, None) matches CallPlanView::Reply(response) && response.id == id
            && response.result is None && (response.error matches Some(e) && e.code == -32602),
{
}

/// The answer to a call carries its result as it is. A failure of the tool is carried
/// as a result that is flagged and says what went wrong; only a call that could not be
/// made is an error.
pub proof fn lemma_results_are_carried(
    id: Option<JsonView>,
    outcome: Result<CallToolResultView, ToolErrorView>,
)
    ensures
        call_response(id, outcome).id == id,
        match outcome {
            Ok(result) => call_response(id, outcome).result == Some(result.encoded())
                && call_response(id, outcome).error is None,
            Err(err) => if err is InvalidArguments || err is NotFound {
                call_response(id, outcome).result is None && (call_response(
                    id,
                    outcome,
                ).error matches Some(e) && e.message == err.message())
            } else {
                call_response(id, outcome).error is None && (call_response(
                    id,
                    outcome,
                ).result matches Some(sent) && sent.field("isError"@) == Some(JsonView::Bool(true))
                    && sent.field("content"@) == Some(
                    JsonView::Array(
                        seq![(ContentView::Text { text: err.message() }).encoded()],
                    ),
                ))
            },
        },
{
    reveal_strlit("content");
    reveal_strlit("isError");
    assert("content"@.len() == 7);
    assert("isError"@.len() == 7);
    assert("content"@[0] == 'c');
    assert("isError"@[0] == 'i');
    match outcome {
        Err(err) => {
            let block = ContentView::Text { text: err.message() };
            assert(seq![block].map_values(|block: ContentView| block.encoded()) =~= seq![
                block.encoded(),
            ]);
        },
        _ => {},
    }
}

/// The answer to a listing carries every tool, in order.
pub proof fn lemma_every_tool_is_sent(id: Option<JsonView>, tools: Seq<ToolView>)
    ensures
        list_response(id, tools).error is None,
        list_response(id, tools).result matches Some(sent) && sent.field("tools"@) matches Some(
            JsonView::Array(items),
        ) && items.len() == tools.len() && forall|k: int|
            0 <= k < items.len() ==> #[trigger] items[k] == tools[k].encoded(),
{
}

/// The gateway greets with the version that was negotiated, with its name and its own
/// version, and with tools and logging as what it can do.
pub proof fn lemma_greeting(params: JsonView)
    ensures
        ({
            let greeting = initialize_result(params);
            &&& greeting.field("protocolVersion"@) == Some(
                JsonView::Text(
                    negotiated(
                        match params.field("protocolVersion"@) {
                            Some(JsonView::Text(version)) => Some(version),
                            _ => None,
                        },
                    ),
                ),
            )
            &&& greeting.field("serverInfo"@) matches Some(info) && info.field("name"@) == Some(
                JsonView::Text("omni-mcp"@),
            ) && info.field("version"@) == Some(JsonView::Text(crate::VERSION@))
            &&& greeting.field("capabilities"@) matches Some(abilities) && {
                &&& abilities.field("logging"@) == Some(JsonView::object())
                &&& abilities.field("tools"@) matches Some(tools) && tools.field("listChanged"@)
                    == Some(JsonView::Bool(false))
            }
        }),
{
    reveal_strlit("protocolVersion");
    reveal_strlit("serverInfo");
    reveal_strlit("capabilities");
    reveal_strlit("name");
    reveal_strlit("version");
    reveal_strlit("logging");
    reveal_strlit("tools");
    assert("protocolVersion"@.len() == 15);
    assert("serverInfo"@.len() == 10);
    assert("capabilities"@.len() == 12);
    assert("name"@.len() == 4);
    assert("version"@.len() == 7);
    assert("logging"@.len() == 7);
    assert("tools"@.len() == 5);
    assert("version"@[0] == 'v');
    assert("logging"@[0] == 'l');
}

/// Which methods are answered, and how: calls and listings by the backends, a greeting
/// by what was negotiated, a ping and a change of the level with an empty object, the
/// three lists that the gateway never fills with an empty list, and all others with
/// an error that says that there is no such method.
pub proof fn lemma_methods(request: RequestView)
    requires
        request.id is Some,
    ensures
        planned(request) is ListTools <==> request.method == "tools/list"@,
        planned(request) is CallTool <==> request.method == "tools/call"@,
        planned(request) matches PlanView::CallTool { params, .. } ==> params == request.params,
        request.method == "initialize"@ ==> (planned(request) matches PlanView::Reply(reply)
            && reply.result == Some(
            initialize_result(
                match request.params {
                    Some(params) => params,
                    None => JsonView::object(),
                },
            ),
        )),
        request.method == "ping"@ || request.method == "logging/setLevel"@ ==> (planned(
            request,
        ) matches PlanView::Reply(reply) && reply.result == Some(JsonView::object())),
        request.method == "prompts/list"@ ==> (planned(request) matches PlanView::Reply(reply)
            && reply.result matches Some(sent) && sent.field("prompts"@) == Some(
            JsonView::Array(seq![]),
        )),
        request.method == "resources/list"@ ==> (planned(request) matches PlanView::Reply(reply)
            && reply.result matches Some(sent) && sent.field("resources"@) == Some(
            JsonView::Array(seq![]),
        )),
        request.method == "resources/templates/list"@ ==> (planned(
            request,
        ) matches PlanView::Reply(reply) && reply.result matches Some(sent) && sent.field(
            "resourceTemplates"@,
        ) == Some(JsonView::Array(seq![]))),
        ({
            let known = request.method == "initialize"@ || request.method == "tools/list"@
                || request.method == "tools/call"@ || request.method == "prompts/list"@
                || request.method == "resources/list"@ || request.method
                == "resources/templates/list"@ || request.method == "ping"@ || request.method
                == "logging/setLevel"@;
            known <==> !(planned(request) matches PlanView::Reply(reply) && reply.error matches Some(
                e,
            ) && e.code == -32601)
        }),
{
    reveal_strlit("initialize");
    reveal_strlit("tools/list");
    reveal_strlit("tools/call");
    reveal_strlit("prompts/list");
    reveal_strlit("resources/list");
    reveal_strlit("resources/templates/list");
    reveal_strlit("ping");
    reveal_strlit("logging/setLevel");
    assert("initialize"@.len() == 10);
    assert("tools/list"@.len() == 10);
    assert("tools/call"@.len() == 10);
    assert("prompts/list"@.len() == 12);
    assert("resources/list"@.len() == 14);
    assert("resources/templates/list"@.len() == 24);
    assert("ping"@.len() == 4);
    assert("logging/setLevel"@.len() == 16);
    assert("initialize"@[0] == 'i');
    assert("tools/list"@[0] == 't');
    assert("tools/list"@[6] == 'l');
    assert("tools/call"@[0] == 't');
    assert("tools/call"@[6] == 'c');
}

/// A call that is handed on has the arguments that were given, except for a deadline
/// that the tool itself does not know: that is taken out, and nothing else is.
pub proof fn lemma_arguments_are_handed_on(
    backends: Seq<BackendInfoView>,
    table: RoutesView,
    name: Seq<char>,
    arguments: JsonView,
    key: Seq<char>,
)
    ensures
        dispatched(backends, Some(table), name, arguments) matches Some(d) ==> {
            &&& table.owners.contains_key(name) && d.index == table.owners[name]
            &&& table.locals.contains_key(name) ==> d.local_name == table.locals[name]
            &&& key != "timeout"@ ==> d.arguments.field(key) == arguments.field(key)
            &&& !table.augmented.contains(name) ==> d.arguments == arguments
            &&& table.augmented.contains(name) ==> d.arguments.field("timeout"@) is None
        },
        dispatched(backends, None, name, arguments) is None,
        table.owners.contains_key(name) && table.owners[name] < backends.len() ==> dispatched(
            backends,
            Some(table),
            name,
            arguments,
        ) is Some,
{
}

/// The tools of the gateway come first, then the sidecars that are switched on and
/// then such proxies, each in the order and under the name and prefix that the
/// configuration gives.
pub proof fn lemma_backends_in_order(config: ConfigView)
    ensures
        ({
            let infos = backend_infos(config);
            let sidecars = enabled_sidecar_views(config.sidecars);
            let proxies = enabled_proxy_views(config.proxies);
            &&& infos.len() == 1 + sidecars.len() + proxies.len()
            &&& infos[0].kind is Native && infos[0].name == "native"@ && infos[0].prefix is None
            &&& forall|k: int|
                0 <= k < sidecars.len() ==> (#[trigger] infos[1 + k]).kind is Sidecar
                    && infos[1 + k].name == sidecars[k].name && infos[1 + k].prefix
                    == sidecars[k].prefix
            &&& forall|k: int|
                0 <= k < proxies.len() ==> (#[trigger] infos[1 + sidecars.len() + k]).kind is Proxy
                    && infos[1 + sidecars.len() + k].name == proxies[k].name && infos[1
                    + sidecars.len() + k].prefix == proxies[k].prefix
        }),
{
}

/// A listing is the tool that reports, followed by what discovery found; before
/// discovery it is that tool alone.
pub proof fn lemma_listing(router: RouterView)
    ensures
        router.listed().len() > 0,
        router.listed()[0].name == "omni_status"@,
        router.routes is None ==> router.listed().len() == 1,
        router.routes matches Some(table) ==> router.listed().skip(1) == table.tools,
        router.listed_owners().len() == router.listed().len(),
{
    match router.routes {
        Some(table) => assert(router.listed().skip(1) =~= table.tools),
        None => {},
    }
}

/// The report is made here; every other call goes to the backend that owns the tool,
/// and one that nobody owns ends as a tool that was not found.
pub proof fn lemma_calls_end_somewhere(
    backends: Seq<BackendInfoView>,
    routes: Option<RoutesView>,
    name: Seq<char>,
    arguments: JsonView,
    refreshed: bool,
)
    ensures
        match invoke_step(backends, routes, name, arguments, refreshed) {
            InvokeStepView::Report => name == "omni_status"@,
            InvokeStepView::Call(d) => name != "omni_status"@ && dispatched(
                backends,
                routes,
                name,
                arguments,
            ) == Some(d),
            InvokeStepView::Refresh => !refreshed && dispatched(
                backends,
                routes,
                name,
                arguments,
            ) is None,
            InvokeStepView::Fail(err) => refreshed && err == ToolErrorView::NotFound(name),
        },
{
}

/// What discovery finds replaces what was known, whole, and is what is listed from then
/// on; one more sweep is counted.
pub proof fn lemma_discovery_replaces_the_table(router: RouterView, results: Seq<DiscoveryView>)
    ensures
        router.refreshed(results).routes == Some(discovered(results)),
        router.refreshed(results).listed().skip(1) == discovered(results).tools,
        router.is_due(0) || router.routes is Some,
        router.routes is None ==> forall|elapsed: nat| #[trigger] router.is_due(elapsed),
{
    lemma_listing(router.refreshed(results));
}

/// A proxy that was just made has not been asked, has the headers of its configuration,
/// and numbers its requests from one on; a sidecar that was just made has not failed.
pub proof fn lemma_new_backends(
    proxy: ProxyBackend,
    config: ProxyConfigView,
    sidecar: SidecarBackend,
    wanted: SidecarConfigView,
    status: BackendStatus,
)
    requires
        is_new_proxy(proxy, config),
        is_new_sidecar(sidecar, wanted),
        call_ensures(ProxyBackend::status, (&proxy,), status),
    ensures
        status@ is Idle,
        proxy.next_id == 1,
        proxy.config@ == config && sidecar.config@ == wanted,
        proxy_headers(config) matches Ok(headers) && headers == header_contents(proxy.headers),
        sidecar.last_error is None,
{
}

} // verus!
