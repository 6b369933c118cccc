//! The routing table, the status report and the router.

use omni_mcp::backend::native::NativeBackend;
use omni_mcp::backend::{BackendInfo, BackendKind, BackendStatus};
use omni_mcp::config::duration::HumanDuration;
use omni_mcp::config::{Config, Limits, ProxyConfig, SidecarConfig, ToolPolicy};
use omni_mcp::error::{ToolError, ToolResult};
use omni_mcp::json::Json;
use omni_mcp::protocol::code;
use omni_mcp::protocol::version::LATEST;
use omni_mcp::protocol::{CallToolResult, Content, Request, Response, Tool};
use omni_mcp::router::dispatch::{
    deadline, finish_call, finish_list, initialize, plan_call, warm_up_backends, CallPlan, Gateway,
    InvokeStep, Plan,
};
use omni_mcp::router::routes::{
    discovery_timed_out, ensure_timeout_property, strip_injected_timeout, Discovery, Routes,
};
use omni_mcp::router::status::{descriptor, owns, report, status_word, BackendReport, TOOL_NAME};
use omni_mcp::router::Router;
use omni_mcp::server::stdio::{handle_line, write_response, LineOutcome};
use omni_mcp::time::Duration;
use omni_mcp::tools::eval::plan_evaluation;
use omni_mcp::tools::text::TextTools;
use omni_mcp::tools::NativeGroup;

fn json(text: &str) -> Json {
    Json::parse(text).expect("the text is JSON")
}

// The routing table ---------------------------------------------------------

fn info(name: &str, kind: BackendKind, prefix: Option<&str>) -> BackendInfo {
    BackendInfo { name: name.to_string(), kind, prefix: prefix.map(|p| p.to_string()) }
}

fn serving(name: &str, prefix: Option<&str>, tools: &[&str]) -> Discovery {
    let tools = tools
        .iter()
        .map(|n| Tool::new(n, "desc", json(r#"{ "type": "object", "properties": {} }"#)))
        .collect();
    Discovery { backend: info(name, BackendKind::Native, prefix), outcome: Ok(tools) }
}

fn broken(name: &str) -> Discovery {
    Discovery {
        backend: info(name, BackendKind::Native, None),
        outcome: Err(ToolError::Unavailable { backend: name.into(), reason: "down".into() }),
    }
}

fn schema(tool: &Tool, path: &[&str]) -> Json {
    let mut value = tool.input_schema.dup();
    for key in path {
        value = value.get(key).expect("the field is there").dup();
    }
    value
}

#[test]
fn each_tool_maps_to_the_backend_that_serves_it() {
    let routes =
        Routes::discover(vec![serving("a", None, &["one"]), serving("b", None, &["two"])]);
    assert_eq!(routes.owner("one"), Some(0));
    assert_eq!(routes.owner("two"), Some(1));
    assert_eq!(routes.owner("three"), None);
    assert_eq!(routes.tools().len(), 2);
}

#[test]
fn a_failing_backend_does_not_suppress_the_others() {
    let routes = Routes::discover(vec![broken("dead"), serving("live", None, &["works"])]);
    assert_eq!(routes.owner("works"), Some(1));
    assert_eq!(routes.failures().len(), 1);
    assert_eq!(routes.failures()[0].0, "dead");
}

#[test]
fn the_first_backend_to_claim_a_name_keeps_it() {
    let routes = Routes::discover(vec![
        serving("first", None, &["shared"]),
        serving("second", None, &["shared"]),
    ]);
    assert_eq!(routes.owner("shared"), Some(0));
    assert_eq!(routes.tools().len(), 1, "the duplicate must not be advertised twice");
}

#[test]
fn a_prefix_lets_two_backends_expose_the_same_tool_name() {
    let routes = Routes::discover(vec![
        serving("first", None, &["search"]),
        serving("second", Some("ha_"), &["search"]),
    ]);
    assert_eq!(routes.owner("search"), Some(0));
    assert_eq!(routes.owner("ha_search"), Some(1));
    assert_eq!(routes.tools().len(), 2);
}

#[test]
fn a_timeout_property_is_injected_and_tracked() {
    let routes = Routes::discover(vec![serving("a", None, &["one"])]);
    let timeout = schema(&routes.tools()[0], &["properties", "timeout"]);
    assert!(matches!(timeout, Json::Object(_)));
    assert!(routes.was_augmented("one"));
}

#[test]
fn a_tool_declaring_its_own_timeout_is_left_alone() {
    let tool = Tool::new(
        "t",
        "d",
        json(r#"{ "type": "object", "properties": { "timeout": { "type": "string" } } }"#),
    );
    let (tool, augmented) = ensure_timeout_property(tool);
    assert!(!augmented);
    assert_eq!(schema(&tool, &["properties", "timeout", "type"]), Json::string("string"));

    let tool = Tool::new(
        "t",
        "d",
        json(r#"{ "type": "object", "properties": { "timeout_ms": { "type": "integer" } } }"#),
    );
    assert!(!ensure_timeout_property(tool).1);
}

#[test]
fn the_injected_timeout_is_stripped_before_dispatch() {
    let stripped = strip_injected_timeout(json(r#"{ "path": "/tmp", "timeout": 5 }"#));
    assert_eq!(stripped, json(r#"{ "path": "/tmp" }"#));
}

#[test]
fn stripping_tolerates_non_object_arguments() {
    assert_eq!(strip_injected_timeout(json("[1, 2]")), json("[1, 2]"));
    assert_eq!(strip_injected_timeout(Json::Null), Json::Null);
}

#[test]
fn a_backend_that_ignores_its_deadline_cannot_stall_discovery() {
    let hangs = Discovery {
        backend: info("hangs", BackendKind::Sidecar, None),
        outcome: Err(discovery_timed_out("hangs", &Duration::from_millis(200))),
    };
    let routes = Routes::discover(vec![hangs, serving("live", None, &["works"])]);
    assert_eq!(routes.owner("works"), Some(1), "the healthy backend must still be listed");
    assert_eq!(routes.failures().len(), 1);
    assert_eq!(routes.failures()[0].0, "hangs");
}

#[test]
fn staleness_is_measured_against_the_ttl() {
    let young = Duration::from_millis(5);
    assert!(!Routes::is_stale(&young, &Duration::from_secs(60)));
    assert!(Routes::is_stale(&young, &Duration::from_millis(1)));
}

// The status report ---------------------------------------------------------

fn state(name: &str, kind: BackendKind, status: BackendStatus) -> BackendReport {
    BackendReport { info: info(name, kind, None), status }
}

fn tools() -> Vec<Tool> {
    vec![descriptor(), Tool::new("grep_search", "d", json(r#"{ "type": "object" }"#))]
}

fn item(value: &Json, key: &str, index: usize) -> Json {
    match value.get(key) {
        Some(Json::Array(items)) => items[index].dup(),
        other => panic!("expected an array, got {other:?}"),
    }
}

#[test]
fn the_report_lists_tools_and_backend_health() {
    let backends = vec![
        state("native", BackendKind::Native, BackendStatus::Ready),
        state("ha", BackendKind::Proxy, BackendStatus::Failed("refused".into())),
    ];
    let failures = vec![("ha".to_string(), "refused".to_string())];
    let out = report(&backends, &tools(), &Vec::new(), &failures, 3).structured_content.unwrap();

    assert_eq!(out.get_unsigned("tool_count"), Some(2));
    assert_eq!(item(&out, "backends", 0).get_text("status").unwrap(), "ready");
    assert_eq!(item(&out, "backends", 1).get_text("status").unwrap(), "failed");
    assert_eq!(item(&out, "backends", 1).get_text("discovery_error").unwrap(), "refused");
    assert_eq!(out.get("unhealthy_backends"), Some(&json(r#"["ha"]"#)));
    assert_eq!(out.get_unsigned("discovery_sweeps"), Some(3));
}

#[test]
fn an_idle_lazy_backend_is_reported_as_idle_not_failed() {
    let backends = vec![state("side", BackendKind::Sidecar, BackendStatus::Idle)];
    let out = report(&backends, &tools(), &Vec::new(), &Vec::new(), 1).structured_content.unwrap();
    assert_eq!(item(&out, "backends", 0).get_text("status").unwrap(), "idle");
    assert_eq!(out.get("unhealthy_backends"), Some(&json("[]")));
}

#[test]
fn the_report_is_not_flagged_as_an_error_even_when_backends_are_down() {
    let backends = vec![state("x", BackendKind::Proxy, BackendStatus::Failed("no".into()))];
    assert!(!report(&backends, &tools(), &Vec::new(), &Vec::new(), 1).is_failure());
}

#[test]
fn the_descriptor_takes_no_required_arguments() {
    let tool = descriptor();
    assert_eq!(tool.name, TOOL_NAME);
    assert!(tool.input_schema.get("required").is_none());
}

#[test]
fn states_have_words_and_prefixes_tell_owners() {
    assert_eq!(status_word(&BackendStatus::Disabled), "disabled");
    let all = vec![
        info("p", BackendKind::Proxy, Some("ha_")),
        info("n", BackendKind::Native, None),
        info("e", BackendKind::Sidecar, Some("")),
    ];
    assert!(owns(&all[0], 0, "ha_on", Some(0)));
    assert!(!owns(&all[0], 0, "on", None));
    // Without a prefix a backend owns only what nothing else claimed.
    for (index, bare) in all.iter().enumerate().skip(1) {
        assert!(!owns(bare, index, "ha_search", Some(0)));
        assert!(owns(bare, index, "search", Some(index)));
        assert!(owns(bare, index, "search", None));
    }
    assert!(!owns(&all[2], 2, "search", Some(1)));
}

#[test]
fn a_name_that_two_backends_list_is_counted_for_the_first() {
    let mut config = Config::default();
    config.proxies = vec![proxy("a", None), proxy("b", None)];
    let mut gateway = gateway(config);
    let lists = |names: &[&str]| -> ToolResult<Vec<Tool>> {
        Ok(names.iter().map(|n| Tool::new(n, "d", json(r#"{"type":"object"}"#))).collect())
    };
    sweep(&mut gateway, vec![lists(&["x", "y"]), lists(&["x", "ha_z"])]);
    let report = gateway.router.status_report(&states(&gateway));
    let shown = report.structured_content.unwrap();
    let native = gateway.native.list_tools().len() as u64;
    let count = |index: usize| item(&shown, "backends", index).get_unsigned("tool_count");
    // The report itself is claimed by none and counted for each.
    assert_eq!(count(0), Some(native + 1));
    assert_eq!(count(1), Some(3));
    assert_eq!(count(2), Some(2));
}

#[test]
fn each_backend_is_counted_its_own_tools() {
    let native = state("n", BackendKind::Native, BackendStatus::Ready);
    let proxy = BackendReport {
        info: info("p", BackendKind::Proxy, Some("ha_")),
        status: BackendStatus::Ready,
    };
    let tools: Vec<Tool> = ["one", "ha_two", "ha_three"]
        .iter()
        .map(|name| Tool::new(name, "d", Json::object()))
        .collect();
    let owners = vec![Some(0), Some(1), Some(1)];
    let shown = report(&vec![native, proxy], &tools, &owners, &Vec::new(), 1);
    let Content::Text { text } = &shown.content[0] else { panic!("expected a text block") };
    let shown = json(text);
    assert_eq!(item(&shown, "backends", 0).get_unsigned("tool_count"), Some(1));
    assert_eq!(item(&shown, "backends", 1).get_unsigned("tool_count"), Some(2));
}

// The router ----------------------------------------------------------------

fn gateway(config: Config) -> Gateway {
    match Router::build(config, &Vec::new()) {
        Ok(gateway) => gateway,
        Err(err) => panic!("the router builds from a valid config: {err:?}"),
    }
}

fn request(method: &str, params: Json) -> Request {
    Request {
        jsonrpc: Some("2.0".into()),
        id: Some(Json::number(1)),
        method: method.into(),
        params: Some(params),
    }
}

fn reply(gateway: &Gateway, request: Request) -> Response {
    match gateway.router.handle(request) {
        Plan::Reply(response) => response,
        _ => panic!("expected an immediate answer"),
    }
}

/// One sweep over the native backend, and over the others with these outcomes.
fn sweep(gateway: &mut Gateway, others: Vec<ToolResult<Vec<Tool>>>) {
    let mut outcomes = vec![Ok(gateway.native.list_tools())];
    outcomes.extend(others);
    let results = gateway
        .router
        .backends()
        .iter()
        .zip(outcomes)
        .map(|(backend, outcome)| Discovery {
            backend: BackendInfo {
                name: backend.name.clone(),
                kind: backend.kind,
                prefix: backend.prefix.clone(),
            },
            outcome,
        })
        .collect();
    gateway.router.refresh(results);
}

fn run(native: &NativeBackend, name: &str, args: &Json) -> ToolResult<CallToolResult> {
    match native.group_of(name)? {
        NativeGroup::Text => TextTools.call(name, args),
        NativeGroup::Eval => {
            plan_evaluation(args, native.context())?;
            Ok(CallToolResult::text("allowed".to_string()))
        }
        _ => panic!("{name} needs more than its arguments"),
    }
}

fn states(gateway: &Gateway) -> Vec<BackendReport> {
    gateway
        .router
        .backends()
        .iter()
        .enumerate()
        .map(|(i, backend)| BackendReport {
            info: BackendInfo {
                name: backend.name.clone(),
                kind: backend.kind,
                prefix: backend.prefix.clone(),
            },
            status: if i == 0 { gateway.native.status() } else { BackendStatus::Idle },
        })
        .collect()
}

fn call(gateway: &mut Gateway, name: &str, arguments: &str) -> Response {
    let params =
        Json::object().with("name", Json::string(name)).with("arguments", json(arguments));
    answer(gateway, request("tools/call", params))
}

fn answer(gateway: &mut Gateway, request: Request) -> Response {
    let Plan::CallTool { id, params } = gateway.router.handle(request) else {
        panic!("expected a call")
    };
    let plan = plan_call(&gateway.router.config().limits, id, params);
    let CallPlan::Run { id, name, arguments, timeout: _ } = plan else { panic!("expected a run") };
    if gateway.router.needs_discovery(&Duration::from_secs(0)) {
        sweep(gateway, Vec::new());
    }
    let mut refreshed = false;
    loop {
        let outcome = match gateway.router.invoke(&name, &arguments, refreshed) {
            InvokeStep::Report => Ok(gateway.router.status_report(&states(gateway))),
            InvokeStep::Call(d) => {
                assert_eq!(d.index, 0, "only the native backend serves anything here");
                run(&gateway.native, &d.local_name, &d.arguments)
            }
            InvokeStep::Refresh => {
                sweep(gateway, Vec::new());
                refreshed = true;
                continue;
            }
            InvokeStep::Fail(err) => Err(err),
        };
        return finish_call(id, outcome);
    }
}

fn text_of(result: &Json) -> String {
    item(result, "content", 0).get_text("text").expect("a text block").clone()
}

#[test]
fn initialize_echoes_a_supported_protocol_version() {
    let gateway = gateway(Config::default());
    let params = json(r#"{ "protocolVersion": "2024-11-05" }"#);
    let result = reply(&gateway, request("initialize", params)).result.unwrap();
    assert_eq!(result.get_text("protocolVersion").unwrap(), "2024-11-05");
    assert_eq!(result.get("serverInfo").unwrap().get_text("name").unwrap(), "omni-mcp");
    assert!(matches!(
        result.get("capabilities").unwrap().get("tools"),
        Some(Json::Object(_))
    ));
}

#[test]
fn initialize_offers_our_latest_version_for_an_unknown_proposal() {
    let result = initialize(&json(r#"{ "protocolVersion": "1999-01-01" }"#));
    assert_eq!(result.get_text("protocolVersion").unwrap(), LATEST);
}

#[test]
fn notifications_are_never_answered() {
    let notification = Request {
        jsonrpc: Some("2.0".into()),
        id: None,
        method: "notifications/initialized".into(),
        params: None,
    };
    assert!(matches!(gateway(Config::default()).router.handle(notification), Plan::Ignore));
}

#[test]
fn ping_and_the_empty_list_methods_answer_without_error() {
    let gateway = gateway(Config::default());
    for method in ["ping", "prompts/list", "resources/list", "resources/templates/list"] {
        let response = reply(&gateway, request(method, Json::object()));
        assert!(response.error.is_none(), "{method} returned an error");
    }
    let prompts = reply(&gateway, request("prompts/list", Json::object()));
    assert_eq!(prompts.result, Some(json(r#"{"prompts":[]}"#)));
}

#[test]
fn an_unknown_method_is_method_not_found() {
    let response =
        reply(&gateway(Config::default()), request("does/not/exist", Json::object()));
    assert_eq!(response.error.unwrap().code, code::METHOD_NOT_FOUND);
}

#[test]
fn tools_list_includes_omni_status_and_the_native_tools() {
    let mut gateway = gateway(Config::default());
    sweep(&mut gateway, Vec::new());
    let tools = gateway.router.list_tools();
    let names: Vec<&str> = tools.iter().map(|t| t.name.as_str()).collect();
    assert!(names.contains(&"omni_status"));
    assert!(names.contains(&"diff_text"));
    assert!(names.contains(&"grep_search"));

    let response = finish_list(Some(Json::number(2)), &tools);
    assert_eq!(response.id, Some(Json::number(2)));
    let listed = item(response.result.as_ref().unwrap(), "tools", 0);
    assert_eq!(listed.get_text("name").unwrap(), "omni_status");
}

#[test]
fn every_advertised_tool_gains_an_optional_timeout_argument() {
    let mut gateway = gateway(Config::default());
    sweep(&mut gateway, Vec::new());
    let tools = gateway.router.list_tools();
    let diff = tools.iter().find(|t| t.name == "diff_text").unwrap();
    assert_eq!(schema(diff, &["properties", "timeout", "type"]), Json::string("integer"));
}

#[test]
fn omni_status_reports_the_native_backend_as_ready() {
    let result = call(&mut gateway(Config::default()), "omni_status", "{}").result.unwrap();
    let report = json(&text_of(&result));
    assert_eq!(item(&report, "backends", 0).get_text("name").unwrap(), "native");
    assert_eq!(item(&report, "backends", 0).get_text("status").unwrap(), "ready");
    assert!(report.get_unsigned("tool_count").unwrap() > 5);
}

fn lazy_sidecar() -> SidecarConfig {
    SidecarConfig {
        name: "never".into(),
        command: "sleep".into(),
        args: vec!["3600".into()],
        env: Vec::new(),
        inherit_env: None,
        cwd: None,
        lazy: true,
        prefix: None,
        startup_timeout: HumanDuration::millis(200),
        restart_on_failure: true,
        enabled: true,
    }
}

#[test]
fn omni_status_does_not_start_lazy_sidecars() {
    let mut config = Config::default();
    config.sidecars = vec![lazy_sidecar()];
    let mut gateway = gateway(config);
    assert_eq!(gateway.sidecars[0].status(None), BackendStatus::Idle);
    let response = call(&mut gateway, "omni_status", "{}");
    assert!(response.error.is_none());
    let report = json(&text_of(&response.result.unwrap()));
    assert_eq!(item(&report, "backends", 1).get_text("status").unwrap(), "idle");
}

#[test]
fn a_native_tool_call_returns_its_result() {
    let response =
        call(&mut gateway(Config::default()), "count_stats", r#"{ "text": "a b c" }"#);
    let result = response.result.unwrap();
    assert_eq!(
        result.get("structuredContent").unwrap().get_unsigned("words"),
        Some(3)
    );
    assert!(result.get("isError").is_none());
}

#[test]
fn an_unknown_tool_returns_method_not_found_without_contacting_any_backend() {
    let response =
        call(&mut gateway(Config::default()), "no_such_tool", r#"{ "secret": "x" }"#);
    assert_eq!(response.error.unwrap().code, code::METHOD_NOT_FOUND);
}

#[test]
fn a_tool_failure_is_a_successful_response_carrying_is_error() {
    let response = call(
        &mut gateway(Config::default()),
        "eval_code",
        r#"{ "language": "sh", "code": "echo hi" }"#,
    );
    let result = response.result.expect("tool failures are results, not RPC errors");
    assert_eq!(result.get("isError"), Some(&Json::Bool(true)));
    assert!(text_of(&result).contains("allow_code_execution"));
}

#[test]
fn a_bad_argument_is_an_rpc_error_not_a_silent_default() {
    let response = call(&mut gateway(Config::default()), "count_stats", "{}");
    assert_eq!(response.error.unwrap().code, code::INVALID_PARAMS);
}

#[test]
fn tools_call_without_params_or_name_is_rejected() {
    let limits = Limits::default();
    let id = || Some(Json::number(1));
    let CallPlan::Reply(no_params) = plan_call(&limits, id(), None) else {
        panic!("expected a refusal")
    };
    assert_eq!(no_params.error.unwrap().code, code::INVALID_PARAMS);
    let CallPlan::Reply(no_name) = plan_call(&limits, id(), Some(json(r#"{ "arguments": {} }"#)))
    else {
        panic!("expected a refusal")
    };
    assert_eq!(no_name.error.unwrap().code, code::INVALID_PARAMS);
}

#[test]
fn the_injected_timeout_is_not_forwarded_to_the_tool() {
    let mut gateway = gateway(Config::default());
    let response = call(&mut gateway, "count_stats", r#"{ "text": "x", "timeout": 5 }"#);
    assert!(response.error.is_none(), "{:?}", response.error);
    assert_eq!(
        response.result.unwrap().get("structuredContent").unwrap().get_unsigned("chars"),
        Some(1)
    );
    let dispatch = gateway
        .router
        .dispatch("count_stats", json(r#"{ "text": "x", "timeout": 5 }"#))
        .unwrap();
    assert_eq!(dispatch.arguments, json(r#"{ "text": "x" }"#));
}

#[test]
fn the_deadline_defaults_to_the_configured_value() {
    assert_eq!(deadline(&Limits::default(), &Json::object()), Duration::from_secs(30));
}

#[test]
fn the_deadline_honours_an_explicit_timeout_argument() {
    let limits = Limits::default();
    assert_eq!(deadline(&limits, &json(r#"{ "timeout": 7 }"#)), Duration::from_secs(7));
    assert_eq!(deadline(&limits, &json(r#"{ "timeout_ms": 4500 }"#)), Duration::from_secs(5));
}

#[test]
fn the_deadline_is_clamped_to_the_configured_maximum() {
    let mut limits = Limits::default();
    limits.default_tool_timeout = HumanDuration::secs(5);
    limits.max_tool_timeout = HumanDuration::secs(10);
    assert_eq!(deadline(&limits, &json(r#"{ "timeout": 9999 }"#)), Duration::from_secs(10));
    assert_eq!(deadline(&limits, &json(r#"{ "timeout": 0 }"#)), Duration::from_secs(1));
}

#[test]
fn a_deadline_below_a_second_is_kept_to_the_maximum() {
    let mut limits = Limits::default();
    limits.default_tool_timeout = HumanDuration::millis(200);
    limits.max_tool_timeout = HumanDuration::millis(500);
    assert_eq!(deadline(&limits, &Json::object()), Duration::from_millis(500));
    assert_eq!(deadline(&limits, &json(r#"{ "timeout": 7 }"#)), Duration::from_millis(500));
    limits.default_tool_timeout = HumanDuration::millis(1500);
    limits.max_tool_timeout = HumanDuration::secs(10);
    assert_eq!(deadline(&limits, &Json::object()), Duration::from_millis(1500));
}

#[test]
fn only_the_eager_sidecars_are_started_at_once() {
    let mut config = Config::default();
    let mut eager = lazy_sidecar();
    eager.lazy = false;
    let mut off = lazy_sidecar();
    off.lazy = false;
    off.enabled = false;
    let mut second = lazy_sidecar();
    second.lazy = false;
    config.sidecars = vec![lazy_sidecar(), off, eager, second];
    assert_eq!(warm_up_backends(&config), vec![2, 3]);
    config.sidecars = vec![lazy_sidecar()];
    assert!(warm_up_backends(&config).is_empty());
}

#[test]
fn tool_policy_flows_from_the_config_into_the_native_tools() {
    let mut config = Config::default();
    config.tools = ToolPolicy { allow_code_execution: true, ..Default::default() };
    let response =
        call(&mut gateway(config), "eval_code", r#"{ "language": "sh", "code": "echo ok" }"#);
    assert_eq!(text_of(&response.result.unwrap()), "allowed");
}

fn proxy(name: &str, bearer: Option<&str>) -> ProxyConfig {
    ProxyConfig {
        name: name.into(),
        url: "http://127.0.0.1:1/mcp".into(),
        bearer: bearer.map(|b| b.to_string()),
        headers: Vec::new(),
        timeout: HumanDuration::secs(1),
        prefix: None,
        enabled: true,
    }
}

#[test]
fn a_dead_proxy_degrades_to_a_status_entry_instead_of_breaking_tools_list() {
    let mut config = Config::default();
    config.proxies = vec![proxy("dead", None)];
    let mut gateway = gateway(config);
    let down = ToolError::Unavailable { backend: "dead".into(), reason: "refused".into() };
    sweep(&mut gateway, vec![Err(down)]);

    let tools = gateway.router.list_tools();
    assert!(tools.iter().any(|t| t.name == "diff_text"), "native tools must still be listed");

    let mut states = states(&gateway);
    states[1].status = BackendStatus::Failed("refused".to_string());
    let report = gateway.router.status_report(&states).structured_content.unwrap();
    assert_eq!(report.get("unhealthy_backends"), Some(&json(r#"["dead"]"#)));
}

#[test]
fn a_proxy_with_an_unusable_bearer_token_fails_at_build_time() {
    let mut config = Config::default();
    config.proxies = vec![proxy("bad", Some("token\nInjected: header"))];
    assert!(Router::build(config, &Vec::new()).is_err());
}

#[test]
fn a_gateway_holds_the_enabled_backends_in_order() {
    let mut config = Config::default();
    config.sidecars = vec![lazy_sidecar()];
    config.proxies = vec![proxy("off", Some("a\nb")), proxy("on", Some("tok"))];
    config.proxies[0].enabled = false;
    let gateway = gateway(config);
    let names: Vec<&str> = gateway.router.backends().iter().map(|b| b.name.as_str()).collect();
    assert_eq!(names, ["native", "never", "on"]);
    assert_eq!(gateway.sidecars.len(), 1);
    assert_eq!(gateway.proxies.len(), 1);
    assert_eq!(gateway.proxies[0].config.name, "on");
}

#[test]
fn an_expired_table_is_rediscovered_exactly_once() {
    let mut config = Config::default();
    config.limits.discovery_ttl = HumanDuration::millis(60);
    let mut gateway = gateway(config);
    assert!(gateway.router.needs_discovery(&Duration::from_millis(0)));
    sweep(&mut gateway, Vec::new());
    assert_eq!(gateway.router.discovery_count(), 1);
    assert!(gateway.router.needs_discovery(&Duration::from_millis(120)));
    sweep(&mut gateway, Vec::new());
    assert_eq!(gateway.router.discovery_count(), 2);
    assert!(!gateway.router.needs_discovery(&Duration::from_millis(1)));
}

#[test]
fn a_fresh_table_is_not_rediscovered() {
    let mut gateway = gateway(Config::default());
    assert_eq!(gateway.router.discovery_count(), 0);
    sweep(&mut gateway, Vec::new());
    for elapsed in [0, 1, 2] {
        assert!(!gateway.router.needs_discovery(&Duration::from_millis(elapsed)));
    }
    assert_eq!(gateway.router.discovery_count(), 1);
}

#[test]
fn omni_status_reports_how_many_sweeps_have_run() {
    let response = call(&mut gateway(Config::default()), "omni_status", "{}");
    let report = json(&text_of(&response.result.unwrap()));
    assert_eq!(report.get_unsigned("discovery_sweeps"), Some(1));
}

#[test]
fn a_miss_is_looked_up_once_more() {
    let mut gateway = gateway(Config::default());
    sweep(&mut gateway, Vec::new());
    let step = gateway.router.invoke("no_such_tool", &Json::object(), false);
    assert!(matches!(step, InvokeStep::Refresh));
    let step = gateway.router.invoke("no_such_tool", &Json::object(), true);
    assert!(matches!(step, InvokeStep::Fail(ToolError::NotFound(_))));
}

#[test]
fn a_prefixed_call_reaches_the_backend_under_its_own_name() {
    let mut config = Config::default();
    config.proxies = vec![proxy("ha", None)];
    config.proxies[0].prefix = Some("ha_".to_string());
    let mut gateway = gateway(config);
    let remote = vec![Tool::new("turn_on", "d", json(r#"{"type":"object"}"#))];
    sweep(&mut gateway, vec![Ok(remote)]);
    let InvokeStep::Call(d) = gateway.router.invoke("ha_turn_on", &Json::object(), false) else {
        panic!("expected a call")
    };
    assert_eq!(d.index, 1);
    assert_eq!(d.local_name, "turn_on");
}

#[test]
fn a_tool_whose_own_name_carries_the_prefix_keeps_it() {
    let mut config = Config::default();
    config.proxies = vec![proxy("ha", None)];
    config.proxies[0].prefix = Some("ha_".to_string());
    let mut gateway = gateway(config);
    let remote = vec![Tool::new("ha_turn_on", "d", json(r#"{"type":"object"}"#))];
    sweep(&mut gateway, vec![Ok(remote)]);
    let InvokeStep::Call(d) = gateway.router.invoke("ha_turn_on", &Json::object(), false) else {
        panic!("expected a call")
    };
    assert_eq!(d.local_name, "ha_turn_on");
}

#[test]
fn dangerous_tools_are_denied_with_the_default_configuration() {
    let response = call(
        &mut gateway(Config::default()),
        "eval_code",
        r#"{ "language": "sh", "code": "id" }"#,
    );
    let result = response.result.unwrap();
    assert_eq!(result.get("isError"), Some(&Json::Bool(true)));
    let message = text_of(&result);
    assert!(message.contains("allow_code_execution"), "{message}");
}

#[test]
fn responses_are_matched_to_their_request_ids_under_load() {
    let mut gateway = gateway(Config::default());
    let lines: Vec<String> = (10..30)
        .map(|id| {
            let text = "x ".repeat(id);
            format!(
                r#"{{"jsonrpc":"2.0","id":{id},"method":"tools/call","params":{{"name":"count_stats","arguments":{{"text":"{text}"}}}}}}"#
            )
        })
        .collect();
    let mut seen: Vec<u64> = Vec::new();
    for line in lines.iter().rev() {
        let LineOutcome::Handle(request) = handle_line(line) else {
            panic!("expected a request")
        };
        let response = json(&write_response(&answer(&mut gateway, request)));
        let id = response.get_unsigned("id").expect("every reply carries its id");
        assert!(response.get("error").is_none(), "{}", response.compact());
        let counted = response.get("result").unwrap().get("structuredContent").unwrap();
        assert_eq!(counted.get_unsigned("words"), Some(id));
        seen.push(id);
    }
    seen.sort_unstable();
    assert_eq!(seen, (10..30).collect::<Vec<u64>>());
}
