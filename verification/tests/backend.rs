//! Prefixes, the native backend, proxies and sidecars.

use omni_mcp::backend::native::{timed_out as native_timed_out, NativeBackend};
use omni_mcp::backend::proxy::{
    accept_response, conclude, make_call_params, parse_body, read_call_result, read_frame,
    read_tools, HttpOutcome, ProxyBackend,
};
use omni_mcp::backend::sidecar::{
    finish_request, handshake_params, notification_line, timed_out as sidecar_timed_out,
    ConnectPlan, Connection, SidecarBackend, StartOutcome,
};
use omni_mcp::backend::{apply_prefix, snippet, strip_prefix, BackendKind, BackendStatus};
use omni_mcp::config::duration::HumanDuration;
use omni_mcp::config::interpolate::Environment;
use omni_mcp::config::{Config, ProxyConfig, SidecarConfig, SshServerConfig, ToolPolicy};
use omni_mcp::error::{ToolError, ToolResult};
use omni_mcp::json::Json;
use omni_mcp::protocol::{CallToolResult, Content, Response};
use omni_mcp::time::Duration;
use omni_mcp::tools::eval::plan_evaluation;
use omni_mcp::tools::text::TextTools;
use omni_mcp::tools::{NativeGroup, ToolContext};
use reqwest::header::{ACCEPT, AUTHORIZATION};

fn json(text: &str) -> Json {
    Json::parse(text).expect("the text is JSON")
}

// Prefixes ------------------------------------------------------------------

#[test]
fn prefix_round_trips() {
    let p = Some("ha_");
    assert_eq!(apply_prefix(p, "turn_on"), "ha_turn_on");
    assert_eq!(strip_prefix(p, "ha_turn_on"), "turn_on");
}

#[test]
fn absent_or_empty_prefix_is_a_no_op() {
    assert_eq!(apply_prefix(None, "x"), "x");
    assert_eq!(apply_prefix(Some(""), "x"), "x");
    assert_eq!(strip_prefix(None, "x"), "x");
    assert_eq!(strip_prefix(Some(""), "x"), "x");
}

#[test]
fn an_already_prefixed_name_is_not_double_prefixed() {
    assert_eq!(apply_prefix(Some("ha_"), "ha_turn_on"), "ha_turn_on");
}

#[test]
fn stripping_a_prefix_that_is_absent_leaves_the_name_alone() {
    assert_eq!(strip_prefix(Some("ha_"), "other_tool"), "other_tool");
}

#[test]
fn a_snippet_is_bounded() {
    assert_eq!(snippet("  short  "), "short");
    let long = snippet(&"é".repeat(1000));
    assert!(long.chars().count() < 500);
    assert!(long.starts_with("éé"));
}

#[test]
fn kinds_and_states_are_labelled() {
    assert_eq!(BackendKind::Native.label(), "native");
    assert_eq!(BackendKind::Sidecar.label(), "sidecar");
    assert_eq!(BackendKind::Proxy.label(), "proxy");
    assert_eq!(BackendStatus::Ready.label(), "ready");
    assert_eq!(BackendStatus::Idle.label(), "idle (lazy)");
    assert_eq!(BackendStatus::Disabled.label(), "disabled");
    assert_eq!(BackendStatus::Failed("why".to_string()).label(), "why");
}

// The native backend --------------------------------------------------------

fn backend() -> NativeBackend {
    NativeBackend::with_defaults(ToolContext::new(ToolPolicy::default(), &Vec::new()))
}

fn call(backend: &NativeBackend, name: &str, arguments: &str) -> ToolResult<CallToolResult> {
    let args = json(arguments);
    match backend.group_of(name)? {
        NativeGroup::Text => TextTools.call(name, &args),
        NativeGroup::Eval => {
            plan_evaluation(&args, backend.context())?;
            Ok(CallToolResult::text("allowed".to_string()))
        }
        _ => panic!("{name} needs more than its arguments"),
    }
}

fn names(backend: &NativeBackend) -> Vec<String> {
    backend.list_tools().iter().map(|t| t.name.clone()).collect()
}

#[test]
fn advertises_every_native_tool_exactly_once() {
    let mut names = names(&backend());
    names.sort_unstable();
    let mut deduped = names.clone();
    deduped.dedup();
    assert_eq!(names, deduped, "a tool is advertised twice");
    assert!(names.contains(&"grep_search".to_string()));
    assert!(names.contains(&"diff_text".to_string()));
}

#[test]
fn dispatches_to_the_group_that_owns_the_tool() {
    let result = call(&backend(), "count_stats", r#"{ "text": "a b" }"#).unwrap();
    assert_eq!(result.structured_content.unwrap().get_unsigned("words"), Some(2));
}

#[test]
fn native_an_unknown_tool_is_not_found() {
    let err = call(&backend(), "no_such_tool", "{}").unwrap_err();
    assert!(matches!(err, ToolError::NotFound(_)));
}

#[test]
fn routing_membership_matches_the_advertised_set() {
    let backend = backend();
    for tool in backend.list_tools() {
        assert!(backend.handles(&tool.name));
    }
    assert!(!backend.handles("not_a_tool"));
}

#[test]
fn status_is_always_ready_and_never_spawns() {
    assert_eq!(backend().status(), BackendStatus::Ready);
    assert_eq!(backend().name(), "native");
    assert_eq!(backend().kind(), BackendKind::Native);
}

#[test]
fn every_embedded_crate_contributes_its_tools() {
    let names = names(&backend());
    for expected in [
        "diff_text",
        "diff_json",
        "regex_match",
        "count_stats",
        "grep_search",
        "hex_view",
        "hex_patch",
        "eval_code",
        "read_resx",
        "write_resx_entry",
        "everything_search",
    ] {
        assert!(names.contains(&expected.to_string()), "{expected} missing from {names:?}");
    }
}

#[test]
fn no_two_crates_claim_the_same_tool_name() {
    let backend = backend();
    assert!(backend.collisions().is_empty(), "unreachable tools: {:?}", backend.collisions());
}

#[test]
fn a_call_reaches_the_crate_that_owns_the_tool() {
    let result = call(&backend(), "count_stats", r#"{ "text": "a b c" }"#).unwrap();
    assert_eq!(result.structured_content.unwrap().get_unsigned("words"), Some(3));
}

#[test]
fn tests_an_unknown_tool_is_not_found() {
    assert!(matches!(call(&backend(), "no_such_tool", "{}"), Err(ToolError::NotFound(_))));
}

#[test]
fn a_policy_denial_survives_the_error_mapping() {
    let err =
        call(&backend(), "eval_code", r#"{ "language": "sh", "code": "id" }"#).unwrap_err();
    assert!(matches!(err, ToolError::Denied(_)), "got {err:?}");
}

#[test]
fn a_bad_argument_survives_the_error_mapping() {
    let err = call(&backend(), "count_stats", "{}").unwrap_err();
    assert!(matches!(err, ToolError::InvalidArguments(_)), "got {err:?}");
}

fn server(enabled: bool) -> SshServerConfig {
    SshServerConfig {
        name: "box".into(),
        host: "127.0.0.1".into(),
        port: 22,
        user: "someone".into(),
        password: Some("pw".into()),
        private_key: None,
        passphrase: None,
        fingerprint: None,
        socks_proxy: None,
        whitelist: Vec::new(),
        blacklist: Vec::new(),
        bypass_allowed_roots: false,
        enabled,
    }
}

#[test]
fn ssh_tools_appear_only_when_servers_are_configured() {
    assert!(!names(&backend()).contains(&"ssh_execute".to_string()));

    let mut config = Config::default();
    config.ssh = vec![server(true)];
    let with = NativeBackend::from_config(&config, &Vec::new());
    assert!(names(&with).contains(&"ssh_execute".to_string()));

    config.ssh = vec![server(false)];
    let without = NativeBackend::from_config(&config, &Vec::new());
    assert!(!names(&without).contains(&"ssh_execute".to_string()));
}

#[test]
fn status_is_ready_and_never_spawns() {
    assert_eq!(backend().status(), BackendStatus::Ready);
}

#[test]
fn a_native_call_that_takes_too_long_says_how_long_it_had() {
    assert_eq!(
        native_timed_out("slow", &Duration::from_secs(5)),
        ToolError::Timeout { tool: "slow".to_string(), seconds: 5 }
    );
}

// Proxies -------------------------------------------------------------------

fn config(url: &str) -> ProxyConfig {
    ProxyConfig {
        name: "p".into(),
        url: url.into(),
        bearer: None,
        headers: Vec::new(),
        timeout: HumanDuration::secs(2),
        prefix: None,
        enabled: true,
    }
}

#[test]
fn bearer_token_becomes_a_sensitive_authorization_header() {
    let mut cfg = config("http://x.invalid/mcp");
    cfg.bearer = Some("s3cret".into());
    let backend = ProxyBackend::new(cfg).ok().unwrap();

    let header = backend.headers.get(AUTHORIZATION).unwrap();
    assert!(header.is_sensitive(), "credential must not leak into debug output");
    assert_eq!(header.to_str().unwrap(), "Bearer s3cret");
    assert!(!format!("{header:?}").contains("s3cret"));
}

#[test]
fn every_request_accepts_both_json_and_sse() {
    let backend = ProxyBackend::new(config("http://x.invalid/mcp")).ok().unwrap();
    let accept = backend.headers.get(ACCEPT).unwrap().to_str().unwrap();
    assert!(accept.contains("application/json"), "{accept}");
    assert!(accept.contains("text/event-stream"), "{accept}");
}

#[test]
fn a_blank_bearer_does_not_produce_an_empty_authorization_header() {
    let mut cfg = config("http://x.invalid/mcp");
    cfg.bearer = Some("   ".into());
    let backend = ProxyBackend::new(cfg).ok().unwrap();
    assert!(backend.headers.get(AUTHORIZATION).is_none());
}

#[test]
fn a_configured_accept_header_overrides_the_default() {
    let mut cfg = config("http://x.invalid/mcp");
    cfg.headers.push(("accept".into(), "application/json".into()));
    let backend = ProxyBackend::new(cfg).ok().unwrap();
    assert_eq!(backend.headers.get(ACCEPT).unwrap(), "application/json");
}

#[test]
fn invalid_header_configuration_is_reported_not_dropped() {
    let mut cfg = config("http://x.invalid/mcp");
    cfg.headers.push(("bad header name".into(), "v".into()));
    assert!(ProxyBackend::new(cfg).is_err());

    let mut cfg = config("http://x.invalid/mcp");
    cfg.bearer = Some("tok\nInjected: yes".into());
    assert!(ProxyBackend::new(cfg).is_err());

    let mut cfg = config("http://x.invalid/mcp");
    cfg.headers.push(("x-ok".into(), "a\u{7f}b".into()));
    assert!(ProxyBackend::new(cfg).is_err());
}

#[test]
fn a_header_is_filed_under_its_lowercase_name() {
    let mut cfg = config("http://x.invalid/mcp");
    cfg.headers.push(("X-Api-Key".into(), "é\t1".into()));
    let backend = ProxyBackend::new(cfg).ok().unwrap();
    assert_eq!(backend.headers.get("x-api-key").unwrap().as_bytes(), "é\t1".as_bytes());
}

#[test]
fn parses_plain_json_rpc_bodies() {
    let parsed = parse_body(r#"{"jsonrpc":"2.0","id":1,"result":{"tools":[]}}"#).unwrap();
    assert!(parsed.result.is_some());
}

#[test]
fn parses_sse_framed_bodies_and_takes_the_last_frame() {
    let body = "event: message\ndata: {\"jsonrpc\":\"2.0\",\"id\":1,\"result\":{\"n\":1}}\n\ndata: {\"jsonrpc\":\"2.0\",\"id\":2,\"result\":{\"n\":2}}\n\n";
    let parsed = parse_body(body).unwrap();
    assert_eq!(parsed.result.unwrap().get_unsigned("n"), Some(2));
}

#[test]
fn rejects_bodies_that_are_not_json_rpc_at_all() {
    assert!(parse_body("<html>gateway error</html>").is_none());
    assert_eq!(read_frame("data:  x "), Some("x".to_string()));
    assert_eq!(read_frame("event: x"), None);
    assert_eq!(accept_response(Err("no JSON".to_string())), None);
    assert_eq!(accept_response(Ok(Json::object())), None);
}

#[test]
fn an_unreachable_proxy_is_unavailable_rather_than_fatal() {
    let mut backend = ProxyBackend::new(config("http://127.0.0.1:1/mcp")).ok().unwrap();
    let result = backend.interpret(HttpOutcome::Unreachable);
    assert!(matches!(result, Err(ToolError::Unavailable { .. })), "got {result:?}");
    backend.record(&result);
    assert!(matches!(backend.status(), BackendStatus::Failed(_)));
    backend.record(&Ok(Json::object()));
    assert_eq!(backend.status(), BackendStatus::Ready);
}

#[test]
fn status_is_idle_until_first_contact() {
    let backend = ProxyBackend::new(config("http://127.0.0.1:1/mcp")).ok().unwrap();
    assert_eq!(backend.status(), BackendStatus::Idle);
}

#[test]
fn every_answer_of_a_proxy_is_interpreted() {
    let backend = ProxyBackend::new(config("http://x.invalid/mcp")).ok().unwrap();
    let down = |reason: &str| {
        Err::<Json, ToolError>(ToolError::Unavailable {
            backend: "p".to_string(),
            reason: reason.to_string(),
        })
    };
    assert_eq!(backend.interpret(HttpOutcome::TimedOut), down("request timed out"));
    assert_eq!(
        backend.interpret(HttpOutcome::SendFailed("tls".to_string())),
        down("tls")
    );
    assert_eq!(
        backend.interpret(HttpOutcome::Refused {
            status: "502 Bad Gateway".to_string(),
            body: " oops ".to_string()
        }),
        down("HTTP 502 Bad Gateway: oops")
    );
    assert_eq!(
        backend.interpret(HttpOutcome::Unreadable("cut".to_string())),
        Err(ToolError::Failed("could not read proxy body: cut".to_string()))
    );
    assert_eq!(
        backend.interpret(HttpOutcome::Body("<html>".to_string())),
        Err(ToolError::Failed("proxy returned a body that is not JSON-RPC: <html>".to_string()))
    );
    let body = r#"{"jsonrpc":"2.0","id":1,"result":{"n":1}}"#;
    assert_eq!(
        backend.interpret(HttpOutcome::Body(body.to_string())),
        Ok(json(r#"{"n":1}"#))
    );
    let refused = Response::error(None, -5, "not today".to_string());
    assert_eq!(
        conclude("", Some(refused)),
        Err(ToolError::Failed("not today".to_string()))
    );
}

#[test]
fn requests_to_a_proxy_are_numbered() {
    let mut backend = ProxyBackend::new(config("http://x.invalid/mcp")).ok().unwrap();
    let first = backend.request("tools/list", None);
    let second = backend.request("tools/call", Some(make_call_params("t", Json::object())));
    assert_eq!(first.id, Some(Json::number(1)));
    assert_eq!(second.id, Some(Json::number(2)));
    assert_eq!(second.params.unwrap().compact(), r#"{"arguments":{},"name":"t"}"#);
}

#[test]
fn remote_tools_and_results_are_read() {
    let tools = read_tools("p", &json(r#"{"tools":[{"name":"a"},{"name":"b"}]}"#)).unwrap();
    assert_eq!(tools.len(), 2);
    assert_eq!(tools[1].name, "b");
    assert!(read_tools("p", &json(r#"{"tools":[{}]}"#)).is_err());
    assert!(read_tools("p", &json("{}")).unwrap().is_empty());
    let result =
        read_call_result("p", &json(r#"{"content":[{"type":"text","text":"pong"}]}"#)).unwrap();
    assert_eq!(result.content, vec![Content::text("pong".to_string())]);
    assert!(read_call_result("p", &json(r#"{"content":3}"#)).is_err());
}

// Sidecars ------------------------------------------------------------------

fn sidecar() -> SidecarConfig {
    SidecarConfig {
        name: "test".into(),
        command: "node".into(),
        args: vec!["server.js".to_string()],
        env: vec![("A".to_string(), "1".to_string())],
        inherit_env: None,
        cwd: Some("/srv".to_string()),
        lazy: true,
        prefix: None,
        startup_timeout: HumanDuration::millis(2500),
        restart_on_failure: true,
        enabled: true,
    }
}

fn answer(id: u64, result: &str) -> String {
    format!("{{\"jsonrpc\":\"2.0\",\"id\":{id},\"result\":{result}}}")
}

#[test]
fn lists_tools_despite_interleaved_noise() {
    let mut connection = Connection::new();
    let (id, line) = connection.begin("tools/list", None);
    assert_eq!(
        Json::parse(&line).unwrap(),
        json(r#"{"jsonrpc":"2.0","id":1,"method":"tools/list","params":null}"#)
    );
    assert!(line.ends_with('\n'));
    for noise in [
        "",
        "plain log line on stdout",
        r#"{"jsonrpc":"2.0","method":"notifications/message","params":{}}"#,
        r#"{"jsonrpc":"2.0","id":"text","result":{}}"#,
        r#"{"jsonrpc":"2.0","id":99,"result":{}}"#,
        r#"{"jsonrpc":"2.0","id":1,"method":"roots/list"}"#,
    ] {
        assert!(connection.receive(noise).is_none(), "{noise}");
    }
    let list = r#"{"tools":[{"name":"ping","inputSchema":{"type":"object"}}]}"#;
    let (got, response) = connection.receive(&answer(id, list)).unwrap();
    assert_eq!(got, id);
    let tools = read_tools("test", &finish_request(Some(response)).unwrap()).unwrap();
    assert_eq!(tools.len(), 1);
    assert_eq!(tools[0].name, "ping");
}

#[test]
fn stays_in_sync_across_many_sequential_calls() {
    let mut connection = Connection::new();
    for _ in 0..5 {
        let (id, _) = connection.begin("tools/call", Some(make_call_params("ping", Json::object())));
        assert!(connection.receive("noise").is_none());
        let pong = r#"{"content":[{"type":"text","text":"pong"}]}"#;
        let (got, response) = connection.receive(&answer(id, pong)).unwrap();
        assert_eq!(got, id);
        let result =
            read_call_result("test", &finish_request(Some(response)).unwrap()).unwrap();
        assert_eq!(result.content, vec![Content::text("pong".to_string())]);
    }
}

#[test]
fn concurrent_calls_each_receive_their_own_response() {
    let mut connection = Connection::new();
    let ids: Vec<u64> = (0..8).map(|_| connection.begin("tools/call", None).0).collect();
    for id in ids.iter().rev() {
        let (got, response) =
            connection.receive(&answer(*id, &format!("{{\"n\":{id}}}"))).unwrap();
        assert_eq!(got, *id);
        assert_eq!(finish_request(Some(response)).unwrap().get_unsigned("n"), Some(*id));
        assert!(connection.receive(&answer(*id, "{}")).is_none(), "answered twice");
    }
}

#[test]
fn an_empty_result_is_still_an_answer() {
    let mut connection = Connection::new();
    let (id, _) = connection.begin("ping", None);
    assert!(connection.receive(&answer(id, "null")).is_some());
    let (id, _) = connection.begin("ping", None);
    assert!(connection.receive(&format!(r#"["2.0",{id},{{}},null]"#)).is_some());
}

#[test]
fn an_abandoned_request_is_not_answered() {
    let mut connection = Connection::new();
    let (id, _) = connection.begin("tools/list", None);
    connection.abandon(id);
    assert!(connection.receive(&answer(id, "{}")).is_none());
}

#[test]
fn a_command_that_does_not_exist_is_unavailable_not_a_panic() {
    let mut backend = SidecarBackend::new(sidecar());
    let failure = backend.unavailable("no such file");
    let err = backend.started(StartOutcome::Failed(failure)).unwrap_err();
    assert!(matches!(err, ToolError::Unavailable { .. }), "got {err:?}");
    assert!(matches!(backend.status(None), BackendStatus::Failed(_)));
}

#[test]
fn a_sidecar_that_never_answers_initialize_times_out() {
    let mut backend = SidecarBackend::new(sidecar());
    let err = backend.started(StartOutcome::TimedOut).unwrap_err();
    let ToolError::Unavailable { backend: name, reason } = err else { panic!("got {err:?}") };
    assert_eq!(name, "test");
    assert_eq!(reason, "did not complete MCP initialize within 2s");
}

#[test]
fn a_sidecar_that_exits_is_reported_and_then_retried() {
    let mut backend = SidecarBackend::new(sidecar());
    assert!(backend.started(StartOutcome::Connected).is_ok());
    assert_eq!(backend.plan_connect(Some(true)), ConnectPlan::Reuse);
    assert_eq!(backend.plan_connect(Some(false)), ConnectPlan::Spawn);
    assert_eq!(
        backend.status(Some(false)),
        BackendStatus::Failed("process exited".to_string())
    );
    let mut connection = Connection::new();
    connection.begin("tools/list", None);
    connection.fail_all();
    assert!(!connection.is_alive());
    assert_eq!(
        finish_request(None),
        Err(ToolError::Failed("sidecar closed the connection before responding".to_string()))
    );
}

#[test]
fn a_sidecar_that_must_not_restart_is_refused() {
    let mut cfg = sidecar();
    cfg.restart_on_failure = false;
    let backend = SidecarBackend::new(cfg);
    assert!(matches!(backend.plan_connect(Some(false)), ConnectPlan::Refuse(_)));
    assert_eq!(backend.plan_connect(None), ConnectPlan::Spawn);
}

#[test]
fn status_is_idle_before_first_use() {
    let backend = SidecarBackend::new(sidecar());
    assert_eq!(backend.status(None), BackendStatus::Idle);
    assert_eq!(backend.status(Some(true)), BackendStatus::Ready);
}

#[test]
fn a_sidecar_is_spawned_as_configured() {
    let env = Environment {
        vars: vec![
            ("PATH".to_string(), "/bin".to_string()),
            ("SECRET".to_string(), "x".to_string()),
        ],
    };
    let plan = SidecarBackend::new(sidecar()).spawn_plan(&env);
    assert_eq!(plan.program, "node");
    assert_eq!(plan.args, vec!["server.js".to_string()]);
    assert_eq!(plan.cwd.as_deref(), Some("/srv"));
    assert!(!plan.clear_env);
    assert_eq!(plan.env, vec![("A".to_string(), "1".to_string())]);

    let mut cfg = sidecar();
    cfg.inherit_env = Some(vec!["PATH".to_string(), "ABSENT".to_string()]);
    let plan = SidecarBackend::new(cfg).spawn_plan(&env);
    assert!(plan.clear_env);
    assert!(plan.env.contains(&("PATH".to_string(), "/bin".to_string())));
    assert!(plan.env.contains(&("A".to_string(), "1".to_string())));
    assert!(!plan.env.iter().any(|(k, _)| k == "SECRET" || k == "ABSENT"));
}

#[test]
fn the_handshake_names_the_client() {
    let params = handshake_params();
    assert_eq!(params.get_text("protocolVersion").unwrap(), "2025-06-18");
    assert_eq!(params.get("clientInfo").unwrap().get_text("name").unwrap(), "omni-mcp");
    assert_eq!(
        Json::parse(&notification_line("notifications/initialized")).unwrap(),
        json(r#"{"jsonrpc":"2.0","method":"notifications/initialized"}"#)
    );
}

#[test]
fn a_sidecar_call_that_takes_too_long_says_how_long_it_had() {
    assert_eq!(
        sidecar_timed_out("slow", &Duration::from_millis(1500)),
        ToolError::Timeout { tool: "slow".to_string(), seconds: 1 }
    );
}
