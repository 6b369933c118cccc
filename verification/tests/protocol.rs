//! Errors, JSON, JSON-RPC and MCP messages.

use omni_mcp::error::{missing, ConfigError, StartupError, ToolError};
use omni_mcp::json::Json;
use omni_mcp::protocol::code;
use omni_mcp::protocol::version::LATEST;
use omni_mcp::protocol::{
    CallToolResult, Content, ProtocolVersion, Request, Response, RpcError, Tool,
};

fn json(text: &str) -> Json {
    Json::parse(text).expect("the text is JSON")
}

fn request(text: &str) -> Request {
    Request::from_json(&json(text)).expect("the value is a request")
}

// Errors --------------------------------------------------------------------

#[test]
fn argument_errors_map_to_invalid_params() {
    assert_eq!(ToolError::InvalidArguments("x".into()).rpc_code(), code::INVALID_PARAMS);
    assert_eq!(ToolError::NotFound("x".into()).rpc_code(), code::METHOD_NOT_FOUND);
    assert_eq!(ToolError::Timeout { tool: "x".into(), seconds: 1 }.rpc_code(), code::TIMEOUT);
}

#[test]
fn missing_helper_names_the_field() {
    assert!(missing("path").message().contains("\"path\""));
}

#[test]
fn every_tool_error_has_its_message() {
    assert_eq!(
        ToolError::Unavailable { backend: "b".into(), reason: "r".into() }.rpc_code(),
        code::INTERNAL_ERROR
    );
    assert!(ToolError::NotFound("nope".into()).message().contains("nope"));
    assert!(ToolError::Denied("why".into()).message().contains("why"));
    assert_eq!(ToolError::Failed("boom".into()).message(), "boom");
    let timeout = ToolError::Timeout { tool: "slow".into(), seconds: 7 }.message();
    assert!(timeout.contains("slow") && timeout.contains('7'), "{timeout}");
    let down = ToolError::Unavailable { backend: "ha".into(), reason: "refused".into() }.message();
    assert!(down.contains("ha") && down.contains("refused"), "{down}");
}

#[test]
fn every_startup_error_has_its_message() {
    let config = StartupError::Config(ConfigError::Invalid("bad".into()));
    assert!(config.message().contains("bad"));
    let bind = StartupError::Bind { addr: "0.0.0.0:1".into(), source: "in use".into() };
    assert_eq!(bind.message(), "could not bind 0.0.0.0:1: in use");
    assert_eq!(StartupError::Io("gone".into()).message(), "i/o error: gone");
    assert!(StartupError::UnauthenticatedHttp.message().contains("--allow-unauthenticated"));
}

// JSON ----------------------------------------------------------------------

#[test]
fn json_is_read_and_written() {
    let value = json(r#"{"b":[1,-2,2.5,true,null],"a":"x\ny"}"#);
    assert_eq!(value.compact(), r#"{"a":"x\ny","b":[1,-2,2.5,true,null]}"#);
    assert_eq!(json(&value.pretty()), value);
    assert_eq!(value.get_text("a").map(|s| s.as_str()), Some("x\ny"));
    assert_eq!(Json::integer(-2).compact(), "-2");
    assert_eq!(Json::number(u64::MAX).compact(), u64::MAX.to_string());
    assert!(Json::parse("{ not json").is_err());
}

#[test]
fn json_fields_are_replaced_and_removed() {
    let value = Json::object().with("k", Json::number(1)).with("k", Json::number(2));
    assert_eq!(value.get_unsigned("k"), Some(2));
    let rest = value.with("l", Json::Bool(true)).without("k");
    assert_eq!(rest, json(r#"{"l":true}"#));
    assert_eq!(rest.get_flag("l"), Some(true));
    assert_eq!(rest.get("k"), None);
}

// JSON-RPC ------------------------------------------------------------------

#[test]
fn notification_is_detected_by_absent_id() {
    let notif = request(r#"{"jsonrpc":"2.0","method":"notifications/initialized"}"#);
    assert!(notif.is_notification());

    let req = request(r#"{"jsonrpc":"2.0","id":1,"method":"tools/list"}"#);
    assert!(!req.is_notification());
}

#[test]
fn null_id_is_preserved_rather_than_dropped() {
    let req = request(r#"{"id":null,"method":"ping"}"#);
    assert!(req.is_notification());
}

#[test]
fn success_response_omits_error_field() {
    let resp = Response::success(Some(Json::number(7)), Json::object());
    let encoded = resp.to_json().compact();
    assert!(!encoded.contains("error"));
    assert!(encoded.contains(r#""id":7"#));
}

#[test]
fn envelope_without_result_or_error_is_an_error() {
    let resp = Response { jsonrpc: "2.0".into(), id: None, result: None, error: None };
    assert!(resp.into_result().is_err());
}

#[test]
fn an_error_wins_over_a_result() {
    let both = Response::from_json(&json(
        r#"{"jsonrpc":"2.0","id":1,"result":{},"error":{"code":-1,"message":"no"}}"#,
    ))
    .unwrap();
    let err = both.into_result().unwrap_err();
    assert_eq!(err, RpcError { code: -1, message: "no".into(), data: None });
    assert!(err.text().contains("no"));
}

#[test]
fn requests_round_trip_and_default_their_params() {
    let req = request(r#"{"jsonrpc":"2.0","id":"a","method":"m","params":{"x":1}}"#);
    assert_eq!(Request::from_json(&req.to_json()).unwrap(), req);
    assert_eq!(req.params_or_empty(), json(r#"{"x":1}"#));
    assert_eq!(request(r#"{"method":"m"}"#).params_or_empty(), Json::object());
    assert!(Request::from_json(&json(r#"{"id":1}"#)).is_err());
    assert!(Request::from_json(&json(r#"{"method":3}"#)).is_err());
}

#[test]
fn responses_round_trip() {
    let failure = Response::error(Some(Json::string("a")), code::TIMEOUT, "slow".to_string());
    assert_eq!(Response::from_json(&failure.to_json()).unwrap(), failure);
    assert_eq!(
        failure.to_json().compact(),
        r#"{"error":{"code":-32000,"message":"slow"},"id":"a","jsonrpc":"2.0"}"#
    );
    assert!(Response::from_json(&json(r#"{"result":{}}"#)).is_err());
}

// MCP -----------------------------------------------------------------------

#[test]
fn tool_preserves_unknown_upstream_fields() {
    let raw = json(
        r#"{
            "name": "search",
            "description": "d",
            "inputSchema": { "type": "object" },
            "annotations": { "readOnlyHint": true },
            "title": "Search"
        }"#,
    );
    let tool = Tool::from_json(&raw).unwrap();
    assert!(tool.extra.iter().any(|(key, _)| key == "annotations"));

    let round_tripped = tool.to_json();
    assert_eq!(
        round_tripped.get("annotations").unwrap().get("readOnlyHint"),
        Some(&Json::Bool(true))
    );
    assert_eq!(round_tripped.get("title"), Some(&Json::string("Search")));
}

#[test]
fn tool_without_input_schema_gets_an_empty_object_schema() {
    let tool = Tool::from_json(&json(r#"{ "name": "t" }"#)).unwrap();
    assert_eq!(tool.input_schema.get("type"), Some(&Json::string("object")));
}

#[test]
fn error_result_is_flagged() {
    assert!(CallToolResult::error("boom".to_string()).is_failure());
    assert!(!CallToolResult::text("ok".to_string()).is_failure());
}

#[test]
fn structured_result_carries_both_renderings() {
    let result = CallToolResult::structured(json(r#"{ "count": 2 }"#));
    assert_eq!(result.structured_content, Some(json(r#"{ "count": 2 }"#)));
    let Content::Text { text } = &result.content[0] else { panic!("expected text block") };
    assert!(text.contains("\"count\": 2"));
}

#[test]
fn unknown_content_blocks_round_trip() {
    let raw = json(r#"{ "content": [{ "type": "image", "data": "x", "mimeType": "image/png" }] }"#);
    let result = CallToolResult::from_json(&raw).unwrap();
    assert_eq!(result.into_value().get("content"), raw.get("content"));
}

#[test]
fn a_result_is_encoded_without_what_it_lacks() {
    let plain = CallToolResult::text("ok".to_string()).into_value();
    assert_eq!(plain.compact(), r#"{"content":[{"text":"ok","type":"text"}]}"#);
    let failed = CallToolResult::error("no".to_string()).into_value();
    assert_eq!(failed.get("isError"), Some(&Json::Bool(true)));
}

#[test]
fn a_renamed_tool_keeps_everything_else() {
    let tool = Tool::new("a", "does a", Json::object());
    let renamed = tool.with_name("b".to_string());
    assert_eq!(renamed.name, "b");
    assert_eq!(renamed.description.as_deref(), Some("does a"));
}

#[test]
fn messages_may_be_written_as_arrays_of_their_fields() {
    let ping = request(r#"["2.0",7,"ping"]"#);
    assert_eq!((ping.id, ping.method.as_str(), ping.params), (Some(Json::number(7)), "ping", None));
    assert!(request(r#"[null,null,"ping",[1]]"#).is_notification());
    assert!(Request::from_json(&json(r#"["2.0",7]"#)).is_err());
    assert!(Request::from_json(&json(r#"["2.0",7,"ping",{},1]"#)).is_err());

    let answer = Response::from_json(&json(r#"["2.0",7,null,[-5,"no"]]"#)).unwrap();
    assert_eq!(answer.error, Some(RpcError { code: -5, message: "no".into(), data: None }));
    assert!(Response::from_json(&json(r#"["2.0",7,{}]"#)).is_err());
    assert!(RpcError::from_json(&json("[-5]")).is_err());

    let result = CallToolResult::from_json(&json(r#"[[["text","hi"],["text"]],true]"#)).unwrap();
    assert_eq!(result.content[0], Content::text("hi".to_string()));
    assert_eq!(result.content[1], Content::Other(json(r#"["text"]"#)));
    assert!(result.is_failure());
}

// Versions ------------------------------------------------------------------

#[test]
fn supported_version_is_echoed_back() {
    assert_eq!(ProtocolVersion::negotiate(Some("2024-11-05")).as_str(), "2024-11-05");
    assert_eq!(ProtocolVersion::negotiate(Some("2025-06-18")).as_str(), "2025-06-18");
}

#[test]
fn unknown_version_falls_back_to_our_latest() {
    assert_eq!(ProtocolVersion::negotiate(Some("1999-01-01")).as_str(), LATEST);
}

#[test]
fn missing_version_selects_the_most_compatible() {
    assert_eq!(ProtocolVersion::negotiate(None).as_str(), "2024-11-05");
}
