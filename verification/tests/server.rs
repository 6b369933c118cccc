//! The stdio and HTTP transports.

use omni_mcp::config::Config;
use omni_mcp::error::StartupError;
use omni_mcp::json::Json;
use omni_mcp::protocol::code;
use omni_mcp::protocol::{Request, Response};
use omni_mcp::router::dispatch::Plan;
use omni_mcp::router::Router;
use omni_mcp::server::http::{
    accept_request, authorize, constant_time_eq, cors, health, plan_serve, read_request,
    reject_body,
};
use omni_mcp::server::stdio::{
    handle_line, handle_message, salvage_id, write_response, LineOutcome,
};

fn json(text: &str) -> Json {
    Json::parse(text).expect("the text is JSON")
}

fn token(text: &str) -> Option<String> {
    Some(text.to_string())
}

// Standard input and output -------------------------------------------------

#[test]
fn an_id_is_recovered_from_a_structurally_valid_but_invalid_request() {
    let id = salvage_id(r#"{"jsonrpc":"2.0","id":42}"#);
    assert_eq!(id, Some(Json::number(42)));
}

#[test]
fn no_id_is_recovered_from_unparseable_or_notification_input() {
    assert_eq!(salvage_id("not json at all"), None);
    assert_eq!(salvage_id(r#"{"method":"notifications/x"}"#), None);
    assert_eq!(salvage_id(r#"{"id":null,"method":"x"}"#), None);
}

#[test]
fn a_plain_answer_is_read_back_from_its_line() {
    let result = Json::parse(r#"{"list":[1,-2,true,null,"a\nb"],"inner":{"k":""}}"#).unwrap();
    let line = write_response(&Response::success(Some(Json::number(3)), result.dup()));
    assert!(!line.trim_end().contains('\n'), "{line}");
    assert_eq!(Json::parse(&line).unwrap().get("result"), Some(&result));
}

#[test]
fn a_string_id_is_preserved_verbatim() {
    assert_eq!(salvage_id(r#"{"id":"abc"}"#), Some(Json::string("abc")));
}

#[test]
fn malformed_input_does_not_kill_the_session() {
    let LineOutcome::Reply(error) = handle_line(r#"{"jsonrpc":"2.0","id":7}"#) else {
        panic!("expected an answer")
    };
    assert_eq!(error.id, Some(Json::number(7)));
    assert_eq!(error.error.as_ref().unwrap().code, code::PARSE_ERROR);

    let LineOutcome::Handle(ping) = handle_line(r#"{"jsonrpc":"2.0","id":8,"method":"ping"}"#)
    else {
        panic!("expected a request")
    };
    assert_eq!(ping.id, Some(Json::number(8)));
    assert!(matches!(handle_line("   "), LineOutcome::Skip));
    assert!(matches!(handle_line("not json"), LineOutcome::Skip));
    assert!(matches!(handle_line(r#"{"params":{}}"#), LineOutcome::Skip));
    assert!(matches!(handle_message(Err("cut".to_string())), LineOutcome::Skip));
}

#[test]
fn a_response_is_one_line() {
    let line = write_response(&Response::success(Some(Json::number(1)), Json::string("a\nb")));
    assert!(line.ends_with('\n'));
    assert_eq!(line.matches('\n').count(), 1);
    assert_eq!(json(&line).get_text("result").unwrap(), "a\nb");
}

// HTTP ----------------------------------------------------------------------

#[test]
fn a_correct_token_is_accepted() {
    assert!(authorize(&token("secret"), Some("Bearer secret")).is_ok());
    assert!(authorize(&token("secret"), Some("Bearer   secret  ")).is_ok());
    let request = read_request(r#"{"id":1,"method":"ping"}"#).unwrap();
    let gateway = Router::build(Config::default(), &Vec::new()).ok().unwrap();
    let Plan::Reply(response) = gateway.router.handle(request) else { panic!("no answer") };
    assert_eq!(response.id, Some(Json::number(1)));
    assert!(response.error.is_none());
}

#[test]
fn a_missing_or_wrong_token_is_rejected() {
    assert!(authorize(&token("secret"), None).is_err());
    let response = authorize(&token("secret"), Some("Bearer wrong")).unwrap_err();
    assert_eq!(response.error.unwrap().code, code::UNAUTHORIZED);
    assert!(authorize(&token("secret"), Some("Basic secret")).is_err());
}

#[test]
fn authentication_can_be_waived_explicitly() {
    assert!(authorize(&None, None).is_ok());
    assert!(authorize(&None, Some("Bearer whatever")).is_ok());
}

#[test]
fn a_notification_is_accepted_with_no_body() {
    let request = read_request(r#"{"method":"notifications/initialized"}"#).unwrap();
    let gateway = Router::build(Config::default(), &Vec::new()).ok().unwrap();
    assert!(matches!(gateway.router.handle(request), Plan::Ignore));
}

#[test]
fn a_malformed_body_produces_a_parse_error_not_a_panic() {
    let (status, response) = read_request("{ not json").unwrap_err();
    assert_eq!(status, 400);
    assert_eq!(response.error.unwrap().code, code::PARSE_ERROR);
}

#[test]
fn every_unusable_body_is_told_apart() {
    assert_eq!(read_request("{").unwrap_err().0, 400);
    assert_eq!(read_request("{\"id\":1}").unwrap_err().0, 422);
    let (status, response) = accept_request(Err("cut short".to_string())).unwrap_err();
    assert_eq!(status, 400);
    assert_eq!(
        response.error.unwrap().message,
        "could not read the request body: Failed to parse the request body as JSON: cut short"
    );
    assert_eq!(
        reject_body("too long").error.unwrap().message,
        "could not read the request body: too long"
    );
}

#[test]
fn the_health_endpoint_needs_no_token() {
    assert_eq!(health(), json(r#"{"status":"ok","version":"0.1.0"}"#));
}

#[test]
fn cors_is_closed_unless_origins_are_configured() {
    assert!(cors(&Vec::new()).is_empty());
    let listed = vec!["bad\norigin".to_string()];
    assert!(cors(&listed).is_empty());
}

#[test]
fn a_configured_origin_is_allowed() {
    let listed = vec!["http://localhost:3000".to_string(), "a\u{0}b".to_string()];
    assert_eq!(cors(&listed), vec!["http://localhost:3000".to_string()]);
}

#[test]
fn constant_time_comparison_is_still_correct() {
    assert!(constant_time_eq(b"abc", b"abc"));
    assert!(!constant_time_eq(b"abc", b"abd"));
    assert!(!constant_time_eq(b"abc", b"ab"));
    assert!(constant_time_eq(b"", b""));
}

#[test]
fn http_mode_refuses_to_start_unauthenticated_without_an_explicit_waiver() {
    let mut server = Config::default().server;
    let bind = Some("127.0.0.1:0".to_string());
    let Err(err) = plan_serve(&server, &bind, false) else { panic!("expected a refusal") };
    assert_eq!(err, StartupError::UnauthenticatedHttp);
    assert!(err.message().contains("--allow-unauthenticated"));

    let waived = plan_serve(&server, &bind, true).ok().unwrap();
    assert_eq!(waived.address, "127.0.0.1:0");
    assert_eq!(waived.http.token, None);

    server.auth_token = Some(" tok ".to_string());
    server.allowed_origins = vec!["http://a".to_string()];
    let plan = plan_serve(&server, &None, false).ok().unwrap();
    assert_eq!(plan.address, "127.0.0.1:8080");
    assert_eq!(plan.http.token.as_deref(), Some("tok"));
    assert_eq!(plan.http.allowed_origins, vec!["http://a".to_string()]);
    assert_eq!(plan.http.max_body_bytes, server.max_body_bytes);
}

#[test]
fn completes_a_full_session_over_stdio() {
    let gateway = Router::build(Config::default(), &Vec::new()).ok().unwrap();
    let answer = |line: &str| -> Option<Json> {
        let LineOutcome::Handle(request) = handle_line(line) else { panic!("expected a request") };
        match gateway.router.handle(request) {
            Plan::Reply(response) => Some(json(&write_response(&response))),
            Plan::Ignore => None,
            _ => panic!("expected nothing to be called"),
        }
    };
    let hello = answer(
        r#"{"jsonrpc":"2.0","id":1,"method":"initialize","params":{"protocolVersion":"2024-11-05"}}"#,
    )
    .unwrap();
    assert_eq!(
        hello.get("result").unwrap().get_text("protocolVersion").unwrap(),
        "2024-11-05"
    );
    assert_eq!(answer(r#"{"jsonrpc":"2.0","method":"notifications/initialized"}"#), None);
    let ping = answer(r#"{"jsonrpc":"2.0","id":2,"method":"ping"}"#).unwrap();
    assert_eq!(ping.get_unsigned("id"), Some(2));
    assert_eq!(ping.get("error"), None);
}

#[test]
fn a_request_survives_being_framed() {
    let request = Request {
        jsonrpc: Some("2.0".to_string()),
        id: Some(Json::number(3)),
        method: "tools/list".to_string(),
        params: None,
    };
    let LineOutcome::Handle(read) = handle_line(&request.to_json().compact()) else {
        panic!("expected a request")
    };
    assert_eq!(read, request);
}

#[test]
fn plain_values_are_read_back_from_their_text() {
    let value = Json::object()
        .with("text", Json::string("a\n\t\u{1}\"\\ é \u{7f}"))
        .with("large", Json::number(u64::MAX))
        .with("small", Json::integer(i64::MIN))
        .with("list", Json::array(vec![Json::Null, Json::Bool(true), Json::number(0)]));
    let text = value.compact();
    assert!(!text.contains('\n'));
    assert_eq!(Json::parse(&text).unwrap().compact(), text);
    let read = Json::parse(&text).unwrap();
    assert_eq!(read.get_text("text").unwrap(), "a\n\t\u{1}\"\\ é \u{7f}");
    assert_eq!(read.get_unsigned("large"), Some(u64::MAX));

    let nested = |depth: usize| (0..depth).fold(Json::Null, |v, _| Json::array(vec![v]));
    assert_eq!(Json::parse(&nested(127).compact()), Ok(nested(127)));
    assert!(Json::parse(&nested(128).compact()).is_err());
}
