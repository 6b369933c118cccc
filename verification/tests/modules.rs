//! The modules and their registry.

use omni_mcp::config::duration::HumanDuration;
use omni_mcp::config::{Config, ProxyConfig, SidecarConfig, ToolPolicy};
use omni_mcp::diff::{DiffTag, LineChange};
use omni_mcp::error::ToolError;
use omni_mcp::json::Json;
use omni_mcp::modules::common::{show_matches, CommonModule};
use omni_mcp::modules::diff::{sign_lines, DiffModule};
use omni_mcp::modules::eval::{compose_output, EvalModule};
use omni_mcp::modules::everything::{show_results, EverythingModule, SearchReply};
use omni_mcp::modules::grep::{GrepModule, GrepState};
use omni_mcp::modules::hex::{aligned, parse_hex, show_view, write_at, HexModule, HexPatch};
use omni_mcp::modules::resx::{
    collect_entries, read_entries, rebuild, write_entry, ResxModule, TEMPLATE,
};
use omni_mcp::protocol::{CallToolResult, Content, Request, Response, Tool};
use omni_mcp::registry::{
    accept_response, call_proxy_tool, fetch_proxy_tools, finish_module, finish_remote,
    make_call_body, make_list_body, next_proxy, take_outcome, take_tools, ModuleEntry, Registry,
    RegistryPlan, RemoteReply,
};
use omni_mcp::tools::{OnDisk, ToolContext};
use omni_mcp::xml::XmlItem;

fn json(text: &str) -> Json {
    Json::parse(text).expect("the text is JSON")
}

fn text_of(result: &CallToolResult) -> String {
    let Content::Text { text } = &result.content[0] else { panic!("expected a text block") };
    text.clone()
}

fn strings(list: &[&str]) -> Vec<String> {
    list.iter().map(|s| s.to_string()).collect()
}

// Common --------------------------------------------------------------------

#[test]
fn the_common_module_matches_and_counts() {
    let module = CommonModule::new();
    assert_eq!(module.name(), "common");
    let found = module
        .call_tool("regex_match", &json(r#"{"pattern":"\\d+","text":"a1 b22"}"#))
        .unwrap();
    assert_eq!(json(&text_of(&found)), json(r#"{"count":2,"matches":["1","22"]}"#));
    let counted = module.call_tool("count_stats", &json(r#"{"text":"a b\nc"}"#)).unwrap();
    assert!(text_of(&counted).contains('3'), "{}", text_of(&counted));
    assert!(module.call_tool("regex_match", &json(r#"{"pattern":"("}"#)).is_err());
    assert!(module.call_tool("nope", &Json::object()).is_err());
    let shown = show_matches(&strings(&["x"]));
    assert_eq!(json(&text_of(&shown)), json(r#"{"count":1,"matches":["x"]}"#));
}

// Diff ----------------------------------------------------------------------

#[test]
fn the_diff_module_signs_every_line() {
    let module = DiffModule::new();
    assert_eq!(module.name(), "diff");
    let diff = module
        .call_tool("diff_text", &json(r#"{"old_text":"a\nb\n","new_text":"a\nc\n"}"#))
        .unwrap();
    let text = text_of(&diff);
    assert!(text.contains("-b") && text.contains("+c"), "{text}");
    assert!(module.call_tool("nope", &Json::object()).is_err());
    let changes = vec![
        LineChange { tag: DiffTag::Equal, value: "a\n".to_string() },
        LineChange { tag: DiffTag::Delete, value: "b\n".to_string() },
        LineChange { tag: DiffTag::Insert, value: "c\n".to_string() },
    ];
    assert_eq!(sign_lines(&changes), " a\n-b\n+c\n");
}

// Eval ----------------------------------------------------------------------

#[test]
fn the_eval_module_picks_an_interpreter() {
    let module = EvalModule::new();
    assert_eq!(module.name(), "eval");
    let plan = module.plan("eval_code", &json(r#"{"language":"PY","code":"1"}"#)).ok().unwrap();
    assert_eq!(plan.program, "python3");
    assert_eq!(plan.extension, ".py");
    assert!(plan.leading_args.is_empty());
    let go = module.plan("eval_code", &json(r#"{"language":"go","code":""}"#)).ok().unwrap();
    assert_eq!(go.program, "go");
    assert_eq!(go.leading_args, ["run"]);
    for bad in [r#"{"language":"cobol","code":""}"#, r#"{"code":""}"#, r#"{"language":"py"}"#] {
        assert!(module.plan("eval_code", &json(bad)).is_err(), "{bad}");
    }
    assert!(module.plan("nope", &Json::object()).is_err());
}

#[test]
fn output_and_errors_are_composed() {
    assert_eq!(text_of(&compose_output("", "")), "(no output)");
    assert_eq!(text_of(&compose_output("a", "")), "a");
    assert_eq!(text_of(&compose_output("", "b")), "b");
    assert_eq!(text_of(&compose_output("a", "b")), "a\n--- Stderr ---\nb");
}

// Everything ----------------------------------------------------------------

#[test]
fn a_search_is_asked_for_by_url() {
    let module = EverythingModule::new();
    assert_eq!(module.name(), "everything");
    let url = module.plan("everything_search", &json(r#"{"query":"a b/é&~"}"#)).unwrap();
    assert_eq!(
        url,
        "http://127.0.0.1:14680/?search=a%20b%2F%C3%A9%26~&json=1&count=50"
    );
    let url = module
        .plan(
            "everything_search",
            &json(r#"{"query":"x","host":"h","port":1,"max_results":2}"#),
        )
        .unwrap();
    assert_eq!(url, "http://h:1/?search=x&json=1&count=2");
    assert!(module.plan("everything_search", &Json::object()).is_err());
    assert!(module.plan("nope", &Json::object()).is_err());
}

#[test]
fn a_search_is_answered() {
    let module = EverythingModule::new();
    let shown = module.finish(SearchReply::Body(r#"{"n":1}"#.to_string())).unwrap();
    assert_eq!(text_of(&shown), "{\n  \"n\": 1\n}");
    assert_eq!(
        module.finish(SearchReply::Status("404 Not Found".to_string())).unwrap_err(),
        "Everything HTTP returned status 404 Not Found"
    );
    assert_eq!(
        module.finish(SearchReply::Unreachable("refused".to_string())).unwrap_err(),
        "Everything API request failed: refused"
    );
    assert_eq!(
        show_results(Err("cut".to_string())).unwrap_err(),
        "Failed to parse Everything response: cut"
    );
}

// Grep ----------------------------------------------------------------------

#[test]
fn the_grep_module_searches_and_replaces() {
    let module = GrepModule::new();
    assert_eq!(module.name(), "grep");
    let args = json(r#"{"path":"/p","pattern":"b+","is_regex":true,"replace":"X"}"#);
    let request = module.plan("grep_search", &args, true).ok().unwrap();
    assert_eq!(request.max_depth, 5);
    let mut state = GrepState::new();
    let rewritten = request.scan_file(&mut state, "/p/f", "a\nabb\n");
    assert_eq!(rewritten.as_deref(), Some("a\naX"));
    assert_eq!(state.count(), 1);
    assert_eq!(text_of(&module.report(&state)), "Found 1 matches.\n\n/p/f:2: abb -> aX");
    assert!(module.plan("grep_search", &args, false).is_err());
    assert!(module.plan("nope", &args, true).is_err());
    let broken = json(r#"{"path":"/p","pattern":"(","is_regex":true}"#);
    assert!(module.plan("grep_search", &broken, true).is_err());
}

#[test]
fn a_plain_search_only_reports() {
    let module = GrepModule::new();
    let args = json(r#"{"path":"/p","pattern":"a","max_depth":2}"#);
    let request = module.plan("grep_search", &args, true).ok().unwrap();
    assert_eq!(request.max_depth, 2);
    let mut state = GrepState::new();
    assert_eq!(request.scan_file(&mut state, "f", "a\nb\nca"), None);
    assert_eq!(text_of(&module.report(&state)), "Found 2 matches.\n\nf:1: a\nf:3: ca");
}

// Hex -----------------------------------------------------------------------

#[test]
fn hex_text_is_read() {
    assert!(aligned("48 65"));
    assert_eq!(parse_hex("48 65").unwrap(), b"He");
    assert_eq!(parse_hex("0aFf\r\n").unwrap(), vec![0x0a, 0xff]);
    assert_eq!(parse_hex("+f").unwrap(), vec![15]);
    assert_eq!(parse_hex("").unwrap(), b"");
    assert_eq!(parse_hex("4"), Err("Hex string length must be even".to_string()));
    let bad = Err("Invalid hex byte: invalid digit found in string".to_string());
    assert_eq!(parse_hex("zz"), bad);
    assert!(aligned("é"));
    assert_eq!(parse_hex("é"), bad);
    assert!(!aligned("4é5"));
}

#[test]
fn the_hex_module_shows_and_patches() {
    let module = HexModule::new();
    assert_eq!(module.name(), "hex");
    assert_eq!(module.file(&json(r#"{"path":"/f"}"#)).unwrap(), "/f");
    assert!(module.file(&Json::object()).is_err());
    assert_eq!(module.window(&json(r#"{"offset":3,"length":4}"#)), (3, Some(4)));
    let bytes = b"Hello".to_vec();
    let shown = show_view("/f", 1, Some(3), &bytes).unwrap();
    assert!(text_of(&shown).contains("65"), "{}", text_of(&shown));
    assert!(show_view("/f", 9, None, &bytes).is_err());
    assert!(matches!(
        module.patch(&json(r#"{"search_hex":"41","replace_hex":"42"}"#)),
        Ok(HexPatch::Substitute { .. })
    ));
    assert!(matches!(
        module.patch(&json(r#"{"offset":1,"hex_data":"42"}"#)),
        Ok(HexPatch::Write { offset: 1, .. })
    ));
    assert!(module.patch(&Json::object()).is_err());
    assert_eq!(write_at(&b"ab".to_vec(), 1, &b"XYZ".to_vec()), b"aXYZ");
    assert_eq!(write_at(&b"ab".to_vec(), 4, &b"X".to_vec()), b"ab\0\0X");
}

#[test]
fn a_hex_patch_is_made_and_reported() {
    let module = HexModule::new();
    let bytes = b"abab".to_vec();
    let patch = module.patch(&json(r#"{"search_hex":"62","replace_hex":"63 63"}"#)).ok().unwrap();
    assert!(patch.feasible());
    let (after, answer) = patch.apply("/f", &bytes).unwrap();
    assert_eq!(after, b"accacc");
    assert_eq!(text_of(&answer), "Replaced 2 occurrences of hex pattern in /f");

    let patch = module.patch(&json(r#"{"offset":3,"hex_data":"5859"}"#)).ok().unwrap();
    assert!(patch.feasible());
    let (after, answer) = patch.apply("/f", &bytes).unwrap();
    assert_eq!(after, b"abaXY");
    assert_eq!(text_of(&answer), "Patched 2 bytes at offset 3 in /f");

    let patch = module.patch(&json(r#"{"search_hex":"6"}"#)).ok().unwrap();
    assert!(patch.feasible());
    assert_eq!(
        patch.apply("/f", &bytes).err(),
        Some("Hex string length must be even".to_string())
    );
    let patch = module.patch(&json(r#"{"search_hex":"","replace_hex":"41"}"#)).ok().unwrap();
    assert!(!patch.feasible());
    assert_eq!(
        module.patch(&json(r#"{"offset":3}"#)).err(),
        Some("Missing hex_data".to_string())
    );
}

// Resx ----------------------------------------------------------------------

const RESX: &str = "<?xml version=\"1.0\"?>\n<root>\n  <data name=\"A\" xml:space=\"preserve\">\n    <value>one &amp; two</value>\n  </data>\n  <!-- kept -->\n</root>";

#[test]
fn entries_are_read_out_of_xml() {
    let shown = read_entries(RESX).unwrap();
    assert_eq!(json(&text_of(&shown)), json(r#"{"A":"one & two"}"#));
    assert_eq!(json(&text_of(&read_entries(TEMPLATE).unwrap())), Json::object());
    assert!(read_entries("<root><data></root>").is_err());
}

#[test]
fn an_entry_is_updated_or_added() {
    let updated = write_entry(Some(RESX.to_string()), "A", "x < y").unwrap();
    assert!(updated.contains("x &lt; y"), "{updated}");
    assert!(updated.contains("<!-- kept -->"), "{updated}");
    assert_eq!(json(&text_of(&read_entries(&updated).unwrap())), json(r#"{"A":"x < y"}"#));

    let added = write_entry(Some(RESX.to_string()), "B", "new").unwrap();
    assert_eq!(
        json(&text_of(&read_entries(&added).unwrap())),
        json(r#"{"A":"one & two","B":"new"}"#)
    );
    let empty = "<root><data name=\"E\"><value></value></data></root>";
    let filled = write_entry(Some(empty.to_string()), "E", "now").unwrap();
    assert_eq!(filled, "<root><data name=\"E\"><value>now</value></data></root>");
    let created = write_entry(None, "K", "v").unwrap();
    assert_eq!(json(&text_of(&read_entries(&created).unwrap())), json(r#"{"K":"v"}"#));
}

#[test]
fn only_the_value_of_an_entry_is_read_and_written() {
    let doc = "<root><data name=\"A\"><value>one</value><comment>why</comment></data></root>";
    assert_eq!(json(&text_of(&read_entries(doc).unwrap())), json(r#"{"A":"one"}"#));
    assert_eq!(
        write_entry(Some(doc.to_string()), "A", "two").unwrap(),
        "<root><data name=\"A\"><value>two</value><comment>why</comment></data></root>"
    );
}

fn entries(document: &str) -> Json {
    json(&text_of(&read_entries(document).unwrap()))
}

#[test]
fn text_in_an_entry_without_a_value_is_its_own() {
    let doc = "<root><data name=\"a\">1</data><data name=\"b\"> <c>no</c> </data></root>";
    assert_eq!(entries(doc), json(r#"{"a":"1"}"#));
    let updated = write_entry(Some(doc.to_string()), "a", "2").unwrap();
    assert!(updated.starts_with("<root><data name=\"a\">2</data>"), "{updated}");
    assert_eq!(entries(&updated), json(r#"{"a":"2"}"#));
    let filled = write_entry(Some(doc.to_string()), "b", "new").unwrap();
    assert_eq!(entries(&filled), json(r#"{"a":"1","b":"new"}"#));
    // A value wins over what stands beside it.
    let both = "<root><data name=\"a\">x<value>v</value>y</data></root>";
    assert_eq!(entries(both), json(r#"{"a":"v"}"#));
}

#[test]
fn an_entry_is_found_by_its_name_as_it_is_shown() {
    let doc = "<root><data name=\"a&amp;b\"><value>1</value></data></root>";
    assert_eq!(entries(doc), json(r#"{"a&amp;b":"1"}"#));
    for key in ["a&amp;b", "a&b"] {
        let updated = write_entry(Some(doc.to_string()), key, "2").unwrap();
        assert_eq!(entries(&updated), json(r#"{"a&amp;b":"2"}"#), "{key}");
    }
}

#[test]
fn a_document_with_a_byte_order_mark_can_be_written_to() {
    let doc = format!("\u{feff}{RESX}");
    assert_eq!(entries(&doc), json(r#"{"A":"one & two"}"#));
    let added = write_entry(Some(doc.clone()), "B", "new").unwrap();
    assert_eq!(entries(&added), json(r#"{"A":"one & two","B":"new"}"#));
    let updated = write_entry(Some(doc), "A", "new").unwrap();
    assert_eq!(entries(&updated), json(r#"{"A":"new"}"#));
}

#[test]
fn writing_entries_needs_the_permission_and_a_path_under_the_roots() {
    let module = ResxModule::new();
    let args = json(r#"{"path":"/r/f.resx","key":"k","value":"v"}"#);
    let context = |mutable: bool| {
        let policy = ToolPolicy {
            allow_file_mutation: mutable,
            allowed_roots: vec!["/r".to_string()],
            ..Default::default()
        };
        ToolContext::new(policy, &Vec::new())
    };
    let inside = || OnDisk::Found("/r/f.resx".to_string());
    let outside = || OnDisk::Found("/etc/f.resx".to_string());
    let (path, request) = module.plan_write_in(&args, &context(true), inside()).ok().unwrap();
    assert_eq!((path.as_str(), request.key.as_str()), ("/r/f.resx", "k"));
    let denied = module.plan_write_in(&args, &context(false), inside()).err().unwrap();
    assert!(denied.message().contains("allow_file_mutation"));
    let denied = module.plan_write_in(&args, &context(true), outside()).err().unwrap();
    assert!(matches!(denied, ToolError::Denied(_)));
    assert!(module.plan_read_in(&args, &context(false), inside()).is_ok());
    assert!(module.plan_read_in(&args, &context(false), outside()).is_err());
    assert!(matches!(
        module.plan_read_in(&Json::object(), &context(false), inside()),
        Err(ToolError::InvalidArguments(_))
    ));
}

#[test]
fn a_key_is_escaped_where_it_is_written() {
    let doc = "<root></root>";
    let once = write_entry(Some(doc.to_string()), "a\"b", "v").unwrap();
    assert!(once.contains("name=\"a&quot;b\""), "{once}");
    assert_eq!(json(&text_of(&read_entries(&once).unwrap())), json(r#"{"a&quot;b":"v"}"#));
    // The entry is found again and updated, not written twice.
    let twice = write_entry(Some(once), "a\"b", "w").unwrap();
    assert_eq!(json(&text_of(&read_entries(&twice).unwrap())), json(r#"{"a&quot;b":"w"}"#));
}

#[test]
fn an_entry_that_was_added_is_read_beside_the_others() {
    let doc = "<!DOCTYPE root>\n<root >\n <data name='A'><value> one </value></data>\n</root >\n";
    let added = write_entry(Some(doc.to_string()), "B", "two & three").unwrap();
    assert_eq!(
        json(&text_of(&read_entries(&added).unwrap())),
        json(r#"{"A":"one","B":"two & three"}"#)
    );
}

#[test]
fn items_are_collected_and_rebuilt() {
    let items = || {
        vec![
            XmlItem::Start {
                name: "data".to_string(),
                attributes: vec![("name".to_string(), "K".to_string())],
                raw: "data name=\"K\"".to_string(),
            },
            XmlItem::Start {
                name: "value".to_string(),
                attributes: Vec::new(),
                raw: "value".to_string(),
            },
            XmlItem::Text { raw: "v".to_string(), unescaped: Some("v".to_string()) },
            XmlItem::End("value".to_string()),
            XmlItem::End("data".to_string()),
            XmlItem::Eof,
        ]
    };
    assert_eq!(json(&text_of(&collect_entries(&items()).unwrap())), json(r#"{"K":"v"}"#));
    assert_eq!(rebuild(&items(), "K", "w").unwrap(), "<data name=\"K\"><value>w</value></data>");
    assert_eq!(rebuild(&items(), "L", "w").unwrap(), "<data name=\"K\"><value>v</value></data>");
}

#[test]
fn the_resx_module_reads_its_arguments() {
    let module = ResxModule::new();
    assert_eq!(module.name(), "resx");
    assert_eq!(module.plan_read(&json(r#"{"path":"/f"}"#)).unwrap(), "/f");
    assert!(module.plan_read(&Json::object()).is_err());
    let args = json(r#"{"path":"/f","key":"k","value":"v"}"#);
    let request = module.plan_write(&args).ok().unwrap();
    assert_eq!(
        text_of(&module.report_write(&request)),
        "Successfully wrote entry 'k' = 'v' to /f"
    );
    assert!(module.plan_write(&json(r#"{"path":"/f"}"#)).is_err());
}

// The registry --------------------------------------------------------------

fn proxy(name: &str) -> ProxyConfig {
    ProxyConfig {
        name: name.to_string(),
        url: format!("http://{name}/mcp"),
        bearer: None,
        headers: Vec::new(),
        timeout: HumanDuration::secs(1),
        prefix: None,
        enabled: true,
    }
}

fn registry(proxies: Vec<ProxyConfig>) -> Registry {
    let mut config = Config::default();
    config.proxies = proxies;
    let mut registry = Registry::new(config);
    let diff = DiffModule::new();
    registry.register(ModuleEntry { name: diff.name().to_string(), tools: diff.tools() });
    let common = CommonModule::new();
    registry.register(ModuleEntry { name: common.name().to_string(), tools: common.tools() });
    registry
}

fn request(method: &str, params: Option<&str>) -> Request {
    Request {
        jsonrpc: Some("2.0".to_string()),
        id: Some(Json::number(1)),
        method: method.to_string(),
        params: params.map(json),
    }
}

fn reply(registry: &Registry, request: &Request) -> Response {
    match registry.handle_request(request) {
        RegistryPlan::Reply(response) => response,
        _ => panic!("expected an immediate answer"),
    }
}

#[test]
fn the_registry_answers_the_handshake() {
    let registry = registry(Vec::new());
    let hello = reply(&registry, &request("initialize", None)).result.unwrap();
    assert_eq!(hello.get_text("protocolVersion").unwrap(), "2024-11-05");
    assert_eq!(reply(&registry, &request("ping", None)).result, Some(Json::object()));
    assert_eq!(reply(&registry, &request("nope", None)).error.unwrap().code, -32601);
}

#[test]
fn the_registry_lists_its_modules_and_proxies() {
    let registry = registry(vec![proxy("up"), proxy("down")]);
    let RegistryPlan::List { id } = registry.handle_request(&request("tools/list", None)) else {
        panic!("expected a list")
    };
    let remote = vec![Tool::new("remote", "d", Json::object())];
    let response = registry.finish_list(id, &vec![Ok(remote), Err("refused".to_string())]);
    let Some(Json::Array(tools)) = response.result.as_ref().unwrap().get("tools") else {
        panic!("expected tools")
    };
    let names: Vec<&str> = tools.iter().map(|t| t.get_text("name").unwrap().as_str()).collect();
    assert_eq!(names[0], "omni_status");
    assert!(names.contains(&"diff_text") && names.contains(&"remote"), "{names:?}");
}

#[test]
fn a_module_that_is_registered_again_replaces_the_first() {
    let mut registry = registry(Vec::new());
    registry.register(ModuleEntry { name: "diff".to_string(), tools: Vec::new() });
    let gone = request("tools/call", Some(r#"{"name":"diff_text"}"#));
    assert!(matches!(registry.handle_request(&gone), RegistryPlan::Remote { .. }));
}

#[test]
fn the_registry_routes_calls() {
    let registry = registry(vec![proxy("p")]);
    let own = request("tools/call", Some(r#"{"name":"diff_text","arguments":{"a":1}}"#));
    let RegistryPlan::Module { tool, arguments, .. } = registry.handle_request(&own) else {
        panic!("expected a module")
    };
    assert_eq!(tool, "diff_text");
    assert_eq!(arguments, json(r#"{"a":1}"#));
    let other = request("tools/call", Some(r#"{"name":"other"}"#));
    let RegistryPlan::Remote { tool, arguments, .. } = registry.handle_request(&other) else {
        panic!("expected a proxy")
    };
    assert_eq!(tool, "other");
    assert_eq!(arguments, Json::object());
    let status = request("tools/call", Some(r#"{"name":"omni_status"}"#));
    assert!(matches!(registry.handle_request(&status), RegistryPlan::Report { .. }));
    let bare = reply(&registry, &request("tools/call", None)).error.unwrap();
    assert_eq!((bare.code, bare.message.as_str()), (-32602, "Missing params"));
    let nameless = reply(&registry, &request("tools/call", Some("{}"))).error.unwrap();
    assert_eq!((nameless.code, nameless.message.as_str()), (-32602, "Missing tool name"));
}

#[test]
fn a_module_that_fails_is_a_flagged_result() {
    let id = || Some(Json::number(1));
    let response = finish_module(id(), "t", Err("boom".to_string()));
    let result = CallToolResult::from_json(&response.result.unwrap()).unwrap();
    assert!(result.is_failure());
    assert_eq!(text_of(&result), "[omni-mcp Error] Tool 't' failed: boom");
    let fine = finish_module(id(), "t", Ok(CallToolResult::text("ok".to_string())));
    assert!(fine.error.is_none());
}

#[test]
fn the_first_proxy_that_answers_wins() {
    let id = || Some(Json::number(1));
    let won = finish_remote(
        id(),
        "t",
        &vec![Err("down".to_string()), Ok(Json::string("a")), Ok(Json::string("b"))],
    );
    assert_eq!(won.result, Some(Json::string("a")));
    let lost = finish_remote(id(), "t", &vec![Err("down".to_string())]);
    let result = CallToolResult::from_json(&lost.result.unwrap()).unwrap();
    assert!(result.is_failure());
    assert!(text_of(&result).contains("Tool 't' is currently unavailable"));
}

#[test]
fn proxies_are_asked_in_turn_until_one_answers() {
    let down = || Err("down".to_string());
    assert_eq!(next_proxy(&Vec::new(), 2), Some(0));
    assert_eq!(next_proxy(&vec![down()], 2), Some(1));
    assert_eq!(next_proxy(&vec![down(), down()], 2), None);
    assert_eq!(next_proxy(&vec![down(), Ok(Json::Null)], 3), None);
    assert_eq!(next_proxy(&Vec::new(), 0), None);
}

#[test]
fn the_report_names_everything_configured() {
    let mut registry = registry(vec![proxy("up"), proxy("down")]);
    let outcomes = vec![Ok(Vec::new()), Err("refused".to_string())];
    let report = registry.get_status_report(&outcomes);
    assert!(report.contains("  - **diff**: ACTIVE (Loaded natively)\n"), "{report}");
    assert!(
        report.contains("  - **up** (http://up/mcp): ONLINE (0 tools registered)\n"),
        "{report}"
    );
    assert!(report.contains("OFFLINE / UNREACHABLE\n    - *Reason*: refused\n"), "{report}");
    assert!(report.contains("(No sidecar executables configured)"), "{report}");
    assert!(registry.finish_report(Some(Json::number(1)), &outcomes).error.is_none());

    let mut config = Config::default();
    config.sidecars = vec![SidecarConfig {
        name: "s".to_string(),
        command: "node".to_string(),
        args: strings(&["a", "b"]),
        env: Vec::new(),
        inherit_env: None,
        cwd: None,
        lazy: true,
        prefix: None,
        startup_timeout: HumanDuration::secs(1),
        restart_on_failure: true,
        enabled: true,
    }];
    registry = Registry::new(config);
    let report = registry.get_status_report(&Vec::new());
    assert!(report.contains("(No proxy endpoints configured)"), "{report}");
    assert!(report.contains("  - **s**: Configured command: `node` a b\n"), "{report}");
}

fn answer(body: &str) -> RemoteReply {
    RemoteReply::Answer { success: true, status: "200 OK".to_string(), body: body.to_string() }
}

#[test]
fn remote_replies_are_read() {
    let listed = r#"{"jsonrpc":"2.0","id":1,"result":{"tools":[{"name":"t","inputSchema":{}}]}}"#;
    assert_eq!(fetch_proxy_tools(answer(listed)).unwrap()[0].name, "t");
    assert_eq!(
        fetch_proxy_tools(answer(r#"{"jsonrpc":"2.0","result":{}}"#)).unwrap_err(),
        "Response missing 'tools' array"
    );
    let down = RemoteReply::Unreachable("refused".to_string());
    assert_eq!(fetch_proxy_tools(down).unwrap_err(), "Connection failed: refused");
    let refused = RemoteReply::Answer {
        success: false,
        status: "500 Internal Server Error".to_string(),
        body: String::new(),
    };
    assert_eq!(
        fetch_proxy_tools(refused).unwrap_err(),
        "HTTP status 500 Internal Server Error"
    );
    let called = r#"{"jsonrpc":"2.0","id":1,"result":{"n":1}}"#;
    assert_eq!(call_proxy_tool(answer(called)).unwrap(), json(r#"{"n":1}"#));
    let failed = r#"{"jsonrpc":"2.0","id":1,"error":{"code":-1,"message":"no"}}"#;
    assert_eq!(call_proxy_tool(answer(failed)).unwrap_err(), "no");
    assert_eq!(
        call_proxy_tool(answer(r#"{"jsonrpc":"2.0"}"#)).unwrap_err(),
        "Empty response from proxy"
    );
    assert!(call_proxy_tool(answer("<html>")).unwrap_err().starts_with("Invalid JSON response: "));
}

#[test]
fn what_was_read_as_json_is_taken_apart() {
    assert_eq!(
        accept_response(Err("cut".to_string())).unwrap_err(),
        "Invalid JSON response: cut"
    );
    let response = Response::success(None, json(r#"{"tools":3}"#));
    assert!(take_tools(&response).unwrap_err().starts_with("Schema error: "));
    assert_eq!(take_outcome(response).unwrap(), json(r#"{"tools":3}"#));
}

#[test]
fn requests_to_proxies_are_written() {
    assert_eq!(make_list_body().compact(), r#"{"id":1,"jsonrpc":"2.0","method":"tools/list"}"#);
    assert_eq!(
        make_call_body("t", Json::object()).compact(),
        r#"{"id":1,"jsonrpc":"2.0","method":"tools/call","params":{"arguments":{},"name":"t"}}"#
    );
}
