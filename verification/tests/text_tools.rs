//! The native tool groups, and the text tools among them.

use omni_mcp::error::{ToolError, ToolResult};
use omni_mcp::json::Json;
use omni_mcp::pattern::{Capture, Pattern};
use omni_mcp::protocol::Content;
use omni_mcp::sorted::{before, insert};
use omni_mcp::text::{join, replace, split_inclusive, split_lines, trim};
use omni_mcp::tools::text::{accept_encoded, compile, render_diff, report_matches, stats, TextTools};
use omni_mcp::tools::{all, unknown};

fn json(text: &str) -> Json {
    Json::parse(text).expect("the text is JSON")
}

fn call(name: &str, arguments: &Json) -> ToolResult<String> {
    let result = TextTools.call(name, arguments)?;
    let Content::Text { text } = &result.content[0] else { panic!("expected a text block") };
    Ok(text.clone())
}

fn entries(value: &Json) -> &Vec<(String, Json)> {
    match value {
        Json::Object(entries) => entries,
        other => panic!("expected an object, got {other:?}"),
    }
}

#[test]
fn native_tool_names_are_unique() {
    let mut seen: Vec<String> = Vec::new();
    for group in all() {
        for tool in group.descriptors() {
            assert!(!seen.contains(&tool.name), "duplicate native tool {}", tool.name);
            seen.push(tool.name);
        }
    }
    assert!(!seen.is_empty());
}

#[test]
fn every_native_tool_is_described_and_has_an_object_schema() {
    for group in all() {
        for tool in group.descriptors() {
            let description = tool.description.unwrap_or_default();
            assert!(
                description.len() > 20,
                "{} needs a description the model can act on",
                tool.name
            );
            assert_eq!(
                tool.input_schema.get_text("type").map(|t| t.as_str()),
                Some("object"),
                "{} must take an object",
                tool.name
            );
            assert!(
                matches!(tool.input_schema.get("properties"), Some(Json::Object(_))),
                "{} must declare properties",
                tool.name
            );
        }
    }
}

#[test]
fn every_required_property_is_actually_declared() {
    for group in all() {
        for tool in group.descriptors() {
            let Some(Json::Array(required)) = tool.input_schema.get("required") else { continue };
            let declared = entries(tool.input_schema.get("properties").unwrap());
            for field in required {
                let name = field.as_text().unwrap();
                assert!(
                    declared.iter().any(|(key, _)| key == name),
                    "{} requires {name:?} but does not declare it",
                    tool.name
                );
            }
        }
    }
}

#[test]
fn diff_reports_only_changed_hunks() {
    let mut old = String::new();
    for i in 1..=100 {
        old.push_str(&format!("line {i}\n"));
    }
    let new = old.replace("line 50\n", "CHANGED\n");
    let args =
        Json::object().with("old_text", Json::string(&old)).with("new_text", Json::string(&new));
    let text = call("diff_text", &args).unwrap();
    assert!(text.contains("-line 50"));
    assert!(text.contains("+CHANGED"));
    assert!(!text.contains("line 10\n"), "unrelated context leaked into the diff");
    assert!(text.starts_with("@@"));
}

#[test]
fn a_diff_shows_no_more_than_so_much_context() {
    let old: String = (1..=100).map(|i| format!("line {i}\n")).collect();
    let new = old.replace("line 50\n", "CHANGED\n");
    let shown = render_diff(&old, &new, usize::MAX);
    let Content::Text { text } = &shown.content[0] else { panic!("expected a text block") };
    assert!(text.starts_with("@@ -18,65 +18,65 @@"), "{text}");
    assert!(text.contains(" line 18\n") && !text.contains(" line 17\n"));
}

#[test]
fn identical_inputs_say_so_instead_of_returning_the_whole_file() {
    let args = json(r#"{ "old_text": "a\nb\n", "new_text": "a\nb\n" }"#);
    assert_eq!(call("diff_text", &args).unwrap(), "(inputs are identical)");
}

#[test]
fn json_diff_ignores_key_order_and_formatting() {
    let args =
        json(r#"{ "old_json": { "a": 1, "b": 2 }, "new_json": "{\"b\":2,   \"a\":1}" }"#);
    assert_eq!(call("diff_json", &args).unwrap(), "(inputs are identical)");
    let args = json(r#"{ "old_json": { "a": 1, "b": 2 }, "new_json": { "a": 1, "b": 2 } }"#);
    assert_eq!(call("diff_json", &args).unwrap(), "(inputs are identical)");
}

#[test]
fn json_diff_accepts_encoded_strings() {
    let args = json(r#"{ "old_json": "{\"a\":1}", "new_json": "{\"a\":2}" }"#);
    let text = call("diff_json", &args).unwrap();
    assert!(text.contains("-  \"a\": 1"));
    assert!(text.contains("+  \"a\": 2"));
}

#[test]
fn json_diff_rejects_a_string_that_is_not_json() {
    let args = json(r#"{ "old_json": "not json", "new_json": "{}" }"#);
    assert!(matches!(call("diff_json", &args), Err(ToolError::InvalidArguments(_))));
    assert_eq!(
        accept_encoded("old_json", Err("cut".to_string())),
        Err(ToolError::InvalidArguments(
            "\"old_json\" is a string but not valid JSON: cut".to_string()
        ))
    );
}

#[test]
fn regex_match_returns_offsets_and_capture_groups() {
    let args = json(r#"{ "pattern": "(\\w+)@(\\w+)", "text": "a@b and c@d" }"#);
    let parsed = json(&call("regex_match", &args).unwrap());
    assert_eq!(parsed.get_unsigned("count"), Some(2));
    let Some(Json::Array(matches)) = parsed.get("matches") else { panic!("no matches") };
    assert_eq!(matches[0].get("groups"), Some(&json(r#"["a", "b"]"#)));
    assert_eq!(matches[1].get_unsigned("offset"), Some(8));
}

#[test]
fn regex_match_truncates_and_reports_that_it_did() {
    let args = Json::object()
        .with("pattern", Json::string("x"))
        .with("text", Json::string(&"x".repeat(50)))
        .with("limit", Json::number(5));
    let parsed = json(&call("regex_match", &args).unwrap());
    assert_eq!(parsed.get_unsigned("count"), Some(50));
    assert_eq!(parsed.get_flag("truncated"), Some(true));
    let Some(Json::Array(matches)) = parsed.get("matches") else { panic!("no matches") };
    assert_eq!(matches.len(), 5);
}

#[test]
fn captures_are_reported_as_they_were_found() {
    let captures = vec![Capture {
        start: 3,
        groups: vec![Some("ab".to_string()), None, Some("b".to_string())],
    }];
    let report = report_matches(&captures, 10).structured_content.unwrap();
    assert_eq!(report.get_flag("truncated"), Some(false));
    let Some(Json::Array(matches)) = report.get("matches") else { panic!("no matches") };
    assert_eq!(matches[0].get_unsigned("offset"), Some(3));
    assert_eq!(matches[0].get("groups"), Some(&json(r#"[null, "b"]"#)));
}

#[test]
fn an_invalid_pattern_is_an_argument_error() {
    let args = json(r#"{ "pattern": "(unclosed", "text": "x" }"#);
    assert!(matches!(call("regex_match", &args), Err(ToolError::InvalidArguments(_))));
    assert!(compile("(unclosed", false).is_err());
}

#[test]
fn missing_arguments_are_reported_rather_than_defaulted_to_empty() {
    let err = call("regex_match", &json(r#"{ "text": "x" }"#)).unwrap_err();
    assert!(err.message().contains("\"pattern\""));
}

#[test]
fn count_stats_counts_unicode_characters_not_bytes() {
    let args = json(r#"{ "text": "héllo wörld\nsecond line" }"#);
    let parsed = json(&call("count_stats", &args).unwrap());
    assert_eq!(parsed.get_unsigned("lines"), Some(2));
    assert_eq!(parsed.get_unsigned("words"), Some(4));
    assert_eq!(parsed.get_unsigned("chars"), Some(23));
    assert_eq!(parsed.get_unsigned("bytes"), Some(25));
    assert_eq!(stats("").get_unsigned("lines"), Some(0));
}

#[test]
fn an_unrouted_name_is_a_not_found_error() {
    assert!(matches!(call("nope", &Json::object()), Err(ToolError::NotFound(_))));
    assert_eq!(unknown("nope"), ToolError::NotFound("nope".to_string()));
}

#[test]
fn patterns_match_replace_and_ignore_case() {
    let strict = Pattern::new("(a)(b)?", false, 1 << 20).ok().unwrap();
    assert!(strict.matches("xab") && !strict.matches("XAB"));
    assert_eq!(strict.replace("ab-a", "<$1>"), "<a>-<a>");
    assert_eq!(strict.find("ab a"), vec!["ab".to_string(), "a".to_string()]);
    assert_eq!(strict.captures("a")[0].groups[2], None);
    let loose = Pattern::new("ab", true, 1 << 20).ok().unwrap();
    assert!(loose.matches("xAB"));
    assert!(Pattern::new("[", false, 1 << 20).is_err());
    assert!(Pattern::new("\\w{1000}", false, 1 << 10).is_err());
}

#[test]
fn texts_are_trimmed_split_joined_and_replaced() {
    assert_eq!(trim("\u{a0} x \n"), "x");
    assert_eq!(split_lines("a\r\nb\n\nc"), ["a", "b", "", "c"]);
    assert_eq!(split_inclusive("a\nb"), ["a\n", "b"]);
    assert_eq!(join(&vec!["a".to_string(), "b".to_string()], ", "), "a, b");
    assert_eq!(replace("aXbX", "X", "--"), "a--b--");
}

#[test]
fn sorted_lists_stay_sorted() {
    let mut list = Vec::new();
    for item in ["b", "a", "c", "ab"] {
        insert(&mut list, item);
    }
    assert_eq!(list, ["a", "ab", "b", "c"]);
    assert!(before("a", "b") && !before("b", "a"));
}
