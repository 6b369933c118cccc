//! Running code.

use omni_mcp::config::ToolPolicy;
use omni_mcp::error::ToolError;
use omni_mcp::json::Json;
use omni_mcp::time::Duration;
use omni_mcp::tools::eval::{
    build_command, environment, evaluation_timed_out, evaluation_unavailable, lookup,
    plan_evaluation, probes, report_evaluation, runtimes, script_file, Captured, EvalTools,
    MAX_OUTPUT_BYTES,
};
use omni_mcp::tools::ToolContext;

fn json(text: &str) -> Json {
    Json::parse(text).expect("the text is JSON")
}

fn ctx(allowed: bool) -> ToolContext {
    let policy = ToolPolicy { allow_code_execution: allowed, ..Default::default() };
    ToolContext::new(policy, &Vec::new())
}

fn captured(bytes: &[u8]) -> Captured {
    let mut captured = Captured::new();
    captured.absorb(&bytes.to_vec());
    captured
}

#[test]
fn execution_is_denied_unless_the_operator_enabled_it() {
    let args = json(r#"{ "language": "sh", "code": "echo hi" }"#);
    let Err(err) = plan_evaluation(&args, &ctx(false)) else { panic!("expected a denial") };
    assert!(matches!(err, ToolError::Denied(_)), "got {err:?}");
}

#[test]
fn runs_a_shell_script_and_captures_stdout() {
    let args = json(r#"{ "language": "sh", "code": "echo hello" }"#);
    let plan = plan_evaluation(&args, &ctx(true)).ok().unwrap();
    assert_eq!(plan.code, "echo hello");
    assert_eq!(plan.stdin, "");
    assert_eq!(plan.timeout, Duration::from_secs(30));
    let script = script_file(&plan.runtime, "/w");
    let command = build_command(&plan.runtime, &script, "/w", &Vec::new());
    assert_eq!(command.program, "sh");
    assert_eq!(command.args, vec![script]);
    let out = report_evaluation("sh", Some(0), &captured(b"hello\n"), &Captured::new());
    assert!(!out.is_failure());
    let out = out.structured_content.unwrap();
    assert_eq!(out.get_text("stdout").unwrap(), "hello\n");
    assert_eq!(out.get_unsigned("exit_code"), Some(0));
}

#[test]
fn a_non_zero_exit_is_flagged_as_a_tool_error_with_stderr_intact() {
    let result = report_evaluation("sh", Some(3), &Captured::new(), &captured(b"oops\n"));
    assert!(result.is_failure());
    let out = result.structured_content.unwrap();
    assert_eq!(out.get_unsigned("exit_code"), Some(3));
    assert_eq!(out.get_text("stderr").unwrap(), "oops\n");
    let killed = report_evaluation("sh", None, &Captured::new(), &Captured::new());
    assert!(killed.is_failure());
}

#[test]
fn stdin_is_piped_to_the_script() {
    let args = json(r#"{ "language": "sh", "code": "cat", "stdin": "piped in" }"#);
    assert_eq!(plan_evaluation(&args, &ctx(true)).ok().unwrap().stdin, "piped in");
}

#[test]
fn a_runaway_script_is_killed_at_the_deadline() {
    let args = json(r#"{ "language": "sh", "code": "sleep 60", "timeout_seconds": 1 }"#);
    let plan = plan_evaluation(&args, &ctx(true)).ok().unwrap();
    assert_eq!(plan.timeout, Duration::from_secs(1));
    assert_eq!(
        evaluation_timed_out(&plan),
        ToolError::Timeout { tool: "eval_code".to_string(), seconds: 1 }
    );
}

#[test]
fn the_deadline_of_a_script_is_clamped() {
    for (asked, granted) in [(0, 1), (1, 1), (600, 600), (601, 600)] {
        let args = json(&format!(
            "{{\"language\":\"sh\",\"code\":\"\",\"timeout_seconds\":{asked}}}"
        ));
        let plan = plan_evaluation(&args, &ctx(true)).ok().unwrap();
        assert_eq!(plan.timeout, Duration::from_secs(granted));
    }
}

#[test]
fn enormous_output_is_truncated_rather_than_buffered_without_bound() {
    let mut out = Captured::new();
    for _ in 0..500 {
        out.absorb(&b"abcdefghijklmnop\n".repeat(300));
    }
    assert!(out.truncated());
    assert_eq!(out.text().len(), MAX_OUTPUT_BYTES);
    let report = report_evaluation("sh", Some(0), &out, &Captured::new());
    assert_eq!(
        report.structured_content.unwrap().get_flag("stdout_truncated"),
        Some(true)
    );
    let mut exact = Captured::new();
    exact.absorb(&vec![b'x'; MAX_OUTPUT_BYTES]);
    assert!(!exact.truncated());
}

#[test]
fn output_that_is_not_text_is_shown_with_replacement_characters() {
    assert_eq!(captured(&[b'a', 0xff, b'b']).text(), "a\u{fffd}b");
}

#[test]
fn an_unsupported_language_lists_the_supported_ones() {
    let args = json(r#"{ "language": "brainfuck", "code": "+" }"#);
    let Err(err) = plan_evaluation(&args, &ctx(true)) else { panic!("expected a refusal") };
    assert!(err.message().contains("python"), "{}", err.message());
}

#[test]
fn a_missing_interpreter_is_unavailable_not_a_crash() {
    let err = evaluation_unavailable("tsx", "no such file");
    assert!(matches!(&err, ToolError::Unavailable { backend, .. } if backend == "tsx"));
}

#[test]
fn every_supported_language_has_an_execution_test() {
    let covered = [
        "python", "node", "bash", "sh", "ruby", "perl", "php", "lua", "go", "typescript", "rust",
        "csharp", "java", "c", "cpp", "deno", "bun", "awk", "tcl", "r", "julia", "elixir",
        "powershell", "zig", "kotlin", "swift", "scala", "dart", "haskell", "ocaml", "fortran",
    ];
    let table = runtimes();
    for runtime in &table {
        let canonical = runtime.names[0].as_str();
        assert!(covered.contains(&canonical), "language {canonical:?} is not covered");
    }
    assert_eq!(covered.len(), table.len());
}

#[test]
fn the_advertised_schema_constrains_language_to_known_names() {
    let tool = &EvalTools.descriptors()[0];
    let language = tool.input_schema.get("properties").unwrap().get("language").unwrap();
    let Some(Json::Array(choices)) = language.get("enum") else {
        panic!("language must be an enum so bad values are rejected up front")
    };
    for expected in ["python", "sh", "rust", "csharp"] {
        assert!(choices.contains(&Json::string(expected)), "{expected} missing from the enum");
    }
}

#[test]
fn every_runtime_alias_is_reachable_through_lookup() {
    for runtime in runtimes() {
        for alias in &runtime.names {
            assert!(lookup(alias).is_ok(), "alias {alias} does not resolve");
        }
    }
}

#[test]
fn language_aliases_resolve_to_one_runtime() {
    assert_eq!(lookup("py").ok().unwrap().program, "python3");
    assert_eq!(lookup("PYTHON3").ok().unwrap().program, "python3");
    assert_eq!(lookup("  js  ").ok().unwrap().program, "node");
    assert!(lookup("cobol").is_err());
}

#[test]
fn every_runtime_declares_at_least_one_name() {
    assert!(runtimes().iter().all(|r| !r.names.is_empty()));
}

#[test]
fn compiled_languages_choose_what_is_installed() {
    let rust = lookup("rust").ok().unwrap();
    assert!(!probes(&rust).is_empty());
    let with = build_command(&rust, "/w/main.rs", "/w", &probes(&rust));
    let without = build_command(&rust, "/w/main.rs", "/w", &Vec::new());
    assert_ne!(with.program, without.program);
    let csharp = lookup("csharp").ok().unwrap();
    let bare = build_command(&csharp, "/w/main.cs", "/w", &Vec::new());
    assert!(bare.project.is_some());
    let python = lookup("python").ok().unwrap();
    assert!(probes(&python).is_empty());
}

#[test]
fn a_script_runs_with_a_bare_environment() {
    let vars = environment("/w");
    assert!(vars.iter().any(|(_, value)| value.contains("/w")));
}
