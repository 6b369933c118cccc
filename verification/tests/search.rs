//! Searching and replacing in files.

use omni_mcp::config::ToolPolicy;
use omni_mcp::error::{ToolError, ToolResult};
use omni_mcp::json::Json;
use omni_mcp::tools::fold::replace_ignore_case;
use omni_mcp::tools::fs::{read_searchable, FsTools, Matcher, SearchRequest, SearchState};
use omni_mcp::tools::{OnDisk, ToolContext};

const ROOT: &str = "/srv/data";

fn json(text: &str) -> Json {
    Json::parse(text).expect("the text is JSON")
}

fn ctx(mutable: bool) -> ToolContext {
    let policy = ToolPolicy {
        allow_file_mutation: mutable,
        allowed_roots: vec![ROOT.to_string()],
        ..Default::default()
    };
    ToolContext::new(policy, &Vec::new())
}

fn parse(arguments: &str, mutable: bool) -> ToolResult<SearchRequest> {
    let args = json(arguments);
    let disk = match args.get_text("path") {
        Some(path) => OnDisk::Found(path.clone()),
        None => OnDisk::Unreadable,
    };
    SearchRequest::parse(&args, &ctx(mutable), disk, true)
}

fn refused(arguments: &str, mutable: bool) -> ToolError {
    match parse(arguments, mutable) {
        Ok(_) => panic!("expected a refusal"),
        Err(err) => err,
    }
}

/// Searches these files, and gives the report and the files as they are then.
fn search(
    arguments: &str,
    mutable: bool,
    files: &[(&str, &[u8])],
) -> (Json, Vec<(String, Vec<u8>)>) {
    let request = parse(arguments, mutable).ok().expect("the request is usable");
    let mut state = SearchState::new();
    let mut after = Vec::new();
    for (name, bytes) in files {
        let path = format!("{ROOT}/{name}");
        let rebuilt = request.absorb(&mut state, &path, Some(bytes.to_vec()));
        let content = match rebuilt {
            Some(text) => text.into_bytes(),
            None => bytes.to_vec(),
        };
        after.push((name.to_string(), content));
    }
    let report = request.report(state).structured_content.expect("results are structured");
    (report, after)
}

fn hit(report: &Json, index: usize) -> Json {
    match report.get("results") {
        Some(Json::Array(items)) => items[index].dup(),
        other => panic!("expected an array, got {other:?}"),
    }
}

#[test]
fn finds_literal_matches_with_line_numbers() {
    let (out, _) = search(
        r#"{ "path": "/srv/data", "pattern": "beta" }"#,
        false,
        &[("a.txt", b"alpha\nbeta\ngamma\n")],
    );
    assert_eq!(out.get_unsigned("matches"), Some(1));
    assert_eq!(hit(&out, 0).get_unsigned("line"), Some(2));
    assert_eq!(hit(&out, 0).get_text("text").unwrap(), "beta");
}

#[test]
fn replacement_is_a_preview_unless_apply_is_set() {
    let (out, after) = search(
        r#"{ "path": "/srv/data", "pattern": "world", "replace": "there" }"#,
        true,
        &[("a.txt", b"hello world\n")],
    );
    assert_eq!(out.get_flag("applied"), Some(false));
    assert_eq!(hit(&out, 0).get_text("replacement").unwrap(), "hello there");
    assert_eq!(out.get("files_would_be_modified"), Some(&json(r#"["/srv/data/a.txt"]"#)));
    assert_eq!(after[0].1, b"hello world\n", "preview must not touch the file");
}

#[test]
fn apply_writes_the_replacement() {
    let (out, after) = search(
        r#"{ "path": "/srv/data", "pattern": "world", "replace": "there", "apply": true }"#,
        true,
        &[("a.txt", b"hello world\n")],
    );
    assert_eq!(out.get_flag("applied"), Some(true));
    assert_eq!(after[0].1, b"hello there\n");
}

#[test]
fn crlf_line_endings_survive_a_replacement() {
    let (_, after) = search(
        r#"{ "path": "/srv/data", "pattern": "two", "replace": "TWO", "apply": true }"#,
        true,
        &[("win.txt", b"one\r\ntwo\r\nthree\r\n")],
    );
    assert_eq!(after[0].1, b"one\r\nTWO\r\nthree\r\n");
}

#[test]
fn a_missing_trailing_newline_is_not_invented() {
    let (_, after) = search(
        r#"{ "path": "/srv/data", "pattern": "last", "replace": "final", "apply": true }"#,
        true,
        &[("nonl.txt", b"last line has no newline")],
    );
    assert_eq!(after[0].1, b"final line has no newline");
}

#[test]
fn writing_requires_the_file_mutation_capability() {
    let err = refused(
        r#"{ "path": "/srv/data", "pattern": "hello", "replace": "x", "apply": true }"#,
        false,
    );
    assert!(matches!(err, ToolError::Denied(_)), "got {err:?}");
}

#[test]
fn apply_without_replace_is_rejected() {
    let err = refused(r#"{ "path": "/srv/data", "pattern": "hello", "apply": true }"#, true);
    assert!(matches!(err, ToolError::InvalidArguments(_)));
}

#[test]
fn binary_files_are_skipped_not_mangled() {
    let (out, after) = search(
        r#"{ "path": "/srv/data", "pattern": "hi", "replace": "yo", "apply": true }"#,
        true,
        &[("blob.bin", &[0x00, 0x01, b'h', b'i', 0x00]), ("a.txt", b"hi\n")],
    );
    assert_eq!(out.get_unsigned("unreadable_or_binary_files_skipped"), Some(1));
    assert_eq!(after[0].1, [0x00, 0x01, b'h', b'i', 0x00]);
    assert_eq!(after[1].1, b"yo\n");
    assert_eq!(read_searchable(Some(vec![0xff, 0xfe])), None);
    assert_eq!(read_searchable(None), None);
    assert_eq!(read_searchable(Some(b"ok".to_vec())), Some("ok".to_string()));
}

#[test]
fn a_glob_restricts_which_files_are_searched() {
    let request = parse(r#"{ "path": "/srv/data", "pattern": "t", "glob": "*.rs" }"#, false);
    assert_eq!(request.ok().unwrap().glob.as_deref(), Some("*.rs"));
}

#[test]
fn regex_mode_expands_capture_groups_in_the_replacement() {
    let (_, after) = search(
        r#"{ "path": "/srv/data", "pattern": "(\\w+)=(\\w+)", "is_regex": true,
             "replace": "$2=$1", "apply": true }"#,
        true,
        &[("a.txt", b"key=value\n")],
    );
    assert_eq!(after[0].1, b"value=key\n");
}

#[test]
fn case_insensitive_search_and_replace() {
    let (_, after) = search(
        r#"{ "path": "/srv/data", "pattern": "hello", "case_sensitive": false,
             "replace": "hi", "apply": true }"#,
        true,
        &[("a.txt", b"Hello HELLO hello\n")],
    );
    assert_eq!(after[0].1, b"hi hi hi\n");
}

#[test]
fn results_are_capped_but_the_true_count_is_reported() {
    let many = b"match\n".repeat(100);
    let (out, _) = search(
        r#"{ "path": "/srv/data", "pattern": "match", "max_results": 10 }"#,
        false,
        &[("many.txt", many.as_slice())],
    );
    assert_eq!(out.get_unsigned("matches"), Some(100));
    assert_eq!(out.get_flag("truncated"), Some(true));
    let Some(Json::Array(hits)) = out.get("results") else { panic!("expected results") };
    assert_eq!(hits.len(), 10);
}

#[test]
fn a_path_outside_the_allowed_roots_is_denied() {
    let err = refused(r#"{ "path": "/etc", "pattern": "root" }"#, false);
    assert!(matches!(err, ToolError::Denied(_)));
}

#[test]
fn an_empty_pattern_is_rejected() {
    let err = refused(r#"{ "path": "/srv/data", "pattern": "" }"#, false);
    assert!(matches!(err, ToolError::InvalidArguments(_)));
}

#[test]
fn a_nonexistent_path_is_an_argument_error() {
    let args = json(r#"{ "path": "/srv/data/absent", "pattern": "x" }"#);
    let disk = OnDisk::Missing { ancestor: ROOT.to_string(), missing: 1 };
    let Err(err) = SearchRequest::parse(&args, &ctx(false), disk, false) else {
        panic!("expected a refusal")
    };
    assert!(matches!(err, ToolError::InvalidArguments(_)));
}

#[test]
fn an_invalid_pattern_is_refused_before_anything_is_read() {
    let err =
        refused(r#"{ "path": "/srv/data", "pattern": "(", "is_regex": true }"#, false);
    assert!(matches!(err, ToolError::InvalidArguments(_)));
}

#[test]
fn a_scan_counts_lines_and_leaves_an_unchanged_file_alone() {
    let request = parse(r#"{ "path": "/srv/data", "pattern": "a", "replace": "a" }"#, false);
    let request = request.ok().unwrap();
    let mut hits = Vec::new();
    let mut total: u64 = 0;
    assert_eq!(request.scan_file("/srv/data/x", "a\nb\na", &mut hits, &mut total), None);
    assert_eq!(total, 2);
    assert_eq!(hits.len(), 2);
}

#[test]
fn case_insensitive_literal_replacement_handles_repeats_and_no_match() {
    assert_eq!(replace_ignore_case("AbcABCabc", "abc", "x"), "xxx");
    assert_eq!(replace_ignore_case("nothing here", "zzz", "x"), "nothing here");
    assert_eq!(replace_ignore_case("abc", "", "x"), "abc");
}

#[test]
fn what_changes_its_length_in_lower_case_is_left_alone() {
    // Lower case makes the first letter one byte longer, so that positions shift.
    assert_eq!(replace_ignore_case("\u{130}xabb", "ab", "z"), "\u{130}xabb");
    assert_eq!(replace_ignore_case("AB\u{130}xabb", "ab", "z"), "z\u{130}xabb");
    assert_eq!(replace_ignore_case("\u{c9}T\u{c9}", "\u{e9}", "e"), "eTe");
    // Two letters that change by as much in both directions cancel out.
    assert_eq!(replace_ignore_case("\u{130}\u{212a}\u{130}", "i", "z"), "\u{130}\u{212a}\u{130}");
}

#[test]
fn a_sigma_at_the_end_of_a_word_does_not_hide_a_match() {
    assert_eq!(replace_ignore_case("\u{391}\u{3a3}\u{392}", "\u{3b1}\u{3c3}", "x"), "x\u{392}");
}

#[test]
fn a_preview_hands_out_nothing_to_write() {
    let preview = parse(r#"{"path":"/srv/data","pattern":"a","replace":"b"}"#, true).ok().unwrap();
    let mut state = SearchState::new();
    assert_eq!(preview.absorb(&mut state, "/srv/data/f", Some(b"a\n".to_vec())), None);
    let report = preview.report(state).structured_content.unwrap();
    assert_eq!(report.get_unsigned("matches"), Some(1));
}

#[test]
fn a_literal_matcher_finds_and_replaces() {
    let strict = Matcher::Literal { needle: "ab".to_string(), case_sensitive: true };
    assert!(strict.find("xabx") && !strict.find("xABx"));
    assert_eq!(strict.replace("ab-ab", "c"), "c-c");
    let loose = Matcher::Literal { needle: "ab".to_string(), case_sensitive: false };
    assert!(loose.find("xABx"));
    assert_eq!(loose.replace("Ab-aB", "c"), "c-c");
}

#[test]
fn the_search_tool_is_described() {
    let tools = FsTools.descriptors();
    assert_eq!(tools[0].name, "grep_search");
}
