//! Looking at and patching bytes.

use omni_mcp::bytes::{hexadecimal_text, pad_zeros};
use omni_mcp::config::ToolPolicy;
use omni_mcp::error::{ToolError, ToolResult};
use omni_mcp::json::Json;
use omni_mcp::tools::hex::{
    backup_of, decode, dump, make_patch, overwrite, patch_report, plan_patch, plan_view,
    substitute, view_report, window, HexTools,
};
use omni_mcp::tools::{OnDisk, ToolContext};

const PATH: &str = "/srv/data/f.bin";

fn json(text: &str) -> Json {
    Json::parse(text).expect("the text is JSON")
}

fn ctx(mutable: bool) -> ToolContext {
    let policy = ToolPolicy {
        allow_file_mutation: mutable,
        allowed_roots: vec!["/srv/data".to_string()],
        ..Default::default()
    };
    ToolContext::new(policy, &Vec::new())
}

fn args(more: &str) -> Json {
    json(&format!("{{\"path\":\"{PATH}\"{more}}}"))
}

fn view(file: &[u8], more: &str) -> ToolResult<Json> {
    let request = plan_view(&args(more), &ctx(false), OnDisk::Found(PATH.to_string()))?;
    let total = file.len() as u64;
    let length = window(request.offset, request.length, total)?;
    let from = request.offset as usize;
    let bytes = file[from..from + length as usize].to_vec();
    Ok(view_report(&request.path, total, request.offset, &bytes).structured_content.unwrap())
}

fn patch(file: &[u8], more: &str, mutable: bool) -> ToolResult<(Json, Vec<u8>)> {
    let args = args(more);
    let request = plan_patch(&args, &ctx(mutable), OnDisk::Found(PATH.to_string()))?;
    let original = file.to_vec();
    let (patched, summary) = make_patch(&args, request.allow_resize, &original)?;
    let report = patch_report(&request.path, request.apply, &original, &patched, &summary);
    let mut after = original.clone();
    for write in request.writes(&original, &patched) {
        if write.path == request.path {
            after = write.bytes;
        }
    }
    Ok((report.structured_content.unwrap(), after))
}

#[test]
fn the_copy_is_written_before_the_file() {
    let apply = args(r#","search_hex":"61","replace_hex":"62","apply":true"#);
    let request = plan_patch(&apply, &ctx(true), OnDisk::Found(PATH.to_string())).ok().unwrap();
    let writes = request.writes(&b"a".to_vec(), &b"b".to_vec());
    assert_eq!(writes.len(), 2);
    assert_eq!((writes[0].path.as_str(), &writes[0].bytes[..]), (&*backup_of(PATH), &b"a"[..]));
    assert_eq!((writes[1].path.as_str(), &writes[1].bytes[..]), (PATH, &b"b"[..]));
    assert_eq!(writes[0].complaint, "could not write backup");
    assert_eq!(writes[1].complaint, format!("could not write {PATH}"));
    let preview = args(r#","search_hex":"61","replace_hex":"62""#);
    let request = plan_patch(&preview, &ctx(true), OnDisk::Found(PATH.to_string())).ok().unwrap();
    assert!(request.writes(&b"a".to_vec(), &b"b".to_vec()).is_empty());
}

#[test]
fn view_returns_hex_and_an_ascii_dump() {
    let out = view(b"Hello\x00World", "").unwrap();
    assert_eq!(out.get_unsigned("total_bytes"), Some(11));
    assert_eq!(out.get_text("hex").unwrap(), "48656c6c6f00576f726c64");
    let dump = out.get_text("dump").unwrap();
    assert!(dump.contains("00000000"));
    assert!(dump.contains("|Hello.World|"), "{dump}");
}

#[test]
fn view_honours_offset_and_length() {
    let out = view(b"0123456789", r#","offset":4,"length":3"#).unwrap();
    assert_eq!(out.get_text("hex").unwrap(), "343536");
    assert_eq!(out.get_unsigned("bytes_read"), Some(3));
    assert_eq!(out.get_unsigned("offset"), Some(4));
}

#[test]
fn view_clamps_a_length_that_runs_past_the_end() {
    let out = view(b"abc", r#","offset":1,"length":999"#).unwrap();
    assert_eq!(out.get_unsigned("bytes_read"), Some(2));
}

#[test]
fn view_rejects_an_offset_past_the_end() {
    let err = view(b"abc", r#","offset":99"#).unwrap_err();
    assert!(matches!(err, ToolError::InvalidArguments(_)));
}

#[test]
fn view_of_an_empty_file_succeeds() {
    let out = view(b"", "").unwrap();
    assert_eq!(out.get_unsigned("bytes_read"), Some(0));
}

#[test]
fn patch_previews_by_default_and_writes_only_with_apply() {
    let form = r#","search_hex":"41","replace_hex":"42""#;
    let (preview, after) = patch(b"AAAA", form, true).unwrap();
    assert_eq!(preview.get_flag("applied"), Some(false));
    assert_eq!(after, b"AAAA");
    let (applied, after) = patch(b"AAAA", &format!("{form},\"apply\":true"), true).unwrap();
    assert_eq!(applied.get_flag("applied"), Some(true));
    assert_eq!(after, b"BBBB");
}

#[test]
fn applying_a_patch_leaves_a_backup() {
    let form = r#","search_hex":"41","replace_hex":"42","apply":true"#;
    let (out, _) = patch(b"AAAA", form, true).unwrap();
    assert_eq!(out.get_text("backup").unwrap(), &backup_of(PATH));
    assert_ne!(backup_of(PATH), PATH);
}

#[test]
fn patching_requires_the_file_mutation_capability() {
    let form = r#","search_hex":"41","replace_hex":"42","apply":true"#;
    let err = patch(b"AAAA", form, false).unwrap_err();
    assert!(matches!(err, ToolError::Denied(_)));
}

#[test]
fn a_size_changing_patch_is_refused_unless_resize_is_allowed() {
    let form = r#","search_hex":"41","replace_hex":"4243""#;
    let err = patch(b"AAAA", form, true).unwrap_err();
    assert!(err.message().contains("change the file size"));
    let allowed = format!("{form},\"allow_resize\":true,\"apply\":true");
    let (ok, after) = patch(b"AAAA", &allowed, true).unwrap();
    assert_eq!(ok.get_unsigned("new_bytes"), Some(8));
    assert_eq!(after, b"BCBCBCBC");
}

#[test]
fn offset_writes_replace_bytes_in_place() {
    let form = r#","offset":2,"hex_data":"ffee","apply":true"#;
    let (_, after) = patch(b"0123456789", form, true).unwrap();
    assert_eq!(after, b"01\xff\xee456789");
}

#[test]
fn an_offset_write_past_the_end_is_rejected() {
    let err = patch(b"abc", r#","offset":100,"hex_data":"ff""#, true).unwrap_err();
    assert!(matches!(err, ToolError::InvalidArguments(_)));
}

#[test]
fn a_patch_with_neither_form_of_argument_explains_what_is_needed() {
    let err = patch(b"abc", "", true).unwrap_err();
    assert!(err.message().contains("search_hex"));
}

#[test]
fn malformed_hex_is_an_argument_error() {
    for bad in ["zz", "abc"] {
        let form = format!(",\"offset\":0,\"hex_data\":\"{bad}\"");
        let err = patch(b"abc", &form, true).unwrap_err();
        assert!(matches!(err, ToolError::InvalidArguments(_)), "{bad} should be rejected");
    }
}

#[test]
fn hex_input_may_be_spaced_or_colon_separated() {
    assert_eq!(decode("48 65 6c", "f").unwrap(), b"Hel");
    assert_eq!(decode("48:65:6c", "f").unwrap(), b"Hel");
    assert_eq!(decode("", "f").unwrap(), Vec::<u8>::new());
}

#[test]
fn a_bad_hex_digit_is_named() {
    let message = decode("4g", "f").unwrap_err().message();
    assert!(message.contains('g'), "{message}");
}

#[test]
fn substitution_does_not_rescan_bytes_it_just_wrote() {
    let (out, summary) =
        substitute(&b"AAAA".to_vec(), &b"A".to_vec(), &b"AA".to_vec()).unwrap();
    assert_eq!(out, b"AAAAAAAA");
    assert!(summary.contains('4'));

    let (out, _) = substitute(&b"AAAA".to_vec(), &b"AA".to_vec(), &b"A".to_vec()).unwrap();
    assert_eq!(out, b"AA");
}

#[test]
fn substitution_of_overlapping_patterns_is_non_overlapping() {
    let (out, _) = substitute(&b"aaaa".to_vec(), &b"aa".to_vec(), &b"b".to_vec()).unwrap();
    assert_eq!(out, b"bb");
}

#[test]
fn deleting_a_pattern_is_expressed_as_an_empty_replacement() {
    let (out, _) = substitute(&b"xAyAz".to_vec(), &b"A".to_vec(), &b"".to_vec()).unwrap();
    assert_eq!(out, b"xyz");
}

#[test]
fn an_empty_search_pattern_is_rejected() {
    assert!(substitute(&b"abc".to_vec(), &b"".to_vec(), &b"x".to_vec()).is_err());
}

#[test]
fn a_pattern_that_is_absent_leaves_the_buffer_untouched() {
    let (out, summary) =
        substitute(&b"abc".to_vec(), &b"zz".to_vec(), &b"y".to_vec()).unwrap();
    assert_eq!(out, b"abc");
    assert!(summary.contains('0'));
}

#[test]
fn an_overwrite_may_end_with_the_file() {
    let (out, _) = overwrite(&b"abcd".to_vec(), 2, &b"XY".to_vec()).unwrap();
    assert_eq!(out, b"abXY");
    assert!(overwrite(&b"abcd".to_vec(), u64::MAX, &b"X".to_vec()).is_err());
}

#[test]
fn the_dump_pads_a_short_final_row() {
    let rendered = dump(&b"ab".to_vec(), 0);
    assert!(rendered.starts_with("00000000  61 62 "));
    assert!(rendered.trim_end().ends_with("|ab|"));
}

#[test]
fn the_dump_numbers_its_rows() {
    let rendered = dump(&b"0123456789abcdefXYZ".to_vec(), 0x10);
    let rows: Vec<&str> = rendered.lines().collect();
    assert_eq!(rows.len(), 2);
    assert!(rows[0].starts_with("00000010  30 31 32"));
    assert!(rows[0].ends_with("|0123456789abcdef|"));
    assert!(rows[1].starts_with("00000020  58 59 5a"));
}

#[test]
fn numbers_are_written_in_base_sixteen() {
    assert_eq!(hexadecimal_text(0), "0");
    assert_eq!(hexadecimal_text(0xdead_beef), "deadbeef");
    assert_eq!(pad_zeros("1f", 4), "001f");
    assert_eq!(pad_zeros("12345", 4), "12345");
}

#[test]
fn the_hex_tools_are_described() {
    let names: Vec<String> = HexTools.descriptors().iter().map(|t| t.name.clone()).collect();
    assert_eq!(names, ["hex_view", "hex_patch"]);
}
