//! Capabilities and paths.

use omni_mcp::config::ToolPolicy;
use omni_mcp::error::{ToolError, ToolResult};
use omni_mcp::json::Json;
use omni_mcp::tools::args;
use omni_mcp::tools::path::{
    is_absolute, join_path, lexical_normalize, split_components, starts_with_path,
};
use omni_mcp::tools::{OnDisk, ToolContext};

fn context(policy: ToolPolicy) -> ToolContext {
    ToolContext::new(policy, &Vec::new())
}

fn permissive() -> ToolPolicy {
    ToolPolicy { allow_code_execution: true, allow_file_mutation: true, ..Default::default() }
}

fn rooted(root: &str) -> ToolContext {
    context(ToolPolicy { allowed_roots: vec![root.to_string()], ..permissive() })
}

/// Resolves a path that exists and has no links in it.
fn existing(ctx: &ToolContext, path: &str) -> ToolResult<String> {
    ctx.resolve(path, OnDisk::Found(lexical_normalize(path)))
}

/// What is said of a path of which all but the last segments exist.
fn missing(ancestor: &str, missing: usize) -> OnDisk {
    OnDisk::Missing { ancestor: ancestor.to_string(), missing }
}

#[test]
fn dangerous_capabilities_are_denied_by_default() {
    let ctx = context(ToolPolicy::default());
    assert!(matches!(ctx.require_code_execution(), Err(ToolError::Denied(_))));
    assert!(matches!(ctx.require_file_mutation(), Err(ToolError::Denied(_))));
    assert!(matches!(ctx.require_ssh(), Err(ToolError::Denied(_))));
}

#[test]
fn denial_messages_say_how_to_enable_the_capability() {
    let err = context(ToolPolicy::default()).require_code_execution().unwrap_err();
    assert!(err.message().contains("allow_code_execution = true"));
    let err = context(ToolPolicy::default()).require_ssh().unwrap_err();
    assert!(err.message().contains("allow_ssh = true"));
    let err = context(ToolPolicy::default()).require_file_mutation().unwrap_err();
    assert!(err.message().contains("allow_file_mutation = true"));
}

#[test]
fn capabilities_are_granted_when_configured() {
    let ctx = context(permissive());
    assert!(ctx.require_code_execution().is_ok());
    assert!(ctx.require_file_mutation().is_ok());
    assert!(ctx.policy().allow_file_mutation);
    assert_eq!(ctx.max_file_bytes(), ToolPolicy::default().max_file_bytes);
}

#[test]
fn without_roots_any_absolute_path_resolves() {
    let ctx = context(ToolPolicy::default());
    assert!(existing(&ctx, "/etc/hostname").is_ok());
    assert_eq!(ctx.resolve("/etc/new", missing("/etc", 1)), Ok("/etc/new".to_string()));
    assert_eq!(ctx.resolve("/etc/odd", OnDisk::Unreadable), Ok("/etc/odd".to_string()));
}

#[test]
fn relative_and_empty_paths_are_rejected() {
    let ctx = context(ToolPolicy::default());
    assert!(ctx.resolve("relative/file", missing("/", 2)).is_err());
    assert!(ctx.resolve("   ", OnDisk::Unreadable).is_err());
}

#[test]
fn paths_inside_a_root_are_allowed_and_outside_are_denied() {
    let ctx = rooted("/srv/data");
    assert!(existing(&ctx, "/srv/data/inside.txt").is_ok());
    assert!(matches!(existing(&ctx, "/etc/passwd"), Err(ToolError::Denied(_))));
    assert!(matches!(existing(&ctx, "/srv/database"), Err(ToolError::Denied(_))));
}

#[test]
fn dot_dot_cannot_escape_an_allowed_root() {
    let ctx = rooted("/srv/data");
    let escape = "/srv/data/../../../../etc/passwd";
    assert!(matches!(existing(&ctx, escape), Err(ToolError::Denied(_))));
    let gone = missing("/etc", 1);
    assert!(matches!(ctx.resolve(escape, gone), Err(ToolError::Denied(_))));
}

#[test]
fn a_symlink_pointing_outside_a_root_is_denied() {
    let ctx = rooted("/srv/data");
    let target = OnDisk::Found("/etc/passwd".to_string());
    assert!(matches!(ctx.resolve("/srv/data/escape", target), Err(ToolError::Denied(_))));
}

#[test]
fn a_not_yet_existing_file_inside_a_root_is_allowed() {
    let ctx = rooted("/srv/data");
    assert_eq!(
        ctx.resolve("/srv/data/sub/../new-file.resx", missing("/srv/data", 1)),
        Ok("/srv/data/new-file.resx".to_string())
    );
    assert_eq!(
        ctx.resolve("/srv/data/new/dir/file", missing("/srv/data", 3)),
        Ok("/srv/data/new/dir/file".to_string())
    );
}

#[test]
fn a_new_file_below_a_link_that_leads_out_is_denied() {
    let ctx = rooted("/r");
    let disk = missing("/etc", 1);
    assert!(matches!(ctx.resolve("/r/link/new.txt", disk), Err(ToolError::Denied(_))));
    // A link that stays inside is followed.
    assert_eq!(
        ctx.resolve("/r/link/new.txt", missing("/r/real", 1)),
        Ok("/r/real/new.txt".to_string())
    );
}

#[test]
fn a_path_that_cannot_be_resolved_is_denied_under_roots() {
    let ctx = rooted("/r");
    assert!(matches!(ctx.resolve("/r/link", OnDisk::Unreadable), Err(ToolError::Denied(_))));
}

#[test]
fn a_root_is_known_by_what_it_resolves_to() {
    let policy =
        ToolPolicy { allowed_roots: vec!["/link".to_string(), "/gone".to_string()], ..permissive() };
    let ctx = ToolContext::new(policy, &vec![Some("/real".to_string()), None]);
    assert!(existing(&ctx, "/real/file").is_ok());
    assert!(existing(&ctx, "/link/file").is_err());
    assert!(existing(&ctx, "/gone/file").is_ok());
}

#[test]
fn lexical_normalisation_collapses_dot_segments() {
    assert_eq!(lexical_normalize("/a/b/../c/./d"), "/a/c/d");
    assert_eq!(lexical_normalize("/../.."), "/");
    assert_eq!(lexical_normalize("/a//b/"), "/a/b");
}

#[test]
fn paths_are_split_compared_and_joined_by_segment() {
    assert!(is_absolute("/a"));
    assert!(!is_absolute("a/b"));
    assert_eq!(split_components("/a//b/./c").len(), split_components("/a/b/c").len());
    assert!(starts_with_path("/a/b/c", "/a/b"));
    assert!(!starts_with_path("/a/bc", "/a/b"));
    assert_eq!(join_path("/tmp/x", "script.py"), "/tmp/x/script.py");
}

#[test]
fn arguments_are_read_by_type() {
    let value = Json::parse(r#"{"s":"x","n":7,"b":true,"bad":[]}"#).unwrap();
    assert_eq!(args::string(&value, "s").unwrap(), "x");
    assert!(matches!(args::string(&value, "absent"), Err(ToolError::InvalidArguments(_))));
    assert!(args::string(&value, "n").is_err());
    assert_eq!(args::opt_string(&value, "absent"), Ok(None));
    assert!(args::opt_string(&value, "bad").is_err());
    assert_eq!(args::u64_or(&value, "n", 3), Ok(7));
    assert_eq!(args::u64_or(&value, "absent", 3), Ok(3));
    assert!(args::opt_u64(&value, "s").is_err());
    assert_eq!(args::bool_or(&value, "b", false), Ok(true));
    assert!(args::bool_or(&value, "n", false).is_err());
}
