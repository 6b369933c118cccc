//! The SSH tools and sessions.

use omni_mcp::config::{SshServerConfig, ToolPolicy};
use omni_mcp::error::ToolError;
use omni_mcp::json::Json;
use omni_mcp::tools::ssh::session::{
    address, after_key, after_password, authenticate, check_server_key, connection_failed,
    connection_timed_out, needs_connection, AuthStep, ChannelEvent, ExecOutput, KeyOutcome,
    KeyVerification, PasswordOutcome,
};
use omni_mcp::tools::ssh::{report_execution, ServerState, SshPlan, SshTools};
use omni_mcp::tools::ToolContext;

fn server(name: &str) -> SshServerConfig {
    SshServerConfig {
        name: name.to_string(),
        host: "10.0.0.1".to_string(),
        port: 2222,
        user: "me".to_string(),
        password: Some("pw".to_string()),
        private_key: None,
        passphrase: None,
        fingerprint: None,
        socks_proxy: None,
        whitelist: Vec::new(),
        blacklist: Vec::new(),
        bypass_allowed_roots: false,
        enabled: true,
    }
}

fn ctx(allowed: bool) -> ToolContext {
    let policy = ToolPolicy { allow_ssh: allowed, ..Default::default() };
    ToolContext::new(policy, &Vec::new())
}

fn json(text: &str) -> Json {
    Json::parse(text).expect("the text is JSON")
}

#[test]
fn the_first_enabled_server_is_the_default() {
    let mut off = server("off");
    off.enabled = false;
    let tools = SshTools::new(vec![off, server("a"), server("b")]);
    assert_eq!(tools.servers().len(), 2);
    assert_eq!(tools.resolve_server(None).unwrap().name, "a");
    assert_eq!(tools.resolve_server(Some("b")).unwrap().name, "b");
    assert!(tools.resolve_server(Some("off")).is_err());
    assert!(SshTools::new(Vec::new()).resolve_server(None).is_err());
}

#[test]
fn commands_pass_the_lists() {
    let mut config = server("a");
    assert!(SshTools::validate_command(&config, "rm -rf /").is_ok());
    config.whitelist = vec!["^ls".to_string(), "(broken".to_string()];
    config.blacklist = vec!["secret".to_string()];
    assert!(SshTools::validate_command(&config, "ls -l").is_ok());
    let err = SshTools::validate_command(&config, "cat x").unwrap_err();
    assert!(matches!(&err, ToolError::Denied(m) if m.contains("whitelist")), "{err:?}");
    let err = SshTools::validate_command(&config, "ls secret").unwrap_err();
    assert!(matches!(&err, ToolError::Denied(m) if m.contains("blacklist")), "{err:?}");
}

#[test]
fn a_command_is_judged_by_what_matched() {
    let mut config = server("a");
    assert!(SshTools::judge_command(&config, "x", false, false).is_ok());
    assert!(SshTools::judge_command(&config, "x", true, true).is_err());
    config.whitelist = vec!["y".to_string()];
    assert_eq!(
        SshTools::judge_command(&config, "x", false, true),
        Err(ToolError::Denied(
            "command \"x\" does not match any whitelist pattern for server 'a'".to_string()
        ))
    );
}

#[test]
fn an_execution_is_planned_only_where_ssh_is_allowed() {
    let tools = SshTools::new(vec![server("a")]);
    let args = json(r#"{"cmd":"uptime","save_new_fingerprint":true}"#);
    assert!(matches!(tools.plan_execute(&args, &ctx(false)), Err(ToolError::Denied(_))));
    let plan = tools.plan_execute(&args, &ctx(true)).ok().unwrap();
    assert_eq!(plan.command, "uptime");
    assert_eq!(plan.server, "a");
    assert!(plan.save_new_fingerprint);
    let legacy = json(r#"{"cmdString":"id","server":"a"}"#);
    assert_eq!(tools.plan_execute(&legacy, &ctx(true)).ok().unwrap().command, "id");
    assert!(matches!(
        tools.plan_execute(&json("{}"), &ctx(true)),
        Err(ToolError::InvalidArguments(_))
    ));
}

#[test]
fn a_call_is_planned_by_its_name() {
    let tools = SshTools::new(vec![server("a")]);
    let args = json(r#"{"cmd":"uptime"}"#);
    assert!(matches!(
        tools.call("ssh_list_servers", &args, &ctx(false)),
        Err(ToolError::Denied(_))
    ));
    assert!(matches!(tools.call("ssh_list_servers", &args, &ctx(true)), Ok(SshPlan::List)));
    let Ok(SshPlan::Execute(plan)) = tools.call("ssh_execute", &args, &ctx(true)) else {
        panic!("expected an execution")
    };
    assert_eq!(plan.command, "uptime");
    let move_files = json(r#"{"server":"a","save_new_fingerprint":true}"#);
    let Ok(SshPlan::Transfer(plan)) = tools.call("ssh_transfer", &move_files, &ctx(true)) else {
        panic!("expected a transfer")
    };
    assert_eq!((plan.server.as_str(), plan.save_new_fingerprint), ("a", true));
    assert!(matches!(
        tools.call("ssh_transfer", &move_files, &ctx(false)),
        Err(ToolError::Denied(_))
    ));
    let nowhere = json(r#"{"server":"none"}"#);
    assert!(tools.call("ssh_transfer", &nowhere, &ctx(true)).is_err());
    assert!(matches!(
        tools.call("ssh_copy", &args, &ctx(true)),
        Err(ToolError::NotFound(name)) if name == "ssh_copy"
    ));
}

#[test]
fn an_execution_that_failed_is_flagged() {
    let fine = report_execution("out", "", 0);
    assert!(!fine.is_failure());
    let failed = report_execution("", "err", 2);
    assert!(failed.is_failure());
    assert_eq!(failed.structured_content.unwrap().get_unsigned("exit_code"), Some(2));
}

#[test]
fn servers_are_listed_with_their_state() {
    let tools = SshTools::new(vec![server("a")]);
    let states = vec![ServerState { connected: true, status: None }];
    let listed = tools.list_servers(&states).structured_content.unwrap();
    let text = listed.compact();
    assert!(text.contains("\"a\""), "{text}");
    assert!(text.contains("true"), "{text}");
    assert!(!text.contains("pw"), "a password leaked: {text}");
}

#[test]
fn a_server_key_is_checked_against_what_is_known() {
    let pinned = Some("SHA256:abc".to_string());
    assert!(check_server_key(&pinned, "SHA256:abc", None, false).accepted());
    let wrong = check_server_key(&pinned, "SHA256:xyz", None, false);
    assert!(!wrong.accepted());
    assert!(matches!(&wrong, KeyVerification::Mismatch { received, .. } if received == "SHA256:xyz"));
    let replaced = check_server_key(&pinned, "SHA256:xyz", None, true);
    assert!(replaced.accepted() && replaced.learned());
    let fresh = check_server_key(&None, "SHA256:new", None, false);
    assert!(fresh.accepted() && fresh.learned());
    assert!(matches!(check_server_key(&None, "SHA256:k", Some(true), false), KeyVerification::Trusted));
    assert!(!check_server_key(&None, "SHA256:k", Some(false), false).accepted());
}

#[test]
fn a_failed_connection_explains_a_changed_key() {
    let config = server("a");
    assert_eq!(address(&config), "10.0.0.1:2222");
    let mismatch = KeyVerification::Mismatch {
        pinned: "SHA256:old".to_string(),
        received: "SHA256:new".to_string(),
    };
    let err = connection_failed(&config, &Some(mismatch), "refused").message();
    assert!(err.contains("SHA256:old") && err.contains("SHA256:new"), "{err}");
    let plain = connection_failed(&config, &None, "refused").message();
    assert!(plain.contains("refused"), "{plain}");
    assert!(connection_timed_out(&config).message().contains("a"));
}

#[test]
fn a_dead_or_missing_session_is_connected_anew() {
    assert!(needs_connection(None));
    assert!(needs_connection(Some(false)));
    assert!(!needs_connection(Some(true)));
}

#[test]
fn a_key_is_offered_before_a_password() {
    let mut config = server("a");
    config.private_key = Some("/k".to_string());
    config.passphrase = Some("pp".to_string());
    let AuthStep::PublicKey { path, passphrase } = authenticate(&config) else {
        panic!("expected the key")
    };
    assert_eq!(path, "/k");
    assert_eq!(passphrase.as_deref(), Some("pp"));
    assert!(matches!(after_key(&config, "/k", KeyOutcome::Accepted), AuthStep::Done));
    let AuthStep::Password(password) = after_key(&config, "/k", KeyOutcome::Rejected) else {
        panic!("expected the password")
    };
    assert_eq!(password, "pw");
    assert!(matches!(
        after_key(&config, "/k", KeyOutcome::Broken("reset".to_string())),
        AuthStep::Fail(_)
    ));
    assert!(matches!(
        after_key(&config, "/k", KeyOutcome::Unreadable("gone".to_string())),
        AuthStep::Fail(_)
    ));
}

#[test]
fn a_rejected_password_is_a_denial() {
    let config = server("a");
    assert!(matches!(authenticate(&config), AuthStep::Password(_)));
    assert!(matches!(after_password(&config, PasswordOutcome::Accepted), AuthStep::Done));
    assert!(matches!(
        after_password(&config, PasswordOutcome::Rejected),
        AuthStep::Fail(ToolError::Denied(_))
    ));
    assert!(matches!(
        after_password(&config, PasswordOutcome::Broken("x".to_string())),
        AuthStep::Fail(ToolError::Failed(_))
    ));
    let mut bare = server("a");
    bare.password = None;
    assert!(matches!(authenticate(&bare), AuthStep::Fail(_)));
}

#[test]
fn output_is_collected_until_the_channel_closes() {
    let mut output = ExecOutput::new();
    for event in [
        ChannelEvent::Data(b"out".to_vec()),
        ChannelEvent::ExtendedData { data: b"err".to_vec(), ext: 1 },
        ChannelEvent::ExtendedData { data: b"other".to_vec(), ext: 2 },
        ChannelEvent::Other,
        ChannelEvent::ExitStatus(3),
        ChannelEvent::Data(b" more".to_vec()),
    ] {
        output.absorb(event);
    }
    output.absorb(ChannelEvent::Close);
    let (stdout, stderr, code) = output.finish();
    assert_eq!(stdout, "out more");
    assert_eq!(stderr, "err");
    assert_eq!(code, 3);
}
