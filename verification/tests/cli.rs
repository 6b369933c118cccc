//! The command line.

use clap::{Arg, ArgAction};
use omni_mcp::cli::{Cli, Command};

fn option(name: &'static str) -> Arg {
    Arg::new(name).long(name)
}

fn flag(name: &'static str) -> Arg {
    option(name).action(ArgAction::SetTrue)
}

/// Reads a command line as the program does.
fn parse(arguments: &[&str]) -> Cli {
    let program = clap::Command::new("omni-mcp")
        .arg(option("config").short('c').global(true))
        .arg(option("log").global(true))
        .arg(flag("stdio"))
        .subcommand(clap::Command::new("stdio"))
        .subcommand(
            clap::Command::new("serve").arg(option("bind")).arg(flag("allow-unauthenticated")),
        )
        .subcommand(clap::Command::new("check"))
        .subcommand(clap::Command::new("tools").arg(flag("json")));
    let matches = program.try_get_matches_from(arguments).unwrap();
    let command = matches.subcommand().map(|(name, given)| match name {
        "serve" => Command::Serve {
            bind: given.get_one::<String>("bind").cloned(),
            allow_unauthenticated: given.get_flag("allow-unauthenticated"),
        },
        "check" => Command::Check,
        "tools" => Command::Tools { json: given.get_flag("json") },
        _ => Command::Stdio,
    });
    Cli {
        config: matches.get_one::<String>("config").cloned(),
        log: matches.get_one::<String>("log").cloned(),
        stdio: matches.get_flag("stdio"),
        command,
    }
}

#[test]
fn stdio_is_the_default_command() {
    let cli = parse(&["omni-mcp"]);
    assert!(matches!(cli.command(), Command::Stdio));
}

#[test]
fn the_legacy_stdio_flag_still_selects_stdio_mode() {
    assert!(matches!(parse(&["omni-mcp", "--stdio"]).command(), Command::Stdio));
    assert!(matches!(parse(&["omni-mcp", "stdio"]).command(), Command::Stdio));
    let both = parse(&["omni-mcp", "--stdio", "check"]);
    assert!(matches!(both.command(), Command::Stdio));
}

#[test]
fn serve_accepts_a_bind_override_and_the_unauthenticated_escape_hatch() {
    let cli = parse(&["omni-mcp", "serve", "--bind", "0.0.0.0:9000", "--allow-unauthenticated"]);
    let Command::Serve { bind, allow_unauthenticated } = cli.command() else {
        panic!("expected serve")
    };
    assert_eq!(bind.as_deref(), Some("0.0.0.0:9000"));
    assert!(*allow_unauthenticated);
}

#[test]
fn an_explicit_config_path_wins() {
    let cli = parse(&["omni-mcp", "--config", "/etc/omni.toml"]);
    assert_eq!(cli.config_path(true, &Some("/x".to_string()), &None), "/etc/omni.toml");
    assert_eq!(cli.config_path(false, &None, &None), "/etc/omni.toml");
}

#[test]
fn the_tools_subcommand_has_a_json_flag() {
    let cli = parse(&["omni-mcp", "tools", "--json"]);
    assert!(matches!(cli.command(), Command::Tools { json: true }));
}

#[test]
fn the_configuration_is_looked_for_beside_the_program_and_then_at_home() {
    let cli = parse(&["omni-mcp"]);
    let xdg = Some("/xdg".to_string());
    let home = Some("/home/me".to_string());
    assert_eq!(cli.config_path(true, &xdg, &home), "omni-mcp.toml");
    assert_eq!(cli.config_path(false, &xdg, &home), "/xdg/omni-mcp/omni-mcp.toml");
    assert_eq!(
        cli.config_path(false, &Some(String::new()), &home),
        "/home/me/.config/omni-mcp/omni-mcp.toml"
    );
    assert_eq!(cli.config_path(false, &None, &None), "omni-mcp.toml");
}

#[test]
fn nothing_given_selects_the_default() {
    let cli = parse(&["omni-mcp"]);
    assert_eq!(cli, Cli { config: None, log: None, stdio: false, command: None });
    assert_eq!(cli.command(), &Command::Stdio);
}

#[test]
fn the_named_command_is_run() {
    let cli = parse(&["omni-mcp", "--log", "debug", "check"]);
    assert_eq!(cli.log.as_deref(), Some("debug"));
    assert_eq!(cli.command(), &Command::Check);
    assert_eq!(
        parse(&["omni-mcp", "serve"]).command(),
        &Command::Serve { bind: None, allow_unauthenticated: false }
    );
}
