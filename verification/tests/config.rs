//! Durations, placeholders, and the configuration.

use omni_mcp::config::duration::{parse as parse_duration, HumanDuration};
use omni_mcp::config::interpolate::{expand, expand_toml, Environment};
use omni_mcp::config::toml_value::TomlValue;
use omni_mcp::config::{Config, SshServerConfig};
use omni_mcp::error::ConfigError;
use omni_mcp::time::Duration;

fn env(pairs: &[(&str, &str)]) -> Environment {
    Environment { vars: pairs.iter().map(|(k, v)| (k.to_string(), v.to_string())).collect() }
}

fn parse(text: &str) -> Result<Config, ConfigError> {
    let document = TomlValue::parse(text)
        .map_err(|source| ConfigError::Parse { path: "<test>".to_string(), source })?;
    let config = Config::from_toml(&document)
        .map_err(|source| ConfigError::Parse { path: "<test>".to_string(), source })?;
    config.validate()?;
    Ok(config)
}

fn entry<'a>(value: &'a TomlValue, key: &str) -> &'a TomlValue {
    match value {
        TomlValue::Table(entries) => {
            &entries.iter().find(|(k, _)| k == key).expect("the key is there").1
        }
        other => panic!("expected a table, got {other:?}"),
    }
}

// Durations -----------------------------------------------------------------

#[test]
fn parses_every_supported_unit() {
    assert_eq!(parse_duration("500ms").unwrap(), Duration::from_millis(500));
    assert_eq!(parse_duration("30s").unwrap(), Duration::from_secs(30));
    assert_eq!(parse_duration("2m").unwrap(), Duration::from_secs(120));
    assert_eq!(parse_duration("1h").unwrap(), Duration::from_secs(3600));
}

#[test]
fn bare_integer_means_seconds() {
    assert_eq!(parse_duration("45").unwrap(), Duration::from_secs(45));
}

#[test]
fn surrounding_whitespace_is_tolerated() {
    assert_eq!(parse_duration("  10s  ").unwrap(), Duration::from_secs(10));
}

#[test]
fn rejects_garbage_rather_than_guessing() {
    for bad in ["", "s", "abc", "10years", "-5s", "1.5s"] {
        assert!(parse_duration(bad).is_err(), "{bad:?} should not parse");
    }
}

#[test]
fn overflow_is_rejected_not_wrapped() {
    assert!(parse_duration("99999999999999999999h").is_err());
    assert!(parse_duration(&format!("{}h", u64::MAX)).is_err());
}

#[test]
fn round_trips_through_serde() {
    let decoded = HumanDuration(parse_duration("90s").unwrap());
    assert_eq!(decoded.get(), Duration::from_secs(90));
    assert_eq!(decoded.text(), "90s");
    assert_eq!(HumanDuration::millis(250).text(), "250ms");
}

#[test]
fn a_written_duration_reads_back() {
    for duration in [
        HumanDuration::secs(0),
        HumanDuration::secs(7),
        HumanDuration::millis(1),
        HumanDuration::millis(61_500),
        HumanDuration::secs(86_400),
    ] {
        assert_eq!(parse_duration(&duration.text()).unwrap(), duration.get());
    }
}

#[test]
fn a_bad_duration_is_quoted_in_the_error() {
    let err = parse_duration("soon").unwrap_err();
    assert!(matches!(&err, ConfigError::Duration { value } if value == "soon"));
    assert!(err.message().contains("soon"));
}

#[test]
fn durations_are_compared_and_bounded() {
    assert!(Duration::from_secs(2).exceeds(&Duration::from_millis(1999)));
    assert!(!Duration::from_millis(2000).exceeds(&Duration::from_secs(2)));
    assert_eq!(
        Duration::from_secs(3).min(Duration::from_millis(2500)),
        Duration::from_millis(2500)
    );
    assert_eq!(Duration::from_millis(2500).as_secs(), 2);
    assert_eq!(Duration::from_secs(u64::MAX).as_millis(), u64::MAX as u128 * 1000);
}

// Placeholders --------------------------------------------------------------

#[test]
fn substitutes_a_set_variable() {
    let lookup = env(&[("TOKEN", "s3cret")]);
    assert_eq!(expand("bearer = \"${TOKEN}\"", &lookup).unwrap(), "bearer = \"s3cret\"");
}

#[test]
fn uses_the_default_when_unset() {
    let lookup = env(&[]);
    assert_eq!(expand("${HOST:-127.0.0.1}", &lookup).unwrap(), "127.0.0.1");
}

#[test]
fn prefers_the_variable_over_its_default() {
    let lookup = env(&[("HOST", "0.0.0.0")]);
    assert_eq!(expand("${HOST:-127.0.0.1}", &lookup).unwrap(), "0.0.0.0");
}

#[test]
fn unset_without_default_is_a_named_error() {
    let err = expand("${NOPE}", &env(&[])).unwrap_err();
    assert!(matches!(&err, ConfigError::MissingEnv { var } if var == "NOPE"));
}

#[test]
fn empty_default_is_allowed_and_yields_empty() {
    assert_eq!(expand("a${X:-}b", &env(&[])).unwrap(), "ab");
}

#[test]
fn handles_multiple_and_adjacent_placeholders() {
    let lookup = env(&[("A", "1"), ("B", "2")]);
    assert_eq!(expand("${A}${B}/${A}", &lookup).unwrap(), "12/1");
}

#[test]
fn double_dollar_escapes_a_literal_dollar() {
    assert_eq!(expand("cost is $$5 ${X:-y}", &env(&[])).unwrap(), "cost is $5 y");
}

#[test]
fn lone_dollar_and_unclosed_brace_stay_literal() {
    assert_eq!(expand("100$ off", &env(&[])).unwrap(), "100$ off");
    assert_eq!(expand("${UNCLOSED", &env(&[])).unwrap(), "${UNCLOSED");
}

#[test]
fn value_containing_a_placeholder_is_not_re_expanded() {
    let lookup = env(&[("A", "${B}"), ("B", "boom")]);
    assert_eq!(expand("${A}", &lookup).unwrap(), "${B}");
}

#[test]
fn text_without_placeholders_is_returned_unchanged() {
    assert_eq!(expand("plain text", &env(&[])).unwrap(), "plain text");
}

#[test]
fn toml_string_values_are_expanded_but_comments_and_keys_are_not() {
    let document = r#"
        # see ${OMNI_MCP_TOKEN} in the environment
        bearer = "${TOKEN}"
        port = 8080
        hosts = ["${HOST}", "literal"]

        [nested]
        key = "${TOKEN}"
    "#;
    let parsed = TomlValue::parse(document).unwrap();
    let lookup = env(&[("TOKEN", "abc"), ("HOST", "example.test")]);
    let expanded = expand_toml(&parsed, &lookup).unwrap();

    assert_eq!(entry(&expanded, "bearer"), &TomlValue::Text("abc".to_string()));
    assert_eq!(entry(&expanded, "port"), &TomlValue::Integer(8080));
    assert_eq!(
        entry(&expanded, "hosts"),
        &TomlValue::Array(vec![
            TomlValue::Text("example.test".to_string()),
            TomlValue::Text("literal".to_string())
        ])
    );
    assert_eq!(
        entry(entry(&expanded, "nested"), "key"),
        &TomlValue::Text("abc".to_string())
    );
}

#[test]
fn an_unset_variable_in_a_value_still_fails_loudly() {
    let parsed = TomlValue::parse(r#"bearer = "${ABSENT}""#).unwrap();
    let err = expand_toml(&parsed, &env(&[])).unwrap_err();
    assert!(matches!(&err, ConfigError::MissingEnv { var } if var == "ABSENT"));
}

#[test]
fn every_kind_of_toml_value_is_read() {
    let parsed = TomlValue::parse("a = 1.5\nb = true\nc = 2020-01-02\nd = -3\n").unwrap();
    assert_eq!(entry(&parsed, "b"), &TomlValue::Boolean(true));
    assert_eq!(entry(&parsed, "d"), &TomlValue::Integer(-3));
    assert!(matches!(entry(&parsed, "a"), TomlValue::Float(_)));
    assert_eq!(entry(&parsed, "c"), &TomlValue::Datetime("2020-01-02".to_string()));
    assert!(TomlValue::parse("this is not toml {{{").is_err());
}

// The configuration ---------------------------------------------------------

#[test]
fn empty_config_is_valid_and_fully_defaulted() {
    let config = parse("").unwrap();
    assert_eq!(config.server.host, "127.0.0.1");
    assert_eq!(config.server.port, 8080);
    assert_eq!(config.limits.default_tool_timeout.get(), Duration::from_secs(30));
    assert!(config.proxies.is_empty());
    assert!(config.sidecars.is_empty());
    assert_eq!(config, Config::default());
}

#[test]
fn dangerous_tools_are_disabled_unless_opted_into() {
    let config = parse("").unwrap();
    assert!(!config.tools.allow_code_execution);
    assert!(!config.tools.allow_file_mutation);
}

#[test]
fn a_blank_auth_token_counts_as_no_authentication() {
    for value in ["", "   "] {
        let config = parse(&format!("[server]\nauth_token = \"{value}\"\n")).unwrap();
        assert_eq!(config.server.auth_token(), None);
    }
    let config = parse("[server]\nauth_token = \" real \"\n").unwrap();
    assert_eq!(config.server.auth_token().as_deref(), Some("real"));
}

#[test]
fn cors_is_closed_and_http_auth_absent_by_default() {
    let config = parse("").unwrap();
    assert!(config.server.allowed_origins.is_empty());
    assert!(config.server.auth_token().is_none());
}

#[test]
fn sidecar_spawns_are_serialised_by_default() {
    assert_eq!(parse("").unwrap().limits.max_concurrent_spawns, 1);
}

#[test]
fn parses_a_full_configuration() {
    let config = parse(
        r#"
        [server]
        host = "0.0.0.0"
        port = 9000
        auth_token = "abc"
        allowed_origins = ["http://localhost:3000"]

        [limits]
        default_tool_timeout = "10s"
        max_tool_timeout = "1m"
        max_concurrent_calls = 4

        [tools]
        allow_code_execution = true
        allowed_roots = ["/srv/data"]

        [[proxies]]
        name = "ha"
        url = "http://192.168.2.4:8123/api/mcp"
        bearer = "tok"
        prefix = "ha_"

        [[sidecars]]
        name = "browser"
        command = "node"
        args = ["server.js"]
        lazy = false
    "#,
    )
    .unwrap();

    assert_eq!(config.server.port, 9000);
    assert_eq!(config.limits.max_tool_timeout.get(), Duration::from_secs(60));
    assert!(config.tools.allow_code_execution);
    assert_eq!(config.tools.allowed_roots, vec!["/srv/data".to_string()]);
    assert_eq!(config.proxies[0].prefix.as_deref(), Some("ha_"));
    assert!(!config.sidecars[0].lazy);
    assert_eq!(config.server.host, "0.0.0.0");
    assert_eq!(config.server.allowed_origins, vec!["http://localhost:3000".to_string()]);
    assert_eq!(config.limits.max_concurrent_calls, 4);
    assert_eq!(config.sidecars[0].args, vec!["server.js".to_string()]);
}

#[test]
fn token_is_accepted_as_an_alias_for_bearer() {
    let config = parse(
        r#"
        [[proxies]]
        name = "p"
        url = "http://example.invalid/mcp"
        token = "legacy"
    "#,
    )
    .unwrap();
    assert_eq!(config.proxies[0].bearer.as_deref(), Some("legacy"));
}

#[test]
fn typos_are_rejected_instead_of_silently_ignored() {
    let err = parse("[server]\nprot = 9000\n").unwrap_err();
    assert!(matches!(err, ConfigError::Parse { .. }), "got {err:?}");
}

#[test]
fn duplicate_backend_names_are_rejected() {
    let err = parse(
        r#"
        [[proxies]]
        name = "dup"
        url = "http://a.invalid/mcp"

        [[sidecars]]
        name = "dup"
        command = "true"
    "#,
    )
    .unwrap_err();
    assert!(err.message().contains("duplicate backend name"));
}

#[test]
fn non_http_proxy_urls_are_rejected() {
    let err = parse("[[proxies]]\nname = \"p\"\nurl = \"ws://x.invalid\"\n").unwrap_err();
    assert!(err.message().contains("expected an http://"));
}

#[test]
fn empty_sidecar_command_is_rejected() {
    let err = parse("[[sidecars]]\nname = \"s\"\ncommand = \"  \"\n").unwrap_err();
    assert!(err.message().contains("empty command"));
}

#[test]
fn zero_concurrency_is_rejected() {
    assert!(parse("[limits]\nmax_concurrent_calls = 0\n").is_err());
    assert!(parse("[limits]\nmax_concurrent_spawns = 0\n").is_err());
}

#[test]
fn default_timeout_may_not_exceed_the_hard_cap() {
    let err = parse("[limits]\ndefault_tool_timeout = \"10m\"\nmax_tool_timeout = \"30s\"\n")
        .unwrap_err();
    assert!(err.message().contains("cannot exceed"));
}

#[test]
fn disabled_backends_are_filtered_out() {
    let config = parse(
        r#"
        [[proxies]]
        name = "on"
        url = "http://a.invalid/mcp"

        [[proxies]]
        name = "off"
        url = "http://b.invalid/mcp"
        enabled = false
    "#,
    )
    .unwrap();
    let names: Vec<String> = config.enabled_proxies().iter().map(|p| p.name.clone()).collect();
    assert_eq!(names, ["on"]);
}

#[test]
fn secrets_are_read_from_the_environment_at_load_time() {
    let text = "[[proxies]]\nname = \"ha\"\nurl = \"${HA_URL:-http://d.invalid/mcp}\"\nbearer = \"${OMNI_TEST_TOKEN}\"\n";
    let vars = env(&[("OMNI_TEST_TOKEN", "from-env")]);
    let config = Config::load("omni-mcp.toml", Ok(text.to_string()), &vars).unwrap();
    assert_eq!(config.proxies[0].bearer.as_deref(), Some("from-env"));
    assert_eq!(config.proxies[0].url, "http://d.invalid/mcp");
}

#[test]
fn missing_config_file_yields_defaults_but_a_bad_one_errors() {
    let vars = env(&[]);
    assert!(Config::load_or_default("absent.toml", None, &vars).is_ok());
    let bad = Some(Ok("this is not toml {{{".to_string()));
    assert!(Config::load_or_default("bad.toml", bad, &vars).is_err());
}

#[test]
fn an_unreadable_file_names_its_path() {
    let err = Config::load("x.toml", Err("permission denied".to_string()), &env(&[])).unwrap_err();
    assert_eq!(
        err,
        ConfigError::Read { path: "x.toml".to_string(), source: "permission denied".to_string() }
    );
    assert!(err.message().contains("x.toml"));
}

#[test]
fn an_invalid_configuration_is_refused_on_load() {
    let raw = Ok("[[proxies]]\nname = \"p\"\nurl = \"not-a-url\"\n".to_string());
    let err = Config::load("bad.toml", raw, &env(&[])).unwrap_err();
    assert!(matches!(&err, ConfigError::Invalid(_)));
    assert!(err.message().contains("http://"), "{}", err.message());
}

#[test]
fn a_value_of_the_wrong_type_is_refused() {
    for bad in [
        "[server]\nport = \"x\"\n",
        "[server]\nport = 70000\n",
        "[limits]\ndiscovery_ttl = 5\n",
        "[limits]\ndiscovery_ttl = \"soon\"\n",
        "[tools]\nallowed_roots = \"/srv\"\n",
        "[[sidecars]]\nname = \"s\"\n",
        "proxies = 3\n",
    ] {
        assert!(parse(bad).is_err(), "{bad:?} should be refused");
    }
}

#[test]
fn an_ssh_server_is_read_and_filtered() {
    let config = parse(
        r#"
        [[ssh]]
        name = "box"
        host = "10.0.0.1"
        user = "me"
        password = "pw"

        [[ssh]]
        name = "off"
        host = "10.0.0.2"
        user = "me"
        password = "pw"
        enabled = false
    "#,
    )
    .unwrap();
    let enabled: Vec<&SshServerConfig> = config.enabled_ssh();
    assert_eq!(enabled.len(), 1);
    assert_eq!(enabled[0].name, "box");
    assert_eq!(enabled[0].port, 22);
}

#[test]
fn sections_may_be_written_as_arrays_of_their_fields() {
    let config = parse(
        r#"
server = ["0.0.0.0", 99]
limits = []
proxies = [["p", "http://x/mcp", "secret"]]
ssh = [["s", "host", 22, "me"]]
sidecars = [["c", "node", ["a.js"]]]
"#,
    )
    .unwrap();
    assert_eq!((config.server.host.as_str(), config.server.port), ("0.0.0.0", 99));
    assert_eq!(config.limits, Config::default().limits);
    assert_eq!(config.proxies[0].bearer.as_deref(), Some("secret"));
    assert_eq!(config.ssh[0].user, "me");
    assert_eq!(config.sidecars[0].args, vec!["a.js".to_string()]);
    assert!(parse(r#"proxies = [["p"]]"#).is_err());
    assert!(parse(r#"ssh = [["s", "host", 22]]"#).is_err());
    assert!(parse(r#"limits = ["1s", "2s", "3s", 1, 2, "4s", 5]"#).is_err());
}
