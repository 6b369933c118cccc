//! The sections of `omni-mcp.toml` and their defaults.

use vstd::prelude::*;

use super::duration::HumanDuration;
use crate::text::{is_whitespace, lemma_trimming, opt_view, trim, trimmed, views};

verus! {

/// Root of `omni-mcp.toml`.
#[derive(Debug, Clone, PartialEq)]
pub struct Config {
    pub server: ServerConfig,
    pub limits: Limits,
    pub tools: ToolPolicy,
    pub proxies: Vec<ProxyConfig>,
    pub sidecars: Vec<SidecarConfig>,
    pub ssh: Vec<SshServerConfig>,
}

/// The HTTP transport.
#[derive(Debug, Clone, PartialEq)]
pub struct ServerConfig {
    pub host: String,
    pub port: u16,
    /// Bearer token required by the HTTP transport. Use `"${VAR}"` to source it
    /// from the environment. Absent means HTTP mode refuses to start unless
    /// `--allow-unauthenticated` is passed.
    pub auth_token: Option<String>,
    /// Browser origins allowed to call the HTTP endpoint. Empty (the default)
    /// disables CORS entirely, which is correct for a local IDE gateway.
    pub allowed_origins: Vec<String>,
    /// Rejects request bodies larger than this.
    pub max_body_bytes: usize,
}

/// Concurrency and deadline caps.
///
/// `max_concurrent_spawns` keeps many sidecars from launching at once: sidecar
/// startup is serialised by default.
#[derive(Debug, Clone, PartialEq)]
pub struct Limits {
    pub default_tool_timeout: HumanDuration,
    pub max_tool_timeout: HumanDuration,
    pub discovery_timeout: HumanDuration,
    pub max_concurrent_calls: usize,
    pub max_concurrent_spawns: usize,
    /// How long a discovered tool list is trusted before rediscovery.
    pub discovery_ttl: HumanDuration,
}

/// Opt-in switches for tools that can execute code or modify files.
///
/// These default to *off*. The gateway is reachable over HTTP and drives
/// arbitrary shells; enabling arbitrary code execution should be a decision the
/// operator makes explicitly, not an accident of installing the binary.
#[derive(Debug, Clone, PartialEq)]
pub struct ToolPolicy {
    /// Enables `eval_code` (runs arbitrary python/node/bash/... snippets).
    pub allow_code_execution: bool,
    /// Enables SSH and SFTP tools (`ssh_execute`, `ssh_transfer`, `ssh_list_servers`).
    pub allow_ssh: bool,
    /// Allows `grep_search` to rewrite files and `hex_patch` to modify binaries.
    pub allow_file_mutation: bool,
    /// Restricts filesystem tools to these roots. Empty means unrestricted.
    pub allowed_roots: Vec<String>,
    /// Cap on how much of a file the filesystem tools will read.
    pub max_file_bytes: u64,
}

/// A configured remote SSH server profile.
#[derive(Debug, Clone, PartialEq)]
pub struct SshServerConfig {
    pub name: String,
    pub host: String,
    pub port: u16,
    pub user: String,
    pub password: Option<String>,
    pub private_key: Option<String>,
    pub passphrase: Option<String>,
    /// Optional pinned host key fingerprint (SHA256).
    pub fingerprint: Option<String>,
    /// Optional SOCKS5 proxy e.g. `<socks5://127.0.0.1:1080>`.
    pub socks_proxy: Option<String>,
    /// Command regex whitelist (if non-empty, commands must match).
    pub whitelist: Vec<String>,
    /// Command regex blacklist (commands must not match).
    pub blacklist: Vec<String>,
    /// If true, local paths for upload/download bypass `tools.allowed_roots`.
    pub bypass_allowed_roots: bool,
    pub enabled: bool,
}

/// A remote MCP server reached over HTTP.
#[derive(Debug, Clone, PartialEq)]
pub struct ProxyConfig {
    pub name: String,
    pub url: String,
    /// Sent as `Authorization: Bearer <token>`.
    pub bearer: Option<String>,
    /// Further headers, in the order of their names.
    pub headers: Vec<(String, String)>,
    pub timeout: HumanDuration,
    /// Prefix applied to this backend's tool names, e.g. `"ha_"`. Prevents two
    /// backends that both expose `search` from shadowing each other.
    pub prefix: Option<String>,
    pub enabled: bool,
}

/// A local MCP server run as a child process speaking stdio.
#[derive(Debug, Clone, PartialEq)]
pub struct SidecarConfig {
    pub name: String,
    pub command: String,
    pub args: Vec<String>,
    /// Variables set for the child, in the order of their names.
    pub env: Vec<(String, String)>,
    /// Names of parent environment variables this sidecar may see.
    ///
    /// Absent means it inherits the full environment. Listing names here clears
    /// the environment and passes through only those, plus whatever `env` sets
    /// explicitly.
    pub inherit_env: Option<Vec<String>>,
    pub cwd: Option<String>,
    /// Spawn on first use rather than at startup. Keeping this `true` is what
    /// keeps N sidecars from launching simultaneously at IDE startup.
    pub lazy: bool,
    pub prefix: Option<String>,
    pub startup_timeout: HumanDuration,
    /// Respawn once if the process died since the last call.
    pub restart_on_failure: bool,
    pub enabled: bool,
}

/// What a [`ServerConfig`] says.
pub struct ServerConfigView {
    pub host: Seq<char>,
    pub port: u16,
    pub auth_token: Option<Seq<char>>,
    pub allowed_origins: Seq<Seq<char>>,
    pub max_body_bytes: usize,
}

/// What [`Limits`] say, spans of time in milliseconds.
pub struct LimitsView {
    pub default_tool_timeout: nat,
    pub max_tool_timeout: nat,
    pub discovery_timeout: nat,
    pub max_concurrent_calls: usize,
    pub max_concurrent_spawns: usize,
    pub discovery_ttl: nat,
}

/// What a [`ToolPolicy`] says.
pub struct ToolPolicyView {
    pub allow_code_execution: bool,
    pub allow_ssh: bool,
    pub allow_file_mutation: bool,
    pub allowed_roots: Seq<Seq<char>>,
    pub max_file_bytes: u64,
}

/// What an [`SshServerConfig`] says.
pub struct SshServerConfigView {
    pub name: Seq<char>,
    pub host: Seq<char>,
    pub port: u16,
    pub user: Seq<char>,
    pub password: Option<Seq<char>>,
    pub private_key: Option<Seq<char>>,
    pub passphrase: Option<Seq<char>>,
    pub fingerprint: Option<Seq<char>>,
    pub socks_proxy: Option<Seq<char>>,
    pub whitelist: Seq<Seq<char>>,
    pub blacklist: Seq<Seq<char>>,
    pub bypass_allowed_roots: bool,
    pub enabled: bool,
}

/// What a [`ProxyConfig`] says.
pub struct ProxyConfigView {
    pub name: Seq<char>,
    pub url: Seq<char>,
    pub bearer: Option<Seq<char>>,
    pub headers: Seq<(Seq<char>, Seq<char>)>,
    pub timeout: nat,
    pub prefix: Option<Seq<char>>,
    pub enabled: bool,
}

/// What a [`SidecarConfig`] says.
pub struct SidecarConfigView {
    pub name: Seq<char>,
    pub command: Seq<char>,
    pub args: Seq<Seq<char>>,
    pub env: Seq<(Seq<char>, Seq<char>)>,
    pub inherit_env: Option<Seq<Seq<char>>>,
    pub cwd: Option<Seq<char>>,
    pub lazy: bool,
    pub prefix: Option<Seq<char>>,
    pub startup_timeout: nat,
    pub restart_on_failure: bool,
    pub enabled: bool,
}

/// What a [`Config`] says.
pub struct ConfigView {
    pub server: ServerConfigView,
    pub limits: LimitsView,
    pub tools: ToolPolicyView,
    pub proxies: Seq<ProxyConfigView>,
    pub sidecars: Seq<SidecarConfigView>,
    pub ssh: Seq<SshServerConfigView>,
}

impl View for ServerConfig {
    type V = ServerConfigView;

    open spec fn view(&self) -> ServerConfigView {
        ServerConfigView {
            host: self.host@,
            port: self.port,
            auth_token: opt_view(self.auth_token),
            allowed_origins: views(self.allowed_origins@),
            max_body_bytes: self.max_body_bytes,
        }
    }
}

impl View for Limits {
    type V = LimitsView;

    open spec fn view(&self) -> LimitsView {
        LimitsView {
            default_tool_timeout: self.default_tool_timeout@,
            max_tool_timeout: self.max_tool_timeout@,
            discovery_timeout: self.discovery_timeout@,
            max_concurrent_calls: self.max_concurrent_calls,
            max_concurrent_spawns: self.max_concurrent_spawns,
            discovery_ttl: self.discovery_ttl@,
        }
    }
}

impl View for ToolPolicy {
    type V = ToolPolicyView;

    open spec fn view(&self) -> ToolPolicyView {
        ToolPolicyView {
            allow_code_execution: self.allow_code_execution,
            allow_ssh: self.allow_ssh,
            allow_file_mutation: self.allow_file_mutation,
            allowed_roots: views(self.allowed_roots@),
            max_file_bytes: self.max_file_bytes,
        }
    }
}

impl View for SshServerConfig {
    type V = SshServerConfigView;

    open spec fn view(&self) -> SshServerConfigView {
        SshServerConfigView {
            name: self.name@,
            host: self.host@,
            port: self.port,
            user: self.user@,
            password: opt_view(self.password),
            private_key: opt_view(self.private_key),
            passphrase: opt_view(self.passphrase),
            fingerprint: opt_view(self.fingerprint),
            socks_proxy: opt_view(self.socks_proxy),
            whitelist: views(self.whitelist@),
            blacklist: views(self.blacklist@),
            bypass_allowed_roots: self.bypass_allowed_roots,
            enabled: self.enabled,
        }
    }
}

impl View for ProxyConfig {
    type V = ProxyConfigView;

    open spec fn view(&self) -> ProxyConfigView {
        ProxyConfigView {
            name: self.name@,
            url: self.url@,
            bearer: opt_view(self.bearer),
            headers: views(self.headers@),
            timeout: self.timeout@,
            prefix: opt_view(self.prefix),
            enabled: self.enabled,
        }
    }
}

impl View for SidecarConfig {
    type V = SidecarConfigView;

    open spec fn view(&self) -> SidecarConfigView {
        SidecarConfigView {
            name: self.name@,
            command: self.command@,
            args: views(self.args@),
            env: views(self.env@),
            inherit_env: match self.inherit_env {
                Some(names) => Some(views(names@)),
                None => None,
            },
            cwd: opt_view(self.cwd),
            lazy: self.lazy,
            prefix: opt_view(self.prefix),
            startup_timeout: self.startup_timeout@,
            restart_on_failure: self.restart_on_failure,
            enabled: self.enabled,
        }
    }
}

impl View for Config {
    type V = ConfigView;

    open spec fn view(&self) -> ConfigView {
        ConfigView {
            server: self.server@,
            limits: self.limits@,
            tools: self.tools@,
            proxies: views(self.proxies@),
            sidecars: views(self.sidecars@),
            ssh: views(self.ssh@),
        }
    }
}

impl ServerConfigView {
    /// A loopback endpoint without a token, closed to browsers.
    pub open spec fn default_view() -> ServerConfigView {
        ServerConfigView {
            host: "127.0.0.1"@,
            port: 8080,
            auth_token: None,
            allowed_origins: seq![],
            max_body_bytes: 8_388_608,
        }
    }
}

impl LimitsView {
    /// Half a minute for a call, five minutes at most, one spawn at a time.
    pub open spec fn default_view() -> LimitsView {
        LimitsView {
            default_tool_timeout: 30_000,
            max_tool_timeout: 300_000,
            discovery_timeout: 2_500,
            max_concurrent_calls: 16,
            max_concurrent_spawns: 1,
            discovery_ttl: 60_000,
        }
    }
}

impl ToolPolicyView {
    /// Nothing dangerous is allowed.
    pub open spec fn default_view() -> ToolPolicyView {
        ToolPolicyView {
            allow_code_execution: false,
            allow_ssh: false,
            allow_file_mutation: false,
            allowed_roots: seq![],
            max_file_bytes: 67_108_864,
        }
    }
}

impl ConfigView {
    /// Every section at its default, and no backends.
    pub open spec fn default_view() -> ConfigView {
        ConfigView {
            server: ServerConfigView::default_view(),
            limits: LimitsView::default_view(),
            tools: ToolPolicyView::default_view(),
            proxies: seq![],
            sidecars: seq![],
            ssh: seq![],
        }
    }
}

impl Default for ServerConfig {
    fn default() -> (r: ServerConfig)
        ensures
            r@ == ServerConfigView::default_view(),
    {
        let r = ServerConfig {
            host: "127.0.0.1".to_owned(),
            port: 8080,
            auth_token: None,
            allowed_origins: Vec::new(),
            max_body_bytes: 8_388_608,
        };
        assert(r@.allowed_origins =~= seq![]);
        r
    }
}

impl Default for Limits {
    fn default() -> (r: Limits)
        ensures
            r@ == LimitsView::default_view(),
    {
        Limits {
            default_tool_timeout: HumanDuration::secs(30),
            max_tool_timeout: HumanDuration::secs(300),
            discovery_timeout: HumanDuration::millis(2_500),
            max_concurrent_calls: 16,
            max_concurrent_spawns: 1,
            discovery_ttl: HumanDuration::secs(60),
        }
    }
}

impl Default for ToolPolicy {
    fn default() -> (r: ToolPolicy)
        ensures
            r@ == ToolPolicyView::default_view(),
    {
        let r = ToolPolicy {
            allow_code_execution: false,
            allow_ssh: false,
            allow_file_mutation: false,
            allowed_roots: Vec::new(),
            max_file_bytes: 67_108_864,
        };
        assert(r@.allowed_roots =~= seq![]);
        r
    }
}

impl Default for Config {
    fn default() -> (r: Config)
        ensures
            r@ == ConfigView::default_view(),
    {
        let r = Config {
            server: ServerConfig::default(),
            limits: Limits::default(),
            tools: ToolPolicy::default(),
            proxies: Vec::new(),
            sidecars: Vec::new(),
            ssh: Vec::new(),
        };
        assert(r@.proxies =~= seq![]);
        assert(r@.sidecars =~= seq![]);
        assert(r@.ssh =~= seq![]);
        r
    }
}

/// A token without surrounding whitespace, where anything is left of it.
pub open spec fn usable_token(token: Option<Seq<char>>) -> Option<Seq<char>> {
    match token {
        Some(t) => if trimmed(t).len() > 0 {
            Some(trimmed(t))
        } else {
            None
        },
        None => None,
    }
}

/// A token without surrounding whitespace, where anything is left of it.
pub fn token_of(token: &Option<String>) -> (r: Option<String>)
    ensures
        opt_view(r) == usable_token(opt_view(*token)),
{
    match token {
        Some(t) => {
            let token = trim(t);
            if token.as_str().is_empty() {
                None
            } else {
                Some(token)
            }
        },
        None => None,
    }
}

impl ServerConfig {
    /// The configured bearer token, treating blank as absent.
    ///
    /// `auth_token = "${OMNI_MCP_TOKEN:-}"` with the variable unset resolves to
    /// an empty string; that must count as "no authentication configured", not
    /// as a token every request has to match exactly.
    pub fn auth_token(&self) -> (r: Option<String>)
        ensures
            opt_view(r) == usable_token(self@.auth_token),
    {
        token_of(&self.auth_token)
    }
}

/// The proxies that are turned on, in order.
pub open spec fn enabled_proxy_views(list: Seq<ProxyConfigView>) -> Seq<ProxyConfigView> {
    list.filter(|p: ProxyConfigView| p.enabled)
}

/// The sidecars that are turned on, in order.
pub open spec fn enabled_sidecar_views(list: Seq<SidecarConfigView>) -> Seq<SidecarConfigView> {
    list.filter(|s: SidecarConfigView| s.enabled)
}

/// The SSH servers that are turned on, in order.
pub open spec fn enabled_ssh_views(list: Seq<SshServerConfigView>) -> Seq<SshServerConfigView> {
    list.filter(|s: SshServerConfigView| s.enabled)
}

impl Config {
    /// The proxies that are turned on, in order.
    pub fn enabled_proxies(&self) -> (r: Vec<&ProxyConfig>)
        ensures
            views(r@) == enabled_proxy_views(self@.proxies),
    {
        let mut out: Vec<&ProxyConfig> = Vec::new();
        let mut i: usize = 0;
        let ghost all = self@.proxies;
        assert(views(out@) =~= enabled_proxy_views(all.take(0))) by {
            reveal(Seq::filter);
        }
        while i < self.proxies.len()
            invariant
                0 <= i <= self.proxies@.len(),
                all == views(self.proxies@),
                views(out@) == enabled_proxy_views(all.take(i as int)),
            decreases self.proxies@.len() - i,
        {
            let ghost before = out@;
            proof {
                assert(all.take(i + 1).drop_last() =~= all.take(i as int));
                assert(all.take(i + 1).last() == self.proxies@[i as int]@);
                reveal(Seq::filter);
            }
            if self.proxies[i].enabled {
                out.push(&self.proxies[i]);
                assert(views(out@) =~= views(before).push(self.proxies@[i as int]@));
            }
            i += 1;
        }
        assert(all.take(i as int) =~= all);
        out
    }

    /// The sidecars that are turned on, in order.
    pub fn enabled_sidecars(&self) -> (r: Vec<&SidecarConfig>)
        ensures
            views(r@) == enabled_sidecar_views(self@.sidecars),
    {
        let mut out: Vec<&SidecarConfig> = Vec::new();
        let mut i: usize = 0;
        let ghost all = self@.sidecars;
        assert(views(out@) =~= enabled_sidecar_views(all.take(0))) by {
            reveal(Seq::filter);
        }
        while i < self.sidecars.len()
            invariant
                0 <= i <= self.sidecars@.len(),
                all == views(self.sidecars@),
                views(out@) == enabled_sidecar_views(all.take(i as int)),
            decreases self.sidecars@.len() - i,
        {
            let ghost before = out@;
            proof {
                assert(all.take(i + 1).drop_last() =~= all.take(i as int));
                assert(all.take(i + 1).last() == self.sidecars@[i as int]@);
                reveal(Seq::filter);
            }
            if self.sidecars[i].enabled {
                out.push(&self.sidecars[i]);
                assert(views(out@) =~= views(before).push(self.sidecars@[i as int]@));
            }
            i += 1;
        }
        assert(all.take(i as int) =~= all);
        out
    }

    /// The SSH servers that are turned on, in order.
    pub fn enabled_ssh(&self) -> (r: Vec<&SshServerConfig>)
        ensures
            views(r@) == enabled_ssh_views(self@.ssh),
    {
        let mut out: Vec<&SshServerConfig> = Vec::new();
        let mut i: usize = 0;
        let ghost all = self@.ssh;
        assert(views(out@) =~= enabled_ssh_views(all.take(0))) by {
            reveal(Seq::filter);
        }
        while i < self.ssh.len()
            invariant
                0 <= i <= self.ssh@.len(),
                all == views(self.ssh@),
                views(out@) == enabled_ssh_views(all.take(i as int)),
            decreases self.ssh@.len() - i,
        {
            let ghost before = out@;
            proof {
                assert(all.take(i + 1).drop_last() =~= all.take(i as int));
                assert(all.take(i + 1).last() == self.ssh@[i as int]@);
                reveal(Seq::filter);
            }
            if self.ssh[i].enabled {
                out.push(&self.ssh[i]);
                assert(views(out@) =~= views(before).push(self.ssh@[i as int]@));
            }
            i += 1;
        }
        assert(all.take(i as int) =~= all);
        out
    }
}

fn dup_text(text: &Option<String>) -> (r: Option<String>)
    ensures
        opt_view(r) == opt_view(*text),
{
    match text {
        Some(text) => Some(text.clone()),
        None => None,
    }
}

/// A copy of a list of texts.
pub fn dup_texts(list: &Vec<String>) -> (r: Vec<String>)
    ensures
        views(r@) == views(list@),
{
    let mut out: Vec<String> = Vec::new();
    let mut i: usize = 0;
    while i < list.len()
        invariant
            0 <= i <= list@.len(),
            out@.len() == i,
            forall|k: int| 0 <= k < i ==> (#[trigger] out@[k])@ == list@[k]@,
        decreases list@.len() - i,
    {
        out.push(list[i].clone());
        i += 1;
    }
    assert(views(out@) =~= views(list@));
    out
}

fn dup_pairs(list: &Vec<(String, String)>) -> (r: Vec<(String, String)>)
    ensures
        views(r@) == views(list@),
{
    let mut out: Vec<(String, String)> = Vec::new();
    let mut i: usize = 0;
    while i < list.len()
        invariant
            0 <= i <= list@.len(),
            out@.len() == i,
            forall|k: int| 0 <= k < i ==> (#[trigger] out@[k])@ == list@[k]@,
        decreases list@.len() - i,
    {
        out.push((list[i].0.clone(), list[i].1.clone()));
        i += 1;
    }
    assert(views(out@) =~= views(list@));
    out
}

impl ToolPolicy {
    /// A copy of the policy.
    pub fn dup(&self) -> (r: ToolPolicy)
        ensures
            r@ == self@,
    {
        ToolPolicy {
            allow_code_execution: self.allow_code_execution,
            allow_ssh: self.allow_ssh,
            allow_file_mutation: self.allow_file_mutation,
            allowed_roots: dup_texts(&self.allowed_roots),
            max_file_bytes: self.max_file_bytes,
        }
    }
}

impl SshServerConfig {
    /// A copy of the profile.
    pub fn dup(&self) -> (r: SshServerConfig)
        ensures
            r@ == self@,
    {
        SshServerConfig {
            name: self.name.clone(),
            host: self.host.clone(),
            port: self.port,
            user: self.user.clone(),
            password: dup_text(&self.password),
            private_key: dup_text(&self.private_key),
            passphrase: dup_text(&self.passphrase),
            fingerprint: dup_text(&self.fingerprint),
            socks_proxy: dup_text(&self.socks_proxy),
            whitelist: dup_texts(&self.whitelist),
            blacklist: dup_texts(&self.blacklist),
            bypass_allowed_roots: self.bypass_allowed_roots,
            enabled: self.enabled,
        }
    }
}

/// Copies of profiles.
pub fn dup_ssh(list: &Vec<SshServerConfig>) -> (r: Vec<SshServerConfig>)
    ensures
        views(r@) == views(list@),
{
    let mut out: Vec<SshServerConfig> = Vec::new();
    let mut i: usize = 0;
    while i < list.len()
        invariant
            0 <= i <= list@.len(),
            out@.len() == i,
            forall|k: int| 0 <= k < i ==> (#[trigger] out@[k])@ == list@[k]@,
        decreases list@.len() - i,
    {
        out.push(list[i].dup());
        i += 1;
    }
    assert(views(out@) =~= views(list@));
    out
}

impl ProxyConfig {
    /// A copy of the configuration.
    pub fn dup(&self) -> (r: ProxyConfig)
        ensures
            r@ == self@,
    {
        ProxyConfig {
            name: self.name.clone(),
            url: self.url.clone(),
            bearer: dup_text(&self.bearer),
            headers: dup_pairs(&self.headers),
            timeout: self.timeout,
            prefix: dup_text(&self.prefix),
            enabled: self.enabled,
        }
    }
}

impl SidecarConfig {
    /// A copy of the configuration.
    pub fn dup(&self) -> (r: SidecarConfig)
        ensures
            r@ == self@,
    {
        SidecarConfig {
            name: self.name.clone(),
            command: self.command.clone(),
            args: dup_texts(&self.args),
            env: dup_pairs(&self.env),
            inherit_env: match &self.inherit_env {
                Some(names) => Some(dup_texts(names)),
                None => None,
            },
            cwd: dup_text(&self.cwd),
            lazy: self.lazy,
            prefix: dup_text(&self.prefix),
            startup_timeout: self.startup_timeout,
            restart_on_failure: self.restart_on_failure,
            enabled: self.enabled,
        }
    }
}

/// Out of the box nothing dangerous is allowed, HTTP has no token and is
/// closed to browsers, and sidecars start one at a time.
pub proof fn lemma_safe_defaults()
    ensures
        ({
            let c = ConfigView::default_view();
            &&& !c.tools.allow_code_execution
            &&& !c.tools.allow_ssh
            &&& !c.tools.allow_file_mutation
            &&& c.server.allowed_origins.len() == 0
            &&& usable_token(c.server.auth_token) is None
            &&& c.limits.max_concurrent_spawns == 1
        }),
{
}

/// The backends that are switched on are those of the list that say so, each as
/// often and in the order as it stands there, and no others.
pub proof fn lemma_enabled_backends(
    proxies: Seq<ProxyConfigView>,
    sidecars: Seq<SidecarConfigView>,
    ssh: Seq<SshServerConfigView>,
)
    ensures
        forall|p: ProxyConfigView| #[trigger]
            enabled_proxy_views(proxies).contains(p) <==> p.enabled && proxies.contains(p),
        forall|s: SidecarConfigView| #[trigger]
            enabled_sidecar_views(sidecars).contains(s) <==> s.enabled && sidecars.contains(s),
        forall|s: SshServerConfigView| #[trigger]
            enabled_ssh_views(ssh).contains(s) <==> s.enabled && ssh.contains(s),
        (forall|i: int| 0 <= i < proxies.len() ==> (#[trigger] proxies[i]).enabled)
            ==> enabled_proxy_views(proxies) == proxies,
        (forall|i: int| 0 <= i < sidecars.len() ==> (#[trigger] sidecars[i]).enabled)
            ==> enabled_sidecar_views(sidecars) == sidecars,
        (forall|i: int| 0 <= i < ssh.len() ==> (#[trigger] ssh[i]).enabled) ==> enabled_ssh_views(
            ssh,
        ) == ssh,
{
    lemma_filtered(proxies, |p: ProxyConfigView| p.enabled);
    lemma_filtered(sidecars, |s: SidecarConfigView| s.enabled);
    lemma_filtered(ssh, |s: SshServerConfigView| s.enabled);
}

/// Filtering keeps what is to be kept, and all of it.
pub proof fn lemma_filtered<A>(list: Seq<A>, keep: spec_fn(A) -> bool)
    ensures
        forall|a: A| #[trigger] list.filter(keep).contains(a) <==> keep(a) && list.contains(a),
        (forall|i: int| 0 <= i < list.len() ==> keep(#[trigger] list[i])) ==> list.filter(keep)
            == list,
    decreases list.len(),
{
    reveal(Seq::filter);
    let kept = list.filter(keep);
    if list.len() == 0 {
        assert(kept =~= list);
        assert forall|a: A| #[trigger] kept.contains(a) <==> keep(a) && list.contains(a) by {}
    } else {
        let front = list.drop_last();
        let last = list.last();
        lemma_filtered(front, keep);
        let less = front.filter(keep);
        assert(kept == if keep(last) {
            less.push(last)
        } else {
            less
        });
        assert forall|a: A| #[trigger] kept.contains(a) <==> keep(a) && list.contains(a) by {
            assert(less.contains(a) <==> keep(a) && front.contains(a));
            if kept.contains(a) {
                let i = choose|i: int| 0 <= i < kept.len() && kept[i] == a;
                if i < less.len() {
                    assert(less[i] == a && less.contains(a));
                    let k = choose|k: int| 0 <= k < front.len() && front[k] == a;
                    assert(list[k] == a);
                } else {
                    assert(list[list.len() - 1] == a);
                }
            }
            if keep(a) && list.contains(a) {
                let k = choose|k: int| 0 <= k < list.len() && list[k] == a;
                if k < front.len() {
                    assert(front[k] == list[k]);
                    assert(front.contains(a));
                    let i = choose|i: int| 0 <= i < less.len() && less[i] == a;
                    assert(kept[i] == a);
                } else {
                    assert(kept[kept.len() - 1] == a);
                }
            }
        }
        if forall|i: int| 0 <= i < list.len() ==> keep(#[trigger] list[i]) {
            assert forall|i: int| 0 <= i < front.len() implies keep(#[trigger] front[i]) by {
                assert(front[i] == list[i]);
            }
            assert(keep(list[list.len() - 1]));
            assert(less.push(last) =~= list);
        }
    }
}

/// A token counts where something other than blanks is in it, and then without the
/// blanks around it.
pub proof fn lemma_tokens(left: Seq<char>, core: Seq<char>, right: Seq<char>)
    requires
        forall|i: int| 0 <= i < left.len() ==> is_whitespace(#[trigger] left[i]),
        forall|i: int| 0 <= i < right.len() ==> is_whitespace(#[trigger] right[i]),
        core.len() > 0 ==> !is_whitespace(core[0]) && !is_whitespace(core.last()),
    ensures
        usable_token(Some(left + core + right)) == if core.len() > 0 {
            Some(core)
        } else {
            None::<Seq<char>>
        },
        usable_token(None) is None,
{
    lemma_trimming(left, core, right);
}

/// What holds where nothing is said: a server on this machine only, half a minute for a
/// tool and five at most, sixteen calls at a time, and files up to a size that fits.
pub proof fn lemma_defaults()
    ensures
        ({
            let c = ConfigView::default_view();
            &&& c.server.host == "127.0.0.1"@
            &&& c.server.port == 8080
            &&& c.server.auth_token is None
            &&& c.server.max_body_bytes == 8 * 1024 * 1024
            &&& c.limits.default_tool_timeout == 30 * 1000
            &&& c.limits.max_tool_timeout == 5 * 60 * 1000
            &&& c.limits.discovery_timeout == 2500
            &&& c.limits.discovery_ttl == 60 * 1000
            &&& c.limits.max_concurrent_calls == 16
            &&& c.limits.max_concurrent_spawns == 1
            &&& c.tools.allowed_roots.len() == 0
            &&& c.tools.max_file_bytes == 64 * 1024 * 1024
            &&& c.proxies.len() == 0 && c.sidecars.len() == 0 && c.ssh.len() == 0
        }),
{
}

} // verus!
