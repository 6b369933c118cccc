//! Rejecting configurations that would misbehave at runtime.

use vstd::prelude::*;

use super::model::{
    Config, ConfigView, ProxyConfigView, SidecarConfigView, SshServerConfigView,
};
use crate::error::{config_result, ConfigError, ConfigErrorView};
use crate::text::{
    begins, blank, cat2, cat3, cat5, contains, debug, debug_text, is_blank, lemma_contains, same,
    starts_with, views,
};

verus! {

/// The first of the problems `i`, `i + 1`, ... below `n`.
pub open spec fn first_problem(
    n: int,
    problem: spec_fn(int) -> Option<Seq<char>>,
    i: int,
) -> Option<Seq<char>>
    decreases n - i,
{
    if i >= n {
        None
    } else {
        match problem(i) {
            Some(message) => Some(message),
            None => first_problem(n, problem, i + 1),
        }
    }
}

/// The names of all backends: proxies first, then sidecars.
pub open spec fn backend_names(c: ConfigView) -> Seq<Seq<char>> {
    c.proxies.map_values(|p: ProxyConfigView| p.name) + c.sidecars.map_values(
        |s: SidecarConfigView| s.name,
    )
}

/// What is wrong with the `i`-th backend name.
pub open spec fn name_problem(names: Seq<Seq<char>>) -> spec_fn(int) -> Option<Seq<char>> {
    |i: int|
        if is_blank(names[i]) {
            Some("backend names must not be empty"@)
        } else if names.take(i).contains(names[i]) {
            Some("duplicate backend name "@ + debug_text(names[i]))
        } else {
            None
        }
}

/// What is wrong with the `i`-th proxy.
pub open spec fn proxy_problem(proxies: Seq<ProxyConfigView>) -> spec_fn(int) -> Option<
    Seq<char>,
> {
    |i: int|
        if !starts_with(proxies[i].url, "http://"@) && !starts_with(
            proxies[i].url,
            "https://"@,
        ) {
            Some(
                "proxy "@ + debug_text(proxies[i].name) + " has url "@ + debug_text(proxies[i].url)
                    + "; expected an http:// or https:// URL"@,
            )
        } else {
            None
        }
}

/// What is wrong with the `i`-th sidecar.
pub open spec fn sidecar_problem(sidecars: Seq<SidecarConfigView>) -> spec_fn(int) -> Option<
    Seq<char>,
> {
    |i: int|
        if is_blank(sidecars[i].command) {
            Some("sidecar "@ + debug_text(sidecars[i].name) + " has an empty command"@)
        } else {
            None
        }
}

/// The names of all SSH servers.
pub open spec fn ssh_names(ssh: Seq<SshServerConfigView>) -> Seq<Seq<char>> {
    ssh.map_values(|s: SshServerConfigView| s.name)
}

/// What is wrong with the `i`-th SSH server.
pub open spec fn ssh_problem(ssh: Seq<SshServerConfigView>) -> spec_fn(int) -> Option<Seq<char>> {
    |i: int|
        if is_blank(ssh[i].name) {
            Some("ssh server names must not be empty"@)
        } else if ssh_names(ssh).take(i).contains(ssh[i].name) {
            Some("duplicate ssh server name "@ + debug_text(ssh[i].name))
        } else if is_blank(ssh[i].host) {
            Some("ssh server "@ + debug_text(ssh[i].name) + " has an empty host"@)
        } else if is_blank(ssh[i].user) {
            Some("ssh server "@ + debug_text(ssh[i].name) + " has an empty user"@)
        } else {
            None
        }
}

/// The first thing that is wrong with a configuration.
pub open spec fn validation_error(c: ConfigView) -> Option<Seq<char>> {
    if c.limits.max_concurrent_calls == 0 {
        Some("limits.max_concurrent_calls must be at least 1"@)
    } else if c.limits.max_concurrent_spawns == 0 {
        Some("limits.max_concurrent_spawns must be at least 1"@)
    } else if c.limits.default_tool_timeout > c.limits.max_tool_timeout {
        Some("limits.default_tool_timeout cannot exceed limits.max_tool_timeout"@)
    } else {
        let names = backend_names(c);
        match first_problem(names.len() as int, name_problem(names), 0) {
            Some(message) => Some(message),
            None => match first_problem(c.proxies.len() as int, proxy_problem(c.proxies), 0) {
                Some(message) => Some(message),
                None => match first_problem(
                    c.sidecars.len() as int,
                    sidecar_problem(c.sidecars),
                    0,
                ) {
                    Some(message) => Some(message),
                    None => first_problem(c.ssh.len() as int, ssh_problem(c.ssh), 0),
                },
            },
        }
    }
}

/// Whether `name` is one of the first `n` names.
fn named_before(names: &Vec<&String>, n: usize, name: &str) -> (r: bool)
    requires
        n <= names@.len(),
    ensures
        r == views(names@).take(n as int).contains(name@),
{
    let mut i: usize = 0;
    while i < n
        invariant
            0 <= i <= n <= names@.len(),
            forall|k: int| 0 <= k < i ==> (#[trigger] names@[k])@ != name@,
        decreases n - i,
    {
        if same(names[i], name) {
            assert(views(names@).take(n as int)[i as int] == name@);
            return true;
        }
        i += 1;
    }
    proof {
        if views(names@).take(n as int).contains(name@) {
            let k = choose|k: int|
                0 <= k < n && views(names@).take(n as int)[k] == name@;
            assert(names@[k]@ == name@);
        }
    }
    false
}

impl Config {
    /// Rejects configurations that would misbehave at runtime rather than
    /// discovering the problem on the first tool call.
    pub fn validate(&self) -> (r: Result<(), ConfigError>)
        ensures
            config_result(r) == match validation_error(self@) {
                None => Ok::<(), ConfigErrorView>(()),
                Some(message) => Err::<(), ConfigErrorView>(ConfigErrorView::Invalid(message)),
            },
    {
        if self.limits.max_concurrent_calls == 0 {
            return Err(
                ConfigError::Invalid("limits.max_concurrent_calls must be at least 1".to_owned()),
            );
        }
        if self.limits.max_concurrent_spawns == 0 {
            return Err(
                ConfigError::Invalid("limits.max_concurrent_spawns must be at least 1".to_owned()),
            );
        }
        if self.limits.default_tool_timeout.get().exceeds(&self.limits.max_tool_timeout.get()) {
            return Err(
                ConfigError::Invalid(
                    "limits.default_tool_timeout cannot exceed limits.max_tool_timeout".to_owned(),
                ),
            );
        }
        match self.check_names() {
            Some(message) => {
                return Err(ConfigError::Invalid(message));
            },
            None => {},
        }
        match self.check_proxies() {
            Some(message) => {
                return Err(ConfigError::Invalid(message));
            },
            None => {},
        }
        match self.check_sidecars() {
            Some(message) => {
                return Err(ConfigError::Invalid(message));
            },
            None => {},
        }
        match self.check_ssh() {
            Some(message) => {
                return Err(ConfigError::Invalid(message));
            },
            None => {},
        }
        Ok(())
    }

    fn check_names(&self) -> (r: Option<String>)
        ensures
            crate::text::opt_view(r) == first_problem(
                backend_names(self@).len() as int,
                name_problem(backend_names(self@)),
                0,
            ),
    {
        let mut names: Vec<&String> = Vec::new();
        let mut i: usize = 0;
        while i < self.proxies.len()
            invariant
                0 <= i <= self.proxies@.len(),
                names@.len() == i,
                forall|k: int| 0 <= k < i ==> (#[trigger] names@[k])@ == self.proxies@[k].name@,
            decreases self.proxies@.len() - i,
        {
            names.push(&self.proxies[i].name);
            i += 1;
        }
        let mut j: usize = 0;
        let ghost n = self.proxies@.len() as int;
        while j < self.sidecars.len()
            invariant
                n == self.proxies@.len(),
                0 <= j <= self.sidecars@.len(),
                names@.len() == n + j,
                forall|k: int| 0 <= k < n ==> (#[trigger] names@[k])@ == self.proxies@[k].name@,
                forall|k: int|
                    n <= k < n + j ==> (#[trigger] names@[k])@ == self.sidecars@[k - n].name@,
            decreases self.sidecars@.len() - j,
        {
            names.push(&self.sidecars[j].name);
            j += 1;
        }
        let ghost all = backend_names(self@);
        proof {
            assert forall|k: int| 0 <= k < names@.len() implies views(names@)[k] == all[k] by {
                if k < n {
                    assert(names@[k]@ == self.proxies@[k].name@);
                    assert(self@.proxies[k].name == self.proxies@[k].name@);
                } else {
                    assert(names@[k]@ == self.sidecars@[k - n].name@);
                    assert(self@.sidecars[k - n].name == self.sidecars@[k - n].name@);
                }
            }
            assert(views(names@) =~= all);
        }
        let mut i: usize = 0;
        while i < names.len()
            invariant
                0 <= i <= names@.len(),
                all == backend_names(self@),
                views(names@) == all,
                all.len() == names@.len(),
                first_problem(all.len() as int, name_problem(all), 0) == first_problem(
                    all.len() as int,
                    name_problem(all),
                    i as int,
                ),
            decreases names@.len() - i,
        {
            assert(all[i as int] == names@[i as int]@);
            let name: &String = names[i];
            if blank(name) {
                return Some("backend names must not be empty".to_owned());
            }
            if named_before(&names, i, name) {
                return Some(cat2("duplicate backend name ", &debug(name)));
            }
            i += 1;
        }
        None
    }

    fn check_proxies(&self) -> (r: Option<String>)
        ensures
            crate::text::opt_view(r) == first_problem(
                self@.proxies.len() as int,
                proxy_problem(self@.proxies),
                0,
            ),
    {
        let mut i: usize = 0;
        while i < self.proxies.len()
            invariant
                0 <= i <= self.proxies@.len(),
                first_problem(self@.proxies.len() as int, proxy_problem(self@.proxies), 0)
                    == first_problem(
                    self@.proxies.len() as int,
                    proxy_problem(self@.proxies),
                    i as int,
                ),
            decreases self.proxies@.len() - i,
        {
            assert(self@.proxies[i as int] == self.proxies@[i as int]@);
            let proxy = &self.proxies[i];
            if !begins(&proxy.url, "http://") && !begins(&proxy.url, "https://") {
                return Some(
                    cat5(
                        "proxy ",
                        &debug(&proxy.name),
                        " has url ",
                        &debug(&proxy.url),
                        "; expected an http:// or https:// URL",
                    ),
                );
            }
            i += 1;
        }
        None
    }

    fn check_sidecars(&self) -> (r: Option<String>)
        ensures
            crate::text::opt_view(r) == first_problem(
                self@.sidecars.len() as int,
                sidecar_problem(self@.sidecars),
                0,
            ),
    {
        let mut i: usize = 0;
        while i < self.sidecars.len()
            invariant
                0 <= i <= self.sidecars@.len(),
                first_problem(self@.sidecars.len() as int, sidecar_problem(self@.sidecars), 0)
                    == first_problem(
                    self@.sidecars.len() as int,
                    sidecar_problem(self@.sidecars),
                    i as int,
                ),
            decreases self.sidecars@.len() - i,
        {
            assert(self@.sidecars[i as int] == self.sidecars@[i as int]@);
            if blank(&self.sidecars[i].command) {
                return Some(
                    cat3("sidecar ", &debug(&self.sidecars[i].name), " has an empty command"),
                );
            }
            i += 1;
        }
        None
    }

    fn check_ssh(&self) -> (r: Option<String>)
        ensures
            crate::text::opt_view(r) == first_problem(
                self@.ssh.len() as int,
                ssh_problem(self@.ssh),
                0,
            ),
    {
        let ghost all = self@.ssh;
        let mut names: Vec<&String> = Vec::new();
        let mut i: usize = 0;
        assert(views(names@) =~= ssh_names(all).take(0));
        while i < self.ssh.len()
            invariant
                0 <= i <= self.ssh@.len(),
                all == views(self.ssh@),
                names@.len() == i,
                views(names@) == ssh_names(all).take(i as int),
                first_problem(all.len() as int, ssh_problem(all), 0) == first_problem(
                    all.len() as int,
                    ssh_problem(all),
                    i as int,
                ),
            decreases self.ssh@.len() - i,
        {
            assert(all[i as int] == self.ssh@[i as int]@);
            assert(views(names@).take(i as int) =~= views(names@));
            let server = &self.ssh[i];
            if blank(&server.name) {
                return Some("ssh server names must not be empty".to_owned());
            }
            if named_before(&names, i, &server.name) {
                return Some(cat2("duplicate ssh server name ", &debug(&server.name)));
            }
            if blank(&server.host) {
                return Some(
                    cat3("ssh server ", &debug(&server.name), " has an empty host"),
                );
            }
            if blank(&server.user) {
                return Some(
                    cat3("ssh server ", &debug(&server.name), " has an empty user"),
                );
            }
            let ghost before = names@;
            names.push(&server.name);
            proof {
                assert(views(names@) =~= views(before).push(server.name@));
                assert(ssh_names(all).take(i + 1) =~= ssh_names(all).take(i as int).push(
                    ssh_names(all)[i as int],
                ));
            }
            i += 1;
        }
        None
    }
}

proof fn lemma_no_problem(n: int, problem: spec_fn(int) -> Option<Seq<char>>, i: int)
    requires
        first_problem(n, problem, i) is None,
    ensures
        forall|k: int| i <= k < n ==> #[trigger] problem(k) is None,
    decreases n - i,
{
    if i < n {
        lemma_no_problem(n, problem, i + 1);
    }
}

/// A configuration that passes has at least one permit of each kind, deadlines
/// that do not contradict each other, backends with names that are not blank
/// and differ from each other, and only HTTP proxies and sidecars with a
/// command.
pub proof fn lemma_valid_config(c: ConfigView)
    requires
        validation_error(c) is None,
    ensures
        c.limits.max_concurrent_calls >= 1,
        c.limits.max_concurrent_spawns >= 1,
        c.limits.default_tool_timeout <= c.limits.max_tool_timeout,
        backend_names(c).no_duplicates(),
        forall|k: int|
            0 <= k < backend_names(c).len() ==> !is_blank(#[trigger] backend_names(c)[k]),
        forall|k: int|
            0 <= k < c.proxies.len() ==> starts_with((#[trigger] c.proxies[k]).url, "http://"@)
                || starts_with(c.proxies[k].url, "https://"@),
        forall|k: int|
            0 <= k < c.sidecars.len() ==> !is_blank((#[trigger] c.sidecars[k]).command),
        ssh_names(c.ssh).no_duplicates(),
        forall|k: int|
            0 <= k < c.ssh.len() ==> !is_blank((#[trigger] c.ssh[k]).name) && !is_blank(
                c.ssh[k].host,
            ) && !is_blank(c.ssh[k].user),
{
    let names = backend_names(c);
    lemma_no_problem(names.len() as int, name_problem(names), 0);
    lemma_no_problem(c.proxies.len() as int, proxy_problem(c.proxies), 0);
    lemma_no_problem(c.sidecars.len() as int, sidecar_problem(c.sidecars), 0);
    lemma_no_problem(c.ssh.len() as int, ssh_problem(c.ssh), 0);
    assert forall|i: int, j: int|
        0 <= i < names.len() && 0 <= j < names.len() && i != j implies names[i] != names[j] by {
        let (low, high) = if i < j {
            (i, j)
        } else {
            (j, i)
        };
        assert(name_problem(names)(high) is None);
        assert(names.take(high)[low] == names[low]);
    }
    assert forall|k: int| 0 <= k < names.len() implies !is_blank(#[trigger] names[k]) by {
        assert(name_problem(names)(k) is None);
    }
    assert forall|k: int| 0 <= k < c.proxies.len() implies starts_with(
        (#[trigger] c.proxies[k]).url,
        "http://"@,
    ) || starts_with(c.proxies[k].url, "https://"@) by {
        assert(proxy_problem(c.proxies)(k) is None);
    }
    assert forall|k: int| 0 <= k < c.sidecars.len() implies !is_blank(
        (#[trigger] c.sidecars[k]).command,
    ) by {
        assert(sidecar_problem(c.sidecars)(k) is None);
    }
    let ssh = ssh_names(c.ssh);
    assert forall|i: int, j: int|
        0 <= i < ssh.len() && 0 <= j < ssh.len() && i != j implies ssh[i] != ssh[j] by {
        let (low, high) = if i < j {
            (i, j)
        } else {
            (j, i)
        };
        assert(ssh_problem(c.ssh)(high) is None);
        assert(ssh.take(high)[low] == ssh[low]);
    }
    assert forall|k: int| 0 <= k < c.ssh.len() implies !is_blank((#[trigger] c.ssh[k]).name)
        && !is_blank(c.ssh[k].host) && !is_blank(c.ssh[k].user) by {
        assert(ssh_problem(c.ssh)(k) is None);
    }
}

/// The defaults are a valid configuration.
pub proof fn lemma_default_config_is_valid()
    ensures
        validation_error(ConfigView::default_view()) is None,
{
    assert(backend_names(ConfigView::default_view()).len() == 0);
}

proof fn lemma_every_problem(n: int, problem: spec_fn(int) -> Option<Seq<char>>, i: int)
    requires
        forall|k: int| i <= k < n ==> #[trigger] problem(k) is None,
    ensures
        first_problem(n, problem, i) is None,
    decreases n - i,
{
    if i < n {
        assert(problem(i) is None);
        lemma_every_problem(n, problem, i + 1);
    }
}

/// Whether nothing is wrong with a configuration: at least one permit of each kind,
/// a default deadline within the maximum, names that are there and differ, over
/// proxies and sidecars alike, and what each backend cannot do without.
pub open spec fn is_sound(c: ConfigView) -> bool {
    &&& c.limits.max_concurrent_calls > 0
    &&& c.limits.max_concurrent_spawns > 0
    &&& c.limits.default_tool_timeout <= c.limits.max_tool_timeout
    &&& forall|i: int|
        0 <= i < c.proxies.len() ==> !is_blank((#[trigger] c.proxies[i]).name) && (starts_with(
            c.proxies[i].url,
            "http://"@,
        ) || starts_with(c.proxies[i].url, "https://"@))
    &&& forall|i: int|
        0 <= i < c.sidecars.len() ==> !is_blank((#[trigger] c.sidecars[i]).name) && !is_blank(
            c.sidecars[i].command,
        )
    &&& forall|i: int, j: int|
        0 <= i < j < c.proxies.len() ==> (#[trigger] c.proxies[i]).name != (
        #[trigger] c.proxies[j]).name
    &&& forall|i: int, j: int|
        0 <= i < j < c.sidecars.len() ==> (#[trigger] c.sidecars[i]).name != (
        #[trigger] c.sidecars[j]).name
    &&& forall|i: int, j: int|
        0 <= i < c.proxies.len() && 0 <= j < c.sidecars.len() ==> (#[trigger] c.proxies[i]).name
            != (#[trigger] c.sidecars[j]).name
    &&& forall|i: int|
        0 <= i < c.ssh.len() ==> !is_blank((#[trigger] c.ssh[i]).name) && !is_blank(
            c.ssh[i].host,
        ) && !is_blank(c.ssh[i].user)
    &&& forall|i: int, j: int|
        0 <= i < j < c.ssh.len() ==> (#[trigger] c.ssh[i]).name != (#[trigger] c.ssh[j]).name
}

/// A configuration passes exactly where nothing is wrong with it.
pub proof fn lemma_sound_configs_pass(c: ConfigView)
    ensures
        validation_error(c) is None <==> is_sound(c),
{
    let names = backend_names(c);
    let p = c.proxies.len() as int;
    if validation_error(c) is None {
        lemma_valid_config(c);
        assert forall|i: int| 0 <= i < c.proxies.len() implies !is_blank(
            (#[trigger] c.proxies[i]).name,
        ) && (starts_with(c.proxies[i].url, "http://"@) || starts_with(
            c.proxies[i].url,
            "https://"@,
        )) by {
            assert(names[i] == c.proxies[i].name);
        }
        assert forall|i: int| 0 <= i < c.sidecars.len() implies !is_blank(
            (#[trigger] c.sidecars[i]).name,
        ) && !is_blank(c.sidecars[i].command) by {
            assert(names[p + i] == c.sidecars[i].name);
        }
        assert forall|i: int, j: int| 0 <= i < j < c.proxies.len() implies (
        #[trigger] c.proxies[i]).name != (#[trigger] c.proxies[j]).name by {
            assert(names[i] == c.proxies[i].name && names[j] == c.proxies[j].name);
        }
        assert forall|i: int, j: int| 0 <= i < j < c.sidecars.len() implies (
        #[trigger] c.sidecars[i]).name != (#[trigger] c.sidecars[j]).name by {
            assert(names[p + i] == c.sidecars[i].name && names[p + j] == c.sidecars[j].name);
        }
        assert forall|i: int, j: int| 0 <= i < c.proxies.len() && 0 <= j < c.sidecars.len() implies (
        #[trigger] c.proxies[i]).name != (#[trigger] c.sidecars[j]).name by {
            assert(names[i] == c.proxies[i].name && names[p + j] == c.sidecars[j].name);
        }
        let ssh = ssh_names(c.ssh);
        assert forall|i: int, j: int| 0 <= i < j < c.ssh.len() implies (#[trigger] c.ssh[i]).name
            != (#[trigger] c.ssh[j]).name by {
            assert(ssh[i] == c.ssh[i].name && ssh[j] == c.ssh[j].name);
        }
    }
    if is_sound(c) {
        assert forall|k: int| 0 <= k < names.len() implies #[trigger] name_problem(names)(
            k,
        ) is None by {
            if k < p {
                assert(names[k] == c.proxies[k].name);
            } else {
                assert(names[k] == c.sidecars[k - p].name);
            }
            if names.take(k).contains(names[k]) {
                let j = choose|j: int| 0 <= j < k && names.take(k)[j] == names[k];
                assert(names[j] == names[k]);
                if j < p {
                    assert(names[j] == c.proxies[j].name);
                } else {
                    assert(names[j] == c.sidecars[j - p].name);
                }
            }
        }
        lemma_every_problem(names.len() as int, name_problem(names), 0);
        assert forall|k: int| 0 <= k < c.proxies.len() implies #[trigger] proxy_problem(c.proxies)(
            k,
        ) is None by {
            assert(c.proxies[k].url == c.proxies[k].url);
        }
        lemma_every_problem(c.proxies.len() as int, proxy_problem(c.proxies), 0);
        assert forall|k: int| 0 <= k < c.sidecars.len() implies #[trigger] sidecar_problem(
            c.sidecars,
        )(k) is None by {
            assert(!is_blank(c.sidecars[k].command));
        }
        lemma_every_problem(c.sidecars.len() as int, sidecar_problem(c.sidecars), 0);
        let ssh = ssh_names(c.ssh);
        assert forall|k: int| 0 <= k < c.ssh.len() implies #[trigger] ssh_problem(c.ssh)(
            k,
        ) is None by {
            assert(!is_blank(c.ssh[k].name));
            if ssh.take(k).contains(c.ssh[k].name) {
                let j = choose|j: int| 0 <= j < k && ssh.take(k)[j] == c.ssh[k].name;
                assert(c.ssh[j].name == c.ssh[k].name);
            }
        }
        lemma_every_problem(c.ssh.len() as int, ssh_problem(c.ssh), 0);
    }
}

/// The first thing that is wrong is told, and it is told of what it is wrong: a name
/// that is taken twice, an address, or a command or a host that is missing, each with
/// the name that it belongs to.
pub proof fn lemma_problems_are_told(c: ConfigView, i: int)
    ensures
        0 <= i < backend_names(c).len() && !is_blank(backend_names(c)[i]) ==> (name_problem(
            backend_names(c),
        )(i) matches Some(message) ==> contains(message, debug_text(backend_names(c)[i]))),
        0 <= i < c.proxies.len() ==> (proxy_problem(c.proxies)(i) matches Some(message)
            ==> contains(message, debug_text(c.proxies[i].name)) && contains(
            message,
            debug_text(c.proxies[i].url),
        )),
        0 <= i < c.sidecars.len() ==> (sidecar_problem(c.sidecars)(i) matches Some(message)
            ==> contains(message, debug_text(c.sidecars[i].name))),
        0 <= i < c.ssh.len() && !is_blank(c.ssh[i].name) ==> (ssh_problem(c.ssh)(i) matches Some(
            message,
        ) ==> contains(message, debug_text(c.ssh[i].name))),
{
    let none = Seq::<char>::empty();
    if 0 <= i < backend_names(c).len() {
        let name = debug_text(backend_names(c)[i]);
        let front = "duplicate backend name "@;
        lemma_contains(front, name, none);
        assert(front + name + none =~= front + name);
    }
    if 0 <= i < c.proxies.len() {
        let name = debug_text(c.proxies[i].name);
        let url = debug_text(c.proxies[i].url);
        let tail = "; expected an http:// or https:// URL"@;
        let message = "proxy "@ + name + " has url "@ + url + tail;
        lemma_contains("proxy "@, name, " has url "@ + url + tail);
        assert("proxy "@ + name + (" has url "@ + url + tail) =~= message);
        lemma_contains("proxy "@ + name + " has url "@, url, tail);
    }
    if 0 <= i < c.sidecars.len() {
        lemma_contains("sidecar "@, debug_text(c.sidecars[i].name), " has an empty command"@);
    }
    if 0 <= i < c.ssh.len() {
        let name = debug_text(c.ssh[i].name);
        let front = "duplicate ssh server name "@;
        lemma_contains(front, name, none);
        assert(front + name + none =~= front + name);
        lemma_contains("ssh server "@, name, " has an empty host"@);
        lemma_contains("ssh server "@, name, " has an empty user"@);
    }
}

} // verus!
