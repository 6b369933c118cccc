//! The in-process backend: native tools.

use vstd::hash_map::StringHashMap;
use vstd::prelude::*;

use super::{BackendKind, BackendStatus};
use crate::config::model::{dup_ssh, Config, ConfigView, SshServerConfig, SshServerConfigView};
use crate::error::{ToolError, ToolErrorView, ToolResult};
use crate::protocol::mcp::{dup_tools, Tool, ToolView};
use crate::text::{listed, opt_view, views};
use crate::time::Duration;
use crate::tools::context::{resolved_roots, ToolContextView};
use crate::tools::{all, all_with_ssh, native_groups, NativeGroup, NativeGroupView, ToolContext};

verus! {

/// The native tools, by the group that implements them.
pub struct NativeBackend {
    groups: Vec<NativeGroup>,
    /// Tool name to the index of the group that implements it, resolved once at
    /// construction.
    routes: StringHashMap<usize>,
    descriptors: Vec<Tool>,
    context: ToolContext,
}

/// What a [`NativeBackend`] holds.
#[verifier::ext_equal]
pub struct NativeBackendView {
    pub groups: Seq<NativeGroupView>,
    pub routes: Map<Seq<char>, usize>,
    pub descriptors: Seq<ToolView>,
    pub context: ToolContextView,
}

impl View for NativeBackend {
    type V = NativeBackendView;

    closed spec fn view(&self) -> NativeBackendView {
        NativeBackendView {
            groups: views(self.groups@),
            routes: self.routes@,
            descriptors: views(self.descriptors@),
            context: self.context@,
        }
    }
}

/// Routes with the names of tools leading to a group.
pub open spec fn with_names(
    routes: Map<Seq<char>, usize>,
    tools: Seq<ToolView>,
    group: usize,
) -> Map<Seq<char>, usize>
    decreases tools.len(),
{
    if tools.len() == 0 {
        routes
    } else {
        with_names(routes, tools.drop_last(), group).insert(tools.last().name, group)
    }
}

/// Which group each name leads to.
pub open spec fn native_routes(groups: Seq<NativeGroupView>) -> Map<Seq<char>, usize>
    decreases groups.len(),
{
    if groups.len() == 0 {
        Map::empty()
    } else {
        with_names(
            native_routes(groups.drop_last()),
            groups.last().descriptors(),
            (groups.len() - 1) as usize,
        )
    }
}

/// What groups advertise, one after the other.
pub open spec fn native_descriptors(groups: Seq<NativeGroupView>) -> Seq<ToolView>
    decreases groups.len(),
{
    if groups.len() == 0 {
        seq![]
    } else {
        native_descriptors(groups.drop_last()) + groups.last().descriptors()
    }
}

/// The backend over groups.
pub open spec fn native_backend(
    groups: Seq<NativeGroupView>,
    context: ToolContextView,
) -> NativeBackendView {
    NativeBackendView {
        groups,
        routes: native_routes(groups),
        descriptors: native_descriptors(groups),
        context,
    }
}

/// The names that occur among earlier tools already, in order.
pub open spec fn repeated_names(tools: Seq<ToolView>) -> Seq<Seq<char>>
    decreases tools.len(),
{
    if tools.len() == 0 {
        seq![]
    } else {
        let front = tools.drop_last();
        if exists|i: int| 0 <= i < front.len() && (#[trigger] front[i]).name == tools.last().name {
            repeated_names(front).push(tools.last().name)
        } else {
            repeated_names(front)
        }
    }
}

/// Whether a backend serves the native tools of a configuration. `canonical`
/// says, allowed root by allowed root, what the filesystem resolves it to.
pub open spec fn is_native_backend(
    backend: NativeBackendView,
    config: ConfigView,
    canonical: Seq<Option<String>>,
) -> bool {
    &&& backend == native_backend(native_groups(config.ssh), backend.context)
    &&& backend.context.policy == config.tools
    &&& backend.context.roots == resolved_roots(
        config.tools.allowed_roots,
        canonical.map_values(|c: Option<String>| opt_view(c)),
    )
}

impl NativeBackend {
    #[verifier::type_invariant]
    spec fn inv(self) -> bool {
        &&& self.routes@ == native_routes(views(self.groups@))
        &&& self.groups@.len() <= usize::MAX
    }

    /// The backend over groups of tools.
    pub fn new(groups: Vec<NativeGroup>, context: ToolContext) -> (r: NativeBackend)
        ensures
            r@ == native_backend(views(groups@), context@),
    {
        let ghost all = views(groups@);
        let mut routes = StringHashMap::<usize>::new();
        let mut descriptors: Vec<Tool> = Vec::new();
        let mut i: usize = 0;
        proof {
            assert(all.take(0) =~= seq![]);
            assert(routes@ =~= native_routes(all.take(0)));
            assert(views(descriptors@) =~= native_descriptors(all.take(0)));
        }
        while i < groups.len()
            invariant
                0 <= i <= groups.len(),
                all == views(groups@),
                routes@ == native_routes(all.take(i as int)),
                views(descriptors@) == native_descriptors(all.take(i as int)),
            decreases groups@.len() - i,
        {
            let mut tools = groups[i].descriptors();
            let ghost offered = views(tools@);
            let ghost before = routes@;
            let mut k: usize = 0;
            assert(offered.take(0) =~= seq![]);
            while k < tools.len()
                invariant
                    0 <= k <= tools@.len(),
                    offered == views(tools@),
                    routes@ == with_names(before, offered.take(k as int), i),
                decreases tools@.len() - k,
            {
                proof {
                    assert(offered.take(k + 1).drop_last() =~= offered.take(k as int));
                    assert(offered.take(k + 1).last() == tools@[k as int]@);
                }
                routes.insert(tools[k].name.clone(), i);
                k += 1;
            }
            let ghost listed_before = descriptors@;
            let ghost fresh = tools@;
            descriptors.append(&mut tools);
            proof {
                assert(offered.take(k as int) =~= offered);
                assert(views(descriptors@) =~= views(listed_before) + views(fresh));
                assert(all.take(i + 1).drop_last() =~= all.take(i as int));
                assert(all.take(i + 1).last() == groups@[i as int]@);
            }
            i += 1;
        }
        assert(all.take(i as int) =~= all);
        NativeBackend { groups, routes, descriptors, context }
    }

    /// The backend over every native tool that needs no configuration.
    pub fn with_defaults(context: ToolContext) -> (r: NativeBackend)
        ensures
            r@ == native_backend(native_groups(seq![]), context@),
    {
        NativeBackend::new(all(), context)
    }

    /// The backend over every native tool, with those on SSH servers.
    pub fn with_ssh(ssh_configs: Vec<SshServerConfig>, context: ToolContext) -> (r: NativeBackend)
        ensures
            r@ == native_backend(native_groups(views(ssh_configs@)), context@),
    {
        NativeBackend::new(all_with_ssh(ssh_configs), context)
    }

    /// The backend of a configuration. `canonical` says, root by root, what the
    /// filesystem resolves it to.
    pub fn from_config(config: &Config, canonical: &Vec<Option<String>>) -> (r: NativeBackend)
        ensures
            is_native_backend(r@, config@, canonical@),
    {
        let context = ToolContext::new(config.tools.dup(), canonical);
        NativeBackend::with_ssh(dup_ssh(&config.ssh), context)
    }

    /// Whether a tool is one of these.
    pub fn handles(&self, tool: &str) -> (r: bool)
        ensures
            r == self@.routes.contains_key(tool@),
    {
        self.routes.contains_key(tool)
    }

    /// How the backend is called.
    pub fn name(&self) -> (r: &'static str)
        ensures
            r@ == "native"@,
    {
        "native"
    }

    /// What kind of backend this is.
    pub fn kind(&self) -> (r: BackendKind)
        ensures
            r == BackendKind::Native,
    {
        BackendKind::Native
    }

    /// What the backend advertises.
    pub fn list_tools(&self) -> (r: Vec<Tool>)
        ensures
            views(r@) == self@.descriptors,
    {
        dup_tools(&self.descriptors)
    }

    /// The group that implements a tool.
    pub fn group_of(&self, tool: &str) -> (r: ToolResult<&NativeGroup>)
        ensures
            match r {
                Ok(group) => self@.routes.contains_key(tool@) && group@
                    == self@.groups[self@.routes[tool@] as int],
                Err(err) => !self@.routes.contains_key(tool@) && err@
                    == ToolErrorView::NotFound(tool@),
            },
    {
        match self.routes.get(tool) {
            Some(index) => {
                proof {
                    use_type_invariant(self);
                    lemma_routes_lead_to_groups(self@.groups, tool@);
                }
                Ok(&self.groups[*index])
            },
            None => Err(ToolError::NotFound(tool.to_owned())),
        }
    }

    /// The context that the tools run in.
    pub fn context(&self) -> (r: &ToolContext)
        ensures
            r@ == self@.context,
    {
        &self.context
    }

    /// The names that more than one tool goes by.
    pub fn collisions(&self) -> (r: Vec<String>)
        ensures
            views(r@) == repeated_names(self@.descriptors),
    {
        let ghost all = views(self.descriptors@);
        let mut seen: Vec<String> = Vec::new();
        let mut out: Vec<String> = Vec::new();
        let mut i: usize = 0;
        assert(all.take(0) =~= seq![]);
        assert(views(out@) =~= repeated_names(all.take(0)));
        while i < self.descriptors.len()
            invariant
                0 <= i <= self.descriptors@.len(),
                all == views(self.descriptors@),
                seen@.len() == i,
                forall|k: int| 0 <= k < i ==> (#[trigger] seen@[k])@ == all[k].name,
                views(out@) == repeated_names(all.take(i as int)),
            decreases self.descriptors@.len() - i,
        {
            let name = &self.descriptors[i].name;
            let ghost before = out@;
            let ghost front = all.take(i as int);
            proof {
                assert(all.take(i + 1).drop_last() =~= front);
                assert(all.take(i + 1).last() == self.descriptors@[i as int]@);
            }
            if listed(&seen, name) {
                out.push(name.clone());
                proof {
                    let k = views(seen@).index_of(name@);
                    assert(seen@[k]@ == name@);
                    assert(front[k].name == name@);
                    assert(views(out@) =~= views(before).push(name@));
                }
            } else {
                proof {
                    assert forall|k: int| 0 <= k < front.len() implies (#[trigger] front[k]).name
                        != name@ by {
                        assert(views(seen@)[k] == seen@[k]@);
                        assert(views(seen@).contains(seen@[k]@));
                    }
                }
            }
            seen.push(name.clone());
            i += 1;
        }
        assert(all.take(i as int) =~= all);
        out
    }

    /// The native tools are always there.
    pub fn status(&self) -> (r: BackendStatus)
        ensures
            r@ is Ready,
    {
        BackendStatus::Ready
    }
}

/// The error for a tool that took too long.
pub fn timed_out(tool: &str, timeout: &Duration) -> (r: ToolError)
    ensures
        r@ == (ToolErrorView::Timeout { tool: tool@, seconds: (timeout@ / 1000) as u64 }),
{
    ToolError::Timeout { tool: tool.to_owned(), seconds: timeout.as_secs() }
}

// ---------------------------------------------------------------------------
// Laws

proof fn lemma_with_names(routes: Map<Seq<char>, usize>, tools: Seq<ToolView>, group: usize)
    ensures
        forall|name: Seq<char>|
            #![trigger with_names(routes, tools, group).contains_key(name)]
            with_names(routes, tools, group).contains_key(name) <==> routes.contains_key(name)
                || exists|k: int| 0 <= k < tools.len() && (#[trigger] tools[k]).name == name,
        forall|name: Seq<char>|
            #![trigger with_names(routes, tools, group)[name]]
            with_names(routes, tools, group).contains_key(name) ==> with_names(
                routes,
                tools,
                group,
            )[name] == if exists|k: int| 0 <= k < tools.len() && (#[trigger] tools[k]).name == name {
                group
            } else {
                routes[name]
            },
    decreases tools.len(),
{
    if tools.len() > 0 {
        let front = tools.drop_last();
        lemma_with_names(routes, front, group);
        let after = with_names(routes, tools, group);
        assert forall|name: Seq<char>|
            #![trigger after.contains_key(name)]
            after.contains_key(name) <==> routes.contains_key(name) || exists|k: int|
                0 <= k < tools.len() && (#[trigger] tools[k]).name == name by {
            lemma_named_front(tools, name);
            assert(with_names(routes, front, group).contains_key(name) == (routes.contains_key(name)
                || exists|k: int| 0 <= k < front.len() && (#[trigger] front[k]).name == name));
        }
        assert forall|name: Seq<char>|
            #![trigger after[name]]
            after.contains_key(name) implies after[name] == if exists|k: int|
            0 <= k < tools.len() && (#[trigger] tools[k]).name == name {
            group
        } else {
            routes[name]
        } by {
            lemma_named_front(tools, name);
            if tools.last().name != name {
                assert(with_names(routes, front, group).contains_key(name));
                assert(with_names(routes, front, group)[name] == after[name]);
            }
        }
    }
}

proof fn lemma_named_front(tools: Seq<ToolView>, name: Seq<char>)
    requires
        tools.len() > 0,
    ensures
        (exists|k: int| 0 <= k < tools.len() && (#[trigger] tools[k]).name == name)
            <==> tools.last().name == name || exists|k: int|
            0 <= k < tools.drop_last().len() && (#[trigger] tools.drop_last()[k]).name == name,
{
    let front = tools.drop_last();
    if tools.last().name == name {
        assert(tools[tools.len() - 1].name == name);
    }
    if exists|k: int| 0 <= k < front.len() && (#[trigger] front[k]).name == name {
        let k = choose|k: int| 0 <= k < front.len() && (#[trigger] front[k]).name == name;
        assert(tools[k].name == name);
    }
    if exists|k: int| 0 <= k < tools.len() && (#[trigger] tools[k]).name == name {
        let k = choose|k: int| 0 <= k < tools.len() && (#[trigger] tools[k]).name == name;
        if k < front.len() {
            assert(front[k].name == name);
        }
    }
}

/// Every name that is routed leads to a group that advertises it.
pub proof fn lemma_routes_lead_to_groups(groups: Seq<NativeGroupView>, name: Seq<char>)
    requires
        groups.len() <= usize::MAX,
    ensures
        native_routes(groups).contains_key(name) ==> {
            let index = native_routes(groups)[name];
            index < groups.len() && exists|k: int|
                0 <= k < groups[index as int].descriptors().len() && (
                #[trigger] groups[index as int].descriptors()[k]).name == name
        },
    decreases groups.len(),
{
    if groups.len() > 0 {
        let front = groups.drop_last();
        let last = groups.last();
        lemma_routes_lead_to_groups(front, name);
        lemma_with_names(
            native_routes(front),
            last.descriptors(),
            (groups.len() - 1) as usize,
        );
        if native_routes(groups).contains_key(name) {
            let index = native_routes(groups)[name];
            if exists|k: int|
                0 <= k < last.descriptors().len() && (#[trigger] last.descriptors()[k]).name
                    == name {
                assert(groups[index as int] == last);
            } else {
                assert(native_routes(front).contains_key(name));
                assert(groups[index as int] == front[index as int]);
            }
        }
    }
}

/// Routing membership matches the advertised set: a name is routed exactly where
/// a tool that is advertised goes by it.
pub proof fn lemma_routes_match_descriptors(groups: Seq<NativeGroupView>, name: Seq<char>)
    ensures
        native_routes(groups).contains_key(name) <==> exists|k: int|
            0 <= k < native_descriptors(groups).len() && (#[trigger] native_descriptors(
                groups,
            )[k]).name == name,
    decreases groups.len(),
{
    if groups.len() > 0 {
        let front = groups.drop_last();
        let last = groups.last().descriptors();
        let before = native_descriptors(front);
        let whole = native_descriptors(groups);
        lemma_routes_match_descriptors(front, name);
        lemma_with_names(native_routes(front), last, (groups.len() - 1) as usize);
        assert(native_routes(groups).contains_key(name) == (native_routes(front).contains_key(name)
            || exists|k: int| 0 <= k < last.len() && (#[trigger] last[k]).name == name));
        if exists|k: int| 0 <= k < before.len() && (#[trigger] before[k]).name == name {
            let k = choose|k: int| 0 <= k < before.len() && (#[trigger] before[k]).name == name;
            assert(whole[k].name == name);
        }
        if exists|k: int| 0 <= k < last.len() && (#[trigger] last[k]).name == name {
            let k = choose|k: int| 0 <= k < last.len() && (#[trigger] last[k]).name == name;
            assert(whole[before.len() + k].name == name);
        }
        if exists|k: int| 0 <= k < whole.len() && (#[trigger] whole[k]).name == name {
            let k = choose|k: int| 0 <= k < whole.len() && (#[trigger] whole[k]).name == name;
            if k < before.len() {
                assert(before[k].name == name);
            } else {
                assert(last[k - before.len()].name == name);
            }
        }
    }
}

/// The names of the native tools, in the order in which they are advertised.
pub open spec fn native_names(with_ssh: bool) -> Seq<Seq<char>> {
    let always = seq![
        "diff_text"@,
        "diff_json"@,
        "regex_match"@,
        "count_stats"@,
        "grep_search"@,
        "hex_view"@,
        "hex_patch"@,
        "read_resx"@,
        "write_resx_entry"@,
        "everything_search"@,
        "eval_code"@,
    ];
    if with_ssh {
        always + seq!["ssh_execute"@, "ssh_list_servers"@]
    } else {
        always
    }
}

/// Where a native tool stands among the others, told from its name.
spec fn place_of(name: Seq<char>) -> int {
    if name.len() == 9 {
        if name[0] == 'd' && name[5] == 't' {
            0
        } else if name[0] == 'd' {
            1
        } else if name[0] == 'h' {
            6
        } else if name[0] == 'r' {
            7
        } else {
            10
        }
    } else if name.len() == 11 {
        if name[0] == 'r' {
            2
        } else if name[0] == 'c' {
            3
        } else if name[0] == 'g' {
            4
        } else {
            11
        }
    } else if name.len() == 8 {
        5
    } else if name.len() == 17 {
        9
    } else if name[0] == 'w' {
        8
    } else {
        12
    }
}

proof fn lemma_places(with_ssh: bool, i: int)
    requires
        0 <= i < native_names(with_ssh).len(),
    ensures
        place_of(native_names(with_ssh)[i]) == i,
{
    reveal_strlit("diff_text");
    reveal_strlit("diff_json");
    reveal_strlit("regex_match");
    reveal_strlit("count_stats");
    reveal_strlit("grep_search");
    reveal_strlit("hex_view");
    reveal_strlit("hex_patch");
    reveal_strlit("read_resx");
    reveal_strlit("write_resx_entry");
    reveal_strlit("everything_search");
    reveal_strlit("eval_code");
    reveal_strlit("ssh_execute");
    reveal_strlit("ssh_list_servers");
}

/// What is advertised are the tools of every group, under their names and in order,
/// those for other machines only where one is configured.
pub proof fn lemma_advertised_names(configs: Seq<SshServerConfigView>)
    ensures
        ({
            let tools = native_descriptors(native_groups(configs));
            let names = native_names(crate::tools::ssh::configured(configs).servers.len() > 0);
            tools.len() == names.len() && forall|k: int|
                0 <= k < tools.len() ==> (#[trigger] tools[k]).name == names[k]
        }),
{
    let groups = native_groups(configs);
    assert(groups[0] == NativeGroupView::Text && groups[1] == NativeGroupView::Fs);
    assert(groups[2] == NativeGroupView::Hex && groups[3] == NativeGroupView::Resx);
    assert(groups[4] == NativeGroupView::Search && groups[5] == NativeGroupView::Eval);
    assert(groups.take(0) =~= seq![]);
    assert(native_descriptors(groups.take(0)) =~= seq![]);
    assert(groups.take(1).drop_last() =~= groups.take(0));
    assert(groups.take(2).drop_last() =~= groups.take(1));
    assert(groups.take(3).drop_last() =~= groups.take(2));
    assert(groups.take(4).drop_last() =~= groups.take(3));
    assert(groups.take(5).drop_last() =~= groups.take(4));
    assert(groups.take(6).drop_last() =~= groups.take(5));
    assert(groups.take(1).last() == groups[0] && groups.take(2).last() == groups[1]);
    assert(groups.take(3).last() == groups[2] && groups.take(4).last() == groups[3]);
    assert(groups.take(5).last() == groups[4] && groups.take(6).last() == groups[5]);
    assert(native_descriptors(groups.take(1)).len() == 4);
    assert(native_descriptors(groups.take(2)).len() == 5);
    assert(native_descriptors(groups.take(3)).len() == 7);
    assert(native_descriptors(groups.take(4)).len() == 9);
    assert(native_descriptors(groups.take(5)).len() == 10);
    assert(native_descriptors(groups.take(6)).len() == 11);
    if groups.len() == 7 {
        assert(groups.drop_last() =~= groups.take(6));
    } else {
        assert(groups.take(6) =~= groups);
    }
}

/// The native tools have names of their own: no two that are advertised, with or
/// without SSH servers, go by one name.
pub proof fn lemma_native_names_are_unique(configs: Seq<SshServerConfigView>, i: int, j: int)
    requires
        0 <= i < j < native_descriptors(native_groups(configs)).len(),
    ensures
        native_descriptors(native_groups(configs))[i].name != native_descriptors(
            native_groups(configs),
        )[j].name,
{
    lemma_advertised_names(configs);
    let with_ssh = crate::tools::ssh::configured(configs).servers.len() > 0;
    lemma_places(with_ssh, i);
    lemma_places(with_ssh, j);
}

/// A name is reported as taken twice exactly where two tools have it.
pub proof fn lemma_repeated_names(tools: Seq<ToolView>, name: Seq<char>)
    ensures
        repeated_names(tools).contains(name) <==> exists|i: int, j: int|
            0 <= i < j < tools.len() && (#[trigger] tools[i]).name == name && (
            #[trigger] tools[j]).name == name,
    decreases tools.len(),
{
    let found = repeated_names(tools);
    if tools.len() > 0 {
        let front = tools.drop_last();
        let last = tools.last();
        let end = tools.len() - 1;
        let before = repeated_names(front);
        lemma_repeated_names(front, name);
        assert(tools[end] == last);
        if found.contains(name) {
            let p = choose|p: int| 0 <= p < found.len() && found[p] == name;
            if p < before.len() {
                assert(before[p] == name);
                assert(before.contains(name));
                let (i, j) = choose|i: int, j: int|
                    0 <= i < j < front.len() && (#[trigger] front[i]).name == name && (
                    #[trigger] front[j]).name == name;
                assert(tools[i] == front[i] && tools[j] == front[j]);
            } else {
                let i = choose|i: int| 0 <= i < front.len() && (#[trigger] front[i]).name == last.name;
                assert(tools[i].name == name && tools[end].name == name);
            }
        }
        if exists|i: int, j: int|
            0 <= i < j < tools.len() && (#[trigger] tools[i]).name == name && (
            #[trigger] tools[j]).name == name {
            let (i, j) = choose|i: int, j: int|
                0 <= i < j < tools.len() && (#[trigger] tools[i]).name == name && (
                #[trigger] tools[j]).name == name;
            assert(front[i] == tools[i]);
            if j < end {
                assert(front[j] == tools[j]);
                assert(before.contains(name));
                let p = choose|p: int| 0 <= p < before.len() && before[p] == name;
                assert(found[p] == name);
            } else {
                assert(found[found.len() - 1] == name);
            }
        }
    }
}

/// The tools of a backend are those of its groups, group by group; one more group
/// adds its own at the end, and its names lead to it.
pub proof fn lemma_groups_add_up(
    groups: Seq<NativeGroupView>,
    group: NativeGroupView,
    name: Seq<char>,
)
    requires
        groups.len() < usize::MAX,
    ensures
        native_descriptors(groups.push(group)) == native_descriptors(groups) + group.descriptors(),
        native_descriptors(seq![]) == Seq::<ToolView>::empty(),
        (exists|k: int|
            0 <= k < group.descriptors().len() && (#[trigger] group.descriptors()[k]).name == name)
            ==> native_routes(groups.push(group)).contains_key(name) && native_routes(
            groups.push(group),
        )[name] == groups.len(),
        !(exists|k: int|
            0 <= k < group.descriptors().len() && (#[trigger] group.descriptors()[k]).name == name)
            ==> {
            &&& native_routes(groups.push(group)).contains_key(name) <==> native_routes(
                groups,
            ).contains_key(name)
            &&& native_routes(groups).contains_key(name) ==> native_routes(groups.push(group))[name]
                == native_routes(groups)[name]
        },
{
    let all = groups.push(group);
    assert(all.drop_last() =~= groups);
    lemma_names_are_added(native_routes(groups), group.descriptors(), groups.len() as usize, name);
}

proof fn lemma_names_are_added(
    routes: Map<Seq<char>, usize>,
    tools: Seq<ToolView>,
    group: usize,
    name: Seq<char>,
)
    ensures
        (exists|k: int| 0 <= k < tools.len() && (#[trigger] tools[k]).name == name) ==> with_names(
            routes,
            tools,
            group,
        ).contains_key(name) && with_names(routes, tools, group)[name] == group,
        !(exists|k: int| 0 <= k < tools.len() && (#[trigger] tools[k]).name == name) ==> {
            &&& with_names(routes, tools, group).contains_key(name) <==> routes.contains_key(name)
            &&& routes.contains_key(name) ==> with_names(routes, tools, group)[name] == routes[name]
        },
    decreases tools.len(),
{
    if tools.len() > 0 {
        let front = tools.drop_last();
        let end = tools.len() - 1;
        lemma_names_are_added(routes, front, group, name);
        assert(tools[end] == tools.last());
        if exists|k: int| 0 <= k < tools.len() && (#[trigger] tools[k]).name == name {
            let k = choose|k: int| 0 <= k < tools.len() && (#[trigger] tools[k]).name == name;
            if k < end {
                assert(front[k] == tools[k]);
            }
        } else if exists|k: int| 0 <= k < front.len() && (#[trigger] front[k]).name == name {
            let k = choose|k: int| 0 <= k < front.len() && (#[trigger] front[k]).name == name;
            assert(tools[k] == front[k]);
        }
    }
}

/// A backend is made of its groups: it handles the tools that they advertise, hands a
/// call to a group that advertises the tool, and keeps its context.
pub proof fn lemma_backend_is_its_groups(
    groups: Seq<NativeGroupView>,
    context: ToolContextView,
    name: Seq<char>,
)
    requires
        groups.len() <= usize::MAX,
    ensures
        ({
            let backend = native_backend(groups, context);
            &&& backend.groups == groups
            &&& backend.context == context
            &&& backend.descriptors == native_descriptors(groups)
            &&& backend.routes.contains_key(name) <==> exists|k: int|
                0 <= k < backend.descriptors.len() && (#[trigger] backend.descriptors[k]).name
                    == name
            &&& backend.routes.contains_key(name) ==> {
                let index = backend.routes[name];
                index < groups.len() && exists|k: int|
                    0 <= k < groups[index as int].descriptors().len() && (
                    #[trigger] groups[index as int].descriptors()[k]).name == name
            }
        }),
{
    lemma_routes_lead_to_groups(groups, name);
    lemma_routes_match_descriptors(groups, name);
}

/// A backend that is made of a configuration has its policy, its roots, and a group for
/// each kind of tool that it switches on.
pub proof fn lemma_native_backend_of(
    backend: NativeBackendView,
    config: ConfigView,
    canonical: Seq<Option<String>>,
)
    requires
        is_native_backend(backend, config, canonical),
    ensures
        backend.context.policy.allow_code_execution == config.tools.allow_code_execution,
        backend.context.policy.allow_ssh == config.tools.allow_ssh,
        backend.context.policy.allow_file_mutation == config.tools.allow_file_mutation,
        backend.context.policy.max_file_bytes == config.tools.max_file_bytes,
        backend.context.roots.len() == config.tools.allowed_roots.len(),
        backend.groups == native_groups(config.ssh),
        backend.descriptors == native_descriptors(backend.groups),
        backend.routes == native_routes(backend.groups),
{
}

} // verus!
