//! The tool routing table.
//!
//! Discovery asks every backend what it serves and records, per advertised tool
//! name, exactly which backend owns it, so that a call reaches that backend and
//! no other.

use vstd::hash_map::StringHashMap;
use vstd::hash_set::StringHashSet;
use vstd::prelude::*;

use crate::backend::{apply_prefix, prefixed, BackendInfo, BackendInfoView};
use crate::error::{ToolError, ToolErrorView, ToolResult};
use crate::json::{Json, JsonView};
use crate::protocol::mcp::{Tool, ToolView};
use crate::text::{cat2, opt_view, views};
use crate::time::Duration;

verus! {

/// What one backend said when it was asked for its tools.
pub struct Discovery {
    pub backend: BackendInfo,
    pub outcome: ToolResult<Vec<Tool>>,
}

/// What a [`Discovery`] says.
pub struct DiscoveryView {
    pub backend: BackendInfoView,
    pub outcome: Result<Seq<ToolView>, ToolErrorView>,
}

impl View for Discovery {
    type V = DiscoveryView;

    open spec fn view(&self) -> DiscoveryView {
        DiscoveryView {
            backend: self.backend@,
            outcome: match self.outcome {
                Ok(tools) => Ok(views(tools@)),
                Err(err) => Err(err@),
            },
        }
    }
}

/// A resolved snapshot of what every backend serves.
pub struct Routes {
    tools: Vec<Tool>,
    owners: StringHashMap<usize>,
    /// What each tool is called by the backend that owns it.
    locals: StringHashMap<String>,
    /// Tools whose schema we augmented with a `timeout` property, and from
    /// which that argument must therefore be stripped before dispatch.
    augmented: StringHashSet,
    /// Backends that failed discovery, with the reason, for `omni_status`.
    failures: Vec<(String, String)>,
}

/// What a [`Routes`] table says.
#[verifier::ext_equal]
pub struct RoutesView {
    pub tools: Seq<ToolView>,
    pub owners: Map<Seq<char>, usize>,
    pub locals: Map<Seq<char>, Seq<char>>,
    pub augmented: Set<Seq<char>>,
    pub failures: Seq<(Seq<char>, Seq<char>)>,
}

impl View for Routes {
    type V = RoutesView;

    closed spec fn view(&self) -> RoutesView {
        RoutesView {
            tools: views(self.tools@),
            owners: self.owners@,
            locals: self.locals@.map_values(|local: String| local@),
            augmented: self.augmented@,
            failures: views(self.failures@),
        }
    }
}

/// The schema of the optional `timeout` argument.
pub open spec fn timeout_schema() -> JsonView {
    JsonView::object().with("type"@, JsonView::Text("integer"@)).with(
        "description"@,
        JsonView::Text("Optional. Abort this call after this many seconds."@),
    )
}

/// A schema with the optional `timeout` argument, and whether it had to be
/// added: not where the schema is no object, where its properties are none, or
/// where it has such an argument of its own.
pub open spec fn with_timeout(schema: JsonView) -> (JsonView, bool) {
    if !(schema is Object) {
        (schema, false)
    } else {
        let properties = match schema.field("properties"@) {
            Some(p) => p,
            None => JsonView::object(),
        };
        if !(properties is Object) || properties.field("timeout"@) is Some || properties.field(
            "timeout_ms"@,
        ) is Some {
            (schema, false)
        } else {
            (
                schema.with("properties"@, properties.with("timeout"@, timeout_schema())),
                true,
            )
        }
    }
}

/// Arguments without the `timeout` that was added to the schema.
pub open spec fn without_timeout(args: JsonView) -> JsonView {
    args.without("timeout"@)
}

impl RoutesView {
    /// The table before any backend was asked.
    pub open spec fn empty() -> RoutesView {
        RoutesView {
            tools: seq![],
            owners: Map::empty(),
            locals: Map::empty(),
            augmented: Set::empty(),
            failures: seq![],
        }
    }

    /// The table with one more tool of the backend `index`; a name that is
    /// taken stays with the backend that has it.
    pub open spec fn with_tool(self, index: usize, prefix: Option<Seq<char>>, tool: ToolView) -> RoutesView {
        let name = prefixed(prefix, tool.name);
        if self.owners.contains_key(name) {
            self
        } else {
            let (schema, added) = with_timeout(tool.input_schema);
            RoutesView {
                tools: self.tools.push(ToolView { name, input_schema: schema, ..tool }),
                owners: self.owners.insert(name, index),
                locals: self.locals.insert(name, tool.name),
                augmented: if added {
                    self.augmented.insert(name)
                } else {
                    self.augmented
                },
                failures: self.failures,
            }
        }
    }

    /// The table with all tools of the backend `index`, in order.
    pub open spec fn with_tools(
        self,
        index: usize,
        prefix: Option<Seq<char>>,
        tools: Seq<ToolView>,
    ) -> RoutesView
        decreases tools.len(),
    {
        if tools.len() == 0 {
            self
        } else {
            self.with_tools(index, prefix, tools.drop_last()).with_tool(
                index,
                prefix,
                tools.last(),
            )
        }
    }

    /// The table with what the backend `index` said.
    pub open spec fn with_discovery(self, index: usize, found: DiscoveryView) -> RoutesView {
        match found.outcome {
            Ok(tools) => self.with_tools(index, found.backend.prefix, tools),
            Err(err) => RoutesView {
                failures: self.failures.push((found.backend.name, err.message())),
                ..self
            },
        }
    }

    /// The table is consistent: a name has one owner exactly where it is
    /// advertised, which is once, the owner has a name of its own for it, and only
    /// advertised tools were augmented.
    pub open spec fn wf(self) -> bool {
        &&& self.locals.dom() == self.owners.dom()
        &&& forall|i: int|
            0 <= i < self.tools.len() ==> self.owners.contains_key(
                (#[trigger] self.tools[i]).name,
            )
        &&& forall|name: Seq<char>| #[trigger]
            self.owners.contains_key(name) ==> exists|i: int|
                0 <= i < self.tools.len() && (#[trigger] self.tools[i]).name == name
        &&& forall|i: int, j: int|
            0 <= i < j < self.tools.len() ==> (#[trigger] self.tools[i]).name != (
            #[trigger] self.tools[j]).name
        &&& forall|name: Seq<char>| #[trigger]
            self.augmented.contains(name) ==> self.owners.contains_key(name)
    }
}

/// The table that asking every backend gives.
pub open spec fn discovered(results: Seq<DiscoveryView>) -> RoutesView
    decreases results.len(),
{
    if results.len() == 0 {
        RoutesView::empty()
    } else {
        discovered(results.drop_last()).with_discovery(
            (results.len() - 1) as usize,
            results.last(),
        )
    }
}

/// Adds an optional `timeout` argument so a caller can bound a slow tool.
/// Returns whether the schema was actually modified.
pub fn ensure_timeout_property(tool: Tool) -> (r: (Tool, bool))
    ensures
        r.0@ == (ToolView { input_schema: with_timeout(tool@.input_schema).0, ..tool@ }),
        r.1 == with_timeout(tool@.input_schema).1,
{
    let tool = tool;
    match &tool.input_schema {
        Json::Object(_) => {},
        _ => {
            return (tool, false);
        },
    }
    let properties = match tool.input_schema.get("properties") {
        Some(p) => p.dup(),
        None => Json::object(),
    };
    match &properties {
        Json::Object(_) => {},
        _ => {
            return (tool, false);
        },
    }
    if properties.get("timeout").is_some() || properties.get("timeout_ms").is_some() {
        return (tool, false);
    }
    let properties = properties.with(
        "timeout",
        Json::object().with("type", Json::string("integer")).with(
            "description",
            Json::string("Optional. Abort this call after this many seconds."),
        ),
    );
    (
        Tool {
            name: tool.name,
            description: tool.description,
            input_schema: tool.input_schema.with("properties", properties),
            extra: tool.extra,
        },
        true,
    )
}

/// Removes the injected `timeout` argument so it is never forwarded to a
/// backend whose schema validation would reject an unknown property.
pub fn strip_injected_timeout(args: Json) -> (r: Json)
    ensures
        r@ == without_timeout(args@),
{
    args.without("timeout")
}

/// The error of a backend that did not list its tools in time.
pub fn discovery_timed_out(name: &str, timeout: &Duration) -> (r: ToolError)
    ensures
        r@ == (ToolErrorView::Timeout {
            tool: name@ + ":tools/list"@,
            seconds: (timeout@ / 1000) as u64,
        }),
{
    ToolError::Timeout { tool: cat2(name, ":tools/list"), seconds: timeout.as_secs() }
}

impl Routes {
    /// Whether a table of age `elapsed` has to be discovered again.
    pub fn is_stale(elapsed: &Duration, ttl: &Duration) -> (r: bool)
        ensures
            r == (elapsed@ >= ttl@),
    {
        !ttl.exceeds(elapsed)
    }

    /// The tools of all backends, as they are advertised.
    pub fn tools(&self) -> (r: &Vec<Tool>)
        ensures
            views(r@) == self@.tools,
    {
        &self.tools
    }

    /// The backend index serving `name`, if any.
    pub fn owner(&self, name: &str) -> (r: Option<usize>)
        ensures
            r == if self@.owners.contains_key(name@) {
                Some(self@.owners[name@])
            } else {
                None
            },
    {
        match self.owners.get(name) {
            Some(index) => Some(*index),
            None => None,
        }
    }

    /// What the backend serving `name` calls it.
    pub fn local_name(&self, name: &str) -> (r: Option<String>)
        ensures
            opt_view(r) == if self@.locals.contains_key(name@) {
                Some(self@.locals[name@])
            } else {
                None
            },
    {
        match self.locals.get(name) {
            Some(local) => Some(local.clone()),
            None => None,
        }
    }

    /// Whether the `timeout` argument of `name` is ours.
    pub fn was_augmented(&self, name: &str) -> (r: bool)
        ensures
            r == self@.augmented.contains(name@),
    {
        self.augmented.contains(name)
    }

    /// The backends that failed discovery, with the reason.
    pub fn failures(&self) -> (r: &Vec<(String, String)>)
        ensures
            views(r@) == self@.failures,
    {
        &self.failures
    }

    /// Assembles the table from what every backend said, in the order of the
    /// backends.
    ///
    /// A backend that failed or timed out is recorded and skipped; it never
    /// prevents the others from being listed, because a client that gets no
    /// tool list treats the whole gateway as broken.
    pub fn discover(results: Vec<Discovery>) -> (r: Routes)
        ensures
            r@ == discovered(views(results@)),
    {
        let mut table = Routes {
            tools: Vec::new(),
            owners: StringHashMap::new(),
            locals: StringHashMap::new(),
            augmented: StringHashSet::new(),
            failures: Vec::new(),
        };
        let ghost all = views(results@);
        proof {
            assert(table@.tools =~= seq![]);
            assert(table@.failures =~= seq![]);
            assert(table@.locals =~= Map::empty());
            assert(table@ =~= RoutesView::empty());
            assert(all.take(0) =~= seq![]);
        }
        let mut i: usize = 0;
        while i < results.len()
            invariant
                0 <= i <= results@.len(),
                all == views(results@),
                table@ == discovered(all.take(i as int)),
            decreases results@.len() - i,
        {
            proof {
                assert(all.take(i + 1).drop_last() =~= all.take(i as int));
                assert(all.take(i + 1).last() == results@[i as int]@);
            }
            match &results[i].outcome {
                Ok(tools) => {
                    table.absorb(i, &results[i].backend, tools);
                },
                Err(err) => {
                    let ghost before = table;
                    table.failures.push((results[i].backend.name.clone(), err.message()));
                    proof {
                        assert(views(table.failures@) =~= views(before.failures@).push(
                            (results@[i as int].backend.name@, err@.message()),
                        ));
                    }
                },
            }
            i += 1;
        }
        assert(all.take(i as int) =~= all);
        table
    }

    /// Takes in the tools of one backend.
    pub fn absorb(&mut self, index: usize, backend: &BackendInfo, tools: &Vec<Tool>)
        ensures
            final(self)@ == old(self)@.with_tools(index, backend@.prefix, views(tools@)),
    {
        let ghost start = self@;
        let ghost all = views(tools@);
        let mut i: usize = 0;
        assert(all.take(0) =~= seq![]);
        while i < tools.len()
            invariant
                0 <= i <= tools@.len(),
                all == views(tools@),
                self@ == start.with_tools(index, backend@.prefix, all.take(i as int)),
            decreases tools@.len() - i,
        {
            let ghost before = *self;
            proof {
                assert(all.take(i + 1).drop_last() =~= all.take(i as int));
                assert(all.take(i + 1).last() == tools@[i as int]@);
            }
            let prefix: Option<&str> = match &backend.prefix {
                Some(p) => Some(p.as_str()),
                None => None,
            };
            let advertised = apply_prefix(prefix, &tools[i].name);
            if !self.owners.contains_key(&advertised) {
                let (tool, added) = ensure_timeout_property(
                    tools[i].dup().with_name(advertised.clone()),
                );
                if added {
                    self.augmented.insert(advertised.clone());
                }
                self.locals.insert(advertised.clone(), tools[i].name.clone());
                self.owners.insert(advertised, index);
                self.tools.push(tool);
                proof {
                    assert(self@.locals =~= before@.locals.insert(
                        advertised@,
                        tools@[i as int]@.name,
                    ));
                    assert(views(self.tools@) =~= views(before.tools@).push(tool@));
                    assert(self@ =~= before@.with_tool(
                        index,
                        backend@.prefix,
                        tools@[i as int]@,
                    ));
                }
            }
            i += 1;
        }
        assert(all.take(i as int) =~= all);
    }
}

proof fn lemma_with_tool_wf(
    table: RoutesView,
    index: usize,
    prefix: Option<Seq<char>>,
    tool: ToolView,
)
    requires
        table.wf(),
    ensures
        table.with_tool(index, prefix, tool).wf(),
{
    let after = table.with_tool(index, prefix, tool);
    let name = prefixed(prefix, tool.name);
    if !table.owners.contains_key(name) {
        assert(after.locals.dom() =~= after.owners.dom());
        assert(after.tools.last().name == name);
        assert forall|n: Seq<char>| #[trigger] after.owners.contains_key(n) implies exists|i: int|
            0 <= i < after.tools.len() && (#[trigger] after.tools[i]).name == n by {
            if n == name {
                assert(after.tools[after.tools.len() - 1].name == n);
            } else {
                let i = choose|i: int|
                    0 <= i < table.tools.len() && (#[trigger] table.tools[i]).name == n;
                assert(after.tools[i].name == n);
            }
        }
        assert forall|i: int| 0 <= i < after.tools.len() implies after.owners.contains_key(
            (#[trigger] after.tools[i]).name,
        ) by {
            if i < table.tools.len() {
                assert(after.tools[i] == table.tools[i]);
            }
        }
        assert forall|i: int, j: int| 0 <= i < j < after.tools.len() implies (
        #[trigger] after.tools[i]).name != (#[trigger] after.tools[j]).name by {
            assert(after.tools[i] == table.tools[i]);
            if j < table.tools.len() {
                assert(after.tools[j] == table.tools[j]);
            }
        }
    }
}

proof fn lemma_with_tools_wf(
    table: RoutesView,
    index: usize,
    prefix: Option<Seq<char>>,
    tools: Seq<ToolView>,
)
    requires
        table.wf(),
    ensures
        table.with_tools(index, prefix, tools).wf(),
    decreases tools.len(),
{
    if tools.len() > 0 {
        lemma_with_tools_wf(table, index, prefix, tools.drop_last());
        lemma_with_tool_wf(
            table.with_tools(index, prefix, tools.drop_last()),
            index,
            prefix,
            tools.last(),
        );
    }
}

/// Whatever the backends say, the table is consistent: every advertised name
/// occurs once and has exactly one owner.
pub proof fn lemma_table_is_consistent(results: Seq<DiscoveryView>)
    ensures
        discovered(results).wf(),
    decreases results.len(),
{
    if results.len() > 0 {
        let before = discovered(results.drop_last());
        lemma_table_is_consistent(results.drop_last());
        match results.last().outcome {
            Ok(tools) => {
                lemma_with_tools_wf(
                    before,
                    (results.len() - 1) as usize,
                    results.last().backend.prefix,
                    tools,
                );
            },
            Err(_) => {
                assert(discovered(results).tools == before.tools);
            },
        }
    }
}

proof fn lemma_with_tools_keeps(
    table: RoutesView,
    index: usize,
    prefix: Option<Seq<char>>,
    tools: Seq<ToolView>,
    name: Seq<char>,
)
    requires
        table.owners.contains_key(name),
    ensures
        table.with_tools(index, prefix, tools).owners.contains_key(name),
        table.with_tools(index, prefix, tools).owners[name] == table.owners[name],
        table.with_tools(index, prefix, tools).locals[name] == table.locals[name],
    decreases tools.len(),
{
    if tools.len() > 0 {
        lemma_with_tools_keeps(table, index, prefix, tools.drop_last(), name);
    }
}

/// The first backend to claim a name keeps it, whatever the later ones say.
pub proof fn lemma_first_claim_wins(results: Seq<DiscoveryView>, later: DiscoveryView, name: Seq<char>)
    requires
        discovered(results).owners.contains_key(name),
    ensures
        discovered(results.push(later)).owners.contains_key(name),
        discovered(results.push(later)).owners[name] == discovered(results).owners[name],
        discovered(results.push(later)).locals[name] == discovered(results).locals[name],
{
    assert(results.push(later).drop_last() =~= results);
    match later.outcome {
        Ok(tools) => {
            lemma_with_tools_keeps(
                discovered(results),
                results.len() as usize,
                later.backend.prefix,
                tools,
                name,
            );
        },
        Err(_) => {},
    }
}

proof fn lemma_with_tools_claims(
    table: RoutesView,
    index: usize,
    prefix: Option<Seq<char>>,
    tools: Seq<ToolView>,
    k: int,
)
    requires
        0 <= k < tools.len(),
    ensures
        table.with_tools(index, prefix, tools).owners.contains_key(prefixed(prefix, tools[k].name)),
    decreases tools.len(),
{
    let front = tools.drop_last();
    if k < front.len() {
        lemma_with_tools_claims(table, index, prefix, front, k);
    }
}

/// A backend that answers has every one of its tools advertised, under a name
/// that it or an earlier backend owns, whatever the other backends do.
pub proof fn lemma_every_listed_tool_is_advertised(results: Seq<DiscoveryView>, i: int, k: int)
    requires
        0 <= i < results.len(),
        results[i].outcome matches Ok(tools) && 0 <= k < tools.len(),
    ensures
        discovered(results).owners.contains_key(
            prefixed(results[i].backend.prefix, (results[i].outcome->Ok_0)[k].name),
        ),
    decreases results.len(),
{
    let name = prefixed(results[i].backend.prefix, (results[i].outcome->Ok_0)[k].name);
    let front = results.drop_last();
    if i == front.len() {
        lemma_with_tools_claims(
            discovered(front),
            i as usize,
            results[i].backend.prefix,
            results[i].outcome->Ok_0,
            k,
        );
    } else {
        lemma_every_listed_tool_is_advertised(front, i, k);
        lemma_first_claim_wins(front, results.last(), name);
        assert(front.push(results.last()) =~= results);
    }
}

/// Whether a backend that was asked lists a tool under its own name `local`.
pub open spec fn lists(found: DiscoveryView, local: Seq<char>) -> bool {
    found.outcome matches Ok(tools) && exists|k: int|
        0 <= k < tools.len() && (#[trigger] tools[k]).name == local
}

proof fn lemma_with_tools_locals(
    table: RoutesView,
    index: usize,
    prefix: Option<Seq<char>>,
    tools: Seq<ToolView>,
    name: Seq<char>,
)
    requires
        table.with_tools(index, prefix, tools).owners.contains_key(name),
        !table.owners.contains_key(name),
    ensures
        ({
            let after = table.with_tools(index, prefix, tools);
            &&& after.owners[name] == index
            &&& prefixed(prefix, after.locals[name]) == name
            &&& exists|k: int|
                0 <= k < tools.len() && (#[trigger] tools[k]).name == after.locals[name]
        }),
    decreases tools.len(),
{
    if tools.len() > 0 {
        let front = tools.drop_last();
        let after = table.with_tools(index, prefix, tools);
        if table.with_tools(index, prefix, front).owners.contains_key(name) {
            lemma_with_tools_locals(table, index, prefix, front, name);
            let k = choose|k: int|
                0 <= k < front.len() && (#[trigger] front[k]).name == after.locals[name];
            assert(tools[k].name == after.locals[name]);
        } else {
            assert(tools[tools.len() - 1].name == after.locals[name]);
        }
    }
}

/// A tool is called by a name that its owner listed, and that name with the
/// owner's prefix is the one it is advertised under.
pub proof fn lemma_local_names_are_listed(results: Seq<DiscoveryView>, name: Seq<char>)
    requires
        results.len() <= usize::MAX,
        discovered(results).owners.contains_key(name),
    ensures
        ({
            let table = discovered(results);
            let owner = table.owners[name] as int;
            &&& owner < results.len()
            &&& lists(results[owner], table.locals[name])
            &&& prefixed(results[owner].backend.prefix, table.locals[name]) == name
        }),
    decreases results.len(),
{
    if results.len() > 0 {
        let front = results.drop_last();
        let last = results.last();
        assert(front.push(last) =~= results);
        if discovered(front).owners.contains_key(name) {
            lemma_local_names_are_listed(front, name);
            lemma_first_claim_wins(front, last, name);
            let owner = discovered(front).owners[name] as int;
            assert(results[owner] == front[owner]);
        } else {
            match last.outcome {
                Ok(tools) => {
                    lemma_with_tools_locals(
                        discovered(front),
                        (results.len() - 1) as usize,
                        last.backend.prefix,
                        tools,
                        name,
                    );
                },
                Err(_) => {},
            }
        }
    }
}

/// A failing backend does not suppress the others: the tools and their owners
/// are those of a backend that has no tools at all, and the failure is noted.
pub proof fn lemma_failure_does_not_suppress_others(
    results: Seq<DiscoveryView>,
    i: int,
    failed: DiscoveryView,
    silent: DiscoveryView,
)
    requires
        0 <= i < results.len(),
        failed.outcome is Err,
        silent.outcome == Ok::<Seq<ToolView>, ToolErrorView>(seq![]),
    ensures
        discovered(results.update(i, failed)).tools == discovered(results.update(i, silent)).tools,
        discovered(results.update(i, failed)).owners == discovered(
            results.update(i, silent),
        ).owners,
        discovered(results.update(i, failed)).locals == discovered(
            results.update(i, silent),
        ).locals,
        discovered(results.update(i, failed)).augmented == discovered(
            results.update(i, silent),
        ).augmented,
        discovered(results.update(i, failed)).failures.contains(
            (failed.backend.name, failed.outcome->Err_0.message()),
        ),
    decreases results.len(),
{
    let a = results.update(i, failed);
    let b = results.update(i, silent);
    let front = results.drop_last();
    let note = (failed.backend.name, failed.outcome->Err_0.message());
    if i == front.len() {
        assert(a.drop_last() =~= front);
        assert(b.drop_last() =~= front);
        assert(a.last() == failed && b.last() == silent);
        let noted = discovered(front).failures.push(note);
        assert(noted[noted.len() - 1] == note);
    } else {
        lemma_failure_does_not_suppress_others(front, i, failed, silent);
        assert(a.drop_last() =~= front.update(i, failed));
        assert(b.drop_last() =~= front.update(i, silent));
        assert(a.last() == results.last() && b.last() == results.last());
        let x = discovered(front.update(i, failed));
        let y = discovered(front.update(i, silent));
        let n = (results.len() - 1) as usize;
        match results.last().outcome {
            Ok(tools) => {
                lemma_with_tools_same(x, y, n, results.last().backend.prefix, tools);
            },
            Err(err) => {
                let k = choose|k: int| 0 <= k < x.failures.len() && x.failures[k] == note;
                let more = x.failures.push((results.last().backend.name, err.message()));
                assert(more[k] == note);
            },
        }
    }
}

proof fn lemma_with_tools_same(
    x: RoutesView,
    y: RoutesView,
    index: usize,
    prefix: Option<Seq<char>>,
    tools: Seq<ToolView>,
)
    requires
        x.tools == y.tools,
        x.owners == y.owners,
        x.locals == y.locals,
        x.augmented == y.augmented,
    ensures
        ({
            let a = x.with_tools(index, prefix, tools);
            let b = y.with_tools(index, prefix, tools);
            &&& a.tools == b.tools
            &&& a.owners == b.owners
            &&& a.locals == b.locals
            &&& a.augmented == b.augmented
            &&& a.failures == x.failures
        }),
    decreases tools.len(),
{
    if tools.len() > 0 {
        lemma_with_tools_same(x, y, index, prefix, tools.drop_last());
    }
}

/// A tool that takes an object can always be bounded: its schema ends up with
/// a `timeout` or a `timeout_ms` argument, and ours is taken out of the
/// arguments again exactly where we put it in.
pub proof fn lemma_timeout_argument(schema: JsonView, args: JsonView, value: JsonView)
    requires
        schema is Object,
        schema.field("properties"@) matches Some(p) ==> p is Object,
        args is Object,
        args.field("timeout"@) is None,
    ensures
        with_timeout(schema).0.field("properties"@) matches Some(p) && (p.field("timeout"@) is Some
            || p.field("timeout_ms"@) is Some),
        with_timeout(schema).1 ==> with_timeout(schema).0.field("properties"@)->0.field(
            "timeout"@,
        ) == Some(timeout_schema()),
        !with_timeout(schema).1 ==> with_timeout(schema).0 == schema,
        without_timeout(args.with("timeout"@, value)) =~= args,
{
    let m = args->Object_0;
    assert(m.insert("timeout"@, value).remove("timeout"@) =~= m);
}

/// Augmenting a schema a second time changes nothing.
pub proof fn lemma_timeout_is_added_once(schema: JsonView)
    ensures
        with_timeout(with_timeout(schema).0) == (with_timeout(schema).0, false),
{
}

/// Whether a schema is another with nothing lost: it is the same but for a `timeout`
/// among its properties, which was put in where there was none.
pub open spec fn only_adds_timeout(before: JsonView, after: JsonView) -> bool {
    if before is Object {
        &&& after is Object
        &&& forall|key: Seq<char>|
            key != "properties"@ ==> #[trigger] after.field(key) == before.field(key)
        &&& match before.field("properties"@) {
            Some(JsonView::Object(old_properties)) => after.field("properties"@) matches Some(
                JsonView::Object(new_properties),
            ) && new_properties.remove("timeout"@) == old_properties.remove("timeout"@) && (
            old_properties.contains_key("timeout"@) ==> new_properties == old_properties),
            Some(other) => after.field("properties"@) == Some(other),
            None => after.field("properties"@) matches Some(JsonView::Object(new_properties))
                && new_properties.dom() == set!["timeout"@],
        }
    } else {
        after == before
    }
}

/// A tool is advertised with the schema that its backend gave it: every property and
/// every other field is there as it was, and at most a `timeout` beside them.
pub proof fn lemma_schema_survives(schema: JsonView)
    ensures
        only_adds_timeout(schema, with_timeout(schema).0),
        with_timeout(schema).1 <==> with_timeout(schema).0 != schema,
        forall|key: Seq<char>|
            schema.field("properties"@) matches Some(JsonView::Object(_)) && key != "timeout"@
                ==> #[trigger] with_timeout(schema).0.field("properties"@)->0.field(key)
                == schema.field("properties"@)->0.field(key),
{
    if schema is Object {
        let after = with_timeout(schema).0;
        match schema.field("properties"@) {
            Some(JsonView::Object(p)) => {
                if with_timeout(schema).1 {
                    assert(p.insert("timeout"@, timeout_schema()).remove("timeout"@) =~= p.remove(
                        "timeout"@,
                    ));
                    assert(after.field("properties"@)->0.field("timeout"@) is Some);
                    assert(schema.field("properties"@)->0.field("timeout"@) is None);
                }
            },
            None => {
                assert(after.field("properties"@)->0->Object_0.dom() =~= set!["timeout"@]);
                assert(schema.field("properties"@) is None);
            },
            _ => {},
        }
    }
}

/// Whether an advertised tool is one that a backend listed, under its prefix and
/// with nothing lost.
pub open spec fn advertises(shown: ToolView, listed: ToolView, prefix: Option<Seq<char>>) -> bool {
    &&& shown.name == prefixed(prefix, listed.name)
    &&& shown.description == listed.description
    &&& shown.extra == listed.extra
    &&& only_adds_timeout(listed.input_schema, shown.input_schema)
}

/// Whether the table takes a call of an advertised tool back to the listed one: under
/// the name that it was listed with, and with the deadline taken out of its arguments
/// exactly where that was added to its schema.
pub open spec fn leads_back(table: RoutesView, shown: ToolView, listed: ToolView) -> bool {
    &&& table.owners.contains_key(shown.name)
    &&& table.locals.contains_key(shown.name)
    &&& table.locals[shown.name] == listed.name
    &&& table.augmented.contains(shown.name) <==> shown.input_schema != listed.input_schema
}

/// Whether a tool is advertised as the first that the backend lists under its name.
pub open spec fn advertised_at(
    table: RoutesView,
    shown: ToolView,
    prefix: Option<Seq<char>>,
    tools: Seq<ToolView>,
    k: int,
) -> bool {
    &&& advertises(shown, tools[k], prefix)
    &&& leads_back(table, shown, tools[k])
    &&& forall|j: int| 0 <= j < k ==> prefixed(prefix, (#[trigger] tools[j]).name) != shown.name
}

/// Whether a tool is advertised as one of those that were found.
pub open spec fn advertised_by(table: RoutesView, shown: ToolView, result: DiscoveryView) -> bool {
    result.outcome matches Ok(tools) && exists|k: int|
        0 <= k < tools.len() && #[trigger] advertised_at(
            table,
            shown,
            result.backend.prefix,
            tools,
            k,
        )
}

/// What is advertised is what a backend listed: its tool with nothing changed but the
/// prefix and the deadline, owned by the backend that listed it, and of tools with
/// one name the first.
pub proof fn lemma_advertised_as_listed(results: Seq<DiscoveryView>, i: int)
    requires
        results.len() <= usize::MAX,
        0 <= i < discovered(results).tools.len(),
    ensures
        ({
            let table = discovered(results);
            let shown = table.tools[i];
            let owner = table.owners[shown.name] as int;
            &&& table.owners.contains_key(shown.name)
            &&& owner < results.len()
            &&& advertised_by(table, shown, results[owner])
        }),
    decreases results.len(),
{
    lemma_table_is_consistent(results);
    if results.len() > 0 {
        let front = results.drop_last();
        let last = results.last();
        let before = discovered(front);
        let after = discovered(results);
        lemma_table_is_consistent(front);
        assert(front.push(last) =~= results);
        match last.outcome {
            Ok(tools) => {
                let n = (results.len() - 1) as usize;
                lemma_with_tools_shown(before, n, last.backend.prefix, tools);
                if i < before.tools.len() {
                    lemma_advertised_as_listed(front, i);
                    lemma_still_advertised(before, after, before.tools[i], front, results);
                } else {
                    let shown = after.tools[i];
                    assert(results[n as int] == last);
                    assert(advertised_by(after, shown, last));
                }
            },
            Err(_) => {
                lemma_advertised_as_listed(front, i);
                lemma_still_advertised(before, after, before.tools[i], front, results);
            },
        }
    }
}

proof fn lemma_still_advertised(
    before: RoutesView,
    after: RoutesView,
    shown: ToolView,
    front: Seq<DiscoveryView>,
    results: Seq<DiscoveryView>,
)
    requires
        before.owners.contains_key(shown.name),
        before.owners[shown.name] < front.len() < results.len(),
        front == results.drop_last(),
        advertised_by(before, shown, front[before.owners[shown.name] as int]),
        keeps_entry(before, after, shown.name),
    ensures
        after.owners.contains_key(shown.name),
        after.owners[shown.name] < results.len(),
        advertised_by(after, shown, results[after.owners[shown.name] as int]),
{
    let owner = before.owners[shown.name] as int;
    let result = front[owner];
    assert(results[owner] == result);
    let tools = result.outcome->Ok_0;
    let k = choose|k: int|
        0 <= k < tools.len() && #[trigger] advertised_at(
            before,
            shown,
            result.backend.prefix,
            tools,
            k,
        );
    assert(advertised_at(after, shown, result.backend.prefix, tools, k));
}

/// Whether an entry of the table stays as it is.
spec fn keeps_entry(before: RoutesView, after: RoutesView, name: Seq<char>) -> bool {
    before.owners.contains_key(name) && before.locals.contains_key(name) ==> {
        &&& after.owners.contains_key(name)
        &&& after.owners[name] == before.owners[name]
        &&& after.locals.contains_key(name)
        &&& after.locals[name] == before.locals[name]
        &&& after.augmented.contains(name) <==> before.augmented.contains(name)
    }
}

proof fn lemma_with_tools_shown(
    table: RoutesView,
    index: usize,
    prefix: Option<Seq<char>>,
    tools: Seq<ToolView>,
)
    requires
        table.wf(),
    ensures
        ({
            let after = table.with_tools(index, prefix, tools);
            &&& table.tools.len() <= after.tools.len()
            &&& forall|i: int|
                0 <= i < table.tools.len() ==> #[trigger] after.tools[i] == table.tools[i]
            &&& forall|i: int|
                table.tools.len() <= i < after.tools.len() ==> after.owners.contains_key(
                    (#[trigger] after.tools[i]).name,
                ) && after.owners[after.tools[i].name] == index && exists|k: int|
                    0 <= k < tools.len() && #[trigger] advertised_at(
                        after,
                        after.tools[i],
                        prefix,
                        tools,
                        k,
                    )
            &&& forall|j: int|
                0 <= j < tools.len() ==> after.owners.contains_key(
                    prefixed(prefix, (#[trigger] tools[j]).name),
                )
            &&& forall|name: Seq<char>|
                table.owners.contains_key(name) ==> #[trigger] keeps_entry(table, after, name)
        }),
    decreases tools.len(),
{
    if tools.len() > 0 {
        let front = tools.drop_last();
        let last = tools.last();
        let before = table.with_tools(index, prefix, front);
        let after = table.with_tools(index, prefix, tools);
        lemma_with_tools_shown(table, index, prefix, front);
        lemma_with_tools_wf(table, index, prefix, front);
        lemma_schema_survives(last.input_schema);
        let name = prefixed(prefix, last.name);
        assert forall|other: Seq<char>| before.owners.contains_key(other) implies keeps_entry(
            before,
            after,
            other,
        ) by {}
        assert forall|i: int| table.tools.len() <= i < after.tools.len() implies (
        after.owners.contains_key((#[trigger] after.tools[i]).name)
            && after.owners[after.tools[i].name] == index && exists|k: int|
            0 <= k < tools.len() && #[trigger] advertised_at(
                after,
                after.tools[i],
                prefix,
                tools,
                k,
            )) by {
            if i < before.tools.len() {
                let shown = before.tools[i];
                assert(after.tools[i] == shown);
                assert(before.owners.contains_key(shown.name));
                assert(keeps_entry(before, after, shown.name));
                let k = choose|k: int|
                    0 <= k < front.len() && #[trigger] advertised_at(
                        before,
                        shown,
                        prefix,
                        front,
                        k,
                    );
                assert(tools[k] == front[k]);
                assert forall|j: int| 0 <= j < k implies prefixed(
                    prefix,
                    (#[trigger] tools[j]).name,
                ) != shown.name by {
                    assert(front[j] == tools[j]);
                }
                assert(advertised_at(after, shown, prefix, tools, k));
            } else {
                let k = tools.len() - 1;
                let shown = after.tools[i];
                assert(shown.name == name && !before.owners.contains_key(name));
                assert forall|j: int| 0 <= j < k implies prefixed(
                    prefix,
                    (#[trigger] tools[j]).name,
                ) != shown.name by {
                    assert(front[j] == tools[j]);
                }
                assert(!before.augmented.contains(name));
                assert(advertised_at(after, shown, prefix, tools, k));
            }
        }
        assert forall|j: int| 0 <= j < tools.len() implies after.owners.contains_key(
            prefixed(prefix, (#[trigger] tools[j]).name),
        ) by {
            if j < front.len() {
                assert(front[j] == tools[j]);
                assert(keeps_entry(before, after, prefixed(prefix, tools[j].name)));
            }
        }
        assert forall|other: Seq<char>| table.owners.contains_key(other) implies
            #[trigger] keeps_entry(table, after, other) by {
            assert(keeps_entry(table, before, other));
            assert(keeps_entry(before, after, other));
        }
    }
}

/// A further backend leaves what is advertised as it is, at the front of the list. One
/// that fails adds nothing to it: its name and its error are noted, after those of
/// the backends before it, and one that answers has no failure noted.
pub proof fn lemma_tables_only_grow(results: Seq<DiscoveryView>, later: DiscoveryView)
    ensures
        ({
            let before = discovered(results);
            let after = discovered(results.push(later));
            &&& before.tools.len() <= after.tools.len()
            &&& forall|i: int|
                0 <= i < before.tools.len() ==> #[trigger] after.tools[i] == before.tools[i]
            &&& match later.outcome {
                Ok(tools) => after.failures == before.failures && after.tools.len()
                    <= before.tools.len() + tools.len(),
                Err(err) => after.tools == before.tools && after.failures == before.failures.push(
                    (later.backend.name, err.message()),
                ),
            }
            &&& results.len() == 0 ==> before.tools.len() == 0 && before.failures.len() == 0
        }),
{
    let all = results.push(later);
    assert(all.drop_last() =~= results && all.last() == later);
    lemma_table_is_consistent(results);
    match later.outcome {
        Ok(tools) => {
            let index = (all.len() - 1) as usize;
            lemma_with_tools_shown(discovered(results), index, later.backend.prefix, tools);
            lemma_failures_stay(discovered(results), index, later.backend.prefix, tools);
        },
        Err(_) => {},
    }
}

proof fn lemma_failures_stay(
    table: RoutesView,
    index: usize,
    prefix: Option<Seq<char>>,
    tools: Seq<ToolView>,
)
    ensures
        table.with_tools(index, prefix, tools).failures == table.failures,
        table.with_tools(index, prefix, tools).tools.len() <= table.tools.len() + tools.len(),
    decreases tools.len(),
{
    if tools.len() > 0 {
        lemma_failures_stay(table, index, prefix, tools.drop_last());
    }
}

/// The deadline that is added is a number, and says what it is for.
pub proof fn lemma_deadline_is_a_number(schema: JsonView)
    requires
        with_timeout(schema).1,
    ensures
        with_timeout(schema).0.field("properties"@) matches Some(properties) && (properties.field(
            "timeout"@,
        ) matches Some(deadline) && {
            &&& deadline.field("type"@) == Some(JsonView::Text("integer"@))
            &&& deadline.field("description"@) matches Some(text) && text is Text
        }),
{
    reveal_strlit("type");
    reveal_strlit("description");
    assert("type"@.len() == 4);
    assert("description"@.len() == 11);
}

} // verus!
