//! The `omni_status` diagnostic tool.
//!
//! It reports what is already known plus a *passive* view of each backend. It
//! must never spawn a sidecar or make a network call, so all it is given is
//! what the gateway knows already.

use vstd::prelude::*;

use crate::backend::{BackendInfo, BackendInfoView, BackendStatus, BackendStatusView};
use crate::json::{
    item_views, json_number, json_texts, lemma_item_views, Json, JsonView,
};
use crate::protocol::mcp::{
    empty_object_schema, empty_schema, CallToolResult, CallToolResultView, Tool, ToolView,
};
use crate::text::{begins, opt_view, same, starts_with, views};

verus! {

/// The name of the tool.
pub const TOOL_NAME: &'static str = "omni_status";

/// What the tool is for.
pub const TOOL_DESCRIPTION: &'static str = "Reports which tools are available and the health of every configured backend. Call this first when a tool is missing or failing.";

/// The tool as it is advertised: it takes no arguments.
pub open spec fn status_tool() -> ToolView {
    ToolView::new(TOOL_NAME@, TOOL_DESCRIPTION@, empty_schema())
}

/// The tool as it is advertised.
pub fn descriptor() -> (r: Tool)
    ensures
        r@ == status_tool(),
{
    Tool::new(TOOL_NAME, TOOL_DESCRIPTION, empty_object_schema())
}

/// A backend and how it is doing.
pub struct BackendReport {
    pub info: BackendInfo,
    pub status: BackendStatus,
}

/// What a [`BackendReport`] says.
pub struct BackendReportView {
    pub info: BackendInfoView,
    pub status: BackendStatusView,
}

impl View for BackendReport {
    type V = BackendReportView;

    open spec fn view(&self) -> BackendReportView {
        BackendReportView { info: self.info@, status: self.status@ }
    }
}

/// One word for a status.
pub open spec fn status_word_view(status: BackendStatusView) -> Seq<char> {
    match status {
        BackendStatusView::Ready => "ready"@,
        BackendStatusView::Idle => "idle"@,
        BackendStatusView::Failed(_) => "failed"@,
        BackendStatusView::Disabled => "disabled"@,
    }
}

/// One word for a status.
pub fn status_word(status: &BackendStatus) -> (r: &'static str)
    ensures
        r@ == status_word_view(status@),
{
    match status {
        BackendStatus::Ready => "ready",
        BackendStatus::Idle => "idle",
        BackendStatus::Failed(_) => "failed",
        BackendStatus::Disabled => "disabled",
    }
}

/// Whether a tool belongs to the backend at `index`: its advertised name carries the
/// backend's prefix, or the backend declares none and nothing else claimed the name.
/// `owner` is the backend that the routing table gives the name to.
pub open spec fn owns_view(
    prefix: Option<Seq<char>>,
    index: usize,
    name: Seq<char>,
    owner: Option<usize>,
) -> bool {
    if prefix matches Some(p) && p.len() > 0 {
        starts_with(name, prefix->0)
    } else {
        owner is None || owner == Some(index)
    }
}

/// Whether a tool belongs to a backend. `owner` is the backend that claimed its name,
/// by its place in the list of backends.
pub fn owns(backend: &BackendInfo, index: usize, name: &str, owner: Option<usize>) -> (r: bool)
    ensures
        r == owns_view(backend@.prefix, index, name@, owner),
{
    match &backend.prefix {
        Some(p) => if !p.as_str().is_empty() {
            return begins(name, p);
        },
        None => {},
    }
    match owner {
        Some(claimant) => claimant == index,
        None => true,
    }
}

/// The owner of the tool at `k`. Names that nothing is said of are unclaimed.
pub open spec fn owner_at(owners: Seq<Option<usize>>, k: int) -> Option<usize> {
    if 0 <= k < owners.len() {
        owners[k]
    } else {
        None
    }
}

/// How many of the tools belong to the backend at `index`. The owners of the tools
/// are listed beside them.
pub open spec fn served_count(
    prefix: Option<Seq<char>>,
    index: usize,
    tools: Seq<ToolView>,
    owners: Seq<Option<usize>>,
) -> nat
    decreases tools.len(),
{
    if tools.len() == 0 {
        0
    } else {
        served_count(prefix, index, tools.drop_last(), owners) + if owns_view(
            prefix,
            index,
            tools.last().name,
            owner_at(owners, tools.len() - 1),
        ) {
            1nat
        } else {
            0nat
        }
    }
}

/// Why a backend failed discovery, if it did.
pub open spec fn failure_of(failures: Seq<(Seq<char>, Seq<char>)>, name: Seq<char>) -> Option<
    Seq<char>,
>
    decreases failures.len(),
{
    if failures.len() == 0 {
        None
    } else if failures[0].0 == name {
        Some(failures[0].1)
    } else {
        failure_of(failures.drop_first(), name)
    }
}

/// The line of one backend in the report.
pub open spec fn backend_entry(
    report: BackendReportView,
    index: usize,
    tools: Seq<ToolView>,
    owners: Seq<Option<usize>>,
    failures: Seq<(Seq<char>, Seq<char>)>,
) -> JsonView {
    let entry = JsonView::object().with("name"@, JsonView::Text(report.info.name)).with(
        "kind"@,
        JsonView::Text(report.info.kind.spec_label()),
    ).with("status"@, JsonView::Text(status_word_view(report.status))).with(
        "detail"@,
        JsonView::Text(report.status.label()),
    ).with(
        "tool_count"@,
        json_number(served_count(report.info.prefix, index, tools, owners) as u64),
    );
    match failure_of(failures, report.info.name) {
        Some(reason) => entry.with("discovery_error"@, JsonView::Text(reason)),
        None => entry,
    }
}

/// The names of tools.
pub open spec fn tool_names(tools: Seq<ToolView>) -> Seq<Seq<char>> {
    tools.map_values(|t: ToolView| t.name)
}

/// The whole report.
pub open spec fn status_report(
    backends: Seq<BackendReportView>,
    tools: Seq<ToolView>,
    owners: Seq<Option<usize>>,
    failures: Seq<(Seq<char>, Seq<char>)>,
    discoveries: u64,
) -> JsonView {
    JsonView::object().with("version"@, JsonView::Text(crate::VERSION@)).with(
        "tool_count"@,
        json_number(tools.len() as u64),
    ).with("tools"@, json_texts(tool_names(tools))).with(
        "backends"@,
        JsonView::Array(
            backends.map(
                |i: int, b: BackendReportView| backend_entry(b, i as usize, tools, owners, failures),
            ),
        ),
    ).with(
        "unhealthy_backends"@,
        json_texts(failures.map_values(|f: (Seq<char>, Seq<char>)| f.0)),
    ).with("discovery_sweeps"@, json_number(discoveries))
}

fn find_failure(failures: &Vec<(String, String)>, name: &str) -> (r: Option<String>)
    ensures
        opt_view(r) == failure_of(views(failures@), name@),
{
    let ghost all = views(failures@);
    let mut i: usize = 0;
    assert(all.skip(0) =~= all);
    while i < failures.len()
        invariant
            0 <= i <= failures@.len(),
            all == views(failures@),
            failure_of(all, name@) == failure_of(all.skip(i as int), name@),
        decreases failures@.len() - i,
    {
        assert(all.skip(i as int).drop_first() =~= all.skip(i + 1));
        assert(all.skip(i as int)[0] == failures@[i as int]@);
        if same(&failures[i].0, name) {
            return Some(failures[i].1.clone());
        }
        i += 1;
    }
    None
}

fn count_served(
    backend: &BackendInfo,
    index: usize,
    tools: &Vec<Tool>,
    owners: &Vec<Option<usize>>,
) -> (r: usize)
    ensures
        r == served_count(backend@.prefix, index, views(tools@), owners@),
        r <= tools@.len(),
{
    let ghost all = views(tools@);
    let mut count: usize = 0;
    let mut i: usize = 0;
    assert(all.take(0) =~= seq![]);
    while i < tools.len()
        invariant
            0 <= i <= tools@.len(),
            all == views(tools@),
            count <= i,
            count == served_count(backend@.prefix, index, all.take(i as int), owners@),
        decreases tools@.len() - i,
    {
        assert(all.take(i + 1).drop_last() =~= all.take(i as int));
        assert(all.take(i + 1).last() == tools@[i as int]@);
        let owner: Option<usize> = if i < owners.len() {
            owners[i]
        } else {
            None
        };
        if owns(backend, index, &tools[i].name, owner) {
            count += 1;
        }
        i += 1;
    }
    assert(all.take(i as int) =~= all);
    count
}

/// The report on every backend and tool. `owners` lists, tool by tool, the backend
/// that claimed its name.
pub fn report(
    backends: &Vec<BackendReport>,
    tools: &Vec<Tool>,
    owners: &Vec<Option<usize>>,
    failures: &Vec<(String, String)>,
    discoveries: u64,
) -> (r: CallToolResult)
    ensures
        r@ == CallToolResultView::structured(
            status_report(views(backends@), views(tools@), owners@, views(failures@), discoveries),
        ),
{
    let mut entries: Vec<Json> = Vec::new();
    let mut i: usize = 0;
    while i < backends.len()
        invariant
            0 <= i <= backends@.len(),
            entries@.len() == i,
            forall|k: int|
                0 <= k < i ==> (#[trigger] entries@[k])@ == backend_entry(
                    backends@[k]@,
                    k as usize,
                    views(tools@),
                    owners@,
                    views(failures@),
                ),
        decreases backends@.len() - i,
    {
        let backend = &backends[i];
        let served: usize = count_served(&backend.info, i, tools, owners);
        let entry = Json::object().with("name", Json::string(&backend.info.name)).with(
            "kind",
            Json::string(backend.info.kind.label()),
        ).with("status", Json::string(status_word(&backend.status))).with(
            "detail",
            Json::string(backend.status.label()),
        ).with("tool_count", Json::number(served as u64));
        let entry = match find_failure(failures, &backend.info.name) {
            Some(reason) => entry.with("discovery_error", Json::Text(reason)),
            None => entry,
        };
        entries.push(entry);
        i += 1;
    }
    let mut names: Vec<String> = Vec::new();
    let mut j: usize = 0;
    while j < tools.len()
        invariant
            0 <= j <= tools@.len(),
            names@.len() == j,
            forall|k: int| 0 <= k < j ==> (#[trigger] names@[k])@ == tools@[k].name@,
        decreases tools@.len() - j,
    {
        names.push(tools[j].name.clone());
        j += 1;
    }
    let mut unhealthy: Vec<String> = Vec::new();
    let mut k: usize = 0;
    while k < failures.len()
        invariant
            0 <= k <= failures@.len(),
            unhealthy@.len() == k,
            forall|m: int| 0 <= m < k ==> (#[trigger] unhealthy@[m])@ == failures@[m].0@,
        decreases failures@.len() - k,
    {
        unhealthy.push(failures[k].0.clone());
        k += 1;
    }
    proof {
        lemma_item_views(entries@);
        let wanted = views(backends@).map(
            |i: int, b: BackendReportView|
                backend_entry(b, i as usize, views(tools@), owners@, views(failures@)),
        );
        assert forall|m: int| 0 <= m < entries@.len() implies item_views(entries@)[m]
            == wanted[m] by {
            assert(entries@[m]@ == backend_entry(
                backends@[m]@,
                m as usize,
                views(tools@),
                owners@,
                views(failures@),
            ));
        }
        assert(item_views(entries@) =~= wanted);
        assert(views(names@) =~= tool_names(views(tools@)));
        assert(views(unhealthy@) =~= views(failures@).map_values(
            |f: (Seq<char>, Seq<char>)| f.0,
        ));
    }
    CallToolResult::structured(
        Json::object().with("version", Json::string(crate::VERSION)).with(
            "tool_count",
            Json::number(names.len() as u64),
        ).with("tools", Json::strings(&names)).with("backends", Json::Array(entries)).with(
            "unhealthy_backends",
            Json::strings(&unhealthy),
        ).with("discovery_sweeps", Json::number(discoveries)),
    )
}

/// The report is never an error, however many backends are down.
pub proof fn lemma_report_is_not_an_error(
    backends: Seq<BackendReportView>,
    tools: Seq<ToolView>,
    owners: Seq<Option<usize>>,
    failures: Seq<(Seq<char>, Seq<char>)>,
    discoveries: u64,
)
    ensures
        !CallToolResultView::structured(
            status_report(backends, tools, owners, failures, discoveries),
        ).is_failure(),
{
}

/// A name that the routing table gives to one backend belongs to no other backend
/// without a prefix.
pub proof fn lemma_claimed_names_have_no_other_owner(
    prefix: Option<Seq<char>>,
    index: usize,
    name: Seq<char>,
    owner: usize,
)
    requires
        prefix matches Some(p) ==> p.len() == 0,
    ensures
        owns_view(prefix, index, name, Some(owner)) <==> index == owner,
{
}

/// Every tool that is claimed is counted for at most one of the backends without a
/// prefix.
pub proof fn lemma_tools_are_counted_once(
    first: usize,
    second: usize,
    tools: Seq<ToolView>,
    owners: Seq<Option<usize>>,
)
    requires
        first != second,
        owners.len() == tools.len(),
        forall|k: int| 0 <= k < owners.len() ==> (#[trigger] owners[k]) is Some,
    ensures
        served_count(None, first, tools, owners) + served_count(None, second, tools, owners)
            <= tools.len(),
{
    lemma_counted_once_so_far(first, second, tools, owners, tools.len() as int);
    assert(tools.take(tools.len() as int) =~= tools);
}

proof fn lemma_counted_once_so_far(
    first: usize,
    second: usize,
    tools: Seq<ToolView>,
    owners: Seq<Option<usize>>,
    n: int,
)
    requires
        first != second,
        0 <= n <= tools.len() == owners.len(),
        forall|k: int| 0 <= k < owners.len() ==> (#[trigger] owners[k]) is Some,
    ensures
        served_count(None, first, tools.take(n), owners) + served_count(
            None,
            second,
            tools.take(n),
            owners,
        ) <= n,
    decreases n,
{
    if n > 0 {
        assert(tools.take(n).drop_last() =~= tools.take(n - 1));
        assert(owners[n - 1] is Some);
        lemma_counted_once_so_far(first, second, tools, owners, n - 1);
    }
}

/// A backend with a prefix owns the names that begin with it, and no others.
pub proof fn lemma_prefixes_claim_names(
    prefix: Seq<char>,
    index: usize,
    name: Seq<char>,
    owner: Option<usize>,
)
    requires
        prefix.len() > 0,
    ensures
        owns_view(Some(prefix), index, name, owner) <==> exists|rest: Seq<char>|
            name == #[trigger] (prefix + rest),
{
    if owns_view(Some(prefix), index, name, owner) {
        let rest = name.subrange(prefix.len() as int, name.len() as int);
        assert(name =~= prefix + rest);
    }
    if exists|rest: Seq<char>| name == #[trigger] (prefix + rest) {
        let rest = choose|rest: Seq<char>| name == #[trigger] (prefix + rest);
        assert(name.subrange(0, prefix.len() as int) =~= prefix);
    }
}

/// The places of the tools that a backend serves.
pub open spec fn served_places(
    prefix: Option<Seq<char>>,
    index: usize,
    tools: Seq<ToolView>,
    owners: Seq<Option<usize>>,
) -> Set<int> {
    Set::new(
        |k: int|
            0 <= k < tools.len() && owns_view(prefix, index, tools[k].name, owner_at(owners, k)),
    )
}

/// The count of a backend is how many of the listed tools it owns.
pub proof fn lemma_count_is_exact(
    prefix: Option<Seq<char>>,
    index: usize,
    tools: Seq<ToolView>,
    owners: Seq<Option<usize>>,
)
    ensures
        served_places(prefix, index, tools, owners).finite(),
        served_places(prefix, index, tools, owners).len() == served_count(
            prefix,
            index,
            tools,
            owners,
        ),
    decreases tools.len(),
{
    let places = served_places(prefix, index, tools, owners);
    if tools.len() == 0 {
        assert(places =~= Set::empty());
    } else {
        let front = tools.drop_last();
        let last = tools.len() - 1;
        lemma_count_is_exact(prefix, index, front, owners);
        let less = served_places(prefix, index, front, owners);
        assert(!less.contains(last));
        if owns_view(prefix, index, tools[last].name, owner_at(owners, last)) {
            assert(places =~= less.insert(last)) by {
                assert forall|k: int| places.contains(k) <==> less.insert(last).contains(k) by {
                    if 0 <= k < last {
                        assert(front[k] == tools[k]);
                    }
                }
            }
        } else {
            assert(places =~= less) by {
                assert forall|k: int| places.contains(k) <==> less.contains(k) by {
                    if 0 <= k < last {
                        assert(front[k] == tools[k]);
                    }
                }
            }
        }
    }
}

/// The failure that is reported for a backend is the first that was noted under its
/// name, and none where none was.
pub proof fn lemma_failures_are_found(failures: Seq<(Seq<char>, Seq<char>)>, name: Seq<char>)
    ensures
        match failure_of(failures, name) {
            Some(reason) => exists|i: int|
                0 <= i < failures.len() && #[trigger] failures[i] == (name, reason) && forall|j: int|
                    0 <= j < i ==> (#[trigger] failures[j]).0 != name,
            None => forall|i: int| 0 <= i < failures.len() ==> (#[trigger] failures[i]).0 != name,
        },
    decreases failures.len(),
{
    if failures.len() > 0 {
        if failures[0].0 == name {
            assert(failures[0] == (name, failures[0].1));
        } else {
            let rest = failures.drop_first();
            lemma_failures_are_found(rest, name);
            match failure_of(rest, name) {
                Some(reason) => {
                    let i = choose|i: int|
                        0 <= i < rest.len() && #[trigger] rest[i] == (name, reason)
                            && forall|j: int| 0 <= j < i ==> (#[trigger] rest[j]).0 != name;
                    assert(failures[i + 1] == (name, reason));
                    assert forall|j: int| 0 <= j < i + 1 implies (#[trigger] failures[j]).0
                        != name by {
                        if j > 0 {
                            assert(rest[j - 1] == failures[j]);
                        }
                    }
                },
                None => {
                    assert forall|i: int| 0 <= i < failures.len() implies (
                    #[trigger] failures[i]).0 != name by {
                        if i > 0 {
                            assert(rest[i - 1] == failures[i]);
                        }
                    }
                },
            }
        }
    }
}

/// The report has one entry for each backend, in their order, the names of all tools
/// in theirs, how many those are, the names of the backends that failed, and how
/// often discovery has run.
pub proof fn lemma_report_is_complete(
    backends: Seq<BackendReportView>,
    tools: Seq<ToolView>,
    owners: Seq<Option<usize>>,
    failures: Seq<(Seq<char>, Seq<char>)>,
    discoveries: u64,
)
    ensures
        ({
            let report = status_report(backends, tools, owners, failures, discoveries);
            &&& report.field("version"@) == Some(JsonView::Text(crate::VERSION@))
            &&& report.field("tool_count"@) == Some(json_number(tools.len() as u64))
            &&& report.field("tools"@) matches Some(JsonView::Array(names)) && names.len()
                == tools.len() && forall|k: int|
                0 <= k < names.len() ==> #[trigger] names[k] == JsonView::Text(tools[k].name)
            &&& report.field("backends"@) matches Some(JsonView::Array(entries)) && entries.len()
                == backends.len() && forall|k: int|
                0 <= k < entries.len() ==> #[trigger] entries[k] == backend_entry(
                    backends[k],
                    k as usize,
                    tools,
                    owners,
                    failures,
                )
            &&& report.field("unhealthy_backends"@) matches Some(JsonView::Array(names))
                && names.len() == failures.len() && forall|k: int|
                0 <= k < names.len() ==> #[trigger] names[k] == JsonView::Text(failures[k].0)
            &&& report.field("discovery_sweeps"@) == Some(json_number(discoveries))
        }),
{
    reveal_strlit("version");
    reveal_strlit("tool_count");
    reveal_strlit("tools");
    reveal_strlit("backends");
    reveal_strlit("unhealthy_backends");
    reveal_strlit("discovery_sweeps");
    assert("version"@.len() == 7);
    assert("tool_count"@.len() == 10);
    assert("tools"@.len() == 5);
    assert("backends"@.len() == 8);
    assert("unhealthy_backends"@.len() == 18);
    assert("discovery_sweeps"@.len() == 16);
}

/// The entry of a backend has its name, its kind, its state in a word and in detail,
/// how many tools it serves, and why discovery failed where it did.
pub proof fn lemma_entry_is_complete(
    report: BackendReportView,
    index: usize,
    tools: Seq<ToolView>,
    owners: Seq<Option<usize>>,
    failures: Seq<(Seq<char>, Seq<char>)>,
)
    ensures
        ({
            let entry = backend_entry(report, index, tools, owners, failures);
            &&& entry.field("name"@) == Some(JsonView::Text(report.info.name))
            &&& entry.field("kind"@) == Some(JsonView::Text(report.info.kind.spec_label()))
            &&& entry.field("status"@) == Some(
                JsonView::Text(
                    match report.status {
                        BackendStatusView::Ready => "ready"@,
                        BackendStatusView::Idle => "idle"@,
                        BackendStatusView::Failed(_) => "failed"@,
                        BackendStatusView::Disabled => "disabled"@,
                    },
                ),
            )
            &&& report.status matches BackendStatusView::Failed(reason) ==> entry.field("detail"@)
                == Some(JsonView::Text(reason))
            &&& !(report.status is Failed) ==> entry.field("detail"@) == Some(
                JsonView::Text(report.status.label()),
            )
            &&& entry.field("tool_count"@) == Some(
                json_number(served_places(report.info.prefix, index, tools, owners).len() as u64),
            )
            &&& entry.field("discovery_error"@) == match failure_of(failures, report.info.name) {
                Some(reason) => Some(JsonView::Text(reason)),
                None => None,
            }
        }),
{
    lemma_count_is_exact(report.info.prefix, index, tools, owners);
    reveal_strlit("name");
    reveal_strlit("kind");
    reveal_strlit("status");
    reveal_strlit("detail");
    reveal_strlit("tool_count");
    reveal_strlit("discovery_error");
    assert("name"@.len() == 4);
    assert("kind"@.len() == 4);
    assert("status"@.len() == 6);
    assert("detail"@.len() == 6);
    assert("tool_count"@.len() == 10);
    assert("discovery_error"@.len() == 15);
    assert("name"@[0] == 'n');
    assert("kind"@[0] == 'k');
    assert("status"@[0] == 's');
    assert("detail"@[0] == 'd');
}

/// The tool that reports takes no arguments, and its name is its own.
pub proof fn lemma_status_tool()
    ensures
        status_tool().name == "omni_status"@,
        status_tool().description is Some,
        status_tool().input_schema.field("type"@) == Some(JsonView::Text("object"@)),
        status_tool().input_schema.field("properties"@) == Some(JsonView::object()),
        status_tool().extra == Map::<Seq<char>, JsonView>::empty(),
{
    reveal_strlit("type");
    reveal_strlit("properties");
    assert("type"@.len() == 4);
    assert("properties"@.len() == 10);
}

/// A tool whose owner is not known counts for every backend without a prefix.
pub proof fn lemma_unowned_tools(prefix: Option<Seq<char>>, index: usize, name: Seq<char>)
    requires
        prefix matches Some(p) ==> p.len() == 0,
    ensures
        owns_view(prefix, index, name, None),
{
}

/// The owner of a listed tool is the one at its place, and there is none past the end.
pub proof fn lemma_owners_by_place(owners: Seq<Option<usize>>, k: int)
    ensures
        0 <= k < owners.len() ==> owner_at(owners, k) == owners[k],
        k >= owners.len() ==> owner_at(owners, k) is None,
{
}

} // verus!
