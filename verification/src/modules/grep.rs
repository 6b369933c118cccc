//! Searching and replacing in files.

use vstd::prelude::*;

use super::{module_result, say_unknown, unknown_message, REGEX_SIZE_LIMIT};
use crate::json::{Json, JsonNumber, JsonView};
use crate::pattern::{Pattern, PatternView, compiled};
use crate::protocol::mcp::{CallToolResult, CallToolResultView, Tool, ToolView};
use crate::text::{
    cat2, cat4, cat5, decimal, decimal_text, glued, is_cut, join, joined, lemma_find_from,
    lemma_replacing_cuts, lines, occurs_at, opt_view, same, split_lines, starts_with, views,
};
use crate::tools::fs::{Matcher, MatcherView, lemma_literal_is_found};
use crate::tools::schema::{needs, object_schema, property, property_schema, schema2, takes};

verus! {

/// The module for searching files.
pub struct GrepModule;

/// What `grep_search` does.
pub const GREP_DESCRIPTION: &'static str = "Searches for string or regex pattern across files and optionally replaces matches";

/// What the module advertises.
pub open spec fn grep_tools() -> Seq<ToolView> {
    seq![
        ToolView::new(
            "grep_search"@,
            GREP_DESCRIPTION@,
            object_schema(
                JsonView::object().with(
                    "path"@,
                    property_schema("string"@, "Target file or directory path"@),
                ).with("pattern"@, property_schema("string"@, "Pattern to search for"@)).with(
                    "is_regex"@,
                    property_schema("boolean"@, "Whether pattern is regex (default: false)"@),
                ).with(
                    "replace"@,
                    property_schema("string"@, "Optional string to replace matches with"@),
                ).with(
                    "max_depth"@,
                    property_schema("integer"@, "Max directory depth to search (default: 5)"@),
                ),
                seq!["path"@, "pattern"@],
            ),
        ),
    ]
}

/// A search that was asked for.
pub struct GrepRequest {
    pub path: String,
    pub matcher: Matcher,
    pub replace: Option<String>,
    pub max_depth: usize,
}

/// What a [`GrepRequest`] asks for.
pub struct GrepRequestView {
    pub path: Seq<char>,
    pub matcher: MatcherView,
    pub replace: Option<Seq<char>>,
    pub max_depth: usize,
}

impl View for GrepRequest {
    type V = GrepRequestView;

    open spec fn view(&self) -> GrepRequestView {
        GrepRequestView {
            path: self.path@,
            matcher: self.matcher@,
            replace: opt_view(self.replace),
            max_depth: self.max_depth,
        }
    }
}

/// The depth that a call asks for.
pub open spec fn requested_depth(args: JsonView) -> u64 {
    match args.unsigned_field("max_depth"@) {
        Some(depth) => depth,
        None => 5,
    }
}

/// The search that a call asks for; `exists` says whether its path does.
pub open spec fn grep_request(name: Seq<char>, args: JsonView, exists: bool) -> Result<
    GrepRequestView,
    Seq<char>,
> {
    if name != "grep_search"@ {
        Err(unknown_message(name))
    } else {
        match (args.text_field("path"@), args.text_field("pattern"@)) {
            (None, _) => Err("Missing path"@),
            (_, None) => Err("Missing pattern"@),
            (Some(path), Some(pattern)) => if !exists {
                Err("Path does not exist: "@ + path)
            } else {
                let rest = |matcher: MatcherView|
                    GrepRequestView {
                        path,
                        matcher,
                        replace: args.text_field("replace"@),
                        max_depth: requested_depth(args) as usize,
                    };
                if args.flag_field("is_regex"@) == Some(true) {
                    match compiled(pattern, false, REGEX_SIZE_LIMIT as nat) {
                        Ok(regex) => Ok(rest(MatcherView::Regex(regex))),
                        Err(message) => Err("Invalid regex: "@ + message),
                    }
                } else {
                    Ok(rest(MatcherView::Literal { needle: pattern, case_sensitive: true }))
                }
            },
        }
    }
}

/// What a search has found so far, and the lines of the file it is in.
pub struct GrepScanView {
    pub results: Seq<Seq<char>>,
    pub count: nat,
    pub lines: Seq<Seq<char>>,
    pub modified: bool,
}

/// How a matching line is shown.
pub open spec fn result_line(
    path: Seq<char>,
    number: nat,
    line: Seq<char>,
    replacement: Option<Seq<char>>,
) -> Seq<char> {
    let plain = path + ":"@ + decimal(number) + ": "@ + line;
    match replacement {
        Some(text) => plain + " -> "@ + text,
        None => plain,
    }
}

impl GrepRequestView {
    /// What a matching line becomes, where that is something else.
    pub open spec fn new_line(self, line: Seq<char>) -> Option<Seq<char>> {
        match self.replace {
            Some(with) => if self.matcher.replaced(line, with) != line {
                Some(self.matcher.replaced(line, with))
            } else {
                None
            },
            None => None,
        }
    }

    /// What the search is after lines of a file.
    pub open spec fn scanned(
        self,
        path: Seq<char>,
        lines: Seq<Seq<char>>,
        start: GrepScanView,
    ) -> GrepScanView
        decreases lines.len(),
    {
        if lines.len() == 0 {
            start
        } else {
            let before = self.scanned(path, lines.drop_last(), start);
            let line = lines.last();
            if !self.matcher.found(line) {
                GrepScanView { lines: before.lines.push(line), ..before }
            } else {
                GrepScanView {
                    results: before.results.push(
                        result_line(path, lines.len(), line, self.new_line(line)),
                    ),
                    count: before.count + 1,
                    lines: before.lines.push(
                        match self.new_line(line) {
                            Some(text) => text,
                            None => line,
                        },
                    ),
                    modified: before.modified || self.new_line(line) is Some,
                }
            }
        }
    }
}

/// What a search over files has found so far.
pub struct GrepState {
    results: Vec<String>,
    count: u64,
}

/// What a [`GrepState`] holds.
pub struct GrepStateView {
    pub results: Seq<Seq<char>>,
    pub count: nat,
}

impl View for GrepState {
    type V = GrepStateView;

    closed spec fn view(&self) -> GrepStateView {
        GrepStateView { results: views(self.results@), count: self.count as nat }
    }
}

impl GrepRequestView {
    /// What scanning one file gives.
    pub open spec fn scan_of(self, path: Seq<char>, text: Seq<char>, state: GrepStateView) -> GrepScanView {
        self.scanned(
            path,
            lines(text),
            GrepScanView {
                results: state.results,
                count: state.count,
                lines: seq![],
                modified: false,
            },
        )
    }
}

/// What a search reports in the end.
pub open spec fn grep_summary(state: GrepStateView) -> Seq<char> {
    "Found "@ + decimal(state.count) + " matches.\n\n"@ + joined(state.results, "\n"@)
}

fn show_line(path: &str, number: u64, line: &str, replacement: &Option<String>) -> (r: String)
    ensures
        r@ == result_line(path@, number as nat, line@, opt_view(*replacement)),
{
    let plain = cat5(path, ":", &decimal_text(number), ": ", line);
    match replacement {
        Some(text) => crate::text::cat3(&plain, " -> ", text),
        None => plain,
    }
}

impl GrepState {
    /// Nothing found yet.
    pub fn new() -> (r: GrepState)
        ensures
            r@ == (GrepStateView { results: seq![], count: 0 }),
    {
        let state = GrepState { results: Vec::new(), count: 0 };
        assert(views(state.results@) =~= seq![]);
        state
    }

    /// How many matches were found.
    pub fn count(&self) -> (r: u64)
        ensures
            r == self@.count,
    {
        self.count
    }
}

impl GrepRequest {
    fn changed_line(&self, line: &str) -> (r: Option<String>)
        ensures
            opt_view(r) == self@.new_line(line@),
    {
        match &self.replace {
            Some(with) => {
                let text = self.matcher.replace(line, with);
                if same(&text, line) {
                    None
                } else {
                    Some(text)
                }
            },
            None => None,
        }
    }

    /// Searches the text of one file. Gives back what the file is to be
    /// rewritten to, where something in it changed.
    pub fn scan_file(&self, state: &mut GrepState, path: &str, content: &str) -> (r: Option<String>)
        requires
            old(state)@.count + lines(content@).len() <= u64::MAX,
        ensures
            ({
                let out = self@.scan_of(path@, content@, old(state)@);
                &&& final(state)@.results == out.results
                &&& final(state)@.count == out.count
                &&& opt_view(r) == if out.modified {
                    Some(joined(out.lines, "\n"@))
                } else {
                    None
                }
            }),
    {
        let list = split_lines(content);
        let ghost all = views(list@);
        let ghost start = GrepScanView {
            results: state@.results,
            count: state@.count,
            lines: seq![],
            modified: false,
        };
        let mut fresh: Vec<String> = Vec::new();
        let mut modified: bool = false;
        let mut i: usize = 0;
        assert(all.take(0) =~= seq![]);
        assert(views(fresh@) =~= seq![]);
        while i < list.len()
            invariant
                0 <= i <= list@.len(),
                all == views(list@),
                start.count + all.len() <= u64::MAX,
                start.count <= state.count <= start.count + i,
                ({
                    let out = self@.scanned(path@, all.take(i as int), start);
                    &&& views(state.results@) == out.results
                    &&& state.count == out.count
                    &&& views(fresh@) == out.lines
                    &&& modified == out.modified
                }),
            decreases list@.len() - i,
        {
            let line = &list[i];
            let ghost before = fresh@;
            let ghost hits = state.results@;
            proof {
                assert(all.take(i + 1).drop_last() =~= all.take(i as int));
                assert(all.take(i + 1).last() == line@);
            }
            if !self.matcher.find(line) {
                fresh.push(line.clone());
                assert(views(fresh@) =~= views(before).push(line@));
            } else {
                state.count = state.count + 1;
                let changed = self.changed_line(line);
                let shown = show_line(path, i as u64 + 1, line, &changed);
                state.results.push(shown);
                assert(views(state.results@) =~= views(hits).push(shown@));
                match changed {
                    Some(text) => {
                        modified = true;
                        fresh.push(text);
                        assert(views(fresh@) =~= views(before).push(text@));
                    },
                    None => {
                        fresh.push(line.clone());
                        assert(views(fresh@) =~= views(before).push(line@));
                    },
                }
            }
            i += 1;
        }
        assert(all.take(i as int) =~= all);
        if modified {
            Some(join(&fresh, "\n"))
        } else {
            None
        }
    }
}

impl GrepModule {
    /// The module.
    pub fn new() -> (r: GrepModule)
        ensures
            r == GrepModule,
    {
        GrepModule
    }

    /// Unique identifier of the module.
    pub fn name(&self) -> (r: &'static str)
        ensures
            r@ == "grep"@,
    {
        "grep"
    }

    /// What the module advertises.
    pub fn tools(&self) -> (r: Vec<Tool>)
        ensures
            views(r@) == grep_tools(),
    {
        let tools: Vec<Tool> = vec![
            Tool::new(
                "grep_search",
                GREP_DESCRIPTION,
                schema2(
                    Json::object().with(
                        "path",
                        property("string", "Target file or directory path"),
                    ).with("pattern", property("string", "Pattern to search for")).with(
                        "is_regex",
                        property("boolean", "Whether pattern is regex (default: false)"),
                    ).with(
                        "replace",
                        property("string", "Optional string to replace matches with"),
                    ).with(
                        "max_depth",
                        property("integer", "Max directory depth to search (default: 5)"),
                    ),
                    "path",
                    "pattern",
                ),
            ),
        ];
        assert(views(tools@) =~= grep_tools());
        tools
    }

    /// Reads what a call asks for.
    pub fn plan(&self, name: &str, args: &Json, exists: bool) -> (r: Result<GrepRequest, String>)
        ensures
            module_result(r) == grep_request(name@, args@, exists),
    {
        if !same(name, "grep_search") {
            return Err(say_unknown(name));
        }
        let path = match args.get_text("path") {
            Some(path) => path.clone(),
            None => return Err("Missing path".to_owned()),
        };
        let pattern = match args.get_text("pattern") {
            Some(pattern) => pattern.clone(),
            None => return Err("Missing pattern".to_owned()),
        };
        if !exists {
            return Err(cat2("Path does not exist: ", &path));
        }
        let is_regex: bool = match args.get_flag("is_regex") {
            Some(flag) => flag,
            None => false,
        };
        let with = match args.get_text("replace") {
            Some(text) => Some(text.clone()),
            None => None,
        };
        let depth: u64 = match args.get_unsigned("max_depth") {
            Some(depth) => depth,
            None => 5,
        };
        let matcher = if is_regex {
            match Pattern::new(&pattern, false, REGEX_SIZE_LIMIT) {
                Ok(regex) => Matcher::Regex(regex),
                Err(message) => return Err(cat2("Invalid regex: ", &message)),
            }
        } else {
            Matcher::Literal { needle: pattern, case_sensitive: true }
        };
        Ok(GrepRequest { path, matcher, replace: with, max_depth: depth as usize })
    }

    /// Reports what a search has found.
    pub fn report(&self, state: &GrepState) -> (r: CallToolResult)
        ensures
            r@ == CallToolResultView::text(grep_summary(state@)),
    {
        CallToolResult::text(
            cat4(
                "Found ",
                &decimal_text(state.count),
                " matches.\n\n",
                &join(&state.results, "\n"),
            ),
        )
    }
}

/// Without a replacement no file is ever rewritten.
pub proof fn lemma_search_rewrites_nothing(
    request: GrepRequestView,
    path: Seq<char>,
    list: Seq<Seq<char>>,
    start: GrepScanView,
)
    requires
        request.replace is None,
        !start.modified,
    ensures
        !request.scanned(path, list, start).modified,
    decreases list.len(),
{
    if list.len() > 0 {
        lemma_search_rewrites_nothing(request, path, list.drop_last(), start);
    }
}

/// Each line that matches is one result, in the order of the lines: the file, the
/// number of the line from one on, its text, and what it becomes where that is
/// something else. Every match is counted, no other line is, and every line is kept,
/// as it is or as it becomes.
pub proof fn lemma_one_line_more(
    request: GrepRequestView,
    path: Seq<char>,
    lines: Seq<Seq<char>>,
    line: Seq<char>,
    start: GrepScanView,
)
    ensures
        ({
            let before = request.scanned(path, lines, start);
            let after = request.scanned(path, lines.push(line), start);
            let place = path + ":"@ + decimal(lines.len() + 1) + ": "@ + line;
            let new_line = match request.replace {
                Some(with) => request.matcher.replaced(line, with),
                None => line,
            };
            if !request.matcher.found(line) {
                after.results == before.results && after.count == before.count && after.modified
                    == before.modified && after.lines == before.lines.push(line)
            } else {
                &&& after.count == before.count + 1
                &&& after.lines == before.lines.push(new_line)
                &&& after.modified <==> before.modified || new_line != line
                &&& new_line == line ==> after.results == before.results.push(place)
                &&& new_line != line ==> after.results == before.results.push(
                    place + " -> "@ + new_line,
                )
            }
        }),
        request.scanned(path, seq![], start) == start,
{
    assert(lines.push(line).drop_last() =~= lines);
}

/// A file is rewritten line by line: it keeps as many lines as it has, each of which
/// is what replacing makes of it where it matches, and as it was where it does not.
/// It is written exactly where one of them changes.
pub proof fn lemma_lines_are_rewritten(
    request: GrepRequestView,
    path: Seq<char>,
    lines: Seq<Seq<char>>,
    start: GrepScanView,
)
    requires
        start.lines.len() == 0,
        !start.modified,
    ensures
        ({
            let out = request.scanned(path, lines, start);
            &&& out.lines.len() == lines.len()
            &&& forall|i: int|
                0 <= i < lines.len() ==> #[trigger] out.lines[i] == match request.replace {
                    Some(with) if request.matcher.found(lines[i]) => request.matcher.replaced(
                        lines[i],
                        with,
                    ),
                    _ => lines[i],
                }
            &&& out.modified <==> exists|i: int|
                0 <= i < lines.len() && #[trigger] out.lines[i] != lines[i]
            &&& start.count <= out.count <= start.count + lines.len()
            &&& out.results.len() == start.results.len() + (out.count - start.count)
        }),
    decreases lines.len(),
{
    if lines.len() > 0 {
        let front = lines.drop_last();
        let end = lines.len() - 1;
        lemma_lines_are_rewritten(request, path, front, start);
        let before = request.scanned(path, front, start);
        let out = request.scanned(path, lines, start);
        assert(forall|i: int| 0 <= i < end ==> #[trigger] lines[i] == front[i]);
        assert(forall|i: int| 0 <= i < end ==> #[trigger] out.lines[i] == before.lines[i]);
        assert(lines[end] == lines.last());
        if before.modified {
            let i = choose|i: int| 0 <= i < front.len() && #[trigger] before.lines[i] != front[i];
            assert(out.lines[i] == before.lines[i] && lines[i] == front[i]);
        }
        if out.modified && !before.modified {
            assert(out.lines[end] != lines[end]);
        }
        if exists|i: int| 0 <= i < lines.len() && #[trigger] out.lines[i] != lines[i] {
            let i = choose|i: int| 0 <= i < lines.len() && #[trigger] out.lines[i] != lines[i];
            if i < end {
                assert(before.lines[i] != front[i]);
            }
        }
    }
}

/// A search for a text looks for it as it is written and, where it replaces it, cuts
/// the line at every occurrence and puts the replacement there.
pub proof fn lemma_plain_searches(
    name: Seq<char>,
    args: JsonView,
    line: Seq<char>,
    with: Seq<char>,
) -> (parts: Seq<Seq<char>>)
    requires
        args.field("pattern"@) matches Some(JsonView::Text(pattern)) && pattern.len() > 0,
        args.field("is_regex"@) is None,
        grep_request(name, args, true) is Ok,
    ensures
        ({
            let pattern = args.field("pattern"@)->0->Text_0;
            let matcher = grep_request(name, args, true)->Ok_0.matcher;
            &&& is_cut(line, pattern, parts)
            &&& matcher.found(line) <==> parts.len() > 1
            &&& matcher.replaced(line, with) == glued(parts, with)
        }),
{
    let pattern = args.field("pattern"@)->0->Text_0;
    let parts = lemma_replacing_cuts(line, pattern, with);
    lemma_literal_is_found(pattern, line);
    lemma_find_from(line, pattern, 0);
    if parts.len() == 1 {
        assert(glued(parts, pattern) == parts[0]);
        assert(parts.last() == line);
    } else {
        let first = parts[0];
        let rest = glued(parts.drop_first(), pattern);
        assert(line == first + pattern + rest);
        assert(line.subrange(first.len() as int, (first.len() + pattern.len()) as int) =~= pattern);
        assert(occurs_at(line, pattern, first.len() as int));
    }
    parts
}

/// A search is made as it is asked for: under the path, to the depth that is given or
/// five deep, with a replacement where one is given. It needs a path that is there and
/// a pattern.
pub proof fn lemma_grep_arguments(args: JsonView, exists: bool)
    ensures
        grep_request("grep_search"@, args, exists) matches Ok(request) ==> {
            &&& exists
            &&& args.field("path"@) == Some(JsonView::Text(request.path))
            &&& request.replace == match args.field("replace"@) {
                Some(JsonView::Text(with)) => Some(with),
                _ => None,
            }
            &&& request.max_depth == match args.field("max_depth"@) {
                Some(JsonView::Number(JsonNumber::Unsigned(n))) => n as usize,
                _ => 5usize,
            }
            &&& args.field("pattern"@) matches Some(JsonView::Text(pattern)) && if args.field(
                "is_regex"@,
            ) == Some(JsonView::Bool(true)) {
                request.matcher matches MatcherView::Regex(regex) && compiled(
                    pattern,
                    false,
                    REGEX_SIZE_LIMIT as nat,
                ) == Ok::<PatternView, Seq<char>>(regex)
            } else {
                request.matcher == (MatcherView::Literal { needle: pattern, case_sensitive: true })
            }
        },
        args.field("path"@) matches Some(JsonView::Text(_)) && args.field("pattern"@) matches Some(
            JsonView::Text(_),
        ) && args.field("is_regex"@) is None ==> (grep_request("grep_search"@, args, exists) is Ok
            <==> exists),
        forall|name: Seq<char>|
            name != "grep_search"@ ==> #[trigger] grep_request(name, args, exists) is Err,
{
}

/// The summary counts the matches and lists the results, one below the other.
pub proof fn lemma_summary(state: GrepStateView, more: Seq<char>)
    requires
        state.results.len() > 0,
    ensures
        grep_summary(
            GrepStateView { results: state.results.push(more), count: state.count },
        ) == grep_summary(state) + "\n"@ + more,
        starts_with(grep_summary(state), "Found "@ + decimal(state.count) + " matches."@),
{
    reveal_strlit("\n");
    reveal_strlit(" matches.");
    reveal_strlit(" matches.\n\n");
    let all = state.results.push(more);
    let head = "Found "@ + decimal(state.count) + " matches.\n\n"@;
    assert(all.drop_last() =~= state.results);
    assert(joined(all, "\n"@) == joined(state.results, "\n"@) + "\n"@ + more);
    assert(head + (joined(state.results, "\n"@) + "\n"@ + more) =~= (head + joined(
        state.results,
        "\n"@,
    )) + "\n"@ + more);
    let start = "Found "@ + decimal(state.count) + " matches."@;
    assert(grep_summary(state).subrange(0, start.len() as int) =~= start);
}

/// What the tool takes.
pub proof fn lemma_grep_schema()
    ensures
        grep_tools().len() == 1,
        grep_tools()[0].name == "grep_search"@,
        needs(grep_tools()[0].input_schema, seq!["path"@, "pattern"@]),
        takes(grep_tools()[0].input_schema, "path"@, "string"@),
        takes(grep_tools()[0].input_schema, "pattern"@, "string"@),
        takes(grep_tools()[0].input_schema, "is_regex"@, "boolean"@),
        takes(grep_tools()[0].input_schema, "replace"@, "string"@),
        takes(grep_tools()[0].input_schema, "max_depth"@, "integer"@),
{
    reveal_strlit("type");
    reveal_strlit("properties");
    reveal_strlit("required");
    reveal_strlit("description");
    reveal_strlit("path");
    reveal_strlit("pattern");
    reveal_strlit("is_regex");
    reveal_strlit("replace");
    reveal_strlit("max_depth");
    assert("type"@.len() == 4);
    assert("properties"@.len() == 10);
    assert("required"@.len() == 8);
    assert("description"@.len() == 11);
    assert("path"@.len() == 4);
    assert("pattern"@.len() == 7);
    assert("is_regex"@.len() == 8);
    assert("replace"@.len() == 7);
    assert("max_depth"@.len() == 9);
    assert("type"@[0] == 't');
    assert("required"@[0] == 'r');
    assert("path"@[0] == 'p');
    assert("pattern"@[0] == 'p');
    assert("is_regex"@[0] == 'i');
    assert("replace"@[0] == 'r');
}

/// A file is rewritten exactly where one of its lines becomes another; it then keeps its
/// lines, each as it is or as it has become, and its results come behind those of the
/// files before it.
pub proof fn lemma_file_scan(
    request: GrepRequestView,
    path: Seq<char>,
    text: Seq<char>,
    state: GrepStateView,
)
    ensures
        ({
            let out = request.scan_of(path, text, state);
            let all = lines(text);
            &&& out.lines.len() == all.len()
            &&& out.modified <==> exists|i: int|
                0 <= i < all.len() && #[trigger] out.lines[i] != all[i]
            &&& forall|i: int|
                0 <= i < all.len() ==> #[trigger] out.lines[i] == match request.replace {
                    Some(with) if request.matcher.found(all[i]) => request.matcher.replaced(
                        all[i],
                        with,
                    ),
                    _ => all[i],
                }
            &&& out.results.len() == state.results.len() + (out.count - state.count)
            &&& forall|i: int|
                0 <= i < state.results.len() ==> #[trigger] out.results[i] == state.results[i]
        }),
{
    let start = GrepScanView {
        results: state.results,
        count: state.count,
        lines: seq![],
        modified: false,
    };
    lemma_lines_are_rewritten(request, path, lines(text), start);
    lemma_results_stay(request, path, lines(text), start);
}

proof fn lemma_results_stay(
    request: GrepRequestView,
    path: Seq<char>,
    lines: Seq<Seq<char>>,
    start: GrepScanView,
)
    ensures
        start.results.len() <= request.scanned(path, lines, start).results.len(),
        forall|i: int|
            0 <= i < start.results.len() ==> #[trigger] request.scanned(
                path,
                lines,
                start,
            ).results[i] == start.results[i],
    decreases lines.len(),
{
    if lines.len() > 0 {
        lemma_results_stay(request, path, lines.drop_last(), start);
    }
}

} // verus!
