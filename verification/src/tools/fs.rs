//! Filesystem search and replace.
//!
//! Replacement is opt-in (`apply: true`), previewed by default, and byte-exact
//! for line endings.

use vstd::prelude::*;

use super::args::{
    bool_arg, bool_or, opt_string, opt_string_arg, string, string_arg, u64_arg, u64_or,
};
use super::context::{
    gate, resolved_path, OnDisk, OnDiskView, ToolContext, ToolContextView, FILE_MUTATION_DENIED,
};
use super::fold::{replace_ignore_case, replaced_ignoring_case};
use super::schema::{needs, object_schema, property, property_schema, schema2, takes};
use super::text::{compile, compiled_argument};
use crate::bytes::{find_byte, first_position};
use crate::error::{tool_result, ToolError, ToolErrorView, ToolResult};
use crate::json::{json_number, json_texts, Json, JsonView};
use crate::pattern::{regex_matches, regex_replaced, Pattern, PatternView};
use crate::protocol::mcp::{CallToolResult, CallToolResultView, Tool, ToolView};
use crate::sorted::{insert, inserted, is_sorted, lemma_inserted};
use crate::text::{
    cat3, chars_of, contains, find_from, glued, has, is_cut, lemma_find_from, lemma_glued_end,
    lemma_replacing_cuts,
    lowercase, lowercase_text, occurs_at, opt_view, raw_lines, replace, replaced, same, slice_text,
    split_inclusive, substituted, views,
};

verus! {

/// The tools on files.
pub struct FsTools;

/// How many matching lines are reported where the caller does not say.
pub const DEFAULT_MAX_RESULTS: u64 = 500;

/// How deep directories are searched where the caller does not say.
pub const DEFAULT_MAX_DEPTH: u64 = 16;

/// How many bytes of a file are looked at to tell that it is binary.
pub const BINARY_PROBE: usize = 8192;

/// What `grep_search` does.
pub const SEARCH_DESCRIPTION: &'static str = "Searches files under a path for a literal string or regular expression, skipping binaries and anything ignored by .gitignore. With `apply: true` and a `replace` value it rewrites matches in place, preserving line endings; otherwise it only previews what would change.";

/// The descriptor of `grep_search`.
pub open spec fn search_tool() -> ToolView {
    ToolView::new(
        "grep_search"@,
        SEARCH_DESCRIPTION@,
        object_schema(
            JsonView::object().with(
                "path"@,
                property_schema("string"@, "Absolute file or directory path to search"@),
            ).with("pattern"@, property_schema("string"@, "Text or regex to find"@)).with(
                "is_regex"@,
                property_schema(
                    "boolean"@,
                    "Treat `pattern` as a regular expression (default false)"@,
                ),
            ).with(
                "case_sensitive"@,
                property_schema("boolean"@, "Match case exactly (default true)"@),
            ).with(
                "replace"@,
                property_schema(
                    "string"@,
                    "Replacement text. Regex captures like $1 are expanded."@,
                ),
            ).with(
                "apply"@,
                property_schema(
                    "boolean"@,
                    "Write the replacement to disk. Default false: preview only."@,
                ),
            ).with(
                "glob"@,
                property_schema(
                    "string"@,
                    "Only search files matching this glob, e.g. \"*.rs\""@,
                ),
            ).with(
                "max_depth"@,
                property_schema("integer"@, "Directory recursion depth (default 16)"@),
            ).with(
                "max_results"@,
                property_schema("integer"@, "Maximum matching lines to report (default 500)"@),
            ),
            seq!["path"@, "pattern"@],
        ),
    )
}

impl FsTools {
    /// What the group advertises.
    pub fn descriptors(&self) -> (r: Vec<Tool>)
        ensures
            views(r@) == seq![search_tool()],
    {
        let search = Tool::new(
            "grep_search",
            SEARCH_DESCRIPTION,
            schema2(
                Json::object().with(
                    "path",
                    property("string", "Absolute file or directory path to search"),
                ).with("pattern", property("string", "Text or regex to find")).with(
                    "is_regex",
                    property(
                        "boolean",
                        "Treat `pattern` as a regular expression (default false)",
                    ),
                ).with(
                    "case_sensitive",
                    property("boolean", "Match case exactly (default true)"),
                ).with(
                    "replace",
                    property("string", "Replacement text. Regex captures like $1 are expanded."),
                ).with(
                    "apply",
                    property(
                        "boolean",
                        "Write the replacement to disk. Default false: preview only.",
                    ),
                ).with(
                    "glob",
                    property("string", "Only search files matching this glob, e.g. \"*.rs\""),
                ).with(
                    "max_depth",
                    property("integer", "Directory recursion depth (default 16)"),
                ).with(
                    "max_results",
                    property("integer", "Maximum matching lines to report (default 500)"),
                ),
                "path",
                "pattern",
            ),
        );
        let tools: Vec<Tool> = vec![search];
        assert(views(tools@) =~= seq![search_tool()]);
        tools
    }
}

// ---------------------------------------------------------------------------
// Matching a line

/// What is looked for.
pub enum Matcher {
    Literal { needle: String, case_sensitive: bool },
    Regex(Pattern),
}

/// What a [`Matcher`] looks for.
pub enum MatcherView {
    Literal { needle: Seq<char>, case_sensitive: bool },
    Regex(PatternView),
}

impl View for Matcher {
    type V = MatcherView;

    open spec fn view(&self) -> MatcherView {
        match self {
            Matcher::Literal { needle, case_sensitive } => MatcherView::Literal {
                needle: needle@,
                case_sensitive: *case_sensitive,
            },
            Matcher::Regex(pattern) => MatcherView::Regex(pattern@),
        }
    }
}

impl MatcherView {
    /// Whether a line matches.
    pub open spec fn found(self, line: Seq<char>) -> bool {
        match self {
            MatcherView::Literal { needle, case_sensitive } => if case_sensitive {
                contains(line, needle)
            } else {
                contains(lowercase_text(line), lowercase_text(needle))
            },
            MatcherView::Regex(pattern) => pattern.matches(line),
        }
    }

    /// A line with its matches replaced.
    pub open spec fn replaced(self, line: Seq<char>, with: Seq<char>) -> Seq<char> {
        match self {
            MatcherView::Literal { needle, case_sensitive } => if case_sensitive {
                replaced(line, needle, with)
            } else {
                replaced_ignoring_case(line, needle, with)
            },
            MatcherView::Regex(pattern) => pattern.replaced(line, with),
        }
    }
}

impl Matcher {
    /// Whether a line matches.
    pub fn find(&self, line: &str) -> (r: bool)
        ensures
            r == self@.found(line@),
    {
        match self {
            Matcher::Literal { needle, case_sensitive } => if *case_sensitive {
                has(line, needle)
            } else {
                has(&lowercase(line), &lowercase(needle))
            },
            Matcher::Regex(pattern) => pattern.matches(line),
        }
    }

    /// A line with its matches replaced.
    pub fn replace(&self, line: &str, with: &str) -> (r: String)
        ensures
            r@ == self@.replaced(line@, with@),
    {
        match self {
            Matcher::Literal { needle, case_sensitive } => if *case_sensitive {
                replace(line, needle, with)
            } else {
                replace_ignore_case(line, needle, with)
            },
            Matcher::Regex(pattern) => pattern.replace(line, with),
        }
    }
}

// ---------------------------------------------------------------------------
// The request

/// A search that was asked for.
pub struct SearchRequest {
    pub root: String,
    pub matcher: Matcher,
    pub replace: Option<String>,
    pub apply: bool,
    pub glob: Option<String>,
    pub max_depth: usize,
    pub max_results: usize,
}

/// What a [`SearchRequest`] asks for.
pub struct SearchRequestView {
    pub root: Seq<char>,
    pub matcher: MatcherView,
    pub replace: Option<Seq<char>>,
    pub apply: bool,
    pub glob: Option<Seq<char>>,
    pub max_depth: usize,
    pub max_results: usize,
}

impl View for SearchRequest {
    type V = SearchRequestView;

    open spec fn view(&self) -> SearchRequestView {
        SearchRequestView {
            root: self.root@,
            matcher: self.matcher@,
            replace: opt_view(self.replace),
            apply: self.apply,
            glob: opt_view(self.glob),
            max_depth: self.max_depth,
            max_results: self.max_results,
        }
    }
}

/// A number as far as a `usize` holds it.
pub open spec fn clamped(n: u64) -> usize {
    if n <= usize::MAX {
        n as usize
    } else {
        usize::MAX
    }
}

fn clamp_size(n: u64) -> (r: usize)
    ensures
        r == clamped(n),
{
    if n <= usize::MAX as u64 {
        n as usize
    } else {
        usize::MAX
    }
}

/// What the arguments say is looked for.
pub open spec fn requested_matcher(args: JsonView) -> Result<MatcherView, ToolErrorView> {
    match string_arg(args, "pattern"@) {
        Err(err) => Err(err),
        Ok(pattern) => if pattern.len() == 0 {
            Err(ToolErrorView::InvalidArguments("pattern must not be empty"@))
        } else {
            match bool_arg(args, "case_sensitive"@, true) {
                Err(err) => Err(err),
                Ok(case_sensitive) => match bool_arg(args, "is_regex"@, false) {
                    Err(err) => Err(err),
                    Ok(true) => match compiled_argument(pattern, !case_sensitive) {
                        Err(err) => Err(err),
                        Ok(compiled) => Ok(MatcherView::Regex(compiled)),
                    },
                    Ok(false) => Ok(MatcherView::Literal { needle: pattern, case_sensitive }),
                },
            }
        },
    }
}

/// What the arguments say is to be done with the matches: a replacement that is
/// to be written needs a text and the permission to change files.
pub open spec fn requested_change(args: JsonView, ctx: ToolContextView) -> Result<
    (Option<Seq<char>>, bool),
    ToolErrorView,
> {
    match opt_string_arg(args, "replace"@) {
        Err(err) => Err(err),
        Ok(with) => match bool_arg(args, "apply"@, false) {
            Err(err) => Err(err),
            Ok(apply) => if apply && with is None {
                Err(
                    ToolErrorView::InvalidArguments(
                        "`apply` was set but no `replace` value was given"@,
                    ),
                )
            } else {
                match gate(!apply || ctx.policy.allow_file_mutation, FILE_MUTATION_DENIED@) {
                    Err(err) => Err(err),
                    Ok(_) => Ok((with, apply)),
                }
            },
        },
    }
}

/// The search that the arguments ask for. `disk` is what the filesystem
/// says of the path; `exists` says whether the path that is meant does.
pub open spec fn search_request(
    args: JsonView,
    ctx: ToolContextView,
    disk: OnDiskView,
    exists: bool,
) -> Result<SearchRequestView, ToolErrorView> {
    match string_arg(args, "path"@) {
        Err(err) => Err(err),
        Ok(raw) => match resolved_path(ctx.roots, raw, disk) {
            Err(err) => Err(err),
            Ok(root) => if !exists {
                Err(ToolErrorView::InvalidArguments("path "@ + root + " does not exist"@))
            } else {
                match requested_matcher(args) {
                    Err(err) => Err(err),
                    Ok(matcher) => match requested_change(args, ctx) {
                        Err(err) => Err(err),
                        Ok((with, apply)) => match opt_string_arg(args, "glob"@) {
                            Err(err) => Err(err),
                            Ok(glob) => match u64_arg(args, "max_depth"@, DEFAULT_MAX_DEPTH) {
                                Err(err) => Err(err),
                                Ok(depth) => match u64_arg(
                                    args,
                                    "max_results"@,
                                    DEFAULT_MAX_RESULTS,
                                ) {
                                    Err(err) => Err(err),
                                    Ok(results) => Ok(
                                        SearchRequestView {
                                            root,
                                            matcher,
                                            replace: with,
                                            apply,
                                            glob,
                                            max_depth: clamped(depth),
                                            max_results: clamped(results),
                                        },
                                    ),
                                },
                            },
                        },
                    },
                }
            },
        },
    }
}

fn read_matcher(args: &Json) -> (r: ToolResult<Matcher>)
    ensures
        tool_result(r) == requested_matcher(args@),
{
    let pattern = match string(args, "pattern") {
        Ok(pattern) => pattern,
        Err(err) => return Err(err),
    };
    if chars_of(&pattern).len() == 0 {
        return Err(ToolError::InvalidArguments("pattern must not be empty".to_owned()));
    }
    let case_sensitive: bool = match bool_or(args, "case_sensitive", true) {
        Ok(flag) => flag,
        Err(err) => return Err(err),
    };
    let is_regex: bool = match bool_or(args, "is_regex", false) {
        Ok(flag) => flag,
        Err(err) => return Err(err),
    };
    if is_regex {
        match compile(&pattern, !case_sensitive) {
            Ok(compiled) => Ok(Matcher::Regex(compiled)),
            Err(err) => Err(err),
        }
    } else {
        Ok(Matcher::Literal { needle: pattern, case_sensitive })
    }
}

fn read_change(args: &Json, ctx: &ToolContext) -> (r: ToolResult<(Option<String>, bool)>)
    ensures
        match r {
            Ok((with, apply)) => requested_change(args@, ctx@) == Ok::<
                (Option<Seq<char>>, bool),
                ToolErrorView,
            >((opt_view(with), apply)),
            Err(err) => requested_change(args@, ctx@) == Err::<
                (Option<Seq<char>>, bool),
                ToolErrorView,
            >(err@),
        },
{
    let with = match opt_string(args, "replace") {
        Ok(with) => with,
        Err(err) => return Err(err),
    };
    let apply: bool = match bool_or(args, "apply", false) {
        Ok(apply) => apply,
        Err(err) => return Err(err),
    };
    if apply {
        if with.is_none() {
            return Err(
                ToolError::InvalidArguments(
                    "`apply` was set but no `replace` value was given".to_owned(),
                ),
            );
        }
        match ctx.require_file_mutation() {
            Ok(_) => {},
            Err(err) => return Err(err),
        }
    }
    Ok((with, apply))
}

// ---------------------------------------------------------------------------
// Scanning a file

/// Whether a character ends a line.
pub open spec fn is_line_end(c: char) -> bool {
    c == '\n' || c == '\r'
}

/// A line without the characters that end it.
pub open spec fn body_of(raw: Seq<char>) -> Seq<char>
    decreases raw.len(),
{
    if raw.len() > 0 && is_line_end(raw.last()) {
        body_of(raw.drop_last())
    } else {
        raw
    }
}

/// The characters that end a line.
pub open spec fn terminator_of(raw: Seq<char>) -> Seq<char> {
    raw.skip(body_of(raw).len() as int)
}

/// One matching line as JSON.
pub open spec fn hit_json(
    path: Seq<char>,
    line: nat,
    body: Seq<char>,
    replacement: Option<Seq<char>>,
) -> JsonView {
    let hit = JsonView::object().with("file"@, JsonView::Text(path)).with(
        "line"@,
        json_number(line as u64),
    ).with("text"@, JsonView::Text(body));
    match replacement {
        Some(text) => hit.with("replacement"@, JsonView::Text(text)),
        None => hit,
    }
}

/// What a scan has found so far, and the text it has rebuilt.
pub struct ScanView {
    pub hits: Seq<JsonView>,
    pub total: nat,
    pub rebuilt: Seq<char>,
    pub modified: bool,
}

impl SearchRequestView {
    /// What a matching line becomes, where that is something else.
    pub open spec fn new_body(self, body: Seq<char>) -> Option<Seq<char>> {
        match self.replace {
            Some(with) => if self.matcher.replaced(body, with) != body {
                Some(self.matcher.replaced(body, with))
            } else {
                None
            },
            None => None,
        }
    }

    /// What the scan is after lines of a file.
    pub open spec fn scanned(self, path: Seq<char>, lines: Seq<Seq<char>>, start: ScanView) -> ScanView
        decreases lines.len(),
    {
        if lines.len() == 0 {
            start
        } else {
            let before = self.scanned(path, lines.drop_last(), start);
            let raw = lines.last();
            let body = body_of(raw);
            if !self.matcher.found(body) {
                ScanView { rebuilt: before.rebuilt + raw, ..before }
            } else {
                ScanView {
                    hits: if before.hits.len() < self.max_results {
                        before.hits.push(hit_json(path, lines.len(), body, self.new_body(body)))
                    } else {
                        before.hits
                    },
                    total: before.total + 1,
                    rebuilt: before.rebuilt + match self.new_body(body) {
                        Some(text) => text + terminator_of(raw),
                        None => raw,
                    },
                    modified: before.modified || self.new_body(body) is Some,
                }
            }
        }
    }
}

proof fn lemma_body_len(raw: Seq<char>)
    ensures
        body_of(raw).len() <= raw.len(),
        raw.take(body_of(raw).len() as int) == body_of(raw),
    decreases raw.len(),
{
    if raw.len() > 0 && is_line_end(raw.last()) {
        lemma_body_len(raw.drop_last());
        assert(raw.take(body_of(raw).len() as int) =~= raw.drop_last().take(
            body_of(raw).len() as int,
        ));
    } else {
        assert(raw.take(raw.len() as int) =~= raw);
    }
}

fn split_terminator(raw: &str) -> (r: (String, String))
    ensures
        r.0@ == body_of(raw@),
        r.1@ == terminator_of(raw@),
{
    let chars = chars_of(raw);
    let mut end: usize = chars.len();
    assert(chars@.take(end as int) =~= chars@);
    while end > 0 && (chars[end - 1] == '\n' || chars[end - 1] == '\r')
        invariant
            0 <= end <= chars@.len(),
            body_of(chars@) == body_of(chars@.take(end as int)),
        decreases end,
    {
        assert(chars@.take(end as int).drop_last() =~= chars@.take(end - 1));
        end -= 1;
    }
    proof {
        assert(body_of(chars@) =~= chars@.take(end as int));
        assert(chars@.subrange(0, end as int) =~= chars@.take(end as int));
        assert(chars@.subrange(end as int, chars@.len() as int) =~= chars@.skip(end as int));
    }
    (slice_text(&chars, 0, end), slice_text(&chars, end, chars.len()))
}

fn make_hit(path: &str, line: u64, body: &str, replacement: &Option<String>) -> (r: Json)
    ensures
        r@ == hit_json(path@, line as nat, body@, opt_view(*replacement)),
{
    let hit = Json::object().with("file", Json::string(path)).with(
        "line",
        Json::number(line),
    ).with("text", Json::string(body));
    match replacement {
        Some(text) => hit.with("replacement", Json::string(text)),
        None => hit,
    }
}

impl SearchRequest {
    /// Reads the arguments of a search.
    pub fn parse(
        args: &Json,
        ctx: &ToolContext,
        disk: OnDisk,
        exists: bool,
    ) -> (r: ToolResult<SearchRequest>)
        ensures
            tool_result(r) == search_request(args@, ctx@, disk@, exists),
    {
        let raw = match string(args, "path") {
            Ok(raw) => raw,
            Err(err) => return Err(err),
        };
        let root = match ctx.resolve(&raw, disk) {
            Ok(root) => root,
            Err(err) => return Err(err),
        };
        if !exists {
            return Err(ToolError::InvalidArguments(cat3("path ", &root, " does not exist")));
        }
        let matcher = match read_matcher(args) {
            Ok(matcher) => matcher,
            Err(err) => return Err(err),
        };
        let (with, apply) = match read_change(args, ctx) {
            Ok(change) => change,
            Err(err) => return Err(err),
        };
        let glob = match opt_string(args, "glob") {
            Ok(glob) => glob,
            Err(err) => return Err(err),
        };
        let depth: u64 = match u64_or(args, "max_depth", DEFAULT_MAX_DEPTH) {
            Ok(depth) => depth,
            Err(err) => return Err(err),
        };
        let results: u64 = match u64_or(args, "max_results", DEFAULT_MAX_RESULTS) {
            Ok(results) => results,
            Err(err) => return Err(err),
        };
        Ok(
            SearchRequest {
                root,
                matcher,
                replace: with,
                apply,
                glob,
                max_depth: clamp_size(depth),
                max_results: clamp_size(results),
            },
        )
    }

    fn changed_body(&self, body: &str) -> (r: Option<String>)
        ensures
            opt_view(r) == self@.new_body(body@),
    {
        match &self.replace {
            Some(with) => {
                let text = self.matcher.replace(body, with);
                if same(&text, body) {
                    None
                } else {
                    Some(text)
                }
            },
            None => None,
        }
    }

    /// Scans the content of one file: adds the matching lines to `hits`, up to
    /// the limit, and their number to `total`. Gives back the rewritten content
    /// where a replacement changed something.
    pub fn scan_file(&self, path: &str, content: &str, hits: &mut Vec<Json>, total: &mut u64) -> (r:
        Option<String>)
        requires
            *old(total) + raw_lines(content@).len() <= u64::MAX,
        ensures
            ({
                let out = self@.scanned(
                    path@,
                    raw_lines(content@),
                    (ScanView {
                        hits: views(old(hits)@),
                        total: *old(total) as nat,
                        rebuilt: seq![],
                        modified: false,
                    }),
                );
                &&& views(final(hits)@) == out.hits
                &&& *final(total) == out.total
                &&& opt_view(r) == if out.modified {
                    Some(out.rebuilt)
                } else {
                    None
                }
            }),
    {
        let lines = split_inclusive(content);
        let ghost all = views(lines@);
        let ghost start = ScanView {
            hits: views(hits@),
            total: *total as nat,
            rebuilt: seq![],
            modified: false,
        };
        let mut rebuilt = String::new();
        let mut modified: bool = false;
        let mut i: usize = 0;
        assert(all.take(0) =~= seq![]);
        assert(rebuilt@ =~= seq![]);
        while i < lines.len()
            invariant
                0 <= i <= lines@.len(),
                all == views(lines@),
                start.total + all.len() <= u64::MAX,
                start.total <= *total <= start.total + i,
                ({
                    let out = self@.scanned(path@, all.take(i as int), start);
                    &&& views(hits@) == out.hits
                    &&& *total == out.total
                    &&& rebuilt@ == out.rebuilt
                    &&& modified == out.modified
                }),
            decreases lines@.len() - i,
        {
            let raw = &lines[i];
            let ghost prior = self@.scanned(path@, all.take(i as int), start);
            proof {
                assert(all.take(i + 1).drop_last() =~= all.take(i as int));
                assert(all.take(i + 1).last() == raw@);
            }
            let (body, terminator) = split_terminator(raw);
            if !self.matcher.find(&body) {
                rebuilt.append(raw.as_str());
            } else {
                *total = *total + 1;
                let changed = self.changed_body(&body);
                match &changed {
                    Some(text) => {
                        modified = true;
                        rebuilt.append(text.as_str());
                        rebuilt.append(terminator.as_str());
                        assert(rebuilt@ =~= prior.rebuilt + (text@ + terminator@));
                    },
                    None => {
                        rebuilt.append(raw.as_str());
                    },
                }
                if hits.len() < self.max_results {
                    let ghost before = hits@;
                    let hit = make_hit(path, i as u64 + 1, &body, &changed);
                    hits.push(hit);
                    assert(views(hits@) =~= views(before).push(hit@));
                }
            }
            i += 1;
        }
        assert(all.take(i as int) =~= all);
        if modified {
            Some(rebuilt)
        } else {
            None
        }
    }
}

// ---------------------------------------------------------------------------
// Searching many files

/// `String::from_utf8`: the text that bytes write, where they are UTF-8.
#[verifier::external_body]
fn read_utf8(bytes: Vec<u8>) -> (r: Option<String>)
    ensures
        r is Some == vstd::utf8::valid_utf8(bytes@),
        r matches Some(text) ==> text@ == vstd::utf8::decode_utf8(bytes@),
{
    String::from_utf8(bytes).ok()
}

/// The text of a file: none where it cannot be read, where a NUL byte stands
/// near its front, or where it is not UTF-8.
pub open spec fn searchable(content: Option<Seq<u8>>) -> Option<Seq<char>> {
    match content {
        None => None,
        Some(bytes) => if first_position(
            bytes.take(
                if bytes.len() <= BINARY_PROBE {
                    bytes.len() as int
                } else {
                    BINARY_PROBE as int
                },
            ),
            0,
        ) is Some || !vstd::utf8::valid_utf8(bytes) {
            None
        } else {
            Some(vstd::utf8::decode_utf8(bytes))
        },
    }
}

/// The text of a file that can be searched.
pub fn read_searchable(content: Option<Vec<u8>>) -> (r: Option<String>)
    ensures
        opt_view(r) == searchable(opt_view(content)),
{
    match content {
        None => None,
        Some(bytes) => {
            let probe: usize = if bytes.len() <= BINARY_PROBE {
                bytes.len()
            } else {
                BINARY_PROBE
            };
            let front = vstd::slice::slice_subrange(bytes.as_slice(), 0, probe);
            assert(front@ =~= bytes@.take(probe as int));
            match find_byte(0, front) {
                Some(_) => None,
                None => read_utf8(bytes),
            }
        },
    }
}

/// What a search over files has found so far.
pub struct SearchState {
    hits: Vec<Json>,
    total: u64,
    changed: Vec<String>,
    skipped: u64,
}

/// What a [`SearchState`] holds.
pub struct SearchStateView {
    pub hits: Seq<JsonView>,
    pub total: nat,
    pub changed: Seq<Seq<char>>,
    pub skipped: nat,
}

impl View for SearchState {
    type V = SearchStateView;

    closed spec fn view(&self) -> SearchStateView {
        SearchStateView {
            hits: views(self.hits@),
            total: self.total as nat,
            changed: views(self.changed@),
            skipped: self.skipped as nat,
        }
    }
}

impl SearchRequestView {
    /// What scanning one text gives.
    pub open spec fn scan_of(self, path: Seq<char>, text: Seq<char>, state: SearchStateView) -> ScanView {
        self.scanned(
            path,
            raw_lines(text),
            ScanView { hits: state.hits, total: state.total, rebuilt: seq![], modified: false },
        )
    }

    /// What a search has found after one more file.
    pub open spec fn absorbed(
        self,
        state: SearchStateView,
        path: Seq<char>,
        content: Option<Seq<u8>>,
    ) -> SearchStateView {
        match searchable(content) {
            None => SearchStateView { skipped: state.skipped + 1, ..state },
            Some(text) => {
                let scan = self.scan_of(path, text, state);
                SearchStateView {
                    hits: scan.hits,
                    total: scan.total,
                    changed: if scan.modified {
                        inserted(state.changed, path)
                    } else {
                        state.changed
                    },
                    skipped: state.skipped,
                }
            },
        }
    }

    /// What one file is to be rewritten to, where something in it changed and the
    /// changes are to be applied.
    pub open spec fn rewrite(
        self,
        state: SearchStateView,
        path: Seq<char>,
        content: Option<Seq<u8>>,
    ) -> Option<Seq<char>> {
        match searchable(content) {
            None => None,
            Some(text) => {
                let scan = self.scan_of(path, text, state);
                if scan.modified && self.apply {
                    Some(scan.rebuilt)
                } else {
                    None
                }
            },
        }
    }

    /// What the search reports in the end.
    pub open spec fn report(self, state: SearchStateView) -> JsonView {
        JsonView::object().with("root"@, JsonView::Text(self.root)).with(
            "matches"@,
            json_number(state.total as u64),
        ).with("truncated"@, JsonView::Bool(state.total > state.hits.len())).with(
            "results"@,
            JsonView::Array(state.hits),
        ).with(
            "files_modified"@,
            json_texts(
                if self.apply {
                    state.changed
                } else {
                    seq![]
                },
            ),
        ).with(
            "files_would_be_modified"@,
            json_texts(
                if self.apply {
                    seq![]
                } else {
                    state.changed
                },
            ),
        ).with("applied"@, JsonView::Bool(self.apply)).with(
            "unreadable_or_binary_files_skipped"@,
            json_number(state.skipped as u64),
        )
    }
}

impl SearchState {
    /// Nothing found yet.
    pub fn new() -> (r: SearchState)
        ensures
            r@ == (SearchStateView { hits: seq![], total: 0, changed: seq![], skipped: 0 }),
    {
        let state = SearchState {
            hits: Vec::new(),
            total: 0,
            changed: Vec::new(),
            skipped: 0,
        };
        assert(views(state.hits@) =~= seq![]);
        assert(views(state.changed@) =~= seq![]);
        state
    }

    /// How many more lines and files the counters can take.
    pub fn room(&self) -> (r: u64)
        ensures
            r == u64::MAX - if self@.total >= self@.skipped {
                self@.total
            } else {
                self@.skipped
            },
    {
        if self.total >= self.skipped {
            u64::MAX - self.total
        } else {
            u64::MAX - self.skipped
        }
    }
}

proof fn lemma_lines_within(s: Seq<char>)
    ensures
        raw_lines(s).len() <= s.len(),
    decreases s.len(),
{
    let n = crate::text::line_len(s);
    if 0 < n <= s.len() {
        lemma_lines_within(s.subrange(n, s.len() as int));
    }
}

proof fn lemma_chars_within(bytes: Seq<u8>)
    requires
        vstd::utf8::valid_utf8(bytes),
    ensures
        vstd::utf8::decode_utf8(bytes).len() <= bytes.len(),
    decreases bytes.len(),
{
    if bytes.len() > 0 {
        lemma_chars_within(vstd::utf8::pop_first_scalar(bytes));
    }
}

impl SearchRequest {
    /// Searches one more file, whose content could not be read where it is
    /// `None`. Gives back what the file is to be rewritten to, where something in
    /// it changed and the changes are to be applied.
    pub fn absorb(&self, state: &mut SearchState, path: &str, content: Option<Vec<u8>>) -> (r: Option<
        String,
    >)
        requires
            old(state)@.total + (match content {
                Some(bytes) => bytes@.len(),
                None => 0,
            }) <= u64::MAX,
            old(state)@.skipped < u64::MAX,
        ensures
            final(state)@ == self@.absorbed(old(state)@, path@, opt_view(content)),
            opt_view(r) == self@.rewrite(old(state)@, path@, opt_view(content)),
            !self@.apply ==> r is None,
    {
        match read_searchable(content) {
            None => {
                state.skipped = state.skipped + 1;
                None
            },
            Some(text) => {
                proof {
                    let bytes = content->0@;
                    lemma_chars_within(bytes);
                    lemma_lines_within(text@);
                }
                let rewritten = self.scan_file(path, &text, &mut state.hits, &mut state.total);
                match rewritten {
                    Some(fresh) => {
                        insert(&mut state.changed, path);
                        if self.apply {
                            Some(fresh)
                        } else {
                            None
                        }
                    },
                    None => None,
                }
            },
        }
    }

    /// Reports what the search has found.
    pub fn report(&self, state: SearchState) -> (r: CallToolResult)
        ensures
            r@ == CallToolResultView::structured(self@.report(state@)),
    {
        let none: Vec<String> = Vec::new();
        assert(views(none@) =~= seq![]);
        let truncated: bool = state.total > state.hits.len() as u64;
        let modified = if self.apply {
            Json::strings(&state.changed)
        } else {
            Json::strings(&none)
        };
        let would_be = if self.apply {
            Json::strings(&none)
        } else {
            Json::strings(&state.changed)
        };
        CallToolResult::structured(
            Json::object().with("root", Json::string(&self.root)).with(
                "matches",
                Json::number(state.total),
            ).with("truncated", Json::Bool(truncated)).with(
                "results",
                Json::array(state.hits),
            ).with("files_modified", modified).with("files_would_be_modified", would_be).with(
                "applied",
                Json::Bool(self.apply),
            ).with("unreadable_or_binary_files_skipped", Json::number(state.skipped)),
        )
    }
}

// ---------------------------------------------------------------------------
// Laws

/// Several texts one after the other.
pub open spec fn concatenated(parts: Seq<Seq<char>>) -> Seq<char>
    decreases parts.len(),
{
    if parts.len() == 0 {
        seq![]
    } else {
        concatenated(parts.drop_last()) + parts.last()
    }
}

impl SearchRequestView {
    /// What becomes of one line: its body may change, what ends it does not.
    pub open spec fn rewritten_line(self, raw: Seq<char>) -> Seq<char> {
        let body = body_of(raw);
        (if self.matcher.found(body) && self.new_body(body) is Some {
            self.new_body(body)->0
        } else {
            body
        }) + terminator_of(raw)
    }
}

/// A rewritten file is the lines of the file, each with the line ending it had:
/// no ending is converted, invented or lost.
pub proof fn lemma_line_endings_survive(
    request: SearchRequestView,
    path: Seq<char>,
    lines: Seq<Seq<char>>,
    start: ScanView,
)
    ensures
        request.scanned(path, lines, start).rebuilt == start.rebuilt + concatenated(
            lines.map_values(|raw: Seq<char>| request.rewritten_line(raw)),
        ),
    decreases lines.len(),
{
    let mapped = lines.map_values(|raw: Seq<char>| request.rewritten_line(raw));
    if lines.len() == 0 {
        assert(start.rebuilt + concatenated(mapped) =~= start.rebuilt);
    } else {
        let front = lines.drop_last();
        lemma_line_endings_survive(request, path, front, start);
        let raw = lines.last();
        lemma_body_len(raw);
        assert(body_of(raw) + terminator_of(raw) =~= raw);
        assert(mapped.drop_last() =~= front.map_values(
            |raw: Seq<char>| request.rewritten_line(raw),
        ));
        assert(mapped.last() == request.rewritten_line(raw));
        assert(start.rebuilt + (concatenated(mapped.drop_last()) + mapped.last())
            =~= start.rebuilt + concatenated(mapped.drop_last()) + mapped.last());
    }
}

proof fn lemma_lines_concatenate(s: Seq<char>)
    ensures
        concatenated(raw_lines(s)) == s,
    decreases s.len(),
{
    crate::text::lemma_line_len(s);
    let n = crate::text::line_len(s);
    if 0 < n <= s.len() {
        let rest = s.subrange(n, s.len() as int);
        lemma_lines_concatenate(rest);
        lemma_concatenated_front(s.subrange(0, n), raw_lines(rest));
        assert(s.subrange(0, n) + rest =~= s);
    } else {
        assert(s.len() == 0);
        assert(concatenated(raw_lines(s)) =~= s);
    }
}

proof fn lemma_concatenated_front(first: Seq<char>, rest: Seq<Seq<char>>)
    ensures
        concatenated(seq![first] + rest) == first + concatenated(rest),
    decreases rest.len(),
{
    let whole = seq![first] + rest;
    if rest.len() == 0 {
        assert(whole.drop_last() =~= seq![]);
        assert(concatenated(whole.drop_last()) =~= seq![]);
        assert(concatenated(whole) =~= first + concatenated(rest));
    } else {
        assert(whole.drop_last() =~= seq![first] + rest.drop_last());
        lemma_concatenated_front(first, rest.drop_last());
        assert(concatenated(whole) =~= first + concatenated(rest));
    }
}

/// Without a replacement nothing is ever rewritten, and what a scan rebuilds is
/// the file as it was.
pub proof fn lemma_search_alone_changes_nothing(
    request: SearchRequestView,
    path: Seq<char>,
    text: Seq<char>,
    state: SearchStateView,
)
    requires
        request.replace is None,
    ensures
        !request.scan_of(path, text, state).modified,
        request.scan_of(path, text, state).rebuilt == text,
{
    let start = ScanView {
        hits: state.hits,
        total: state.total,
        rebuilt: seq![],
        modified: false,
    };
    lemma_unmodified(request, path, raw_lines(text), start);
    lemma_lines_concatenate(text);
    assert(seq![] + concatenated(raw_lines(text)) =~= text);
}

proof fn lemma_unmodified(
    request: SearchRequestView,
    path: Seq<char>,
    lines: Seq<Seq<char>>,
    start: ScanView,
)
    requires
        request.replace is None,
        !start.modified,
    ensures
        !request.scanned(path, lines, start).modified,
        request.scanned(path, lines, start).rebuilt == start.rebuilt + concatenated(lines),
    decreases lines.len(),
{
    if lines.len() == 0 {
        assert(start.rebuilt + concatenated(lines) =~= start.rebuilt);
    } else {
        lemma_unmodified(request, path, lines.drop_last(), start);
        assert(start.rebuilt + (concatenated(lines.drop_last()) + lines.last()) =~= start.rebuilt
            + concatenated(lines.drop_last()) + lines.last());
    }
}

/// A preview finds and counts what the applied search does, and rewrites nothing.
pub proof fn lemma_preview_writes_nothing(
    request: SearchRequestView,
    state: SearchStateView,
    path: Seq<char>,
    content: Option<Seq<u8>>,
)
    ensures
        ({
            let preview = SearchRequestView { apply: false, ..request };
            let applied = SearchRequestView { apply: true, ..request };
            &&& preview.rewrite(state, path, content) is None
            &&& preview.absorbed(state, path, content) == applied.absorbed(state, path, content)
        }),
{
    let preview = SearchRequestView { apply: false, ..request };
    let applied = SearchRequestView { apply: true, ..request };
    match searchable(content) {
        Some(text) => {
            lemma_scan_ignores_apply(
                request,
                path,
                raw_lines(text),
                ScanView { hits: state.hits, total: state.total, rebuilt: seq![], modified: false },
            );
        },
        None => {},
    }
}

proof fn lemma_scan_ignores_apply(
    request: SearchRequestView,
    path: Seq<char>,
    lines: Seq<Seq<char>>,
    start: ScanView,
)
    ensures
        (SearchRequestView { apply: false, ..request }).scanned(path, lines, start) == (
        SearchRequestView { apply: true, ..request }).scanned(path, lines, start),
    decreases lines.len(),
{
    if lines.len() > 0 {
        lemma_scan_ignores_apply(request, path, lines.drop_last(), start);
    }
}

/// The results are capped, but every match is counted.
pub proof fn lemma_hits_capped(
    request: SearchRequestView,
    path: Seq<char>,
    lines: Seq<Seq<char>>,
    start: ScanView,
)
    requires
        start.hits.len() <= request.max_results,
        start.hits.len() <= start.total,
    ensures
        request.scanned(path, lines, start).hits.len() <= request.max_results,
        request.scanned(path, lines, start).hits.len() <= request.scanned(
            path,
            lines,
            start,
        ).total,
        request.scanned(path, lines, start).total == start.total + lines.filter(
            |raw: Seq<char>| request.matcher.found(body_of(raw)),
        ).len(),
    decreases lines.len(),
{
    reveal(Seq::filter);
    if lines.len() > 0 {
        lemma_hits_capped(request, path, lines.drop_last(), start);
    }
}

/// A binary file is skipped, never rewritten.
pub proof fn lemma_binary_files_are_left_alone(
    request: SearchRequestView,
    state: SearchStateView,
    path: Seq<char>,
    bytes: Seq<u8>,
    at: int,
)
    requires
        0 <= at < bytes.len(),
        at < BINARY_PROBE,
        bytes[at] == 0,
    ensures
        request.rewrite(state, path, Some(bytes)) is None,
        request.absorbed(state, path, Some(bytes)) == (SearchStateView {
            skipped: state.skipped + 1,
            ..state
        }),
{
    let front = bytes.take(
        if bytes.len() <= BINARY_PROBE {
            bytes.len() as int
        } else {
            BINARY_PROBE as int
        },
    );
    crate::text::lemma_find_from(front, seq![0u8], 0);
    assert(front.subrange(at, at + 1) =~= seq![0u8]);
    assert(crate::text::occurs_at(front, seq![0u8], at));
}

/// A line is its body and what ends it: line breaks and carriage returns, all that
/// stand at the end.
pub proof fn lemma_body_and_ending(raw: Seq<char>)
    ensures
        body_of(raw) + terminator_of(raw) == raw,
        forall|i: int|
            0 <= i < terminator_of(raw).len() ==> (#[trigger] terminator_of(raw)[i]) == '\n'
                || terminator_of(raw)[i] == '\r',
        body_of(raw).len() > 0 ==> body_of(raw).last() != '\n' && body_of(raw).last() != '\r',
    decreases raw.len(),
{
    lemma_body_len(raw);
    assert(body_of(raw) + terminator_of(raw) =~= raw);
    if raw.len() > 0 && is_line_end(raw.last()) {
        let front = raw.drop_last();
        lemma_body_and_ending(front);
        assert(terminator_of(raw) =~= terminator_of(front).push(raw.last()));
        assert forall|i: int| 0 <= i < terminator_of(raw).len() implies (
        #[trigger] terminator_of(raw)[i]) == '\n' || terminator_of(raw)[i] == '\r' by {
            if i < terminator_of(front).len() {
                assert(terminator_of(raw)[i] == terminator_of(front)[i]);
            }
        }
    }
}

/// A literal pattern is found exactly where it stands somewhere in the line.
pub proof fn lemma_literal_is_found(needle: Seq<char>, line: Seq<char>)
    ensures
        (MatcherView::Literal { needle, case_sensitive: true }).found(line) <==> exists|j: int|
            occurs_at(line, needle, j),
{
    lemma_find_from(line, needle, 0);
    match find_from(line, needle, 0) {
        Some(k) => {
            assert(occurs_at(line, needle, k));
        },
        None => {},
    }
}

/// Replacing a literal in a file: each line is cut at every occurrence, from left to
/// right, and put together again with the replacement in between and its own ending.
/// What was put in is not looked at again, and lines without the literal stay.
pub proof fn lemma_literal_replacement(
    request: SearchRequestView,
    needle: Seq<char>,
    with: Seq<char>,
    path: Seq<char>,
    lines: Seq<Seq<char>>,
    start: ScanView,
) -> (cuts: Seq<Seq<Seq<char>>>)
    requires
        request.matcher == (MatcherView::Literal { needle, case_sensitive: true }),
        request.replace == Some(with),
        needle.len() > 0,
    ensures
        cuts.len() == lines.len(),
        forall|i: int|
            0 <= i < lines.len() ==> is_cut(body_of(lines[i]), needle, #[trigger] cuts[i]),
        request.scanned(path, lines, start).rebuilt == start.rebuilt + glued(
            Seq::new(lines.len(), |i: int| glued(cuts[i], with) + terminator_of(lines[i])),
            seq![],
        ),
        request.scanned(path, lines, start).modified <==> start.modified || exists|i: int|
            0 <= i < lines.len() && glued(#[trigger] cuts[i], with) != body_of(lines[i]),
    decreases lines.len(),
{
    if lines.len() == 0 {
        let cuts = Seq::<Seq<Seq<char>>>::empty();
        assert(glued(
            Seq::new(lines.len(), |i: int| glued(cuts[i], with) + terminator_of(lines[i])),
            seq![],
        ) =~= seq![]);
        assert(start.rebuilt + Seq::<char>::empty() =~= start.rebuilt);
        cuts
    } else {
        let front = lines.drop_last();
        let before = lemma_literal_replacement(request, needle, with, path, front, start);
        let raw = lines.last();
        let body = body_of(raw);
        let last = lemma_replacing_cuts(body, needle, with);
        let cuts = before.push(last);
        lemma_body_and_ending(raw);
        let new_lines = Seq::new(
            front.len(),
            |i: int| glued(before[i], with) + terminator_of(front[i]),
        );
        let all_lines = Seq::new(
            lines.len(),
            |i: int| glued(cuts[i], with) + terminator_of(lines[i]),
        );
        assert(all_lines =~= new_lines.push(glued(last, with) + terminator_of(raw)));
        lemma_glued_end(new_lines, glued(last, with) + terminator_of(raw));
        lemma_find_from(body, needle, 0);
        if !request.matcher.found(body) {
            assert(substituted(body, needle, with) == body);
        }
        let was = request.scanned(path, front, start);
        let now = request.scanned(path, lines, start);
        assert(now.rebuilt =~= was.rebuilt + (glued(last, with) + terminator_of(raw)));
        assert(now.rebuilt =~= start.rebuilt + glued(all_lines, seq![]));
        assert forall|i: int| 0 <= i < lines.len() implies is_cut(
            body_of(lines[i]),
            needle,
            #[trigger] cuts[i],
        ) by {
            if i < front.len() {
                assert(cuts[i] == before[i]);
                assert(lines[i] == front[i]);
            }
        }
        if exists|i: int|
            0 <= i < lines.len() && glued(#[trigger] cuts[i], with) != body_of(lines[i]) {
            let i = choose|i: int|
                0 <= i < lines.len() && glued(#[trigger] cuts[i], with) != body_of(lines[i]);
            if i < front.len() {
                assert(cuts[i] == before[i] && lines[i] == front[i]);
            }
        }
        if exists|i: int|
            0 <= i < front.len() && glued(#[trigger] before[i], with) != body_of(front[i]) {
            let i = choose|i: int|
                0 <= i < front.len() && glued(#[trigger] before[i], with) != body_of(front[i]);
            assert(cuts[i] == before[i] && lines[i] == front[i]);
        }
        assert(cuts[lines.len() - 1] == last);
        cuts
    }
}

/// A regular expression is replaced in the body of each line that it matches, by
/// what the expression makes of it, once; every other line stays.
pub proof fn lemma_regex_replacement(
    request: SearchRequestView,
    pattern: PatternView,
    with: Seq<char>,
    path: Seq<char>,
    lines: Seq<Seq<char>>,
    start: ScanView,
)
    requires
        request.matcher == MatcherView::Regex(pattern),
        request.replace == Some(with),
    ensures
        request.scanned(path, lines, start).rebuilt == start.rebuilt + glued(
            lines.map_values(
                |raw: Seq<char>|
                    (if regex_matches(pattern.source, pattern.ignore_case, body_of(raw)) {
                        regex_replaced(pattern.source, pattern.ignore_case, body_of(raw), with)
                    } else {
                        body_of(raw)
                    }) + terminator_of(raw),
            ),
            seq![],
        ),
    decreases lines.len(),
{
    let line = |raw: Seq<char>|
        (if regex_matches(pattern.source, pattern.ignore_case, body_of(raw)) {
            regex_replaced(pattern.source, pattern.ignore_case, body_of(raw), with)
        } else {
            body_of(raw)
        }) + terminator_of(raw);
    if lines.len() == 0 {
        assert(glued(lines.map_values(line), seq![]) =~= seq![]);
        assert(start.rebuilt + Seq::<char>::empty() =~= start.rebuilt);
    } else {
        let front = lines.drop_last();
        let raw = lines.last();
        lemma_regex_replacement(request, pattern, with, path, front, start);
        lemma_body_and_ending(raw);
        assert(lines.map_values(line) =~= front.map_values(line).push(line(raw)));
        lemma_glued_end(front.map_values(line), line(raw));
        assert(request.scanned(path, lines, start).rebuilt =~= request.scanned(
            path,
            front,
            start,
        ).rebuilt + line(raw));
        assert(request.scanned(path, lines, start).rebuilt =~= start.rebuilt + glued(
            lines.map_values(line),
            seq![],
        ));
    }
}

/// Each line that matches is one hit, in the order of the lines and as long as there
/// is room: its file, its number from one on, its text, and what it would become
/// where that is something else. Every match is counted, and no other line is.
pub proof fn lemma_one_more_line(
    request: SearchRequestView,
    path: Seq<char>,
    lines: Seq<Seq<char>>,
    raw: Seq<char>,
    start: ScanView,
)
    ensures
        ({
            let before = request.scanned(path, lines, start);
            let after = request.scanned(path, lines.push(raw), start);
            let body = body_of(raw);
            if !request.matcher.found(body) {
                after.hits == before.hits && after.total == before.total && after.modified
                    == before.modified && after.rebuilt == before.rebuilt + raw
            } else {
                &&& after.total == before.total + 1
                &&& before.hits.len() >= request.max_results ==> after.hits == before.hits
                &&& before.hits.len() < request.max_results ==> {
                    let hit = after.hits.last();
                    &&& after.hits.len() == before.hits.len() + 1
                    &&& after.hits.drop_last() == before.hits
                    &&& hit.field("file"@) == Some(JsonView::Text(path))
                    &&& hit.field("line"@) == Some(json_number((lines.len() + 1) as u64))
                    &&& hit.field("text"@) == Some(JsonView::Text(body))
                    &&& request.replace is None ==> hit.field("replacement"@) is None
                    &&& request.replace matches Some(with) ==> hit.field("replacement"@) == (
                    if request.matcher.replaced(body, with) == body {
                        None
                    } else {
                        Some(JsonView::Text(request.matcher.replaced(body, with)))
                    })
                }
            }
        }),
{
    assert(lines.push(raw).drop_last() =~= lines);
    let before = request.scanned(path, lines, start);
    let after = request.scanned(path, lines.push(raw), start);
    reveal_strlit("file");
    reveal_strlit("line");
    reveal_strlit("text");
    reveal_strlit("replacement");
    assert("file"@[0] == 'f' && "line"@[0] == 'l' && "text"@[0] == 't');
    if request.matcher.found(body_of(raw)) && before.hits.len() < request.max_results {
        assert(after.hits.drop_last() =~= before.hits);
    }
}

/// The report says what the search came to: how many lines match, the hits, whether
/// there were more, the files that changed, as changed or as a preview, and how many
/// were skipped.
pub proof fn lemma_search_report(request: SearchRequestView, state: SearchStateView)
    ensures
        ({
            let report = request.report(state);
            let none = JsonView::Array(Seq::<JsonView>::empty());
            let changed = JsonView::Array(
                Seq::new(state.changed.len(), |i: int| JsonView::Text(state.changed[i])),
            );
            &&& report.field("root"@) == Some(JsonView::Text(request.root))
            &&& report.field("matches"@) == Some(json_number(state.total as u64))
            &&& report.field("results"@) == Some(JsonView::Array(state.hits))
            &&& report.field("truncated"@) == Some(JsonView::Bool(state.hits.len() < state.total))
            &&& report.field("applied"@) == Some(JsonView::Bool(request.apply))
            &&& report.field("unreadable_or_binary_files_skipped"@) == Some(
                json_number(state.skipped as u64),
            )
            &&& request.apply ==> report.field("files_modified"@) == Some(changed) && report.field(
                "files_would_be_modified"@,
            ) == Some(none)
            &&& !request.apply ==> report.field("files_modified"@) == Some(none) && report.field(
                "files_would_be_modified"@,
            ) == Some(changed)
        }),
{
    reveal_strlit("root");
    reveal_strlit("matches");
    reveal_strlit("truncated");
    reveal_strlit("results");
    reveal_strlit("files_modified");
    reveal_strlit("files_would_be_modified");
    reveal_strlit("applied");
    reveal_strlit("unreadable_or_binary_files_skipped");
    assert("root"@.len() == 4);
    assert("matches"@.len() == 7);
    assert("truncated"@.len() == 9);
    assert("results"@.len() == 7);
    assert("files_modified"@.len() == 14);
    assert("files_would_be_modified"@.len() == 23);
    assert("applied"@.len() == 7);
    assert("unreadable_or_binary_files_skipped"@.len() == 34);
    assert("matches"@[0] == 'm');
    assert("results"@[0] == 'r');
    assert("applied"@[0] == 'a');
    assert(json_texts(state.changed)->Array_0 =~= Seq::new(
        state.changed.len(),
        |i: int| JsonView::Text(state.changed[i]),
    ));
    assert(json_texts(seq![])->Array_0 =~= Seq::<JsonView>::empty());
}

/// What a search does is what its arguments say: each setting is the argument of its
/// own name, and the documented default where that is not there.
pub proof fn lemma_search_arguments(
    args: JsonView,
    ctx: ToolContextView,
    disk: OnDiskView,
    found: bool,
)
    requires
        search_request(args, ctx, disk, found) is Ok,
    ensures
        ({
            let request = search_request(args, ctx, disk, found)->Ok_0;
            let sensitive = args.field("case_sensitive"@) != Some(JsonView::Bool(false));
            &&& found
            &&& args.field("path"@) matches Some(JsonView::Text(raw)) && Ok::<
                Seq<char>,
                ToolErrorView,
            >(request.root) == resolved_path(ctx.roots, raw, disk)
            &&& args.field("pattern"@) matches Some(JsonView::Text(pattern)) && pattern.len() > 0
                && request.matcher == if args.field("is_regex"@) == Some(JsonView::Bool(true)) {
                MatcherView::Regex(PatternView { source: pattern, ignore_case: !sensitive })
            } else {
                MatcherView::Literal { needle: pattern, case_sensitive: sensitive }
            }
            &&& request.replace == args.text_field("replace"@)
            &&& request.apply <==> args.field("apply"@) == Some(JsonView::Bool(true))
            &&& request.apply ==> request.replace is Some && ctx.policy.allow_file_mutation
            &&& request.glob == args.text_field("glob"@)
            &&& args.unsigned_field("max_depth"@) is None ==> request.max_depth == 16
            &&& args.unsigned_field("max_depth"@) matches Some(n) ==> (n <= usize::MAX
                ==> request.max_depth == n)
            &&& args.unsigned_field("max_results"@) is None ==> request.max_results == 500
            &&& args.unsigned_field("max_results"@) matches Some(n) ==> (n <= usize::MAX
                ==> request.max_results == n)
        }),
{
}

/// A search without regard to case rewrites every line that it finds, each on its own,
/// and keeps all others and all line ends.
pub proof fn lemma_replacement_without_case(
    request: SearchRequestView,
    needle: Seq<char>,
    with: Seq<char>,
    path: Seq<char>,
    lines: Seq<Seq<char>>,
    start: ScanView,
)
    requires
        request.matcher == (MatcherView::Literal { needle, case_sensitive: false }),
        request.replace == Some(with),
    ensures
        request.scanned(path, lines, start).rebuilt == start.rebuilt + glued(
            lines.map_values(
                |raw: Seq<char>|
                    (if contains(lowercase_text(body_of(raw)), lowercase_text(needle)) {
                        replaced_ignoring_case(body_of(raw), needle, with)
                    } else {
                        body_of(raw)
                    }) + terminator_of(raw),
            ),
            seq![],
        ),
    decreases lines.len(),
{
    let line = |raw: Seq<char>|
        (if contains(lowercase_text(body_of(raw)), lowercase_text(needle)) {
            replaced_ignoring_case(body_of(raw), needle, with)
        } else {
            body_of(raw)
        }) + terminator_of(raw);
    if lines.len() == 0 {
        assert(glued(lines.map_values(line), seq![]) =~= seq![]);
        assert(start.rebuilt + Seq::<char>::empty() =~= start.rebuilt);
    } else {
        let front = lines.drop_last();
        let raw = lines.last();
        lemma_replacement_without_case(request, needle, with, path, front, start);
        lemma_body_and_ending(raw);
        assert(lines.map_values(line) =~= front.map_values(line).push(line(raw)));
        lemma_glued_end(front.map_values(line), line(raw));
        assert(request.scanned(path, lines, start).rebuilt =~= request.scanned(
            path,
            front,
            start,
        ).rebuilt + line(raw));
        assert(request.scanned(path, lines, start).rebuilt =~= start.rebuilt + glued(
            lines.map_values(line),
            seq![],
        ));
    }
}

/// A file is searched where its bytes are text and none of the first of them is zero;
/// what is searched is that text. Any other file is skipped, and nothing else happens.
pub proof fn lemma_files_are_read(
    request: SearchRequestView,
    state: SearchStateView,
    path: Seq<char>,
    content: Option<Seq<u8>>,
)
    ensures
        match searchable(content) {
            Some(text) => content matches Some(bytes) && vstd::utf8::valid_utf8(bytes) && text
                == vstd::utf8::decode_utf8(bytes) && forall|i: int|
                0 <= i < bytes.len() && i < 8192 ==> #[trigger] bytes[i] != 0,
            None => {
                &&& request.rewrite(state, path, content) is None
                &&& request.absorbed(state, path, content) == (SearchStateView {
                    skipped: state.skipped + 1,
                    ..state
                })
                &&& content matches Some(bytes) ==> !vstd::utf8::valid_utf8(bytes) || exists|i: int|
                    0 <= i < bytes.len() && i < 8192 && #[trigger] bytes[i] == 0
            },
        },
{
    match content {
        Some(bytes) => {
            let n: int = if bytes.len() <= BINARY_PROBE {
                bytes.len() as int
            } else {
                BINARY_PROBE as int
            };
            let front = bytes.take(n);
            lemma_find_from(front, seq![0u8], 0);
            match first_position(front, 0) {
                Some(k) => {
                    assert(front.subrange(k, k + 1)[0] == 0u8);
                    assert(bytes[k] == 0);
                },
                None => {
                    assert forall|i: int| 0 <= i < bytes.len() && i < 8192 implies
                        #[trigger] bytes[i] != 0 by {
                        if bytes[i] == 0 {
                            assert(front.subrange(i, i + 1) =~= seq![0u8]);
                            assert(occurs_at(front, seq![0u8], i));
                        }
                    }
                },
            }
        },
        None => {},
    }
}

/// A file that can be searched adds its hits behind those before it and its matches to
/// the count. It is noted, once, exactly where a line of it would change, and then, if
/// that was asked for, written as its lines have become.
pub proof fn lemma_files_are_searched(
    request: SearchRequestView,
    state: SearchStateView,
    path: Seq<char>,
    content: Option<Seq<u8>>,
)
    requires
        searchable(content) is Some,
        is_sorted(state.changed),
    ensures
        ({
            let text = searchable(content)->0;
            let start = ScanView {
                hits: state.hits,
                total: state.total,
                rebuilt: seq![],
                modified: false,
            };
            let scan = request.scanned(path, raw_lines(text), start);
            let after = request.absorbed(state, path, content);
            &&& after.hits == scan.hits && after.total == scan.total && after.skipped
                == state.skipped
            &&& is_sorted(after.changed)
            &&& forall|p: Seq<char>| #[trigger]
                after.changed.contains(p) <==> state.changed.contains(p) || (p == path
                    && scan.modified)
            &&& request.rewrite(state, path, content) == if scan.modified && request.apply {
                Some(scan.rebuilt)
            } else {
                None::<Seq<char>>
            }
        }),
{
    lemma_inserted(state.changed, path);
}

/// A search that is asked for in order is made: with a path that is there and that may
/// be seen, a pattern, and, where it is to write, a replacement and the permission.
pub proof fn lemma_searches_are_made(
    args: JsonView,
    ctx: ToolContextView,
    disk: OnDiskView,
    raw: Seq<char>,
    pattern: Seq<char>,
)
    requires
        args.field("path"@) == Some(JsonView::Text(raw)),
        args.field("pattern"@) == Some(JsonView::Text(pattern)),
        args.field("is_regex"@) is None,
        args.field("case_sensitive"@) is None,
        args.field("glob"@) is None,
        args.field("max_depth"@) is None,
        args.field("max_results"@) is None,
    ensures
        ({
            let request = search_request(args, ctx, disk, true);
            let writes = args.field("apply"@) == Some(JsonView::Bool(true));
            let quiet = args.field("apply"@) is None || args.field("apply"@) == Some(
                JsonView::Bool(false),
            );
            let replaces = args.field("replace"@) matches Some(JsonView::Text(_));
            &&& resolved_path(ctx.roots, raw, disk) is Ok && pattern.len() > 0 && (quiet || writes)
                && (args.field("replace"@) is None || replaces) ==> {
                &&& quiet ==> request is Ok
                &&& writes && !replaces ==> (request matches Err(err) && err is InvalidArguments)
                &&& writes && replaces ==> if ctx.policy.allow_file_mutation {
                    request is Ok
                } else {
                    request matches Err(err) && err is Denied
                }
            }
            &&& pattern.len() == 0 ==> request is Err
            &&& resolved_path(ctx.roots, raw, disk) matches Err(err) ==> request == Err::<
                SearchRequestView,
                ToolErrorView,
            >(err)
            &&& search_request(args, ctx, disk, false) is Err
        }),
{
}

/// What the tool takes.
pub proof fn lemma_search_schema()
    ensures
        search_tool().name == "grep_search"@,
        needs(search_tool().input_schema, seq!["path"@, "pattern"@]),
        takes(search_tool().input_schema, "path"@, "string"@),
        takes(search_tool().input_schema, "pattern"@, "string"@),
        takes(search_tool().input_schema, "is_regex"@, "boolean"@),
        takes(search_tool().input_schema, "case_sensitive"@, "boolean"@),
        takes(search_tool().input_schema, "replace"@, "string"@),
        takes(search_tool().input_schema, "apply"@, "boolean"@),
        takes(search_tool().input_schema, "glob"@, "string"@),
        takes(search_tool().input_schema, "max_depth"@, "integer"@),
        takes(search_tool().input_schema, "max_results"@, "integer"@),
{
    reveal_strlit("type");
    reveal_strlit("properties");
    reveal_strlit("required");
    reveal_strlit("description");
    reveal_strlit("path");
    reveal_strlit("pattern");
    reveal_strlit("is_regex");
    reveal_strlit("case_sensitive");
    reveal_strlit("replace");
    reveal_strlit("apply");
    reveal_strlit("glob");
    reveal_strlit("max_depth");
    reveal_strlit("max_results");
    assert("type"@.len() == 4);
    assert("properties"@.len() == 10);
    assert("required"@.len() == 8);
    assert("description"@.len() == 11);
    assert("path"@.len() == 4);
    assert("pattern"@.len() == 7);
    assert("is_regex"@.len() == 8);
    assert("case_sensitive"@.len() == 14);
    assert("replace"@.len() == 7);
    assert("apply"@.len() == 5);
    assert("glob"@.len() == 4);
    assert("max_depth"@.len() == 9);
    assert("max_results"@.len() == 11);
    assert("type"@[0] == 't');
    assert("required"@[0] == 'r');
    assert("description"@[0] == 'd');
    assert("path"@[0] == 'p');
    assert("pattern"@[0] == 'p');
    assert("is_regex"@[0] == 'i');
    assert("replace"@[0] == 'r');
    assert("glob"@[0] == 'g');
    assert("max_results"@[0] == 'm');
}

} // verus!
