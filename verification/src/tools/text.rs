//! Pure text tools: diffing, regex matching and counting. No I/O, no policy.

use vstd::prelude::*;

use super::args::{string, string_arg, u64_arg, u64_or};
use super::schema::{
    any, any_schema, mentions, needs, object_schema, property, property_schema, schema1, schema2,
    takes,
};
use super::{unknown, unknown_tool};
use crate::diff::{
    diff_groups, group_views, grouped_lines, DiffTag, LineChange, LineChangeView, LineOp,
    LineOpView,
};
use crate::error::{missing, missing_view, tool_result, ToolError, ToolErrorView, ToolResult};
use crate::json::{Json, JsonNumber, JsonView, json_number, parse_view, parsed_json, pretty_json};
use crate::pattern::{Capture, CaptureView, Pattern, PatternView, compiled, regex_captured};
use crate::protocol::mcp::{CallToolResult, CallToolResultView, Tool, ToolView};
use crate::text::{
    byte_count, byte_len, cat2, cat3, cat4, chars_of, count_words, debug, debug_text, decimal,
    glued, lemma_glued_end, lines, raw_lines, same, split_lines, views, wide_decimal_text, word_count,
};

verus! {

/// The tools on texts.
pub struct TextTools;

/// Guards against a pathological pattern turning a tool call into a hang.
pub const MAX_REGEX_SIZE: usize = 1048576;

/// Caps how many matches are returned so a broad pattern cannot blow up the
/// model's context window.
pub const DEFAULT_MATCH_LIMIT: u64 = 1000;

/// What `diff_text` does.
pub const DIFF_TEXT_DESCRIPTION: &'static str = "Computes a unified diff between two strings. Returns the changed hunks with line numbers, not the whole file.";

/// What `diff_json` does.
pub const DIFF_JSON_DESCRIPTION: &'static str = "Compares two JSON values structurally and returns a unified diff of their canonical pretty-printed forms. Accepts objects or JSON strings.";

/// What `context_lines` of a diff is.
pub const CONTEXT_DESCRIPTION: &'static str = "Unchanged lines to keep around each hunk (default 3)";

/// What `regex_match` does.
pub const REGEX_DESCRIPTION: &'static str = "Finds all matches of a Rust-syntax regular expression in a string, returning each match with its byte offset and capture groups.";

/// What `count_stats` does.
pub const STATS_DESCRIPTION: &'static str = "Counts lines, words, Unicode characters and bytes in a string.";

/// The descriptor of `diff_text`.
pub open spec fn diff_text_tool() -> ToolView {
    ToolView::new(
        "diff_text"@,
        DIFF_TEXT_DESCRIPTION@,
        object_schema(
            JsonView::object().with(
                "old_text"@,
                property_schema("string"@, "Original text"@),
            ).with("new_text"@, property_schema("string"@, "Modified text"@)).with(
                "context_lines"@,
                property_schema("integer"@, CONTEXT_DESCRIPTION@),
            ),
            seq!["old_text"@, "new_text"@],
        ),
    )
}

/// The descriptor of `diff_json`.
pub open spec fn diff_json_tool() -> ToolView {
    ToolView::new(
        "diff_json"@,
        DIFF_JSON_DESCRIPTION@,
        object_schema(
            JsonView::object().with(
                "old_json"@,
                any_schema("Original JSON value or a JSON string"@),
            ).with("new_json"@, any_schema("Modified JSON value or a JSON string"@)).with(
                "context_lines"@,
                property_schema("integer"@, CONTEXT_DESCRIPTION@),
            ),
            seq!["old_json"@, "new_json"@],
        ),
    )
}

/// The descriptor of `regex_match`.
pub open spec fn regex_match_tool() -> ToolView {
    ToolView::new(
        "regex_match"@,
        REGEX_DESCRIPTION@,
        object_schema(
            JsonView::object().with(
                "pattern"@,
                property_schema("string"@, "Regular expression"@),
            ).with("text"@, property_schema("string"@, "Text to search"@)).with(
                "limit"@,
                property_schema("integer"@, "Maximum matches to return (default 1000)"@),
            ),
            seq!["pattern"@, "text"@],
        ),
    )
}

/// The descriptor of `count_stats`.
pub open spec fn count_stats_tool() -> ToolView {
    ToolView::new(
        "count_stats"@,
        STATS_DESCRIPTION@,
        object_schema(
            JsonView::object().with("text"@, property_schema("string"@, "Text to measure"@)),
            seq!["text"@],
        ),
    )
}

/// What the group advertises.
pub open spec fn text_tools() -> Seq<ToolView> {
    seq![diff_text_tool(), diff_json_tool(), regex_match_tool(), count_stats_tool()]
}

// ---------------------------------------------------------------------------
// Diffs

/// The length of a range that may be empty.
pub open spec fn range_len(start: int, end: int) -> nat {
    if end >= start {
        (end - start) as nat
    } else {
        0
    }
}

/// The line that says which lines of both sides a hunk covers.
pub open spec fn hunk_header(group: Seq<LineOpView>) -> Seq<char> {
    if group.len() == 0 {
        seq![]
    } else {
        let first = group[0];
        let last = group.last();
        "@@ -"@ + decimal((first.old_start + 1) as nat) + ","@ + decimal(
            range_len(first.old_start, last.old_end),
        ) + " +"@ + decimal((first.new_start + 1) as nat) + ","@ + decimal(
            range_len(first.new_start, last.new_end),
        ) + " @@\n"@
    }
}

/// What stands in front of a line.
pub open spec fn sign_of(tag: DiffTag) -> char {
    match tag {
        DiffTag::Delete => '-',
        DiffTag::Insert => '+',
        DiffTag::Equal => ' ',
    }
}

/// One line of a hunk; it always ends in a line feed.
pub open spec fn change_text(change: LineChangeView) -> Seq<char> {
    let line = seq![sign_of(change.tag)] + change.value;
    if change.value.len() > 0 && change.value.last() == '\n' {
        line
    } else {
        line.push('\n')
    }
}

/// The lines of a run.
pub open spec fn changes_text(changes: Seq<LineChangeView>) -> Seq<char>
    decreases changes.len(),
{
    if changes.len() == 0 {
        seq![]
    } else {
        changes_text(changes.drop_last()) + change_text(changes.last())
    }
}

/// The lines of several runs.
pub open spec fn ops_text(ops: Seq<LineOpView>) -> Seq<char>
    decreases ops.len(),
{
    if ops.len() == 0 {
        seq![]
    } else {
        ops_text(ops.drop_last()) + changes_text(ops.last().changes)
    }
}

/// The hunks of a diff.
pub open spec fn hunks_text(groups: Seq<Seq<LineOpView>>) -> Seq<char>
    decreases groups.len(),
{
    if groups.len() == 0 {
        seq![]
    } else {
        hunks_text(groups.drop_last()) + hunk_header(groups.last()) + ops_text(groups.last())
    }
}

/// What a diff says: its hunks, or that there are none.
pub open spec fn diff_report(groups: Seq<Seq<LineOpView>>) -> CallToolResultView {
    if groups.len() == 0 {
        CallToolResultView::text("(inputs are identical)"@)
    } else {
        CallToolResultView::text(hunks_text(groups))
    }
}

/// How many lines a diff keeps around a hunk: what was asked for, up to 32.
pub open spec fn context_lines(asked: u64) -> nat {
    if asked > usize::MAX {
        3
    } else if asked <= 32 {
        asked as nat
    } else {
        32
    }
}

fn push_changes(out: &mut String, changes: &Vec<LineChange>)
    ensures
        final(out)@ == old(out)@ + changes_text(views(changes@)),
{
    let ghost all = views(changes@);
    let ghost start = out@;
    let mut i: usize = 0;
    assert(all.take(0) =~= seq![]);
    assert(start + changes_text(all.take(0)) =~= start);
    while i < changes.len()
        invariant
            0 <= i <= changes@.len(),
            all == views(changes@),
            out@ == start + changes_text(all.take(i as int)),
        decreases changes@.len() - i,
    {
        let ghost before = out@;
        let change = &changes[i];
        let sign: char = match change.tag {
            DiffTag::Delete => '-',
            DiffTag::Insert => '+',
            DiffTag::Equal => ' ',
        };
        out.push(sign);
        out.append(change.value.as_str());
        let chars = chars_of(&change.value);
        let ended = chars.len() > 0 && chars[chars.len() - 1] == '\n';
        if !ended {
            out.push('\n');
        }
        proof {
            assert(all.take(i + 1).drop_last() =~= all.take(i as int));
            assert(all.take(i + 1).last() == change@);
            assert(out@ =~= before + change_text(change@));
            assert(out@ =~= start + changes_text(all.take(i + 1)));
        }
        i += 1;
    }
    assert(all.take(i as int) =~= all);
}

fn header(group: &Vec<LineOp>) -> (r: String)
    ensures
        r@ == hunk_header(views(group@)),
{
    if group.len() == 0 {
        return String::new();
    }
    let ghost all = views(group@);
    let first = &group[0];
    let last = &group[group.len() - 1];
    assert(all[0] == first@);
    assert(all.last() == last@);
    let old_len: usize = if last.old_end >= first.old_start {
        last.old_end - first.old_start
    } else {
        0
    };
    let new_len: usize = if last.new_end >= first.new_start {
        last.new_end - first.new_start
    } else {
        0
    };
    let mut out = cat4(
        "@@ -",
        &wide_decimal_text(first.old_start as u128 + 1),
        ",",
        &wide_decimal_text(old_len as u128),
    );
    out.append(" +");
    out.append(wide_decimal_text(first.new_start as u128 + 1).as_str());
    out.append(",");
    out.append(wide_decimal_text(new_len as u128).as_str());
    out.append(" @@\n");
    out
}

/// Writes a diff out of its hunks.
pub fn render_groups(groups: &Vec<Vec<LineOp>>) -> (r: CallToolResult)
    ensures
        r@ == diff_report(group_views(groups@)),
{
    if groups.len() == 0 {
        return CallToolResult::text("(inputs are identical)".to_owned());
    }
    let ghost all = group_views(groups@);
    let mut out = String::new();
    let mut i: usize = 0;
    assert(all.take(0) =~= seq![]);
    assert(out@ =~= hunks_text(all.take(0)));
    while i < groups.len()
        invariant
            0 <= i <= groups@.len(),
            all == group_views(groups@),
            out@ == hunks_text(all.take(i as int)),
        decreases groups@.len() - i,
    {
        let ghost before = out@;
        let group = &groups[i];
        let ghost ops = views(group@);
        out.append(header(group).as_str());
        let ghost headed = out@;
        let mut k: usize = 0;
        assert(ops.take(0) =~= seq![]);
        assert(out@ =~= headed + ops_text(ops.take(0)));
        while k < group.len()
            invariant
                0 <= k <= group@.len(),
                ops == views(group@),
                out@ == headed + ops_text(ops.take(k as int)),
            decreases group@.len() - k,
        {
            let ghost middle = out@;
            push_changes(&mut out, &group[k].changes);
            proof {
                assert(ops.take(k + 1).drop_last() =~= ops.take(k as int));
                assert(ops.take(k + 1).last() == group@[k as int]@);
                assert(out@ =~= headed + ops_text(ops.take(k + 1)));
            }
            k += 1;
        }
        proof {
            assert(ops.take(k as int) =~= ops);
            assert(all.take(i + 1).drop_last() =~= all.take(i as int));
            assert(all.take(i + 1).last() == ops);
            assert(out@ =~= hunks_text(all.take(i + 1)));
        }
        i += 1;
    }
    assert(all.take(i as int) =~= all);
    CallToolResult::text(out)
}

/// How many lines of context a diff keeps at most.
pub open spec fn kept_context(context: usize) -> nat {
    if context <= 32 {
        context as nat
    } else {
        32
    }
}

/// Writes the unified diff of two texts: only the changed places, with up to
/// `context` and at most 32 lines around them. Two texts that are the same are said
/// to be.
pub fn render_diff(before: &str, after: &str, context: usize) -> (r: CallToolResult)
    ensures
        r@ == diff_report(diff_groups(before@, after@, kept_context(context))),
        before@ == after@ ==> r@ == CallToolResultView::text("(inputs are identical)"@),
        before@ != after@ ==> r@ == CallToolResultView::text(
            hunks_text(diff_groups(before@, after@, kept_context(context))),
        ),
{
    let context: usize = if context <= 32 {
        context
    } else {
        32
    };
    let groups = grouped_lines(before, after, context);
    assert(group_views(groups@).len() == groups@.len());
    render_groups(&groups)
}

fn limit_context(asked: u64) -> (r: usize)
    ensures
        r == context_lines(asked),
        r <= 32,
{
    if asked > usize::MAX as u64 {
        3
    } else if asked <= 32 {
        asked as usize
    } else {
        32
    }
}

/// What `diff_text` answers.
pub open spec fn diff_text_call(args: JsonView) -> Result<CallToolResultView, ToolErrorView> {
    match string_arg(args, "old_text"@) {
        Err(err) => Err(err),
        Ok(before) => match string_arg(args, "new_text"@) {
            Err(err) => Err(err),
            Ok(after) => match u64_arg(args, "context_lines"@, 3) {
                Err(err) => Err(err),
                Ok(asked) => Ok(diff_report(diff_groups(before, after, context_lines(asked)))),
            },
        },
    }
}

/// Diffs two texts.
pub fn diff_text(args: &Json) -> (r: ToolResult<CallToolResult>)
    ensures
        tool_result(r) == diff_text_call(args@),
{
    let before = match string(args, "old_text") {
        Ok(text) => text,
        Err(err) => return Err(err),
    };
    let after = match string(args, "new_text") {
        Ok(text) => text,
        Err(err) => return Err(err),
    };
    let asked: u64 = match u64_or(args, "context_lines", 3) {
        Ok(asked) => asked,
        Err(err) => return Err(err),
    };
    Ok(render_diff(&before, &after, limit_context(asked)))
}

/// The JSON value under `field`: an inline value, or the one that a text there
/// writes.
pub open spec fn json_argument(args: JsonView, field: Seq<char>) -> Result<
    JsonView,
    ToolErrorView,
> {
    match args.field(field) {
        None => Err(missing_view(field)),
        Some(JsonView::Text(text)) => encoded_argument(field, parsed_json(text)),
        Some(value) => Ok(value),
    }
}

/// The JSON value that the text under `field` writes, given what it was read
/// as.
pub open spec fn encoded_argument(field: Seq<char>, parsed: Result<JsonView, Seq<char>>) -> Result<
    JsonView,
    ToolErrorView,
> {
    match parsed {
        Ok(value) => Ok(value),
        Err(message) => Err(
            ToolErrorView::InvalidArguments(
                debug_text(field) + " is a string but not valid JSON: "@ + message,
            ),
        ),
    }
}

/// Takes the JSON value that the text under `field` writes out of what it was
/// read as.
pub fn accept_encoded(field: &str, parsed: Result<Json, String>) -> (r: ToolResult<Json>)
    ensures
        tool_result(r) == encoded_argument(field@, parse_view(parsed)),
{
    match parsed {
        Ok(value) => Ok(value),
        Err(message) => Err(
            ToolError::InvalidArguments(
                cat3(&debug(field), " is a string but not valid JSON: ", &message),
            ),
        ),
    }
}

/// The canonical text of the JSON value under `field`.
pub open spec fn canonical_argument(args: JsonView, field: Seq<char>) -> Result<
    Seq<char>,
    ToolErrorView,
> {
    match json_argument(args, field) {
        Ok(value) => Ok(pretty_json(value)),
        Err(err) => Err(err),
    }
}

/// Accepts either an inline JSON value or a JSON-encoded string, so callers
/// that pass file contents verbatim get a structural diff rather than a
/// character-by-character one.
pub fn canonical_json(args: &Json, field: &str) -> (r: ToolResult<String>)
    ensures
        tool_result(r) == canonical_argument(args@, field@),
{
    match args.get(field) {
        None => Err(missing(field)),
        Some(Json::Text(text)) => match accept_encoded(field, Json::parse(text)) {
            Ok(value) => Ok(value.pretty()),
            Err(err) => Err(err),
        },
        Some(value) => Ok(value.pretty()),
    }
}

/// What `diff_json` answers.
pub open spec fn diff_json_call(args: JsonView) -> Result<CallToolResultView, ToolErrorView> {
    match canonical_argument(args, "old_json"@) {
        Err(err) => Err(err),
        Ok(before) => match canonical_argument(args, "new_json"@) {
            Err(err) => Err(err),
            Ok(after) => match u64_arg(args, "context_lines"@, 3) {
                Err(err) => Err(err),
                Ok(asked) => Ok(diff_report(diff_groups(before, after, context_lines(asked)))),
            },
        },
    }
}

/// Diffs two JSON values by their canonical texts. Two values that are equal
/// are said to be, whatever the order of their keys and their formatting.
pub fn diff_json(args: &Json) -> (r: ToolResult<CallToolResult>)
    ensures
        tool_result(r) == diff_json_call(args@),
        json_argument(args@, "old_json"@) is Ok && json_argument(args@, "old_json"@)
            == json_argument(args@, "new_json"@) && u64_arg(args@, "context_lines"@, 3) is Ok
            ==> tool_result(r) == Ok::<CallToolResultView, ToolErrorView>(
            CallToolResultView::text("(inputs are identical)"@),
        ),
{
    let before = match canonical_json(args, "old_json") {
        Ok(text) => text,
        Err(err) => return Err(err),
    };
    let after = match canonical_json(args, "new_json") {
        Ok(text) => text,
        Err(err) => return Err(err),
    };
    let asked: u64 = match u64_or(args, "context_lines", 3) {
        Ok(asked) => asked,
        Err(err) => return Err(err),
    };
    Ok(render_diff(&before, &after, limit_context(asked)))
}

// ---------------------------------------------------------------------------
// Matching

/// A group of a match as JSON.
pub open spec fn group_json(group: Option<Seq<char>>) -> JsonView {
    match group {
        Some(text) => JsonView::Text(text),
        None => JsonView::Null,
    }
}

/// One match as JSON: its text, where it starts, and its groups.
pub open spec fn match_json(capture: CaptureView) -> JsonView {
    JsonView::object().with(
        "text"@,
        JsonView::Text(
            if capture.groups.len() > 0 && capture.groups[0] is Some {
                capture.groups[0]->0
            } else {
                ""@
            },
        ),
    ).with("offset"@, json_number(capture.start as u64)).with(
        "groups"@,
        JsonView::Array(
            if capture.groups.len() > 0 {
                capture.groups.drop_first().map_values(|g: Option<Seq<char>>| group_json(g))
            } else {
                seq![]
            },
        ),
    )
}

/// What a search reports: how many matches there are, and the first of them up
/// to the limit.
pub open spec fn matches_report(captures: Seq<CaptureView>, limit: u64) -> JsonView {
    let kept = if captures.len() <= limit {
        captures
    } else {
        captures.take(limit as int)
    };
    JsonView::object().with("count"@, json_number(captures.len() as u64)).with(
        "truncated"@,
        JsonView::Bool(captures.len() > limit),
    ).with("matches"@, JsonView::Array(kept.map_values(|c: CaptureView| match_json(c))))
}

fn capture_json(capture: &Capture) -> (r: Json)
    ensures
        r@ == match_json(capture@),
{
    let ghost groups = capture@.groups;
    let mut whole = String::new();
    assert(whole@ =~= ""@) by {
        reveal_strlit("");
    }
    let mut rest: Vec<Json> = Vec::new();
    if capture.groups.len() > 0 {
        assert(groups[0] == crate::text::opt_view(capture.groups@[0]));
        match &capture.groups[0] {
            Some(text) => {
                whole = text.clone();
            },
            None => {},
        }
        let mut i: usize = 1;
        while i < capture.groups.len()
            invariant
                1 <= i <= capture.groups@.len(),
                groups == capture@.groups,
                rest@.len() == i - 1,
                forall|k: int| 0 <= k < i - 1 ==> (#[trigger] rest@[k])@ == group_json(groups[k + 1]),
            decreases capture.groups@.len() - i,
        {
            assert(groups[i as int] == crate::text::opt_view(capture.groups@[i as int]));
            match &capture.groups[i] {
                Some(text) => {
                    rest.push(Json::string(text));
                },
                None => {
                    rest.push(Json::Null);
                },
            }
            i += 1;
        }
        assert(views(rest@) =~= groups.drop_first().map_values(
            |g: Option<Seq<char>>| group_json(g),
        ));
    } else {
        assert(views(rest@) =~= seq![]);
    }
    Json::object().with("text", Json::string(&whole)).with(
        "offset",
        Json::number(capture.start as u64),
    ).with("groups", Json::array(rest))
}

/// Reports the matches that were found.
pub fn report_matches(captures: &Vec<Capture>, limit: u64) -> (r: CallToolResult)
    ensures
        r@ == CallToolResultView::structured(matches_report(views(captures@), limit)),
{
    let ghost all = views(captures@);
    let mut kept: Vec<Json> = Vec::new();
    let mut i: usize = 0;
    while i < captures.len() && (i as u64) < limit
        invariant
            0 <= i <= captures@.len(),
            i <= limit,
            all == views(captures@),
            kept@.len() == i,
            forall|k: int| 0 <= k < i ==> (#[trigger] kept@[k])@ == match_json(all[k]),
        decreases captures@.len() - i,
    {
        kept.push(capture_json(&captures[i]));
        i += 1;
    }
    let ghost wanted = if all.len() <= limit {
        all
    } else {
        all.take(limit as int)
    };
    assert(views(kept@) =~= wanted.map_values(|c: CaptureView| match_json(c)));
    let truncated: bool = captures.len() as u64 > kept.len() as u64;
    CallToolResult::structured(
        Json::object().with("count", Json::number(captures.len() as u64)).with(
            "truncated",
            Json::Bool(truncated),
        ).with("matches", Json::array(kept)),
    )
}

/// The pattern that a text writes, or the argument error for one that is none.
pub open spec fn compiled_argument(source: Seq<char>, ignore_case: bool) -> Result<
    PatternView,
    ToolErrorView,
> {
    match compiled(source, ignore_case, MAX_REGEX_SIZE as nat) {
        Ok(pattern) => Ok(pattern),
        Err(message) => Err(
            ToolErrorView::InvalidArguments("invalid regular expression: "@ + message),
        ),
    }
}

/// Compiles a pattern with a size bound; one that is refused is an argument
/// error.
pub fn compile(source: &str, ignore_case: bool) -> (r: ToolResult<Pattern>)
    ensures
        tool_result(r) == compiled_argument(source@, ignore_case),
{
    match Pattern::new(source, ignore_case, MAX_REGEX_SIZE) {
        Ok(pattern) => Ok(pattern),
        Err(message) => Err(
            ToolError::InvalidArguments(cat2("invalid regular expression: ", &message)),
        ),
    }
}

/// What `regex_match` answers.
pub open spec fn regex_match_call(args: JsonView) -> Result<CallToolResultView, ToolErrorView> {
    match string_arg(args, "pattern"@) {
        Err(err) => Err(err),
        Ok(source) => match string_arg(args, "text"@) {
            Err(err) => Err(err),
            Ok(text) => match u64_arg(args, "limit"@, DEFAULT_MATCH_LIMIT) {
                Err(err) => Err(err),
                Ok(limit) => match compiled_argument(source, false) {
                    Err(err) => Err(err),
                    Ok(pattern) => Ok(
                        CallToolResultView::structured(
                            matches_report(pattern.captured(text), limit),
                        ),
                    ),
                },
            },
        },
    }
}

/// Finds the matches of a regular expression.
pub fn regex_match(args: &Json) -> (r: ToolResult<CallToolResult>)
    ensures
        tool_result(r) == regex_match_call(args@),
{
    let source = match string(args, "pattern") {
        Ok(text) => text,
        Err(err) => return Err(err),
    };
    let text = match string(args, "text") {
        Ok(text) => text,
        Err(err) => return Err(err),
    };
    let limit: u64 = match u64_or(args, "limit", DEFAULT_MATCH_LIMIT) {
        Ok(limit) => limit,
        Err(err) => return Err(err),
    };
    match compile(&source, false) {
        Ok(pattern) => Ok(report_matches(&pattern.captures(&text), limit)),
        Err(err) => Err(err),
    }
}

// ---------------------------------------------------------------------------
// Counting

/// The numbers of lines, words, characters and bytes of a text.
pub open spec fn stats_json(text: Seq<char>) -> JsonView {
    JsonView::object().with("lines"@, json_number(lines(text).len() as u64)).with(
        "words"@,
        json_number(word_count(text) as u64),
    ).with("chars"@, json_number(text.len() as u64)).with(
        "bytes"@,
        json_number(byte_len(text) as u64),
    )
}

/// Counts the lines, words, characters and bytes of a text.
pub fn stats(text: &str) -> (r: Json)
    ensures
        r@ == stats_json(text@),
{
    let all = split_lines(text);
    assert(views(all@).len() == all@.len());
    let chars = chars_of(text);
    Json::object().with("lines", Json::number(all.len() as u64)).with(
        "words",
        Json::number(count_words(text) as u64),
    ).with("chars", Json::number(chars.len() as u64)).with(
        "bytes",
        Json::number(byte_count(text) as u64),
    )
}

/// What `count_stats` answers.
pub open spec fn count_stats_call(args: JsonView) -> Result<CallToolResultView, ToolErrorView> {
    match string_arg(args, "text"@) {
        Err(err) => Err(err),
        Ok(text) => Ok(CallToolResultView::structured(stats_json(text))),
    }
}

/// Measures a text.
pub fn count_stats(args: &Json) -> (r: ToolResult<CallToolResult>)
    ensures
        tool_result(r) == count_stats_call(args@),
{
    match string(args, "text") {
        Ok(text) => Ok(CallToolResult::structured(stats(&text))),
        Err(err) => Err(err),
    }
}

/// What the group answers to a call.
pub open spec fn text_call(name: Seq<char>, args: JsonView) -> Result<
    CallToolResultView,
    ToolErrorView,
> {
    if name == "diff_text"@ {
        diff_text_call(args)
    } else if name == "diff_json"@ {
        diff_json_call(args)
    } else if name == "regex_match"@ {
        regex_match_call(args)
    } else if name == "count_stats"@ {
        count_stats_call(args)
    } else {
        Err(unknown_tool(name))
    }
}

impl TextTools {
    /// What the group advertises.
    pub fn descriptors(&self) -> (r: Vec<Tool>)
        ensures
            views(r@) == text_tools(),
    {
        let diff_text = Tool::new(
            "diff_text",
            DIFF_TEXT_DESCRIPTION,
            schema2(
                Json::object().with("old_text", property("string", "Original text")).with(
                    "new_text",
                    property("string", "Modified text"),
                ).with("context_lines", property("integer", CONTEXT_DESCRIPTION)),
                "old_text",
                "new_text",
            ),
        );
        let diff_json = Tool::new(
            "diff_json",
            DIFF_JSON_DESCRIPTION,
            schema2(
                Json::object().with(
                    "old_json",
                    any("Original JSON value or a JSON string"),
                ).with("new_json", any("Modified JSON value or a JSON string")).with(
                    "context_lines",
                    property("integer", CONTEXT_DESCRIPTION),
                ),
                "old_json",
                "new_json",
            ),
        );
        let regex_match = Tool::new(
            "regex_match",
            REGEX_DESCRIPTION,
            schema2(
                Json::object().with("pattern", property("string", "Regular expression")).with(
                    "text",
                    property("string", "Text to search"),
                ).with("limit", property("integer", "Maximum matches to return (default 1000)")),
                "pattern",
                "text",
            ),
        );
        let count_stats = Tool::new(
            "count_stats",
            STATS_DESCRIPTION,
            schema1(
                Json::object().with("text", property("string", "Text to measure")),
                "text",
            ),
        );
        let tools: Vec<Tool> = vec![diff_text, diff_json, regex_match, count_stats];
        assert(views(tools@) =~= text_tools());
        tools
    }

    /// Runs one of the tools.
    pub fn call(&self, name: &str, args: &Json) -> (r: ToolResult<CallToolResult>)
        ensures
            tool_result(r) == text_call(name@, args@),
    {
        if same(name, "diff_text") {
            diff_text(args)
        } else if same(name, "diff_json") {
            diff_json(args)
        } else if same(name, "regex_match") {
            regex_match(args)
        } else if same(name, "count_stats") {
            count_stats(args)
        } else {
            Err(unknown(name))
        }
    }
}

/// The results are capped, but the true count is reported, and a cut is said.
pub proof fn lemma_matches_capped(captures: Seq<CaptureView>, limit: u64)
    ensures
        matches_report(captures, limit).field("matches"@) matches Some(JsonView::Array(items))
            && items.len() <= limit && items.len() <= captures.len() && (items.len()
            < captures.len() <==> matches_report(captures, limit).field("truncated"@) == Some(
            JsonView::Bool(true),
        )),
        matches_report(captures, limit).field("count"@) == Some(
            json_number(captures.len() as u64),
        ),
{
    reveal_strlit("count");
    reveal_strlit("truncated");
    reveal_strlit("matches");
    assert("count"@[0] == 'c');
    assert("truncated"@[0] == 't');
    assert("matches"@[0] == 'm');
}

/// A diff is written group by group: one more group adds its header and its lines
/// behind all that is written already.
pub proof fn lemma_groups_are_written_in_turn(
    groups: Seq<Seq<LineOpView>>,
    more: Seq<Seq<LineOpView>>,
)
    ensures
        hunks_text(groups + more) == hunks_text(groups) + hunks_text(more),
        forall|group: Seq<LineOpView>| #[trigger]
            hunks_text(groups.push(group)) == hunks_text(groups) + hunk_header(group) + ops_text(
                group,
            ),
    decreases more.len(),
{
    assert forall|group: Seq<LineOpView>| #[trigger]
        hunks_text(groups.push(group)) == hunks_text(groups) + hunk_header(group) + ops_text(
            group,
        ) by {
        assert(groups.push(group).drop_last() =~= groups);
    }
    if more.len() == 0 {
        assert(groups + more =~= groups);
        assert(hunks_text(groups) + hunks_text(more) =~= hunks_text(groups));
    } else {
        let front = more.drop_last();
        lemma_groups_are_written_in_turn(groups, front);
        assert((groups + more).drop_last() =~= groups + front);
        assert((groups + more).last() == more.last());
        assert(hunks_text(groups + more) =~= hunks_text(groups) + hunks_text(more));
    }
}

/// All the changes of some operations.
pub open spec fn all_changes(ops: Seq<LineOpView>) -> Seq<LineChangeView>
    decreases ops.len(),
{
    if ops.len() == 0 {
        seq![]
    } else {
        all_changes(ops.drop_last()) + ops.last().changes
    }
}

/// How the changes of a text are written line by line: each behind its sign, and
/// ended where the text does not end it.
pub open spec fn signed_lines(changes: Seq<LineChangeView>) -> Seq<Seq<char>> {
    changes.map_values(
        |change: LineChangeView|
            seq![
                match change.tag {
                    DiffTag::Delete => '-',
                    DiffTag::Insert => '+',
                    DiffTag::Equal => ' ',
                },
            ] + change.value + if change.value.len() > 0 && change.value.last() == '\n' {
                seq![]
            } else {
                seq!['\n']
            },
    )
}

/// Every change of a group is written: one line for each, in their order, behind the
/// sign that says whether it was there before, is there now, or both.
pub proof fn lemma_every_change_is_written(ops: Seq<LineOpView>)
    ensures
        ops_text(ops) == glued(signed_lines(all_changes(ops)), seq![]),
    decreases ops.len(),
{
    if ops.len() == 0 {
        assert(signed_lines(all_changes(ops)) =~= seq![]);
        assert(glued(signed_lines(all_changes(ops)), seq![]) =~= seq![]);
    } else {
        let front = all_changes(ops.drop_last());
        lemma_every_change_is_written(ops.drop_last());
        lemma_changes_are_lines(front, ops.last().changes);
    }
}

proof fn lemma_changes_are_lines(before: Seq<LineChangeView>, changes: Seq<LineChangeView>)
    ensures
        glued(signed_lines(before + changes), seq![]) == glued(signed_lines(before), seq![])
            + changes_text(changes),
    decreases changes.len(),
{
    let none = Seq::<char>::empty();
    if changes.len() == 0 {
        assert(before + changes =~= before);
        assert(glued(signed_lines(before), none) + none =~= glued(signed_lines(before), none));
    } else {
        let front = changes.drop_last();
        let last = changes.last();
        lemma_changes_are_lines(before, front);
        let lines = signed_lines(before + front);
        let line = change_text(last);
        assert(signed_lines(before + changes) =~= lines.push(signed_lines(seq![last])[0]));
        assert(signed_lines(seq![last])[0] =~= line);
        lemma_glued_end(lines, line);
        assert(glued(lines, none) + line =~= glued(signed_lines(before), none) + (changes_text(
            front,
        ) + line));
    }
}

/// Every group stands in the text of a diff, whole, behind its header.
pub proof fn lemma_every_group_is_shown(groups: Seq<Seq<LineOpView>>, i: int)
    requires
        0 <= i < groups.len(),
    ensures
        diff_report(groups) == CallToolResultView::text(
            hunks_text(groups.take(i)) + (hunk_header(groups[i]) + glued(
                signed_lines(all_changes(groups[i])),
                seq![],
            )) + hunks_text(groups.skip(i + 1)),
        ),
{
    lemma_every_change_is_written(groups[i]);
    let upto = groups.take(i + 1);
    assert(upto =~= groups.take(i).push(groups[i]));
    lemma_groups_are_written_in_turn(groups.take(i), seq![]);
    lemma_groups_are_written_in_turn(upto, groups.skip(i + 1));
    assert(upto + groups.skip(i + 1) =~= groups);
    let body = hunk_header(groups[i]) + ops_text(groups[i]);
    assert(hunks_text(groups) =~= hunks_text(groups.take(i)) + body + hunks_text(
        groups.skip(i + 1),
    ));
}

/// The header of a group says where it begins, from one on, and how many lines it
/// has, in the text before and in the text after.
pub proof fn lemma_hunk_header(group: Seq<LineOpView>)
    requires
        group.len() > 0,
        group[0].old_start <= group.last().old_end,
        group[0].new_start <= group.last().new_end,
    ensures
        hunk_header(group) == "@@ -"@ + decimal((group[0].old_start + 1) as nat) + ","@ + decimal(
            (group.last().old_end - group[0].old_start) as nat,
        ) + " +"@ + decimal((group[0].new_start + 1) as nat) + ","@ + decimal(
            (group.last().new_end - group[0].new_start) as nat,
        ) + " @@\n"@,
{
}

/// The lines of a text as one side of a diff has them: those that are only on the
/// other side are left out.
pub open spec fn side(changes: Seq<LineChangeView>, other: DiffTag) -> Seq<Seq<char>>
    decreases changes.len(),
{
    if changes.len() == 0 {
        seq![]
    } else if changes.last().tag == other {
        side(changes.drop_last(), other)
    } else {
        side(changes.drop_last(), other).push(changes.last().value)
    }
}

/// The signed lines whose sign is not `sign`, without their signs.
pub open spec fn unsigned_lines(lines: Seq<Seq<char>>, sign: char) -> Seq<Seq<char>>
    decreases lines.len(),
{
    if lines.len() == 0 {
        seq![]
    } else if lines.last().len() > 0 && lines.last()[0] == sign {
        unsigned_lines(lines.drop_last(), sign)
    } else {
        unsigned_lines(lines.drop_last(), sign).push(lines.last().drop_first())
    }
}

/// A diff can be applied: without the lines that begin with `-` its lines are those
/// of the new text, without those that begin with `+` those of the old one.
pub proof fn lemma_diff_can_be_applied(changes: Seq<LineChangeView>)
    requires
        forall|i: int|
            0 <= i < changes.len() ==> (#[trigger] changes[i]).value.len() > 0
                && changes[i].value.last() == '\n',
    ensures
        unsigned_lines(signed_lines(changes), '-') == side(changes, DiffTag::Delete),
        unsigned_lines(signed_lines(changes), '+') == side(changes, DiffTag::Insert),
    decreases changes.len(),
{
    if changes.len() > 0 {
        let front = changes.drop_last();
        let last = changes.last();
        assert forall|i: int| 0 <= i < front.len() implies (#[trigger] front[i]).value.len() > 0
            && front[i].value.last() == '\n' by {
            assert(front[i] == changes[i]);
        }
        lemma_diff_can_be_applied(front);
        let line = signed_lines(changes).last();
        assert(changes[changes.len() - 1].value.len() > 0);
        assert(signed_lines(changes).drop_last() =~= signed_lines(front));
        assert(line.drop_first() =~= last.value);
    }
}

/// What a diff says of two texts does not depend on how they came: the arguments are
/// taken each by its own name, and as many lines of context are kept as are asked
/// for, three where nothing is asked, and at most thirty-two.
pub proof fn lemma_diff_arguments(args: JsonView)
    requires
        diff_text_call(args) is Ok,
    ensures
        args.field("old_text"@) matches Some(JsonView::Text(before)) && args.field(
            "new_text"@,
        ) matches Some(JsonView::Text(after)) && {
            let context: nat = match args.unsigned_field("context_lines"@) {
                None => 3,
                Some(asked) => if asked <= 32 {
                    asked as nat
                } else if asked > usize::MAX {
                    3
                } else {
                    32
                },
            };
            let groups = diff_groups(before, after, context);
            diff_text_call(args)->Ok_0 == if groups.len() == 0 {
                CallToolResultView::text("(inputs are identical)"@)
            } else {
                CallToolResultView::text(hunks_text(groups))
            }
        },
{
}

/// JSON is compared as it would be written, whether a value is given as it is or as
/// a text that writes it.
pub proof fn lemma_json_diff_arguments(args: JsonView, other: JsonView, field: Seq<char>)
    requires
        args.field(field) matches Some(JsonView::Text(text)) && Ok::<JsonView, Seq<char>>(
            other.field(field)->0,
        ) == parsed_json(text),
        other.field(field) is Some,
        !(other.field(field)->0 is Text),
    ensures
        canonical_argument(args, field) == canonical_argument(other, field),
        canonical_argument(other, field) == Ok::<Seq<char>, ToolErrorView>(
            pretty_json(other.field(field)->0),
        ),
{
}

/// A match is reported with the text that matched, where it stands, and its groups
/// in their order, the whole match left out; a group that took no part is null.
pub proof fn lemma_matches_are_reported(captures: Seq<CaptureView>, limit: u64, i: int)
    requires
        0 <= i < captures.len(),
        i < limit,
        captures[i].groups.len() > 0,
        captures[i].groups[0] is Some,
    ensures
        matches_report(captures, limit).field("matches"@) matches Some(JsonView::Array(items)) && {
            &&& i < items.len()
            &&& items[i].field("text"@) == Some(JsonView::Text(captures[i].groups[0]->0))
            &&& items[i].field("offset"@) == Some(json_number(captures[i].start as u64))
            &&& items[i].field("groups"@) matches Some(JsonView::Array(groups)) && groups.len()
                == captures[i].groups.len() - 1 && forall|k: int|
                0 <= k < groups.len() ==> #[trigger] groups[k] == match captures[i].groups[k + 1] {
                    Some(text) => JsonView::Text(text),
                    None => JsonView::Null,
                }
        },
{
    lemma_match_keys();
}

proof fn lemma_match_keys()
    ensures
        "text"@ != "offset"@,
        "text"@ != "groups"@,
        "offset"@ != "groups"@,
        "count"@ != "truncated"@,
        "count"@ != "matches"@,
        "truncated"@ != "matches"@,
        "lines"@ != "words"@,
        "lines"@ != "chars"@,
        "lines"@ != "bytes"@,
        "words"@ != "chars"@,
        "words"@ != "bytes"@,
        "chars"@ != "bytes"@,
{
    reveal_strlit("text");
    reveal_strlit("offset");
    reveal_strlit("groups");
    reveal_strlit("count");
    reveal_strlit("truncated");
    reveal_strlit("matches");
    reveal_strlit("lines");
    reveal_strlit("words");
    reveal_strlit("chars");
    reveal_strlit("bytes");
    assert("text"@.len() == 4);
    assert("offset"@.len() == 6);
    assert("groups"@.len() == 6);
    assert("count"@.len() == 5);
    assert("truncated"@.len() == 9);
    assert("matches"@.len() == 7);
    assert("lines"@.len() == 5);
    assert("words"@.len() == 5);
    assert("chars"@.len() == 5);
    assert("bytes"@.len() == 5);
    assert("offset"@[0] == 'o');
    assert("groups"@[0] == 'g');
    assert("count"@[0] == 'c');
    assert("count"@[1] == 'o');
    assert("lines"@[0] == 'l');
    assert("words"@[0] == 'w');
    assert("chars"@[0] == 'c');
    assert("chars"@[1] == 'h');
    assert("bytes"@[0] == 'b');
}

/// The counts of a text are those of its lines, words, characters and bytes, each
/// under its name.
pub proof fn lemma_counts(text: Seq<char>)
    ensures
        stats_json(text).field("lines"@) == Some(json_number(raw_lines(text).len() as u64)),
        stats_json(text).field("words"@) == Some(json_number(word_count(text) as u64)),
        stats_json(text).field("chars"@) == Some(json_number(text.len() as u64)),
        stats_json(text).field("bytes"@) == Some(
            json_number(vstd::utf8::encode_utf8(text).len() as u64),
        ),
{
    lemma_match_keys();
}

/// Each tool is answered by its own call, and any other name by none.
pub proof fn lemma_text_calls(name: Seq<char>, args: JsonView)
    ensures
        text_call("diff_text"@, args) == diff_text_call(args),
        text_call("diff_json"@, args) == diff_json_call(args),
        text_call("regex_match"@, args) == regex_match_call(args),
        text_call("count_stats"@, args) == count_stats_call(args),
        name != "diff_text"@ && name != "diff_json"@ && name != "regex_match"@ && name
            != "count_stats"@ ==> text_call(name, args) == Err::<CallToolResultView, ToolErrorView>(
            ToolErrorView::NotFound(name),
        ),
{
    reveal_strlit("diff_text");
    reveal_strlit("diff_json");
    reveal_strlit("regex_match");
    reveal_strlit("count_stats");
    assert("diff_text"@.len() == 9);
    assert("diff_json"@.len() == 9);
    assert("regex_match"@.len() == 11);
    assert("count_stats"@.len() == 11);
    assert("diff_text"@[5] == 't');
    assert("diff_json"@[5] == 'j');
    assert("regex_match"@[0] == 'r');
    assert("count_stats"@[0] == 'c');
}

/// A search for a pattern is made in the text that is given, for a thousand matches
/// where no limit is, and is refused where the pattern cannot be compiled; counting is
/// done on the text that is given.
pub proof fn lemma_text_arguments(args: JsonView, text: Seq<char>)
    requires
        args.field("text"@) == Some(JsonView::Text(text)),
    ensures
        count_stats_call(args) == Ok::<CallToolResultView, ToolErrorView>(
            CallToolResultView::structured(stats_json(text)),
        ),
        args.field("pattern"@) matches Some(JsonView::Text(source)) ==> match compiled(
            source,
            false,
            MAX_REGEX_SIZE as nat,
        ) {
            Ok(pattern) => {
                &&& args.field("limit"@) is None ==> regex_match_call(args) == Ok::<
                    CallToolResultView,
                    ToolErrorView,
                >(
                    CallToolResultView::structured(
                        matches_report(
                            regex_captured(pattern.source, pattern.ignore_case, text),
                            1000,
                        ),
                    ),
                )
                &&& args.field("limit"@) matches Some(JsonView::Number(JsonNumber::Unsigned(n)))
                    ==> regex_match_call(args) == Ok::<CallToolResultView, ToolErrorView>(
                    CallToolResultView::structured(
                        matches_report(
                            regex_captured(pattern.source, pattern.ignore_case, text),
                            n,
                        ),
                    ),
                )
            },
            Err(_) => args.field("limit"@) is None ==> (regex_match_call(args) matches Err(err)
                && err is InvalidArguments),
        },
        args.field("pattern"@) is None ==> regex_match_call(args) is Err,
{
}

/// Two values are compared as they are written out, with three lines around each
/// change where nothing else is asked for.
pub proof fn lemma_json_is_compared(args: JsonView, before: JsonView, after: JsonView)
    requires
        args.field("old_json"@) == Some(before),
        args.field("new_json"@) == Some(after),
        !(before is Text),
        !(after is Text),
        args.field("context_lines"@) is None,
    ensures
        diff_json_call(args) == Ok::<CallToolResultView, ToolErrorView>(
            CallToolResultView::text(
                if diff_groups(pretty_json(before), pretty_json(after), 3).len() == 0 {
                    "(inputs are identical)"@
                } else {
                    hunks_text(diff_groups(pretty_json(before), pretty_json(after), 3))
                },
            ),
        ),
{
}

/// Two texts are compared wherever both are given.
pub proof fn lemma_texts_are_compared(args: JsonView, before: Seq<char>, after: Seq<char>)
    requires
        args.field("old_text"@) == Some(JsonView::Text(before)),
        args.field("new_text"@) == Some(JsonView::Text(after)),
        args.field("context_lines"@) is None,
    ensures
        diff_text_call(args) == Ok::<CallToolResultView, ToolErrorView>(
            CallToolResultView::text(
                if diff_groups(before, after, 3).len() == 0 {
                    "(inputs are identical)"@
                } else {
                    hunks_text(diff_groups(before, after, 3))
                },
            ),
        ),
{
}

/// What the four tools take.
pub proof fn lemma_text_schemas()
    ensures
        text_tools().len() == 4,
        text_tools()[0].name == "diff_text"@,
        needs(text_tools()[0].input_schema, seq!["old_text"@, "new_text"@]),
        takes(text_tools()[0].input_schema, "old_text"@, "string"@),
        takes(text_tools()[0].input_schema, "new_text"@, "string"@),
        takes(text_tools()[0].input_schema, "context_lines"@, "integer"@),
        text_tools()[1].name == "diff_json"@,
        needs(text_tools()[1].input_schema, seq!["old_json"@, "new_json"@]),
        mentions(text_tools()[1].input_schema, "old_json"@),
        mentions(text_tools()[1].input_schema, "new_json"@),
        takes(text_tools()[1].input_schema, "context_lines"@, "integer"@),
        text_tools()[2].name == "regex_match"@,
        needs(text_tools()[2].input_schema, seq!["pattern"@, "text"@]),
        takes(text_tools()[2].input_schema, "pattern"@, "string"@),
        takes(text_tools()[2].input_schema, "text"@, "string"@),
        takes(text_tools()[2].input_schema, "limit"@, "integer"@),
        text_tools()[3].name == "count_stats"@,
        needs(text_tools()[3].input_schema, seq!["text"@]),
        takes(text_tools()[3].input_schema, "text"@, "string"@),
{
    reveal_strlit("type");
    reveal_strlit("properties");
    reveal_strlit("required");
    reveal_strlit("description");
    reveal_strlit("old_text");
    reveal_strlit("new_text");
    reveal_strlit("context_lines");
    reveal_strlit("old_json");
    reveal_strlit("new_json");
    reveal_strlit("pattern");
    reveal_strlit("text");
    reveal_strlit("limit");
    assert("type"@.len() == 4);
    assert("properties"@.len() == 10);
    assert("required"@.len() == 8);
    assert("description"@.len() == 11);
    assert("old_text"@.len() == 8);
    assert("new_text"@.len() == 8);
    assert("context_lines"@.len() == 13);
    assert("old_json"@.len() == 8);
    assert("new_json"@.len() == 8);
    assert("pattern"@.len() == 7);
    assert("text"@.len() == 4);
    assert("limit"@.len() == 5);
    assert("type"@[1] == 'y');
    assert("required"@[0] == 'r');
    assert("old_text"@[0] == 'o');
    assert("old_text"@[4] == 't');
    assert("new_text"@[0] == 'n');
    assert("new_text"@[4] == 't');
    assert("old_json"@[0] == 'o');
    assert("old_json"@[4] == 'j');
    assert("new_json"@[0] == 'n');
    assert("new_json"@[4] == 'j');
    assert("text"@[1] == 'e');
}

/// As many lines are kept around a change as are asked for, up to thirty-two.
pub proof fn lemma_context_is_bounded(context: usize, asked: u64)
    ensures
        kept_context(context) <= 32 && kept_context(context) <= context,
        kept_context(context) < context ==> kept_context(context) == 32,
        context_lines(asked) <= 32,
        asked <= 32 ==> context_lines(asked) == asked,
        32 < asked <= usize::MAX ==> context_lines(asked) == 32,
{
}

/// A match without a text of its own is shown as an empty one.
pub proof fn lemma_empty_matches(capture: CaptureView)
    ensures
        capture.groups.len() == 0 || capture.groups[0] is None ==> match_json(capture).field(
            "text"@,
        ) == Some(JsonView::Text(seq![])),
        capture.groups.len() == 0 ==> match_json(capture).field("groups"@) == Some(
            JsonView::Array(seq![]),
        ),
{
    reveal_strlit("text");
    reveal_strlit("offset");
    reveal_strlit("groups");
    assert("text"@.len() == 4);
    assert("offset"@.len() == 6);
    assert("groups"@.len() == 6);
    assert("offset"@[0] == 'o');
    assert("groups"@[0] == 'g');
    reveal_strlit("");
    assert(""@ =~= seq![]);
}

} // verus!
