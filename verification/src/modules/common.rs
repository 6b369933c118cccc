//! Matching and counting.

use vstd::prelude::*;

use super::{
    module_result, read_text_or_empty, say_unknown, show, shown, text_or_empty, unknown_message,
    REGEX_SIZE_LIMIT,
};
use crate::json::{json_number, json_texts, Json, JsonView};
use crate::pattern::{compiled, Pattern};
use crate::protocol::mcp::{CallToolResult, CallToolResultView, Tool, ToolView};
use crate::text::{cat2, same, views};
use crate::tools::schema::{
    needs, object_schema, property, property_schema, schema1, schema2, takes,
};
use crate::tools::text::{stats, stats_json};

verus! {

/// The module for matching and counting.
pub struct CommonModule;

/// What the module advertises.
pub open spec fn common_tools() -> Seq<ToolView> {
    seq![
        ToolView::new(
            "regex_match"@,
            "Searches text for matches of a regex pattern"@,
            object_schema(
                JsonView::object().with(
                    "pattern"@,
                    property_schema("string"@, "Regex pattern"@),
                ).with("text"@, property_schema("string"@, "Text to search"@)),
                seq!["pattern"@, "text"@],
            ),
        ),
        ToolView::new(
            "count_stats"@,
            "Counts lines, words, characters, and bytes in text"@,
            object_schema(
                JsonView::object().with("text"@, property_schema("string"@, "Text to analyze"@)),
                seq!["text"@],
            ),
        ),
    ]
}

/// What a search shows of the matches it found.
pub open spec fn matches_json(matches: Seq<Seq<char>>) -> JsonView {
    JsonView::object().with("count"@, json_number(matches.len() as u64)).with(
        "matches"@,
        json_texts(matches),
    )
}

/// What the module answers to a call.
pub open spec fn common_call(name: Seq<char>, args: JsonView) -> Result<
    CallToolResultView,
    Seq<char>,
> {
    if name == "regex_match"@ {
        match compiled(text_or_empty(args, "pattern"@), false, REGEX_SIZE_LIMIT as nat) {
            Ok(pattern) => Ok(shown(matches_json(pattern.found(text_or_empty(args, "text"@))))),
            Err(message) => Err("Invalid regex: "@ + message),
        }
    } else if name == "count_stats"@ {
        Ok(shown(stats_json(text_or_empty(args, "text"@))))
    } else {
        Err(unknown_message(name))
    }
}

/// Shows the matches that were found.
pub fn show_matches(matches: &Vec<String>) -> (r: CallToolResult)
    ensures
        r@ == shown(matches_json(views(matches@))),
{
    show(
        Json::object().with("count", Json::number(matches.len() as u64)).with(
            "matches",
            Json::strings(matches),
        ),
    )
}

impl CommonModule {
    /// The module.
    pub fn new() -> (r: CommonModule)
        ensures
            r == CommonModule,
    {
        CommonModule
    }

    /// Unique identifier of the module.
    pub fn name(&self) -> (r: &'static str)
        ensures
            r@ == "common"@,
    {
        "common"
    }

    /// What the module advertises.
    pub fn tools(&self) -> (r: Vec<Tool>)
        ensures
            views(r@) == common_tools(),
    {
        let tools: Vec<Tool> = vec![
            Tool::new(
                "regex_match",
                "Searches text for matches of a regex pattern",
                schema2(
                    Json::object().with("pattern", property("string", "Regex pattern")).with(
                        "text",
                        property("string", "Text to search"),
                    ),
                    "pattern",
                    "text",
                ),
            ),
            Tool::new(
                "count_stats",
                "Counts lines, words, characters, and bytes in text",
                schema1(
                    Json::object().with("text", property("string", "Text to analyze")),
                    "text",
                ),
            ),
        ];
        assert(views(tools@) =~= common_tools());
        tools
    }

    /// Runs one of the tools.
    pub fn call_tool(&self, name: &str, args: &Json) -> (r: Result<CallToolResult, String>)
        ensures
            module_result(r) == common_call(name@, args@),
    {
        if same(name, "regex_match") {
            let source = read_text_or_empty(args, "pattern");
            let text = read_text_or_empty(args, "text");
            match Pattern::new(&source, false, REGEX_SIZE_LIMIT) {
                Ok(pattern) => Ok(show_matches(&pattern.find(&text))),
                Err(message) => Err(cat2("Invalid regex: ", &message)),
            }
        } else if same(name, "count_stats") {
            Ok(show(stats(&read_text_or_empty(args, "text"))))
        } else {
            Err(say_unknown(name))
        }
    }
}

/// Matches are shown as they are found, in order, with how many there are.
pub proof fn lemma_matches_are_shown(matches: Seq<Seq<char>>)
    ensures
        matches_json(matches).field("count"@) == Some(json_number(matches.len() as u64)),
        matches_json(matches).field("matches"@) matches Some(JsonView::Array(items)) && items.len()
            == matches.len() && forall|k: int|
            0 <= k < items.len() ==> #[trigger] items[k] == JsonView::Text(matches[k]),
{
    reveal_strlit("count");
    reveal_strlit("matches");
    assert("count"@.len() == 5);
    assert("matches"@.len() == 7);
}

/// Each tool works on the text that it is given, on an empty one where none is; a
/// pattern that cannot be compiled is an error, and so is any other name.
pub proof fn lemma_common_calls(name: Seq<char>, args: JsonView, text: Seq<char>)
    requires
        args.field("text"@) == Some(JsonView::Text(text)),
    ensures
        common_call("count_stats"@, args) == Ok::<CallToolResultView, Seq<char>>(
            shown(stats_json(text)),
        ),
        args.field("pattern"@) matches Some(JsonView::Text(source)) ==> match compiled(
            source,
            false,
            REGEX_SIZE_LIMIT as nat,
        ) {
            Ok(pattern) => common_call("regex_match"@, args) == Ok::<CallToolResultView, Seq<char>>(
                shown(matches_json(pattern.found(text))),
            ),
            Err(_) => common_call("regex_match"@, args) is Err,
        },
        name != "regex_match"@ && name != "count_stats"@ ==> common_call(name, args) is Err,
{
    reveal_strlit("regex_match");
    reveal_strlit("count_stats");
    assert("regex_match"@.len() == 11);
    assert("count_stats"@.len() == 11);
    assert("regex_match"@[0] == 'r');
    assert("count_stats"@[0] == 'c');
}

/// What the two tools take: a pattern and a text for the one, a text for the other.
pub proof fn lemma_common_schemas()
    ensures
        common_tools().len() == 2,
        common_tools()[0].name == "regex_match"@,
        needs(common_tools()[0].input_schema, seq!["pattern"@, "text"@]),
        takes(common_tools()[0].input_schema, "pattern"@, "string"@),
        takes(common_tools()[0].input_schema, "text"@, "string"@),
        common_tools()[1].name == "count_stats"@,
        needs(common_tools()[1].input_schema, seq!["text"@]),
        takes(common_tools()[1].input_schema, "text"@, "string"@),
{
    reveal_strlit("type");
    reveal_strlit("properties");
    reveal_strlit("required");
    reveal_strlit("description");
    reveal_strlit("pattern");
    reveal_strlit("text");
    assert("type"@.len() == 4);
    assert("properties"@.len() == 10);
    assert("required"@.len() == 8);
    assert("description"@.len() == 11);
    assert("pattern"@.len() == 7);
    assert("text"@.len() == 4);
    assert("type"@[1] == 'y');
    assert("text"@[1] == 'e');
}

} // verus!
