//! Line-by-line diffs.

use vstd::prelude::*;

use super::{module_result, read_text_or_empty, say_unknown, text_or_empty, unknown_message};
use crate::diff::{DiffTag, LineChange, LineChangeView, all_lines, diff_lines};
use crate::json::{pretty_json, Json, JsonView};
use crate::protocol::mcp::{CallToolResult, CallToolResultView, Tool, ToolView};
use crate::text::{same, views};
use crate::tools::schema::{
    any, any_schema, mentions, needs, object_schema, property, property_schema, schema2, takes,
};
use crate::tools::text::sign_of;

verus! {

/// The module for diffs.
pub struct DiffModule;

/// What the module advertises.
pub open spec fn diff_tools() -> Seq<ToolView> {
    seq![
        ToolView::new(
            "diff_text"@,
            "Computes a line-by-line diff between two text strings"@,
            object_schema(
                JsonView::object().with(
                    "old_text"@,
                    property_schema("string"@, "Original text"@),
                ).with("new_text"@, property_schema("string"@, "Modified text"@)),
                seq!["old_text"@, "new_text"@],
            ),
        ),
        ToolView::new(
            "diff_json"@,
            "Compares two JSON values and highlights structural differences"@,
            object_schema(
                JsonView::object().with(
                    "old_json"@,
                    any_schema("Original JSON object or string"@),
                ).with("new_json"@, any_schema("Modified JSON object or string"@)),
                seq!["old_json"@, "new_json"@],
            ),
        ),
    ]
}

/// Every line with its sign in front.
pub open spec fn signed_lines(changes: Seq<LineChangeView>) -> Seq<char>
    decreases changes.len(),
{
    if changes.len() == 0 {
        seq![]
    } else {
        signed_lines(changes.drop_last()) + (seq![sign_of(changes.last().tag)]
            + changes.last().value)
    }
}

/// The value under `key`, or null.
pub open spec fn value_or_null(args: JsonView, key: Seq<char>) -> JsonView {
    match args.field(key) {
        Some(value) => value,
        None => JsonView::Null,
    }
}

/// What the module answers to a call.
pub open spec fn diff_call(name: Seq<char>, args: JsonView) -> Result<
    CallToolResultView,
    Seq<char>,
> {
    if name == "diff_text"@ {
        Ok(
            CallToolResultView::text(
                signed_lines(
                    diff_lines(
                        text_or_empty(args, "old_text"@),
                        text_or_empty(args, "new_text"@),
                    ),
                ),
            ),
        )
    } else if name == "diff_json"@ {
        Ok(
            CallToolResultView::text(
                signed_lines(
                    diff_lines(
                        pretty_json(value_or_null(args, "old_json"@)),
                        pretty_json(value_or_null(args, "new_json"@)),
                    ),
                ),
            ),
        )
    } else {
        Err(unknown_message(name))
    }
}

/// Writes every line with its sign in front.
pub fn sign_lines(changes: &Vec<LineChange>) -> (r: String)
    ensures
        r@ == signed_lines(views(changes@)),
{
    let ghost all = views(changes@);
    let mut out = String::new();
    let mut i: usize = 0;
    assert(all.take(0) =~= seq![]);
    assert(out@ =~= signed_lines(all.take(0)));
    while i < changes.len()
        invariant
            0 <= i <= changes@.len(),
            all == views(changes@),
            out@ == signed_lines(all.take(i as int)),
        decreases changes@.len() - i,
    {
        let ghost before = out@;
        let change = &changes[i];
        let sign: char = match change.tag {
            crate::diff::DiffTag::Delete => '-',
            crate::diff::DiffTag::Insert => '+',
            crate::diff::DiffTag::Equal => ' ',
        };
        out.push(sign);
        out.append(change.value.as_str());
        proof {
            assert(all.take(i + 1).drop_last() =~= all.take(i as int));
            assert(all.take(i + 1).last() == change@);
            assert(out@ =~= before + (seq![sign] + change.value@));
        }
        i += 1;
    }
    assert(all.take(i as int) =~= all);
    out
}

fn pretty_or_null(args: &Json, key: &str) -> (r: String)
    ensures
        r@ == pretty_json(value_or_null(args@, key@)),
{
    match args.get(key) {
        Some(value) => value.pretty(),
        None => Json::Null.pretty(),
    }
}

impl DiffModule {
    /// The module.
    pub fn new() -> (r: DiffModule)
        ensures
            r == DiffModule,
    {
        DiffModule
    }

    /// Unique identifier of the module.
    pub fn name(&self) -> (r: &'static str)
        ensures
            r@ == "diff"@,
    {
        "diff"
    }

    /// What the module advertises.
    pub fn tools(&self) -> (r: Vec<Tool>)
        ensures
            views(r@) == diff_tools(),
    {
        let tools: Vec<Tool> = vec![
            Tool::new(
                "diff_text",
                "Computes a line-by-line diff between two text strings",
                schema2(
                    Json::object().with("old_text", property("string", "Original text")).with(
                        "new_text",
                        property("string", "Modified text"),
                    ),
                    "old_text",
                    "new_text",
                ),
            ),
            Tool::new(
                "diff_json",
                "Compares two JSON values and highlights structural differences",
                schema2(
                    Json::object().with("old_json", any("Original JSON object or string")).with(
                        "new_json",
                        any("Modified JSON object or string"),
                    ),
                    "old_json",
                    "new_json",
                ),
            ),
        ];
        assert(views(tools@) =~= diff_tools());
        tools
    }

    /// Runs one of the tools.
    pub fn call_tool(&self, name: &str, args: &Json) -> (r: Result<CallToolResult, String>)
        ensures
            module_result(r) == diff_call(name@, args@),
    {
        if same(name, "diff_text") {
            let before = read_text_or_empty(args, "old_text");
            let after = read_text_or_empty(args, "new_text");
            Ok(CallToolResult::text(sign_lines(&all_lines(&before, &after))))
        } else if same(name, "diff_json") {
            let before = pretty_or_null(args, "old_json");
            let after = pretty_or_null(args, "new_json");
            Ok(CallToolResult::text(sign_lines(&all_lines(&before, &after))))
        } else {
            Err(say_unknown(name))
        }
    }
}

/// Every change is written as one line: its sign, a minus for what is gone, a plus for
/// what is new and a blank for what stays, and then its text; all of them in order.
pub proof fn lemma_changes_are_written_in_turn(a: Seq<LineChangeView>, b: Seq<LineChangeView>)
    ensures
        signed_lines(a + b) == signed_lines(a) + signed_lines(b),
        b.len() == 1 ==> signed_lines(b) == seq![
            match b[0].tag {
                DiffTag::Delete => '-',
                DiffTag::Insert => '+',
                DiffTag::Equal => ' ',
            },
        ] + b[0].value,
        b.len() == 0 ==> signed_lines(b) == Seq::<char>::empty(),
    decreases b.len(),
{
    let whole = a + b;
    if b.len() == 0 {
        assert(whole =~= a);
        assert(signed_lines(a) + signed_lines(b) =~= signed_lines(a));
    } else {
        let front = b.drop_last();
        lemma_changes_are_written_in_turn(a, front);
        assert(whole.drop_last() =~= a + front);
        assert(whole.last() == b.last());
        let line = seq![sign_of(b.last().tag)] + b.last().value;
        assert((signed_lines(a) + signed_lines(front)) + line =~= signed_lines(a) + (signed_lines(
            front,
        ) + line));
        if b.len() == 1 {
            assert(front =~= seq![]);
            assert(signed_lines(front) =~= seq![]);
            assert(signed_lines(b) =~= line);
        }
    }
}

/// The answer shows the changes between the two texts, or between the two values
/// written out, and any other name is an error. What is missing is an empty text or
/// null.
pub proof fn lemma_diff_calls(name: Seq<char>, args: JsonView)
    ensures
        diff_call("diff_text"@, args) == Ok::<CallToolResultView, Seq<char>>(
            CallToolResultView::text(
                signed_lines(
                    diff_lines(
                        match args.field("old_text"@) {
                            Some(JsonView::Text(text)) => text,
                            _ => seq![],
                        },
                        match args.field("new_text"@) {
                            Some(JsonView::Text(text)) => text,
                            _ => seq![],
                        },
                    ),
                ),
            ),
        ),
        args.field("old_json"@) matches Some(before) ==> (args.field("new_json"@) matches Some(after)
            ==> diff_call("diff_json"@, args) == Ok::<CallToolResultView, Seq<char>>(
            CallToolResultView::text(
                signed_lines(diff_lines(pretty_json(before), pretty_json(after))),
            ),
        )),
        args.field("old_json"@) is None ==> diff_call("diff_json"@, args) == diff_call(
            "diff_json"@,
            args.with("old_json"@, JsonView::Null),
        ) || !(args is Object),
        name != "diff_text"@ && name != "diff_json"@ ==> diff_call(name, args) is Err,
{
    reveal_strlit("diff_text");
    reveal_strlit("diff_json");
    reveal_strlit("old_json");
    reveal_strlit("new_json");
    assert("diff_text"@.len() == 9);
    assert("diff_json"@.len() == 9);
    assert("old_json"@.len() == 8);
    assert("new_json"@.len() == 8);
    assert("diff_text"@[5] == 't');
    assert("diff_json"@[5] == 'j');
    assert("old_json"@[0] == 'o');
    assert("new_json"@[0] == 'n');
    reveal_strlit("");
    assert(""@ =~= seq![]);
}

/// What the two tools take: two texts or two values.
pub proof fn lemma_diff_schemas()
    ensures
        diff_tools().len() == 2,
        diff_tools()[0].name == "diff_text"@,
        needs(diff_tools()[0].input_schema, seq!["old_text"@, "new_text"@]),
        takes(diff_tools()[0].input_schema, "old_text"@, "string"@),
        takes(diff_tools()[0].input_schema, "new_text"@, "string"@),
        diff_tools()[1].name == "diff_json"@,
        needs(diff_tools()[1].input_schema, seq!["old_json"@, "new_json"@]),
        mentions(diff_tools()[1].input_schema, "old_json"@),
        mentions(diff_tools()[1].input_schema, "new_json"@),
{
    reveal_strlit("type");
    reveal_strlit("properties");
    reveal_strlit("required");
    reveal_strlit("description");
    reveal_strlit("old_text");
    reveal_strlit("new_text");
    reveal_strlit("old_json");
    reveal_strlit("new_json");
    assert("type"@.len() == 4);
    assert("properties"@.len() == 10);
    assert("required"@.len() == 8);
    assert("description"@.len() == 11);
    assert("old_text"@.len() == 8);
    assert("new_text"@.len() == 8);
    assert("old_json"@.len() == 8);
    assert("new_json"@.len() == 8);
    assert("required"@[0] == 'r');
    assert("old_text"@[0] == 'o');
    assert("old_text"@[4] == 't');
    assert("new_text"@[0] == 'n');
    assert("new_text"@[4] == 't');
    assert("old_json"@[0] == 'o');
    assert("old_json"@[4] == 'j');
    assert("new_json"@[0] == 'n');
    assert("new_json"@[4] == 'j');
}

} // verus!
