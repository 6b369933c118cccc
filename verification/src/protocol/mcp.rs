//! MCP payload types (`Tool`, `CallToolResult`, content blocks).

use vstd::prelude::*;

use crate::decode::{
    missing_field, name_items, named_items, names_field, optional_flag, optional_text,
    optional_value, read_optional_flag, read_optional_text, read_optional_value, read_text, record,
    required_text, say_missing, say_wrong_type, wrong_type,
};
use crate::json::{
    dup_entries, entry_views, item_views, lemma_item_views, pretty_json, Json, JsonView,
};
use crate::text::{opt_view, same, views};

verus! {

/// A tool advertised over `tools/list`.
///
/// Unknown fields from upstream servers are preserved in `extra` so that
/// proxying a tool through omni-mcp is lossless — annotations, `title`,
/// `outputSchema` and future spec additions survive the round trip.
#[derive(Debug, PartialEq)]
pub struct Tool {
    pub name: String,
    pub description: Option<String>,
    pub input_schema: Json,
    pub extra: Vec<(String, Json)>,
}

/// What a [`Tool`] says.
#[verifier::ext_equal]
pub struct ToolView {
    pub name: Seq<char>,
    pub description: Option<Seq<char>>,
    pub input_schema: JsonView,
    pub extra: Map<Seq<char>, JsonView>,
}

impl View for Tool {
    type V = ToolView;

    open spec fn view(&self) -> ToolView {
        ToolView {
            name: self.name@,
            description: opt_view(self.description),
            input_schema: self.input_schema@,
            extra: entry_views(self.extra@),
        }
    }
}

/// The schema of a tool that takes an object without saying more.
pub open spec fn empty_schema() -> JsonView {
    JsonView::object().with("type"@, JsonView::Text("object"@)).with(
        "properties"@,
        JsonView::object(),
    )
}

/// The schema of a tool that takes an object without saying more.
pub fn empty_object_schema() -> (r: Json)
    ensures
        r@ == empty_schema(),
{
    Json::object().with("type", Json::string("object")).with("properties", Json::object())
}

/// Whether `key` is a field of a tool that has a place of its own.
pub open spec fn is_tool_field(key: Seq<char>) -> bool {
    key == "name"@ || key == "description"@ || key == "inputSchema"@
}

/// The fields of a tool that have no place of their own.
pub open spec fn extra_fields(entries: Map<Seq<char>, JsonView>) -> Map<Seq<char>, JsonView> {
    entries.remove("name"@).remove("description"@).remove("inputSchema"@)
}

/// The tool that a JSON value writes.
pub open spec fn decoded_tool(value: JsonView) -> Result<ToolView, Seq<char>> {
    match value {
        JsonView::Object(entries) => match (
            required_text(value, "name"@),
            optional_text(value, "description"@),
        ) {
            (Err(e), _) => Err(e),
            (Ok(_), Err(e)) => Err(e),
            (Ok(name), Ok(description)) => Ok(
                ToolView {
                    name,
                    description,
                    input_schema: match value.field("inputSchema"@) {
                        Some(schema) => schema,
                        None => empty_schema(),
                    },
                    extra: extra_fields(entries),
                },
            ),
        },
        _ => Err("a tool must be an object"@),
    }
}

impl ToolView {
    /// The JSON value that writes the tool.
    pub open spec fn encoded(self) -> JsonView {
        let named = Map::<Seq<char>, JsonView>::empty().insert(
            "name"@,
            JsonView::Text(self.name),
        );
        let described = match self.description {
            Some(description) => named.insert("description"@, JsonView::Text(description)),
            None => named,
        };
        JsonView::Object(
            described.insert("inputSchema"@, self.input_schema).union_prefer_right(self.extra),
        )
    }

    /// A tool with a name, a description and a schema, and nothing more.
    pub open spec fn new(name: Seq<char>, description: Seq<char>, schema: JsonView) -> ToolView {
        ToolView {
            name,
            description: Some(description),
            input_schema: schema,
            extra: Map::empty(),
        }
    }
}

/// Appending entries lays them over what was there.
proof fn lemma_entries_append(a: Seq<(String, Json)>, b: Seq<(String, Json)>)
    ensures
        entry_views(a + b) == entry_views(a).union_prefer_right(entry_views(b)),
    decreases b.len(),
{
    if b.len() == 0 {
        assert(a + b =~= a);
        assert(entry_views(a).union_prefer_right(Map::empty()) =~= entry_views(a));
    } else {
        lemma_entries_append(a, b.drop_last());
        assert((a + b).drop_last() =~= a + b.drop_last());
        assert(entry_views(a).union_prefer_right(entry_views(b)) =~= entry_views(
            a,
        ).union_prefer_right(entry_views(b.drop_last())).insert(b.last().0@, b.last().1@));
    }
}

/// The outcome of reading a tool.
pub open spec fn tool_decode_result(r: Result<Tool, String>) -> Result<ToolView, Seq<char>> {
    match r {
        Ok(tool) => Ok(tool@),
        Err(message) => Err(message@),
    }
}

impl Tool {
    /// A tool with a name, a description and a schema, and nothing more.
    pub fn new(name: &str, description: &str, input_schema: Json) -> (r: Tool)
        ensures
            r@ == ToolView::new(name@, description@, input_schema@),
    {
        Tool {
            name: name.to_owned(),
            description: Some(description.to_owned()),
            input_schema,
            extra: Vec::new(),
        }
    }

    /// Rewrites the advertised name, e.g. to apply a backend namespace prefix.
    pub fn with_name(self, name: String) -> (r: Tool)
        ensures
            r@ == (ToolView { name: name@, ..self@ }),
    {
        Tool {
            name,
            description: self.description,
            input_schema: self.input_schema,
            extra: self.extra,
        }
    }

    /// A copy of the tool.
    pub fn dup(&self) -> (r: Tool)
        ensures
            r@ == self@,
    {
        Tool {
            name: self.name.clone(),
            description: match &self.description {
                Some(d) => Some(d.clone()),
                None => None,
            },
            input_schema: self.input_schema.dup(),
            extra: dup_entries(&self.extra),
        }
    }

    /// Reads a tool out of a JSON value.
    pub fn from_json(value: &Json) -> (r: Result<Tool, String>)
        ensures
            tool_decode_result(r) == decoded_tool(value@),
    {
        match value {
            Json::Object(entries) => match read_text(value, "name") {
                Err(e) => Err(e),
                Ok(name) => match read_optional_text(value, "description") {
                    Err(e) => Err(e),
                    Ok(description) => {
                        let input_schema = match value.get("inputSchema") {
                            Some(schema) => schema.dup(),
                            None => empty_object_schema(),
                        };
                        let rest = value.dup().without("name").without("description").without(
                            "inputSchema",
                        );
                        let extra = match rest {
                            Json::Object(extra) => extra,
                            _ => Vec::new(),
                        };
                        Ok(Tool { name, description, input_schema, extra })
                    },
                },
            },
            _ => Err("a tool must be an object".to_owned()),
        }
    }

    /// Writes the tool as a JSON value.
    pub fn to_json(&self) -> (r: Json)
        ensures
            r@ == self@.encoded(),
    {
        let mut entries: Vec<(String, Json)> = Vec::new();
        let ghost e0 = entries@;
        entries.push(("name".to_owned(), Json::string(&self.name)));
        let ghost e1 = entries@;
        assert(e1.drop_last() =~= e0);
        match &self.description {
            Some(description) => {
                entries.push(("description".to_owned(), Json::string(description)));
                assert(entries@.drop_last() =~= e1);
            },
            None => {},
        }
        let ghost e2 = entries@;
        entries.push(("inputSchema".to_owned(), self.input_schema.dup()));
        let ghost e3 = entries@;
        assert(e3.drop_last() =~= e2);
        let mut extra = dup_entries(&self.extra);
        let ghost more = extra@;
        entries.append(&mut extra);
        proof {
            let named = Map::<Seq<char>, JsonView>::empty().insert(
                "name"@,
                JsonView::Text(self.name@),
            );
            assert(entry_views(e0) == Map::<Seq<char>, JsonView>::empty());
            assert(entry_views(e1) == named);
            assert(entry_views(e2) == match opt_view(self.description) {
                Some(d) => named.insert("description"@, JsonView::Text(d)),
                None => named,
            });
            assert(entry_views(e3) == entry_views(e2).insert(
                "inputSchema"@,
                self.input_schema@,
            ));
            assert(entries@ =~= e3 + more);
            lemma_entries_append(e3, more);
        }
        Json::Object(entries)
    }
}

/// Proxying a tool is lossless: every field of the object it was read from is
/// written again unchanged. A schema that was absent is filled in, and a
/// description that was `null` is left out.
pub proof fn lemma_tool_lossless(value: JsonView)
    requires
        decoded_tool(value) is Ok,
    ensures
        forall|key: Seq<char>| #[trigger]
            value.field(key) is Some && !(key == "description"@ && value.field(key) == Some(
                JsonView::Null,
            )) ==> decoded_tool(value)->Ok_0.encoded().field(key) == value.field(key),
        forall|key: Seq<char>| #[trigger]
            decoded_tool(value)->Ok_0.encoded().field(key) is Some ==> value.field(key) is Some
                || key == "inputSchema"@,
{
    lemma_tool_keys_differ();
}

/// A tool that was written and read again is the one it was.
pub proof fn lemma_tool_round_trip(tool: ToolView)
    requires
        forall|key: Seq<char>| is_tool_field(key) ==> !tool.extra.contains_key(key),
    ensures
        decoded_tool(tool.encoded()) == Ok::<ToolView, Seq<char>>(tool),
{
    lemma_tool_keys_differ();
    assert(is_tool_field("name"@) && is_tool_field("description"@) && is_tool_field(
        "inputSchema"@,
    ));
    let entries = tool.encoded()->Object_0;
    assert(extra_fields(entries) =~= tool.extra);
}

proof fn lemma_tool_keys_differ()
    ensures
        "name"@ != "description"@,
        "name"@ != "inputSchema"@,
        "description"@ != "inputSchema"@,
{
    reveal_strlit("name");
    reveal_strlit("description");
    reveal_strlit("inputSchema");
    assert("name"@[0] == 'n');
    assert("description"@[0] == 'd');
    assert("inputSchema"@[0] == 'i');
}

/// Content block of a tool result. Only the variants omni-mcp produces or
/// forwards are modelled explicitly; anything else round-trips as `Other`.
#[derive(Debug, PartialEq)]
pub enum Content {
    Text { text: String },
    Other(Json),
}

/// What a [`Content`] block says.
pub enum ContentView {
    Text { text: Seq<char> },
    Other(JsonView),
}

impl View for Content {
    type V = ContentView;

    open spec fn view(&self) -> ContentView {
        match self {
            Content::Text { text } => ContentView::Text { text: text@ },
            Content::Other(value) => ContentView::Other(value@),
        }
    }
}

/// The block that a JSON value writes: an object of type `text` that has a text,
/// or an array of the two, is a text block, anything else is kept as it is.
pub open spec fn decoded_content(value: JsonView) -> ContentView {
    match value {
        JsonView::Array(items) => if items.len() == 2 && items[0] == JsonView::Text("text"@)
            && items[1] is Text {
            ContentView::Text { text: items[1]->Text_0 }
        } else {
            ContentView::Other(value)
        },
        _ => match (value.text_field("type"@), value.text_field("text"@)) {
            (Some(kind), Some(text)) => if kind == "text"@ {
                ContentView::Text { text }
            } else {
                ContentView::Other(value)
            },
            _ => ContentView::Other(value),
        },
    }
}

impl ContentView {
    /// The JSON value that writes the block.
    pub open spec fn encoded(self) -> JsonView {
        match self {
            ContentView::Text { text } => JsonView::object().with(
                "type"@,
                JsonView::Text("text"@),
            ).with("text"@, JsonView::Text(text)),
            ContentView::Other(value) => value,
        }
    }
}

impl Content {
    /// A text block.
    pub fn text(text: String) -> (r: Content)
        ensures
            r@ == (ContentView::Text { text: text@ }),
    {
        Content::Text { text }
    }

    /// Reads a block out of a JSON value.
    pub fn from_json(value: &Json) -> (r: Content)
        ensures
            r@ == decoded_content(value@),
    {
        match value {
            Json::Array(items) => {
                proof {
                    lemma_item_views(items@);
                }
                if items.len() == 2 {
                    match (&items[0], &items[1]) {
                        (Json::Text(kind), Json::Text(text)) => {
                            if same(kind, "text") {
                                return Content::Text { text: text.clone() };
                            }
                        },
                        _ => {},
                    }
                }
                return Content::Other(value.dup());
            },
            _ => {},
        }
        match (value.get_text("type"), value.get_text("text")) {
            (Some(kind), Some(text)) => if same(kind, "text") {
                Content::Text { text: text.clone() }
            } else {
                Content::Other(value.dup())
            },
            _ => Content::Other(value.dup()),
        }
    }

    /// Writes the block as a JSON value.
    pub fn to_json(&self) -> (r: Json)
        ensures
            r@ == self@.encoded(),
    {
        match self {
            Content::Text { text } => Json::object().with("type", Json::string("text")).with(
                "text",
                Json::string(text),
            ),
            Content::Other(value) => value.dup(),
        }
    }
}

/// A block that is not a text block survives being read and written.
pub proof fn lemma_other_content_round_trip(value: JsonView)
    requires
        decoded_content(value) is Other,
    ensures
        decoded_content(value).encoded() == value,
{
}

/// A text block that was written and read again is the one it was.
pub proof fn lemma_text_content_round_trip(text: Seq<char>)
    ensures
        decoded_content((ContentView::Text { text }).encoded()) == (ContentView::Text { text }),
{
    reveal_strlit("type");
    reveal_strlit("text");
    assert("type"@[1] == 'y');
    assert("text"@[1] == 'e');
}

/// Result of `tools/call`.
///
/// Per the MCP spec a *tool* failure is a successful JSON-RPC response with
/// `isError: true` — it is a result the model should see and react to, not a
/// transport error. Only protocol-level faults become JSON-RPC errors.
#[derive(Debug, PartialEq)]
pub struct CallToolResult {
    pub content: Vec<Content>,
    pub is_error: Option<bool>,
    pub structured_content: Option<Json>,
}

/// What a [`CallToolResult`] says.
#[verifier::ext_equal]
pub struct CallToolResultView {
    pub content: Seq<ContentView>,
    pub is_error: Option<bool>,
    pub structured_content: Option<JsonView>,
}

impl View for CallToolResult {
    type V = CallToolResultView;

    open spec fn view(&self) -> CallToolResultView {
        CallToolResultView {
            content: views(self.content@),
            is_error: self.is_error,
            structured_content: opt_view(self.structured_content),
        }
    }
}

/// The fields of a result in their order.
pub open spec fn call_result_fields() -> Seq<Seq<char>> {
    seq!["content"@, "isError"@, "structuredContent"@]
}

/// The result that a JSON value writes, by the names of its fields or as an array of
/// them.
pub open spec fn decoded_call_result(value: JsonView) -> Result<CallToolResultView, Seq<char>> {
    match record(value, call_result_fields(), 1) {
        Ok(value) => named_call_result(value),
        Err(e) => Err(e),
    }
}

/// The result that an object writes.
pub open spec fn named_call_result(value: JsonView) -> Result<CallToolResultView, Seq<char>> {
    match value.field("content"@) {
        None => Err(missing_field("content"@)),
        Some(JsonView::Array(items)) => match optional_flag(value, "isError"@) {
            Err(e) => Err(e),
            Ok(is_error) => Ok(
                CallToolResultView {
                    content: items.map_values(|item: JsonView| decoded_content(item)),
                    is_error,
                    structured_content: optional_value(value, "structuredContent"@),
                },
            ),
        },
        Some(_) => Err(wrong_type("content"@, "an array"@)),
    }
}

impl CallToolResultView {
    /// One text block.
    pub open spec fn text(msg: Seq<char>) -> CallToolResultView {
        CallToolResultView {
            content: seq![ContentView::Text { text: msg }],
            is_error: None,
            structured_content: None,
        }
    }

    /// One text block that is a failure.
    pub open spec fn error(msg: Seq<char>) -> CallToolResultView {
        CallToolResultView { is_error: Some(true), ..CallToolResultView::text(msg) }
    }

    /// The pretty text of a value, and the value.
    pub open spec fn structured(value: JsonView) -> CallToolResultView {
        CallToolResultView {
            content: seq![ContentView::Text { text: pretty_json(value) }],
            is_error: None,
            structured_content: Some(value),
        }
    }

    /// Whether the result is a failure.
    pub open spec fn is_failure(self) -> bool {
        self.is_error == Some(true)
    }

    /// The JSON value that writes the result.
    pub open spec fn encoded(self) -> JsonView {
        let head = JsonView::object().with(
            "content"@,
            JsonView::Array(self.content.map_values(|block: ContentView| block.encoded())),
        );
        let flagged = match self.is_error {
            Some(b) => head.with("isError"@, JsonView::Bool(b)),
            None => head,
        };
        match self.structured_content {
            Some(value) => flagged.with("structuredContent"@, value),
            None => flagged,
        }
    }
}

impl CallToolResult {
    /// One text block.
    pub fn text(msg: String) -> (r: CallToolResult)
        ensures
            r@ == CallToolResultView::text(msg@),
    {
        let mut content: Vec<Content> = Vec::new();
        content.push(Content::text(msg));
        assert(views(content@) =~= seq![ContentView::Text { text: msg@ }]);
        CallToolResult { content, is_error: None, structured_content: None }
    }

    /// A structured result: pretty JSON for the model to read, plus the raw
    /// value in `structuredContent` for clients that can consume it.
    pub fn structured(value: Json) -> (r: CallToolResult)
        ensures
            r@ == CallToolResultView::structured(value@),
    {
        let rendered = value.pretty();
        let text = CallToolResult::text(rendered);
        CallToolResult {
            content: text.content,
            is_error: None,
            structured_content: Some(value),
        }
    }

    /// One text block that is a failure.
    pub fn error(msg: String) -> (r: CallToolResult)
        ensures
            r@ == CallToolResultView::error(msg@),
    {
        let text = CallToolResult::text(msg);
        CallToolResult { content: text.content, is_error: Some(true), structured_content: None }
    }

    /// Whether the result is a failure.
    pub fn is_failure(&self) -> (r: bool)
        ensures
            r == self@.is_failure(),
    {
        match self.is_error {
            Some(b) => b,
            None => false,
        }
    }

    /// Writes the result as a JSON value.
    pub fn into_value(self) -> (r: Json)
        ensures
            r@ == self@.encoded(),
    {
        let mut items: Vec<Json> = Vec::new();
        let mut i: usize = 0;
        while i < self.content.len()
            invariant
                0 <= i <= self.content@.len(),
                items@.len() == i,
                forall|k: int|
                    0 <= k < i ==> (#[trigger] items@[k])@ == self.content@[k]@.encoded(),
            decreases self.content@.len() - i,
        {
            items.push(self.content[i].to_json());
            i += 1;
        }
        proof {
            lemma_item_views(items@);
            let wanted = self@.content.map_values(|block: ContentView| block.encoded());
            assert forall|k: int| 0 <= k < items@.len() implies item_views(items@)[k]
                == wanted[k] by {
                assert(items@[k]@ == self.content@[k]@.encoded());
            }
            assert(item_views(items@) =~= wanted);
        }
        let head = Json::object().with("content", Json::Array(items));
        let flagged = match self.is_error {
            Some(b) => head.with("isError", Json::Bool(b)),
            None => head,
        };
        match self.structured_content {
            Some(value) => flagged.with("structuredContent", value),
            None => flagged,
        }
    }

    /// Reads a result out of a JSON value.
    pub fn from_json(value: &Json) -> (r: Result<CallToolResult, String>)
        ensures
            match r {
                Ok(result) => decoded_call_result(value@) == Ok::<CallToolResultView, Seq<char>>(
                    result@,
                ),
                Err(e) => decoded_call_result(value@) == Err::<CallToolResultView, Seq<char>>(e@),
            },
    {
        match value {
            Json::Array(items) => {
                let names: Vec<String> = vec![
                    "content".to_owned(),
                    "isError".to_owned(),
                    "structuredContent".to_owned(),
                ];
                assert(views(names@) =~= call_result_fields());
                match name_items(items, &names, 1) {
                    Ok(value) => CallToolResult::from_object(&value),
                    Err(e) => Err(e),
                }
            },
            _ => CallToolResult::from_object(value),
        }
    }

    /// Reads a result out of an object.
    fn from_object(value: &Json) -> (r: Result<CallToolResult, String>)
        ensures
            match r {
                Ok(result) => named_call_result(value@) == Ok::<CallToolResultView, Seq<char>>(
                    result@,
                ),
                Err(e) => named_call_result(value@) == Err::<CallToolResultView, Seq<char>>(e@),
            },
    {
        match value.get("content") {
            None => Err(say_missing("content")),
            Some(Json::Array(items)) => match read_optional_flag(value, "isError") {
                Err(e) => Err(e),
                Ok(is_error) => {
                    let mut content: Vec<Content> = Vec::new();
                    let mut i: usize = 0;
                    while i < items.len()
                        invariant
                            0 <= i <= items@.len(),
                            content@.len() == i,
                            forall|k: int|
                                0 <= k < i ==> (#[trigger] content@[k])@ == decoded_content(
                                    items@[k]@,
                                ),
                        decreases items@.len() - i,
                    {
                        content.push(Content::from_json(&items[i]));
                        i += 1;
                    }
                    proof {
                        lemma_item_views(items@);
                        let wanted = item_views(items@).map_values(
                            |item: JsonView| decoded_content(item),
                        );
                        assert forall|k: int| 0 <= k < content@.len() implies views(content@)[k]
                            == wanted[k] by {
                            assert(content@[k]@ == decoded_content(items@[k]@));
                        }
                        assert(views(content@) =~= wanted);
                    }
                    Ok(
                        CallToolResult {
                            content,
                            is_error,
                            structured_content: read_optional_value(value, "structuredContent"),
                        },
                    )
                },
            },
            Some(_) => Err(say_wrong_type("content", "an array")),
        }
    }
}

/// A result that was written and read again is the one it was.
pub proof fn lemma_call_result_round_trip(result: CallToolResultView)
    requires
        result.structured_content != Some(JsonView::Null),
        forall|k: int|
            0 <= k < result.content.len() ==> decoded_content(
                (#[trigger] result.content[k]).encoded(),
            ) == result.content[k],
    ensures
        decoded_call_result(result.encoded()) == Ok::<CallToolResultView, Seq<char>>(result),
{
    reveal_strlit("content");
    reveal_strlit("isError");
    reveal_strlit("structuredContent");
    assert("content"@[0] == 'c');
    assert("isError"@[0] == 'i');
    assert("structuredContent"@[0] == 's');
    let blocks = result.content.map_values(|block: ContentView| block.encoded());
    let read = blocks.map_values(|item: JsonView| decoded_content(item));
    assert forall|k: int| 0 <= k < read.len() implies read[k] == result.content[k] by {
        assert(blocks[k] == result.content[k].encoded());
    }
    assert(read =~= result.content);
}

/// A failure is flagged, a plain or structured result is not.
pub proof fn lemma_failure_is_flagged(msg: Seq<char>, value: JsonView)
    ensures
        CallToolResultView::error(msg).is_failure(),
        !CallToolResultView::text(msg).is_failure(),
        !CallToolResultView::structured(value).is_failure(),
{
}

/// Copies of a list of tools.
pub fn dup_tools(tools: &Vec<Tool>) -> (r: Vec<Tool>)
    ensures
        views(r@) == views(tools@),
{
    let mut out: Vec<Tool> = Vec::new();
    let mut i: usize = 0;
    while i < tools.len()
        invariant
            0 <= i <= tools@.len(),
            out@.len() == i,
            forall|k: int| 0 <= k < i ==> (#[trigger] out@[k])@ == tools@[k]@,
        decreases tools@.len() - i,
    {
        out.push(tools[i].dup());
        i += 1;
    }
    assert(views(out@) =~= views(tools@));
    out
}

/// What a tool says is what is sent of it: its name, its description where it has
/// one, its schema, and every further field as it came.
pub proof fn lemma_tool_is_sent_whole(tool: ToolView, key: Seq<char>)
    requires
        forall|key: Seq<char>| is_tool_field(key) ==> !tool.extra.contains_key(key),
    ensures
        tool.encoded() is Object,
        tool.encoded().field("name"@) == Some(JsonView::Text(tool.name)),
        tool.encoded().field("description"@) == match tool.description {
            Some(description) => Some(JsonView::Text(description)),
            None => None,
        },
        tool.encoded().field("inputSchema"@) == Some(tool.input_schema),
        tool.extra.contains_key(key) ==> tool.encoded().field(key) == Some(tool.extra[key]),
        !is_tool_field(key) && !tool.extra.contains_key(key) ==> tool.encoded().field(key) is None,
{
    reveal_strlit("name");
    reveal_strlit("description");
    reveal_strlit("inputSchema");
    assert("name"@.len() == 4);
    assert("description"@.len() == 11);
    assert("inputSchema"@.len() == 11);
    assert("description"@[0] == 'd');
    assert("inputSchema"@[0] == 'i');
    assert(is_tool_field("name"@) && is_tool_field("description"@) && is_tool_field(
        "inputSchema"@,
    ));
}

/// A tool is read from an object with a name; its description and its schema may be
/// missing, and what else is in the object is kept.
pub proof fn lemma_tool_is_read(value: JsonView, key: Seq<char>)
    ensures
        match decoded_tool(value) {
            Ok(tool) => {
                &&& value is Object
                &&& value.field("name"@) == Some(JsonView::Text(tool.name))
                &&& tool.description matches Some(text) ==> value.field("description"@) == Some(
                    JsonView::Text(text),
                )
                &&& tool.description is None ==> value.field("description"@) is None
                    || value.field("description"@) == Some(JsonView::Null)
                &&& value.field("inputSchema"@) matches Some(schema) ==> tool.input_schema == schema
                &&& value.field("inputSchema"@) is None ==> tool.input_schema.field("type"@) == Some(
                    JsonView::Text("object"@),
                ) && tool.input_schema.field("properties"@) == Some(JsonView::object())
                &&& tool.extra.contains_key(key) <==> value.field(key) is Some && !is_tool_field(
                    key,
                )
                &&& tool.extra.contains_key(key) ==> value.field(key) == Some(tool.extra[key])
            },
            Err(_) => {
                ||| !(value is Object)
                ||| !(value.field("name"@) matches Some(JsonView::Text(_)))
                ||| (value.field("description"@) matches Some(text) && !(text is Text)
                    && !(text is Null))
            },
        },
{
    reveal_strlit("type");
    reveal_strlit("properties");
    assert("type"@.len() == 4);
    assert("properties"@.len() == 10);
}

/// A result is sent with its blocks in order, a flag where one is set, and the
/// structured value where there is one; nothing else is sent.
pub proof fn lemma_result_is_sent_whole(result: CallToolResultView, key: Seq<char>)
    ensures
        result.encoded().field("content"@) matches Some(JsonView::Array(blocks)) && blocks.len()
            == result.content.len() && forall|k: int|
            0 <= k < blocks.len() ==> #[trigger] blocks[k] == result.content[k].encoded(),
        result.encoded().field("isError"@) == match result.is_error {
            Some(b) => Some(JsonView::Bool(b)),
            None => None,
        },
        result.encoded().field("structuredContent"@) == result.structured_content,
        key != "content"@ && key != "isError"@ && key != "structuredContent"@
            ==> result.encoded().field(key) is None,
{
    reveal_strlit("content");
    reveal_strlit("isError");
    reveal_strlit("structuredContent");
    assert("content"@.len() == 7);
    assert("isError"@.len() == 7);
    assert("structuredContent"@.len() == 17);
    assert("content"@[0] == 'c');
    assert("isError"@[0] == 'i');
}

/// A result is read from its blocks, in order; the flag and the structured value may
/// be missing.
pub proof fn lemma_result_is_read(value: JsonView)
    requires
        !(value is Array),
    ensures
        match decoded_call_result(value) {
            Ok(result) => {
                &&& value.field("content"@) matches Some(JsonView::Array(blocks)) && blocks.len()
                    == result.content.len() && forall|k: int|
                    0 <= k < blocks.len() ==> #[trigger] result.content[k] == decoded_content(
                        blocks[k],
                    )
                &&& match value.field("isError"@) {
                    Some(JsonView::Bool(b)) => result.is_error == Some(b),
                    Some(JsonView::Null) => result.is_error is None,
                    Some(_) => false,
                    None => result.is_error is None,
                }
                &&& match value.field("structuredContent"@) {
                    Some(JsonView::Null) => result.structured_content is None,
                    other => result.structured_content == other,
                }
            },
            Err(_) => {
                ||| !(value.field("content"@) matches Some(JsonView::Array(_)))
                ||| (value.field("isError"@) matches Some(flag) && !(flag is Bool)
                    && !(flag is Null))
            },
        },
{
}

/// A message is sent as one block of text that says just that, and a structured
/// value is sent as it is, beside a block of text that writes it out.
pub proof fn lemma_results_say_what_they_are_given(msg: Seq<char>, value: JsonView)
    ensures
        CallToolResultView::text(msg).content == seq![ContentView::Text { text: msg }],
        CallToolResultView::text(msg).structured_content is None,
        CallToolResultView::text(msg).is_error is None,
        CallToolResultView::error(msg).content == seq![ContentView::Text { text: msg }],
        CallToolResultView::error(msg).structured_content is None,
        CallToolResultView::error(msg).is_error == Some(true),
        CallToolResultView::structured(value).structured_content == Some(value),
        CallToolResultView::structured(value).content == seq![
            ContentView::Text { text: pretty_json(value) },
        ],
        CallToolResultView::structured(value).is_error is None,
{
}

/// A result may be written as the list of its fields, and is then read as if they were
/// named; what is not in the list is missing.
pub proof fn lemma_result_as_a_list(content: JsonView, flag: JsonView)
    ensures
        decoded_call_result(JsonView::Array(seq![content])) == decoded_call_result(
            JsonView::object().with("content"@, content),
        ),
        decoded_call_result(JsonView::Array(seq![content, flag])) == decoded_call_result(
            JsonView::object().with("content"@, content).with("isError"@, flag),
        ),
        decoded_call_result(JsonView::Array(seq![])) is Err,
{
    let two = seq![content, flag];
    let one = seq![content];
    let empty = Seq::<JsonView>::empty();
    let names = call_result_fields();
    assert(two.drop_last() =~= one);
    assert(one.drop_last() =~= empty);
    assert(named_items(empty, names) == JsonView::object());
    assert(named_items(one, names) == JsonView::object().with("content"@, content));
    assert(named_items(two, names) == named_items(one, names).with("isError"@, flag));
}

/// A block of text is read as its text, whichever way it is written, and any other
/// block is kept as it came.
pub proof fn lemma_blocks_are_read(text: Seq<char>, value: JsonView)
    ensures
        decoded_content(
            JsonView::Array(seq![JsonView::Text("text"@), JsonView::Text(text)]),
        ) == (ContentView::Text { text }),
        value.field("type"@) == Some(JsonView::Text("text"@)) && value.field("text"@) == Some(
            JsonView::Text(text),
        ) ==> decoded_content(value) == (ContentView::Text { text }),
        value is Object && value.field("type"@) != Some(JsonView::Text("text"@))
            ==> decoded_content(value) == ContentView::Other(value),
        value is Null || value is Bool || value is Number || value is Text ==> decoded_content(
            value,
        ) == ContentView::Other(value),
{
}

/// A result without its blocks is an error that names what is missing.
pub proof fn lemma_missing_blocks(value: JsonView)
    requires
        !(value is Array),
        !(value.field("content"@) matches Some(JsonView::Array(_))),
    ensures
        decoded_call_result(value) matches Err(message) && names_field(message, "content"@),
{
    reveal_strlit("missing field `");
    reveal_strlit("missing field ");
    reveal_strlit("field `");
    reveal_strlit("field ");
    reveal_strlit("`");
    reveal_strlit("` must be ");
    reveal_strlit(" must be ");
    let none = Seq::<char>::empty();
    assert("missing field "@ + "`"@ + "content"@ + "`"@ + none =~= missing_field("content"@));
    let tail = " must be "@ + "an array"@;
    assert("field "@ + "`"@ + "content"@ + "`"@ + tail =~= wrong_type("content"@, "an array"@));
}

} // verus!
