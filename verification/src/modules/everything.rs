//! File search through an Everything HTTP server.

use vstd::prelude::*;

use super::{module_result, say_unknown, show, shown, unknown_message};

use crate::json::{Json, JsonNumber, JsonView, parse_view, parsed_json};
use crate::protocol::mcp::{CallToolResult, CallToolResultView, Tool, ToolView};
use crate::text::{cat2, cat4, cat5, decimal, decimal_text, same, views};
use crate::tools::schema::{needs, object_schema, property, property_schema, schema1, takes};

verus! {

/// The module for searching files.
pub struct EverythingModule;

/// What the module advertises.
pub open spec fn everything_tools() -> Seq<ToolView> {
    seq![
        ToolView::new(
            "everything_search"@,
            "Fast file search using Voidtools Everything HTTP server"@,
            object_schema(
                JsonView::object().with(
                    "query"@,
                    property_schema("string"@, "Search query pattern"@),
                ).with(
                    "max_results"@,
                    property_schema("integer"@, "Maximum results to return (default: 50)"@),
                ).with(
                    "host"@,
                    property_schema("string"@, "Everything HTTP host (default: 127.0.0.1)"@),
                ).with(
                    "port"@,
                    property_schema("integer"@, "Everything HTTP port (default: 14680)"@),
                ),
                seq!["query"@],
            ),
        ),
    ]
}

/// Whether a byte stands for itself in a URL.
pub open spec fn is_unreserved(b: u8) -> bool {
    ||| 48 <= b <= 57
    ||| 65 <= b <= 90
    ||| 97 <= b <= 122
    ||| b == 45 || b == 46 || b == 95 || b == 126
}

/// A digit up to fifteen in upper case.
pub open spec fn upper_digit(d: int) -> char {
    if d < 10 {
        (48 + d) as char
    } else {
        (55 + d) as char
    }
}

/// Bytes as they are written in a URL: letters, digits and `-`, `.`, `_`, `~` as
/// they are, any other as a percent sign and two digits.
pub open spec fn percent_encoded(bytes: Seq<u8>) -> Seq<char>
    decreases bytes.len(),
{
    if bytes.len() == 0 {
        seq![]
    } else {
        let b = bytes.last();
        percent_encoded(bytes.drop_last()) + if is_unreserved(b) {
            seq![b as char]
        } else {
            seq!['%', upper_digit(b as int / 16), upper_digit(b as int % 16)]
        }
    }
}

/// `urlencoding::encode`: every byte of the text but letters, digits and `-`,
/// `.`, `_`, `~` as a percent sign and two uppercase hexadecimal digits.
#[verifier::external_body]
pub(crate) fn encode_url(text: &str) -> (r: String)
    ensures
        r@ == percent_encoded(vstd::utf8::encode_utf8(text@)),
{
    urlencoding::encode(text).into_owned()
}

/// The URL of a search.
pub open spec fn search_url(host: Seq<char>, port: u64, query: Seq<char>, count: u64) -> Seq<char> {
    "http://"@ + host + ":"@ + decimal(port as nat) + "/?search="@ + percent_encoded(
        vstd::utf8::encode_utf8(query),
    ) + "&json=1&count="@ + decimal(count as nat)
}

/// The URL that a call asks to be fetched.
pub open spec fn requested_url(name: Seq<char>, args: JsonView) -> Result<Seq<char>, Seq<char>> {
    if name != "everything_search"@ {
        Err(unknown_message(name))
    } else {
        match args.text_field("query"@) {
            None => Err("Missing query parameter"@),
            Some(query) => Ok(
                search_url(
                    match args.text_field("host"@) {
                        Some(host) => host,
                        None => "127.0.0.1"@,
                    },
                    match args.unsigned_field("port"@) {
                        Some(port) => port,
                        None => 14680,
                    },
                    query,
                    match args.unsigned_field("max_results"@) {
                        Some(count) => count,
                        None => 50,
                    },
                ),
            ),
        }
    }
}

/// What came of fetching the URL of a search.
pub enum SearchReply {
    /// The request failed.
    Unreachable(String),
    /// The server answered with a status that is no success.
    Status(String),
    /// The body of a success.
    Body(String),
}

/// What a [`SearchReply`] says.
pub enum SearchReplyView {
    Unreachable(Seq<char>),
    Status(Seq<char>),
    Body(Seq<char>),
}

impl View for SearchReply {
    type V = SearchReplyView;

    open spec fn view(&self) -> SearchReplyView {
        match self {
            SearchReply::Unreachable(reason) => SearchReplyView::Unreachable(reason@),
            SearchReply::Status(status) => SearchReplyView::Status(status@),
            SearchReply::Body(body) => SearchReplyView::Body(body@),
        }
    }
}

/// What a search is answered with.
pub open spec fn search_result(reply: SearchReplyView) -> Result<CallToolResultView, Seq<char>> {
    match reply {
        SearchReplyView::Unreachable(reason) => Err(
            "Everything API request failed: "@ + reason,
        ),
        SearchReplyView::Status(status) => Err("Everything HTTP returned status "@ + status),
        SearchReplyView::Body(body) => shown_results(parsed_json(body)),
    }
}

/// What a search is answered with, given what its body was read as.
pub open spec fn shown_results(parsed: Result<JsonView, Seq<char>>) -> Result<
    CallToolResultView,
    Seq<char>,
> {
    match parsed {
        Ok(value) => Ok(shown(value)),
        Err(message) => Err("Failed to parse Everything response: "@ + message),
    }
}

/// Answers a search with what its body was read as.
pub fn show_results(parsed: Result<Json, String>) -> (r: Result<CallToolResult, String>)
    ensures
        module_result(r) == shown_results(parse_view(parsed)),
{
    match parsed {
        Ok(value) => Ok(show(value)),
        Err(message) => Err(cat2("Failed to parse Everything response: ", &message)),
    }
}

impl EverythingModule {
    /// The module.
    pub fn new() -> (r: EverythingModule)
        ensures
            r == EverythingModule,
    {
        EverythingModule
    }

    /// Unique identifier of the module.
    pub fn name(&self) -> (r: &'static str)
        ensures
            r@ == "everything"@,
    {
        "everything"
    }

    /// What the module advertises.
    pub fn tools(&self) -> (r: Vec<Tool>)
        ensures
            views(r@) == everything_tools(),
    {
        let tools: Vec<Tool> = vec![
            Tool::new(
                "everything_search",
                "Fast file search using Voidtools Everything HTTP server",
                schema1(
                    Json::object().with("query", property("string", "Search query pattern")).with(
                        "max_results",
                        property("integer", "Maximum results to return (default: 50)"),
                    ).with(
                        "host",
                        property("string", "Everything HTTP host (default: 127.0.0.1)"),
                    ).with(
                        "port",
                        property("integer", "Everything HTTP port (default: 14680)"),
                    ),
                    "query",
                ),
            ),
        ];
        assert(views(tools@) =~= everything_tools());
        tools
    }

    /// Works out the URL that a call asks to be fetched.
    pub fn plan(&self, name: &str, args: &Json) -> (r: Result<String, String>)
        ensures
            module_result(r) == requested_url(name@, args@),
    {
        if !same(name, "everything_search") {
            return Err(say_unknown(name));
        }
        let query = match args.get_text("query") {
            Some(query) => query,
            None => return Err("Missing query parameter".to_owned()),
        };
        let host = match args.get_text("host") {
            Some(host) => host.clone(),
            None => "127.0.0.1".to_owned(),
        };
        let port: u64 = match args.get_unsigned("port") {
            Some(port) => port,
            None => 14680,
        };
        let count: u64 = match args.get_unsigned("max_results") {
            Some(count) => count,
            None => 50,
        };
        let base = cat5("http://", &host, ":", &decimal_text(port), "/?search=");
        Ok(
            cat4(&base, &encode_url(query), "&json=1&count=", &decimal_text(count)),
        )
    }

    /// Answers a search with what came of fetching its URL.
    pub fn finish(&self, reply: SearchReply) -> (r: Result<CallToolResult, String>)
        ensures
            module_result(r) == search_result(reply@),
    {
        match reply {
            SearchReply::Unreachable(reason) => Err(
                cat2("Everything API request failed: ", &reason),
            ),
            SearchReply::Status(status) => Err(cat2("Everything HTTP returned status ", &status)),
            SearchReply::Body(body) => show_results(Json::parse(&body)),
        }
    }
}

/// What an uppercase hexadecimal digit stands for.
pub open spec fn upper_number(c: char) -> int {
    if '0' <= c <= '9' {
        c as int - '0' as int
    } else {
        c as int - 'A' as int + 10
    }
}

/// Bytes are encoded one by one: letters, digits and the four marks that an address may
/// hold stay as they are, and every other byte is a percent sign and its two digits.
pub proof fn lemma_percent_encoding(a: Seq<u8>, b: Seq<u8>)
    ensures
        percent_encoded(a + b) == percent_encoded(a) + percent_encoded(b),
        b.len() == 0 ==> percent_encoded(b) == Seq::<char>::empty(),
        b.len() == 1 ==> {
            let text = percent_encoded(b);
            if is_unreserved(b[0]) {
                text == seq![b[0] as char]
            } else {
                &&& text.len() == 3
                &&& text[0] == '%'
                &&& 16 * upper_number(text[1]) + upper_number(text[2]) == b[0]
            }
        },
    decreases b.len(),
{
    let whole = a + b;
    if b.len() == 0 {
        assert(whole =~= a);
        assert(percent_encoded(a) + percent_encoded(b) =~= percent_encoded(a));
    } else {
        let front = b.drop_last();
        let last = b.last();
        lemma_percent_encoding(a, front);
        assert(whole.drop_last() =~= a + front);
        assert(whole.last() == last);
        let piece = if is_unreserved(last) {
            seq![last as char]
        } else {
            seq!['%', upper_digit(last as int / 16), upper_digit(last as int % 16)]
        };
        assert((percent_encoded(a) + percent_encoded(front)) + piece =~= percent_encoded(a) + (
        percent_encoded(front) + piece));
        if b.len() == 1 {
            assert(front =~= seq![]);
            assert(percent_encoded(front) =~= seq![]);
            assert(percent_encoded(b) =~= piece);
            assert(upper_number(upper_digit(last as int / 16)) == last as int / 16);
            assert(upper_number(upper_digit(last as int % 16)) == last as int % 16);
        }
    }
}

/// Nothing that has a meaning in an address is left in what is encoded.
pub proof fn lemma_encoded_text_is_plain(bytes: Seq<u8>, i: int)
    requires
        0 <= i < percent_encoded(bytes).len(),
    ensures
        ({
            let c = percent_encoded(bytes)[i];
            c != '&' && c != '=' && c != '?' && c != '#' && c != '/' && c != ' ' && c != '+'
        }),
    decreases bytes.len(),
{
    let front = bytes.drop_last();
    if i < percent_encoded(front).len() {
        lemma_encoded_text_is_plain(front, i);
        assert(percent_encoded(bytes)[i] == percent_encoded(front)[i]);
    }
}

/// A search asks the host and the port that are given, this machine's usual ones where
/// none are, for the query, and for no more results than are asked for, fifty where
/// that is not said. It needs a query.
pub proof fn lemma_search_address(args: JsonView)
    ensures
        match args.field("query"@) {
            Some(JsonView::Text(query)) => requested_url("everything_search"@, args) == Ok::<
                Seq<char>,
                Seq<char>,
            >(
                "http://"@ + match args.field("host"@) {
                    Some(JsonView::Text(host)) => host,
                    _ => "127.0.0.1"@,
                } + ":"@ + decimal(
                    match args.field("port"@) {
                        Some(JsonView::Number(JsonNumber::Unsigned(port))) => port as nat,
                        _ => 14680,
                    },
                ) + "/?search="@ + percent_encoded(vstd::utf8::encode_utf8(query))
                    + "&json=1&count="@ + decimal(
                    match args.field("max_results"@) {
                        Some(JsonView::Number(JsonNumber::Unsigned(count))) => count as nat,
                        _ => 50,
                    },
                ),
            ),
            _ => requested_url("everything_search"@, args) is Err,
        },
        forall|name: Seq<char>|
            name != "everything_search"@ ==> #[trigger] requested_url(name, args) is Err,
{
}

/// The answer is shown as it came; where none came, or it cannot be read, that is an
/// error.
pub proof fn lemma_search_replies(reply: SearchReplyView)
    ensures
        match reply {
            SearchReplyView::Body(body) => match parsed_json(body) {
                Ok(value) => search_result(reply) == Ok::<CallToolResultView, Seq<char>>(
                    shown(value),
                ),
                Err(_) => search_result(reply) is Err,
            },
            _ => search_result(reply) is Err,
        },
{
}

/// What the tool takes.
pub proof fn lemma_everything_schema()
    ensures
        everything_tools().len() == 1,
        everything_tools()[0].name == "everything_search"@,
        needs(everything_tools()[0].input_schema, seq!["query"@]),
        takes(everything_tools()[0].input_schema, "query"@, "string"@),
        takes(everything_tools()[0].input_schema, "max_results"@, "integer"@),
        takes(everything_tools()[0].input_schema, "host"@, "string"@),
        takes(everything_tools()[0].input_schema, "port"@, "integer"@),
{
    reveal_strlit("type");
    reveal_strlit("properties");
    reveal_strlit("required");
    reveal_strlit("description");
    reveal_strlit("query");
    reveal_strlit("max_results");
    reveal_strlit("host");
    reveal_strlit("port");
    assert("type"@.len() == 4);
    assert("properties"@.len() == 10);
    assert("required"@.len() == 8);
    assert("description"@.len() == 11);
    assert("query"@.len() == 5);
    assert("max_results"@.len() == 11);
    assert("host"@.len() == 4);
    assert("port"@.len() == 4);
    assert("type"@[0] == 't');
    assert("description"@[0] == 'd');
    assert("max_results"@[0] == 'm');
    assert("host"@[0] == 'h');
    assert("port"@[0] == 'p');
}

} // verus!
