//! Remote MCP servers reached over HTTP.

use vstd::prelude::*;

use super::headers::{
    header_contents, header_name, header_name_of, header_value, insert_header, is_header_value,
    no_entries, no_headers, HeaderEntry, Headers,
};
use super::{snippet, snippet_view, BackendStatus, BackendStatusView};
use crate::config::model::{token_of, usable_token, ProxyConfig, ProxyConfigView};
use crate::error::{tool_result, ToolError, ToolErrorView, ToolResult};
use crate::json::{
    item_views, json_number, lemma_item_views, parse_view, parsed_json, Json, JsonView,
};
use crate::protocol::jsonrpc::{decoded_response, Request, RequestView, Response, ResponseView};
use crate::protocol::mcp::{
    decoded_call_result, decoded_tool, CallToolResult, CallToolResultView, Tool, ToolView,
};
use crate::text::{
    cat2, cat3, cat4, contains, cut_prefix, debug, debug_text, lemma_contains, lines, opt_view,
    split_lines, trim, trimmed, views, without_prefix,
};

verus! {

/// The encodings that MCP's Streamable HTTP transport requires a client to
/// accept; servers reject the request outright otherwise.
pub const ACCEPTED: &'static str = "application/json, text/event-stream";

/// What is wrong with the headers of a proxy, or the headers it is sent with.
pub type HeaderOutcome = Result<Map<Seq<char>, HeaderEntry>, ToolErrorView>;

/// One configured header laid over what is there.
pub open spec fn with_header(
    proxy: Seq<char>,
    so_far: HeaderOutcome,
    header: (Seq<char>, Seq<char>),
) -> HeaderOutcome {
    match so_far {
        Err(err) => Err(err),
        Ok(headers) => match header_name_of(header.0) {
            None => Err(
                ToolErrorView::InvalidArguments(
                    "proxy "@ + debug_text(proxy) + " has an invalid header name "@ + debug_text(
                        header.0,
                    ),
                ),
            ),
            Some(name) => if is_header_value(header.1) {
                Ok(headers.insert(name, HeaderEntry { value: header.1, sensitive: false }))
            } else {
                Err(
                    ToolErrorView::InvalidArguments(
                        "proxy "@ + debug_text(proxy) + " has an invalid value for header "@
                            + debug_text(header.0),
                    ),
                )
            },
        },
    }
}

/// The configured headers laid over what is there, in order.
pub open spec fn with_headers(
    proxy: Seq<char>,
    start: HeaderOutcome,
    list: Seq<(Seq<char>, Seq<char>)>,
) -> HeaderOutcome
    decreases list.len(),
{
    if list.len() == 0 {
        start
    } else {
        with_header(proxy, with_headers(proxy, start, list.drop_last()), list.last())
    }
}

/// The headers that every request has: what is accepted, and the credential
/// where there is one, kept out of debug output.
pub open spec fn base_headers(config: ProxyConfigView) -> HeaderOutcome {
    let accepting = no_entries().insert(
        "accept"@,
        HeaderEntry { value: ACCEPTED@, sensitive: false },
    );
    match usable_token(config.bearer) {
        None => Ok(accepting),
        Some(token) => if is_header_value("Bearer "@ + token) {
            Ok(
                accepting.insert(
                    "authorization"@,
                    HeaderEntry { value: "Bearer "@ + token, sensitive: true },
                ),
            )
        } else {
            Err(
                ToolErrorView::InvalidArguments(
                    "proxy "@ + debug_text(config.name)
                        + " has a bearer token containing characters that are not valid in an HTTP header"@,
                ),
            )
        },
    }
}

/// The headers that requests to a proxy are sent with.
pub open spec fn proxy_headers(config: ProxyConfigView) -> HeaderOutcome {
    with_headers(config.name, base_headers(config), config.headers)
}

/// The error for more headers than a map can hold.
pub open spec fn too_many_headers(proxy: Seq<char>) -> ToolErrorView {
    ToolErrorView::InvalidArguments("proxy "@ + debug_text(proxy) + " has too many headers"@)
}

fn refuse_headers(name: &str) -> (r: ToolError)
    ensures
        r@ == too_many_headers(name@),
{
    ToolError::InvalidArguments(cat3("proxy ", &debug(name), " has too many headers"))
}

proof fn lemma_base_names()
    ensures
        header_name_of("accept"@) == Some("accept"@),
        header_name_of("authorization"@) == Some("authorization"@),
        is_header_value(ACCEPTED@),
{
    reveal_strlit("accept");
    reveal_strlit("authorization");
    reveal_strlit("application/json, text/event-stream");
    assert("accept"@.map_values(|c: char| crate::text::ascii_lower(c)) =~= "accept"@);
    assert("authorization"@.map_values(|c: char| crate::text::ascii_lower(c))
        =~= "authorization"@);
}

proof fn lemma_headers_error(
    proxy: Seq<char>,
    start: HeaderOutcome,
    list: Seq<(Seq<char>, Seq<char>)>,
    n: int,
)
    requires
        0 <= n <= list.len(),
        with_headers(proxy, start, list.take(n)) is Err,
    ensures
        with_headers(proxy, start, list) == with_headers(proxy, start, list.take(n)),
    decreases list.len() - n,
{
    if n < list.len() {
        assert(list.take(n + 1).drop_last() =~= list.take(n));
        lemma_headers_error(proxy, start, list, n + 1);
    } else {
        assert(list.take(n) =~= list);
    }
}

/// Builds the headers that requests to a proxy are sent with. Malformed header
/// names or values are reported rather than silently dropped.
pub fn build_headers(config: &ProxyConfig) -> (r: ToolResult<Headers>)
    ensures
        match r {
            Ok(map) => proxy_headers(config@) == Ok::<Map<Seq<char>, HeaderEntry>, ToolErrorView>(
                header_contents(map),
            ),
            Err(err) => proxy_headers(config@) == Err::<
                Map<Seq<char>, HeaderEntry>,
                ToolErrorView,
            >(err@) || (config@.headers.len() >= 6_550 && err@ == too_many_headers(config@.name)),
        },
{
    proof {
        lemma_base_names();
    }
    let mut map = no_headers();
    let inserted = insert_header(&mut map, "accept", ACCEPTED, false);
    match token_of(&config.bearer) {
        Some(token) => {
            let value = cat2("Bearer ", &token);
            if !header_value(&value) {
                proof {
                    assert(config@.headers.take(0) =~= seq![]);
                    lemma_headers_error(config@.name, base_headers(config@), config@.headers, 0);
                }
                return Err(
                    ToolError::InvalidArguments(
                        cat3(
                            "proxy ",
                            &debug(&config.name),
                            " has a bearer token containing characters that are not valid in an HTTP header",
                        ),
                    ),
                );
            }
            // Keeps the credential out of `{:?}` output and error messages.
            let inserted = insert_header(&mut map, "authorization", &value, true);
        },
        None => {},
    }
    let ghost start = base_headers(config@);
    let ghost list = config@.headers;
    let mut i: usize = 0;
    assert(list.take(0) =~= seq![]);
    while i < config.headers.len()
        invariant
            0 <= i <= config.headers@.len(),
            list == views(config.headers@),
            list == config@.headers,
            start == base_headers(config@),
            with_headers(config@.name, start, list.take(i as int)) == Ok::<
                Map<Seq<char>, HeaderEntry>,
                ToolErrorView,
            >(header_contents(map)),
            header_contents(map).dom().finite(),
            header_contents(map).dom().len() <= i + 2,
        decreases config.headers@.len() - i,
    {
        let key: &String = &config.headers[i].0;
        let raw: &String = &config.headers[i].1;
        proof {
            assert(list.take(i + 1).drop_last() =~= list.take(i as int));
            assert(list.take(i + 1).last() == (key@, raw@));
        }
        if header_name(key).is_none() {
            let err = ToolError::InvalidArguments(
                cat4("proxy ", &debug(&config.name), " has an invalid header name ", &debug(key)),
            );
            proof {
                lemma_headers_error(config@.name, start, list, i + 1);
            }
            return Err(err);
        }
        if !header_value(raw) {
            let err = ToolError::InvalidArguments(
                cat4(
                    "proxy ",
                    &debug(&config.name),
                    " has an invalid value for header ",
                    &debug(key),
                ),
            );
            proof {
                lemma_headers_error(config@.name, start, list, i + 1);
            }
            return Err(err);
        }
        let inserted = insert_header(&mut map, key, raw, false);
        if !inserted {
            return Err(refuse_headers(&config.name));
        }
        i += 1;
    }
    assert(list.take(i as int) =~= list);
    Ok(map)
}

/// What came of an HTTP request.
#[derive(Debug, PartialEq)]
pub enum HttpOutcome {
    /// No answer within the deadline.
    TimedOut,
    /// No connection.
    Unreachable,
    /// The request failed in another way.
    SendFailed(String),
    /// An answer with a status that is not a success.
    Refused { status: String, body: String },
    /// A success whose body could not be read.
    Unreadable(String),
    /// A success.
    Body(String),
}

/// The response in what was read as JSON, where it is one.
pub open spec fn response_in(parsed: Result<JsonView, Seq<char>>) -> Option<ResponseView> {
    match parsed {
        Ok(value) => match decoded_response(value) {
            Ok(response) => Some(response),
            Err(_) => None,
        },
        Err(_) => None,
    }
}

/// The response that a text writes as JSON.
pub open spec fn parsed_response(text: Seq<char>) -> Option<ResponseView> {
    response_in(parsed_json(text))
}

/// The data that a line of an event stream carries.
pub open spec fn frame_data(line: Seq<char>) -> Option<Seq<char>> {
    match without_prefix(line, "data:"@) {
        Some(payload) => Some(trimmed(payload)),
        None => None,
    }
}

/// The response that a line of an event stream carries.
pub open spec fn frame_response(line: Seq<char>) -> Option<ResponseView> {
    match frame_data(line) {
        Some(data) => parsed_response(data),
        None => None,
    }
}

/// The last response among the lines of an event stream.
pub open spec fn last_frame(list: Seq<Seq<char>>) -> Option<ResponseView>
    decreases list.len(),
{
    if list.len() == 0 {
        None
    } else {
        match frame_response(list.last()) {
            Some(response) => Some(response),
            None => last_frame(list.drop_last()),
        }
    }
}

/// The response in a body: the body itself, or else the last frame in it.
pub open spec fn body_response(body: Seq<char>) -> Option<ResponseView> {
    match parsed_response(body) {
        Some(response) => Some(response),
        None => last_frame(lines(body)),
    }
}

/// Takes the response out of what was read as JSON, where it is one.
pub fn accept_response(parsed: Result<Json, String>) -> (r: Option<Response>)
    ensures
        opt_view(r) == response_in(parse_view(parsed)),
{
    match parsed {
        Ok(value) => match Response::from_json(&value) {
            Ok(response) => Some(response),
            Err(_) => None,
        },
        Err(_) => None,
    }
}

/// The response that a text writes as JSON.
pub fn parse_response(text: &str) -> (r: Option<Response>)
    ensures
        opt_view(r) == parsed_response(text@),
{
    accept_response(Json::parse(text))
}

/// The data that a line of an event stream carries.
pub fn read_frame(line: &str) -> (r: Option<String>)
    ensures
        opt_view(r) == frame_data(line@),
{
    match cut_prefix(line, "data:") {
        Some(payload) => Some(trim(&payload)),
        None => None,
    }
}

/// Accepts either a bare JSON-RPC body or one wrapped in SSE `data:` frames.
pub fn parse_body(body: &str) -> (r: Option<Response>)
    ensures
        opt_view(r) == body_response(body@),
{
    match parse_response(body) {
        Some(response) => {
            return Some(response);
        },
        None => {},
    }
    let list = split_lines(body);
    let ghost all = lines(body@);
    let mut i: usize = list.len();
    assert(all.take(all.len() as int) =~= all);
    while i > 0
        invariant
            0 <= i <= list@.len(),
            views(list@) == all,
            all.len() == list@.len(),
            all == lines(body@),
            parsed_response(body@) is None,
            last_frame(all) == last_frame(all.take(i as int)),
        decreases i,
    {
        proof {
            assert(all.take(i as int).drop_last() =~= all.take(i - 1));
            assert(all.take(i as int).last() == views(list@)[i - 1]);
        }
        match read_frame(&list[i - 1]) {
            Some(data) => match parse_response(&data) {
                Some(response) => {
                    return Some(response);
                },
                None => {},
            },
            None => {},
        }
        i -= 1;
    }
    None
}

/// What the response in a body means for the caller.
pub open spec fn concluded(body: Seq<char>, response: Option<ResponseView>) -> Result<
    JsonView,
    ToolErrorView,
> {
    match response {
        None => Err(
            ToolErrorView::Failed(
                "proxy returned a body that is not JSON-RPC: "@ + snippet_view(body),
            ),
        ),
        Some(response) => match response.outcome() {
            Ok(value) => Ok(value),
            Err(err) => Err(ToolErrorView::Failed(err.message)),
        },
    }
}

/// Takes the result out of the response in a body.
pub fn conclude(body: &str, response: Option<Response>) -> (r: ToolResult<Json>)
    ensures
        tool_result(r) == concluded(body@, opt_view(response)),
{
    match response {
        None => Err(
            ToolError::Failed(
                cat2("proxy returned a body that is not JSON-RPC: ", &snippet(body)),
            ),
        ),
        Some(response) => match response.into_result() {
            Ok(value) => Ok(value),
            Err(err) => Err(ToolError::Failed(err.message)),
        },
    }
}

/// What a proxy's answer means for the caller.
pub open spec fn interpreted(name: Seq<char>, outcome: HttpOutcome) -> Result<
    JsonView,
    ToolErrorView,
> {
    match outcome {
        HttpOutcome::TimedOut => Err(
            ToolErrorView::Unavailable { backend: name, reason: "request timed out"@ },
        ),
        HttpOutcome::Unreachable => Err(
            ToolErrorView::Unavailable {
                backend: name,
                reason: "connection refused or host unreachable"@,
            },
        ),
        HttpOutcome::SendFailed(reason) => Err(
            ToolErrorView::Unavailable { backend: name, reason: reason@ },
        ),
        HttpOutcome::Refused { status, body } => Err(
            ToolErrorView::Unavailable {
                backend: name,
                reason: "HTTP "@ + status@ + ": "@ + snippet_view(body@),
            },
        ),
        HttpOutcome::Unreadable(reason) => Err(
            ToolErrorView::Failed("could not read proxy body: "@ + reason@),
        ),
        HttpOutcome::Body(body) => concluded(body@, body_response(body@)),
    }
}

/// The tools of a list, read one by one.
pub open spec fn decoded_tools(items: Seq<JsonView>) -> Result<Seq<ToolView>, Seq<char>>
    decreases items.len(),
{
    if items.len() == 0 {
        Ok(seq![])
    } else {
        match decoded_tools(items.drop_last()) {
            Err(e) => Err(e),
            Ok(done) => match decoded_tool(items.last()) {
                Err(e) => Err(e),
                Ok(tool) => Ok(done.push(tool)),
            },
        }
    }
}

/// The tools that a JSON array lists.
pub open spec fn tool_list(value: JsonView) -> Result<Seq<ToolView>, Seq<char>> {
    match value {
        JsonView::Array(items) => decoded_tools(items),
        _ => Err("expected an array of tools"@),
    }
}

/// The tools in the answer to `tools/list`; an answer without any counts as an
/// empty list. `who` names the sender in the error.
pub open spec fn listed_tools(who: Seq<char>, value: JsonView) -> Result<
    Seq<ToolView>,
    ToolErrorView,
> {
    let tools = match value.field("tools"@) {
        None => Ok::<Seq<ToolView>, Seq<char>>(seq![]),
        Some(list) => tool_list(list),
    };
    match tools {
        Ok(tools) => Ok(tools),
        Err(e) => Err(ToolErrorView::Failed(who + " sent a malformed tool list: "@ + e)),
    }
}

proof fn lemma_tools_error(items: Seq<JsonView>, n: int)
    requires
        0 <= n <= items.len(),
        decoded_tools(items.take(n)) is Err,
    ensures
        decoded_tools(items) == decoded_tools(items.take(n)),
    decreases items.len() - n,
{
    if n < items.len() {
        assert(items.take(n + 1).drop_last() =~= items.take(n));
        lemma_tools_error(items, n + 1);
    } else {
        assert(items.take(n) =~= items);
    }
}

/// Reads the tools that a JSON array lists.
pub fn read_tool_list(value: &Json) -> (r: Result<Vec<Tool>, String>)
    ensures
        match r {
            Ok(tools) => tool_list(value@) == Ok::<Seq<ToolView>, Seq<char>>(views(tools@)),
            Err(message) => tool_list(value@) == Err::<Seq<ToolView>, Seq<char>>(message@),
        },
{
    match value {
        Json::Array(items) => {
            let mut out: Vec<Tool> = Vec::new();
            let ghost all = item_views(items@);
            let mut i: usize = 0;
            proof {
                lemma_item_views(items@);
                assert(views(out@) =~= seq![]);
                assert(all.take(0) =~= seq![]);
            }
            while i < items.len()
                invariant
                    0 <= i <= items@.len(),
                    value@ == JsonView::Array(all),
                    all == item_views(items@),
                    all.len() == items@.len(),
                    forall|k: int| 0 <= k < items@.len() ==> #[trigger] all[k] == items@[k]@,
                    decoded_tools(all.take(i as int)) == Ok::<Seq<ToolView>, Seq<char>>(
                        views(out@),
                    ),
                decreases items@.len() - i,
            {
                let ghost before = out@;
                assert(all.take(i + 1).drop_last() =~= all.take(i as int));
                assert(all.take(i + 1).last() == items@[i as int]@);
                match Tool::from_json(&items[i]) {
                    Ok(tool) => {
                        out.push(tool);
                        assert(views(out@) =~= views(before).push(tool@));
                    },
                    Err(e) => {
                        proof {
                            lemma_tools_error(all, i + 1);
                        }
                        return Err(e);
                    },
                }
                i += 1;
            }
            assert(all.take(i as int) =~= all);
            Ok(out)
        },
        _ => Err("expected an array of tools".to_owned()),
    }
}

/// Reads the tools out of the answer to `tools/list`.
pub fn read_tools(who: &str, value: &Json) -> (r: ToolResult<Vec<Tool>>)
    ensures
        match r {
            Ok(tools) => listed_tools(who@, value@) == Ok::<Seq<ToolView>, ToolErrorView>(
                views(tools@),
            ),
            Err(err) => listed_tools(who@, value@) == Err::<Seq<ToolView>, ToolErrorView>(err@),
        },
{
    match value.get("tools") {
        None => {
            let none: Vec<Tool> = Vec::new();
            assert(views(none@) =~= seq![]);
            Ok(none)
        },
        Some(list) => match read_tool_list(list) {
            Ok(tools) => Ok(tools),
            Err(e) => Err(ToolError::Failed(cat3(who, " sent a malformed tool list: ", &e))),
        },
    }
}

/// The result in the answer to `tools/call`. `who` names the sender in the
/// error.
pub open spec fn called_result(who: Seq<char>, value: JsonView) -> Result<
    CallToolResultView,
    ToolErrorView,
> {
    match decoded_call_result(value) {
        Ok(result) => Ok(result),
        Err(e) => Err(ToolErrorView::Failed(who + " sent a malformed tool result: "@ + e)),
    }
}

/// Reads the result out of the answer to `tools/call`.
pub fn read_call_result(who: &str, value: &Json) -> (r: ToolResult<CallToolResult>)
    ensures
        tool_result(r) == called_result(who@, value@),
{
    match CallToolResult::from_json(value) {
        Ok(result) => Ok(result),
        Err(e) => Err(ToolError::Failed(cat3(who, " sent a malformed tool result: ", &e))),
    }
}

/// The parameters of `tools/call`.
pub open spec fn call_params(tool: Seq<char>, arguments: JsonView) -> JsonView {
    JsonView::object().with("name"@, JsonView::Text(tool)).with("arguments"@, arguments)
}

/// The parameters of `tools/call`.
pub fn make_call_params(tool: &str, arguments: Json) -> (r: Json)
    ensures
        r@ == call_params(tool@, arguments@),
{
    Json::object().with("name", Json::string(tool)).with("arguments", arguments)
}

/// A remote MCP server, and what is known of it.
pub struct ProxyBackend {
    pub config: ProxyConfig,
    pub headers: Headers,
    /// Why the last request failed, if it did.
    pub last_error: Option<String>,
    /// Whether a request was ever sent.
    pub contacted: bool,
    /// The id of the next request.
    pub next_id: u64,
}

impl ProxyBackend {
    /// Builds a proxy client. Malformed header names or values are reported
    /// rather than silently dropped.
    pub fn new(config: ProxyConfig) -> (r: Result<ProxyBackend, ToolError>)
        ensures
            match r {
                Ok(proxy) => {
                    &&& proxy.config == config
                    &&& proxy_headers(config@) == Ok::<
                        Map<Seq<char>, HeaderEntry>,
                        ToolErrorView,
                    >(header_contents(proxy.headers))
                    &&& proxy.last_error is None
                    &&& !proxy.contacted
                    &&& proxy.next_id == 1
                },
                Err(err) => proxy_headers(config@) == Err::<
                    Map<Seq<char>, HeaderEntry>,
                    ToolErrorView,
                >(err@) || (config@.headers.len() >= 6_550 && err@ == too_many_headers(
                    config@.name,
                )),
            },
    {
        match build_headers(&config) {
            Ok(headers) => Ok(
                ProxyBackend { config, headers, last_error: None, contacted: false, next_id: 1 },
            ),
            Err(err) => Err(err),
        }
    }

    /// The next request, under an id of its own.
    pub fn request(&mut self, method: &str, params: Option<Json>) -> (r: Request)
        ensures
            r@ == (RequestView {
                jsonrpc: Some("2.0"@),
                id: Some(json_number(old(self).next_id)),
                method: method@,
                params: opt_view(params),
            }),
            *final(self) == (ProxyBackend {
                next_id: if old(self).next_id == u64::MAX {
                    0
                } else {
                    (old(self).next_id + 1) as u64
                },
                ..*old(self)
            }),
    {
        let id: u64 = self.next_id;
        self.next_id = if id == u64::MAX {
            0
        } else {
            id + 1
        };
        Request {
            jsonrpc: Some("2.0".to_owned()),
            id: Some(Json::number(id)),
            method: method.to_owned(),
            params,
        }
    }

    /// What an answer means for the caller.
    pub fn interpret(&self, outcome: HttpOutcome) -> (r: ToolResult<Json>)
        ensures
            tool_result(r) == interpreted(self.config.name@, outcome),
    {
        let name: &String = &self.config.name;
        match outcome {
            HttpOutcome::TimedOut => Err(
                ToolError::Unavailable {
                    backend: name.clone(),
                    reason: "request timed out".to_owned(),
                },
            ),
            HttpOutcome::Unreachable => Err(
                ToolError::Unavailable {
                    backend: name.clone(),
                    reason: "connection refused or host unreachable".to_owned(),
                },
            ),
            HttpOutcome::SendFailed(reason) => Err(
                ToolError::Unavailable { backend: name.clone(), reason },
            ),
            HttpOutcome::Refused { status, body } => Err(
                ToolError::Unavailable {
                    backend: name.clone(),
                    reason: cat4("HTTP ", &status, ": ", &snippet(&body)),
                },
            ),
            HttpOutcome::Unreadable(reason) => Err(
                ToolError::Failed(cat2("could not read proxy body: ", &reason)),
            ),
            HttpOutcome::Body(body) => conclude(&body, parse_body(&body)),
        }
    }

    /// Remembers how a request went.
    pub fn record(&mut self, result: &ToolResult<Json>)
        ensures
            final(self).contacted,
            opt_view(final(self).last_error) == match *result {
                Ok(_) => None,
                Err(err) => Some(err@.message()),
            },
            final(self).config == old(self).config,
            final(self).headers == old(self).headers,
            final(self).next_id == old(self).next_id,
    {
        self.contacted = true;
        self.last_error = match result {
            Ok(_) => None,
            Err(err) => Some(err.message()),
        };
    }

    /// How the proxy is doing, as far as is known without asking it.
    pub fn status(&self) -> (r: BackendStatus)
        ensures
            r@ == match opt_view(self.last_error) {
                Some(err) => BackendStatusView::Failed(err),
                None => if self.contacted {
                    BackendStatusView::Ready
                } else {
                    BackendStatusView::Idle
                },
            },
    {
        match &self.last_error {
            Some(err) => BackendStatus::Failed(err.clone()),
            None => if self.contacted {
                BackendStatus::Ready
            } else {
                BackendStatus::Idle
            },
        }
    }
}

/// Whatever comes back, a proxy that cannot be reached is an error of that
/// backend, never a result.
pub proof fn lemma_unreachable_is_unavailable(name: Seq<char>, outcome: HttpOutcome)
    requires
        outcome is TimedOut || outcome is Unreachable || outcome is SendFailed || outcome is Refused,
    ensures
        interpreted(name, outcome) matches Err(ToolErrorView::Unavailable { backend, .. })
            && backend == name,
{
}

/// A bare JSON-RPC body is taken as it is, whatever lines it has.
pub proof fn lemma_bare_body_wins(body: Seq<char>)
    requires
        parsed_response(body) is Some,
    ensures
        body_response(body) == parsed_response(body),
{
}

/// The last frame of an event stream wins over all before it.
pub proof fn lemma_last_frame_wins(list: Seq<Seq<char>>, line: Seq<char>)
    requires
        frame_response(line) is Some,
    ensures
        last_frame(list.push(line)) == frame_response(line),
{
    assert(list.push(line).last() == line);
}

/// A configured header of the same name overrides a default one, however it
/// is capitalised.
pub proof fn lemma_configured_header_wins(
    config: ProxyConfigView,
    list: Seq<(Seq<char>, Seq<char>)>,
    header: (Seq<char>, Seq<char>),
)
    requires
        config.headers == list.push(header),
        proxy_headers(config) is Ok,
    ensures
        proxy_headers(config)->Ok_0.contains_key(header_name_of(header.0)->0),
        proxy_headers(config)->Ok_0[header_name_of(header.0)->0].value == header.1,
{
    assert(config.headers.drop_last() =~= list);
    assert(config.headers.last() == header);
}

/// Whether a list of headers names one.
pub open spec fn names_header(list: Seq<(Seq<char>, Seq<char>)>, key: Seq<char>) -> bool {
    exists|i: int| 0 <= i < list.len() && header_name_of((#[trigger] list[i]).0) == Some(key)
}

/// Whether a value is the last that a list of headers gives for a name.
pub open spec fn gives_last(
    list: Seq<(Seq<char>, Seq<char>)>,
    key: Seq<char>,
    value: Seq<char>,
) -> bool {
    exists|i: int|
        0 <= i < list.len() && header_name_of((#[trigger] list[i]).0) == Some(key) && list[i].1
            == value && forall|j: int|
            i < j < list.len() ==> header_name_of((#[trigger] list[j]).0) != Some(key)
}

/// Whether every header of a list can be sent.
pub open spec fn can_be_sent(list: Seq<(Seq<char>, Seq<char>)>) -> bool {
    forall|i: int|
        0 <= i < list.len() ==> header_name_of((#[trigger] list[i]).0) is Some && is_header_value(
            list[i].1,
        )
}

/// Whether the headers are those of the start, with the list on top.
spec fn overlays(
    headers: Map<Seq<char>, HeaderEntry>,
    start: Map<Seq<char>, HeaderEntry>,
    list: Seq<(Seq<char>, Seq<char>)>,
    key: Seq<char>,
) -> bool {
    if names_header(list, key) {
        headers.contains_key(key) && !headers[key].sensitive && gives_last(
            list,
            key,
            headers[key].value,
        )
    } else {
        &&& headers.contains_key(key) <==> start.contains_key(key)
        &&& start.contains_key(key) ==> headers[key] == start[key]
    }
}

proof fn lemma_headers_overlay(
    proxy: Seq<char>,
    start: Map<Seq<char>, HeaderEntry>,
    list: Seq<(Seq<char>, Seq<char>)>,
)
    ensures
        match with_headers(proxy, Ok(start), list) {
            Ok(headers) => can_be_sent(list) && forall|key: Seq<char>| #[trigger]
                overlays(headers, start, list, key),
            Err(err) => !can_be_sent(list) && err is InvalidArguments,
        },
    decreases list.len(),
{
    if list.len() > 0 {
        let front = list.drop_last();
        let last = list.last();
        let end = list.len() - 1;
        lemma_headers_overlay(proxy, start, front);
        match with_headers(proxy, Ok(start), front) {
            Err(_) => {
                let i = choose|i: int|
                    0 <= i < front.len() && !(header_name_of((#[trigger] front[i]).0) is Some
                        && is_header_value(front[i].1));
                assert(list[i] == front[i]);
            },
            Ok(before) => {
                match with_headers(proxy, Ok(start), list) {
                    Err(_) => {
                        assert(list[end] == last);
                    },
                    Ok(headers) => {
                        let name = header_name_of(last.0)->0;
                        assert forall|i: int| 0 <= i < list.len() implies header_name_of(
                            (#[trigger] list[i]).0,
                        ) is Some && is_header_value(list[i].1) by {
                            if i < end {
                                assert(front[i] == list[i]);
                            }
                        }
                        assert forall|key: Seq<char>| #[trigger]
                            overlays(headers, start, list, key) by {
                            assert(overlays(before, start, front, key));
                            assert(list[end] == last);
                            if key == name {
                                assert(header_name_of(list[end].0) == Some(key));
                                assert(gives_last(list, key, last.1));
                            } else if names_header(front, key) {
                                let i = choose|i: int|
                                    0 <= i < front.len() && header_name_of((#[trigger] front[i]).0)
                                        == Some(key) && front[i].1 == before[key].value
                                        && forall|j: int|
                                        i < j < front.len() ==> header_name_of(
                                            (#[trigger] front[j]).0,
                                        ) != Some(key);
                                assert(list[i] == front[i]);
                                assert forall|j: int| i < j < list.len() implies header_name_of(
                                    (#[trigger] list[j]).0,
                                ) != Some(key) by {
                                    if j < end {
                                        assert(front[j] == list[j]);
                                    }
                                }
                                assert(names_header(list, key));
                                assert(gives_last(list, key, headers[key].value));
                            } else {
                                if names_header(list, key) {
                                    let i = choose|i: int|
                                        0 <= i < list.len() && header_name_of((#[trigger] list[i]).0)
                                            == Some(key);
                                    assert(i < end);
                                    assert(front[i] == list[i]);
                                }
                            }
                        }
                    },
                }
            },
        }
    }
}

proof fn lemma_headers_stay_refused(
    proxy: Seq<char>,
    err: ToolErrorView,
    list: Seq<(Seq<char>, Seq<char>)>,
)
    ensures
        with_headers(proxy, Err(err), list) == Err::<Map<Seq<char>, HeaderEntry>, ToolErrorView>(
            err,
        ),
    decreases list.len(),
{
    if list.len() > 0 {
        lemma_headers_stay_refused(proxy, err, list.drop_last());
    }
}

/// A request carries every header of the configuration, of those with one name the
/// last; it says what it accepts and carries the token, marked as a secret, unless the
/// configuration has a header of that name; and it carries no other. It is refused
/// exactly where a header or the token cannot be sent.
pub proof fn lemma_headers_are_sent(config: ProxyConfigView)
    ensures
        match proxy_headers(config) {
            Ok(headers) => {
                &&& can_be_sent(config.headers)
                &&& forall|key: Seq<char>|
                    names_header(config.headers, key) ==> #[trigger] headers.contains_key(key)
                        && gives_last(config.headers, key, headers[key].value)
                &&& !names_header(config.headers, "accept"@) ==> headers.contains_key("accept"@)
                    && headers["accept"@].value == "application/json, text/event-stream"@
                &&& !names_header(config.headers, "authorization"@) ==> match usable_token(
                    config.bearer,
                ) {
                    Some(token) => headers.contains_key("authorization"@)
                        && headers["authorization"@].value == "Bearer "@ + token
                        && headers["authorization"@].sensitive,
                    None => !headers.contains_key("authorization"@),
                }
                &&& forall|key: Seq<char>| #[trigger]
                    headers.contains_key(key) ==> names_header(config.headers, key) || key
                        == "accept"@ || key == "authorization"@
            },
            Err(err) => {
                &&& err is InvalidArguments
                &&& {
                    ||| !can_be_sent(config.headers)
                    ||| (usable_token(config.bearer) matches Some(token) && !is_header_value(
                        "Bearer "@ + token,
                    ))
                }
            },
        },
        usable_token(config.bearer) matches Some(token) ==> (!is_header_value("Bearer "@ + token)
            ==> proxy_headers(config) is Err),
{
    reveal_strlit("accept");
    reveal_strlit("authorization");
    assert("accept"@.len() == 6 && "authorization"@.len() == 13);
    match base_headers(config) {
        Ok(start) => {
            lemma_headers_overlay(config.name, start, config.headers);
            match proxy_headers(config) {
                Ok(headers) => {
                    assert(overlays(headers, start, config.headers, "accept"@));
                    assert(overlays(headers, start, config.headers, "authorization"@));
                    assert forall|key: Seq<char>| names_header(config.headers, key) implies
                        #[trigger] headers.contains_key(key) && gives_last(
                        config.headers,
                        key,
                        headers[key].value,
                    ) by {
                        assert(overlays(headers, start, config.headers, key));
                    }
                    assert forall|key: Seq<char>| #[trigger]
                        headers.contains_key(key) implies names_header(config.headers, key) || key
                        == "accept"@ || key == "authorization"@ by {
                        assert(overlays(headers, start, config.headers, key));
                    }
                },
                Err(_) => {},
            }
        },
        Err(err) => lemma_headers_stay_refused(config.name, err, config.headers),
    }
}

/// What a frame carries stands behind its mark, without the blanks around it; a line
/// without the mark carries nothing.
pub proof fn lemma_frames(payload: Seq<char>, line: Seq<char>)
    ensures
        frame_data("data:"@ + payload) == Some(trimmed(payload)),
        frame_data(line) is Some <==> exists|rest: Seq<char>|
            line == #[trigger] ("data:"@ + rest),
{
    let mark = "data:"@;
    let whole = mark + payload;
    assert(whole.subrange(0, mark.len() as int) =~= mark);
    assert(whole.subrange(mark.len() as int, whole.len() as int) =~= payload);
    if frame_data(line) is Some {
        let rest = line.subrange(mark.len() as int, line.len() as int);
        assert(line =~= mark + rest);
    }
    if exists|rest: Seq<char>| line == #[trigger] ("data:"@ + rest) {
        let rest = choose|rest: Seq<char>| line == #[trigger] ("data:"@ + rest);
        assert(line.subrange(0, mark.len() as int) =~= mark);
    }
}

/// Of several frames the last that holds a response counts, wherever it stands; there
/// is none exactly where no frame holds one.
pub proof fn lemma_the_last_response_counts(list: Seq<Seq<char>>)
    ensures
        match last_frame(list) {
            Some(response) => exists|i: int|
                0 <= i < list.len() && frame_response(#[trigger] list[i]) == Some(response)
                    && forall|j: int|
                    i < j < list.len() ==> frame_response(#[trigger] list[j]) is None,
            None => forall|i: int|
                0 <= i < list.len() ==> frame_response(#[trigger] list[i]) is None,
        },
    decreases list.len(),
{
    if list.len() > 0 {
        let front = list.drop_last();
        let end = list.len() - 1;
        assert(list[end] == list.last());
        if frame_response(list.last()) is None {
            lemma_the_last_response_counts(front);
            match last_frame(front) {
                Some(response) => {
                    let i = choose|i: int|
                        0 <= i < front.len() && frame_response(#[trigger] front[i]) == Some(response)
                            && forall|j: int|
                            i < j < front.len() ==> frame_response(#[trigger] front[j]) is None;
                    assert(list[i] == front[i]);
                    assert forall|j: int| i < j < list.len() implies frame_response(
                        #[trigger] list[j],
                    ) is None by {
                        if j < end {
                            assert(front[j] == list[j]);
                        }
                    }
                },
                None => {
                    assert forall|i: int| 0 <= i < list.len() implies frame_response(
                        #[trigger] list[i],
                    ) is None by {
                        if i < end {
                            assert(front[i] == list[i]);
                        }
                    }
                },
            }
        }
    }
}

/// What a proxy answers is what its response says: the result where there is one and
/// no error, and else a failure with the message of the error. A body without a
/// response is a failure.
pub proof fn lemma_answers_are_passed_on(name: Seq<char>, body: String)
    ensures
        match body_response(body@) {
            Some(response) => match (response.result, response.error) {
                (Some(value), None) => interpreted(name, HttpOutcome::Body(body)) == Ok::<
                    JsonView,
                    ToolErrorView,
                >(value),
                (_, Some(err)) => interpreted(name, HttpOutcome::Body(body)) == Err::<
                    JsonView,
                    ToolErrorView,
                >(ToolErrorView::Failed(err.message)),
                (None, None) => interpreted(name, HttpOutcome::Body(body)) matches Err(err)
                    && err is Failed,
            },
            None => interpreted(name, HttpOutcome::Body(body)) matches Err(err) && err is Failed,
        },
{
}

/// The tools of a backend are read in order, each on its own, and only where all of
/// them can be read; an answer without a list has none.
pub proof fn lemma_tools_are_read(who: Seq<char>, value: JsonView)
    ensures
        value.field("tools"@) is None ==> listed_tools(who, value) == Ok::<
            Seq<ToolView>,
            ToolErrorView,
        >(seq![]),
        value.field("tools"@) matches Some(JsonView::Array(items)) ==> match listed_tools(
            who,
            value,
        ) {
            Ok(tools) => tools.len() == items.len() && forall|k: int|
                0 <= k < items.len() ==> decoded_tool(#[trigger] items[k]) == Ok::<
                    ToolView,
                    Seq<char>,
                >(tools[k]),
            Err(err) => err is Failed && exists|k: int|
                0 <= k < items.len() && decoded_tool(#[trigger] items[k]) is Err,
        },
        value.field("tools"@) matches Some(other) ==> (!(other is Array) ==> (listed_tools(
            who,
            value,
        ) matches Err(err) && err is Failed)),
{
    match value.field("tools"@) {
        Some(JsonView::Array(items)) => lemma_tools_one_by_one(items),
        _ => {},
    }
}

proof fn lemma_tools_one_by_one(items: Seq<JsonView>)
    ensures
        match decoded_tools(items) {
            Ok(tools) => tools.len() == items.len() && forall|k: int|
                0 <= k < items.len() ==> decoded_tool(#[trigger] items[k]) == Ok::<
                    ToolView,
                    Seq<char>,
                >(tools[k]),
            Err(_) => exists|k: int|
                0 <= k < items.len() && decoded_tool(#[trigger] items[k]) is Err,
        },
    decreases items.len(),
{
    if items.len() > 0 {
        let front = items.drop_last();
        let end = items.len() - 1;
        assert(items[end] == items.last());
        lemma_tools_one_by_one(front);
        match decoded_tools(front) {
            Ok(done) => {
                if decoded_tool(items.last()) is Ok {
                    let tools = decoded_tools(items)->Ok_0;
                    assert forall|k: int| 0 <= k < items.len() implies decoded_tool(
                        #[trigger] items[k],
                    ) == Ok::<ToolView, Seq<char>>(tools[k]) by {
                        if k < end {
                            assert(front[k] == items[k]);
                        }
                    }
                }
            },
            Err(_) => {
                let k = choose|k: int|
                    0 <= k < front.len() && decoded_tool(#[trigger] front[k]) is Err;
                assert(items[k] == front[k]);
            },
        }
    }
}

/// A call is sent with the name of the tool and its arguments as they are.
pub proof fn lemma_call_is_sent_whole(tool: Seq<char>, arguments: JsonView, key: Seq<char>)
    ensures
        call_params(tool, arguments).field("name"@) == Some(JsonView::Text(tool)),
        call_params(tool, arguments).field("arguments"@) == Some(arguments),
        key != "name"@ && key != "arguments"@ ==> call_params(tool, arguments).field(key) is None,
{
    reveal_strlit("name");
    reveal_strlit("arguments");
    assert("name"@.len() == 4);
    assert("arguments"@.len() == 9);
}

/// What a proxy could not do is told: how it refused and what it said, why nothing was
/// sent or read, or what came instead of an answer.
pub proof fn lemma_failures_are_told(name: Seq<char>, outcome: HttpOutcome)
    ensures
        match outcome {
            HttpOutcome::SendFailed(reason) => interpreted(name, outcome) == Err::<
                JsonView,
                ToolErrorView,
            >(ToolErrorView::Unavailable { backend: name, reason: reason@ }),
            HttpOutcome::Refused { status, body } => interpreted(name, outcome) matches Err(
                ToolErrorView::Unavailable { reason, .. },
            ) && contains(reason, status@) && contains(reason, snippet_view(body@)),
            HttpOutcome::Unreadable(reason) => interpreted(name, outcome) matches Err(
                ToolErrorView::Failed(message),
            ) && contains(message, reason@),
            HttpOutcome::Body(body) => body_response(body@) is None ==> (interpreted(
                name,
                outcome,
            ) matches Err(ToolErrorView::Failed(message)) && contains(
                message,
                snippet_view(body@),
            )),
            _ => true,
        },
{
    match outcome {
        HttpOutcome::Refused { status, body } => {
            let said = snippet_view(body@);
            let reason = "HTTP "@ + status@ + ": "@ + said;
            lemma_contains("HTTP "@, status@, ": "@ + said);
            assert("HTTP "@ + status@ + (": "@ + said) =~= reason);
            let front = "HTTP "@ + status@ + ": "@;
            lemma_contains(front, said, seq![]);
            assert(front + said + Seq::<char>::empty() =~= reason);
        },
        HttpOutcome::Unreadable(reason) => {
            let front = "could not read proxy body: "@;
            lemma_contains(front, reason@, seq![]);
            assert(front + reason@ + Seq::<char>::empty() =~= front + reason@);
        },
        HttpOutcome::Body(body) => {
            let front = "proxy returned a body that is not JSON-RPC: "@;
            let said = snippet_view(body@);
            lemma_contains(front, said, seq![]);
            assert(front + said + Seq::<char>::empty() =~= front + said);
        },
        _ => {},
    }
}

/// A proxy stands as its last request left it: idle until it was asked, ready once it
/// answered, and failed, with the reason, while it does not.
pub proof fn lemma_proxy_status(proxy: ProxyBackend, status: BackendStatus)
    requires
        call_ensures(ProxyBackend::status, (&proxy,), status),
    ensures
        status@ is Ready <==> proxy.contacted && proxy.last_error is None,
        status@ is Idle <==> !proxy.contacted && proxy.last_error is None,
        status@ is Failed <==> proxy.last_error is Some,
        status@ matches BackendStatusView::Failed(reason) ==> opt_view(proxy.last_error) == Some(
            reason,
        ),
{
}

} // verus!
