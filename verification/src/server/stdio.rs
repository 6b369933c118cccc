//! The stdio transport used by IDEs and desktop clients: one JSON-RPC message
//! per line.

use vstd::prelude::*;

use crate::json::{
    compact_json, is_plain, parse_view, parsed_json, writes, Json, JsonView, READABLE_DEPTH,
};
use crate::protocol::code;
use crate::protocol::jsonrpc::{
    decoded_request, decoded_response, lemma_request_round_trip, lemma_response_round_trip,
    Request, RequestView, Response, ResponseView,
};
use crate::text::{blank, cat2, is_blank, opt_view};

verus! {

/// Bounds how many parsed-but-unanswered requests can queue up.
pub const CHANNEL_DEPTH: usize = 64;

/// The `id` of a message, where it has one that is not null.
pub open spec fn id_of(value: JsonView) -> Option<JsonView> {
    match value.field("id"@) {
        Some(JsonView::Null) => None,
        other => other,
    }
}

/// The `id` of a line that is JSON, where it has one that is not null.
pub open spec fn salvaged_id(line: Seq<char>) -> Option<JsonView> {
    match parsed_json(line) {
        Ok(value) => id_of(value),
        Err(_) => None,
    }
}

/// The `id` of a message, where it has one that is not null.
pub fn read_id(value: &Json) -> (r: Option<Json>)
    ensures
        opt_view(r) == id_of(value@),
{
    match value.get("id") {
        Some(Json::Null) => None,
        Some(id) => Some(id.dup()),
        None => None,
    }
}

/// Recovers the `id` from a malformed request so the client is not left
/// waiting forever for a reply that will never come.
pub fn salvage_id(line: &str) -> (r: Option<Json>)
    ensures
        opt_view(r) == salvaged_id(line@),
{
    match Json::parse(line) {
        Ok(value) => read_id(&value),
        Err(_) => None,
    }
}

/// What is to be done about a line.
pub enum LineOutcome {
    /// Nothing.
    Skip,
    /// Answer that it is no request.
    Reply(Response),
    /// Handle the request.
    Handle(Request),
}

/// What a [`LineOutcome`] says.
pub enum LineOutcomeView {
    Skip,
    Reply(ResponseView),
    Handle(RequestView),
}

impl View for LineOutcome {
    type V = LineOutcomeView;

    open spec fn view(&self) -> LineOutcomeView {
        match self {
            LineOutcome::Skip => LineOutcomeView::Skip,
            LineOutcome::Reply(response) => LineOutcomeView::Reply(response@),
            LineOutcome::Handle(request) => LineOutcomeView::Handle(request@),
        }
    }
}

/// What is to be done about a message, given what it was read as: a request is
/// handled, and anything else answered only where it was meant to be a request.
pub open spec fn message_outcome(parsed: Result<JsonView, Seq<char>>) -> LineOutcomeView {
    match parsed {
        Err(_) => LineOutcomeView::Skip,
        Ok(value) => match decoded_request(value) {
            Ok(request) => LineOutcomeView::Handle(request),
            Err(message) => match id_of(value) {
                Some(id) => LineOutcomeView::Reply(
                    ResponseView::error(
                        Some(id),
                        code::PARSE_ERROR,
                        "could not parse the request: "@ + message,
                    ),
                ),
                None => LineOutcomeView::Skip,
            },
        },
    }
}

/// What is to be done about a line. A blank one is skipped.
pub open spec fn line_outcome(line: Seq<char>) -> LineOutcomeView {
    if is_blank(line) {
        LineOutcomeView::Skip
    } else {
        message_outcome(parsed_json(line))
    }
}

/// Decides what is to be done about a message, given what it was read as.
pub fn handle_message(parsed: Result<Json, String>) -> (r: LineOutcome)
    ensures
        r@ == message_outcome(parse_view(parsed)),
{
    let value = match parsed {
        Ok(value) => value,
        Err(_) => return LineOutcome::Skip,
    };
    match Request::from_json(&value) {
        Ok(request) => LineOutcome::Handle(request),
        Err(message) => match read_id(&value) {
            Some(id) => LineOutcome::Reply(
                Response::error(
                    Some(id),
                    code::PARSE_ERROR,
                    cat2("could not parse the request: ", &message),
                ),
            ),
            None => LineOutcome::Skip,
        },
    }
}

/// Decides what is to be done about a line.
pub fn handle_line(line: &str) -> (r: LineOutcome)
    ensures
        r@ == line_outcome(line@),
{
    if blank(line) {
        return LineOutcome::Skip;
    }
    handle_message(Json::parse(line))
}

/// A response as one line.
pub open spec fn response_line(response: ResponseView) -> Seq<char> {
    compact_json(response.encoded()).push('\n')
}

/// Writes a response as one line: the only line break is the one at its end, and
/// what stands before it is read as the response.
pub fn write_response(response: &Response) -> (r: String)
    ensures
        r@ == response_line(response@),
        writes(r@.drop_last(), response@.encoded()),
{
    let mut line = response.to_json().compact();
    let ghost text = line@;
    line.push('\n');
    assert(line@.drop_last() =~= text);
    line
}

/// Whatever is answered to a line that is no request carries the `id` that was
/// in it.
pub proof fn lemma_reply_carries_the_id(line: Seq<char>)
    ensures
        line_outcome(line) matches LineOutcomeView::Reply(response) ==> response.id == salvaged_id(
            line,
        ) && response.id is Some && response.error is Some,
{
}

/// A request that was written on a line is what is handled when the line is read.
/// Left out are requests that hold `null` in place of nothing, a number that is
/// not an integer, a key that the JSON reader reserves, or nesting that is refused
/// in any text.
pub proof fn lemma_request_survives_framing(line: Seq<char>, request: RequestView)
    requires
        writes(line, request.encoded()),
        is_plain(request.encoded(), READABLE_DEPTH as nat),
        request.id != Some(JsonView::Null),
        request.params != Some(JsonView::Null),
    ensures
        line_outcome(line) == LineOutcomeView::Handle(request),
{
    lemma_request_round_trip(request);
}

/// A response that was written on a line is what is read from it, within the same
/// limits.
pub proof fn lemma_response_survives_framing(line: Seq<char>, response: ResponseView)
    requires
        writes(line, response.encoded()),
        is_plain(response.encoded(), READABLE_DEPTH as nat),
        response.id != Some(JsonView::Null),
        response.result != Some(JsonView::Null),
        response.error matches Some(e) ==> e.data != Some(JsonView::Null),
    ensures
        parsed_json(line) matches Ok(value) && decoded_response(value) == Ok::<
            ResponseView,
            Seq<char>,
        >(response),
{
    lemma_response_round_trip(response);
}

/// A line is handled as the request that it holds. One that holds none is answered
/// where an id can be found in it, with an error for that id, and is passed over
/// where none can; so is a blank line and one that is not JSON.
pub proof fn lemma_lines(line: Seq<char>)
    ensures
        match line_outcome(line) {
            LineOutcomeView::Handle(request) => !is_blank(line) && (parsed_json(line) matches Ok(
                value,
            ) && decoded_request(value) == Ok::<RequestView, Seq<char>>(request)),
            LineOutcomeView::Reply(response) => {
                &&& !is_blank(line)
                &&& parsed_json(line) matches Ok(value) && decoded_request(value) is Err
                    && value.field("id"@) == response.id && response.id is Some && response.id
                    != Some(JsonView::Null)
                &&& response.result is None
                &&& response.error matches Some(e) && e.code == -32700
            },
            LineOutcomeView::Skip => {
                ||| is_blank(line)
                ||| parsed_json(line) is Err
                ||| (parsed_json(line) matches Ok(value) && decoded_request(value) is Err && (
                value.field("id"@) is None || value.field("id"@) == Some(JsonView::Null)))
            },
        },
{
}

/// A response is one line: it ends there and nowhere before.
pub proof fn lemma_one_response_one_line(response: ResponseView)
    requires
        writes(compact_json(response.encoded()), response.encoded()),
    ensures
        response_line(response).last() == '\n',
        response_line(response).drop_last() == compact_json(response.encoded()),
        forall|i: int|
            0 <= i < response_line(response).len() - 1 ==> (#[trigger] response_line(response)[i])
                != '\n',
{
    let text = compact_json(response.encoded());
    assert(response_line(response).drop_last() =~= text);
    assert forall|i: int| 0 <= i < response_line(response).len() - 1 implies (
    #[trigger] response_line(response)[i]) != '\n' by {
        assert(response_line(response)[i] == text[i]);
        assert(text.contains(text[i]));
    }
}

} // verus!
