//! JSON-RPC 2.0 envelope types.
//!
//! The distinction that matters most here is *request* vs *notification*: a
//! notification has no `id` and MUST NOT be answered.

use vstd::prelude::*;

use super::code;
use crate::decode::{
    missing_field, name_items, named_items, optional_text, optional_value, read_optional_text,
    read_optional_value, read_text, record, required_text, say_missing, say_wrong_type, wrong_type,
};
use crate::json::{json_integer, Json, JsonView};
use crate::text::{
    cat4, contains, lemma_contains, opt_view, signed_decimal, signed_decimal_text, starts_with,
    views,
};

verus! {

/// An inbound JSON-RPC message. `id` absent means notification.
#[derive(Debug, PartialEq)]
pub struct Request {
    pub jsonrpc: Option<String>,
    pub id: Option<Json>,
    pub method: String,
    pub params: Option<Json>,
}

/// What a [`Request`] says.
pub struct RequestView {
    pub jsonrpc: Option<Seq<char>>,
    pub id: Option<JsonView>,
    pub method: Seq<char>,
    pub params: Option<JsonView>,
}

impl View for Request {
    type V = RequestView;

    open spec fn view(&self) -> RequestView {
        RequestView {
            jsonrpc: opt_view(self.jsonrpc),
            id: opt_view(self.id),
            method: self.method@,
            params: opt_view(self.params),
        }
    }
}

/// The fields of a request in their order.
pub open spec fn request_fields() -> Seq<Seq<char>> {
    seq!["jsonrpc"@, "id"@, "method"@, "params"@]
}

/// The request that a JSON value writes, by the names of its fields or as an array
/// of them.
pub open spec fn decoded_request(value: JsonView) -> Result<RequestView, Seq<char>> {
    match record(value, request_fields(), 3) {
        Ok(value) => named_request(value),
        Err(e) => Err(e),
    }
}

/// The request that an object writes. An absent or `null` field counts as not
/// there, and fields that are not known are passed over.
pub open spec fn named_request(value: JsonView) -> Result<RequestView, Seq<char>> {
    match (optional_text(value, "jsonrpc"@), required_text(value, "method"@)) {
        (Err(e), _) => Err(e),
        (Ok(_), Err(e)) => Err(e),
        (Ok(jsonrpc), Ok(method)) => Ok(
            RequestView {
                jsonrpc,
                id: optional_value(value, "id"@),
                method,
                params: optional_value(value, "params"@),
            },
        ),
    }
}

impl RequestView {
    /// The JSON value that writes the request; what is not there is left out,
    /// except that `jsonrpc` is then written as `null`.
    pub open spec fn encoded(self) -> JsonView {
        let head = JsonView::object().with(
            "jsonrpc"@,
            match self.jsonrpc {
                Some(s) => JsonView::Text(s),
                None => JsonView::Null,
            },
        );
        let named = match self.id {
            Some(id) => head.with("id"@, id),
            None => head,
        }.with("method"@, JsonView::Text(self.method));
        match self.params {
            Some(params) => named.with("params"@, params),
            None => named,
        }
    }
}

/// The outcome of reading a request.
pub open spec fn request_result(r: Result<Request, String>) -> Result<RequestView, Seq<char>> {
    match r {
        Ok(request) => Ok(request@),
        Err(message) => Err(message@),
    }
}

impl Request {
    /// Reads a request out of a JSON value.
    pub fn from_json(value: &Json) -> (r: Result<Request, String>)
        ensures
            request_result(r) == decoded_request(value@),
    {
        match value {
            Json::Array(items) => {
                let names: Vec<String> = vec![
                    "jsonrpc".to_owned(),
                    "id".to_owned(),
                    "method".to_owned(),
                    "params".to_owned(),
                ];
                assert(views(names@) =~= request_fields());
                match name_items(items, &names, 3) {
                    Ok(value) => Request::from_object(&value),
                    Err(e) => Err(e),
                }
            },
            _ => Request::from_object(value),
        }
    }

    /// Reads a request out of an object.
    fn from_object(value: &Json) -> (r: Result<Request, String>)
        ensures
            request_result(r) == named_request(value@),
    {
        match read_optional_text(value, "jsonrpc") {
            Err(e) => Err(e),
            Ok(jsonrpc) => match read_text(value, "method") {
                Err(e) => Err(e),
                Ok(method) => Ok(
                    Request {
                        jsonrpc,
                        id: read_optional_value(value, "id"),
                        method,
                        params: read_optional_value(value, "params"),
                    },
                ),
            },
        }
    }

    /// Writes the request as a JSON value.
    pub fn to_json(&self) -> (r: Json)
        ensures
            r@ == self@.encoded(),
    {
        let head = Json::object().with(
            "jsonrpc",
            match &self.jsonrpc {
                Some(s) => Json::string(s),
                None => Json::Null,
            },
        );
        let named = match &self.id {
            Some(id) => head.with("id", id.dup()),
            None => head,
        }.with("method", Json::string(&self.method));
        match &self.params {
            Some(params) => named.with("params", params.dup()),
            None => named,
        }
    }

    /// A message without an `id` is a notification and must not be answered.
    pub fn is_notification(&self) -> (r: bool)
        ensures
            r == (self@.id is None),
    {
        self.id.is_none()
    }

    /// Returns `params` as an object, or an empty object when absent.
    pub fn params_or_empty(&self) -> (r: Json)
        ensures
            r@ == match self@.params {
                Some(params) => params,
                None => JsonView::object(),
            },
    {
        match &self.params {
            Some(params) => params.dup(),
            None => Json::object(),
        }
    }
}

/// The error half of a [`Response`].
#[derive(Debug, PartialEq)]
pub struct RpcError {
    pub code: i32,
    pub message: String,
    pub data: Option<Json>,
}

/// What an [`RpcError`] says.
pub struct RpcErrorView {
    pub code: i32,
    pub message: Seq<char>,
    pub data: Option<JsonView>,
}

impl View for RpcError {
    type V = RpcErrorView;

    open spec fn view(&self) -> RpcErrorView {
        RpcErrorView { code: self.code, message: self.message@, data: opt_view(self.data) }
    }
}

/// The fields of an error in their order.
pub open spec fn error_fields() -> Seq<Seq<char>> {
    seq!["code"@, "message"@, "data"@]
}

/// The error that a JSON value writes, by the names of its fields or as an array of
/// them.
pub open spec fn decoded_error(value: JsonView) -> Result<RpcErrorView, Seq<char>> {
    match record(value, error_fields(), 2) {
        Ok(value) => named_error(value),
        Err(e) => Err(e),
    }
}

/// The error that an object writes.
pub open spec fn named_error(value: JsonView) -> Result<RpcErrorView, Seq<char>> {
    match value.field("code"@) {
        None => Err(missing_field("code"@)),
        Some(code) => match (code.small_integer(), required_text(value, "message"@)) {
            (None, _) => Err(wrong_type("code"@, "an integer"@)),
            (Some(_), Err(e)) => Err(e),
            (Some(code), Ok(message)) => Ok(
                RpcErrorView { code, message, data: optional_value(value, "data"@) },
            ),
        },
    }
}

impl RpcErrorView {
    /// The JSON value that writes the error.
    pub open spec fn encoded(self) -> JsonView {
        let head = JsonView::object().with("code"@, json_integer(self.code as i64)).with(
            "message"@,
            JsonView::Text(self.message),
        );
        match self.data {
            Some(data) => head.with("data"@, data),
            None => head,
        }
    }

    /// The error as one line of text.
    pub open spec fn text(self) -> Seq<char> {
        self.message + " (code "@ + signed_decimal(self.code as int) + ")"@
    }
}

impl RpcError {
    /// Reads an error out of a JSON value.
    pub fn from_json(value: &Json) -> (r: Result<RpcError, String>)
        ensures
            match r {
                Ok(err) => decoded_error(value@) == Ok::<RpcErrorView, Seq<char>>(err@),
                Err(message) => decoded_error(value@) == Err::<RpcErrorView, Seq<char>>(message@),
            },
    {
        match value {
            Json::Array(items) => {
                let names: Vec<String> = vec![
                    "code".to_owned(),
                    "message".to_owned(),
                    "data".to_owned(),
                ];
                assert(views(names@) =~= error_fields());
                match name_items(items, &names, 2) {
                    Ok(value) => RpcError::from_object(&value),
                    Err(e) => Err(e),
                }
            },
            _ => RpcError::from_object(value),
        }
    }

    /// Reads an error out of an object.
    fn from_object(value: &Json) -> (r: Result<RpcError, String>)
        ensures
            match r {
                Ok(err) => named_error(value@) == Ok::<RpcErrorView, Seq<char>>(err@),
                Err(message) => named_error(value@) == Err::<RpcErrorView, Seq<char>>(message@),
            },
    {
        match value.get("code") {
            None => Err(say_missing("code")),
            Some(code) => match code.as_small_integer() {
                None => Err(say_wrong_type("code", "an integer")),
                Some(code) => match read_text(value, "message") {
                    Err(e) => Err(e),
                    Ok(message) => Ok(
                        RpcError { code, message, data: read_optional_value(value, "data") },
                    ),
                },
            },
        }
    }

    /// Writes the error as a JSON value.
    pub fn to_json(&self) -> (r: Json)
        ensures
            r@ == self@.encoded(),
    {
        let head = Json::object().with("code", Json::integer(self.code as i64)).with(
            "message",
            Json::string(&self.message),
        );
        match &self.data {
            Some(data) => head.with("data", data.dup()),
            None => head,
        }
    }

    /// The error as one line of text.
    pub fn text(&self) -> (r: String)
        ensures
            r@ == self@.text(),
    {
        cat4(&self.message, " (code ", &signed_decimal_text(self.code as i64), ")")
    }
}

/// An outbound JSON-RPC message.
#[derive(Debug, PartialEq)]
pub struct Response {
    pub jsonrpc: String,
    pub id: Option<Json>,
    pub result: Option<Json>,
    pub error: Option<RpcError>,
}

/// What a [`Response`] says.
pub struct ResponseView {
    pub jsonrpc: Seq<char>,
    pub id: Option<JsonView>,
    pub result: Option<JsonView>,
    pub error: Option<RpcErrorView>,
}

impl View for Response {
    type V = ResponseView;

    open spec fn view(&self) -> ResponseView {
        ResponseView {
            jsonrpc: self.jsonrpc@,
            id: opt_view(self.id),
            result: opt_view(self.result),
            error: opt_view(self.error),
        }
    }
}

/// The fields of a response in their order.
pub open spec fn response_fields() -> Seq<Seq<char>> {
    seq!["jsonrpc"@, "id"@, "result"@, "error"@]
}

/// The response that a JSON value writes, by the names of its fields or as an array
/// of all of them.
pub open spec fn decoded_response(value: JsonView) -> Result<ResponseView, Seq<char>> {
    match record(value, response_fields(), 4) {
        Ok(value) => named_response(value),
        Err(e) => Err(e),
    }
}

/// The response that an object writes. An absent or `null` field counts as not
/// there, and fields that are not known are passed over.
pub open spec fn named_response(value: JsonView) -> Result<ResponseView, Seq<char>> {
    match required_text(value, "jsonrpc"@) {
        Err(e) => Err(e),
        Ok(jsonrpc) => {
            let whole = ResponseView {
                jsonrpc,
                id: optional_value(value, "id"@),
                result: optional_value(value, "result"@),
                error: None,
            };
            match optional_value(value, "error"@) {
                None => Ok(whole),
                Some(error) => match decoded_error(error) {
                    Err(e) => Err(e),
                    Ok(error) => Ok(ResponseView { error: Some(error), ..whole }),
                },
            }
        },
    }
}

impl ResponseView {
    /// The response that carries a result.
    pub open spec fn success(id: Option<JsonView>, result: JsonView) -> ResponseView {
        ResponseView { jsonrpc: "2.0"@, id, result: Some(result), error: None }
    }

    /// The response that carries an error.
    pub open spec fn error(id: Option<JsonView>, code: i32, message: Seq<char>) -> ResponseView {
        ResponseView {
            jsonrpc: "2.0"@,
            id,
            result: None,
            error: Some(RpcErrorView { code, message, data: None }),
        }
    }

    /// The JSON-RPC-level outcome: an error wins over a result.
    pub open spec fn outcome(self) -> Result<JsonView, RpcErrorView> {
        match (self.result, self.error) {
            (_, Some(err)) => Err(err),
            (Some(value), None) => Ok(value),
            (None, None) => Err(
                RpcErrorView {
                    code: code::INTERNAL_ERROR,
                    message: "response carried neither result nor error"@,
                    data: None,
                },
            ),
        }
    }

    /// The JSON value that writes the response: `id` is always there, the
    /// result and the error only where there is one.
    pub open spec fn encoded(self) -> JsonView {
        let head = JsonView::object().with("jsonrpc"@, JsonView::Text(self.jsonrpc)).with(
            "id"@,
            match self.id {
                Some(id) => id,
                None => JsonView::Null,
            },
        );
        let answered = match self.result {
            Some(result) => head.with("result"@, result),
            None => head,
        };
        match self.error {
            Some(error) => answered.with("error"@, error.encoded()),
            None => answered,
        }
    }
}

/// The outcome of reading a response.
pub open spec fn response_result(r: Result<Response, String>) -> Result<ResponseView, Seq<char>> {
    match r {
        Ok(response) => Ok(response@),
        Err(message) => Err(message@),
    }
}

impl Response {
    /// The response that carries a result.
    pub fn success(id: Option<Json>, result: Json) -> (r: Response)
        ensures
            r@ == ResponseView::success(opt_view(id), result@),
    {
        Response { jsonrpc: "2.0".to_owned(), id, result: Some(result), error: None }
    }

    /// The response that carries an error.
    pub fn error(id: Option<Json>, code: i32, message: String) -> (r: Response)
        ensures
            r@ == ResponseView::error(opt_view(id), code, message@),
    {
        Response {
            jsonrpc: "2.0".to_owned(),
            id,
            result: None,
            error: Some(RpcError { code, message, data: None }),
        }
    }

    /// Splits the envelope into the JSON-RPC-level outcome.
    pub fn into_result(self) -> (r: Result<Json, RpcError>)
        ensures
            match r {
                Ok(value) => self@.outcome() == Ok::<JsonView, RpcErrorView>(value@),
                Err(err) => self@.outcome() == Err::<JsonView, RpcErrorView>(err@),
            },
    {
        match (self.result, self.error) {
            (_, Some(err)) => Err(err),
            (Some(value), None) => Ok(value),
            (None, None) => Err(
                RpcError {
                    code: code::INTERNAL_ERROR,
                    message: "response carried neither result nor error".to_owned(),
                    data: None,
                },
            ),
        }
    }

    /// Reads a response out of a JSON value.
    pub fn from_json(value: &Json) -> (r: Result<Response, String>)
        ensures
            response_result(r) == decoded_response(value@),
    {
        match value {
            Json::Array(items) => {
                let names: Vec<String> = vec![
                    "jsonrpc".to_owned(),
                    "id".to_owned(),
                    "result".to_owned(),
                    "error".to_owned(),
                ];
                assert(views(names@) =~= response_fields());
                match name_items(items, &names, 4) {
                    Ok(value) => Response::from_object(&value),
                    Err(e) => Err(e),
                }
            },
            _ => Response::from_object(value),
        }
    }

    /// Reads a response out of an object.
    fn from_object(value: &Json) -> (r: Result<Response, String>)
        ensures
            response_result(r) == named_response(value@),
    {
        match read_text(value, "jsonrpc") {
            Err(e) => Err(e),
            Ok(jsonrpc) => {
                let id = read_optional_value(value, "id");
                let result = read_optional_value(value, "result");
                match read_optional_value(value, "error") {
                    None => Ok(Response { jsonrpc, id, result, error: None }),
                    Some(error) => match RpcError::from_json(&error) {
                        Err(e) => Err(e),
                        Ok(error) => Ok(Response { jsonrpc, id, result, error: Some(error) }),
                    },
                }
            },
        }
    }

    /// Writes the response as a JSON value.
    pub fn to_json(&self) -> (r: Json)
        ensures
            r@ == self@.encoded(),
    {
        let head = Json::object().with("jsonrpc", Json::string(&self.jsonrpc)).with(
            "id",
            match &self.id {
                Some(id) => id.dup(),
                None => Json::Null,
            },
        );
        let answered = match &self.result {
            Some(result) => head.with("result", result.dup()),
            None => head,
        };
        match &self.error {
            Some(error) => answered.with("error", error.to_json()),
            None => answered,
        }
    }
}

/// A response that was written and read again is the one it was, as long as
/// nothing in it was `null` to begin with.
pub proof fn lemma_response_round_trip(response: ResponseView)
    requires
        response.id != Some(JsonView::Null),
        response.result != Some(JsonView::Null),
        response.error matches Some(e) ==> e.data != Some(JsonView::Null),
    ensures
        decoded_response(response.encoded()) == Ok::<ResponseView, Seq<char>>(response),
{
    lemma_keys_differ();
    broadcast use crate::json::NegativeNumber::lemma_of;

    match response.error {
        Some(e) => {
            assert(decoded_error(e.encoded()) == Ok::<RpcErrorView, Seq<char>>(e));
        },
        None => {},
    }
}

/// A success and an error carry the id they were given, and what they carry is
/// what comes out of them.
pub proof fn lemma_response_outcome(
    id: Option<JsonView>,
    value: JsonView,
    code: i32,
    message: Seq<char>,
)
    ensures
        ResponseView::success(id, value).id == id,
        ResponseView::success(id, value).outcome() == Ok::<JsonView, RpcErrorView>(value),
        ResponseView::error(id, code, message).id == id,
        ResponseView::error(id, code, message).outcome() == Err::<JsonView, RpcErrorView>(
            RpcErrorView { code, message, data: None },
        ),
{
}

/// A request that was written and read again is the one it was.
pub proof fn lemma_request_round_trip(request: RequestView)
    requires
        request.id != Some(JsonView::Null),
        request.params != Some(JsonView::Null),
    ensures
        decoded_request(request.encoded()) == Ok::<RequestView, Seq<char>>(request),
{
    lemma_keys_differ();
}

proof fn lemma_keys_differ()
    ensures
        "jsonrpc"@ != "id"@,
        "jsonrpc"@ != "method"@,
        "jsonrpc"@ != "params"@,
        "jsonrpc"@ != "result"@,
        "jsonrpc"@ != "error"@,
        "id"@ != "method"@,
        "id"@ != "params"@,
        "id"@ != "result"@,
        "id"@ != "error"@,
        "method"@ != "params"@,
        "result"@ != "error"@,
        "code"@ != "message"@,
        "code"@ != "data"@,
        "message"@ != "data"@,
{
    reveal_strlit("jsonrpc");
    reveal_strlit("id");
    reveal_strlit("method");
    reveal_strlit("params");
    reveal_strlit("result");
    reveal_strlit("error");
    reveal_strlit("code");
    reveal_strlit("message");
    reveal_strlit("data");
    assert("jsonrpc"@[0] == 'j');
    assert("method"@[0] == 'm');
    assert("params"@[0] == 'p');
    assert("result"@[0] == 'r');
    assert("error"@[0] == 'e');
    assert("code"@[0] == 'c');
    assert("data"@[0] == 'd');
}

/// A request is read field by field: the method must be there, the rest may be
/// missing, and an id or parameters that are null count as missing.
pub proof fn lemma_request_is_read(value: JsonView)
    requires
        !(value is Array),
    ensures
        match decoded_request(value) {
            Ok(request) => {
                &&& value.field("method"@) == Some(JsonView::Text(request.method))
                &&& match value.field("id"@) {
                    Some(JsonView::Null) => request.id is None,
                    other => request.id == other,
                }
                &&& match value.field("params"@) {
                    Some(JsonView::Null) => request.params is None,
                    other => request.params == other,
                }
                &&& match request.jsonrpc {
                    Some(text) => value.field("jsonrpc"@) == Some(JsonView::Text(text)),
                    None => value.field("jsonrpc"@) is None || value.field("jsonrpc"@) == Some(
                        JsonView::Null,
                    ),
                }
            },
            Err(_) => {
                ||| !(value.field("method"@) matches Some(JsonView::Text(_)))
                ||| (value.field("jsonrpc"@) matches Some(text) && !(text is Text)
                    && !(text is Null))
            },
        },
{
}

/// A response is sent with its version and its id, null where there is none, and
/// with its result and its error where it has them; nothing else is sent.
pub proof fn lemma_response_is_sent_whole(response: ResponseView, key: Seq<char>)
    ensures
        response.encoded().field("jsonrpc"@) == Some(JsonView::Text(response.jsonrpc)),
        response.encoded().field("id"@) == Some(
            match response.id {
                Some(id) => id,
                None => JsonView::Null,
            },
        ),
        response.encoded().field("result"@) == response.result,
        match response.error {
            Some(error) => response.encoded().field("error"@) matches Some(sent) && {
                &&& sent.field("code"@) == Some(json_integer(error.code as i64))
                &&& sent.field("message"@) == Some(JsonView::Text(error.message))
                &&& sent.field("data"@) == error.data
            },
            None => response.encoded().field("error"@) is None,
        },
        key != "jsonrpc"@ && key != "id"@ && key != "result"@ && key != "error"@
            ==> response.encoded().field(key) is None,
{
    reveal_strlit("jsonrpc");
    reveal_strlit("id");
    reveal_strlit("result");
    reveal_strlit("error");
    reveal_strlit("code");
    reveal_strlit("message");
    reveal_strlit("data");
    assert("jsonrpc"@.len() == 7);
    assert("id"@.len() == 2);
    assert("result"@.len() == 6);
    assert("error"@.len() == 5);
    assert("code"@.len() == 4);
    assert("message"@.len() == 7);
    assert("data"@.len() == 4);
    assert("jsonrpc"@[0] == 'j');
    assert("code"@[0] == 'c');
    assert("message"@[0] == 'm');
    assert("data"@[0] == 'd');
}

/// A request is sent with its method, and with its id and parameters where it has
/// them; nothing else but the version is sent.
pub proof fn lemma_request_is_sent_whole(request: RequestView, key: Seq<char>)
    ensures
        request.encoded().field("jsonrpc"@) == Some(
            match request.jsonrpc {
                Some(text) => JsonView::Text(text),
                None => JsonView::Null,
            },
        ),
        request.encoded().field("id"@) == request.id,
        request.encoded().field("method"@) == Some(JsonView::Text(request.method)),
        request.encoded().field("params"@) == request.params,
        key != "jsonrpc"@ && key != "id"@ && key != "method"@ && key != "params"@
            ==> request.encoded().field(key) is None,
{
    reveal_strlit("jsonrpc");
    reveal_strlit("id");
    reveal_strlit("method");
    reveal_strlit("params");
    assert("jsonrpc"@.len() == 7);
    assert("id"@.len() == 2);
    assert("method"@.len() == 6);
    assert("params"@.len() == 6);
    assert("method"@[0] == 'm');
    assert("params"@[0] == 'p');
}

/// An error wins over a result; a result alone is the outcome; with neither the
/// outcome is an internal error. An answer of either kind says its version.
pub proof fn lemma_outcome(response: ResponseView)
    ensures
        match (response.result, response.error) {
            (_, Some(error)) => response.outcome() == Err::<JsonView, RpcErrorView>(error),
            (Some(value), None) => response.outcome() == Ok::<JsonView, RpcErrorView>(value),
            (None, None) => response.outcome() matches Err(error) && error.code == -32603
                && error.data is None,
        },
        forall|id: Option<JsonView>, value: JsonView| #[trigger]
            ResponseView::success(id, value).jsonrpc == "2.0"@,
        forall|id: Option<JsonView>, code: i32, message: Seq<char>| #[trigger]
            ResponseView::error(id, code, message).jsonrpc == "2.0"@,
{
}

/// An error in words says its message and its code.
pub proof fn lemma_error_text(error: RpcErrorView)
    ensures
        starts_with(error.text(), error.message),
        contains(error.text(), signed_decimal(error.code as int)),
{
    let number = signed_decimal(error.code as int);
    let front = error.message + " (code "@;
    lemma_contains(front, number, ")"@);
    assert(error.text().subrange(0, error.message.len() as int) =~= error.message);
}

/// A request, a response and an error may be written as the list of their fields, and
/// are then read as if the fields were named.
pub proof fn lemma_lists_of_fields(version: JsonView, id: JsonView, c: JsonView, d: JsonView)
    ensures
        decoded_request(JsonView::Array(seq![version, id, c, d])) == decoded_request(
            JsonView::object().with("jsonrpc"@, version).with("id"@, id).with("method"@, c).with(
                "params"@,
                d,
            ),
        ),
        decoded_request(JsonView::Array(seq![version, id])) is Err,
        decoded_response(JsonView::Array(seq![version, id, c, d])) == decoded_response(
            JsonView::object().with("jsonrpc"@, version).with("id"@, id).with("result"@, c).with(
                "error"@,
                d,
            ),
        ),
        decoded_error(JsonView::Array(seq![version, id, c])) == decoded_error(
            JsonView::object().with("code"@, version).with("message"@, id).with("data"@, c),
        ),
{
    let four = seq![version, id, c, d];
    let three = seq![version, id, c];
    let two = seq![version, id];
    let one = seq![version];
    let empty = Seq::<JsonView>::empty();
    assert(four.drop_last() =~= three);
    assert(three.drop_last() =~= two);
    assert(two.drop_last() =~= one);
    assert(one.drop_last() =~= empty);
    assert forall|names: Seq<Seq<char>>| names.len() >= 3 implies #[trigger] named_items(
        three,
        names,
    ) == JsonView::object().with(names[0], version).with(names[1], id).with(names[2], c) by {
        assert(named_items(empty, names) == JsonView::object());
        assert(named_items(one, names) == JsonView::object().with(names[0], version));
        assert(named_items(two, names) == named_items(one, names).with(names[1], id));
        assert(named_items(three, names) == named_items(two, names).with(names[2], c));
    }
    assert forall|names: Seq<Seq<char>>| names.len() >= 4 implies #[trigger] named_items(
        four,
        names,
    ) == named_items(three, names).with(names[3], d) by {}
    assert(named_items(four, request_fields()) == named_items(three, request_fields()).with(
        "params"@,
        d,
    ));
    assert(named_items(four, response_fields()) == named_items(three, response_fields()).with(
        "error"@,
        d,
    ));
    assert(named_items(three, error_fields()) == JsonView::object().with("code"@, version).with(
        "message"@,
        id,
    ).with("data"@, c));
}

/// An error is read from its code and its message, and may carry something more.
pub proof fn lemma_error_is_read(value: JsonView, code: JsonView, message: JsonView)
    ensures
        match decoded_error(value) {
            Ok(error) => !(value is Array) ==> {
                &&& value.field("code"@) matches Some(number) && number.small_integer() == Some(
                    error.code,
                )
                &&& value.field("message"@) == Some(JsonView::Text(error.message))
                &&& match value.field("data"@) {
                    Some(JsonView::Null) => error.data is None,
                    other => error.data == other,
                }
            },
            Err(_) => !(value is Array) ==> {
                ||| !(value.field("message"@) matches Some(JsonView::Text(_)))
                ||| value.field("code"@) is None
                ||| (value.field("code"@) matches Some(number) && number.small_integer() is None)
            },
        },
        decoded_error(JsonView::Array(seq![code, message])) == decoded_error(
            JsonView::object().with("code"@, code).with("message"@, message),
        ),
        decoded_error(JsonView::Array(seq![code])) is Err,
{
    let two = seq![code, message];
    let one = seq![code];
    let empty = Seq::<JsonView>::empty();
    let names = error_fields();
    assert(two.drop_last() =~= one);
    assert(one.drop_last() =~= empty);
    assert(named_items(empty, names) == JsonView::object());
    assert(named_items(one, names) == JsonView::object().with("code"@, code));
    assert(named_items(two, names) == named_items(one, names).with("message"@, message));
}

/// A response is read field by field: its version must be there, the rest may be
/// missing, and what is null counts as missing.
pub proof fn lemma_response_is_read(value: JsonView)
    requires
        !(value is Array),
    ensures
        decoded_response(value) matches Ok(response) ==> {
            &&& value.field("jsonrpc"@) == Some(JsonView::Text(response.jsonrpc))
            &&& match value.field("id"@) {
                Some(JsonView::Null) => response.id is None,
                other => response.id == other,
            }
            &&& match value.field("result"@) {
                Some(JsonView::Null) => response.result is None,
                other => response.result == other,
            }
            &&& match value.field("error"@) {
                Some(JsonView::Null) => response.error is None,
                Some(error) => response.error is Some && decoded_error(error) == Ok::<
                    RpcErrorView,
                    Seq<char>,
                >(response.error->0),
                None => response.error is None,
            }
        },
        value.field("jsonrpc"@) matches Some(JsonView::Text(_)) && value.field("error"@) is None
            ==> decoded_response(value) is Ok,
        !(value.field("jsonrpc"@) matches Some(JsonView::Text(_))) ==> decoded_response(
            value,
        ) is Err,
{
}

/// A request that is a list of fields may leave out its parameters, and no more.
pub proof fn lemma_short_requests(version: JsonView, id: JsonView, method: JsonView)
    ensures
        decoded_request(JsonView::Array(seq![version, id, method])) == decoded_request(
            JsonView::object().with("jsonrpc"@, version).with("id"@, id).with("method"@, method),
        ),
        decoded_request(JsonView::Array(seq![version, id])) is Err,
        decoded_response(JsonView::Array(seq![version, id, method])) is Err,
{
    let three = seq![version, id, method];
    let two = seq![version, id];
    let one = seq![version];
    let empty = Seq::<JsonView>::empty();
    let names = request_fields();
    assert(three.drop_last() =~= two);
    assert(two.drop_last() =~= one);
    assert(one.drop_last() =~= empty);
    assert(named_items(empty, names) == JsonView::object());
    assert(named_items(one, names) == JsonView::object().with("jsonrpc"@, version));
    assert(named_items(two, names) == named_items(one, names).with("id"@, id));
    assert(named_items(three, names) == named_items(two, names).with("method"@, method));
}

} // verus!
