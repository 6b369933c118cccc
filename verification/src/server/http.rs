//! The HTTP transport.
//!
//! This endpoint can run code and rewrite files: bearer authentication is
//! required unless explicitly waived, CORS is closed unless origins are listed,
//! and bodies are size-limited.

use vstd::prelude::*;

use crate::backend::headers::{header_value, is_header_value};
use crate::config::model::{ServerConfig, ServerConfigView, dup_texts, lemma_filtered, usable_token};
use crate::error::StartupError;
use crate::json::{parse_view, parsed_json, Json, JsonView};
use crate::protocol::code;
use crate::protocol::jsonrpc::{
    decoded_request, Request, RequestView, Response, ResponseView,
};
use crate::text::{
    cat2, cat3, cut_prefix, decimal, decimal_text, lemma_trimming, opt_view, trim, trimmed, views,
    without_prefix,
};

verus! {

/// What the HTTP transport is started with.
pub struct HttpConfig {
    /// `None` means authentication was explicitly waived.
    pub token: Option<String>,
    pub allowed_origins: Vec<String>,
    pub max_body_bytes: usize,
}

/// The token that an `Authorization` header presents; none where the header is
/// missing or of another scheme.
pub open spec fn presented_token(header: Option<Seq<char>>) -> Seq<char> {
    match header {
        Some(value) => match without_prefix(value, "Bearer "@) {
            Some(token) => trimmed(token),
            None => trimmed(""@),
        },
        None => trimmed(""@),
    }
}

/// Whether a request with an `Authorization` header may pass.
pub open spec fn is_authorized(token: Option<Seq<char>>, header: Option<Seq<char>>) -> bool {
    match token {
        None => true,
        Some(expected) => presented_token(header) == expected,
    }
}

/// What a request that may not pass is answered with.
pub open spec fn unauthorized() -> ResponseView {
    ResponseView::error(None, code::UNAUTHORIZED, "a valid bearer token is required"@)
}

/// Compares without leaking the position of the first difference through
/// timing. Lengths are compared first, which only reveals the token length.
pub fn constant_time_eq(a: &[u8], b: &[u8]) -> (r: bool)
    ensures
        r == (a@ == b@),
{
    if a.len() != b.len() {
        return false;
    }
    let mut acc: u8 = 0;
    let mut i: usize = 0;
    assert(a@.take(0) =~= b@.take(0));
    while i < a.len()
        invariant
            0 <= i <= a@.len(),
            a@.len() == b@.len(),
            acc == 0 <==> a@.take(i as int) == b@.take(i as int),
        decreases a@.len() - i,
    {
        let x: u8 = a[i];
        let y: u8 = b[i];
        proof {
            assert((acc | (x ^ y)) == 0 <==> acc == 0 && x == y) by (bit_vector);
            assert(a@.take(i + 1) =~= a@.take(i as int).push(x));
            assert(b@.take(i + 1) =~= b@.take(i as int).push(y));
            if a@.take(i + 1) == b@.take(i + 1) {
                assert(a@.take(i + 1).drop_last() =~= a@.take(i as int));
                assert(b@.take(i + 1).drop_last() =~= b@.take(i as int));
                assert(a@.take(i + 1).last() == x);
                assert(b@.take(i + 1).last() == y);
            }
        }
        acc = acc | (x ^ y);
        i += 1;
    }
    assert(a@.take(i as int) =~= a@);
    assert(b@.take(i as int) =~= b@);
    acc == 0
}

/// Decides whether a request may pass. `header` is the value of its
/// `Authorization` header, where it has one that is text.
pub fn authorize(token: &Option<String>, header: Option<&str>) -> (r: Result<(), Response>)
    ensures
        is_authorized(
            opt_view(*token),
            match header {
                Some(value) => Some(value@),
                None => None,
            },
        ) <==> r is Ok,
        r matches Err(response) ==> response@ == unauthorized(),
{
    let expected = match token {
        Some(expected) => expected,
        None => return Ok(()),
    };
    let presented = match header {
        Some(value) => match cut_prefix(value, "Bearer ") {
            Some(token) => trim(&token),
            None => trim(""),
        },
        None => trim(""),
    };
    proof {
        vstd::utf8::encode_utf8_decode_utf8(presented@);
        vstd::utf8::encode_utf8_decode_utf8(expected@);
    }
    if constant_time_eq(presented.as_str().as_bytes(), expected.as_str().as_bytes()) {
        return Ok(());
    }
    Err(
        Response::error(None, code::UNAUTHORIZED, "a valid bearer token is required".to_owned()),
    )
}

/// What a body that is no request is answered with.
pub open spec fn unreadable(reason: Seq<char>) -> ResponseView {
    ResponseView::error(
        None,
        code::PARSE_ERROR,
        "could not read the request body: "@ + reason,
    )
}

/// Answers a body that is no request.
pub fn reject_body(reason: &str) -> (r: Response)
    ensures
        r@ == unreadable(reason@),
{
    Response::error(None, code::PARSE_ERROR, cat2("could not read the request body: ", reason))
}

/// The request in a body, given what it was read as, or the status and the
/// answer where it is none: text that is not JSON is told apart from JSON that
/// is no request.
pub open spec fn request_in(parsed: Result<JsonView, Seq<char>>) -> Result<
    RequestView,
    (u16, ResponseView),
> {
    match parsed {
        Err(message) => Err(
            (400, unreadable("Failed to parse the request body as JSON: "@ + message)),
        ),
        Ok(value) => match decoded_request(value) {
            Err(message) => Err(
                (
                    422,
                    unreadable(
                        "Failed to deserialize the JSON body into the target type: "@ + message,
                    ),
                ),
            ),
            Ok(request) => Ok(request),
        },
    }
}

/// What is made of the text of a body.
pub open spec fn body_request(text: Seq<char>) -> Result<RequestView, (u16, ResponseView)> {
    request_in(parsed_json(text))
}

/// The view of what was made of a body.
pub open spec fn body_view(r: Result<Request, (u16, Response)>) -> Result<
    RequestView,
    (u16, ResponseView),
> {
    match r {
        Ok(request) => Ok(request@),
        Err((status, response)) => Err((status, response@)),
    }
}

/// Takes the request out of what a body was read as.
pub fn accept_request(parsed: Result<Json, String>) -> (r: Result<Request, (u16, Response)>)
    ensures
        body_view(r) == request_in(parse_view(parsed)),
{
    match parsed {
        Err(message) => Err(
            (400, reject_body(&cat2("Failed to parse the request body as JSON: ", &message))),
        ),
        Ok(value) => match Request::from_json(&value) {
            Err(message) => Err(
                (
                    422,
                    reject_body(
                        &cat2(
                            "Failed to deserialize the JSON body into the target type: ",
                            &message,
                        ),
                    ),
                ),
            ),
            Ok(request) => Ok(request),
        },
    }
}

/// Reads the request that the text of a body writes.
pub fn read_request(text: &str) -> (r: Result<Request, (u16, Response)>)
    ensures
        body_view(r) == body_request(text@),
{
    accept_request(Json::parse(text))
}

/// Where and how HTTP is served.
pub struct ServePlan {
    pub address: String,
    pub http: HttpConfig,
}

/// Where HTTP is served: where the command line says so, or else at the
/// configured host and port.
pub open spec fn serve_address(server: ServerConfigView, bind: Option<Seq<char>>) -> Seq<char> {
    match bind {
        Some(address) => address,
        None => server.host + ":"@ + decimal(server.port as nat),
    }
}

/// Decides where and how HTTP is served. Without a token it is served only where
/// that was acknowledged.
pub fn plan_serve(
    server: &ServerConfig,
    bind: &Option<String>,
    allow_unauthenticated: bool,
) -> (r: Result<ServePlan, StartupError>)
    ensures
        r is Ok <==> (usable_token(server@.auth_token) is Some || allow_unauthenticated),
        match r {
            Ok(plan) => {
                &&& plan.address@ == serve_address(server@, opt_view(*bind))
                &&& opt_view(plan.http.token) == usable_token(server@.auth_token)
                &&& views(plan.http.allowed_origins@) == server@.allowed_origins
                &&& plan.http.max_body_bytes == server@.max_body_bytes
            },
            Err(err) => err is UnauthenticatedHttp,
        },
{
    let token = server.auth_token();
    if token.is_none() && !allow_unauthenticated {
        return Err(StartupError::UnauthenticatedHttp);
    }
    let address = match bind {
        Some(address) => address.clone(),
        None => cat3(&server.host, ":", &decimal_text(server.port as u64)),
    };
    Ok(
        ServePlan {
            address,
            http: HttpConfig {
                token,
                allowed_origins: dup_texts(&server.allowed_origins),
                max_body_bytes: server.max_body_bytes,
            },
        },
    )
}

/// Those of the listed origins that can stand in a header, in order.
pub open spec fn usable_origins(listed: Seq<Seq<char>>) -> Seq<Seq<char>> {
    listed.filter(|origin: Seq<char>| is_header_value(origin))
}

/// Picks those of the listed origins that can stand in a header.
pub fn cors(listed: &Vec<String>) -> (r: Vec<String>)
    ensures
        views(r@) == usable_origins(views(listed@)),
{
    let ghost all = views(listed@);
    let ghost f = |origin: Seq<char>| is_header_value(origin);
    let mut out: Vec<String> = Vec::new();
    let mut i: usize = 0;
    proof {
        reveal(Seq::filter);
        assert(all.take(0) =~= seq![]);
        assert(views(out@) =~= all.take(0).filter(f));
    }
    while i < listed.len()
        invariant
            0 <= i <= listed@.len(),
            all == views(listed@),
            f == (|origin: Seq<char>| is_header_value(origin)),
            views(out@) == all.take(i as int).filter(f),
        decreases listed@.len() - i,
    {
        let ghost before = out@;
        proof {
            reveal(Seq::filter);
            assert(all.take(i + 1).drop_last() =~= all.take(i as int));
            assert(all.take(i + 1).last() == listed@[i as int]@);
        }
        if header_value(&listed[i]) {
            out.push(listed[i].clone());
            assert(views(out@) =~= views(before).push(listed@[i as int]@));
        }
        i += 1;
    }
    assert(all.take(i as int) =~= all);
    out
}

/// What a health check is answered with.
pub open spec fn health_json() -> JsonView {
    JsonView::object().with("status"@, JsonView::Text("ok"@)).with(
        "version"@,
        JsonView::Text(crate::VERSION@),
    )
}

/// Answers a health check.
pub fn health() -> (r: Json)
    ensures
        r@ == health_json(),
{
    Json::object().with("status", Json::string("ok")).with("version", Json::string(crate::VERSION))
}

/// With a token configured, a request without the header is refused; without
/// one, every request passes.
pub proof fn lemma_missing_header_is_refused(token: Seq<char>, header: Option<Seq<char>>)
    requires
        token.len() > 0,
    ensures
        !is_authorized(Some(token), None),
        is_authorized(None, header),
{
    reveal_strlit("");
    assert(""@.len() == 0);
}

/// No origin is allowed unless it was listed.
pub proof fn lemma_only_listed_origins(listed: Seq<Seq<char>>, origin: Seq<char>)
    requires
        usable_origins(listed).contains(origin),
    ensures
        listed.contains(origin),
    decreases listed.len(),
{
    listed.lemma_filter_contains_rev(|origin: Seq<char>| is_header_value(origin), origin);
}

/// With a token set, a request is let in exactly where its header is the scheme
/// followed by that token, blanks around it aside.
pub proof fn lemma_only_the_token_opens(token: Seq<char>, header: Seq<char>, presented: Seq<char>)
    requires
        token.len() > 0,
    ensures
        is_authorized(Some(token), Some(header)) <==> exists|rest: Seq<char>|
            header == #[trigger] ("Bearer "@ + rest) && trimmed(rest) == token,
        is_authorized(Some(token), Some("Bearer "@ + presented)) <==> trimmed(presented) == token,
{
    let scheme = "Bearer "@;
    lemma_trim_empty();
    let given = scheme + presented;
    assert(given.subrange(0, scheme.len() as int) =~= scheme);
    assert(given.subrange(scheme.len() as int, given.len() as int) =~= presented);
    if is_authorized(Some(token), Some(header)) {
        let rest = header.subrange(scheme.len() as int, header.len() as int);
        assert(header =~= scheme + rest);
    }
    if exists|rest: Seq<char>| header == #[trigger] ("Bearer "@ + rest) && trimmed(rest) == token {
        let rest = choose|rest: Seq<char>|
            header == #[trigger] ("Bearer "@ + rest) && trimmed(rest) == token;
        assert(header.subrange(0, scheme.len() as int) =~= scheme);
        assert(header.subrange(scheme.len() as int, header.len() as int) =~= rest);
    }
}

proof fn lemma_trim_empty()
    ensures
        trimmed(""@).len() == 0,
{
    reveal_strlit("");
    assert(""@.len() == 0);
    assert(""@ =~= seq![]);
    lemma_trimming(seq![], seq![], seq![]);
    assert(Seq::<char>::empty() + Seq::<char>::empty() + Seq::<char>::empty() =~= ""@);
}

/// A refusal is an error without an id or a result.
pub proof fn lemma_refusals(reason: Seq<char>)
    ensures
        unauthorized().id is None && unauthorized().result is None,
        unauthorized().error matches Some(e) && e.code == -32001,
        unreadable(reason).id is None && unreadable(reason).result is None,
        unreadable(reason).error matches Some(e) && e.code == -32700 && ends_in(e.message, reason),
{
    let head = "could not read the request body: "@;
    let message = head + reason;
    assert(message.skip(head.len() as int) =~= reason);
}

/// Whether a message ends in the reason for it.
pub open spec fn ends_in(message: Seq<char>, reason: Seq<char>) -> bool {
    reason.len() <= message.len() && message.skip(message.len() - reason.len()) == reason
}

/// A body is taken as the request that it holds; one that is not JSON is a bad
/// request, and one that is JSON but no request cannot be processed.
pub proof fn lemma_bodies(parsed: Result<JsonView, Seq<char>>)
    ensures
        match request_in(parsed) {
            Ok(request) => parsed matches Ok(value) && decoded_request(value) == Ok::<
                RequestView,
                Seq<char>,
            >(request),
            Err((status, response)) => {
                &&& response.error is Some && response.result is None
                &&& parsed is Err ==> status == 400
                &&& parsed matches Ok(value) ==> status == 422 && decoded_request(value) is Err
            },
        },
{
}

/// The address is the one that was asked for, and else the host and the port of the
/// configuration with a colon between them.
pub proof fn lemma_address(server: ServerConfigView, bind: Option<Seq<char>>)
    ensures
        match bind {
            Some(address) => serve_address(server, bind) == address,
            None => {
                let address = serve_address(server, bind);
                let n = server.host.len() as int;
                &&& address.len() > n
                &&& address.take(n) == server.host
                &&& address[n] == ':'
                &&& address.skip(n + 1) == decimal(server.port as nat)
            },
        },
{
    reveal_strlit(":");
    let address = serve_address(server, bind);
    let n = server.host.len() as int;
    if bind is None {
        assert(":"@.len() == 1 && ":"@[0] == ':');
        assert(address.take(n) =~= server.host);
        assert(address.skip(n + 1) =~= decimal(server.port as nat));
    }
}

/// The origins that are let in are those of the configuration that can stand in a
/// header; where all can, they are all of them.
pub proof fn lemma_origins(listed: Seq<Seq<char>>, origin: Seq<char>)
    ensures
        usable_origins(listed).contains(origin) <==> listed.contains(origin) && is_header_value(
            origin,
        ),
        (forall|k: int| 0 <= k < listed.len() ==> is_header_value(#[trigger] listed[k]))
            ==> usable_origins(listed) == listed,
{
    lemma_filtered(listed, |origin: Seq<char>| is_header_value(origin));
}

/// A healthy gateway says so, with its version.
pub proof fn lemma_health()
    ensures
        health_json().field("status"@) == Some(JsonView::Text("ok"@)),
        health_json().field("version"@) == Some(JsonView::Text(crate::VERSION@)),
{
    reveal_strlit("status");
    reveal_strlit("version");
    assert("status"@.len() == 6);
    assert("version"@.len() == 7);
}

/// A server without a token is started only where that is asked for; one with a token
/// keeps it, and both keep the origins and the size that the configuration gives.
pub proof fn lemma_serving(
    server: ServerConfig,
    bind: Option<String>,
    open: bool,
    plan: Result<ServePlan, StartupError>,
)
    requires
        call_ensures(plan_serve, (&server, &bind, open), plan),
    ensures
        plan is Err <==> usable_token(server@.auth_token) is None && !open,
        plan matches Ok(plan) ==> {
            &&& opt_view(plan.http.token) == usable_token(server@.auth_token)
            &&& plan.http.token is None ==> open
            &&& views(plan.http.allowed_origins@) == server@.allowed_origins
            &&& plan.http.max_body_bytes == server@.max_body_bytes
        },
{
}

} // verus!
