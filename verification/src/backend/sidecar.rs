//! Supervised child-process MCP servers speaking JSON-RPC over stdio.
//!
//! Requests carry monotonic ids, and every line that a child writes is matched
//! to the request it answers by that id alone. A log line, a notification or an
//! answer out of order is discarded and never shifts a later answer. Sidecars
//! are started one by one, under a deadline, and restarted where the
//! configuration says so.

use std::collections::HashSet;
use vstd::prelude::*;

use super::{BackendStatus, BackendStatusView};
use crate::config::interpolate::Environment;
use crate::config::model::{dup_texts, SidecarConfig, SidecarConfigView};
use crate::error::{tool_result, ToolError, ToolErrorView, ToolResult};
use crate::json::{compact_json, json_number, parse_view, parsed_json, writes, Json, JsonView};
use crate::protocol::jsonrpc::{
    RequestView, Response, ResponseView, decoded_request, decoded_response,
};
use crate::protocol::version::LATEST;
use crate::text::{
    blank, cat2, cat3, contains, decimal, decimal_text, is_blank, lemma_contains, opt_view, views,
};
use crate::time::Duration;

verus! {

broadcast use vstd::std_specs::hash::group_hash_axioms;

/// The requests that were sent to one child and not answered yet.
pub struct Connection {
    pending: HashSet<u64>,
    next_id: u64,
    alive: bool,
}

/// What a [`Connection`] holds.
#[verifier::ext_equal]
pub struct ConnectionView {
    /// The ids that wait for an answer.
    pub pending: Set<u64>,
    /// The id of the next request.
    pub next_id: u64,
    /// Whether the child still answers.
    pub alive: bool,
}

impl View for Connection {
    type V = ConnectionView;

    closed spec fn view(&self) -> ConnectionView {
        ConnectionView { pending: self.pending@, next_id: self.next_id, alive: self.alive }
    }
}

impl ConnectionView {
    /// Ids are handed out in order, so that none that waits is handed out again.
    pub open spec fn wf(self) -> bool {
        forall|id: u64| #[trigger] self.pending.contains(id) ==> id < self.next_id
    }

    /// The request that a response answers, and the answer, if one waits for it.
    pub open spec fn matched(self, response: Option<ResponseView>) -> Option<(u64, ResponseView)> {
        match numbered(response) {
            Some((id, response)) => if self.pending.contains(id) {
                Some((id, response))
            } else {
                None
            },
            None => None,
        }
    }

    /// The connection once a response was taken in.
    pub open spec fn after_response(self, response: Option<ResponseView>) -> ConnectionView {
        match self.matched(response) {
            Some((id, _)) => ConnectionView { pending: self.pending.remove(id), ..self },
            None => self,
        }
    }

    /// The request that a line answers, and the answer, if one waits for it.
    pub open spec fn delivered(self, line: Seq<char>) -> Option<(u64, ResponseView)> {
        self.matched(line_response(line))
    }

    /// The connection once a line was read.
    pub open spec fn after_line(self, line: Seq<char>) -> ConnectionView {
        self.after_response(line_response(line))
    }

    /// The connection once the next id was taken.
    pub open spec fn after_request(self) -> ConnectionView {
        ConnectionView {
            pending: self.pending.insert(self.next_id),
            next_id: if self.next_id == u64::MAX {
                0
            } else {
                (self.next_id + 1) as u64
            },
            alive: self.alive,
        }
    }

    /// The connection once nothing will be answered any more.
    pub open spec fn failed(self) -> ConnectionView {
        ConnectionView { pending: Set::empty(), alive: false, ..self }
    }
}

/// The envelope of a request.
pub open spec fn request_envelope(id: u64, method: Seq<char>, params: Option<JsonView>) -> JsonView {
    JsonView::object().with("jsonrpc"@, JsonView::Text("2.0"@)).with("id"@, json_number(id)).with(
        "method"@,
        JsonView::Text(method),
    ).with(
        "params"@,
        match params {
            Some(params) => params,
            None => JsonView::Null,
        },
    )
}

/// The envelope of a notification, which by definition receives no reply.
pub open spec fn notification_envelope(method: Seq<char>) -> JsonView {
    JsonView::object().with("jsonrpc"@, JsonView::Text("2.0"@)).with(
        "method"@,
        JsonView::Text(method),
    )
}

/// The line that carries an envelope.
pub open spec fn framed(envelope: JsonView) -> Seq<char> {
    compact_json(envelope) + "\n"@
}

/// The line that carries an envelope: the only line break is the one at its end,
/// and what stands before it is read as the envelope.
pub fn frame(envelope: &Json) -> (r: String)
    ensures
        r@ == framed(envelope@),
        r@.last() == '\n',
        writes(r@.drop_last(), envelope@),
{
    let text = envelope.compact();
    let line = cat2(&text, "\n");
    proof {
        reveal_strlit("\n");
        assert(line@.drop_last() =~= text@);
    }
    line
}

/// The line of a notification.
pub fn notification_line(method: &str) -> (r: String)
    ensures
        r@ == framed(notification_envelope(method@)),
{
    frame(
        &Json::object().with("jsonrpc", Json::string("2.0")).with("method", Json::string(method)),
    )
}

/// Whether a value can write a response: an object that has a result or an error,
/// or an array of the fields. A request of the child's own is neither.
pub open spec fn has_outcome(value: JsonView) -> bool {
    value is Array || value.field("result"@) is Some || value.field("error"@) is Some
}

/// The response in what was read as JSON, if any.
pub open spec fn answer_in(parsed: Result<JsonView, Seq<char>>) -> Option<ResponseView> {
    match parsed {
        Err(_) => None,
        Ok(value) => if !has_outcome(value) {
            None
        } else {
            match decoded_response(value) {
                Ok(response) => Some(response),
                Err(_) => None,
            }
        },
    }
}

/// The response that a line of a child's output carries, if any.
pub open spec fn line_response(line: Seq<char>) -> Option<ResponseView> {
    if is_blank(line) {
        None
    } else {
        answer_in(parsed_json(line))
    }
}

/// Takes the response out of what was read as JSON, where it is one.
pub fn read_answer(parsed: Result<Json, String>) -> (r: Option<Response>)
    ensures
        opt_view(r) == answer_in(parse_view(parsed)),
{
    match parsed {
        Err(_) => None,
        Ok(value) => {
            let is_array: bool = match &value {
                Json::Array(_) => true,
                _ => false,
            };
            if !is_array && value.get("result").is_none() && value.get("error").is_none() {
                return None;
            }
            match Response::from_json(&value) {
                Ok(response) => Some(response),
                Err(_) => None,
            }
        },
    }
}

/// A response with its numeric id, if it has one.
pub open spec fn numbered(response: Option<ResponseView>) -> Option<(u64, ResponseView)> {
    match response {
        None => None,
        Some(response) => match response.id {
            None => None,
            Some(id) => match id.unsigned() {
                Some(id) => Some((id, response)),
                None => None,
            },
        },
    }
}

/// The response with a numeric id that a line of a child's output carries.
/// Anything else — a log line, a notification, a request of the child's own —
/// is noise.
pub open spec fn answered(line: Seq<char>) -> Option<(u64, ResponseView)> {
    numbered(line_response(line))
}

impl Connection {
    /// A connection to a child that has not been asked anything.
    pub fn new() -> (r: Connection)
        ensures
            r@ == (ConnectionView { pending: Set::empty(), next_id: 1, alive: true }),
            r@.wf(),
    {
        Connection { pending: HashSet::new(), next_id: 1, alive: true }
    }

    /// Whether the child still answers.
    pub fn is_alive(&self) -> (r: bool)
        ensures
            r == self@.alive,
    {
        self.alive
    }

    /// Takes the next id for a request, and gives the line to send.
    pub fn begin(&mut self, method: &str, params: Option<Json>) -> (r: (u64, String))
        ensures
            final(self)@ == old(self)@.after_request(),
            r.0 == old(self)@.next_id,
            r.1@ == framed(request_envelope(r.0, method@, opt_view(params))),
            writes(r.1@.drop_last(), request_envelope(r.0, method@, opt_view(params))),
    {
        let id: u64 = self.next_id;
        self.next_id = if id == u64::MAX {
            0
        } else {
            id + 1
        };
        self.pending.insert(id);
        let envelope = Json::object().with("jsonrpc", Json::string("2.0")).with(
            "id",
            Json::number(id),
        ).with("method", Json::string(method)).with(
            "params",
            match params {
                Some(params) => params,
                None => Json::Null,
            },
        );
        (id, frame(&envelope))
    }

    /// The request with this id will not be answered.
    pub fn abandon(&mut self, id: u64)
        ensures
            final(self)@ == (ConnectionView {
                pending: old(self)@.pending.remove(id),
                ..old(self)@
            }),
    {
        self.pending.remove(&id);
    }

    /// Nothing will be answered any more.
    pub fn fail_all(&mut self)
        ensures
            final(self)@ == old(self)@.failed(),
    {
        self.alive = false;
        self.pending.clear();
    }

    /// Matches a line of the child's output to the request it answers, if any
    /// waits for it.
    pub fn receive(&mut self, line: &str) -> (r: Option<(u64, Response)>)
        ensures
            match r {
                Some(got) => old(self)@.delivered(line@) == Some((got.0, got.1@)),
                None => old(self)@.delivered(line@) is None,
            },
            final(self)@ == old(self)@.after_line(line@),
    {
        if blank(line) {
            return None;
        }
        self.accept(read_answer(Json::parse(line)))
    }

    /// Matches what was read from a line to the request it answers, if any waits
    /// for it.
    pub fn accept(&mut self, response: Option<Response>) -> (r: Option<(u64, Response)>)
        ensures
            match r {
                Some(got) => old(self)@.matched(opt_view(response)) == Some((got.0, got.1@)),
                None => old(self)@.matched(opt_view(response)) is None,
            },
            final(self)@ == old(self)@.after_response(opt_view(response)),
    {
        // Anything that is not a well-formed response with a numeric id is
        // diagnostic noise. Skipping it keeps the stream in sync.
        let response = match response {
            None => {
                return None;
            },
            Some(response) => response,
        };
        let id: u64 = match &response.id {
            None => {
                return None;
            },
            Some(id) => match id.as_unsigned() {
                None => {
                    return None;
                },
                Some(id) => id,
            },
        };
        if self.pending.contains(&id) {
            self.pending.remove(&id);
            Some((id, response))
        } else {
            None
        }
    }
}

/// What the caller of a request gets: the answer, or an error where the child
/// went away.
pub open spec fn request_outcome(response: Option<ResponseView>) -> Result<
    JsonView,
    ToolErrorView,
> {
    match response {
        Some(response) => match response.outcome() {
            Ok(value) => Ok(value),
            Err(err) => Err(ToolErrorView::Failed(err.message)),
        },
        None => Err(
            ToolErrorView::Failed("sidecar closed the connection before responding"@),
        ),
    }
}

/// What the caller of a request gets.
pub fn finish_request(response: Option<Response>) -> (r: ToolResult<Json>)
    ensures
        tool_result(r) == request_outcome(opt_view(response)),
{
    match response {
        Some(response) => match response.into_result() {
            Ok(value) => Ok(value),
            Err(err) => Err(ToolError::Failed(err.message)),
        },
        None => Err(
            ToolError::Failed("sidecar closed the connection before responding".to_owned()),
        ),
    }
}

/// The parameters of the MCP handshake.
pub open spec fn initialize_params() -> JsonView {
    JsonView::object().with("protocolVersion"@, JsonView::Text(LATEST@)).with(
        "capabilities"@,
        JsonView::object().with(
            "roots"@,
            JsonView::object().with("listChanged"@, JsonView::Bool(false)),
        ),
    ).with(
        "clientInfo"@,
        JsonView::object().with("name"@, JsonView::Text("omni-mcp"@)).with(
            "version"@,
            JsonView::Text(crate::VERSION@),
        ),
    )
}

/// The parameters of the MCP handshake.
pub fn handshake_params() -> (r: Json)
    ensures
        r@ == initialize_params(),
{
    Json::object().with("protocolVersion", Json::string(LATEST)).with(
        "capabilities",
        Json::object().with("roots", Json::object().with("listChanged", Json::Bool(false))),
    ).with(
        "clientInfo",
        Json::object().with("name", Json::string("omni-mcp")).with(
            "version",
            Json::string(crate::VERSION),
        ),
    )
}

/// What to do for a caller that needs a connection.
#[derive(Debug, PartialEq)]
pub enum ConnectPlan {
    /// Use the connection that is there.
    Reuse,
    /// Refuse: the child is gone and is not to be restarted.
    Refuse(ToolError),
    /// Start the child.
    Spawn,
}

/// How starting a child went.
#[derive(Debug, PartialEq)]
pub enum StartOutcome {
    /// The handshake is done.
    Connected,
    /// The child could not be started, or refused the handshake.
    Failed(ToolError),
    /// The handshake was not done in time.
    TimedOut,
}

/// The command line of a child.
#[derive(Debug, PartialEq)]
pub struct SpawnPlan {
    pub program: String,
    pub args: Vec<String>,
    /// Whether the child starts without the variables of its parent.
    pub clear_env: bool,
    /// Variables set for the child; of two with one name the later counts.
    pub env: Vec<(String, String)>,
    pub cwd: Option<String>,
}

/// What a [`SpawnPlan`] says.
#[verifier::ext_equal]
pub struct SpawnPlanView {
    pub program: Seq<char>,
    pub args: Seq<Seq<char>>,
    pub clear_env: bool,
    pub env: Seq<(Seq<char>, Seq<char>)>,
    pub cwd: Option<Seq<char>>,
}

impl View for SpawnPlan {
    type V = SpawnPlanView;

    open spec fn view(&self) -> SpawnPlanView {
        SpawnPlanView {
            program: self.program@,
            args: views(self.args@),
            clear_env: self.clear_env,
            env: views(self.env@),
            cwd: opt_view(self.cwd),
        }
    }
}

/// The variables among `names` that are set, with their values.
pub open spec fn passed_through(names: Seq<Seq<char>>, env: Environment) -> Seq<
    (Seq<char>, Seq<char>),
>
    decreases names.len(),
{
    if names.len() == 0 {
        seq![]
    } else {
        let front = passed_through(names.drop_last(), env);
        match env.value(names.last()) {
            Some(value) => front.push((names.last(), value)),
            None => front,
        }
    }
}

/// How a child is started: with the whole environment of its parent, or with
/// nothing of it but the listed variables; the configured ones come on top.
pub open spec fn planned_spawn(config: SidecarConfigView, env: Environment) -> SpawnPlanView {
    SpawnPlanView {
        program: config.command,
        args: config.args,
        clear_env: config.inherit_env is Some,
        env: match config.inherit_env {
            Some(names) => passed_through(names, env) + config.env,
            None => config.env,
        },
        cwd: config.cwd,
    }
}

/// A supervised child, and what is known of it.
pub struct SidecarBackend {
    pub config: SidecarConfig,
    pub last_error: Option<String>,
}

/// The error that says that the sidecar called `name` is unavailable.
pub open spec fn unavailable_view(name: Seq<char>, reason: Seq<char>) -> ToolErrorView {
    ToolErrorView::Unavailable { backend: name, reason }
}

/// The reason for a start that took too long.
pub open spec fn start_timeout_reason(millis: nat) -> Seq<char> {
    "did not complete MCP initialize within "@ + decimal(millis / 1000) + "s"@
}

impl SidecarBackend {
    /// A sidecar that was never started.
    pub fn new(config: SidecarConfig) -> (r: SidecarBackend)
        ensures
            r.config == config,
            r.last_error is None,
    {
        SidecarBackend { config, last_error: None }
    }

    /// The configuration of the sidecar.
    pub fn config(&self) -> (r: &SidecarConfig)
        ensures
            *r == self.config,
    {
        &self.config
    }

    /// The error that says that this sidecar is unavailable.
    pub fn unavailable(&self, reason: &str) -> (r: ToolError)
        ensures
            r@ == unavailable_view(self.config.name@, reason@),
    {
        ToolError::Unavailable { backend: self.config.name.clone(), reason: reason.to_owned() }
    }

    /// Whether a caller can use the connection that is there, or a new one has
    /// to be made. `existing` says whether the child of a connection that is
    /// there still answers.
    pub fn plan_connect(&self, existing: Option<bool>) -> (r: ConnectPlan)
        ensures
            match existing {
                Some(true) => r is Reuse,
                Some(false) => if self.config.restart_on_failure {
                    r is Spawn
                } else {
                    r matches ConnectPlan::Refuse(err) && err@ == unavailable_view(
                        self.config.name@,
                        "process exited and restart_on_failure is false"@,
                    )
                },
                None => r is Spawn,
            },
    {
        match existing {
            Some(alive) => if alive {
                ConnectPlan::Reuse
            } else if !self.config.restart_on_failure {
                ConnectPlan::Refuse(
                    self.unavailable("process exited and restart_on_failure is false"),
                )
            } else {
                ConnectPlan::Spawn
            },
            None => ConnectPlan::Spawn,
        }
    }

    /// The command line of the child.
    pub fn spawn_plan(&self, env: &Environment) -> (r: SpawnPlan)
        ensures
            r@ == planned_spawn(self.config@, *env),
    {
        let mut vars: Vec<(String, String)> = Vec::new();
        assert(views(vars@) =~= seq![]);
        let clear_env: bool = match &self.config.inherit_env {
            Some(names) => {
                let ghost all = views(names@);
                let mut i: usize = 0;
                assert(all.take(0) =~= seq![]);
                while i < names.len()
                    invariant
                        0 <= i <= names@.len(),
                        all == views(names@),
                        views(vars@) == passed_through(all.take(i as int), *env),
                    decreases names@.len() - i,
                {
                    let ghost before = vars@;
                    assert(all.take(i + 1).drop_last() =~= all.take(i as int));
                    assert(all.take(i + 1).last() == names@[i as int]@);
                    match env.lookup(&names[i]) {
                        Some(value) => {
                            vars.push((names[i].clone(), value.clone()));
                            assert(views(vars@) =~= views(before).push(
                                (names@[i as int]@, value@),
                            ));
                        },
                        None => {},
                    }
                    i += 1;
                }
                assert(all.take(i as int) =~= all);
                true
            },
            None => false,
        };
        let ghost front = views(vars@);
        let mut j: usize = 0;
        assert(views(self.config.env@).take(0) =~= seq![]);
        assert(front + views(self.config.env@).take(0) =~= front);
        while j < self.config.env.len()
            invariant
                0 <= j <= self.config.env@.len(),
                views(vars@) == front + views(self.config.env@).take(j as int),
            decreases self.config.env@.len() - j,
        {
            let ghost before = vars@;
            vars.push((self.config.env[j].0.clone(), self.config.env[j].1.clone()));
            proof {
                let item = self.config.env@[j as int]@;
                assert(views(vars@) =~= views(before).push(item));
                assert(views(self.config.env@).take(j + 1) =~= views(self.config.env@).take(
                    j as int,
                ).push(item));
                assert((front + views(self.config.env@).take(j as int)).push(item) =~= front
                    + views(self.config.env@).take(j + 1));
            }
            j += 1;
        }
        proof {
            assert(views(self.config.env@).take(j as int) =~= views(self.config.env@));
            assert(seq![] + views(self.config.env@) =~= views(self.config.env@));
        }
        SpawnPlan {
            program: self.config.command.clone(),
            args: dup_texts(&self.config.args),
            clear_env,
            env: vars,
            cwd: match &self.config.cwd {
                Some(cwd) => Some(cwd.clone()),
                None => None,
            },
        }
    }

    /// Remembers how a start went, and says what the caller gets.
    pub fn started(&mut self, outcome: StartOutcome) -> (r: ToolResult<()>)
        ensures
            final(self).config == old(self).config,
            match outcome {
                StartOutcome::Connected => r is Ok && final(self).last_error is None,
                StartOutcome::Failed(err) => {
                    &&& r matches Err(e)
                    &&& e@ == err@
                    &&& opt_view(final(self).last_error) == Some(err@.message())
                },
                StartOutcome::TimedOut => {
                    let reason = start_timeout_reason(old(self).config.startup_timeout@);
                    &&& r matches Err(e)
                    &&& e@ == unavailable_view(old(self).config.name@, reason)
                    &&& opt_view(final(self).last_error) == Some(reason)
                },
            },
    {
        match outcome {
            StartOutcome::Connected => {
                self.last_error = None;
                Ok(())
            },
            StartOutcome::Failed(err) => {
                self.last_error = Some(err.message());
                Err(err)
            },
            StartOutcome::TimedOut => {
                let reason = cat3(
                    "did not complete MCP initialize within ",
                    &decimal_text(self.config.startup_timeout.get().as_secs()),
                    "s",
                );
                let err = self.unavailable(&reason);
                self.last_error = Some(reason);
                Err(err)
            },
        }
    }

    /// How the sidecar is doing, as far as is known without starting it.
    /// `existing` says whether the child of a connection that is there still
    /// answers.
    pub fn status(&self, existing: Option<bool>) -> (r: BackendStatus)
        ensures
            r@ == match opt_view(self.last_error) {
                Some(err) => BackendStatusView::Failed(err),
                None => match existing {
                    Some(true) => BackendStatusView::Ready,
                    Some(false) => BackendStatusView::Failed("process exited"@),
                    None => BackendStatusView::Idle,
                },
            },
    {
        match &self.last_error {
            Some(err) => BackendStatus::Failed(err.clone()),
            None => match existing {
                Some(alive) => if alive {
                    BackendStatus::Ready
                } else {
                    BackendStatus::Failed("process exited".to_owned())
                },
                None => BackendStatus::Idle,
            },
        }
    }
}

/// The error of a call that took longer than `timeout`.
pub fn timed_out(tool: &str, timeout: &Duration) -> (r: ToolError)
    ensures
        r@ == (ToolErrorView::Timeout { tool: tool@, seconds: (timeout@ / 1000) as u64 }),
{
    ToolError::Timeout { tool: tool.to_owned(), seconds: timeout.as_secs() }
}

/// A line that answers nothing that waits is noise: it changes nothing, so
/// that every later line is matched as if it had not been there.
pub proof fn lemma_noise_keeps_the_stream_in_sync(
    before: ConnectionView,
    noise: Seq<char>,
    later: Seq<char>,
)
    requires
        before.delivered(noise) is None,
    ensures
        before.after_line(noise) == before,
        before.after_line(noise).delivered(later) == before.delivered(later),
{
}

/// A request of the child's own is noise, even under an id that waits for its
/// answer.
pub proof fn lemma_requests_of_the_child_are_noise(
    before: ConnectionView,
    line: Seq<char>,
    value: JsonView,
)
    requires
        parsed_json(line) == Ok::<JsonView, Seq<char>>(value),
        !has_outcome(value),
    ensures
        before.delivered(line) is None,
        before.after_line(line) == before,
{
}

/// Answers may come in any order: an answer to one request neither consumes nor
/// changes the answer to another.
pub proof fn lemma_answers_in_any_order(
    before: ConnectionView,
    first: Seq<char>,
    second: Seq<char>,
)
    requires
        before.delivered(first) matches Some((a, _)) && before.delivered(second) matches Some(
            (b, _),
        ) && a != b,
    ensures
        before.after_line(first).delivered(second) == before.delivered(second),
        before.after_line(second).delivered(first) == before.delivered(first),
        before.after_line(first).after_line(second) =~= before.after_line(second).after_line(
            first,
        ),
{
}

/// An answer is delivered once: the same line again is noise.
pub proof fn lemma_answer_is_delivered_once(before: ConnectionView, line: Seq<char>)
    ensures
        before.after_line(line).delivered(line) is None,
{
}

/// A connection never hands out an id that still waits for its answer, as long
/// as there are ids left: whatever is done to it, all ids that wait were handed
/// out before the next one.
pub proof fn lemma_ids_are_fresh(before: ConnectionView, line: Seq<char>, id: u64)
    requires
        before.wf(),
    ensures
        !before.pending.contains(before.next_id),
        before.next_id < u64::MAX ==> before.after_request().wf(),
        before.after_line(line).wf(),
        (ConnectionView { pending: before.pending.remove(id), ..before }).wf(),
        before.failed().wf(),
{
}

/// A child that is told which variables it may see gets those, what the
/// configuration sets, and nothing else.
pub proof fn lemma_listed_environment_only(config: SidecarConfigView, env: Environment)
    requires
        config.inherit_env is Some,
    ensures
        planned_spawn(config, env).clear_env,
        forall|k: int|
            0 <= k < planned_spawn(config, env).env.len() ==> config.inherit_env->0.contains(
                (#[trigger] planned_spawn(config, env).env[k]).0,
            ) || config.env.contains(planned_spawn(config, env).env[k]),
{
    let names = config.inherit_env->0;
    lemma_passed_through(names, env);
    let front = passed_through(names, env);
    let all = planned_spawn(config, env).env;
    assert forall|k: int| 0 <= k < all.len() implies names.contains((#[trigger] all[k]).0)
        || config.env.contains(all[k]) by {
        if k < front.len() {
            assert(all[k] == front[k]);
        } else {
            assert(all[k] == config.env[k - front.len()]);
        }
    }
}

proof fn lemma_passed_through(names: Seq<Seq<char>>, env: Environment)
    ensures
        forall|k: int|
            0 <= k < passed_through(names, env).len() ==> names.contains(
                (#[trigger] passed_through(names, env)[k]).0,
            ),
    decreases names.len(),
{
    if names.len() > 0 {
        let shorter = names.drop_last();
        lemma_passed_through(shorter, env);
        let all = passed_through(names, env);
        let front = passed_through(shorter, env);
        assert forall|k: int| 0 <= k < all.len() implies names.contains((#[trigger] all[k]).0) by {
            if k < front.len() {
                assert(all[k] == front[k]);
                let j = choose|j: int| 0 <= j < shorter.len() && shorter[j] == front[k].0;
                assert(names[j] == front[k].0);
            } else {
                assert(names[names.len() - 1] == all[k].0);
            }
        }
    }
}

/// A sidecar is started as it is configured: its program, its arguments in order, its
/// directory, and its own variables last, where they win.
pub proof fn lemma_started_as_configured(config: SidecarConfigView, env: Environment)
    ensures
        ({
            let plan = planned_spawn(config, env);
            let own = config.env.len() as int;
            &&& plan.program == config.command
            &&& plan.args == config.args
            &&& plan.cwd == config.cwd
            &&& plan.env.len() >= own
            &&& plan.env.skip(plan.env.len() - own) == config.env
            &&& plan.clear_env <==> config.inherit_env is Some
            &&& config.inherit_env is None ==> plan.env == config.env
        }),
{
    let plan = planned_spawn(config, env);
    let own = config.env.len() as int;
    assert(plan.env.skip(plan.env.len() - own) =~= config.env);
}

/// Of the variables that a sidecar is to inherit it gets each that is set, with its
/// value, and no other.
pub proof fn lemma_inherited_variables(
    names: Seq<Seq<char>>,
    env: Environment,
    entry: (Seq<char>, Seq<char>),
)
    ensures
        passed_through(names, env).contains(entry) <==> names.contains(entry.0) && env.value(
            entry.0,
        ) == Some(entry.1),
        passed_through(names, env).len() <= names.len(),
    decreases names.len(),
{
    let whole = passed_through(names, env);
    if names.len() > 0 {
        let less = names.drop_last();
        let last = names.last();
        let end = names.len() - 1;
        let front = passed_through(less, env);
        lemma_inherited_variables(less, env, entry);
        assert(names[end] == last);
        if whole.contains(entry) {
            let i = choose|i: int| 0 <= i < whole.len() && whole[i] == entry;
            if i < front.len() {
                assert(front[i] == entry);
                assert(front.contains(entry));
                let k = choose|k: int| 0 <= k < less.len() && less[k] == entry.0;
                assert(names[k] == less[k]);
            } else {
                assert(entry.0 == last);
            }
        }
        if names.contains(entry.0) && env.value(entry.0) == Some(entry.1) {
            let k = choose|k: int| 0 <= k < names.len() && names[k] == entry.0;
            if k < end {
                assert(less[k] == names[k]);
                assert(less.contains(entry.0));
                let i = choose|i: int| 0 <= i < front.len() && front[i] == entry;
                assert(whole[i] == entry);
            } else {
                assert(whole[whole.len() - 1] == entry);
            }
        }
    }
}

/// A request is sent with its number, its method and its parameters, a notification
/// with its method alone and with no number; both say their version.
pub proof fn lemma_envelopes(id: u64, method: Seq<char>, params: Option<JsonView>, key: Seq<char>)
    ensures
        ({
            let request = request_envelope(id, method, params);
            &&& request.field("jsonrpc"@) == Some(JsonView::Text("2.0"@))
            &&& request.field("id"@) == Some(json_number(id))
            &&& request.field("method"@) == Some(JsonView::Text(method))
            &&& request.field("params"@) == Some(
                match params {
                    Some(params) => params,
                    None => JsonView::Null,
                },
            )
        }),
        ({
            let note = notification_envelope(method);
            &&& note.field("jsonrpc"@) == Some(JsonView::Text("2.0"@))
            &&& note.field("method"@) == Some(JsonView::Text(method))
            &&& key != "jsonrpc"@ && key != "method"@ ==> note.field(key) is None
        }),
{
    reveal_strlit("jsonrpc");
    reveal_strlit("id");
    reveal_strlit("method");
    reveal_strlit("params");
    assert("jsonrpc"@.len() == 7);
    assert("id"@.len() == 2);
    assert("method"@.len() == 6);
    assert("params"@.len() == 6);
    assert("method"@[0] == 'm');
    assert("params"@[0] == 'p');
}

/// A sidecar that reads what is sent to it as a request gets the request: its number,
/// its method, and its parameters where there are any.
pub proof fn lemma_sidecar_reads_the_request(
    id: u64,
    method: Seq<char>,
    params: Option<JsonView>,
)
    requires
        params != Some(JsonView::Null),
    ensures
        decoded_request(request_envelope(id, method, params)) == Ok::<RequestView, Seq<char>>(
            RequestView { jsonrpc: Some("2.0"@), id: Some(json_number(id)), method, params },
        ),
{
    lemma_envelopes(id, method, params, method);
}

/// A line on its way to a sidecar is one line: it ends there and nowhere before.
pub proof fn lemma_one_message_one_line(envelope: JsonView)
    requires
        writes(compact_json(envelope), envelope),
    ensures
        framed(envelope).last() == '\n',
        framed(envelope).drop_last() == compact_json(envelope),
        forall|i: int|
            0 <= i < framed(envelope).len() - 1 ==> (#[trigger] framed(envelope)[i]) != '\n',
{
    reveal_strlit("\n");
    let text = compact_json(envelope);
    assert(framed(envelope).drop_last() =~= text);
    assert forall|i: int| 0 <= i < framed(envelope).len() - 1 implies (
    #[trigger] framed(envelope)[i]) != '\n' by {
        assert(framed(envelope)[i] == text[i]);
        assert(text.contains(text[i]));
    }
}

/// A line answers a request exactly where it holds a response with that request's
/// number and the request still waits; then the response is delivered as it came and
/// the request waits no more. No other request is touched.
pub proof fn lemma_answers_find_their_request(before: ConnectionView, line: Seq<char>, other: u64)
    ensures
        match before.delivered(line) {
            Some((id, response)) => {
                &&& !is_blank(line)
                &&& parsed_json(line) matches Ok(value) && decoded_response(value) == Ok::<
                    ResponseView,
                    Seq<char>,
                >(response)
                &&& response.id == Some(json_number(id))
                &&& before.pending.contains(id)
                &&& !before.after_line(line).pending.contains(id)
                &&& other != id ==> (before.after_line(line).pending.contains(other)
                    <==> before.pending.contains(other))
            },
            None => before.after_line(line) == before,
        },
        before.after_line(line).next_id == before.next_id,
        before.after_line(line).alive == before.alive,
{
}

/// A response with the number of a request that waits is delivered.
pub proof fn lemma_waiting_requests_are_answered(
    before: ConnectionView,
    line: Seq<char>,
    response: ResponseView,
    id: u64,
)
    requires
        !is_blank(line),
        parsed_json(line) matches Ok(value) && has_outcome(value) && decoded_response(value) == Ok::<
            ResponseView,
            Seq<char>,
        >(response),
        response.id == Some(json_number(id)),
        before.pending.contains(id),
    ensures
        before.delivered(line) == Some((id, response)),
{
}

/// A new request waits under a number of its own, and those that wait go on waiting;
/// when the connection fails none waits and it is no longer alive.
pub proof fn lemma_requests_wait(before: ConnectionView, other: u64)
    ensures
        before.after_request().pending.contains(before.next_id),
        before.pending.contains(other) ==> before.after_request().pending.contains(other),
        before.after_request().pending.contains(other) ==> before.pending.contains(other) || other
            == before.next_id,
        before.after_request().alive == before.alive,
        before.after_request().next_id != before.next_id,
        !before.failed().alive,
        !before.failed().pending.contains(other),
{
}

/// A request comes to what its response says: the result, or the message of the error;
/// without a response it fails.
pub proof fn lemma_requests_are_concluded(response: ResponseView)
    ensures
        match (response.result, response.error) {
            (Some(value), None) => request_outcome(Some(response)) == Ok::<JsonView, ToolErrorView>(
                value,
            ),
            (_, Some(err)) => request_outcome(Some(response)) == Err::<JsonView, ToolErrorView>(
                ToolErrorView::Failed(err.message),
            ),
            (None, None) => request_outcome(Some(response)) matches Err(err) && err is Failed,
        },
        request_outcome(None) matches Err(err) && err is Failed,
{
}

/// The gateway greets a sidecar with the latest version that it speaks and with its
/// name.
pub proof fn lemma_sidecars_are_greeted()
    ensures
        initialize_params().field("protocolVersion"@) == Some(JsonView::Text("2025-06-18"@)),
        initialize_params().field("clientInfo"@) matches Some(info) && info.field("name"@) == Some(
            JsonView::Text("omni-mcp"@),
        ) && info.field("version"@) == Some(JsonView::Text(crate::VERSION@)),
        initialize_params().field("capabilities"@) is Some,
{
    reveal_strlit("protocolVersion");
    reveal_strlit("clientInfo");
    reveal_strlit("capabilities");
    reveal_strlit("name");
    reveal_strlit("version");
    assert("protocolVersion"@.len() == 15);
    assert("clientInfo"@.len() == 10);
    assert("capabilities"@.len() == 12);
    assert("name"@.len() == 4);
    assert("version"@.len() == 7);
}

/// A sidecar that was too slow is told with the seconds that it had.
pub proof fn lemma_slow_starts_are_told(millis: nat)
    ensures
        contains(start_timeout_reason(millis), decimal(millis / 1000) + "s"@),
{
    let front = "did not complete MCP initialize within "@;
    let middle = decimal(millis / 1000) + "s"@;
    lemma_contains(front, middle, seq![]);
    assert(front + middle + Seq::<char>::empty() =~= start_timeout_reason(millis));
}

/// A process that runs is used again. One that does not is started, unless it has ended
/// and may not be started again.
pub proof fn lemma_connecting(backend: SidecarBackend, existing: Option<bool>, plan: ConnectPlan)
    requires
        call_ensures(SidecarBackend::plan_connect, (&backend, existing), plan),
    ensures
        plan is Reuse <==> existing == Some(true),
        plan is Refuse <==> existing == Some(false) && !backend.config.restart_on_failure,
        plan matches ConnectPlan::Refuse(err) ==> (err@ matches ToolErrorView::Unavailable {
            backend: name,
            ..
        } && name == backend.config.name@),
{
}

/// A sidecar is ready while its process runs, idle before the first start, and failed
/// once that ended or could not be made.
pub proof fn lemma_sidecar_status(
    backend: SidecarBackend,
    existing: Option<bool>,
    status: BackendStatus,
)
    requires
        call_ensures(SidecarBackend::status, (&backend, existing), status),
    ensures
        status@ is Ready <==> backend.last_error is None && existing == Some(true),
        status@ is Idle <==> backend.last_error is None && existing is None,
        status@ is Failed <==> backend.last_error is Some || existing == Some(false),
        backend.last_error is Some ==> (status@ matches BackendStatusView::Failed(reason)
            && opt_view(backend.last_error) == Some(reason)),
{
}

/// A call that took too long is told with its name and the seconds that it had.
pub proof fn lemma_slow_calls_are_told(tool: &str, timeout: Duration, err: ToolError)
    requires
        call_ensures(timed_out, (tool, &timeout), err),
        timeout@ / 1000 <= u64::MAX,
    ensures
        err@ matches ToolErrorView::Timeout { tool: name, seconds } && name == tool@ && 1000
            * seconds <= timeout@ < 1000 * (seconds + 1),
{
}

/// What a sidecar sends counts as an answer where it has a result or an error, and is
/// delivered to the request that waits for it; a line that is blank, or holds neither,
/// is nothing.
pub proof fn lemma_what_counts_as_an_answer(
    before: ConnectionView,
    line: Seq<char>,
    value: JsonView,
    response: ResponseView,
    id: u64,
)
    requires
        parsed_json(line) == Ok::<JsonView, Seq<char>>(value),
        decoded_response(value) == Ok::<ResponseView, Seq<char>>(response),
        response.id == Some(json_number(id)),
        before.pending.contains(id),
    ensures
        !is_blank(line) && (value.field("result"@) is Some || value.field("error"@) is Some)
            ==> before.delivered(line) == Some((id, response)),
        !(value is Array) && value.field("result"@) is None && value.field("error"@) is None
            ==> before.delivered(line) is None,
        is_blank(line) ==> before.delivered(line) is None,
{
}

} // verus!
