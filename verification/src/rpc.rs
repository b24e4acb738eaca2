//! JSON-RPC over lines: one request, reply or notification per line. The
//! server routes requests; what needs a session is handed out as a task, and
//! its end is turned into the reply.

use vstd::prelude::*;

use crate::events::{AgentEvent, AgentEventView};
use crate::json::{json_parsed, json_printed, opt_str, parse, print, Json, JsonView};
use crate::text::{str_eq, trim, trim_string};
use crate::types::opt_view;

verus! {

/// The line is not JSON.
pub const PARSE_ERROR: i64 = -32700;

/// The request is not complete.
pub const INVALID_REQUEST: i64 = -32600;

pub const METHOD_NOT_FOUND: i64 = -32601;

pub const INVALID_PARAMS: i64 = -32602;

/// The session failed.
pub const SESSION_ERROR: i64 = -32001;

/// A prompt is running already.
pub const PROMPT_IN_FLIGHT: i64 = -32002;

/// The version that the server tells.
pub const VERSION: &'static str = "0.10.3";

// ---------- lines ----------

/// A number as JSON.
pub open spec fn int_json(n: i64) -> JsonView {
    if n < 0 {
        JsonView::Neg(n)
    } else {
        JsonView::Uint(n as u64)
    }
}

fn int_json_of(n: i64) -> (r: Json)
    ensures
        r@ == int_json(n),
{
    if n < 0 {
        Json::Neg(n)
    } else {
        Json::Uint(n as u64)
    }
}

pub open spec fn result_form(id: u64, result: JsonView) -> JsonView {
    JsonView::obj().with("jsonrpc"@, JsonView::Str("2.0"@)).with("id"@, JsonView::Uint(id)).with(
        "result"@,
        result,
    )
}

pub open spec fn error_form(id: Option<u64>, code: i64, message: Seq<char>) -> JsonView {
    JsonView::obj().with("jsonrpc"@, JsonView::Str("2.0"@)).with(
        "id"@,
        match id {
            Some(n) => JsonView::Uint(n),
            None => JsonView::Null,
        },
    ).with(
        "error"@,
        JsonView::obj().with("code"@, int_json(code)).with("message"@, JsonView::Str(message)),
    )
}

/// The line of a successful reply; it holds no line feed.
pub fn result_line(id: u64, result: Json) -> (r: String)
    ensures
        r@ == json_printed(result_form(id, result@)),
        !r@.contains('\n'),
{
    let j: Json = Json::obj().with("jsonrpc", Json::text("2.0")).with("id", Json::Uint(id)).with(
        "result",
        result,
    );
    print(&j)
}

/// The line of a failed reply; it holds no line feed.
pub fn error_line(id: Option<u64>, code: i64, message: &str) -> (r: String)
    ensures
        r@ == json_printed(error_form(id, code, message@)),
        !r@.contains('\n'),
{
    let id_json: Json = match id {
        Some(n) => Json::Uint(n),
        None => Json::Null,
    };
    let j: Json = Json::obj().with("jsonrpc", Json::text("2.0")).with("id", id_json).with(
        "error",
        Json::obj().with("code", int_json_of(code)).with("message", Json::text(message)),
    );
    print(&j)
}

/// The name and the data of an event.
pub open spec fn event_parts(e: AgentEventView) -> (Seq<char>, JsonView) {
    match e {
        AgentEventView::AgentStart => ("agent_start"@, JsonView::obj()),
        AgentEventView::MessageUpdate(t) => (
            "message_update"@,
            JsonView::obj().with("text"@, JsonView::Str(t)),
        ),
        AgentEventView::Thinking(t) => ("thinking"@, JsonView::obj().with("text"@, JsonView::Str(t))),
        AgentEventView::Evolved(t) => ("evolved"@, JsonView::obj().with("text"@, JsonView::Str(t))),
        AgentEventView::ToolCall { name, arguments } => (
            "tool_call"@,
            JsonView::obj().with("name"@, JsonView::Str(name)).with("arguments"@, JsonView::Str(arguments)),
        ),
        AgentEventView::ToolResult { name, output } => (
            "tool_result"@,
            JsonView::obj().with("name"@, JsonView::Str(name)).with("output"@, JsonView::Str(output)),
        ),
        AgentEventView::Steered(i) => ("steered"@, JsonView::obj().with("instruction"@, JsonView::Str(i))),
        AgentEventView::Done { final_text } => (
            "done"@,
            JsonView::obj().with("final_text"@, JsonView::Str(final_text)),
        ),
        AgentEventView::UsageUpdate(u) => (
            "usage_update"@,
            JsonView::obj().with("input_tokens"@, JsonView::Uint(u.input_tokens)).with(
                "output_tokens"@,
                JsonView::Uint(u.output_tokens),
            ).with("llm_calls"@, JsonView::Uint(u.llm_calls)),
        ),
        AgentEventView::Error(m) => ("error"@, JsonView::obj().with("message"@, JsonView::Str(m))),
    }
}

/// An event as JSON.
pub open spec fn event_form(e: AgentEventView) -> JsonView {
    JsonView::obj().with("type"@, JsonView::Str(event_parts(e).0)).with("data"@, event_parts(e).1)
}

pub fn event_json(event: &AgentEvent) -> (r: Json)
    ensures
        r@ == event_form(event@),
{
    let (name, data) = match event {
        AgentEvent::AgentStart => ("agent_start", Json::obj()),
        AgentEvent::MessageUpdate(t) => ("message_update", Json::obj().with("text", Json::text(t.as_str()))),
        AgentEvent::Thinking(t) => ("thinking", Json::obj().with("text", Json::text(t.as_str()))),
        AgentEvent::Evolved(t) => ("evolved", Json::obj().with("text", Json::text(t.as_str()))),
        AgentEvent::ToolCall { name, arguments } => (
            "tool_call",
            Json::obj().with("name", Json::text(name.as_str())).with("arguments", Json::text(arguments.as_str())),
        ),
        AgentEvent::ToolResult { name, output } => (
            "tool_result",
            Json::obj().with("name", Json::text(name.as_str())).with("output", Json::text(output.as_str())),
        ),
        AgentEvent::Steered(i) => ("steered", Json::obj().with("instruction", Json::text(i.as_str()))),
        AgentEvent::Done { final_text } => (
            "done",
            Json::obj().with("final_text", Json::text(final_text.as_str())),
        ),
        AgentEvent::UsageUpdate(u) => (
            "usage_update",
            Json::obj().with("input_tokens", Json::Uint(u.input_tokens)).with(
                "output_tokens",
                Json::Uint(u.output_tokens),
            ).with("llm_calls", Json::Uint(u.llm_calls)),
        ),
        AgentEvent::Error(m) => ("error", Json::obj().with("message", Json::text(m.as_str()))),
    };
    Json::obj().with("type", Json::text(name)).with("data", data)
}

/// The line that tells of an event; it has no id and holds no line feed.
pub fn event_notification(event: &AgentEvent) -> (r: String)
    ensures
        r@ == json_printed(
            JsonView::obj().with("jsonrpc"@, JsonView::Str("2.0"@)).with("method"@, JsonView::Str("event"@)).with(
                "params"@,
                event_form(event@),
            ),
        ),
        !r@.contains('\n'),
{
    let j: Json = Json::obj().with("jsonrpc", Json::text("2.0")).with("method", Json::text("event")).with(
        "params",
        event_json(event),
    );
    print(&j)
}

// ---------- the server ----------

/// What the driver does with a request.
#[derive(Debug, PartialEq, Eq)]
pub enum RpcOutcome {
    /// Write this line.
    Line(String),
    /// Run this prompt.
    PendingPrompt { id: u64, input: String },
    /// Write this line and end.
    Shutdown(String),
    /// Write nothing.
    Nothing,
    /// Do this and hand the result back.
    Task(RpcTask),
}

/// Work on sessions that a request asks for.
#[derive(Debug, PartialEq, Eq)]
pub enum RpcTask {
    /// Create a session.
    Initialize { id: u64 },
    /// Create a session for a prompt that waits.
    CreateForPrompt { id: u64, input: String },
    /// Hand words to the running prompt, or to the idle session.
    Steer { id: u64, instruction: String, running: bool },
    /// Empty the session, after creating it where there is none.
    Reset { id: u64, create: bool },
    Branch { id: u64, parent_id: String, upto: Option<usize> },
    Resume { id: u64, session_id: String },
}

/// What an outcome holds.
pub enum OutcomeView {
    Line(Seq<char>),
    PendingPrompt { id: u64, input: Seq<char> },
    Shutdown(Seq<char>),
    Nothing,
    Initialize { id: u64 },
    CreateForPrompt { id: u64, input: Seq<char> },
    Steer { id: u64, instruction: Seq<char>, running: bool },
    Reset { id: u64, create: bool },
    Branch { id: u64, parent_id: Seq<char>, upto: Option<usize> },
    Resume { id: u64, session_id: Seq<char> },
}

impl View for RpcOutcome {
    type V = OutcomeView;

    open spec fn view(&self) -> OutcomeView {
        match *self {
            RpcOutcome::Line(l) => OutcomeView::Line(l@),
            RpcOutcome::PendingPrompt { id, input } => OutcomeView::PendingPrompt { id, input: input@ },
            RpcOutcome::Shutdown(l) => OutcomeView::Shutdown(l@),
            RpcOutcome::Nothing => OutcomeView::Nothing,
            RpcOutcome::Task(t) => match t {
                RpcTask::Initialize { id } => OutcomeView::Initialize { id },
                RpcTask::CreateForPrompt { id, input } => OutcomeView::CreateForPrompt { id, input: input@ },
                RpcTask::Steer { id, instruction, running } => OutcomeView::Steer {
                    id,
                    instruction: instruction@,
                    running,
                },
                RpcTask::Reset { id, create } => OutcomeView::Reset { id, create },
                RpcTask::Branch { id, parent_id, upto } => OutcomeView::Branch {
                    id,
                    parent_id: parent_id@,
                    upto,
                },
                RpcTask::Resume { id, session_id } => OutcomeView::Resume { id, session_id: session_id@ },
            },
        }
    }
}

/// What the server knows: whether there is a session, whether a prompt runs
/// and takes words in between, and where the configuration is.
pub struct RpcState {
    pub session: bool,
    pub in_flight: bool,
    pub steering: bool,
    pub config_path: Option<Seq<char>>,
}

/// The server.
pub struct RpcServer {
    session: bool,
    in_flight: bool,
    steering: bool,
    config_path: Option<String>,
}

pub open spec fn refused(id: Option<u64>, code: i64, message: Seq<char>) -> OutcomeView {
    OutcomeView::Line(json_printed(error_form(id, code, message)))
}

pub open spec fn replied(id: u64, result: JsonView) -> OutcomeView {
    OutcomeView::Line(json_printed(result_form(id, result)))
}

/// A member of the parameters.
pub open spec fn param(v: JsonView, key: Seq<char>) -> Option<JsonView> {
    v.get2("params"@, key)
}

/// A string among the parameters.
pub open spec fn param_str(v: JsonView, key: Seq<char>) -> Option<Seq<char>> {
    v.get2_str("params"@, key)
}

/// Routes a request with a method.
pub open spec fn routed(s: RpcState, id: u64, method: Seq<char>, v: JsonView) -> (RpcState, OutcomeView) {
    let busy = refused(Some(id), PROMPT_IN_FLIGHT, "prompt in flight"@);
    if method == "steer"@ {
        match param_str(v, "instruction"@) {
            None => (s, refused(Some(id), INVALID_PARAMS, "缺少字符串参数 instruction"@)),
            Some(i) => if s.steering || s.session {
                (s, OutcomeView::Steer { id, instruction: i, running: s.steering })
            } else {
                (s, refused(Some(id), SESSION_ERROR, "会话尚未初始化"@))
            },
        }
    } else if method == "initialize"@ {
        if s.in_flight {
            (s, busy)
        } else {
            match param(v, "config_path"@) {
                Some(p) => match p.as_str() {
                    Some(path) => (
                        RpcState { config_path: Some(path), ..s },
                        OutcomeView::Initialize { id },
                    ),
                    None => (s, refused(Some(id), INVALID_PARAMS, "config_path 必须是字符串"@)),
                },
                None => (s, OutcomeView::Initialize { id }),
            }
        }
    } else if method == "prompt"@ {
        if s.in_flight {
            (s, busy)
        } else {
            match param_str(v, "input"@) {
                None => (s, refused(Some(id), INVALID_PARAMS, "缺少字符串参数 input"@)),
                Some(input) => if s.session {
                    (RpcState { in_flight: true, ..s }, OutcomeView::PendingPrompt { id, input })
                } else {
                    (s, OutcomeView::CreateForPrompt { id, input })
                },
            }
        }
    } else if method == "reset"@ {
        if s.in_flight {
            (s, busy)
        } else {
            (s, OutcomeView::Reset { id, create: !s.session })
        }
    } else if method == "branch"@ {
        if s.in_flight {
            (s, busy)
        } else {
            match param_str(v, "parent_id"@) {
                None => (s, refused(Some(id), INVALID_PARAMS, "缺少字符串参数 parent_id"@)),
                Some(parent_id) => match param(v, "upto"@) {
                    None => (s, OutcomeView::Branch { id, parent_id, upto: None }),
                    Some(JsonView::Null) => (s, OutcomeView::Branch { id, parent_id, upto: None }),
                    Some(x) => match x.as_u64() {
                        Some(n) => (s, OutcomeView::Branch { id, parent_id, upto: Some(n as usize) }),
                        None => (s, refused(Some(id), INVALID_PARAMS, "upto 必须为非负整数"@)),
                    },
                },
            }
        }
    } else if method == "resume"@ {
        if s.in_flight {
            (s, busy)
        } else {
            match param_str(v, "session_id"@) {
                None => (s, refused(Some(id), INVALID_PARAMS, "缺少字符串参数 session_id"@)),
                Some(session_id) => (s, OutcomeView::Resume { id, session_id }),
            }
        }
    } else if method == "shutdown"@ {
        if s.in_flight {
            (s, busy)
        } else {
            (s, OutcomeView::Shutdown(json_printed(result_form(id, JsonView::obj()))))
        }
    } else {
        (s, refused(Some(id), METHOD_NOT_FOUND, "未知方法："@ + method))
    }
}

/// Handles a JSON value: one without an id is no request.
pub open spec fn requested(s: RpcState, v: JsonView) -> (RpcState, OutcomeView) {
    match v.get("id"@) {
        None => (s, OutcomeView::Nothing),
        Some(i) => match i.as_u64() {
            None => (s, refused(None, INVALID_REQUEST, "id 必须为非负整数"@)),
            Some(id) => match v.get_str("method"@) {
                None => (s, refused(Some(id), INVALID_REQUEST, "缺少 method 字段"@)),
                Some(method) => routed(s, id, method, v),
            },
        },
    }
}

/// The methods of the server have different names.
proof fn lemma_methods()
    ensures
        "steer"@ != "initialize"@,
        "steer"@ != "prompt"@,
        "steer"@ != "reset"@,
        "steer"@ != "branch"@,
        "steer"@ != "resume"@,
        "steer"@ != "shutdown"@,
{
    reveal_strlit("steer");
    reveal_strlit("initialize");
    reveal_strlit("prompt");
    reveal_strlit("reset");
    reveal_strlit("branch");
    reveal_strlit("resume");
    reveal_strlit("shutdown");
    assert("steer"@[0] != "reset"@[0]);
    assert("steer"@.len() != "shutdown"@.len());
}

/// While a prompt runs, every known method but `steer` is refused, and nothing
/// changes.
pub proof fn law_busy_server_refuses(s: RpcState, id: u64, method: Seq<char>, v: JsonView)
    requires
        s.in_flight,
        method == "initialize"@ || method == "prompt"@ || method == "reset"@ || method == "branch"@ || method
            == "resume"@ || method == "shutdown"@,
    ensures
        routed(s, id, method, v) == (s, refused(Some(id), PROMPT_IN_FLIGHT, "prompt in flight"@)),
{
    lemma_methods();
}

/// A prompt starts running only by a `prompt` request while none runs, and
/// then it is handed out.
pub proof fn law_one_prompt_at_a_time(s: RpcState, v: JsonView)
    ensures
        !s.in_flight && requested(s, v).0.in_flight ==> requested(s, v).1 is PendingPrompt,
        s.in_flight ==> requested(s, v).0.in_flight && !(requested(s, v).1 is PendingPrompt) && !(requested(
            s,
            v,
        ).1 is CreateForPrompt),
{
}

impl View for RpcServer {
    type V = RpcState;

    closed spec fn view(&self) -> RpcState {
        RpcState {
            session: self.session,
            in_flight: self.in_flight,
            steering: self.steering,
            config_path: opt_view(self.config_path),
        }
    }
}

/// The form of an optional session id.
pub open spec fn session_json(id: Option<Seq<char>>) -> JsonView {
    opt_str(id)
}

impl Default for RpcServer {
    fn default() -> (r: Self)
        ensures
            r@ == (RpcState { session: false, in_flight: false, steering: false, config_path: None }),
    {
        RpcServer::new()
    }
}

impl RpcServer {
    /// A server without a session.
    pub fn new() -> (r: RpcServer)
        ensures
            r@ == (RpcState { session: false, in_flight: false, steering: false, config_path: None }),
    {
        RpcServer { session: false, in_flight: false, steering: false, config_path: None }
    }

    /// Sets where the configuration is.
    pub fn set_config_path(&mut self, path: String)
        ensures
            final(self)@ == (RpcState { config_path: Some(path@), ..old(self)@ }),
    {
        self.config_path = Some(path);
    }

    /// Where the configuration is.
    pub fn config_path(&self) -> (r: Option<&str>)
        ensures
            match r {
                Some(p) => self@.config_path == Some(p@),
                None => self@.config_path is None,
            },
    {
        match &self.config_path {
            Some(p) => Some(p.as_str()),
            None => None,
        }
    }

    /// Whether a prompt runs.
    pub fn in_flight(&self) -> (r: bool)
        ensures
            r == self@.in_flight,
    {
        self.in_flight
    }

    /// The refusal while a prompt runs.
    fn guard_in_flight(&self, id: u64) -> (r: Option<RpcOutcome>)
        ensures
            match r {
                Some(o) => self@.in_flight && o@ == refused(Some(id), PROMPT_IN_FLIGHT, "prompt in flight"@),
                None => !self@.in_flight,
            },
    {
        if self.in_flight {
            Some(RpcOutcome::Line(error_line(Some(id), PROMPT_IN_FLIGHT, "prompt in flight")))
        } else {
            None
        }
    }

    /// Handles one line: gives what the driver is to do.
    pub fn handle_line(&mut self, line: &str) -> (r: RpcOutcome)
        ensures
            match json_parsed(trim(line@)) {
                Err(e) => {
                    &&& final(self)@ == old(self)@
                    &&& r@ == refused(None, PARSE_ERROR, "JSON 解析失败："@ + e)
                },
                Ok(v) => (final(self)@, r@) == requested(old(self)@, v),
            },
    {
        let t: String = trim_string(line);
        match parse(t.as_str()) {
            Err(e) => {
                let mut m: String = "JSON 解析失败：".to_string();
                m.append(e.as_str());
                RpcOutcome::Line(error_line(None, PARSE_ERROR, m.as_str()))
            },
            Ok(v) => self.handle_request(&v),
        }
    }

    /// Handles one JSON value.
    pub fn handle_request(&mut self, v: &Json) -> (r: RpcOutcome)
        ensures
            (final(self)@, r@) == requested(old(self)@, v@),
    {
        let id: u64 = match v.get("id") {
            None => {
                return RpcOutcome::Nothing;
            },
            Some(i) => match i.as_u64() {
                Some(n) => n,
                None => {
                    return RpcOutcome::Line(error_line(None, INVALID_REQUEST, "id 必须为非负整数"));
                },
            },
        };
        let method: &str = match v.get_str("method") {
            Some(m) => m,
            None => {
                return RpcOutcome::Line(error_line(Some(id), INVALID_REQUEST, "缺少 method 字段"));
            },
        };
        proof {
            lemma_methods();
        }
        if str_eq(method, "steer") {
            return self.handle_steer(id, v);
        }
        if str_eq(method, "initialize") {
            return self.handle_initialize(id, v);
        }
        if str_eq(method, "prompt") {
            return self.handle_prompt(id, v);
        }
        if str_eq(method, "reset") {
            return match self.guard_in_flight(id) {
                Some(o) => o,
                None => RpcOutcome::Task(RpcTask::Reset { id, create: !self.session }),
            };
        }
        if str_eq(method, "branch") {
            return self.handle_branch(id, v);
        }
        if str_eq(method, "resume") {
            return self.handle_resume(id, v);
        }
        if str_eq(method, "shutdown") {
            return match self.guard_in_flight(id) {
                Some(o) => o,
                None => RpcOutcome::Shutdown(result_line(id, Json::obj())),
            };
        }
        let mut m: String = "未知方法：".to_string();
        m.append(method);
        RpcOutcome::Line(error_line(Some(id), METHOD_NOT_FOUND, m.as_str()))
    }

    fn handle_initialize(&mut self, id: u64, v: &Json) -> (r: RpcOutcome)
        ensures
            (final(self)@, r@) == routed(old(self)@, id, "initialize"@, v@),
    {
        proof {
            lemma_methods();
        }
        if let Some(o) = self.guard_in_flight(id) {
            return o;
        }
        if let Some(params) = v.get("params") {
            if let Some(p) = params.get("config_path") {
                match p.as_str() {
                    Some(path) => {
                        self.config_path = Some(path.to_string());
                    },
                    None => {
                        return RpcOutcome::Line(error_line(Some(id), INVALID_PARAMS, "config_path 必须是字符串"));
                    },
                }
            }
        }
        RpcOutcome::Task(RpcTask::Initialize { id })
    }

    fn handle_prompt(&mut self, id: u64, v: &Json) -> (r: RpcOutcome)
        ensures
            (final(self)@, r@) == routed(old(self)@, id, "prompt"@, v@),
    {
        proof {
            lemma_methods();
            reveal_strlit("initialize");
            reveal_strlit("prompt");
        }
        if let Some(o) = self.guard_in_flight(id) {
            return o;
        }
        match v.get2_str("params", "input") {
            None => RpcOutcome::Line(error_line(Some(id), INVALID_PARAMS, "缺少字符串参数 input")),
            Some(input) => {
                if self.session {
                    self.in_flight = true;
                    RpcOutcome::PendingPrompt { id, input: input.to_string() }
                } else {
                    RpcOutcome::Task(RpcTask::CreateForPrompt { id, input: input.to_string() })
                }
            },
        }
    }

    fn handle_steer(&self, id: u64, v: &Json) -> (r: RpcOutcome)
        ensures
            (self@, r@) == routed(self@, id, "steer"@, v@),
    {
        match v.get2_str("params", "instruction") {
            None => RpcOutcome::Line(error_line(Some(id), INVALID_PARAMS, "缺少字符串参数 instruction")),
            Some(i) => if self.steering || self.session {
                RpcOutcome::Task(
                    RpcTask::Steer { id, instruction: i.to_string(), running: self.steering },
                )
            } else {
                RpcOutcome::Line(error_line(Some(id), SESSION_ERROR, "会话尚未初始化"))
            },
        }
    }

    fn handle_branch(&self, id: u64, v: &Json) -> (r: RpcOutcome)
        ensures
            (self@, r@) == routed(self@, id, "branch"@, v@),
    {
        proof {
            lemma_methods();
            reveal_strlit("initialize");
            reveal_strlit("prompt");
            reveal_strlit("reset");
            reveal_strlit("branch");
            assert("branch"@[0] != "prompt"@[0]);
        }
        if let Some(o) = self.guard_in_flight(id) {
            return o;
        }
        let parent_id: &str = match v.get2_str("params", "parent_id") {
            None => {
                return RpcOutcome::Line(error_line(Some(id), INVALID_PARAMS, "缺少字符串参数 parent_id"));
            },
            Some(p) => p,
        };
        let upto: Option<usize> = match v.get("params") {
            None => None,
            Some(params) => match params.get("upto") {
                None => None,
                Some(Json::Null) => None,
                Some(x) => match x.as_u64() {
                    Some(n) => Some(n as usize),
                    None => {
                        return RpcOutcome::Line(error_line(Some(id), INVALID_PARAMS, "upto 必须为非负整数"));
                    },
                },
            },
        };
        RpcOutcome::Task(RpcTask::Branch { id, parent_id: parent_id.to_string(), upto })
    }

    fn handle_resume(&self, id: u64, v: &Json) -> (r: RpcOutcome)
        ensures
            (self@, r@) == routed(self@, id, "resume"@, v@),
    {
        proof {
            lemma_methods();
            reveal_strlit("initialize");
            reveal_strlit("prompt");
            reveal_strlit("reset");
            reveal_strlit("branch");
            reveal_strlit("resume");
            assert("resume"@[0] != "prompt"@[0]);
            assert("resume"@[0] != "branch"@[0]);
        }
        if let Some(o) = self.guard_in_flight(id) {
            return o;
        }
        match v.get2_str("params", "session_id") {
            None => RpcOutcome::Line(error_line(Some(id), INVALID_PARAMS, "缺少字符串参数 session_id")),
            Some(s) => RpcOutcome::Task(RpcTask::Resume { id, session_id: s.to_string() }),
        }
    }

    /// Ends `initialize`: the id of the new session, or why there is none.
    pub fn finish_initialize(&mut self, id: u64, result: &Result<Option<String>, String>) -> (r: RpcOutcome)
        ensures
            match *result {
                Ok(sid) => {
                    &&& final(self)@ == (RpcState { session: true, ..old(self)@ })
                    &&& r@ == replied(
                        id,
                        JsonView::obj().with("session_id"@, session_json(opt_view(sid))).with(
                            "version"@,
                            JsonView::Str(VERSION@),
                        ),
                    )
                },
                Err(e) => final(self)@ == old(self)@ && r@ == refused(Some(id), SESSION_ERROR, e@),
            },
    {
        match result {
            Ok(sid) => {
                self.session = true;
                RpcOutcome::Line(
                    result_line(
                        id,
                        Json::obj().with("session_id", Json::text_or_null(sid)).with(
                            "version",
                            Json::text(VERSION),
                        ),
                    ),
                )
            },
            Err(e) => RpcOutcome::Line(error_line(Some(id), SESSION_ERROR, e.as_str())),
        }
    }

    /// Ends the creation of a session for a prompt: the prompt then runs.
    pub fn finish_create_for_prompt(&mut self, id: u64, input: &str, result: &Result<(), String>) -> (r: RpcOutcome)
        ensures
            match *result {
                Ok(_) => {
                    &&& final(self)@ == (RpcState { session: true, in_flight: true, ..old(self)@ })
                    &&& r@ == (OutcomeView::PendingPrompt { id, input: input@ })
                },
                Err(e) => final(self)@ == old(self)@ && r@ == refused(Some(id), SESSION_ERROR, e@),
            },
    {
        match result {
            Ok(_) => {
                self.session = true;
                self.in_flight = true;
                RpcOutcome::PendingPrompt { id, input: input.to_string() }
            },
            Err(e) => RpcOutcome::Line(error_line(Some(id), SESSION_ERROR, e.as_str())),
        }
    }

    /// Ends `steer`.
    pub fn finish_steer(&self, id: u64, result: &Result<(), String>) -> (r: RpcOutcome)
        ensures
            r@ == (match *result {
                Ok(_) => replied(id, JsonView::obj()),
                Err(e) => refused(Some(id), SESSION_ERROR, "steer 注入失败："@ + e@),
            }),
    {
        match result {
            Ok(_) => RpcOutcome::Line(result_line(id, Json::obj())),
            Err(e) => {
                let mut m: String = "steer 注入失败：".to_string();
                m.append(e.as_str());
                RpcOutcome::Line(error_line(Some(id), SESSION_ERROR, m.as_str()))
            },
        }
    }

    /// Ends `reset`: the id of the emptied session.
    pub fn finish_reset(&mut self, id: u64, result: &Result<Option<String>, String>) -> (r: RpcOutcome)
        ensures
            match *result {
                Ok(sid) => {
                    &&& final(self)@ == (RpcState { session: true, ..old(self)@ })
                    &&& r@ == replied(
                        id,
                        JsonView::obj().with("session_id"@, session_json(opt_view(sid))),
                    )
                },
                Err(e) => final(self)@ == old(self)@ && r@ == refused(Some(id), SESSION_ERROR, e@),
            },
    {
        match result {
            Ok(sid) => {
                self.session = true;
                RpcOutcome::Line(
                    result_line(id, Json::obj().with("session_id", Json::text_or_null(sid))),
                )
            },
            Err(e) => RpcOutcome::Line(error_line(Some(id), SESSION_ERROR, e.as_str())),
        }
    }

    /// Ends `branch` or `resume`: the session's id and the number of its
    /// messages, which the reply calls `count_name`.
    fn finish_load(&mut self, id: u64, count_name: &str, result: &Result<(Option<String>, usize), String>) -> (r: RpcOutcome)
        ensures
            match *result {
                Ok((sid, n)) => {
                    &&& final(self)@ == (RpcState { session: true, ..old(self)@ })
                    &&& r@ == replied(
                        id,
                        JsonView::obj().with("session_id"@, session_json(opt_view(sid))).with(
                            count_name@,
                            JsonView::Uint(n as u64),
                        ),
                    )
                },
                Err(e) => final(self)@ == old(self)@ && r@ == refused(Some(id), SESSION_ERROR, e@),
            },
    {
        match result {
            Ok((sid, n)) => {
                self.session = true;
                RpcOutcome::Line(
                    result_line(
                        id,
                        Json::obj().with("session_id", Json::text_or_null(sid)).with(
                            count_name,
                            Json::Uint(*n as u64),
                        ),
                    ),
                )
            },
            Err(e) => RpcOutcome::Line(error_line(Some(id), SESSION_ERROR, e.as_str())),
        }
    }

    /// Ends `branch`: the new session's id and the number of messages that it
    /// inherited.
    pub fn finish_branch(&mut self, id: u64, result: &Result<(Option<String>, usize), String>) -> (r: RpcOutcome)
        ensures
            match *result {
                Ok((sid, n)) => {
                    &&& final(self)@ == (RpcState { session: true, ..old(self)@ })
                    &&& r@ == replied(
                        id,
                        JsonView::obj().with("session_id"@, session_json(opt_view(sid))).with(
                            "inherited_count"@,
                            JsonView::Uint(n as u64),
                        ),
                    )
                },
                Err(e) => final(self)@ == old(self)@ && r@ == refused(Some(id), SESSION_ERROR, e@),
            },
    {
        self.finish_load(id, "inherited_count", result)
    }

    /// Ends `resume`: the session's id and the number of its messages.
    pub fn finish_resume(&mut self, id: u64, result: &Result<(Option<String>, usize), String>) -> (r: RpcOutcome)
        ensures
            match *result {
                Ok((sid, n)) => {
                    &&& final(self)@ == (RpcState { session: true, ..old(self)@ })
                    &&& r@ == replied(
                        id,
                        JsonView::obj().with("session_id"@, session_json(opt_view(sid))).with(
                            "message_count"@,
                            JsonView::Uint(n as u64),
                        ),
                    )
                },
                Err(e) => final(self)@ == old(self)@ && r@ == refused(Some(id), SESSION_ERROR, e@),
            },
    {
        self.finish_load(id, "message_count", result)
    }

    /// The session goes to the prompt that runs, if there is one.
    pub fn begin_prompt(&mut self) -> (r: bool)
        ensures
            r == old(self)@.session,
            final(self)@ == (if old(self)@.session {
                RpcState { session: false, steering: true, ..old(self)@ }
            } else {
                old(self)@
            }),
    {
        if self.session {
            self.session = false;
            self.steering = true;
            true
        } else {
            false
        }
    }

    /// The session comes back from the prompt.
    pub fn end_prompt(&mut self)
        ensures
            final(self)@ == (RpcState { session: true, in_flight: false, steering: false, ..old(self)@ }),
    {
        self.session = true;
        self.in_flight = false;
        self.steering = false;
    }

    /// The prompt did not start after all.
    pub fn cancel_prompt(&mut self)
        ensures
            final(self)@ == (RpcState { in_flight: false, ..old(self)@ }),
    {
        self.in_flight = false;
    }
}

/// The reply to a prompt that ended.
pub fn prompt_reply(id: u64, result: &Result<String, String>) -> (r: String)
    ensures
        r@ == json_printed(
            match *result {
                Ok(t) => result_form(id, JsonView::obj().with("final_text"@, JsonView::Str(t@))),
                Err(e) => error_form(Some(id), SESSION_ERROR, e@),
            },
        ),
        !r@.contains('\n'),
{
    match result {
        Ok(t) => result_line(id, Json::obj().with("final_text", Json::text(t.as_str()))),
        Err(e) => error_line(Some(id), SESSION_ERROR, e.as_str()),
    }
}

/// Whether the serving loop goes on: after the end of the input it waits only
/// for the prompt that runs.
pub fn serve_goes_on(stdin_open: bool, in_flight: bool) -> (r: bool)
    ensures
        r == (stdin_open || in_flight),
{
    stdin_open || in_flight
}

} // verus!
