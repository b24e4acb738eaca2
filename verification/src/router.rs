//! How the console handles a browser's message: what it asks for, and what the
//! browsers are told when it is done.

use vstd::prelude::*;

use crate::client::{ClientMsg, ClientMsgView, SandboxLimits};
use crate::config::{Config, SandboxConfig};
use crate::console::{check_delete, check_fork, check_switch, is_file_name};
use crate::groups::{event_form, event_json, GroupEvent};
use crate::json::{opt_str, Json, JsonView};
use crate::text::{dec, dec_string};
use crate::types::opt_view;

verus! {

/// Something to tell, or to bring up to date.
#[derive(Debug)]
pub enum Note {
    /// To the browser that asked.
    Tell(Json),
    /// To all browsers.
    TellAll(Json),
    /// The list of sessions, to all browsers.
    Sessions,
    /// The whole state, to all browsers.
    State,
    /// The whole state as after connecting, to all browsers.
    Init,
    /// The channels are brought in line with the profiles.
    ReloadChannels,
}

/// What a note holds.
pub enum NoteView {
    Tell(JsonView),
    TellAll(JsonView),
    Sessions,
    State,
    Init,
    ReloadChannels,
}

impl View for Note {
    type V = NoteView;

    open spec fn view(&self) -> NoteView {
        match *self {
            Note::Tell(j) => NoteView::Tell(j@),
            Note::TellAll(j) => NoteView::TellAll(j@),
            Note::Sessions => NoteView::Sessions,
            Note::State => NoteView::State,
            Note::Init => NoteView::Init,
            Note::ReloadChannels => NoteView::ReloadChannels,
        }
    }
}

pub open spec fn notes(v: Seq<Note>) -> Seq<NoteView> {
    Seq::new(v.len(), |i: int| v[i]@)
}

/// A message of a type.
pub open spec fn typed(t: Seq<char>) -> JsonView {
    JsonView::obj().with("t"@, JsonView::Str(t))
}

fn typed_json(t: &str) -> (r: Json)
    ensures
        r@ == typed(t@),
{
    Json::obj().with("t", Json::text(t))
}

/// A failure as it is told.
pub open spec fn error_form(message: Seq<char>) -> JsonView {
    typed("error"@).with("message"@, JsonView::Str(message))
}

/// A failure as it is told.
pub fn error_json(message: &str) -> (r: Json)
    ensures
        r@ == error_form(message@),
{
    typed_json("error").with("message", Json::text(message))
}

/// The one note of a failure.
pub open spec fn failed(message: Seq<char>) -> Seq<NoteView> {
    seq![NoteView::Tell(error_form(message))]
}

fn failed_notes(what: &str, why: &str) -> (r: Vec<Note>)
    ensures
        notes(r@) == failed(what@ + why@),
{
    let mut m: String = what.to_string();
    m.append(why);
    let mut v: Vec<Note> = Vec::new();
    v.push(Note::Tell(error_json(m.as_str())));
    assert(notes(v@) =~= failed(what@ + why@));
    v
}

// ---------- what a message asks for ----------

/// What the console does on a message. Names were checked.
#[derive(Debug)]
pub enum Request {
    /// The browser is told what is wrong.
    Refuse(String),
    /// The session is resumed.
    Resume(String),
    Branch { parent: String, upto: Option<usize> },
    /// The file is removed from the directory of sessions.
    RemoveFile(String),
    /// The message is handled as it is.
    Pass(ClientMsg),
}

/// What a request holds.
pub enum RequestView {
    Refuse(Seq<char>),
    Resume(Seq<char>),
    Branch { parent: Seq<char>, upto: Option<usize> },
    RemoveFile(Seq<char>),
    Pass(ClientMsgView),
}

impl View for Request {
    type V = RequestView;

    open spec fn view(&self) -> RequestView {
        match *self {
            Request::Refuse(s) => RequestView::Refuse(s@),
            Request::Resume(s) => RequestView::Resume(s@),
            Request::Branch { parent, upto } => RequestView::Branch { parent: parent@, upto },
            Request::RemoveFile(s) => RequestView::RemoveFile(s@),
            Request::Pass(m) => RequestView::Pass(m@),
        }
    }
}

/// What the console does on a message. `running` tells that a prompt runs, and
/// `current` is the session in use; while a prompt runs it is not known.
pub open spec fn routed(m: ClientMsgView, running: bool, current: Option<Seq<char>>) -> RequestView {
    match m {
        ClientMsgView::Switch(id) => if is_file_name(id) {
            RequestView::Resume(id)
        } else {
            RequestView::Refuse("非法会话 id"@)
        },
        ClientMsgView::Fork { parent, upto } => if is_file_name(parent) {
            RequestView::Branch { parent, upto }
        } else {
            RequestView::Refuse("非法父会话 id"@)
        },
        ClientMsgView::DeleteSession(id) => if !is_file_name(id) {
            RequestView::Refuse("非法会话 id"@)
        } else if running {
            RequestView::Refuse("prompt 运行中，稍后再删"@)
        } else if current == Some(id) {
            RequestView::Refuse("当前会话使用中，禁止删除"@)
        } else {
            RequestView::RemoveFile(id + ".jsonl"@)
        },
        _ => RequestView::Pass(m),
    }
}

/// What the console does on a message.
pub fn route(m: ClientMsg, running: bool, current: Option<&str>) -> (r: Request)
    ensures
        r@ == routed(
            m@,
            running,
            match current {
                Some(c) => Some(c@),
                None => None,
            },
        ),
{
    match m {
        ClientMsg::Switch(id) => match check_switch(id.as_str()) {
            Ok(_) => Request::Resume(id),
            Err(e) => Request::Refuse(e),
        },
        ClientMsg::Fork { parent, upto } => match check_fork(parent.as_str()) {
            Ok(_) => Request::Branch { parent, upto },
            Err(e) => Request::Refuse(e),
        },
        ClientMsg::DeleteSession(id) => match check_delete(id.as_str(), running, current) {
            Ok(f) => Request::RemoveFile(f),
            Err(e) => Request::Refuse(e),
        },
        other => Request::Pass(other),
    }
}

/// The session in use is never removed, and nothing outside the directory is.
pub proof fn law_session_in_use_stays(m: ClientMsgView, running: bool, current: Option<Seq<char>>)
    ensures
        routed(m, running, current) matches RequestView::RemoveFile(f) ==> !running && m is DeleteSession
            && is_file_name(m->DeleteSession_0) && f == m->DeleteSession_0 + ".jsonl"@ && current != Some(
            m->DeleteSession_0,
        ),
{
}

// ---------- sessions ----------

/// After a session was made, or was not.
pub fn created_notes(made: &Result<(), String>) -> (r: Vec<Note>)
    ensures
        notes(r@) == (match *made {
            Ok(_) => seq![NoteView::Sessions],
            Err(e) => failed("新建会话失败："@ + e@),
        }),
{
    match made {
        Ok(_) => {
            let mut v: Vec<Note> = Vec::new();
            v.push(Note::Sessions);
            assert(notes(v@) =~= seq![NoteView::Sessions]);
            v
        },
        Err(e) => failed_notes("新建会话失败：", e.as_str()),
    }
}

/// A session's history as it is told.
pub open spec fn history_form(history: JsonView) -> JsonView {
    typed("session_history"@).with("history"@, history)
}

/// After a session was resumed, with its history, or was not.
pub fn resumed_notes(made: Result<Json, String>) -> (r: Vec<Note>)
    ensures
        notes(r@) == (match made {
            Ok(h) => seq![NoteView::Tell(history_form(h@)), NoteView::Sessions],
            Err(e) => failed("切换会话失败："@ + e@),
        }),
{
    match made {
        Ok(h) => {
            let ghost hv = h@;
            let mut v: Vec<Note> = Vec::new();
            v.push(Note::Tell(typed_json("session_history").with("history", h)));
            v.push(Note::Sessions);
            assert(notes(v@) =~= seq![NoteView::Tell(history_form(hv)), NoteView::Sessions]);
            v
        },
        Err(e) => failed_notes("切换会话失败：", e.as_str()),
    }
}

/// After a session was branched off, with its id and its history, or was not.
pub fn branched_notes(made: Result<(Option<String>, Json), String>) -> (r: Vec<Note>)
    ensures
        notes(r@) == (match made {
            Ok((id, h)) => seq![
                NoteView::Tell(typed("forked"@).with("id"@, opt_str(opt_view(id)))),
                NoteView::Tell(history_form(h@)),
                NoteView::Sessions,
            ],
            Err(e) => failed("分叉失败："@ + e@),
        }),
{
    match made {
        Ok((id, h)) => {
            let ghost hv = h@;
            let mut v: Vec<Note> = Vec::new();
            v.push(Note::Tell(typed_json("forked").with("id", Json::text_or_null(&id))));
            v.push(Note::Tell(typed_json("session_history").with("history", h)));
            v.push(Note::Sessions);
            assert(notes(v@) =~= seq![
                NoteView::Tell(typed("forked"@).with("id"@, opt_str(opt_view(id)))),
                NoteView::Tell(history_form(hv)),
                NoteView::Sessions,
            ]);
            v
        },
        Err(e) => failed_notes("分叉失败：", e.as_str()),
    }
}

/// After a session's file was removed, or was not.
pub fn removed_notes(done: &Result<(), String>) -> (r: Vec<Note>)
    ensures
        notes(r@) == (match *done {
            Ok(_) => seq![NoteView::Sessions],
            Err(e) => failed("删除失败："@ + e@),
        }),
{
    match done {
        Ok(_) => {
            let mut v: Vec<Note> = Vec::new();
            v.push(Note::Sessions);
            assert(notes(v@) =~= seq![NoteView::Sessions]);
            v
        },
        Err(e) => failed_notes("删除失败：", e.as_str()),
    }
}

/// After words were put into a run: there is no session, or they were not
/// taken, or nothing is told.
pub fn steered_notes(sent: Option<&Result<(), String>>) -> (r: Vec<Note>)
    ensures
        notes(r@) == (match sent {
            None => failed("会话尚未创建"@),
            Some(Ok(_)) => Seq::<NoteView>::empty(),
            Some(Err(e)) => failed("steer 注入失败："@ + e@),
        }),
{
    match sent {
        None => {
            let mut v: Vec<Note> = Vec::new();
            v.push(Note::Tell(error_json("会话尚未创建")));
            assert(notes(v@) =~= failed("会话尚未创建"@));
            v
        },
        Some(s) => match s {
            Ok(_) => {
                let v: Vec<Note> = Vec::new();
                assert(notes(v@) =~= Seq::<NoteView>::empty());
                v
            },
            Err(e) => failed_notes("steer 注入失败：", e.as_str()),
        },
    }
}

// ---------- prompts ----------

/// A word on the way to an answer.
pub open spec fn event_note(kind: Seq<char>, key: Seq<char>, value: JsonView) -> JsonView {
    typed("event"@).with("evt"@, JsonView::obj().with("type"@, JsonView::Str(kind)).with(key, value))
}

/// The word that a prompt waits.
pub fn queued_json() -> (r: Json)
    ensures
        r@ == event_note(
            "queued_prompt"@,
            "message"@,
            JsonView::Str("⏳ 上一条回复还在收尾，本条已排队，完成后自动发送"@),
        ),
{
    typed_json("event").with(
        "evt",
        Json::obj().with("type", Json::text("queued_prompt")).with(
            "message",
            Json::text("⏳ 上一条回复还在收尾，本条已排队，完成后自动发送"),
        ),
    )
}

/// The word that a session is being made.
pub fn warming_json() -> (r: Json)
    ensures
        r@ == event_note(
            "notice"@,
            "data"@,
            JsonView::obj().with("text"@, JsonView::Str("正在创建会话（工具预热，首次约 10 秒）…"@)),
        ),
{
    typed_json("event").with(
        "evt",
        Json::obj().with("type", Json::text("notice")).with(
            "data",
            Json::obj().with("text", Json::text("正在创建会话（工具预热，首次约 10 秒）…")),
        ),
    )
}

/// How a prompt ended.
#[derive(Debug)]
pub enum PromptEnd {
    NoSession(String),
    Answer { text: String, session: Option<String> },
    Failed(String),
}

/// After a prompt: all browsers are told the answer or the failure, and the
/// list of sessions is brought up to date unless there was no session.
pub fn prompt_notes(end: &PromptEnd) -> (r: Vec<Note>)
    ensures
        notes(r@) == (match *end {
            PromptEnd::NoSession(e) => seq![NoteView::TellAll(error_form("创建会话失败："@ + e@))],
            PromptEnd::Answer { text, session } => seq![
                NoteView::TellAll(
                    typed("prompt_done"@).with("final_text"@, JsonView::Str(text@)).with(
                        "session_id"@,
                        opt_str(opt_view(session)),
                    ),
                ),
                NoteView::Sessions,
            ],
            PromptEnd::Failed(e) => seq![NoteView::TellAll(error_form(e@)), NoteView::Sessions],
        }),
{
    let mut v: Vec<Note> = Vec::new();
    match end {
        PromptEnd::NoSession(e) => {
            let mut m: String = "创建会话失败：".to_string();
            m.append(e.as_str());
            v.push(Note::TellAll(error_json(m.as_str())));
            assert(notes(v@) =~= seq![NoteView::TellAll(error_form("创建会话失败："@ + e@))]);
        },
        PromptEnd::Answer { text, session } => {
            v.push(
                Note::TellAll(
                    typed_json("prompt_done").with("final_text", Json::text(text.as_str())).with(
                        "session_id",
                        Json::text_or_null(session),
                    ),
                ),
            );
            v.push(Note::Sessions);
            assert(notes(v@) =~= seq![
                NoteView::TellAll(
                    typed("prompt_done"@).with("final_text"@, JsonView::Str(text@)).with(
                        "session_id"@,
                        opt_str(opt_view(*session)),
                    ),
                ),
                NoteView::Sessions,
            ]);
        },
        PromptEnd::Failed(e) => {
            v.push(Note::TellAll(error_json(e.as_str())));
            v.push(Note::Sessions);
            assert(notes(v@) =~= seq![NoteView::TellAll(error_form(e@)), NoteView::Sessions]);
        },
    }
    v
}

// ---------- tasks ----------

/// What is done with a task.
#[derive(Debug, Clone, Copy, PartialEq, Eq, Structural)]
pub enum TaskVerb {
    Approve,
    Reject,
    Pause,
    Resume,
    Delete,
}

/// The task that a message speaks of, and what is done with it.
pub open spec fn task_asked(m: ClientMsgView) -> Option<(TaskVerb, Seq<char>)> {
    match m {
        ClientMsgView::TaskApprove(id) => Some((TaskVerb::Approve, id)),
        ClientMsgView::TaskReject(id) => Some((TaskVerb::Reject, id)),
        ClientMsgView::TaskPause(id) => Some((TaskVerb::Pause, id)),
        ClientMsgView::TaskResume(id) => Some((TaskVerb::Resume, id)),
        ClientMsgView::TaskDelete(id) => Some((TaskVerb::Delete, id)),
        _ => None,
    }
}

/// The task that a message speaks of, and what is done with it.
pub fn task_request(m: &ClientMsg) -> (r: Option<(TaskVerb, String)>)
    ensures
        match r {
            Some((v, id)) => task_asked(m@) == Some((v, id@)),
            None => task_asked(m@) is None,
        },
{
    match m {
        ClientMsg::TaskApprove(id) => Some((TaskVerb::Approve, id.clone())),
        ClientMsg::TaskReject(id) => Some((TaskVerb::Reject, id.clone())),
        ClientMsg::TaskPause(id) => Some((TaskVerb::Pause, id.clone())),
        ClientMsg::TaskResume(id) => Some((TaskVerb::Resume, id.clone())),
        ClientMsg::TaskDelete(id) => Some((TaskVerb::Delete, id.clone())),
        _ => None,
    }
}

/// The state that a task moves to; none where it is deleted. A task that
/// becomes active gets its next time.
pub fn task_target(v: TaskVerb) -> (r: (Option<&'static str>, bool))
    ensures
        match v {
            TaskVerb::Approve => r.0 is Some && r.0->0@ == "active"@ && r.1,
            TaskVerb::Reject => r.0 is Some && r.0->0@ == "rejected"@ && !r.1,
            TaskVerb::Pause => r.0 is Some && r.0->0@ == "paused"@ && !r.1,
            TaskVerb::Resume => r.0 is Some && r.0->0@ == "active"@ && r.1,
            TaskVerb::Delete => r.0 is None && !r.1,
        },
{
    match v {
        TaskVerb::Approve => (Some("active"), true),
        TaskVerb::Reject => (Some("rejected"), false),
        TaskVerb::Pause => (Some("paused"), false),
        TaskVerb::Resume => (Some("active"), true),
        TaskVerb::Delete => (None, false),
    }
}

/// The tasks as they are told.
pub open spec fn tasks_form(tasks: JsonView) -> JsonView {
    typed("tasks"@).with("tasks"@, tasks)
}

/// What is told of a failure with a task.
pub open spec fn task_failure(v: TaskVerb) -> Seq<char> {
    match v {
        TaskVerb::Approve => "批准失败："@,
        TaskVerb::Reject => "拒绝失败："@,
        TaskVerb::Pause => "暂停失败："@,
        TaskVerb::Resume => "恢复失败："@,
        TaskVerb::Delete => "删除失败："@,
    }
}

/// After a task was changed, with all tasks as they are now, or was not. A
/// decision is told on its own.
pub open spec fn task_told(v: TaskVerb, id: Seq<char>, done: Result<Json, String>) -> Seq<NoteView> {
    match done {
        Err(e) => failed(task_failure(v) + e@),
        Ok(tasks) => {
            let all = NoteView::TellAll(tasks_form(tasks@));
            let one = |state: Seq<char>|
                NoteView::TellAll(
                    typed("task_state"@).with("id"@, JsonView::Str(id)).with("state"@, JsonView::Str(state)),
                );
            match v {
                TaskVerb::Approve => seq![one("active"@), all],
                TaskVerb::Reject => seq![one("rejected"@), all],
                _ => seq![all],
            }
        },
    }
}

pub fn task_notes(v: TaskVerb, id: &str, done: Result<Json, String>) -> (r: Vec<Note>)
    ensures
        notes(r@) == task_told(v, id@, done),
{
    match done {
        Err(e) => {
            let what: &str = match v {
                TaskVerb::Approve => "批准失败：",
                TaskVerb::Reject => "拒绝失败：",
                TaskVerb::Pause => "暂停失败：",
                TaskVerb::Resume => "恢复失败：",
                TaskVerb::Delete => "删除失败：",
            };
            failed_notes(what, e.as_str())
        },
        Ok(tasks) => {
            let mut out: Vec<Note> = Vec::new();
            match v {
                TaskVerb::Approve => {
                    out.push(
                        Note::TellAll(
                            typed_json("task_state").with("id", Json::text(id)).with("state", Json::text("active")),
                        ),
                    );
                },
                TaskVerb::Reject => {
                    out.push(
                        Note::TellAll(
                            typed_json("task_state").with("id", Json::text(id)).with("state", Json::text("rejected")),
                        ),
                    );
                },
                _ => {},
            }
            out.push(Note::TellAll(typed_json("tasks").with("tasks", tasks)));
            assert(notes(out@) =~= task_told(v, id@, done));
            out
        },
    }
}

// ---------- agents ----------

/// After an agent was approved, or was not.
pub fn approved_notes(done: &Result<(), String>) -> (r: Vec<Note>)
    ensures
        notes(r@) == (match *done {
            Ok(_) => seq![NoteView::ReloadChannels, NoteView::State],
            Err(e) => failed("批准 agent 失败："@ + e@),
        }),
{
    match done {
        Ok(_) => {
            let mut v: Vec<Note> = Vec::new();
            v.push(Note::ReloadChannels);
            v.push(Note::State);
            assert(notes(v@) =~= seq![NoteView::ReloadChannels, NoteView::State]);
            v
        },
        Err(e) => failed_notes("批准 agent 失败：", e.as_str()),
    }
}

/// After an agent was rejected, or was not.
pub fn rejected_notes(done: &Result<(), String>) -> (r: Vec<Note>)
    ensures
        notes(r@) == (match *done {
            Ok(_) => seq![NoteView::State],
            Err(e) => failed("拒绝 agent 失败："@ + e@),
        }),
{
    match done {
        Ok(_) => {
            let mut v: Vec<Note> = Vec::new();
            v.push(Note::State);
            assert(notes(v@) =~= seq![NoteView::State]);
            v
        },
        Err(e) => failed_notes("拒绝 agent 失败：", e.as_str()),
    }
}

// ---------- settings ----------

/// The configuration with other limits of the sandbox; all else stays.
pub fn set_limits(cfg: &mut Config, l: &SandboxLimits)
    ensures
        *final(cfg) == (Config {
            sandbox: SandboxConfig {
                bash_timeout_secs: l.bash_timeout_secs,
                max_processes: l.max_processes,
                max_memory_mb: l.max_memory_mb,
                cpu_time_secs: l.cpu_time_secs,
                max_file_size_mb: l.max_file_size_mb,
                cgroup_memory_mb: l.cgroup_memory_mb,
                ..old(cfg).sandbox
            },
            ..*old(cfg)
        }),
{
    cfg.sandbox.bash_timeout_secs = l.bash_timeout_secs;
    cfg.sandbox.max_processes = l.max_processes;
    cfg.sandbox.max_memory_mb = l.max_memory_mb;
    cfg.sandbox.cpu_time_secs = l.cpu_time_secs;
    cfg.sandbox.max_file_size_mb = l.max_file_size_mb;
    cfg.sandbox.cgroup_memory_mb = l.cgroup_memory_mb;
}

/// The limits as settings of the configuration's file.
pub open spec fn limit_pairs(l: SandboxLimits) -> Seq<(Seq<char>, Seq<char>)> {
    seq![
        ("bash_timeout_secs"@, dec(l.bash_timeout_secs as nat)),
        ("max_processes"@, dec(l.max_processes as nat)),
        ("max_memory_mb"@, dec(l.max_memory_mb as nat)),
        ("cpu_time_secs"@, dec(l.cpu_time_secs as nat)),
        ("max_file_size_mb"@, dec(l.max_file_size_mb as nat)),
        ("cgroup_memory_mb"@, dec(l.cgroup_memory_mb as nat)),
    ]
}

pub fn limit_settings(l: &SandboxLimits) -> (r: Vec<(String, String)>)
    ensures
        crate::persist::pair_texts(r@) == limit_pairs(*l),
{
    let mut v: Vec<(String, String)> = Vec::new();
    v.push(("bash_timeout_secs".to_string(), dec_string(l.bash_timeout_secs)));
    v.push(("max_processes".to_string(), dec_string(l.max_processes as u64)));
    v.push(("max_memory_mb".to_string(), dec_string(l.max_memory_mb as u64)));
    v.push(("cpu_time_secs".to_string(), dec_string(l.cpu_time_secs as u64)));
    v.push(("max_file_size_mb".to_string(), dec_string(l.max_file_size_mb as u64)));
    v.push(("cgroup_memory_mb".to_string(), dec_string(l.cgroup_memory_mb as u64)));
    assert(crate::persist::pair_texts(v@) =~= limit_pairs(*l));
    v
}

/// After the limits were set.
pub fn limits_notes() -> (r: Vec<Note>)
    ensures
        notes(r@) == seq![NoteView::State, NoteView::Tell(typed("sandbox_set"@).with("ok"@, JsonView::Bool(true)))],
{
    let mut v: Vec<Note> = Vec::new();
    v.push(Note::State);
    v.push(Note::Tell(typed_json("sandbox_set").with("ok", Json::Bool(true))));
    assert(notes(v@) =~= seq![
        NoteView::State,
        NoteView::Tell(typed("sandbox_set"@).with("ok"@, JsonView::Bool(true))),
    ]);
    v
}

/// The notes after another model was chosen: where the session could not be
/// made again that is told first, and the state follows where the whole
/// profile was changed.
pub open spec fn model_told(model: Seq<char>, rebuilt: Option<Seq<char>>, whole: bool) -> Seq<NoteView> {
    let first = match rebuilt {
        Some(e) => seq![NoteView::TellAll(error_form("模型已切换，但会话重建失败："@ + e))],
        None => Seq::empty(),
    };
    let second = seq![NoteView::TellAll(typed("model_changed"@).with("model"@, JsonView::Str(model)))];
    let third = if whole {
        seq![NoteView::State]
    } else {
        Seq::empty()
    };
    first + second + third
}

/// After another model was chosen; `rebuilt` is why the session could not be
/// made again, if so.
pub fn model_notes(model: &str, rebuilt: Option<&str>, whole: bool) -> (r: Vec<Note>)
    ensures
        notes(r@) == model_told(
            model@,
            match rebuilt {
                Some(e) => Some(e@),
                None => None,
            },
            whole,
        ),
{
    let mut v: Vec<Note> = Vec::new();
    if let Some(e) = rebuilt {
        let mut m: String = "模型已切换，但会话重建失败：".to_string();
        m.append(e);
        v.push(Note::TellAll(error_json(m.as_str())));
    }
    v.push(Note::TellAll(typed_json("model_changed").with("model", Json::text(model))));
    if whole {
        v.push(Note::State);
    }
    proof {
        let rb = match rebuilt {
            Some(e) => Some(e@),
            None => None,
        };
        assert(notes(v@) =~= model_told(model@, rb, whole));
    }
    v
}

// ---------- groups ----------

/// An event of a group as it is told.
pub fn group_event_json(sid: &str, e: &GroupEvent) -> (r: Json)
    ensures
        r@ == typed("group_event"@).with("id"@, JsonView::Str(sid@)).with("event"@, event_form(e@)),
{
    typed_json("group_event").with("id", Json::text(sid)).with("event", event_json(e))
}

/// A channel's state as it is told.
pub fn channel_status_json(agent: &str, status: &str) -> (r: Json)
    ensures
        r@ == typed("channel_status"@).with("agent"@, JsonView::Str(agent@)).with("status"@, JsonView::Str(status@)),
{
    typed_json("channel_status").with("agent", Json::text(agent)).with("status", Json::text(status))
}

/// The result of a channel's test as it is told.
pub fn channel_test_json(agent: &str, ok: bool, detail: &str) -> (r: Json)
    ensures
        r@ == typed("channel_test"@).with("agent"@, JsonView::Str(agent@)).with("ok"@, JsonView::Bool(ok)).with(
            "detail"@,
            JsonView::Str(detail@),
        ),
{
    typed_json("channel_test").with("agent", Json::text(agent)).with("ok", Json::Bool(ok)).with(
        "detail",
        Json::text(detail),
    )
}

} // verus!
