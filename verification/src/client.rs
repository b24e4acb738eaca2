//! What a browser asks of the console: the messages and how they are read.

use vstd::prelude::*;

use crate::json::{json_parsed, parse, views, Json, JsonView};
use crate::text::{str_eq, trim, trim_string};

verus! {

/// The limits of the sandbox, as the console sets them.
#[derive(Debug, Clone, Copy, PartialEq, Eq, Structural)]
pub struct SandboxLimits {
    pub bash_timeout_secs: u64,
    pub max_processes: usize,
    pub max_memory_mb: usize,
    pub cpu_time_secs: u32,
    pub max_file_size_mb: u32,
    pub cgroup_memory_mb: u32,
}

/// A browser's message.
#[derive(Debug)]
pub enum ClientMsg {
    Prompt(String),
    Steer(String),
    Switch(String),
    DeleteSession(String),
    TaskApprove(String),
    TaskReject(String),
    TaskPause(String),
    TaskResume(String),
    TaskDelete(String),
    AgentApprove(String),
    AgentReject(String),
    AgentSwitch(String),
    SetModel(String),
    SetProfile(String),
    GroupPause(String),
    GroupStop(String),
    GroupRevokeLead(String),
    GroupSummary(String),
    GroupOpen(String),
    ChannelTest(String),
    NewSession,
    Fork { parent: String, upto: Option<usize> },
    SandboxSet(SandboxLimits),
    /// Members by name and display name.
    GroupCreate { title: String, members: Vec<(String, String)> },
    GroupPrompt { id: String, text: String },
    GroupDiscuss { id: String, topic: String },
    GroupDelegate { id: String, topic: String, lead: String },
    GroupSubtaskApprove { id: String, to: String },
    ChannelSet { agent: String, config: Json },
}

/// What a message holds.
pub enum ClientMsgView {
    Prompt(Seq<char>),
    Steer(Seq<char>),
    Switch(Seq<char>),
    DeleteSession(Seq<char>),
    TaskApprove(Seq<char>),
    TaskReject(Seq<char>),
    TaskPause(Seq<char>),
    TaskResume(Seq<char>),
    TaskDelete(Seq<char>),
    AgentApprove(Seq<char>),
    AgentReject(Seq<char>),
    AgentSwitch(Seq<char>),
    SetModel(Seq<char>),
    SetProfile(Seq<char>),
    GroupPause(Seq<char>),
    GroupStop(Seq<char>),
    GroupRevokeLead(Seq<char>),
    GroupSummary(Seq<char>),
    GroupOpen(Seq<char>),
    ChannelTest(Seq<char>),
    NewSession,
    Fork { parent: Seq<char>, upto: Option<usize> },
    SandboxSet(SandboxLimits),
    GroupCreate { title: Seq<char>, members: Seq<(Seq<char>, Seq<char>)> },
    GroupPrompt { id: Seq<char>, text: Seq<char> },
    GroupDiscuss { id: Seq<char>, topic: Seq<char> },
    GroupDelegate { id: Seq<char>, topic: Seq<char>, lead: Seq<char> },
    GroupSubtaskApprove { id: Seq<char>, to: Seq<char> },
    ChannelSet { agent: Seq<char>, config: JsonView },
}

/// Names and display names.
pub open spec fn name_pairs(v: Seq<(String, String)>) -> Seq<(Seq<char>, Seq<char>)> {
    Seq::new(v.len(), |i: int| (v[i].0@, v[i].1@))
}

impl View for ClientMsg {
    type V = ClientMsgView;

    open spec fn view(&self) -> ClientMsgView {
        match *self {
            ClientMsg::Prompt(s) => ClientMsgView::Prompt(s@),
            ClientMsg::Steer(s) => ClientMsgView::Steer(s@),
            ClientMsg::Switch(s) => ClientMsgView::Switch(s@),
            ClientMsg::DeleteSession(s) => ClientMsgView::DeleteSession(s@),
            ClientMsg::TaskApprove(s) => ClientMsgView::TaskApprove(s@),
            ClientMsg::TaskReject(s) => ClientMsgView::TaskReject(s@),
            ClientMsg::TaskPause(s) => ClientMsgView::TaskPause(s@),
            ClientMsg::TaskResume(s) => ClientMsgView::TaskResume(s@),
            ClientMsg::TaskDelete(s) => ClientMsgView::TaskDelete(s@),
            ClientMsg::AgentApprove(s) => ClientMsgView::AgentApprove(s@),
            ClientMsg::AgentReject(s) => ClientMsgView::AgentReject(s@),
            ClientMsg::AgentSwitch(s) => ClientMsgView::AgentSwitch(s@),
            ClientMsg::SetModel(s) => ClientMsgView::SetModel(s@),
            ClientMsg::SetProfile(s) => ClientMsgView::SetProfile(s@),
            ClientMsg::GroupPause(s) => ClientMsgView::GroupPause(s@),
            ClientMsg::GroupStop(s) => ClientMsgView::GroupStop(s@),
            ClientMsg::GroupRevokeLead(s) => ClientMsgView::GroupRevokeLead(s@),
            ClientMsg::GroupSummary(s) => ClientMsgView::GroupSummary(s@),
            ClientMsg::GroupOpen(s) => ClientMsgView::GroupOpen(s@),
            ClientMsg::ChannelTest(s) => ClientMsgView::ChannelTest(s@),
            ClientMsg::NewSession => ClientMsgView::NewSession,
            ClientMsg::Fork { parent, upto } => ClientMsgView::Fork { parent: parent@, upto },
            ClientMsg::SandboxSet(l) => ClientMsgView::SandboxSet(l),
            ClientMsg::GroupCreate { title, members } => ClientMsgView::GroupCreate {
                title: title@,
                members: name_pairs(members@),
            },
            ClientMsg::GroupPrompt { id, text } => ClientMsgView::GroupPrompt { id: id@, text: text@ },
            ClientMsg::GroupDiscuss { id, topic } => ClientMsgView::GroupDiscuss { id: id@, topic: topic@ },
            ClientMsg::GroupDelegate { id, topic, lead } => ClientMsgView::GroupDelegate {
                id: id@,
                topic: topic@,
                lead: lead@,
            },
            ClientMsg::GroupSubtaskApprove { id, to } => ClientMsgView::GroupSubtaskApprove { id: id@, to: to@ },
            ClientMsg::ChannelSet { agent, config } => ClientMsgView::ChannelSet {
                agent: agent@,
                config: config@,
            },
        }
    }
}

/// A message, or what is wrong with it.
pub type MsgResult = Result<ClientMsgView, Seq<char>>;

/// A string field, or the complaint that it is missing.
pub open spec fn str_field(v: JsonView, key: Seq<char>) -> Result<Seq<char>, Seq<char>> {
    match v.get_str(key) {
        Some(s) => Ok(s),
        None => Err("缺少字符串字段 "@ + key),
    }
}

/// Reads a string field.
pub fn get_str(v: &Json, key: &str) -> (r: Result<String, String>)
    ensures
        match r {
            Ok(s) => str_field(v@, key@) == Ok::<Seq<char>, Seq<char>>(s@),
            Err(e) => str_field(v@, key@) == Err::<Seq<char>, Seq<char>>(e@),
        },
{
    match v.get_str(key) {
        Some(s) => Ok(s.to_string()),
        None => {
            let mut e: String = "缺少字符串字段 ".to_string();
            e.append(key);
            Err(e)
        },
    }
}

/// A number field, or the complaint that it is missing.
pub open spec fn num_field(v: JsonView, key: Seq<char>) -> Result<u64, Seq<char>> {
    match v.get_u64(key) {
        Some(n) => Ok(n),
        None => Err("缺少数字字段 "@ + key),
    }
}

fn get_num(v: &Json, key: &str) -> (r: Result<u64, String>)
    ensures
        match r {
            Ok(n) => num_field(v@, key@) == Ok::<u64, Seq<char>>(n),
            Err(e) => num_field(v@, key@) == Err::<u64, Seq<char>>(e@),
        },
{
    match v.get_u64(key) {
        Some(n) => Ok(n),
        None => {
            let mut e: String = "缺少数字字段 ".to_string();
            e.append(key);
            Err(e)
        },
    }
}

/// A message that forks a session: the message up to which, if given, is a
/// number.
pub open spec fn fork_msg(v: JsonView) -> MsgResult {
    match str_field(v, "parent"@) {
        Err(e) => Err(e),
        Ok(parent) => match v.get("upto"@) {
            None => Ok(ClientMsgView::Fork { parent, upto: None }),
            Some(JsonView::Null) => Ok(ClientMsgView::Fork { parent, upto: None }),
            Some(JsonView::Uint(n)) => Ok(ClientMsgView::Fork { parent, upto: Some(n as usize) }),
            Some(_) => Err("upto 必须为非负整数"@),
        },
    }
}

fn read_fork(v: &Json) -> (r: Result<ClientMsg, String>)
    ensures
        msg_result(r) == fork_msg(v@),
{
    let parent: String = match get_str(v, "parent") {
        Ok(s) => s,
        Err(e) => {
            return Err(e);
        },
    };
    match v.get("upto") {
        None => Ok(ClientMsg::Fork { parent, upto: None }),
        Some(x) => match x {
            Json::Null => Ok(ClientMsg::Fork { parent, upto: None }),
            Json::Uint(n) => Ok(ClientMsg::Fork { parent, upto: Some(#[verifier::truncate] (*n as usize)) }),
            _ => Err("upto 必须为非负整数".to_string()),
        },
    }
}

/// A message that sets the sandbox's limits; each is a number.
pub open spec fn sandbox_msg(v: JsonView) -> MsgResult {
    match (
        num_field(v, "bash_timeout_secs"@),
        num_field(v, "max_processes"@),
        num_field(v, "max_memory_mb"@),
        num_field(v, "cpu_time_secs"@),
        num_field(v, "max_file_size_mb"@),
        num_field(v, "cgroup_memory_mb"@),
    ) {
        (Err(e), _, _, _, _, _) => Err(e),
        (_, Err(e), _, _, _, _) => Err(e),
        (_, _, Err(e), _, _, _) => Err(e),
        (_, _, _, Err(e), _, _) => Err(e),
        (_, _, _, _, Err(e), _) => Err(e),
        (_, _, _, _, _, Err(e)) => Err(e),
        (Ok(a), Ok(b), Ok(c), Ok(d), Ok(e), Ok(f)) => Ok(
            ClientMsgView::SandboxSet(
                SandboxLimits {
                    bash_timeout_secs: a,
                    max_processes: b as usize,
                    max_memory_mb: c as usize,
                    cpu_time_secs: d as u32,
                    max_file_size_mb: e as u32,
                    cgroup_memory_mb: f as u32,
                },
            ),
        ),
    }
}

fn read_sandbox(v: &Json) -> (r: Result<ClientMsg, String>)
    ensures
        msg_result(r) == sandbox_msg(v@),
{

    let bash_timeout_secs: u64 = match get_num(v, "bash_timeout_secs") {
        Ok(n) => n,
        Err(e) => {
            return Err(e);
        },
    };
    let max_processes: u64 = match get_num(v, "max_processes") {
        Ok(n) => n,
        Err(e) => {
            return Err(e);
        },
    };
    let max_memory_mb: u64 = match get_num(v, "max_memory_mb") {
        Ok(n) => n,
        Err(e) => {
            return Err(e);
        },
    };
    let cpu_time_secs: u64 = match get_num(v, "cpu_time_secs") {
        Ok(n) => n,
        Err(e) => {
            return Err(e);
        },
    };
    let max_file_size_mb: u64 = match get_num(v, "max_file_size_mb") {
        Ok(n) => n,
        Err(e) => {
            return Err(e);
        },
    };
    let cgroup_memory_mb: u64 = match get_num(v, "cgroup_memory_mb") {
        Ok(n) => n,
        Err(e) => {
            return Err(e);
        },
    };
    Ok(
        ClientMsg::SandboxSet(
            SandboxLimits {
                bash_timeout_secs,
                max_processes: #[verifier::truncate] (max_processes as usize),
                max_memory_mb: #[verifier::truncate] (max_memory_mb as usize),
                cpu_time_secs: #[verifier::truncate] (cpu_time_secs as u32),
                max_file_size_mb: #[verifier::truncate] (max_file_size_mb as u32),
                cgroup_memory_mb: #[verifier::truncate] (cgroup_memory_mb as u32),
            },
        ),
    )
}

/// The members that a list names, or the complaint that one has no name.
pub open spec fn listed_members(a: Seq<JsonView>) -> Result<Seq<(Seq<char>, Seq<char>)>, Seq<char>>
    decreases a.len(),
{
    if a.len() == 0 {
        Ok(Seq::empty())
    } else {
        match listed_members(a.drop_last()) {
            Err(e) => Err(e),
            Ok(before) => match a.last().get_str("name"@) {
                None => Err("members[] 缺少字符串字段 name"@),
                Some(name) => Ok(
                    before.push(
                        (
                            name,
                            match a.last().get_str("display_name"@) {
                                Some(d) => d,
                                None => Seq::empty(),
                            },
                        ),
                    ),
                ),
            },
        }
    }
}

/// A message that founds a group: it has a title and names at least one
/// member.
pub open spec fn create_msg(v: JsonView) -> MsgResult {
    match str_field(v, "title"@) {
        Err(e) => Err(e),
        Ok(title) => match v.get("members"@) {
            Some(JsonView::Arr(a)) => match listed_members(a) {
                Err(e) => Err(e),
                Ok(members) => if members.len() == 0 {
                    Err("members 至少包含 1 个 agent 分身"@)
                } else {
                    Ok(ClientMsgView::GroupCreate { title, members })
                },
            },
            _ => Err("缺少数组字段 members"@),
        },
    }
}

proof fn lemma_first_unnamed(a: Seq<JsonView>, k: int)
    requires
        0 <= k <= a.len(),
        listed_members(a.take(k)) is Err,
    ensures
        listed_members(a) == listed_members(a.take(k)),
    decreases a.len() - k,
{
    if k < a.len() {
        assert(a.take(k + 1).drop_last() =~= a.take(k));
        lemma_first_unnamed(a, k + 1);
    } else {
        assert(a.take(k) =~= a);
    }
}

fn read_members(a: &Vec<Json>) -> (r: Result<Vec<(String, String)>, String>)
    ensures
        match r {
            Ok(m) => listed_members(views(a@)) == Ok::<Seq<(Seq<char>, Seq<char>)>, Seq<char>>(name_pairs(m@)),
            Err(e) => listed_members(views(a@)) == Err::<Seq<(Seq<char>, Seq<char>)>, Seq<char>>(e@),
        },
{
    let ghost all = views(a@);
    let mut out: Vec<(String, String)> = Vec::new();
    let mut i: usize = 0;
    assert(name_pairs(out@) =~= Seq::empty());
    while i < a.len()
        invariant
            i <= a.len(),
            all == views(a@),
            listed_members(all.take(i as int)) == Ok::<Seq<(Seq<char>, Seq<char>)>, Seq<char>>(name_pairs(out@)),
        decreases a.len() - i,
    {
        let ghost before = name_pairs(out@);
        proof {
            assert(all.take(i as int + 1).drop_last() =~= all.take(i as int));
            assert(all.take(i as int + 1).last() == a@[i as int]@);
        }
        let name: String = match a[i].get_str("name") {
            Some(s) => s.to_string(),
            None => {
                proof {
                    lemma_first_unnamed(all, i as int + 1);
                }
                return Err("members[] 缺少字符串字段 name".to_string());
            },
        };
        let display: String = match a[i].get_str("display_name") {
            Some(s) => s.to_string(),
            None => String::new(),
        };
        let ghost p = (name@, display@);
        assert(a@[i as int]@.get_str("display_name"@) is None ==> display@ =~= Seq::empty());
        out.push((name, display));
        assert(name_pairs(out@) =~= before.push(p));
        i += 1;
    }
    assert(all.take(i as int) =~= all);
    Ok(out)
}

fn read_create(v: &Json) -> (r: Result<ClientMsg, String>)
    ensures
        msg_result(r) == create_msg(v@),
{
    let title: String = match get_str(v, "title") {
        Ok(s) => s,
        Err(e) => {
            return Err(e);
        },
    };
    let arr: &Vec<Json> = match v.get("members") {
        Some(x) => match x.as_arr() {
            Some(a) => a,
            None => {
                return Err("缺少数组字段 members".to_string());
            },
        },
        None => {
            return Err("缺少数组字段 members".to_string());
        },
    };
    let members: Vec<(String, String)> = match read_members(arr) {
        Ok(m) => m,
        Err(e) => {
            return Err(e);
        },
    };
    if members.len() == 0 {
        return Err("members 至少包含 1 个 agent 分身".to_string());
    }
    Ok(ClientMsg::GroupCreate { title, members })
}

/// A message with two string fields.
pub open spec fn two_fields(v: JsonView, a: Seq<char>, b: Seq<char>) -> Result<(Seq<char>, Seq<char>), Seq<char>> {
    match str_field(v, a) {
        Err(e) => Err(e),
        Ok(x) => match str_field(v, b) {
            Err(e) => Err(e),
            Ok(y) => Ok((x, y)),
        },
    }
}

fn get_two(v: &Json, a: &str, b: &str) -> (r: Result<(String, String), String>)
    ensures
        match r {
            Ok((x, y)) => two_fields(v@, a@, b@) == Ok::<(Seq<char>, Seq<char>), Seq<char>>((x@, y@)),
            Err(e) => two_fields(v@, a@, b@) == Err::<(Seq<char>, Seq<char>), Seq<char>>(e@),
        },
{
    match get_str(v, a) {
        Err(e) => Err(e),
        Ok(x) => match get_str(v, b) {
            Err(e) => Err(e),
            Ok(y) => Ok((x, y)),
        },
    }
}

/// A message that sets an agent's channel.
pub open spec fn channel_msg(v: JsonView) -> MsgResult {
    match str_field(v, "agent"@) {
        Err(e) => Err(e),
        Ok(agent) => match v.get("config"@) {
            None => Err("缺少字段 config"@),
            Some(config) => Ok(ClientMsgView::ChannelSet { agent, config }),
        },
    }
}

/// The message of a type with one string field.
pub open spec fn one_field_msg(t: Seq<char>, v: JsonView) -> Option<MsgResult> {
    let field = |k: Seq<char>, f: spec_fn(Seq<char>) -> ClientMsgView|
        match str_field(v, k) {
            Ok(s) => Some(Ok(f(s))),
            Err(e) => Some(Err(e)),
        };
    if t == "prompt"@ {
        field("input"@, |s: Seq<char>| ClientMsgView::Prompt(s))
    } else if t == "steer"@ {
        field("text"@, |s: Seq<char>| ClientMsgView::Steer(s))
    } else if t == "switch"@ {
        field("id"@, |s: Seq<char>| ClientMsgView::Switch(s))
    } else if t == "delete_session"@ {
        field("id"@, |s: Seq<char>| ClientMsgView::DeleteSession(s))
    } else if t == "task_approve"@ {
        field("id"@, |s: Seq<char>| ClientMsgView::TaskApprove(s))
    } else if t == "task_reject"@ {
        field("id"@, |s: Seq<char>| ClientMsgView::TaskReject(s))
    } else if t == "task_pause"@ {
        field("id"@, |s: Seq<char>| ClientMsgView::TaskPause(s))
    } else if t == "task_resume"@ {
        field("id"@, |s: Seq<char>| ClientMsgView::TaskResume(s))
    } else if t == "task_delete"@ {
        field("id"@, |s: Seq<char>| ClientMsgView::TaskDelete(s))
    } else if t == "agent_approve"@ {
        field("name"@, |s: Seq<char>| ClientMsgView::AgentApprove(s))
    } else if t == "agent_reject"@ {
        field("name"@, |s: Seq<char>| ClientMsgView::AgentReject(s))
    } else if t == "agent_switch"@ {
        field("name"@, |s: Seq<char>| ClientMsgView::AgentSwitch(s))
    } else if t == "set_model"@ {
        field("model"@, |s: Seq<char>| ClientMsgView::SetModel(s))
    } else if t == "set_profile"@ {
        field("name"@, |s: Seq<char>| ClientMsgView::SetProfile(s))
    } else if t == "group_pause"@ {
        field("id"@, |s: Seq<char>| ClientMsgView::GroupPause(s))
    } else if t == "group_stop"@ {
        field("id"@, |s: Seq<char>| ClientMsgView::GroupStop(s))
    } else if t == "group_revoke_lead"@ {
        field("id"@, |s: Seq<char>| ClientMsgView::GroupRevokeLead(s))
    } else if t == "group_summary"@ {
        field("id"@, |s: Seq<char>| ClientMsgView::GroupSummary(s))
    } else if t == "group_open"@ {
        field("id"@, |s: Seq<char>| ClientMsgView::GroupOpen(s))
    } else if t == "channel_test"@ {
        field("agent"@, |s: Seq<char>| ClientMsgView::ChannelTest(s))
    } else {
        None
    }
}

/// The message of a type with other fields.
pub open spec fn other_msg(t: Seq<char>, v: JsonView) -> MsgResult {
    if t == "new_session"@ {
        Ok(ClientMsgView::NewSession)
    } else if t == "fork"@ {
        fork_msg(v)
    } else if t == "sandbox_set"@ {
        sandbox_msg(v)
    } else if t == "group_create"@ {
        create_msg(v)
    } else if t == "group_prompt"@ {
        match two_fields(v, "id"@, "text"@) {
            Ok((id, text)) => Ok(ClientMsgView::GroupPrompt { id, text }),
            Err(e) => Err(e),
        }
    } else if t == "group_discuss"@ {
        match two_fields(v, "id"@, "topic"@) {
            Ok((id, topic)) => Ok(ClientMsgView::GroupDiscuss { id, topic }),
            Err(e) => Err(e),
        }
    } else if t == "group_delegate"@ {
        match two_fields(v, "id"@, "topic"@) {
            Ok((id, topic)) => match str_field(v, "lead"@) {
                Ok(lead) => Ok(ClientMsgView::GroupDelegate { id, topic, lead }),
                Err(e) => Err(e),
            },
            Err(e) => Err(e),
        }
    } else if t == "group_subtask_approve"@ {
        match two_fields(v, "id"@, "to"@) {
            Ok((id, to)) => Ok(ClientMsgView::GroupSubtaskApprove { id, to }),
            Err(e) => Err(e),
        }
    } else if t == "channel_set"@ {
        channel_msg(v)
    } else {
        Err("未知消息类型："@ + t)
    }
}

/// The message in a value, or what is wrong with it.
pub open spec fn client_msg(v: JsonView) -> MsgResult {
    match v.get_str("t"@) {
        None => Err("缺少字符串字段 t"@),
        Some(t) => match one_field_msg(t, v) {
            Some(r) => r,
            None => other_msg(t, v),
        },
    }
}

/// What the result of a reading holds.
pub open spec fn msg_result(r: Result<ClientMsg, String>) -> MsgResult {
    match r {
        Ok(m) => Ok(m@),
        Err(e) => Err(e@),
    }
}

fn read_one_field(t: &str, v: &Json) -> (r: Option<Result<ClientMsg, String>>)
    ensures
        match r {
            Some(x) => one_field_msg(t@, v@) == Some(msg_result(x)),
            None => one_field_msg(t@, v@) is None,
        },
{
    if str_eq(t, "prompt") {
        Some(
            match get_str(v, "input") {
                Ok(s) => Ok(ClientMsg::Prompt(s)),
                Err(e) => Err(e),
            },
        )
    } else if str_eq(t, "steer") {
        Some(
            match get_str(v, "text") {
                Ok(s) => Ok(ClientMsg::Steer(s)),
                Err(e) => Err(e),
            },
        )
    } else if str_eq(t, "switch") {
        Some(
            match get_str(v, "id") {
                Ok(s) => Ok(ClientMsg::Switch(s)),
                Err(e) => Err(e),
            },
        )
    } else if str_eq(t, "delete_session") {
        Some(
            match get_str(v, "id") {
                Ok(s) => Ok(ClientMsg::DeleteSession(s)),
                Err(e) => Err(e),
            },
        )
    } else if str_eq(t, "task_approve") {
        Some(
            match get_str(v, "id") {
                Ok(s) => Ok(ClientMsg::TaskApprove(s)),
                Err(e) => Err(e),
            },
        )
    } else if str_eq(t, "task_reject") {
        Some(
            match get_str(v, "id") {
                Ok(s) => Ok(ClientMsg::TaskReject(s)),
                Err(e) => Err(e),
            },
        )
    } else if str_eq(t, "task_pause") {
        Some(
            match get_str(v, "id") {
                Ok(s) => Ok(ClientMsg::TaskPause(s)),
                Err(e) => Err(e),
            },
        )
    } else if str_eq(t, "task_resume") {
        Some(
            match get_str(v, "id") {
                Ok(s) => Ok(ClientMsg::TaskResume(s)),
                Err(e) => Err(e),
            },
        )
    } else if str_eq(t, "task_delete") {
        Some(
            match get_str(v, "id") {
                Ok(s) => Ok(ClientMsg::TaskDelete(s)),
                Err(e) => Err(e),
            },
        )
    } else if str_eq(t, "agent_approve") {
        Some(
            match get_str(v, "name") {
                Ok(s) => Ok(ClientMsg::AgentApprove(s)),
                Err(e) => Err(e),
            },
        )
    } else if str_eq(t, "agent_reject") {
        Some(
            match get_str(v, "name") {
                Ok(s) => Ok(ClientMsg::AgentReject(s)),
                Err(e) => Err(e),
            },
        )
    } else if str_eq(t, "agent_switch") {
        Some(
            match get_str(v, "name") {
                Ok(s) => Ok(ClientMsg::AgentSwitch(s)),
                Err(e) => Err(e),
            },
        )
    } else if str_eq(t, "set_model") {
        Some(
            match get_str(v, "model") {
                Ok(s) => Ok(ClientMsg::SetModel(s)),
                Err(e) => Err(e),
            },
        )
    } else if str_eq(t, "set_profile") {
        Some(
            match get_str(v, "name") {
                Ok(s) => Ok(ClientMsg::SetProfile(s)),
                Err(e) => Err(e),
            },
        )
    } else if str_eq(t, "group_pause") {
        Some(
            match get_str(v, "id") {
                Ok(s) => Ok(ClientMsg::GroupPause(s)),
                Err(e) => Err(e),
            },
        )
    } else if str_eq(t, "group_stop") {
        Some(
            match get_str(v, "id") {
                Ok(s) => Ok(ClientMsg::GroupStop(s)),
                Err(e) => Err(e),
            },
        )
    } else if str_eq(t, "group_revoke_lead") {
        Some(
            match get_str(v, "id") {
                Ok(s) => Ok(ClientMsg::GroupRevokeLead(s)),
                Err(e) => Err(e),
            },
        )
    } else if str_eq(t, "group_summary") {
        Some(
            match get_str(v, "id") {
                Ok(s) => Ok(ClientMsg::GroupSummary(s)),
                Err(e) => Err(e),
            },
        )
    } else if str_eq(t, "group_open") {
        Some(
            match get_str(v, "id") {
                Ok(s) => Ok(ClientMsg::GroupOpen(s)),
                Err(e) => Err(e),
            },
        )
    } else if str_eq(t, "channel_test") {
        Some(
            match get_str(v, "agent") {
                Ok(s) => Ok(ClientMsg::ChannelTest(s)),
                Err(e) => Err(e),
            },
        )
    } else {
        None
    }
}

fn read_other(t: &str, v: &Json) -> (r: Result<ClientMsg, String>)
    ensures
        msg_result(r) == other_msg(t@, v@),
{
    if str_eq(t, "new_session") {
        Ok(ClientMsg::NewSession)
    } else if str_eq(t, "fork") {
        read_fork(v)
    } else if str_eq(t, "sandbox_set") {
        read_sandbox(v)
    } else if str_eq(t, "group_create") {
        read_create(v)
    } else if str_eq(t, "group_prompt") {
        match get_two(v, "id", "text") {
            Ok((id, text)) => Ok(ClientMsg::GroupPrompt { id, text }),
            Err(e) => Err(e),
        }
    } else if str_eq(t, "group_discuss") {
        match get_two(v, "id", "topic") {
            Ok((id, topic)) => Ok(ClientMsg::GroupDiscuss { id, topic }),
            Err(e) => Err(e),
        }
    } else if str_eq(t, "group_delegate") {
        match get_two(v, "id", "topic") {
            Ok((id, topic)) => match get_str(v, "lead") {
                Ok(lead) => Ok(ClientMsg::GroupDelegate { id, topic, lead }),
                Err(e) => Err(e),
            },
            Err(e) => Err(e),
        }
    } else if str_eq(t, "group_subtask_approve") {
        match get_two(v, "id", "to") {
            Ok((id, to)) => Ok(ClientMsg::GroupSubtaskApprove { id, to }),
            Err(e) => Err(e),
        }
    } else if str_eq(t, "channel_set") {
        match get_str(v, "agent") {
            Ok(agent) => match v.get("config") {
                Some(c) => Ok(ClientMsg::ChannelSet { agent, config: c.dup() }),
                None => Err("缺少字段 config".to_string()),
            },
            Err(e) => Err(e),
        }
    } else {
        let mut e: String = "未知消息类型：".to_string();
        e.append(t);
        Err(e)
    }
}

/// Reads a message out of a value.
pub fn read_client_msg(v: &Json) -> (r: Result<ClientMsg, String>)
    ensures
        msg_result(r) == client_msg(v@),
{
    let t: &str = match v.get_str("t") {
        Some(t) => t,
        None => {
            return Err("缺少字符串字段 t".to_string());
        },
    };
    match read_one_field(t, v) {
        Some(r) => r,
        None => read_other(t, v),
    }
}

/// Reads a message out of a text.
pub fn parse_client_msg(text: &str) -> (r: Result<ClientMsg, String>)
    ensures
        msg_result(r) == (match json_parsed(trim(text@)) {
            Ok(v) => client_msg(v),
            Err(e) => Err("JSON 解析失败："@ + e),
        }),
{
    let t: String = trim_string(text);
    match parse(t.as_str()) {
        Ok(v) => read_client_msg(&v),
        Err(e) => {
            let mut m: String = "JSON 解析失败：".to_string();
            m.append(e.as_str());
            Err(m)
        },
    }
}

} // verus!
