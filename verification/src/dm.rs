//! Private messages: who may write, which commands there are, how messages
//! wait for their turn, what is shown of a run, and which channels run.

use vstd::prelude::*;

use crate::agents::{policy_of, AgentProfile, ChannelFeishu};
use crate::channels::ChannelStatus;
use crate::config::{model_text, Config, ModelProfile};
use crate::events::{AgentEvent, AgentEventView};
use crate::json::{str_items, views, Json, JsonView};
use crate::models::{compact, compact_string};
use crate::text::{
    char_count, chars_of, dec, dec_string, first_index, head, head_string, index_from, join, join_strings, list_has,
    slice_of, starts_with, str_eq, strs, tail, tail_string, trim, trim_string,
};
use crate::types::{opt_view, UsageStats};

verus! {

/// Seconds after which a run for a message is given up.
pub const DM_PROMPT_TIMEOUT_SECS: u64 = 600;

/// Seconds after which a silent run gives a sign of life.
pub const DM_HEARTBEAT_SECS: u64 = 120;

/// The most messages that wait.
pub const DM_QUEUE_MAX: usize = 8;

/// Characters of reasoning that are sent together.
pub const DM_THINKING_FLUSH_CHARS: usize = 500;

/// Characters of the run that a card shows.
pub const DM_NOTE_CHARS: usize = 1200;

/// Seconds that a test of a channel waits.
pub const CHANNEL_TEST_TIMEOUT_SECS: u64 = 10;

// ---------- who may write, and what is shown ----------

/// How much of a run is shown, from little to much.
#[derive(Debug, Clone, Copy, PartialEq, Eq, PartialOrd, Ord, Structural)]
pub enum ShowProcess {
    Silent,
    Compact,
    Full,
}

/// How much of a run is shown; what is not known means the middle.
pub open spec fn mode_of(s: Seq<char>) -> ShowProcess {
    if s == "none"@ {
        ShowProcess::Silent
    } else if s == "full"@ {
        ShowProcess::Full
    } else {
        ShowProcess::Compact
    }
}

pub fn show_process_mode(s: &str) -> (r: ShowProcess)
    ensures
        r == mode_of(s@),
{
    if str_eq(s, "none") {
        ShowProcess::Silent
    } else if str_eq(s, "full") {
        ShowProcess::Full
    } else {
        ShowProcess::Compact
    }
}

/// Whether a sender may write to a channel.
pub open spec fn may_write(cf: ChannelFeishu, open_id: Seq<char>) -> bool {
    let (policy, list) = policy_of(cf);
    if policy == "allow_all"@ {
        true
    } else if policy == "allow_list"@ {
        list.contains(open_id)
    } else if policy == "deny_list"@ {
        !list.contains(open_id)
    } else {
        false
    }
}

pub fn feishu_allowed(cf: &ChannelFeishu, open_id: &str) -> (r: bool)
    ensures
        r == may_write(*cf, open_id@),
{
    let (policy, list) = cf.effective_policy();
    if str_eq(policy, "allow_all") {
        true
    } else if str_eq(policy, "allow_list") {
        list_has(list, open_id)
    } else if str_eq(policy, "deny_list") {
        !list_has(list, open_id)
    } else {
        false
    }
}

/// Nobody may write where neither a policy nor a list of senders is set.
pub proof fn law_closed_by_default(cf: ChannelFeishu, open_id: Seq<char>)
    requires
        cf.dm_policy@ == "deny_all"@,
        cf.allow_from@.len() == 0,
    ensures
        !may_write(cf, open_id),
{
    reveal_strlit("deny_all");
    reveal_strlit("allow_all");
    reveal_strlit("allow_list");
    reveal_strlit("deny_list");
    assert("deny_all"@.len() == 8);
    assert("allow_all"@.len() == 9);
    assert("allow_list"@.len() == 10);
    assert("deny_list"@.len() == 9);
    assert(strs(cf.allow_from@) =~= Seq::<Seq<char>>::empty());
}

/// The place of a sender's session with an agent.
pub fn dm_key(agent: &str, open_id: &str) -> (r: String)
    ensures
        r@ == agent@ + "|"@ + open_id@,
{
    let mut s: String = agent.to_string();
    s.append("|");
    s.append(open_id);
    s
}

/// Different agents or senders have different places, as no agent's name holds
/// a bar.
pub proof fn law_places_differ(agent: Seq<char>, open_id: Seq<char>, other: Seq<char>, other_id: Seq<char>)
    requires
        !agent.contains('|'),
        !other.contains('|'),
        agent + "|"@ + open_id == other + "|"@ + other_id,
    ensures
        agent == other,
        open_id == other_id,
{
    reveal_strlit("|");
    let a = agent + "|"@ + open_id;
    let b = other + "|"@ + other_id;
    assert(a[agent.len() as int] == '|');
    assert(b[other.len() as int] == '|');
    if agent.len() < other.len() {
        assert(b[agent.len() as int] == other[agent.len() as int]);
        assert(other.contains('|'));
    }
    if other.len() < agent.len() {
        assert(a[other.len() as int] == agent[other.len() as int]);
        assert(agent.contains('|'));
    }
    assert(agent =~= a.take(agent.len() as int));
    assert(other =~= b.take(other.len() as int));
    assert(open_id =~= a.skip(agent.len() as int + 1));
    assert(other_id =~= b.skip(other.len() as int + 1));
}

/// What is shown of a tool call: the tool and the start of its arguments.
pub open spec fn call_summary(name: Seq<char>, arguments: Seq<char>) -> Seq<char> {
    "🔧 "@ + name + " "@ + (if arguments.len() > 60 {
        head(arguments, 60).push('…')
    } else {
        head(arguments, 60)
    })
}

pub fn tool_call_summary(name: &str, arguments: &str) -> (r: String)
    ensures
        r@ == call_summary(name@, arguments@),
{
    let mut args: String = head_string(arguments, 60);
    if char_count(arguments) > 60 {
        args.push('…');
    }
    let mut s: String = "🔧 ".to_string();
    s.append(name);
    s.append(" ");
    s.append(args.as_str());
    s
}

/// A number of tokens in short.
pub fn fmt_tok(n: u64) -> (r: String)
    ensures
        r@ == compact(n, "k"@, "m"@),
{
    compact_string(n, "k", "m")
}

// ---------- commands ----------

/// A command in a message.
#[derive(Debug)]
pub enum Slash {
    Help,
    Status,
    New,
    /// The model's name; empty to list them.
    Model(String),
    Unknown(String),
}

/// What a command holds.
pub enum SlashView {
    Help,
    Status,
    New,
    Model(Seq<char>),
    Unknown(Seq<char>),
}

impl View for Slash {
    type V = SlashView;

    open spec fn view(&self) -> SlashView {
        match *self {
            Slash::Help => SlashView::Help,
            Slash::Status => SlashView::Status,
            Slash::New => SlashView::New,
            Slash::Model(s) => SlashView::Model(s@),
            Slash::Unknown(s) => SlashView::Unknown(s@),
        }
    }
}

/// The command and its argument: what stands before and after the first space.
pub open spec fn command_parts(t: Seq<char>) -> (Seq<char>, Seq<char>) {
    let i = first_index(t, ' ');
    if i < t.len() {
        (t.take(i), trim(t.skip(i + 1)))
    } else {
        (t, Seq::empty())
    }
}

/// The command in a message, if it is one.
pub open spec fn slash_of(text: Seq<char>) -> Option<SlashView> {
    let t = trim(text);
    if !crate::text::occurs_at(t, "/"@, 0) {
        None
    } else {
        let (cmd, arg) = command_parts(t);
        Some(
            if cmd == "/help"@ {
                SlashView::Help
            } else if cmd == "/status"@ {
                SlashView::Status
            } else if cmd == "/new"@ {
                SlashView::New
            } else if cmd == "/model"@ {
                SlashView::Model(arg)
            } else {
                SlashView::Unknown(cmd)
            },
        )
    }
}

/// The command in a message, if it is one.
pub fn parse_slash(text: &str) -> (r: Option<Slash>)
    ensures
        match r {
            Some(s) => slash_of(text@) == Some(s@),
            None => slash_of(text@) is None,
        },
{
    let t: String = trim_string(text);
    if !starts_with(t.as_str(), "/") {
        return None;
    }
    let v: Vec<char> = chars_of(t.as_str());
    let i: usize = index_from(v.as_slice(), ' ', 0);
    assert(v@.skip(0) =~= v@);
    proof {
        crate::text::lemma_first_index(t@, ' ');
    }
    let cmd: String;
    let arg: String;
    if i < v.len() {
        cmd = slice_of(v.as_slice(), 0, i);
        assert(cmd@ =~= t@.take(i as int));
        let rest: String = slice_of(v.as_slice(), i + 1, v.len());
        assert(rest@ =~= t@.skip(i as int + 1));
        arg = trim_string(rest.as_str());
    } else {
        cmd = t.clone();
        arg = String::new();
        assert(arg@ =~= Seq::<char>::empty());
    }
    assert(command_parts(t@) == (cmd@, arg@));
    if str_eq(cmd.as_str(), "/help") {
        Some(Slash::Help)
    } else if str_eq(cmd.as_str(), "/status") {
        Some(Slash::Status)
    } else if str_eq(cmd.as_str(), "/new") {
        Some(Slash::New)
    } else if str_eq(cmd.as_str(), "/model") {
        Some(Slash::Model(arg))
    } else {
        Some(Slash::Unknown(cmd))
    }
}

/// What is told on commands.
pub const DM_HELP: &'static str = "📋 可用命令：\n             /model [名字] — 查看/切换模型（不带参数列出可用档案）\n             /new — 开启新话题（历史自动归档）\n             /status — 当前模型/会话/通道状态\n             /help — 本帮助\n\n💡 回复进行中直接发消息 = ⚡ 插话转向（不用等它跑完）";

/// A channel's state as text.
pub open spec fn status_text(st: ChannelStatus) -> Seq<char> {
    match st {
        ChannelStatus::Connecting => "connecting"@,
        ChannelStatus::Connected => "connected"@,
        ChannelStatus::Reconnecting => "reconnecting"@,
        ChannelStatus::Failed(e) => "failed: "@ + e@,
    }
}

pub fn channel_status_str(st: &ChannelStatus) -> (r: String)
    ensures
        r@ == status_text(*st),
{
    match st {
        ChannelStatus::Connecting => "connecting".to_string(),
        ChannelStatus::Connected => "connected".to_string(),
        ChannelStatus::Reconnecting => "reconnecting".to_string(),
        ChannelStatus::Failed(e) => {
            let mut s: String = "failed: ".to_string();
            s.append(e.as_str());
            s
        },
    }
}

/// The state of a channel that may not run.
pub open spec fn opt_status(st: Option<&ChannelStatus>) -> Seq<char> {
    match st {
        Some(s) => status_text(*s),
        None => "stopped"@,
    }
}

fn opt_status_string(st: Option<&ChannelStatus>) -> (r: String)
    ensures
        r@ == opt_status(st),
{
    match st {
        Some(s) => channel_status_str(s),
        None => "stopped".to_string(),
    }
}

/// The reply to `/status`.
pub fn status_reply(cfg: &Config, channel: Option<&ChannelStatus>, busy: bool, queued: usize) -> (r: String)
    ensures
        r@ == "🤖 模型："@ + model_text(cfg.model) + "（档案 "@ + (if cfg.model.active_profile@.len() == 0 {
            "（单模型配置）"@
        } else {
            cfg.model.active_profile@
        }) + "）\n📭 会话："@ + (if busy {
            "处理中"@
        } else {
            "空闲"@
        }) + "（排队 "@ + dec(queued as nat) + " 条）\n🔌 通道："@ + opt_status(channel) + "\n📦 沙箱："@ + cfg.sandbox.level@,
{
    let mut s: String = "🤖 模型：".to_string();
    s.append(cfg.current_model());
    s.append("（档案 ");
    if cfg.model.active_profile.as_str().is_empty() {
        s.append("（单模型配置）");
    } else {
        s.append(cfg.model.active_profile.as_str());
    }
    s.append("）\n📭 会话：");
    s.append(
        if busy {
            "处理中"
        } else {
            "空闲"
        },
    );
    s.append("（排队 ");
    let q: String = dec_string(queued as u64);
    s.append(q.as_str());
    s.append(" 条）\n🔌 通道：");
    let ch: String = opt_status_string(channel);
    s.append(ch.as_str());
    s.append("\n📦 沙箱：");
    s.append(cfg.sandbox.level.as_str());
    s
}

/// A place of a session: none yet, in use, or free.
#[derive(Debug, Clone, Copy, PartialEq, Eq, Structural)]
pub enum DmPlace {
    Nothing,
    Busy,
    Free,
}

/// The reply to `/new` where no new session is made: there is none, or it is
/// in use.
pub fn new_refused(place: DmPlace) -> (r: Option<String>)
    ensures
        opt_view(r) == (match place {
            DmPlace::Nothing => Some("当前没有进行中的会话，直接发消息即可"@),
            DmPlace::Busy => Some("（正在处理消息，完成后在发 /new）"@),
            DmPlace::Free => None,
        }),
{
    match place {
        DmPlace::Nothing => Some("当前没有进行中的会话，直接发消息即可".to_string()),
        DmPlace::Busy => Some("（正在处理消息，完成后在发 /new）".to_string()),
        DmPlace::Free => None,
    }
}

/// The reply to `/new` after a session was made, or was not.
pub fn new_reply(made: &Result<Option<String>, String>) -> (r: String)
    ensures
        r@ == (match *made {
            Ok(id) => "🆕 新话题已开启（"@ + (match id {
                Some(s) => head(s@, 8),
                None => Seq::empty(),
            }) + "…）——历史已归档，我们从头开始"@,
            Err(e) => "（新建会话失败："@ + e@ + "）"@,
        }),
{
    match made {
        Ok(id) => {
            let short: String = match id {
                Some(s) => head_string(s.as_str(), 8),
                None => String::new(),
            };
            assert(*id is None ==> short@ =~= Seq::<char>::empty());
            let mut r: String = "🆕 新话题已开启（".to_string();
            r.append(short.as_str());
            r.append("…）——历史已归档，我们从头开始");
            r
        },
        Err(e) => {
            let mut r: String = "（新建会话失败：".to_string();
            r.append(e.as_str());
            r.append("）");
            r
        },
    }
}

/// The lines on the models to choose.
pub open spec fn model_lines(v: Seq<ModelProfile>, active: Seq<char>) -> Seq<Seq<char>> {
    Seq::new(
        v.len(),
        |i: int|
            "· "@ + v[i].name@ + " → "@ + v[i].model@ + (if v[i].name@ == active {
                " ✓当前"@
            } else {
                Seq::empty()
            }),
    )
}

/// The reply to `/model` without a name.
pub fn model_list_reply(cfg: &Config) -> (r: String)
    ensures
        r@ == (if cfg.model.profiles@.len() == 0 {
            "（config.toml 未配置 [[model.profiles]]，只有单模型："@ + model_text(cfg.model) + "）"@
        } else {
            "可用模型档案：\n"@ + join(model_lines(cfg.model.profiles@, cfg.model.active_profile@), "\n"@)
                + "\n用法：/model 档案名"@
        }),
{
    if cfg.model.profiles.len() == 0 {
        let mut s: String = "（config.toml 未配置 [[model.profiles]]，只有单模型：".to_string();
        s.append(cfg.current_model());
        s.append("）");
        return s;
    }
    let mut out: Vec<String> = Vec::new();
    let mut i: usize = 0;
    while i < cfg.model.profiles.len()
        invariant
            i <= cfg.model.profiles.len(),
            out@.len() == i,
            forall|k: int|
                0 <= k < i ==> (#[trigger] out@[k])@ == model_lines(
                    cfg.model.profiles@,
                    cfg.model.active_profile@,
                )[k],
        decreases cfg.model.profiles.len() - i,
    {
        let p: &ModelProfile = &cfg.model.profiles[i];
        let mut s: String = "· ".to_string();
        s.append(p.name.as_str());
        s.append(" → ");
        s.append(p.model.as_str());
        let ghost base = s@;
        if str_eq(p.name.as_str(), cfg.model.active_profile.as_str()) {
            s.append(" ✓当前");
        } else {
            assert(base + Seq::<char>::empty() =~= base);
        }
        out.push(s);
        i += 1;
    }
    assert(strs(out@) =~= model_lines(cfg.model.profiles@, cfg.model.active_profile@));
    let mut r: String = "可用模型档案：\n".to_string();
    let j: String = join_strings(&out, "\n");
    r.append(j.as_str());
    r.append("\n用法：/model 档案名");
    r
}

/// How the session fared after its model was changed.
#[derive(Debug)]
pub enum Rebuilt {
    NoSession,
    Busy,
    Done,
    Failed(String),
}

/// The reply to `/model` with a name: the model that is now in use, or why not;
/// then what became of the session.
pub fn model_reply(name: &str, applied: &Result<String, String>, session: &Rebuilt) -> (r: String)
    ensures
        r@ == (match *applied {
            Err(e) => "（"@ + e@ + "）"@,
            Ok(m) => "模型已切换为 "@ + m@ + "（"@ + name@ + "）"@ + (match *session {
                Rebuilt::NoSession => "\n（当前无会话，下一条消息将以新模型开始）"@,
                Rebuilt::Busy => "\n（正在处理消息，当前会话不动；下一条新消息用新模型）"@,
                Rebuilt::Done => "\n会话已按新模型重建（历史保留）"@,
                Rebuilt::Failed(e) => "\n（会话重建失败："@ + e@ + "；新消息将新建会话）"@,
            }),
        }),
{
    match applied {
        Err(e) => {
            let mut s: String = "（".to_string();
            s.append(e.as_str());
            s.append("）");
            s
        },
        Ok(m) => {
            let mut s: String = "模型已切换为 ".to_string();
            s.append(m.as_str());
            s.append("（");
            s.append(name);
            s.append("）");
            let mut t: String = String::new();
            match session {
                Rebuilt::NoSession => {
                    t = "\n（当前无会话，下一条消息将以新模型开始）".to_string();
                },
                Rebuilt::Busy => {
                    t = "\n（正在处理消息，当前会话不动；下一条新消息用新模型）".to_string();
                },
                Rebuilt::Done => {
                    t = "\n会话已按新模型重建（历史保留）".to_string();
                },
                Rebuilt::Failed(e) => {
                    t = "\n（会话重建失败：".to_string();
                    t.append(e.as_str());
                    t.append("；新消息将新建会话）");
                },
            }
            s.append(t.as_str());
            s
        },
    }
}

/// The reply to a command that is not known.
pub fn unknown_reply(cmd: &str) -> (r: String)
    ensures
        r@ == "未知命令 "@ + cmd@ + "——/help 查看可用命令"@,
{
    let mut s: String = "未知命令 ".to_string();
    s.append(cmd);
    s.append("——/help 查看可用命令");
    s
}

// ---------- a message comes in ----------

/// What is done with a message.
#[derive(Debug)]
pub enum DmEntry {
    /// The reply is sent, and that is all.
    Reply(String),
    Command(Slash),
    /// The message goes to the sender's session.
    Prompt,
}

/// What is done with a message: it is refused, or it holds no text, or it is a
/// command, or it goes to the session.
pub fn enter_dm(cf: &ChannelFeishu, open_id: &str, text: &str) -> (r: DmEntry)
    ensures
        if !may_write(*cf, open_id@) {
            r is Reply && r->Reply_0@ == "（未授权：该机器人设置了访问限制）"@
        } else if trim(text@).len() == 0 {
            r is Reply && r->Reply_0@ == "v1 只支持文本消息"@
        } else {
            match slash_of(text@) {
                Some(s) => r is Command && r->Command_0@ == s,
                None => r is Prompt,
            }
        },
{
    if !feishu_allowed(cf, open_id) {
        return DmEntry::Reply("（未授权：该机器人设置了访问限制）".to_string());
    }
    let t: String = trim_string(text);
    if t.as_str().is_empty() {
        return DmEntry::Reply("v1 只支持文本消息".to_string());
    }
    match parse_slash(text) {
        Some(s) => DmEntry::Command(s),
        None => DmEntry::Prompt,
    }
}

/// The messages that wait for a session: the text and the message's id.
#[derive(Debug)]
pub struct DmQueue {
    pending: Vec<(String, String)>,
}

pub open spec fn waiting(v: Seq<(String, String)>) -> Seq<(Seq<char>, Seq<char>)> {
    Seq::new(v.len(), |i: int| (v[i].0@, v[i].1@))
}

impl View for DmQueue {
    type V = Seq<(Seq<char>, Seq<char>)>;

    closed spec fn view(&self) -> Seq<(Seq<char>, Seq<char>)> {
        waiting(self.pending@)
    }
}

/// What became of a message while its session was in use.
#[derive(Debug, Clone, Copy, PartialEq, Eq, Structural)]
pub enum DmInFlight {
    Steered,
    Queued,
    Full,
}

impl DmQueue {
    pub fn new() -> (r: DmQueue)
        ensures
            r@ == Seq::<(Seq<char>, Seq<char>)>::empty(),
    {
        let r: DmQueue = DmQueue { pending: Vec::new() };
        assert(r@ =~= Seq::<(Seq<char>, Seq<char>)>::empty());
        r
    }

    /// How many messages wait.
    pub fn len(&self) -> (r: usize)
        ensures
            r == self@.len(),
    {
        self.pending.len()
    }

    /// Takes a message while the session is in use: it was put into the run,
    /// or it waits, or there is no room.
    pub fn offer(&mut self, text: &str, message_id: &str, steered: bool) -> (r: DmInFlight)
        ensures
            if steered {
                r == DmInFlight::Steered && final(self)@ == old(self)@
            } else if old(self)@.len() >= DM_QUEUE_MAX {
                r == DmInFlight::Full && final(self)@ == old(self)@
            } else {
                r == DmInFlight::Queued && final(self)@ == old(self)@.push((text@, message_id@))
            },
    {
        if steered {
            return DmInFlight::Steered;
        }
        if self.pending.len() >= DM_QUEUE_MAX {
            return DmInFlight::Full;
        }
        let ghost before = self@;
        self.pending.push((text.to_string(), message_id.to_string()));
        assert(self@ =~= before.push((text@, message_id@)));
        DmInFlight::Queued
    }

    /// Words that came too late for the run wait as messages; none is lost.
    pub fn take_late(&mut self, late: Vec<String>)
        ensures
            final(self)@ == old(self)@ + late_items(strs(late@)),
    {
        let ghost before = self@;
        let ghost all = late@;
        assert(before + late_items(strs(all.take(0))) =~= before);
        for x in it: late
            invariant
                it.seq() == all,
                self@ == before + late_items(strs(all.take(it.index() as int))),
        {
            let ghost now = self@;
            let ghost xv = x@;
            let ghost i = it.index() as int;
            self.pending.push((x, String::new()));
            proof {
                assert(self@ =~= now.push((xv, Seq::<char>::empty())));
                assert(strs(all.take(i + 1)) =~= strs(all.take(i)).push(xv));
                assert(late_items(strs(all.take(i + 1))) =~= late_items(strs(all.take(i))).push(
                    (xv, Seq::<char>::empty()),
                ));
                assert(self@ =~= before + late_items(strs(all.take(i + 1))));
            }
        }
        assert(all.take(all.len() as int) =~= all);
    }

    /// The message that waited longest, if any.
    pub fn next(&mut self) -> (r: Option<(String, String)>)
        ensures
            match r {
                Some(x) => old(self)@.len() > 0 && (x.0@, x.1@) == old(self)@[0] && final(self)@
                    == old(self)@.drop_first(),
                None => old(self)@.len() == 0 && final(self)@ == old(self)@,
            },
    {
        if self.pending.len() == 0 {
            return None;
        }
        let ghost before = self@;
        let x: (String, String) = self.pending.remove(0);
        assert(self@ =~= before.drop_first());
        Some(x)
    }
}

/// Late words as messages without an id.
pub open spec fn late_items(v: Seq<Seq<char>>) -> Seq<(Seq<char>, Seq<char>)> {
    Seq::new(v.len(), |i: int| (v[i], Seq::<char>::empty()))
}

/// What is told of a message that came while the session was in use; a message
/// that waits is not answered yet.
pub fn in_flight_reply(what: DmInFlight) -> (r: Option<String>)
    ensures
        opt_view(r) == (match what {
            DmInFlight::Steered => Some("⚡ 已插入当前回复（转向中）"@),
            DmInFlight::Queued => None,
            DmInFlight::Full => Some("（忙，请稍后再发）"@),
        }),
{
    match what {
        DmInFlight::Steered => Some("⚡ 已插入当前回复（转向中）".to_string()),
        DmInFlight::Queued => None,
        DmInFlight::Full => Some("（忙，请稍后再发）".to_string()),
    }
}

// ---------- a run for a message ----------

/// Something to show of a run.
#[derive(Debug)]
pub enum DmAction {
    /// The card's text is replaced.
    Content(String),
    /// The card's note is replaced.
    Note(String),
    /// A message is sent.
    Send(String),
}

/// What an action holds.
pub enum DmActionView {
    Content(Seq<char>),
    Note(Seq<char>),
    Send(Seq<char>),
}

impl View for DmAction {
    type V = DmActionView;

    open spec fn view(&self) -> DmActionView {
        match *self {
            DmAction::Content(s) => DmActionView::Content(s@),
            DmAction::Note(s) => DmActionView::Note(s@),
            DmAction::Send(s) => DmActionView::Send(s@),
        }
    }
}

pub open spec fn opt_action(a: Option<DmAction>) -> Option<DmActionView> {
    match a {
        Some(x) => Some(x@),
        None => None,
    }
}

/// What is kept of a run while it is shown.
#[derive(Debug)]
pub struct DmShow {
    mode: ShowProcess,
    card: bool,
    thinking: String,
    main: String,
    usage: Option<UsageStats>,
}

/// What is kept of a run.
#[verifier::ext_equal]
pub struct DmShowView {
    pub mode: ShowProcess,
    pub card: bool,
    pub thinking: Seq<char>,
    pub main: Seq<char>,
    pub usage: Option<UsageStats>,
}

impl View for DmShow {
    type V = DmShowView;

    closed spec fn view(&self) -> DmShowView {
        DmShowView {
            mode: self.mode,
            card: self.card,
            thinking: self.thinking@,
            main: self.main@,
            usage: self.usage,
        }
    }
}

/// The next state of a shown run, what is shown, and whether the run ended.
///
/// The answer grows on the card. Reasoning is shown only in full: on the card
/// its end, without a card in pieces. Tool calls are shown from the middle on:
/// on the card in place of each other, in full after the reasoning, without a
/// card as messages.
pub open spec fn shown(s: DmShowView, e: AgentEventView) -> (DmShowView, Option<DmActionView>, bool) {
    match e {
        AgentEventView::MessageUpdate(t) => {
            let m = s.main + t;
            (
                DmShowView { main: m, ..s },
                if s.card {
                    Some(DmActionView::Content(m))
                } else {
                    None
                },
                false,
            )
        },
        AgentEventView::Thinking(t) => if s.mode is Full {
            let th = s.thinking + t;
            if s.card {
                (DmShowView { thinking: th, ..s }, Some(DmActionView::Note(tail(th, DM_NOTE_CHARS as nat))), false)
            } else if th.len() >= DM_THINKING_FLUSH_CHARS {
                (DmShowView { thinking: Seq::empty(), ..s }, Some(DmActionView::Send("💭 "@ + th)), false)
            } else {
                (DmShowView { thinking: th, ..s }, None, false)
            }
        } else {
            (s, None, false)
        },
        AgentEventView::ToolCall { name, arguments } => if s.mode is Silent {
            (s, None, false)
        } else if !s.card {
            (s, Some(DmActionView::Send(call_summary(name, arguments))), false)
        } else if s.mode is Compact {
            (s, Some(DmActionView::Note(call_summary(name, arguments))), false)
        } else {
            let th = s.thinking.push('\n') + call_summary(name, arguments);
            (DmShowView { thinking: th, ..s }, Some(DmActionView::Note(tail(th, DM_NOTE_CHARS as nat))), false)
        },
        AgentEventView::UsageUpdate(u) => (DmShowView { usage: Some(u), ..s }, None, false),
        AgentEventView::Steered(_) => (
            s,
            if s.card {
                Some(DmActionView::Note("⚡ 收到用户中途指令，转向中…"@))
            } else {
                None
            },
            false,
        ),
        AgentEventView::Done { final_text } => if s.mode is Full && s.thinking.len() > 0 && !s.card {
            (DmShowView { thinking: Seq::empty(), ..s }, Some(DmActionView::Send("💭 "@ + s.thinking)), true)
        } else {
            (s, None, true)
        },
        AgentEventView::Error(_) => (s, None, true),
        _ => (s, None, false),
    }
}

fn thought(text: &str) -> (r: DmAction)
    ensures
        r@ == DmActionView::Send("💭 "@ + text@),
{
    let mut s: String = "💭 ".to_string();
    s.append(text);
    DmAction::Send(s)
}

impl DmShow {
    /// A run with or without a card.
    pub fn new(mode: ShowProcess, card: bool) -> (r: DmShow)
        ensures
            r@ == (DmShowView { mode, card, thinking: Seq::empty(), main: Seq::empty(), usage: None }),
    {
        let r: DmShow = DmShow { mode, card, thinking: String::new(), main: String::new(), usage: None };
        assert(r@.thinking =~= Seq::<char>::empty());
        assert(r@.main =~= Seq::<char>::empty());
        r
    }

    /// What the run used, as far as it was told.
    pub fn usage(&self) -> (r: Option<UsageStats>)
        ensures
            r == self@.usage,
    {
        self.usage
    }

    /// Takes an event of the run: what is shown, and whether the run ended.
    pub fn on_event(&mut self, e: &AgentEvent) -> (r: (Option<DmAction>, bool))
        ensures
            (final(self)@, opt_action(r.0), r.1) == shown(old(self)@, e@),
    {
        let ghost before = self@;
        match e {
            AgentEvent::MessageUpdate(t) => {
                self.main.append(t.as_str());
                if self.card {
                    (Some(DmAction::Content(self.main.clone())), false)
                } else {
                    (None, false)
                }
            },
            AgentEvent::Thinking(t) => match self.mode {
                ShowProcess::Full => {
                    self.thinking.append(t.as_str());
                    if self.card {
                        let n: String = tail_string(self.thinking.as_str(), DM_NOTE_CHARS);
                        (Some(DmAction::Note(n)), false)
                    } else if char_count(self.thinking.as_str()) >= DM_THINKING_FLUSH_CHARS {
                        let a: DmAction = thought(self.thinking.as_str());
                        self.thinking = String::new();
                        assert(self@.thinking =~= Seq::<char>::empty());
                        (Some(a), false)
                    } else {
                        (None, false)
                    }
                },
                _ => (None, false),
            },
            AgentEvent::ToolCall { name, arguments } => match self.mode {
                ShowProcess::Silent => (None, false),
                ShowProcess::Compact => {
                    let s: String = tool_call_summary(name.as_str(), arguments.as_str());
                    if self.card {
                        (Some(DmAction::Note(s)), false)
                    } else {
                        (Some(DmAction::Send(s)), false)
                    }
                },
                ShowProcess::Full => {
                    let s: String = tool_call_summary(name.as_str(), arguments.as_str());
                    if self.card {
                        self.thinking.push('\n');
                        self.thinking.append(s.as_str());
                        let n: String = tail_string(self.thinking.as_str(), DM_NOTE_CHARS);
                        (Some(DmAction::Note(n)), false)
                    } else {
                        (Some(DmAction::Send(s)), false)
                    }
                },
            },
            AgentEvent::UsageUpdate(u) => {
                self.usage = Some(*u);
                (None, false)
            },
            AgentEvent::Steered(_) => {
                if self.card {
                    (Some(DmAction::Note("⚡ 收到用户中途指令，转向中…".to_string())), false)
                } else {
                    (None, false)
                }
            },
            AgentEvent::Done { .. } => {
                let full: bool = match self.mode {
                    ShowProcess::Full => true,
                    _ => false,
                };
                if full && !self.thinking.as_str().is_empty() && !self.card {
                    let a: DmAction = thought(self.thinking.as_str());
                    self.thinking = String::new();
                    assert(self@.thinking =~= Seq::<char>::empty());
                    (Some(a), true)
                } else {
                    (None, true)
                }
            },
            AgentEvent::Error(_) => (None, true),
            _ => (None, false),
        }
    }

    /// The sign of life of a run that shows nothing otherwise.
    pub fn heartbeat(&self) -> (r: Option<String>)
        ensures
            opt_view(r) == (if self@.mode is Silent && !self@.card {
                Some("⏳ 仍在处理中…"@)
            } else {
                None
            }),
    {
        let silent: bool = match self.mode {
            ShowProcess::Silent => true,
            _ => false,
        };
        if silent && !self.card {
            Some("⏳ 仍在处理中…".to_string())
        } else {
            None
        }
    }
}

/// In silent mode neither reasoning nor tools are shown.
pub proof fn law_silent_shows_no_process(s: DmShowView, e: AgentEventView)
    requires
        s.mode is Silent,
        e is Thinking || e is ToolCall,
    ensures
        shown(s, e).1 is None,
        shown(s, e).0 == s,
{
}

/// Without a card no reasoning is lost in full mode: what is kept and what is
/// sent is what came.
pub proof fn law_reasoning_is_kept(s: DmShowView, t: Seq<char>)
    requires
        s.mode is Full,
        !s.card,
    ensures
        match shown(s, AgentEventView::Thinking(t)).1 {
            Some(DmActionView::Send(x)) => x == "💭 "@ + (s.thinking + t) && shown(
                s,
                AgentEventView::Thinking(t),
            ).0.thinking.len() == 0,
            Some(_) => false,
            None => shown(s, AgentEventView::Thinking(t)).0.thinking == s.thinking + t,
        },
{
}

/// The line on a run at its end: the model, the tokens, how much came from the
/// cache, and the cost where it is known.
pub fn status_line(model: &str, usage: Option<&UsageStats>, cost: Option<&str>) -> (r: String)
    requires
        usage is Some ==> usage->0.cached_tokens * 100 <= u64::MAX,
    ensures
        r@ == (match usage {
            None => "🤖 "@ + model@,
            Some(u) => "🤖 "@ + model@ + " · ↑"@ + compact(u.input_tokens, "k"@, "m"@) + " ↓"@ + compact(
                u.output_tokens,
                "k"@,
                "m"@,
            ) + " tok · 💾 cache "@ + dec(
                if u.input_tokens > 0 {
                    (u.cached_tokens * 100 / (u.input_tokens as int)) as nat
                } else {
                    0
                },
            ) + "%"@ + (match cost {
                Some(c) => " · ≈¥"@ + c@,
                None => Seq::empty(),
            }),
        }),
{
    let mut s: String = "🤖 ".to_string();
    s.append(model);
    match usage {
        None => s,
        Some(u) => {
            s.append(" · ↑");
            let a: String = fmt_tok(u.input_tokens);
            s.append(a.as_str());
            s.append(" ↓");
            let b: String = fmt_tok(u.output_tokens);
            s.append(b.as_str());
            s.append(" tok · 💾 cache ");
            let pct: u64 = if u.input_tokens > 0 {
                u.cached_tokens * 100 / u.input_tokens
            } else {
                0
            };
            let p: String = dec_string(pct);
            s.append(p.as_str());
            s.append("%");
            let ghost base = s@;
            if let Some(c) = cost {
                let mut t: String = " · ≈¥".to_string();
                t.append(c);
                s.append(t.as_str());
            } else {
                assert(base + Seq::<char>::empty() =~= base);
            }
            s
        },
    }
}

/// How a run for a message ended.
#[derive(Debug)]
pub enum DmOutcome {
    Answer(String),
    Failed(String),
    Timeout,
}

/// What is told at the end of a run.
pub open spec fn final_text(o: DmOutcome) -> Seq<char> {
    match o {
        DmOutcome::Answer(t) => t@,
        DmOutcome::Failed(e) => "（出错："@ + head(e@, 200) + "）"@,
        DmOutcome::Timeout => "（超时 "@ + dec(DM_PROMPT_TIMEOUT_SECS as nat) + " 秒，未能完成回复）"@,
    }
}

pub fn dm_final_text(o: &DmOutcome) -> (r: String)
    ensures
        r@ == final_text(*o),
{
    match o {
        DmOutcome::Answer(t) => t.clone(),
        DmOutcome::Failed(e) => {
            let mut s: String = "（出错：".to_string();
            let b: String = head_string(e.as_str(), 200);
            s.append(b.as_str());
            s.append("）");
            s
        },
        DmOutcome::Timeout => {
            let mut s: String = "（超时 ".to_string();
            let d: String = dec_string(DM_PROMPT_TIMEOUT_SECS);
            s.append(d.as_str());
            s.append(" 秒，未能完成回复）");
            s
        },
    }
}

/// How the last text of a run reaches the sender.
#[derive(Debug, Clone, Copy, PartialEq, Eq, Structural)]
pub enum Delivery {
    /// It stands on the card.
    Card,
    /// It is sent as a message.
    Message,
    /// It is not told.
    Untold,
}

/// How the last text of a run reaches the sender: on the card where one is open
/// and could be finished, and as a message where none is open. Where finishing
/// the card failed, an answer is sent as a message; what else there is to tell
/// is not told again.
pub fn delivery(card_open: bool, finish_failed: bool, o: &DmOutcome) -> (r: Delivery)
    ensures
        r == (if !card_open {
            Delivery::Message
        } else if !finish_failed {
            Delivery::Card
        } else if *o is Answer {
            Delivery::Message
        } else {
            Delivery::Untold
        }),
{
    if !card_open {
        Delivery::Message
    } else if !finish_failed {
        Delivery::Card
    } else {
        match o {
            DmOutcome::Answer(_) => Delivery::Message,
            _ => Delivery::Untold,
        }
    }
}

/// Whether the message gets a mark of success: after an answer, where its id is
/// known.
pub fn thumbs_up(o: &DmOutcome, message_id: &str) -> (r: bool)
    ensures
        r == (*o is Answer && message_id@.len() > 0),
{
    match o {
        DmOutcome::Answer(_) => !message_id.is_empty(),
        _ => false,
    }
}

// ---------- channels ----------

/// Whether a profile's channel should run: the profile is active, and the
/// channel is switched on and has its credentials.
pub open spec fn wants_channel(p: AgentProfile) -> bool {
    p.state@ == "active"@ && p.channel_feishu.enabled && p.channel_feishu.app_id@.len() > 0
        && p.channel_feishu.app_secret@.len() > 0
}

fn is_wanted(p: &AgentProfile) -> (r: bool)
    ensures
        r == wants_channel(*p),
{
    str_eq(p.state.as_str(), "active") && p.channel_feishu.enabled && !p.channel_feishu.app_id.as_str().is_empty()
        && !p.channel_feishu.app_secret.as_str().is_empty()
}

/// A running channel: the agent and the credentials it runs with.
#[derive(Debug)]
pub struct RunningChannel {
    pub agent: String,
    pub app_id: String,
    pub app_secret: String,
}

/// A running channel's parts.
pub struct RunView {
    pub agent: Seq<char>,
    pub app_id: Seq<char>,
    pub app_secret: Seq<char>,
}

impl View for RunningChannel {
    type V = RunView;

    open spec fn view(&self) -> RunView {
        RunView { agent: self.agent@, app_id: self.app_id@, app_secret: self.app_secret@ }
    }
}

pub open spec fn run_views(v: Seq<RunningChannel>) -> Seq<RunView> {
    Seq::new(v.len(), |i: int| v[i]@)
}

/// The channel that a profile asks for.
pub open spec fn asked_channel(p: AgentProfile) -> RunView {
    RunView { agent: p.name@, app_id: p.channel_feishu.app_id@, app_secret: p.channel_feishu.app_secret@ }
}

/// Some profile wants a channel for this agent.
pub open spec fn wanted_for(profiles: Seq<AgentProfile>, agent: Seq<char>) -> bool {
    exists|i: int| 0 <= i < profiles.len() && wants_channel(#[trigger] profiles[i]) && profiles[i].name@ == agent
}

/// Some running channel is the agent's.
pub open spec fn runs_for(running: Seq<RunView>, agent: Seq<char>) -> bool {
    exists|i: int| 0 <= i < running.len() && (#[trigger] running[i]).agent == agent
}

/// The agents whose channels stop: nobody wants them any more.
pub open spec fn stale(running: Seq<RunView>, profiles: Seq<AgentProfile>) -> Seq<Seq<char>>
    decreases running.len(),
{
    if running.len() == 0 {
        Seq::empty()
    } else {
        let before = stale(running.drop_last(), profiles);
        if wanted_for(profiles, running.last().agent) {
            before
        } else {
            before.push(running.last().agent)
        }
    }
}

/// A channel that starts.
#[derive(Debug)]
pub struct ChannelStart {
    /// The profile's place in the list.
    pub profile: usize,
    /// Whether a channel with other credentials stops first.
    pub replaces: bool,
}

/// The channels that start among the first `n` profiles: those wanted that do
/// not run with these credentials.
pub open spec fn starts(running: Seq<RunView>, profiles: Seq<AgentProfile>, n: int) -> Seq<(int, bool)>
    decreases n,
{
    if n <= 0 || n > profiles.len() {
        Seq::empty()
    } else {
        let before = starts(running, profiles, n - 1);
        let p = profiles[n - 1];
        if wants_channel(p) && !running.contains(asked_channel(p)) {
            before.push((n - 1, runs_for(running, p.name@)))
        } else {
            before
        }
    }
}

pub open spec fn start_views(v: Seq<ChannelStart>) -> Seq<(int, bool)> {
    Seq::new(v.len(), |i: int| (v[i].profile as int, v[i].replaces))
}

/// What is to be done so that the channels that run are those wanted.
#[derive(Debug)]
pub struct ChannelPlan {
    pub stop: Vec<String>,
    pub start: Vec<ChannelStart>,
}

fn has_wanted(profiles: &Vec<AgentProfile>, agent: &str) -> (r: bool)
    ensures
        r == wanted_for(profiles@, agent@),
{
    let mut i: usize = 0;
    while i < profiles.len()
        invariant
            i <= profiles.len(),
            forall|j: int| 0 <= j < i ==> !(wants_channel(#[trigger] profiles@[j]) && profiles@[j].name@ == agent@),
        decreases profiles.len() - i,
    {
        if is_wanted(&profiles[i]) && str_eq(profiles[i].name.as_str(), agent) {
            return true;
        }
        i += 1;
    }
    false
}

fn find_running(running: &Vec<RunningChannel>, p: &AgentProfile) -> (r: (bool, bool))
    ensures
        r.0 == run_views(running@).contains(asked_channel(*p)),
        r.1 == runs_for(run_views(running@), p.name@),
{
    let ghost all = run_views(running@);
    let mut same: bool = false;
    let mut any: bool = false;
    let mut i: usize = 0;
    while i < running.len()
        invariant
            i <= running.len(),
            all == run_views(running@),
            same == (exists|j: int| 0 <= j < i && #[trigger] all[j] == asked_channel(*p)),
            any == (exists|j: int| 0 <= j < i && (#[trigger] all[j]).agent == p.name@),
        decreases running.len() - i,
    {
        let c: &RunningChannel = &running[i];
        assert(all[i as int] == c@);
        if str_eq(c.agent.as_str(), p.name.as_str()) {
            any = true;
            if str_eq(c.app_id.as_str(), p.channel_feishu.app_id.as_str()) && str_eq(
                c.app_secret.as_str(),
                p.channel_feishu.app_secret.as_str(),
            ) {
                same = true;
            }
        }
        i += 1;
    }
    (same, any)
}

/// Plans which channels stop and which start. The agents are those of `profiles`,
/// each once.
pub fn plan_channels(profiles: &Vec<AgentProfile>, running: &Vec<RunningChannel>) -> (r: ChannelPlan)
    ensures
        strs(r.stop@) == stale(run_views(running@), profiles@),
        start_views(r.start@) == starts(run_views(running@), profiles@, profiles@.len() as int),
{
    let ghost all = run_views(running@);
    let mut stop: Vec<String> = Vec::new();
    let mut i: usize = 0;
    assert(strs(stop@) =~= stale(all.take(0), profiles@));
    while i < running.len()
        invariant
            i <= running.len(),
            all == run_views(running@),
            strs(stop@) == stale(all.take(i as int), profiles@),
        decreases running.len() - i,
    {
        let ghost before = strs(stop@);
        assert(all.take(i as int + 1).drop_last() =~= all.take(i as int));
        assert(all.take(i as int + 1).last() == running@[i as int]@);
        if !has_wanted(profiles, running[i].agent.as_str()) {
            stop.push(running[i].agent.clone());
            assert(strs(stop@) =~= before.push(running@[i as int].agent@));
        }
        i += 1;
    }
    assert(all.take(i as int) =~= all);
    let mut start: Vec<ChannelStart> = Vec::new();
    let mut k: usize = 0;
    assert(start_views(start@) =~= starts(all, profiles@, 0));
    while k < profiles.len()
        invariant
            k <= profiles.len(),
            all == run_views(running@),
            start_views(start@) == starts(all, profiles@, k as int),
        decreases profiles.len() - k,
    {
        let ghost before = start_views(start@);
        let (same, any) = find_running(running, &profiles[k]);
        if is_wanted(&profiles[k]) && !same {
            start.push(ChannelStart { profile: k, replaces: any });
            assert(start_views(start@) =~= before.push((k as int, any)));
        }
        k += 1;
    }
    ChannelPlan { stop, start }
}

/// The channels that run after a plan was carried out: those wanted.
pub open spec fn wanted_channels(profiles: Seq<AgentProfile>, n: int) -> Seq<RunView>
    decreases n,
{
    if n <= 0 || n > profiles.len() {
        Seq::empty()
    } else if wants_channel(profiles[n - 1]) {
        wanted_channels(profiles, n - 1).push(asked_channel(profiles[n - 1]))
    } else {
        wanted_channels(profiles, n - 1)
    }
}

proof fn lemma_wanted(profiles: Seq<AgentProfile>, n: int, k: int)
    requires
        0 <= k < n <= profiles.len(),
        wants_channel(profiles[k]),
    ensures
        wanted_channels(profiles, n).contains(asked_channel(profiles[k])),
    decreases n,
{
    let w = wanted_channels(profiles, n);
    if k == n - 1 {
        assert(w[w.len() - 1] == asked_channel(profiles[k]));
    } else {
        lemma_wanted(profiles, n - 1, k);
        let v = wanted_channels(profiles, n - 1);
        let i = v.index_of(asked_channel(profiles[k]));
        assert(w[i] == asked_channel(profiles[k]));
    }
}

proof fn lemma_no_starts(profiles: Seq<AgentProfile>, n: int)
    requires
        0 <= n <= profiles.len(),
    ensures
        starts(wanted_channels(profiles, profiles.len() as int), profiles, n).len() == 0,
    decreases n,
{
    if n > 0 {
        lemma_no_starts(profiles, n - 1);
        if wants_channel(profiles[n - 1]) {
            lemma_wanted(profiles, profiles.len() as int, n - 1);
        }
    }
}

proof fn lemma_no_stale(profiles: Seq<AgentProfile>, n: int)
    requires
        0 <= n <= profiles.len(),
    ensures
        stale(wanted_channels(profiles, n), profiles).len() == 0,
    decreases n,
{
    if n > 0 {
        lemma_no_stale(profiles, n - 1);
        if wants_channel(profiles[n - 1]) {
            let w = wanted_channels(profiles, n);
            assert(w.drop_last() =~= wanted_channels(profiles, n - 1));
            assert(wanted_for(profiles, profiles[n - 1].name@));
        }
    }
}

/// Planning again after a plan was carried out changes nothing.
pub proof fn law_plan_settles(profiles: Seq<AgentProfile>)
    ensures
        ({
            let w = wanted_channels(profiles, profiles.len() as int);
            stale(w, profiles).len() == 0 && starts(w, profiles, profiles.len() as int).len() == 0
        }),
{
    lemma_no_starts(profiles, profiles.len() as int);
    lemma_no_stale(profiles, profiles.len() as int);
}

/// A channel's settings as the console shows them; the secret is not shown.
pub open spec fn channel_config(cf: ChannelFeishu) -> JsonView {
    JsonView::obj().with("enabled"@, JsonView::Bool(cf.enabled)).with("app_id"@, JsonView::Str(cf.app_id@)).with(
        "dm_policy"@,
        JsonView::Str(policy_of(cf).0),
    ).with("policy_list"@, str_items(policy_of(cf).1)).with("show_process"@, JsonView::Str(cf.show_process@))
}

fn channel_config_json(cf: &ChannelFeishu) -> (r: Json)
    ensures
        r@ == channel_config(*cf),
{
    let (policy, list) = cf.effective_policy();
    Json::obj().with("enabled", Json::Bool(cf.enabled)).with("app_id", Json::text(cf.app_id.as_str())).with(
        "dm_policy",
        Json::text(policy),
    ).with("policy_list", Json::texts(list)).with("show_process", Json::text(cf.show_process.as_str()))
}

/// The reply after a channel was set.
pub fn channel_set_json(agent: &str, cf: &ChannelFeishu) -> (r: Json)
    ensures
        r@ == JsonView::obj().with("t"@, JsonView::Str("channel_set"@)).with("agent"@, JsonView::Str(agent@)).with(
            "ok"@,
            JsonView::Bool(true),
        ).with("config"@, channel_config(*cf)),
{
    Json::obj().with("t", Json::text("channel_set")).with("agent", Json::text(agent)).with("ok", Json::Bool(true)).with(
        "config",
        channel_config_json(cf),
    )
}

/// An agent's channel in the state, with the state of the channel.
pub open spec fn channel_form(p: AgentProfile, status: Seq<char>) -> JsonView {
    let cf = p.channel_feishu;
    JsonView::obj().with("agent"@, JsonView::Str(p.name@)).with("enabled"@, JsonView::Bool(cf.enabled)).with(
        "app_id"@,
        JsonView::Str(cf.app_id@),
    ).with("status"@, JsonView::Str(status)).with("dm_policy"@, JsonView::Str(policy_of(cf).0)).with(
        "policy_list"@,
        str_items(policy_of(cf).1),
    ).with("show_process"@, JsonView::Str(cf.show_process@))
}

/// The state of an agent's channel.
pub open spec fn status_for(states: Seq<(String, ChannelStatus)>, agent: Seq<char>) -> Seq<char>
    decreases states.len(),
{
    if states.len() == 0 {
        "stopped"@
    } else if states[0].0@ == agent {
        status_text(states[0].1)
    } else {
        status_for(states.drop_first(), agent)
    }
}

fn find_status(states: &Vec<(String, ChannelStatus)>, agent: &str) -> (r: String)
    ensures
        r@ == status_for(states@, agent@),
{
    let mut i: usize = 0;
    assert(states@.skip(0) =~= states@);
    while i < states.len()
        invariant
            i <= states.len(),
            status_for(states@, agent@) == status_for(states@.skip(i as int), agent@),
        decreases states.len() - i,
    {
        assert(states@.skip(i as int).drop_first() =~= states@.skip(i as int + 1));
        if str_eq(states[i].0.as_str(), agent) {
            return channel_status_str(&states[i].1);
        }
        i += 1;
    }
    "stopped".to_string()
}

/// The channels in the state: those of agents that ever set one up.
pub open spec fn channel_forms(v: Seq<AgentProfile>, states: Seq<(String, ChannelStatus)>) -> Seq<JsonView>
    decreases v.len(),
{
    if v.len() == 0 {
        Seq::empty()
    } else {
        let before = channel_forms(v.drop_last(), states);
        let p = v.last();
        if p.channel_feishu.enabled || p.channel_feishu.app_id@.len() > 0 {
            before.push(channel_form(p, status_for(states, p.name@)))
        } else {
            before
        }
    }
}

/// The channels in the state.
pub fn channels_json(profiles: &Vec<AgentProfile>, states: &Vec<(String, ChannelStatus)>) -> (r: Vec<Json>)
    ensures
        views(r@) == channel_forms(profiles@, states@),
{
    let ghost all = profiles@;
    let mut out: Vec<Json> = Vec::new();
    let mut i: usize = 0;
    assert(views(out@) =~= channel_forms(all.take(0), states@));
    while i < profiles.len()
        invariant
            i <= profiles.len(),
            all == profiles@,
            views(out@) == channel_forms(all.take(i as int), states@),
        decreases profiles.len() - i,
    {
        let ghost before = views(out@);
        assert(all.take(i as int + 1).drop_last() =~= all.take(i as int));
        assert(all.take(i as int + 1).last() == profiles@[i as int]);
        let p: &AgentProfile = &profiles[i];
        if p.channel_feishu.enabled || !p.channel_feishu.app_id.as_str().is_empty() {
            let status: String = find_status(states, p.name.as_str());
            let (policy, list) = p.channel_feishu.effective_policy();
            let j: Json = Json::obj().with("agent", Json::text(p.name.as_str())).with(
                "enabled",
                Json::Bool(p.channel_feishu.enabled),
            ).with("app_id", Json::text(p.channel_feishu.app_id.as_str())).with(
                "status",
                Json::text(status.as_str()),
            ).with("dm_policy", Json::text(policy)).with("policy_list", Json::texts(list)).with(
                "show_process",
                Json::text(p.channel_feishu.show_process.as_str()),
            );
            let ghost jv = j@;
            out.push(j);
            assert(views(out@) =~= before.push(jv));
        }
        i += 1;
    }
    assert(all.take(i as int) =~= all);
    out
}

/// Whether a channel can be tested: the agent exists and has credentials.
pub fn check_channel_test(agent: &str, profile: Option<&AgentProfile>) -> (r: Result<(), String>)
    ensures
        match profile {
            None => r is Err && r->Err_0@ == "agent 不存在："@ + agent@,
            Some(p) => if p.channel_feishu.app_id@.len() == 0 || p.channel_feishu.app_secret@.len() == 0 {
                r is Err && r->Err_0@ == "app_id/app_secret 未配置"@
            } else {
                r is Ok
            },
        },
{
    match profile {
        None => {
            let mut e: String = "agent 不存在：".to_string();
            e.append(agent);
            Err(e)
        },
        Some(p) => {
            if p.channel_feishu.app_id.as_str().is_empty() || p.channel_feishu.app_secret.as_str().is_empty() {
                Err("app_id/app_secret 未配置".to_string())
            } else {
                Ok(())
            }
        },
    }
}

/// What a state of the channel under test means: success, failure, or nothing
/// yet.
pub fn test_verdict(st: &ChannelStatus) -> (r: Option<(bool, String)>)
    ensures
        match (*st, r) {
            (ChannelStatus::Connected, Some((ok, text))) => ok && text@ == "连接成功"@,
            (ChannelStatus::Failed(e), Some((ok, text))) => !ok && text@ == e@,
            (ChannelStatus::Connecting, None) => true,
            (ChannelStatus::Reconnecting, None) => true,
            _ => false,
        },
{
    match st {
        ChannelStatus::Connected => Some((true, "连接成功".to_string())),
        ChannelStatus::Failed(e) => Some((false, e.clone())),
        _ => None,
    }
}

} // verus!
