//! The agent's run as steps: a run begins with the user's words; each turn
//! sends the conversation to the model, takes the streamed answer, runs its
//! tool calls and goes on until an answer asks for none. In between the
//! conversation may be compressed and the user may speak.

use vstd::prelude::*;

use crate::anthropic::{answer_calls, answer_text, parse_response};
use crate::context::{
    added, built, calls_tokens, cut, estimate_tokens, message_tokens, msg_tokens, text_tokens, total_tokens,
    ContextManager, ContextView,
};
use crate::events::{opt_agent_event, AgentEvent, AgentEventView};
use crate::evolution::{detect_skill_reference, skill_named, TurnSignals};
use crate::models::{compact, format_tokens};
use crate::text::{
    dec, dec_string, head, head_string, join, join_strings, list_has, occurs_at, starts_with, strs, trim,
    trim_string,
};
use crate::types::{
    call_views, chunk_views, clone_calls, msg_views, plain_view, ChunkView, Message, MessageView, Role,
    StreamChunk, ToolCall, ToolCallView, UsageStats,
};

verus! {

// ---------- small rules ----------

/// At most the first `n` characters.
pub fn truncate_str(s: &str, n: usize) -> (r: String)
    ensures
        r@ == head(s@, n as nat),
{
    head_string(s, n)
}

/// What is said of an answer with neither text nor tool calls.
pub const EMPTY_ANSWER: &'static str = "模型返回空响应（正文与工具调用均为空）。常见原因：\n1) 内容审查拦截（如 GLM 1301：会话上下文可能含敏感内容，例如新闻/检索结果——新建会话即可恢复，旧会话历史会持续触发）\n2) 流被网络中断提前掐断（直接重试即可）";

/// An answer with neither text nor tool calls: the stream was cut off.
pub open spec fn is_empty_answer(text: Seq<char>, calls: nat) -> bool {
    trim(text).len() == 0 && calls == 0
}

/// Refuses an answer with neither text nor tool calls.
pub fn validate_turn_output(text: &str, tool_calls: &[ToolCall]) -> (r: Result<(), String>)
    ensures
        match r {
            Ok(_) => !is_empty_answer(text@, tool_calls@.len()),
            Err(e) => is_empty_answer(text@, tool_calls@.len()) && e@ == EMPTY_ANSWER@,
        },
{
    let t: String = trim_string(text);
    if t.as_str().is_empty() && tool_calls.len() == 0 {
        Err(EMPTY_ANSWER.to_string())
    } else {
        Ok(())
    }
}

/// The line on what a session used; the cost is added where it is known.
pub fn usage_line(usage: &UsageStats, cost: Option<&str>) -> (r: String)
    ensures
        ({
            let base = "输入 "@ + compact(usage.input_tokens, "k"@, "M"@) + " tok · 输出 "@ + compact(
                usage.output_tokens,
                "k"@,
                "M"@,
            ) + " tok · 调用 "@ + dec(usage.llm_calls as nat) + " 次"@;
            r@ == (match cost {
                Some(c) => base + " · 累计成本 ≈ ¥"@ + c@,
                None => base,
            })
        }),
{
    let mut s: String = "输入 ".to_string();
    let a: String = format_tokens(usage.input_tokens);
    s.append(a.as_str());
    s.append(" tok · 输出 ");
    let b: String = format_tokens(usage.output_tokens);
    s.append(b.as_str());
    s.append(" tok · 调用 ");
    let c: String = dec_string(usage.llm_calls);
    s.append(c.as_str());
    s.append(" 次");
    if let Some(x) = cost {
        s.append(" · 累计成本 ≈ ¥");
        s.append(x);
    }
    s
}

/// What was remembered from other sessions, one entry per question.
pub open spec fn memory_lines(hits: Seq<(String, String)>) -> Seq<char>
    decreases hits.len(),
{
    if hits.len() == 0 {
        "【跨会话记忆】以下是你（R2）在之前会话中的相关经历："@
    } else {
        memory_lines(hits.drop_last()) + "\n- 用户曾问："@ + hits.last().0@ + "\n  你答："@ + head(
            hits.last().1@,
            400,
        )
    }
}

/// The message that reminds the model of other sessions, where there is
/// something to remember.
pub fn recall_memory(hits: &Vec<(String, String)>) -> (r: Option<Message>)
    ensures
        match r {
            Some(m) => hits@.len() > 0 && m@ == plain_view(Role::System, memory_lines(hits@)),
            None => hits@.len() == 0,
        },
{
    if hits.len() == 0 {
        return None;
    }
    let mut s: String = "【跨会话记忆】以下是你（R2）在之前会话中的相关经历：".to_string();
    let mut i: usize = 0;
    while i < hits.len()
        invariant
            i <= hits.len(),
            s@ == memory_lines(hits@.take(i as int)),
        decreases hits.len() - i,
    {
        assert(hits@.take(i as int + 1).drop_last() =~= hits@.take(i as int));
        s.append("\n- 用户曾问：");
        s.append(hits[i].0.as_str());
        s.append("\n  你答：");
        let a: String = head_string(hits[i].1.as_str(), 400);
        s.append(a.as_str());
        i += 1;
    }
    assert(hits@.take(i as int) =~= hits@);
    Some(Message::plain(Role::System, s.as_str()))
}

// ---------- summaries ----------

pub open spec fn role_label(r: Role) -> Seq<char> {
    match r {
        Role::System => "system"@,
        Role::User => "user"@,
        Role::Assistant => "assistant"@,
        Role::Tool => "tool"@,
    }
}

pub open spec fn call_lines(calls: Seq<ToolCallView>) -> Seq<char>
    decreases calls.len(),
{
    if calls.len() == 0 {
        Seq::empty()
    } else {
        call_lines(calls.drop_last()) + "[tool_call] "@ + calls.last().name + "("@ + calls.last().arguments + ")\n"@
    }
}

/// A message in words.
pub open spec fn message_lines(m: MessageView) -> Seq<char> {
    "["@ + role_label(m.role) + "] "@ + m.content + "\n"@ + (match m.tool_calls {
        Some(c) => call_lines(c),
        None => Seq::empty(),
    })
}

/// A conversation in words.
pub open spec fn dialogue(v: Seq<MessageView>) -> Seq<char>
    decreases v.len(),
{
    if v.len() == 0 {
        Seq::empty()
    } else {
        dialogue(v.drop_last()) + message_lines(v.last())
    }
}

/// The request for a summary: a first one, or one that takes up the last.
pub open spec fn summary_prompt(last: Option<Seq<char>>, v: Seq<MessageView>) -> Seq<char> {
    match last {
        Some(s) => "以下是已有的会话历史摘要和新的对话内容。请把它们合并成一份简洁摘要，保留：关键决策、结论、重要文件路径、未完成任务、用户偏好。直接输出摘要内容，不要任何前缀。\n\n【已有摘要】\n"@
            + s + "\n\n【新对话内容】\n"@ + dialogue(v),
        None => "把以下对话历史压缩成简洁摘要，保留：关键决策、结论、重要文件路径、未完成任务、用户偏好。直接输出摘要内容，不要任何前缀。\n\n"@
            + dialogue(v),
    }
}

fn role_label_of(r: Role) -> (s: &'static str)
    ensures
        s@ == role_label(r),
{
    match r {
        Role::System => "system",
        Role::User => "user",
        Role::Assistant => "assistant",
        Role::Tool => "tool",
    }
}

fn message_lines_of(m: &Message) -> (r: String)
    ensures
        r@ == message_lines(m@),
{
    let mut s: String = "[".to_string();
    s.append(role_label_of(m.role));
    s.append("] ");
    s.append(m.content.as_str());
    s.append("\n");
    let mut t: String = String::new();
    if let Some(calls) = &m.tool_calls {
        let ghost all = call_views(calls@);
        let mut i: usize = 0;
        assert(all.take(0) =~= Seq::<ToolCallView>::empty());
        while i < calls.len()
            invariant
                i <= calls.len(),
                all == call_views(calls@),
                t@ == call_lines(all.take(i as int)),
            decreases calls.len() - i,
        {
            assert(all.take(i as int + 1).drop_last() =~= all.take(i as int));
            t.append("[tool_call] ");
            t.append(calls[i].name.as_str());
            t.append("(");
            t.append(calls[i].arguments.as_str());
            t.append(")\n");
            i += 1;
        }
        assert(all.take(i as int) =~= all);
    }
    s.append(t.as_str());
    s
}

fn dialogue_of(v: &Vec<Message>) -> (r: String)
    ensures
        r@ == dialogue(msg_views(v@)),
{
    let ghost all = msg_views(v@);
    let mut s: String = String::new();
    let mut i: usize = 0;
    assert(all.take(0) =~= Seq::<MessageView>::empty());
    while i < v.len()
        invariant
            i <= v.len(),
            all == msg_views(v@),
            s@ == dialogue(all.take(i as int)),
        decreases v.len() - i,
    {
        assert(all.take(i as int + 1).drop_last() =~= all.take(i as int));
        let l: String = message_lines_of(&v[i]);
        s.append(l.as_str());
        i += 1;
    }
    assert(all.take(i as int) =~= all);
    s
}

fn summary_prompt_of(last: Option<&str>, v: &Vec<Message>) -> (r: String)
    ensures
        r@ == summary_prompt(
            match last {
                Some(s) => Some(s@),
                None => None,
            },
            msg_views(v@),
        ),
{
    let d: String = dialogue_of(v);
    match last {
        Some(s) => {
            let mut p: String =
                "以下是已有的会话历史摘要和新的对话内容。请把它们合并成一份简洁摘要，保留：关键决策、结论、重要文件路径、未完成任务、用户偏好。直接输出摘要内容，不要任何前缀。\n\n【已有摘要】\n".to_string();
            p.append(s);
            p.append("\n\n【新对话内容】\n");
            p.append(d.as_str());
            p
        },
        None => {
            let mut p: String =
                "把以下对话历史压缩成简洁摘要，保留：关键决策、结论、重要文件路径、未完成任务、用户偏好。直接输出摘要内容，不要任何前缀。\n\n".to_string();
            p.append(d.as_str());
            p
        },
    }
}

// ---------- the run ----------

/// The state of an agent's run.
pub struct AgentRun {
    context: ContextManager,
    usage: UsageStats,
    signals: TurnSignals,
    failed_tools: Vec<String>,
    max_turns: usize,
    turn: usize,
    chunks: Vec<StreamChunk>,
    base_input: u64,
    base_output: u64,
    server_usage_seen: bool,
    final_text: String,
}

/// What the state of a run holds.
pub struct RunView {
    pub context: ContextView,
    pub usage: UsageStats,
    /// The tools that failed, with the start of the failure.
    pub errors: Seq<(Seq<char>, Seq<char>)>,
    pub steers: Seq<Seq<char>>,
    pub retries: usize,
    /// The tools whose last call failed.
    pub failed: Set<Seq<char>>,
    pub max_turns: usize,
    pub turn: usize,
    /// The answer so far.
    pub chunks: Seq<ChunkView>,
    pub base_input: u64,
    pub base_output: u64,
    pub server_usage_seen: bool,
    pub final_text: Seq<char>,
}

pub open spec fn error_pairs(v: Seq<(String, String)>) -> Seq<(Seq<char>, Seq<char>)> {
    Seq::new(v.len(), |i: int| (v[i].0@, v[i].1@))
}

impl View for AgentRun {
    type V = RunView;

    closed spec fn view(&self) -> RunView {
        RunView {
            context: self.context@,
            usage: self.usage,
            errors: error_pairs(self.signals.tool_errors@),
            steers: strs(self.signals.steers@),
            retries: self.signals.retries_recovered,
            failed: strs(self.failed_tools@).to_set(),
            max_turns: self.max_turns,
            turn: self.turn,
            chunks: chunk_views(self.chunks@),
            base_input: self.base_input,
            base_output: self.base_output,
            server_usage_seen: self.server_usage_seen,
            final_text: self.final_text@,
        }
    }
}

/// The run with a new one begun: signals and answer are empty, the turn is the
/// first.
pub open spec fn begun(v: RunView) -> RunView {
    RunView {
        errors: Seq::empty(),
        steers: Seq::empty(),
        retries: 0,
        failed: Set::empty(),
        turn: 0,
        chunks: Seq::empty(),
        final_text: Seq::empty(),
        ..v
    }
}

/// The conversation that a turn sends: in the first turn a reminder stands
/// behind the system prompt.
pub open spec fn turn_messages(v: RunView, memory: Option<MessageView>) -> Seq<MessageView> {
    match memory {
        Some(m) => if v.turn == 0 {
            built(v.context).insert(1, m)
        } else {
            built(v.context)
        },
        None => built(v.context),
    }
}

/// The run after a turn has started with these messages. What was counted
/// before the turn is kept, for the server's own numbers to be added to it.
pub open spec fn turn_started(v: RunView, sent: Seq<MessageView>) -> RunView {
    let usage = UsageStats {
        input_tokens: (v.usage.input_tokens + total_tokens(sent)) as u64,
        llm_calls: (v.usage.llm_calls + 1) as u64,
        ..v.usage
    };
    RunView {
        usage,
        base_input: v.usage.input_tokens,
        base_output: v.usage.output_tokens,
        server_usage_seen: false,
        chunks: Seq::empty(),
        ..v
    }
}

/// The usage after one more piece of the answer: reasoning is counted, and the
/// server's own numbers replace the estimate of this turn.
pub open spec fn usage_after(v: RunView, c: ChunkView) -> UsageStats {
    match c {
        ChunkView::Reasoning(s) => UsageStats {
            output_tokens: (v.usage.output_tokens + text_tokens(s)) as u64,
            ..v.usage
        },
        ChunkView::Usage { input_tokens, output_tokens, cached_tokens } => UsageStats {
            input_tokens: if input_tokens > 0 {
                (v.base_input + input_tokens) as u64
            } else {
                v.usage.input_tokens
            },
            output_tokens: if output_tokens > 0 {
                (v.base_output + output_tokens) as u64
            } else {
                v.usage.output_tokens
            },
            cached_tokens: (v.usage.cached_tokens + cached_tokens) as u64,
            ..v.usage
        },
        _ => v.usage,
    }
}

/// The counters have room for one more piece of the answer.
pub open spec fn usage_fits(v: RunView, c: ChunkView) -> bool {
    match c {
        ChunkView::Reasoning(s) => v.usage.output_tokens + text_tokens(s) <= u64::MAX,
        ChunkView::Usage { input_tokens, output_tokens, cached_tokens } => {
            &&& v.base_input + input_tokens <= u64::MAX
            &&& v.base_output + output_tokens <= u64::MAX
            &&& v.usage.cached_tokens + cached_tokens <= u64::MAX
        },
        _ => true,
    }
}

/// What is told of a piece of the answer.
pub open spec fn chunk_event(c: ChunkView) -> Option<AgentEventView> {
    match c {
        ChunkView::Delta(s) => Some(AgentEventView::MessageUpdate(s)),
        ChunkView::Reasoning(s) => Some(AgentEventView::Thinking(s)),
        _ => None,
    }
}

/// The run after one more piece of the answer.
pub open spec fn chunk_taken(v: RunView, c: ChunkView) -> RunView {
    RunView {
        usage: usage_after(v, c),
        server_usage_seen: v.server_usage_seen || c is Usage,
        chunks: v.chunks.push(c),
        ..v
    }
}

/// An answer of the model as a message.
pub open spec fn answer_message(text: Seq<char>, calls: Seq<ToolCallView>) -> MessageView {
    MessageView {
        role: Role::Assistant,
        content: text,
        tool_calls: if calls.len() == 0 {
            None
        } else {
            Some(calls)
        },
        tool_call_id: None,
    }
}

/// The usage at the end of an answer: it is estimated where the server said
/// nothing.
pub open spec fn answered_usage(v: RunView) -> UsageStats {
    if v.server_usage_seen {
        v.usage
    } else {
        UsageStats {
            output_tokens: (v.usage.output_tokens + text_tokens(answer_text(v.chunks)) + calls_tokens(
                answer_calls(v.chunks),
            )) as u64,
            ..v.usage
        }
    }
}

/// What the end of an answer does: an empty answer is refused; otherwise it
/// joins the conversation, if it fits, and its tool calls are to be run.
pub open spec fn answer_ended(v: RunView, w: RunView, r: Result<Vec<ToolCall>, String>) -> bool {
    let text = answer_text(v.chunks);
    let calls = answer_calls(v.chunks);
    if is_empty_answer(text, calls.len()) {
        &&& r is Err
        &&& r->Err_0@ == EMPTY_ANSWER@
        &&& w == v
    } else {
        match r {
            Ok(c) => {
                &&& call_views(c@) == calls
                &&& added(v.context, answer_message(text, calls), w.context, Ok(()))
                &&& w == (RunView {
                    usage: answered_usage(v),
                    context: w.context,
                    final_text: text,
                    ..v
                })
            },
            Err(e) => {
                &&& added(v.context, answer_message(text, calls), w.context, Err(e))
                &&& w == (RunView { usage: answered_usage(v), context: w.context, ..v })
            },
        }
    }
}

/// A tool's result that is a failure.
pub open spec fn is_failure(result: Seq<char>) -> bool {
    occurs_at(result, "ERROR"@, 0)
}

/// The signals after a tool's result: a failure is kept, and a success of a
/// tool that had failed counts as a retry.
pub open spec fn signalled(v: RunView, name: Seq<char>, result: Seq<char>) -> RunView {
    if is_failure(result) {
        RunView {
            errors: v.errors.push((name, head(result, 160))),
            failed: v.failed.insert(name),
            ..v
        }
    } else if v.failed.contains(name) {
        RunView { retries: (v.retries + 1) as usize, failed: v.failed.remove(name), ..v }
    } else {
        v
    }
}

/// A tool's result as a message.
pub open spec fn result_message(id: Seq<char>, result: Seq<char>) -> MessageView {
    MessageView { role: Role::Tool, content: result, tool_calls: None, tool_call_id: Some(id) }
}

/// What the user said in between, as a message.
pub open spec fn steer_message(steer: Seq<char>) -> MessageView {
    plain_view(Role::User, "[用户中途指令] "@ + steer)
}

/// The part of the answer that was interrupted, as a message.
pub open spec fn broken_message(text: Seq<char>) -> MessageView {
    answer_message(text + "\n(此回复被用户中途打断)"@, Seq::empty())
}

/// What the user's words in between do, given the text of the answer so far:
/// they count as a signal; a part of the answer that holds something is kept
/// with a note; then the words follow. What does not fit ends it with an error.
pub open spec fn steered(v: RunView, w: RunView, text: Seq<char>, steer: Seq<char>, r: Result<(), String>) -> bool {
    let s = RunView { steers: v.steers.push(steer), ..v };
    if trim(text).len() > 0 {
        if total_tokens(v.context.messages) + msg_tokens(broken_message(text)) > v.context.max_tokens {
            &&& added(v.context, broken_message(text), w.context, r)
            &&& w == (RunView { context: w.context, ..s })
        } else {
            let mid = ContextView { messages: v.context.messages.push(broken_message(text)), ..v.context };
            &&& added(mid, steer_message(steer), w.context, r)
            &&& w == (RunView { context: w.context, ..s })
        }
    } else {
        &&& added(v.context, steer_message(steer), w.context, r)
        &&& w == (RunView { context: w.context, ..s })
    }
}

impl AgentRun {
    /// The conversation's count is right, and no tool is listed twice.
    pub closed spec fn wf(&self) -> bool {
        self.context.wf() && strs(self.failed_tools@).no_duplicates()
    }

    /// The state before a run.
    pub fn new(context: ContextManager, usage: UsageStats, max_turns: usize) -> (r: AgentRun)
        requires
            context.wf(),
        ensures
            r.wf(),
            r@ == begun(
                (RunView {
                    context: context@,
                    usage,
                    max_turns,
                    base_input: 0,
                    base_output: 0,
                    server_usage_seen: false,
                    ..r@
                }),
            ),
    {
        let r: AgentRun = AgentRun {
            context,
            usage,
            signals: TurnSignals::default(),
            failed_tools: Vec::new(),
            max_turns,
            turn: 0,
            chunks: Vec::new(),
            base_input: 0,
            base_output: 0,
            server_usage_seen: false,
            final_text: String::new(),
        };
        proof {
            assert(r@.errors =~= Seq::<(Seq<char>, Seq<char>)>::empty());
            assert(r@.steers =~= Seq::<Seq<char>>::empty());
            assert(r@.failed =~= Set::<Seq<char>>::empty());
            assert(r@.chunks =~= Seq::<ChunkView>::empty());
        }
        r
    }

    /// Begins a run with the user's words.
    pub fn begin(&mut self, user_input: &str) -> (r: Result<(), String>)
        requires
            old(self).wf(),
        ensures
            final(self).wf(),
            added(old(self)@.context, plain_view(Role::User, user_input@), final(self)@.context, r),
            final(self)@ == begun((RunView { context: final(self)@.context, ..old(self)@ })),
    {
        self.signals = TurnSignals::default();
        self.failed_tools = Vec::new();
        self.turn = 0;
        self.chunks = Vec::new();
        self.final_text = String::new();
        proof {
            assert(self@.errors =~= Seq::<(Seq<char>, Seq<char>)>::empty());
            assert(self@.steers =~= Seq::<Seq<char>>::empty());
            assert(self@.failed =~= Set::<Seq<char>>::empty());
            assert(self@.chunks =~= Seq::<ChunkView>::empty());
        }
        self.context.add_message(Role::User, user_input)
    }

    /// Starts a turn, if one is left: gives the messages to send.
    pub fn start_turn(&mut self, memory: Option<&Message>) -> (r: Option<Vec<Message>>)
        requires
            old(self).wf(),
            ({
                let sent = turn_messages(
                    old(self)@,
                    match memory {
                        Some(m) => Some(m@),
                        None => None,
                    },
                );
                &&& total_tokens(sent) <= usize::MAX
                &&& old(self)@.usage.input_tokens + total_tokens(sent) <= u64::MAX
                &&& old(self)@.usage.llm_calls < u64::MAX
            }),
        ensures
            final(self).wf(),
            match r {
                Some(sent) => {
                    &&& old(self)@.turn < old(self)@.max_turns
                    &&& msg_views(sent@) == turn_messages(
                        old(self)@,
                        match memory {
                            Some(m) => Some(m@),
                            None => None,
                        },
                    )
                    &&& final(self)@ == turn_started(old(self)@, msg_views(sent@))
                },
                None => old(self)@.turn >= old(self)@.max_turns && final(self)@ == old(self)@,
            },
    {
        if self.turn >= self.max_turns {
            return None;
        }
        let mut sent: Vec<Message> = self.context.build();
        let ghost whole = msg_views(sent@);
        assert(whole == built(self@.context));
        if self.turn == 0 {
            if let Some(m) = memory {
                assert(whole.len() >= 1);
                assert(sent@.len() == whole.len());
                sent.insert(1, m.clone());
                assert(msg_views(sent@) =~= whole.insert(1, m@));
            }
        }
        let tokens: usize = count_tokens(&sent);
        self.base_input = self.usage.input_tokens;
        self.base_output = self.usage.output_tokens;
        self.usage.input_tokens = self.usage.input_tokens + tokens as u64;
        self.usage.llm_calls = self.usage.llm_calls + 1;
        self.server_usage_seen = false;
        self.chunks = Vec::new();
        assert(self@.chunks =~= Seq::<ChunkView>::empty());
        Some(sent)
    }

    /// Takes a piece of the answer: what is told of it.
    pub fn on_chunk(&mut self, chunk: StreamChunk) -> (r: Option<AgentEvent>)
        requires
            old(self).wf(),
            usage_fits(old(self)@, chunk@),
        ensures
            final(self).wf(),
            opt_agent_event(r) == chunk_event(chunk@),
            final(self)@ == chunk_taken(old(self)@, chunk@),
    {
        let ghost before = self@.chunks;
        let event: Option<AgentEvent> = match &chunk {
            StreamChunk::Delta(s) => Some(AgentEvent::MessageUpdate(s.clone())),
            StreamChunk::Reasoning(s) => {
                self.usage.output_tokens = self.usage.output_tokens + estimate_tokens(s.as_str()) as u64;
                Some(AgentEvent::Thinking(s.clone()))
            },
            StreamChunk::Usage { input_tokens, output_tokens, cached_tokens } => {
                if *input_tokens > 0 {
                    self.usage.input_tokens = self.base_input + *input_tokens;
                }
                if *output_tokens > 0 {
                    self.usage.output_tokens = self.base_output + *output_tokens;
                }
                self.usage.cached_tokens = self.usage.cached_tokens + *cached_tokens;
                self.server_usage_seen = true;
                None
            },
            _ => None,
        };
        self.chunks.push(chunk);
        assert(self@.chunks =~= before.push(chunk@));
        event
    }

    /// Takes the end of the answer: gives the tool calls to run; none means
    /// that the run is done.
    pub fn on_stream_end(&mut self) -> (r: Result<Vec<ToolCall>, String>)
        requires
            old(self).wf(),
            ({
                let t = text_tokens(answer_text(old(self)@.chunks)) + calls_tokens(
                    answer_calls(old(self)@.chunks),
                );
                t <= usize::MAX && old(self)@.usage.output_tokens + t <= u64::MAX
            }),
        ensures
            final(self).wf(),
            answer_ended(old(self)@, final(self)@, r),
    {
        let (text, calls) = parse_response(&self.chunks);
        let ghost views = call_views(calls@);
        assert(views.len() == calls@.len());
        match validate_turn_output(text.as_str(), calls.as_slice()) {
            Ok(_) => {},
            Err(e) => {
                return Err(e);
            },
        }
        if !self.server_usage_seen {
            let m: Message = Message {
                role: Role::Assistant,
                content: text.clone(),
                tool_calls: Some(clone_calls(&calls)),
                tool_call_id: None,
            };
            let t: usize = message_tokens(&m);
            self.usage.output_tokens = self.usage.output_tokens + t as u64;
        }
        match self.context.add_assistant_with_tools(text.as_str(), clone_calls(&calls)) {
            Ok(_) => {
                self.final_text = text;
                Ok(calls)
            },
            Err(e) => Err(e),
        }
    }

    /// Takes the result of a tool call: it joins the conversation, if it fits.
    /// Tells which skill the call referred to, and whether the call succeeded.
    pub fn on_tool_result(&mut self, call: &ToolCall, result: &str) -> (r: (Option<(String, bool)>, Result<(), String>))
        requires
            old(self).wf(),
            old(self)@.retries < usize::MAX,
        ensures
            final(self).wf(),
            added(old(self)@.context, result_message(call.id@, result@), final(self)@.context, r.1),
            final(self)@ == (RunView {
                context: final(self)@.context,
                ..signalled(old(self)@, call.name@, result@)
            }),
            match r.0 {
                Some(p) => {
                    &&& call.name@ == "bash"@ || call.name@ == "read"@
                    &&& skill_named(call.arguments@) == Some(p.0@)
                    &&& p.1 == !is_failure(result@)
                },
                None => !(call.name@ == "bash"@ || call.name@ == "read"@) || skill_named(call.arguments@) is None,
            },
    {
        let failed: bool = starts_with(result, "ERROR");
        let skill: Option<(String, bool)> = match detect_skill_reference(
            call.name.as_str(),
            call.arguments.as_str(),
        ) {
            Some(s) => Some((s, !failed)),
            None => None,
        };
        let ghost list = strs(self.failed_tools@);
        let ghost errors = self@.errors;
        let ghost view_before = self@;
        if failed {
            self.signals.tool_errors.push((call.name.clone(), head_string(result, 160)));
            assert(self@.errors =~= errors.push((call.name@, head(result@, 160))));
            if !list_has(&self.failed_tools, call.name.as_str()) {
                self.failed_tools.push(call.name.clone());
                proof {
                    let now = strs(self.failed_tools@);
                    assert(now =~= list.push(call.name@));
                    lemma_push_set(list, call.name@);
                }
            } else {
                assert(list.to_set().insert(call.name@) =~= list.to_set());
            }
        } else {
            let p: usize = crate::groups::position_of(&self.failed_tools, call.name.as_str());
            proof {
                crate::groups::lemma_position(list, call.name@);
            }
            if p < self.failed_tools.len() {
                let _ = self.failed_tools.remove(p);
                self.signals.retries_recovered = self.signals.retries_recovered + 1;
                proof {
                    let now = strs(self.failed_tools@);
                    assert(now =~= list.remove(p as int));
                    lemma_remove_set(list, p as int);
                }
            }
        }
        assert(self@ == signalled(view_before, call.name@, result@));
        let added_ok: Result<(), String> = self.context.add_tool_result(call.id.as_str(), result);
        (skill, added_ok)
    }

    /// Ends a turn whose tool calls were run. What the user said meanwhile
    /// follows in one message.
    pub fn end_turn(&mut self, gap: &Vec<String>) -> (r: Result<(), String>)
        requires
            old(self).wf(),
            old(self)@.turn < usize::MAX,
        ensures
            final(self).wf(),
            ({
                let next = RunView { turn: (old(self)@.turn + 1) as usize, ..old(self)@ };
                if gap@.len() == 0 {
                    r is Ok && final(self)@ == next
                } else {
                    steered(next, final(self)@, Seq::empty(), join(strs(gap@), "\n"@), r)
                }
            }),
    {
        self.turn = self.turn + 1;
        if gap.len() == 0 {
            return Ok(());
        }
        let words: String = join_strings(gap, "\n");
        proof {
            reveal_strlit("");
            assert(""@ =~= Seq::<char>::empty());
        }
        self.handle_steer("", words.as_str())
    }

    /// Takes the user's words while an answer is coming in: the answer is
    /// broken off and the next turn begins.
    pub fn on_steer(&mut self, steer: &str) -> (r: Result<(), String>)
        requires
            old(self).wf(),
            old(self)@.turn < usize::MAX,
        ensures
            final(self).wf(),
            steered(
                (RunView { turn: (old(self)@.turn + 1) as usize, ..old(self)@ }),
                final(self)@,
                answer_text(old(self)@.chunks),
                steer@,
                r,
            ),
    {
        self.turn = self.turn + 1;
        let (text, _calls) = parse_response(&self.chunks);
        self.handle_steer(text.as_str(), steer)
    }

    fn handle_steer(&mut self, text: &str, steer: &str) -> (r: Result<(), String>)
        requires
            old(self).wf(),
        ensures
            final(self).wf(),
            steered(old(self)@, final(self)@, text@, steer@, r),
    {
        let ghost steers = self@.steers;
        self.signals.steers.push(steer.to_string());
        assert(self@.steers =~= steers.push(steer@));
        let t: String = trim_string(text);
        if !t.as_str().is_empty() {
            let mut broken: String = text.to_string();
            broken.append("\n(此回复被用户中途打断)");
            let tokens: usize = estimate_tokens(broken.as_str());
            proof {
                assert(call_views(Seq::<ToolCall>::empty()) =~= Seq::<ToolCallView>::empty());
                assert(text_tokens(broken@) == tokens);
            }
            match self.context.add_assistant_with_tools(broken.as_str(), Vec::new()) {
                Ok(_) => {},
                Err(e) => {
                    return Err(e);
                },
            }
        }
        let mut words: String = "[用户中途指令] ".to_string();
        words.append(steer);
        self.context.add_message(Role::User, words.as_str())
    }

    /// Begins a compression, if one is due: takes the old messages out of the
    /// conversation and gives the request for their summary and their number.
    pub fn start_compression(&mut self) -> (r: Option<(Message, usize)>)
        requires
            old(self).wf(),
            compression_due(old(self)@.context) ==> old(self)@.usage.input_tokens + text_tokens(
                compression_prompt(old(self)@.context),
            ) <= u64::MAX,
            old(self)@.usage.llm_calls < u64::MAX,
        ensures
            final(self).wf(),
            if compression_due(old(self)@.context) {
                &&& r is Some
                &&& r->Some_0.0@ == plain_view(Role::User, compression_prompt(old(self)@.context))
                &&& r->Some_0.1 == cut(old(self)@.context.messages)->Some_0
                &&& final(self)@ == compression_started(old(self)@)
            } else {
                r is None && final(self)@ == old(self)@
            },
    {
        if !self.context.should_compress() {
            return None;
        }
        let ghost c = self@.context;
        match self.context.take_compressible() {
            Some(taken) => {
                let last: Option<String> = match self.context.l2_summary() {
                    Some(s) => Some(s.to_string()),
                    None => None,
                };
                let prompt: String = match &last {
                    Some(s) => summary_prompt_of(Some(s.as_str()), &taken),
                    None => summary_prompt_of(None, &taken),
                };
                proof {
                    crate::context::law_cut_keeps_tool_groups(c.messages);
                    assert(prompt@ == compression_prompt(c));
                    assert(text_tokens(prompt@) == text_tokens(compression_prompt(c)));
                }
                let tokens: usize = estimate_tokens(prompt.as_str());
                self.usage.input_tokens = self.usage.input_tokens + tokens as u64;
                self.usage.llm_calls = self.usage.llm_calls + 1;
                let n: usize = taken.len();
                assert(msg_views(taken@).len() == taken@.len());
                Some((Message::plain(Role::User, prompt.as_str()), n))
            },
            None => None,
        }
    }

    /// Ends a compression with the model's text: gives the summary that now
    /// holds; a blank text is refused.
    pub fn finish_compression(&mut self, text: &str) -> (r: Result<String, String>)
        requires
            old(self).wf(),
            old(self)@.usage.output_tokens + text_tokens(text@) <= u64::MAX,
        ensures
            final(self).wf(),
            ({
                let counted = RunView {
                    usage: UsageStats {
                        output_tokens: (old(self)@.usage.output_tokens + text_tokens(text@)) as u64,
                        ..old(self)@.usage
                    },
                    ..old(self)@
                };
                match r {
                    Ok(s) => {
                        &&& trim(text@).len() > 0
                        &&& s@ == trim(text@)
                        &&& final(self)@ == (RunView {
                            context: ContextView { summary: Some(trim(text@)), ..old(self)@.context },
                            ..counted
                        })
                    },
                    Err(e) => {
                        &&& trim(text@).len() == 0
                        &&& e@ == "摘要模型返回空内容"@
                        &&& final(self)@ == counted
                    },
                }
            }),
    {
        self.usage.output_tokens = self.usage.output_tokens + estimate_tokens(text) as u64;
        let t: String = trim_string(text);
        if t.as_str().is_empty() {
            return Err("摘要模型返回空内容".to_string());
        }
        self.context.set_summary(t.clone());
        Ok(t)
    }

    /// What the session used so far.
    pub fn usage(&self) -> (r: UsageStats)
        ensures
            r == self@.usage,
    {
        self.usage
    }

    /// The last answer.
    pub fn final_text(&self) -> (r: &str)
        ensures
            r@ == self@.final_text,
    {
        self.final_text.as_str()
    }

    /// The signals of the run.
    pub fn signals(&self) -> (r: &TurnSignals)
        ensures
            error_pairs(r.tool_errors@) == self@.errors,
            strs(r.steers@) == self@.steers,
            r.retries_recovered == self@.retries,
    {
        &self.signals
    }

    /// The number of messages.
    pub fn history_len(&self) -> (r: usize)
        ensures
            r == self@.context.messages.len(),
    {
        self.context.history_len()
    }

    /// The messages.
    pub fn messages(&self) -> (r: &Vec<Message>)
        ensures
            msg_views(r@) == self@.context.messages,
    {
        self.context.history()
    }

    /// Empties the conversation and the counters; the system prompt and the
    /// limits stay.
    pub fn reset_context(&mut self, system_prompt: &str, max_tokens: usize, compress_above: i64)
        requires
            old(self).wf(),
        ensures
            final(self).wf(),
            final(self)@ == (RunView {
                context: ContextView {
                    system_prompt: system_prompt@,
                    messages: Seq::empty(),
                    max_tokens,
                    summary: None,
                    compress_above,
                },
                usage: UsageStats { input_tokens: 0, output_tokens: 0, cached_tokens: 0, llm_calls: 0 },
                ..old(self)@
            }),
    {
        self.context = ContextManager::new(system_prompt, max_tokens, compress_above);
        self.usage = UsageStats::default();
    }
}

/// Whether a compression is due.
pub open spec fn compression_due(c: ContextView) -> bool {
    total_tokens(c.messages) > c.compress_above && cut(c.messages) is Some
}

/// The request for the summary of what a compression takes out.
pub open spec fn compression_prompt(c: ContextView) -> Seq<char> {
    summary_prompt(c.summary, c.messages.take(cut(c.messages)->Some_0))
}

/// The run after a compression was begun.
pub open spec fn compression_started(v: RunView) -> RunView {
    RunView {
        context: ContextView { messages: v.context.messages.skip(cut(v.context.messages)->Some_0), ..v.context },
        usage: UsageStats {
            input_tokens: (v.usage.input_tokens + text_tokens(compression_prompt(v.context))) as u64,
            llm_calls: (v.usage.llm_calls + 1) as u64,
            ..v.usage
        },
        ..v
    }
}

proof fn lemma_push_set(v: Seq<Seq<char>>, x: Seq<char>)
    requires
        v.no_duplicates(),
        !v.contains(x),
    ensures
        v.push(x).no_duplicates(),
        v.push(x).to_set() == v.to_set().insert(x),
{
    let w = v.push(x);
    assert forall|y: Seq<char>| w.to_set().contains(y) <==> v.to_set().insert(x).contains(y) by {
        if w.contains(y) {
            let j = w.index_of(y);
            if j < v.len() {
                assert(v[j] == y);
            }
        }
        if v.contains(y) {
            let j = v.index_of(y);
            assert(w[j] == y);
        }
        if y == x {
            assert(w[v.len() as int] == y);
        }
    }
    assert(w.to_set() =~= v.to_set().insert(x));
}

proof fn lemma_remove_set(v: Seq<Seq<char>>, p: int)
    requires
        v.no_duplicates(),
        0 <= p < v.len(),
    ensures
        v.remove(p).no_duplicates(),
        v.remove(p).to_set() == v.to_set().remove(v[p]),
{
    let w = v.remove(p);
    assert forall|i: int, j: int| 0 <= i < w.len() && 0 <= j < w.len() && i != j implies w[i] != w[j] by {
        let a = if i < p {
            i
        } else {
            i + 1
        };
        let b = if j < p {
            j
        } else {
            j + 1
        };
        assert(v[a] != v[b]);
    }
    assert forall|y: Seq<char>| w.to_set().contains(y) <==> v.to_set().remove(v[p]).contains(y) by {
        if w.contains(y) {
            let j = w.index_of(y);
            let b = if j < p {
                j
            } else {
                j + 1
            };
            assert(v[b] == y);
            assert(v[b] != v[p]);
        }
        if v.contains(y) && y != v[p] {
            let j = v.index_of(y);
            if j < p {
                assert(w[j] == y);
            } else {
                assert(w[j - 1] == y);
            }
        }
    }
    assert(w.to_set() =~= v.to_set().remove(v[p]));
}

fn count_tokens(v: &Vec<Message>) -> (r: usize)
    requires
        total_tokens(msg_views(v@)) <= usize::MAX,
    ensures
        r == total_tokens(msg_views(v@)),
{
    crate::context::count_messages(v)
}

/// The run after these pieces of the answer.
pub open spec fn all_taken(v: RunView, chunks: Seq<ChunkView>) -> RunView
    decreases chunks.len(),
{
    if chunks.len() == 0 {
        v
    } else {
        chunk_taken(all_taken(v, chunks.drop_last()), chunks.last())
    }
}

proof fn lemma_base_stays(v: RunView, chunks: Seq<ChunkView>)
    requires
        forall|i: int| 0 <= i < chunks.len() ==> !((#[trigger] chunks[i]) is Usage),
    ensures
        all_taken(v, chunks).base_input == v.base_input,
        all_taken(v, chunks).base_output == v.base_output,
        all_taken(v, chunks).usage.cached_tokens == v.usage.cached_tokens,
        all_taken(v, chunks).usage.llm_calls == v.usage.llm_calls,
    decreases chunks.len(),
{
    if chunks.len() > 0 {
        let t = chunks.drop_last();
        assert forall|i: int| 0 <= i < t.len() implies !((#[trigger] t[i]) is Usage) by {
            assert(t[i] == chunks[i]);
        }
        lemma_base_stays(v, t);
        assert(chunks[chunks.len() - 1] == chunks.last());
    }
}

/// The server's own numbers take the place of everything that was estimated in
/// the turn: of what was sent, and of whatever came before them.
pub proof fn law_server_usage_counts(
    v: RunView,
    sent: Seq<MessageView>,
    before: Seq<ChunkView>,
    input_tokens: u64,
    output_tokens: u64,
    cached_tokens: u64,
)
    requires
        forall|i: int| 0 <= i < before.len() ==> !((#[trigger] before[i]) is Usage),
        input_tokens > 0,
        output_tokens > 0,
        v.usage.input_tokens + input_tokens <= u64::MAX,
        v.usage.output_tokens + output_tokens <= u64::MAX,
        v.usage.cached_tokens + cached_tokens <= u64::MAX,
        v.usage.llm_calls < u64::MAX,
    ensures
        ({
            let w = all_taken(
                turn_started(v, sent),
                before.push(ChunkView::Usage { input_tokens, output_tokens, cached_tokens }),
            );
            &&& w.usage == (UsageStats {
                input_tokens: (v.usage.input_tokens + input_tokens) as u64,
                output_tokens: (v.usage.output_tokens + output_tokens) as u64,
                cached_tokens: (v.usage.cached_tokens + cached_tokens) as u64,
                llm_calls: (v.usage.llm_calls + 1) as u64,
            })
            &&& answered_usage(w) == w.usage
        }),
{
    let c = ChunkView::Usage { input_tokens, output_tokens, cached_tokens };
    lemma_base_stays(turn_started(v, sent), before);
    assert(before.push(c).drop_last() =~= before);
    assert(before.push(c).last() == c);
}

/// A turn that ends or is broken off uses one of the run's turns up, whatever
/// the user said.
pub proof fn law_turn_is_used_up(v: RunView, w: RunView, text: Seq<char>, steer: Seq<char>, r: Result<(), String>)
    requires
        steered((RunView { turn: (v.turn + 1) as usize, ..v }), w, text, steer, r),
        v.turn < v.max_turns,
    ensures
        one_turn(v, w),
{
}

/// From one turn of a run to the next.
pub open spec fn one_turn(v: RunView, w: RunView) -> bool {
    &&& v.turn < v.max_turns
    &&& w.turn == v.turn + 1
    &&& w.max_turns == v.max_turns
}

/// A run has at most `max_turns` turns: whatever the states at their starts
/// are, there are no more of them.
pub proof fn law_turns_are_bounded(starts: Seq<RunView>)
    requires
        starts.len() > 0,
        starts[0].turn == 0,
        forall|i: int| 0 <= i < starts.len() - 1 ==> one_turn(#[trigger] starts[i], starts[i + 1]),
    ensures
        starts.len() - 1 <= starts[0].max_turns,
        starts.last().turn == starts.len() - 1,
    decreases starts.len(),
{
    if starts.len() > 1 {
        let t = starts.drop_last();
        assert forall|i: int| 0 <= i < t.len() - 1 implies one_turn(#[trigger] t[i], t[i + 1]) by {
            assert(one_turn(starts[i], starts[i + 1]));
        }
        law_turns_are_bounded(t);
        lemma_same_limit(t);
        assert(one_turn(starts[starts.len() - 2], starts[starts.len() - 1]));
    }
}

proof fn lemma_same_limit(starts: Seq<RunView>)
    requires
        starts.len() > 0,
        forall|i: int| 0 <= i < starts.len() - 1 ==> one_turn(#[trigger] starts[i], starts[i + 1]),
    ensures
        starts.last().max_turns == starts[0].max_turns,
    decreases starts.len(),
{
    if starts.len() > 1 {
        let t = starts.drop_last();
        assert forall|i: int| 0 <= i < t.len() - 1 implies one_turn(#[trigger] t[i], t[i + 1]) by {
            assert(one_turn(starts[i], starts[i + 1]));
        }
        lemma_same_limit(t);
        assert(one_turn(starts[starts.len() - 2], starts[starts.len() - 1]));
    }
}

/// Words of the user in between never become part of a tool group: what they
/// add is at most a broken answer without calls and one message of the user.
pub proof fn law_steering_adds_plain_messages(
    v: RunView,
    w: RunView,
    text: Seq<char>,
    steer: Seq<char>,
    r: Result<(), String>,
)
    requires
        steered(v, w, text, steer, r),
        r is Ok,
    ensures
        w.context.messages.last() == steer_message(steer),
        trim(text).len() == 0 ==> w.context.messages == v.context.messages.push(steer_message(steer)),
        trim(text).len() > 0 ==> w.context.messages == v.context.messages.push(broken_message(text)).push(
            steer_message(steer),
        ),
{
}

} // verus!
