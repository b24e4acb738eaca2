//! Working memory: the conversation within a token limit, and the summary of
//! what was compressed.

use vstd::prelude::*;

use crate::text::{
    byte_len, dec, dec_string, is_space, starts_with, occurs_at, strip_prefix, trim_start, trim_start_string, utf8_len,
};
use crate::types::{
    call_views, clone_messages, msg_views, opt_view, plain_view, Message, MessageView, Role, ToolCall, ToolCallView,
};

verus! {

/// How many of the latest messages a compression keeps at best.
pub const KEEP_RECENT: usize = 12;

/// How a summary begins.
pub const SUMMARY_PREFIX: &'static str = "【会话历史摘要】";

// ---------- tokens ----------

/// Tokens of a text, estimated as half its bytes.
pub open spec fn text_tokens(s: Seq<char>) -> nat {
    utf8_len(s) / 2
}

/// Tokens of tool calls: names and arguments.
pub open spec fn calls_tokens(calls: Seq<ToolCallView>) -> nat
    decreases calls.len(),
{
    if calls.len() == 0 {
        0
    } else {
        calls_tokens(calls.drop_last()) + text_tokens(calls.last().arguments) + text_tokens(calls.last().name)
    }
}

/// Tokens of a message.
pub open spec fn msg_tokens(m: MessageView) -> nat {
    text_tokens(m.content) + (match m.tool_calls {
        Some(c) => calls_tokens(c),
        None => 0,
    })
}

/// Tokens of a conversation.
pub open spec fn total_tokens(v: Seq<MessageView>) -> nat
    decreases v.len(),
{
    if v.len() == 0 {
        0
    } else {
        total_tokens(v.drop_last()) + msg_tokens(v.last())
    }
}

pub fn estimate_tokens(text: &str) -> (r: usize)
    ensures
        r == text_tokens(text@),
{
    byte_len(text) / 2
}

fn count_calls(calls: &Vec<ToolCall>, start: usize) -> (r: usize)
    requires
        start + calls_tokens(call_views(calls@)) <= usize::MAX,
    ensures
        r == start + calls_tokens(call_views(calls@)),
{
    let ghost all = call_views(calls@);
    let mut tokens: usize = start;
    let mut i: usize = 0;
    assert(all.take(0) =~= Seq::<ToolCallView>::empty());
    while i < calls.len()
        invariant
            i <= calls.len(),
            all == call_views(calls@),
            start + calls_tokens(all) <= usize::MAX,
            tokens == start + calls_tokens(all.take(i as int)),
        decreases calls.len() - i,
    {
        proof {
            assert(all.take(i as int + 1).drop_last() =~= all.take(i as int));
            lemma_calls_grow(all, i as int + 1);
        }
        tokens = tokens + estimate_tokens(calls[i].arguments.as_str()) + estimate_tokens(calls[i].name.as_str());
        i += 1;
    }
    assert(all.take(i as int) =~= all);
    tokens
}

proof fn lemma_calls_grow(v: Seq<ToolCallView>, k: int)
    requires
        0 <= k <= v.len(),
    ensures
        calls_tokens(v.take(k)) <= calls_tokens(v),
    decreases v.len() - k,
{
    if k < v.len() {
        lemma_calls_grow(v, k + 1);
        assert(v.take(k + 1).drop_last() =~= v.take(k));
    } else {
        assert(v.take(k) =~= v);
    }
}

/// Tokens of a message: its text and its tool calls.
pub fn message_tokens(msg: &Message) -> (r: usize)
    requires
        msg_tokens(msg@) <= usize::MAX,
    ensures
        r == msg_tokens(msg@),
{
    let tokens: usize = estimate_tokens(msg.content.as_str());
    match &msg.tool_calls {
        Some(calls) => count_calls(calls, tokens),
        None => tokens,
    }
}

proof fn lemma_total_grows(v: Seq<MessageView>, k: int)
    requires
        0 <= k <= v.len(),
    ensures
        total_tokens(v.take(k)) <= total_tokens(v),
    decreases v.len() - k,
{
    if k < v.len() {
        lemma_total_grows(v, k + 1);
        assert(v.take(k + 1).drop_last() =~= v.take(k));
    } else {
        assert(v.take(k) =~= v);
    }
}

/// A conversation costs what its two parts cost.
pub proof fn lemma_total_split(a: Seq<MessageView>, b: Seq<MessageView>)
    ensures
        total_tokens(a + b) == total_tokens(a) + total_tokens(b),
    decreases b.len(),
{
    if b.len() == 0 {
        assert(a + b =~= a);
    } else {
        assert((a + b).drop_last() =~= a + b.drop_last());
        lemma_total_split(a, b.drop_last());
    }
}

pub(crate) fn count_messages(v: &Vec<Message>) -> (r: usize)
    requires
        total_tokens(msg_views(v@)) <= usize::MAX,
    ensures
        r == total_tokens(msg_views(v@)),
{
    let ghost all = msg_views(v@);
    let mut tokens: usize = 0;
    let mut i: usize = 0;
    assert(all.take(0) =~= Seq::<MessageView>::empty());
    while i < v.len()
        invariant
            i <= v.len(),
            all == msg_views(v@),
            total_tokens(all) <= usize::MAX,
            tokens == total_tokens(all.take(i as int)),
        decreases v.len() - i,
    {
        proof {
            assert(all.take(i as int + 1).drop_last() =~= all.take(i as int));
            lemma_total_grows(all, i as int + 1);
        }
        tokens = tokens + message_tokens(&v[i]);
        i += 1;
    }
    assert(all.take(i as int) =~= all);
    tokens
}

// ---------- the point of compression ----------

/// The first position from `e` on that is no tool result.
pub open spec fn skip_tools(v: Seq<MessageView>, e: int) -> int
    decreases v.len() - e,
{
    if 0 <= e < v.len() && v[e].role == Role::Tool {
        skip_tools(v, e + 1)
    } else {
        e
    }
}

/// Where a conversation is cut if `keep` messages are to stay: behind the tool
/// results that would lose their call.
pub open spec fn cut_keeping(v: Seq<MessageView>, keep: int) -> int {
    skip_tools(
        v,
        if v.len() > keep {
            v.len() - keep
        } else {
            0
        },
    )
}

pub open spec fn good_cut(v: Seq<MessageView>, e: int) -> bool {
    0 < e < v.len()
}

/// Where a conversation is cut: as many of the latest messages stay as
/// possible, in the steps 12, 8, 4 and 2.
pub open spec fn cut(v: Seq<MessageView>) -> Option<int> {
    if good_cut(v, cut_keeping(v, 12)) {
        Some(cut_keeping(v, 12))
    } else if good_cut(v, cut_keeping(v, 8)) {
        Some(cut_keeping(v, 8))
    } else if good_cut(v, cut_keeping(v, 4)) {
        Some(cut_keeping(v, 4))
    } else if good_cut(v, cut_keeping(v, 2)) {
        Some(cut_keeping(v, 2))
    } else {
        None
    }
}

fn cut_keeping_of(v: &Vec<Message>, keep: usize) -> (r: usize)
    ensures
        r == cut_keeping(msg_views(v@), keep as int),
        r <= v.len(),
{
    let ghost all = msg_views(v@);
    let mut end: usize = if v.len() > keep {
        v.len() - keep
    } else {
        0
    };
    while end < v.len() && v[end].role == Role::Tool
        invariant
            end <= v.len(),
            all == msg_views(v@),
            cut_keeping(all, keep as int) == skip_tools(all, end as int),
        decreases v.len() - end,
    {
        assert(all[end as int].role == Role::Tool);
        end += 1;
    }
    assert(end < v.len() ==> all[end as int].role == v@[end as int].role);
    end
}

proof fn lemma_skip_tools(v: Seq<MessageView>, e: int)
    requires
        0 <= e <= v.len(),
    ensures
        e <= skip_tools(v, e) <= v.len(),
        skip_tools(v, e) < v.len() ==> v[skip_tools(v, e)].role != Role::Tool,
        forall|j: int| e <= j < skip_tools(v, e) ==> (#[trigger] v[j]).role == Role::Tool,
    decreases v.len() - e,
{
    if e < v.len() && v[e].role == Role::Tool {
        lemma_skip_tools(v, e + 1);
    }
}

/// A cut leaves something on both sides, keeps at most twelve messages, and
/// what is kept does not begin with a tool result: no result loses its call.
pub proof fn law_cut_keeps_tool_groups(v: Seq<MessageView>)
    ensures
        cut(v) matches Some(e) ==> {
            &&& 0 < e < v.len()
            &&& v.len() - e <= KEEP_RECENT
            &&& v[e].role != Role::Tool
        },
{
    if v.len() > 12 {
        lemma_skip_tools(v, v.len() - 12);
    } else {
        lemma_skip_tools(v, 0);
    }
    if v.len() > 8 {
        lemma_skip_tools(v, v.len() - 8);
    }
    if v.len() > 4 {
        lemma_skip_tools(v, v.len() - 4);
    }
    if v.len() > 2 {
        lemma_skip_tools(v, v.len() - 2);
    }
}

// ---------- summaries ----------

/// The message that carries a summary.
pub open spec fn summary_message(summary: Seq<char>) -> MessageView {
    plain_view(Role::System, SUMMARY_PREFIX@ + "\n"@ + summary)
}

/// Whether a message carries a summary.
pub open spec fn is_summary(m: MessageView) -> bool {
    m.role == Role::System && occurs_at(m.content, SUMMARY_PREFIX@, 0)
}

/// A text without the copies of the prefix at its front.
pub open spec fn strip_prefixes(s: Seq<char>) -> Seq<char>
    decreases s.len(),
{
    if occurs_at(s, SUMMARY_PREFIX@, 0) && SUMMARY_PREFIX@.len() > 0 {
        strip_prefixes(s.skip(SUMMARY_PREFIX@.len() as int))
    } else {
        s
    }
}

/// The summary in a message that carries one.
pub open spec fn summary_in(content: Seq<char>) -> Seq<char> {
    trim_start(strip_prefixes(content))
}

/// The number of messages up to the last summary, with it.
pub open spec fn summarized_len(v: Seq<MessageView>) -> int
    decreases v.len(),
{
    if v.len() == 0 {
        0
    } else if is_summary(v.last()) {
        v.len() as int
    } else {
        summarized_len(v.drop_last())
    }
}

/// The summary of a restored conversation: that of its last summary message.
pub open spec fn restored_summary(v: Seq<MessageView>) -> Option<Seq<char>> {
    if summarized_len(v) > 0 {
        Some(summary_in(v[summarized_len(v) - 1].content))
    } else {
        None
    }
}

/// The messages of a restored conversation: those after the last summary.
pub open spec fn restored_messages(v: Seq<MessageView>) -> Seq<MessageView> {
    v.skip(summarized_len(v))
}

proof fn lemma_summarized_len(v: Seq<MessageView>)
    ensures
        0 <= summarized_len(v) <= v.len(),
        summarized_len(v) > 0 ==> is_summary(v[summarized_len(v) - 1]),
        forall|j: int| summarized_len(v) <= j < v.len() ==> !is_summary(#[trigger] v[j]),
    decreases v.len(),
{
    if v.len() > 0 && !is_summary(v.last()) {
        lemma_summarized_len(v.drop_last());
        assert forall|j: int| summarized_len(v) <= j < v.len() implies !is_summary(#[trigger] v[j]) by {
            if j < v.len() - 1 {
                assert(v.drop_last()[j] == v[j]);
            }
        }
    }
}

fn summary_in_of(content: &str) -> (r: String)
    ensures
        r@ == summary_in(content@),
{
    let mut s: String = content.to_string();
    let mut more: bool = true;
    proof {
        reveal_strlit("【会话历史摘要】");
    }
    while more
        invariant
            SUMMARY_PREFIX@.len() > 0,
            strip_prefixes(content@) == strip_prefixes(s@),
            !more ==> !occurs_at(s@, SUMMARY_PREFIX@, 0),
        decreases
                s@.len(),
                if more {
                    1int
                } else {
                    0int
                },
    {
        match strip_prefix(s.as_str(), SUMMARY_PREFIX) {
            Some(rest) => {
                s = rest;
            },
            None => {
                more = false;
            },
        }
    }
    trim_start_string(s.as_str())
}

proof fn lemma_summary_restored(before: Seq<MessageView>, summary: Seq<char>, after: Seq<MessageView>)
    requires
        forall|j: int| 0 <= j < after.len() ==> !is_summary(#[trigger] after[j]),
    ensures
        restored_summary(before.push(summary_message(summary)) + after) == Some(trim_start(summary)),
        restored_messages(before.push(summary_message(summary)) + after) == after,
{
    let first = before.push(summary_message(summary));
    let v = first + after;
    let content = SUMMARY_PREFIX@ + "\n"@ + summary;
    reveal_strlit("【会话历史摘要】");
    reveal_strlit("\n");
    assert(content.subrange(0, SUMMARY_PREFIX@.len() as int) =~= SUMMARY_PREFIX@);
    assert(is_summary(summary_message(summary)));
    lemma_summarized_len(v);
    let n = summarized_len(v);
    assert(v[before.len() as int] == summary_message(summary));
    if n > before.len() + 1 {
        assert(v[n - 1] == after[n - 1 - first.len()]);
    }
    assert(n == before.len() + 1);
    assert(v.skip(n) =~= after);
    let rest = content.skip(SUMMARY_PREFIX@.len() as int);
    assert(rest =~= "\n"@ + summary);
    assert(rest[0] == '\n');
    if occurs_at(rest, SUMMARY_PREFIX@, 0) {
        assert(rest.subrange(0, SUMMARY_PREFIX@.len() as int)[0] == rest[0]);
    }
    assert(strip_prefixes(rest) == rest);
    assert(rest.drop_first() =~= summary);
    assert(trim_start(rest) == trim_start(summary));
}

// ---------- the manager ----------

/// The working memory of a conversation. `compress_above` is the number of
/// tokens above which a compression is due.
pub struct ContextManager {
    system_prompt: String,
    messages: Vec<Message>,
    token_count: usize,
    max_tokens: usize,
    l2_summary: Option<String>,
    compress_above: i64,
}

/// What the working memory holds.
pub struct ContextView {
    pub system_prompt: Seq<char>,
    pub messages: Seq<MessageView>,
    pub max_tokens: usize,
    pub summary: Option<Seq<char>>,
    pub compress_above: i64,
}

/// The refusal of a message that does not fit.
pub open spec fn over_limit(now: nat, more: nat, max: nat) -> Seq<char> {
    "上下文超限：当前 "@ + dec(now) + " tokens + 新增 "@ + dec(more) + " tokens 超过上限 "@ + dec(max)
        + " tokens"@
}

/// What adding a message does: it is added where it fits, and refused with
/// nothing changed where it does not.
pub open spec fn added(c: ContextView, m: MessageView, d: ContextView, r: Result<(), String>) -> bool {
    if total_tokens(c.messages) + msg_tokens(m) > c.max_tokens {
        &&& r is Err
        &&& r->Err_0@ == over_limit(total_tokens(c.messages), msg_tokens(m), c.max_tokens as nat)
        &&& d == c
    } else {
        &&& r is Ok
        &&& d == (ContextView { messages: c.messages.push(m), ..c })
    }
}

/// The conversation that goes to the model.
pub open spec fn built(c: ContextView) -> Seq<MessageView> {
    let first = seq![plain_view(Role::System, c.system_prompt)];
    match c.summary {
        Some(s) => first.push(summary_message(s)) + c.messages,
        None => first + c.messages,
    }
}

/// The working memory that is restored from a session's messages.
pub open spec fn restored(
    system_prompt: Seq<char>,
    v: Seq<MessageView>,
    max_tokens: usize,
    compress_above: i64,
) -> ContextView {
    ContextView {
        system_prompt,
        messages: restored_messages(v),
        max_tokens,
        summary: restored_summary(v),
        compress_above,
    }
}

/// A summary that was written into a session is the summary when the session
/// is restored, without the white space at its front. What goes to the model is
/// the system prompt, the summary and what came after it: nothing of what stood
/// before remains, former summaries included, and only what came after counts.
pub proof fn law_summary_survives_restoring(
    system_prompt: Seq<char>,
    before: Seq<MessageView>,
    summary: Seq<char>,
    after: Seq<MessageView>,
    max_tokens: usize,
    compress_above: i64,
)
    requires
        forall|j: int| 0 <= j < after.len() ==> !is_summary(#[trigger] after[j]),
    ensures
        ({
            let c = restored(
                system_prompt,
                before.push(summary_message(summary)) + after,
                max_tokens,
                compress_above,
            );
            &&& c.summary == Some(trim_start(summary))
            &&& c.messages == after
            &&& built(c) == seq![
                plain_view(Role::System, system_prompt),
                summary_message(trim_start(summary)),
            ] + after
            &&& total_tokens(c.messages) == total_tokens(after)
            &&& (summary.len() == 0 || !is_space(summary[0])) ==> trim_start(summary) == summary
        }),
{
    lemma_summary_restored(before, summary, after);
    let c = restored(system_prompt, before.push(summary_message(summary)) + after, max_tokens, compress_above);
    assert(built(c) =~= seq![
        plain_view(Role::System, system_prompt),
        summary_message(trim_start(summary)),
    ] + after);
}

impl View for ContextManager {
    type V = ContextView;

    closed spec fn view(&self) -> ContextView {
        ContextView {
            system_prompt: self.system_prompt@,
            messages: msg_views(self.messages@),
            max_tokens: self.max_tokens,
            summary: opt_view(self.l2_summary),
            compress_above: self.compress_above,
        }
    }
}

impl ContextManager {
    /// The count is the sum over the messages.
    pub closed spec fn wf(&self) -> bool {
        self.token_count == total_tokens(msg_views(self.messages@))
    }

    pub fn new(system_prompt: &str, max_tokens: usize, compress_above: i64) -> (r: ContextManager)
        ensures
            r.wf(),
            r@ == (ContextView {
                system_prompt: system_prompt@,
                messages: Seq::empty(),
                max_tokens,
                summary: None,
                compress_above,
            }),
    {
        let r: ContextManager = ContextManager {
            system_prompt: system_prompt.to_string(),
            messages: Vec::new(),
            token_count: 0,
            max_tokens,
            l2_summary: None,
            compress_above,
        };
        assert(r@.messages =~= Seq::<MessageView>::empty());
        r
    }

    fn check_limit(&self, additional: usize) -> (r: Result<(), String>)
        ensures
            match r {
                Ok(_) => self.token_count + additional <= self.max_tokens,
                Err(e) => self.token_count + additional > self.max_tokens && e@ == over_limit(
                    self.token_count as nat,
                    additional as nat,
                    self.max_tokens as nat,
                ),
            },
    {
        if self.token_count > self.max_tokens || additional > self.max_tokens - self.token_count {
            let mut e: String = "上下文超限：当前 ".to_string();
            let a: String = dec_string(self.token_count as u64);
            e.append(a.as_str());
            e.append(" tokens + 新增 ");
            let b: String = dec_string(additional as u64);
            e.append(b.as_str());
            e.append(" tokens 超过上限 ");
            let c: String = dec_string(self.max_tokens as u64);
            e.append(c.as_str());
            e.append(" tokens");
            return Err(e);
        }
        Ok(())
    }

    fn push_counted(&mut self, m: Message, tokens: usize) -> (r: Result<(), String>)
        requires
            old(self).wf(),
            tokens == msg_tokens(m@),
        ensures
            final(self).wf(),
            added(old(self)@, m@, final(self)@, r),
    {
        match self.check_limit(tokens) {
            Err(e) => Err(e),
            Ok(_) => {
                let ghost before = msg_views(self.messages@);
                self.messages.push(m);
                self.token_count = self.token_count + tokens;
                proof {
                    assert(msg_views(self.messages@) =~= before.push(m@));
                    assert(before.push(m@).drop_last() =~= before);
                }
                Ok(())
            },
        }
    }

    /// Adds a plain message.
    pub fn add_message(&mut self, role: Role, content: &str) -> (r: Result<(), String>)
        requires
            old(self).wf(),
        ensures
            final(self).wf(),
            added(old(self)@, plain_view(role, content@), final(self)@, r),
    {
        let tokens: usize = estimate_tokens(content);
        self.push_counted(Message::plain(role, content), tokens)
    }

    /// Adds an answer of the model with its tool calls; no call at all is the
    /// same as none.
    pub fn add_assistant_with_tools(&mut self, content: &str, tool_calls: Vec<ToolCall>) -> (r: Result<(), String>)
        requires
            old(self).wf(),
            text_tokens(content@) + calls_tokens(call_views(tool_calls@)) <= usize::MAX,
        ensures
            final(self).wf(),
            added(
                old(self)@,
                (MessageView {
                    role: Role::Assistant,
                    content: content@,
                    tool_calls: if tool_calls@.len() == 0 {
                        None
                    } else {
                        Some(call_views(tool_calls@))
                    },
                    tool_call_id: None,
                }),
                final(self)@,
                r,
            ),
    {
        let tokens: usize = count_calls(&tool_calls, estimate_tokens(content));
        let calls: Option<Vec<ToolCall>> = if tool_calls.len() == 0 {
            None
        } else {
            Some(tool_calls)
        };
        let m: Message = Message {
            role: Role::Assistant,
            content: content.to_string(),
            tool_calls: calls,
            tool_call_id: None,
        };
        self.push_counted(m, tokens)
    }

    /// Adds the result of a tool call.
    pub fn add_tool_result(&mut self, tool_call_id: &str, content: &str) -> (r: Result<(), String>)
        requires
            old(self).wf(),
        ensures
            final(self).wf(),
            added(
                old(self)@,
                (MessageView {
                    role: Role::Tool,
                    content: content@,
                    tool_calls: None,
                    tool_call_id: Some(tool_call_id@),
                }),
                final(self)@,
                r,
            ),
    {
        let tokens: usize = estimate_tokens(content);
        let m: Message = Message {
            role: Role::Tool,
            content: content.to_string(),
            tool_calls: None,
            tool_call_id: Some(tool_call_id.to_string()),
        };
        self.push_counted(m, tokens)
    }

    /// Restores the working memory from a session's messages: the last summary
    /// counts, and what it and the messages before it said is in it already.
    pub fn from_messages(
        system_prompt: &str,
        messages: Vec<Message>,
        max_tokens: usize,
        compress_above: i64,
    ) -> (r: ContextManager)
        requires
            total_tokens(restored_messages(msg_views(messages@))) <= usize::MAX,
        ensures
            r.wf(),
            r@ == restored(system_prompt@, msg_views(messages@), max_tokens, compress_above),
    {
        let ghost all = msg_views(messages@);
        let mut n: usize = messages.len();
        assert(all.take(n as int) =~= all);
        let mut found: bool = false;
        while n > 0 && !found
            invariant
                n <= messages.len(),
                all == msg_views(messages@),
                summarized_len(all) == summarized_len(all.take(n as int)),
                found ==> n > 0 && is_summary(all[n - 1]),
            decreases
                    n,
                    if found {
                        0int
                    } else {
                        1int
                    },
        {
            let ghost now = all.take(n as int);
            assert(now.last() == messages@[n - 1]@);
            assert(now.drop_last() =~= all.take(n - 1));
            let m: &Message = &messages[n - 1];
            if m.role == Role::System && starts_with(m.content.as_str(), SUMMARY_PREFIX) {
                found = true;
            } else {
                n -= 1;
            }
        }
        proof {
            if found {
                assert(all.take(n as int).last() == all[n - 1]);
            }
            assert(summarized_len(all) == n);
        }
        let summary: Option<String> = if n > 0 {
            Some(summary_in_of(messages[n - 1].content.as_str()))
        } else {
            None
        };
        let mut head: Vec<Message> = messages;
        let rest: Vec<Message> = head.split_off(n);
        proof {
            assert(msg_views(rest@) =~= restored_messages(all));
        }
        let token_count: usize = count_messages(&rest);
        ContextManager {
            system_prompt: system_prompt.to_string(),
            messages: rest,
            token_count,
            max_tokens,
            l2_summary: summary,
            compress_above,
        }
    }

    /// Where the conversation would be cut.
    fn compressible_end(&self) -> (r: Option<usize>)
        ensures
            match r {
                Some(e) => cut(self@.messages) == Some(e as int) && e <= self.messages@.len(),
                None => cut(self@.messages) is None,
            },
    {
        let n: usize = self.messages.len();
        let a: usize = cut_keeping_of(&self.messages, KEEP_RECENT);
        if a > 0 && a < n {
            return Some(a);
        }
        let b: usize = cut_keeping_of(&self.messages, 8);
        if b > 0 && b < n {
            return Some(b);
        }
        let c: usize = cut_keeping_of(&self.messages, 4);
        if c > 0 && c < n {
            return Some(c);
        }
        let d: usize = cut_keeping_of(&self.messages, 2);
        if d > 0 && d < n {
            return Some(d);
        }
        None
    }

    /// Whether a compression is due: too many tokens, and something to
    /// compress.
    pub fn should_compress(&self) -> (r: bool)
        requires
            self.wf(),
        ensures
            r == (total_tokens(self@.messages) > self@.compress_above && cut(self@.messages) is Some),
    {
        self.token_count as i128 > self.compress_above as i128 && self.compressible_end().is_some()
    }

    /// The present summary.
    pub fn l2_summary(&self) -> (r: Option<&str>)
        ensures
            match r {
                Some(s) => self@.summary == Some(s@),
                None => self@.summary is None,
            },
    {
        match &self.l2_summary {
            Some(s) => Some(s.as_str()),
            None => None,
        }
    }

    /// Takes out the messages that are to be compressed.
    pub fn take_compressible(&mut self) -> (r: Option<Vec<Message>>)
        requires
            old(self).wf(),
        ensures
            final(self).wf(),
            match cut(old(self)@.messages) {
                Some(e) => {
                    &&& r is Some
                    &&& msg_views(r->Some_0@) == old(self)@.messages.take(e)
                    &&& final(self)@ == (ContextView { messages: old(self)@.messages.skip(e), ..old(self)@ })
                },
                None => r is None && final(self)@ == old(self)@,
            },
    {
        match self.compressible_end() {
            None => None,
            Some(end) => {
                let ghost all = self@.messages;
                let kept: Vec<Message> = self.messages.split_off(end);
                let mut taken: Vec<Message> = Vec::new();
                taken.append(&mut self.messages);
                self.messages = kept;
                proof {
                    assert(msg_views(taken@) =~= all.take(end as int));
                    assert(msg_views(self.messages@) =~= all.skip(end as int));
                    assert(all =~= all.take(end as int) + all.skip(end as int));
                    lemma_total_split(all.take(end as int), all.skip(end as int));
                }
                let gone: usize = count_messages(&taken);
                self.token_count = self.token_count - gone;
                Some(taken)
            },
        }
    }

    /// Sets the summary; a former one is replaced.
    pub fn set_summary(&mut self, summary: String)
        requires
            old(self).wf(),
        ensures
            final(self).wf(),
            final(self)@ == (ContextView { summary: Some(summary@), ..old(self)@ }),
    {
        self.l2_summary = Some(summary);
    }

    /// The conversation that goes to the model: the system prompt, the summary
    /// if there is one, and the messages.
    pub fn build(&self) -> (r: Vec<Message>)
        ensures
            msg_views(r@) == built(self@),
    {
        let mut out: Vec<Message> = Vec::new();
        out.push(Message::plain(Role::System, self.system_prompt.as_str()));
        if let Some(s) = &self.l2_summary {
            let mut content: String = SUMMARY_PREFIX.to_string();
            content.append("\n");
            content.append(s.as_str());
            out.push(Message::plain(Role::System, content.as_str()));
        }
        let ghost front = msg_views(out@);
        let mut rest: Vec<Message> = clone_messages(&self.messages);
        let ghost tail = msg_views(rest@);
        out.append(&mut rest);
        proof {
            assert(msg_views(out@) =~= front + tail);
            assert(msg_views(out@) =~= built(self@));
        }
        out
    }

    /// The tokens of the messages.
    pub fn token_count(&self) -> (r: usize)
        requires
            self.wf(),
        ensures
            r == total_tokens(self@.messages),
    {
        self.token_count
    }

    /// The number of messages.
    pub fn history_len(&self) -> (r: usize)
        ensures
            r == self@.messages.len(),
    {
        self.messages.len()
    }

    /// The messages.
    pub fn history(&self) -> (r: &Vec<Message>)
        ensures
            msg_views(r@) == self@.messages,
    {
        &self.messages
    }
}

/// A message that was accepted keeps the conversation within its limit.
pub proof fn law_limit_is_kept(c: ContextView, m: MessageView, d: ContextView, r: Result<(), String>)
    requires
        added(c, m, d, r),
        total_tokens(c.messages) <= c.max_tokens,
    ensures
        total_tokens(d.messages) <= d.max_tokens,
{
    if r is Ok {
        assert(c.messages.push(m).drop_last() =~= c.messages);
    }
}

/// Compressing loses no message: what is taken and what stays are the
/// conversation, and their tokens its tokens.
pub proof fn law_compression_splits(v: Seq<MessageView>)
    ensures
        cut(v) matches Some(e) ==> {
            &&& v.take(e) + v.skip(e) == v
            &&& total_tokens(v.take(e)) + total_tokens(v.skip(e)) == total_tokens(v)
        },
{
    law_cut_keeps_tool_groups(v);
    if cut(v) is Some {
        let e = cut(v)->Some_0;
        assert(v.take(e) + v.skip(e) =~= v);
        lemma_total_split(v.take(e), v.skip(e));
    }
}

} // verus!
