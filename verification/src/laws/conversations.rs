//! What a conversation is turned into: the request for a summary, and what is
//! remembered of other sessions.

use vstd::prelude::*;

use crate::agent::{
    call_lines, compression_due, compression_prompt, compression_started, dialogue, memory_lines, message_lines,
    role_label, turn_messages, RunView,
};
use crate::context::{
    cut, cut_keeping, is_summary, law_cut_keeps_tool_groups, restored, skip_tools, summarized_len, ContextView,
};
use crate::text::{contains_text, utf8_len};
use crate::types::{MessageView, Role, ToolCallView};

use super::{
    group_holds, in_order, lemma_holds_itself, lemma_order_both, lemma_order_holds, lemma_order_left, lemma_order_none,
    lemma_order_push,
};

verus! {

/// A call in words.
pub open spec fn call_in_words(c: ToolCallView) -> Seq<char> {
    "[tool_call] "@ + c.name + "("@ + c.arguments + ")"@
}

/// The calls of a message in words.
pub open spec fn calls_in_words(m: MessageView) -> Seq<Seq<char>> {
    match m.tool_calls {
        Some(c) => Seq::new(c.len(), |j: int| call_in_words(c[j])),
        None => Seq::empty(),
    }
}

/// What a message says, under the name of its role.
pub open spec fn said_in_words(m: MessageView) -> Seq<char> {
    match m.role {
        Role::System => "[system] "@ + m.content + "\n"@,
        Role::User => "[user] "@ + m.content + "\n"@,
        Role::Assistant => "[assistant] "@ + m.content + "\n"@,
        Role::Tool => "[tool] "@ + m.content + "\n"@,
    }
}

/// What messages say and the calls they make, one after the other.
pub open spec fn all_in_words(v: Seq<MessageView>) -> Seq<Seq<char>>
    decreases v.len(),
{
    if v.len() == 0 {
        Seq::empty()
    } else {
        all_in_words(v.drop_last()) + (seq![said_in_words(v.last())] + calls_in_words(v.last()))
    }
}

proof fn lemma_call_lines(calls: Seq<ToolCallView>)
    ensures
        in_order(call_lines(calls), Seq::new(calls.len(), |j: int| call_in_words(calls[j]))),
    decreases calls.len(),
{
    let want = Seq::new(calls.len(), |j: int| call_in_words(calls[j]));
    if calls.len() > 0 {
        let p = calls.drop_last();
        lemma_call_lines(p);
        let before = Seq::new(p.len(), |j: int| call_in_words(p[j]));
        let c = calls.last();
        let last = "[tool_call] "@ + c.name + "("@ + c.arguments + ")\n"@;
        reveal_strlit(")\n");
        reveal_strlit(")");
        assert(")\n"@ =~= ")"@ + seq!['\n']);
        assert(last =~= call_in_words(c) + seq!['\n']);
        assert(contains_text(last, call_in_words(c))) by {
            broadcast use group_holds;

        }
        lemma_order_push(call_lines(p), before, last, call_in_words(c));
        assert(call_lines(calls) =~= call_lines(p) + last);
        assert(before.push(call_in_words(c)) =~= want);
    } else {
        lemma_order_none(call_lines(calls));
        assert(want =~= Seq::<Seq<char>>::empty());
    }
}

proof fn lemma_message_lines(m: MessageView)
    ensures
        in_order(message_lines(m), seq![said_in_words(m)] + calls_in_words(m)),
{
    let first = "["@ + role_label(m.role) + "] "@ + m.content + "\n"@;
    reveal_strlit("[");
    reveal_strlit("] ");
    reveal_strlit("system");
    reveal_strlit("user");
    reveal_strlit("assistant");
    reveal_strlit("tool");
    reveal_strlit("[system] ");
    reveal_strlit("[user] ");
    reveal_strlit("[assistant] ");
    reveal_strlit("[tool] ");
    assert("["@ + "system"@ + "] "@ =~= "[system] "@);
    assert("["@ + "user"@ + "] "@ =~= "[user] "@);
    assert("["@ + "assistant"@ + "] "@ =~= "[assistant] "@);
    assert("["@ + "tool"@ + "] "@ =~= "[tool] "@);
    assert(first == said_in_words(m));
    lemma_holds_itself(first);
    super::lemma_order_one(first, first);
    match m.tool_calls {
        Some(c) => {
            lemma_call_lines(c);
            lemma_order_both(first, seq![first], call_lines(c), calls_in_words(m));
        },
        None => {
            lemma_order_none(Seq::<char>::empty());
            lemma_order_both(first, seq![first], Seq::<char>::empty(), Seq::<Seq<char>>::empty());
        },
    }
}

proof fn lemma_dialogue(v: Seq<MessageView>)
    ensures
        in_order(dialogue(v), all_in_words(v)),
    decreases v.len(),
{
    if v.len() > 0 {
        let m = v.last();
        lemma_dialogue(v.drop_last());
        lemma_message_lines(m);
        lemma_order_both(
            dialogue(v.drop_last()),
            all_in_words(v.drop_last()),
            message_lines(m),
            seq![said_in_words(m)] + calls_in_words(m),
        );
    } else {
        lemma_order_none(dialogue(v));
    }
}

/// The request for a summary holds every message that the compression takes
/// out, whatever its role, and every call it makes, in their order.
pub proof fn law_summary_request_holds_all(c: ContextView)
    requires
        compression_due(c),
    ensures
        in_order(compression_prompt(c), all_in_words(c.messages.take(cut(c.messages)->Some_0))),
{
    let v = c.messages.take(cut(c.messages)->Some_0);
    lemma_dialogue(v);
    match c.summary {
        Some(s) => {
            let front = "以下是已有的会话历史摘要和新的对话内容。请把它们合并成一份简洁摘要，保留：关键决策、结论、重要文件路径、未完成任务、用户偏好。直接输出摘要内容，不要任何前缀。\n\n【已有摘要】\n"@
                + s + "\n\n【新对话内容】\n"@;
            lemma_order_left(front, dialogue(v), all_in_words(v));
        },
        None => {
            let front = "把以下对话历史压缩成简洁摘要，保留：关键决策、结论、重要文件路径、未完成任务、用户偏好。直接输出摘要内容，不要任何前缀。\n\n"@;
            lemma_order_left(front, dialogue(v), all_in_words(v));
        },
    }
}

proof fn lemma_said(v: Seq<MessageView>, i: int)
    requires
        0 <= i < v.len(),
    ensures
        all_in_words(v).contains(said_in_words(v[i])),
        v[i].tool_calls matches Some(c) ==> forall|j: int|
            0 <= j < c.len() ==> all_in_words(v).contains(call_in_words(#[trigger] c[j])),
    decreases v.len(),
{
    let m = v.last();
    let p = all_in_words(v.drop_last());
    let new = seq![said_in_words(m)] + calls_in_words(m);
    let all = p + new;
    if i < v.len() - 1 {
        lemma_said(v.drop_last(), i);
        assert(v.drop_last()[i] == v[i]);
        let x = said_in_words(v[i]);
        assert(all[p.index_of(x)] == x);
        if let Some(c) = v[i].tool_calls {
            assert forall|j: int| 0 <= j < c.len() implies all.contains(call_in_words(#[trigger] c[j])) by {
                let y = call_in_words(c[j]);
                assert(p.contains(y));
                assert(all[p.index_of(y)] == y);
            }
        }
    } else {
        assert(all[p.len() as int] == said_in_words(m));
        if let Some(c) = v[i].tool_calls {
            assert forall|j: int| 0 <= j < c.len() implies all.contains(call_in_words(#[trigger] c[j])) by {
                assert(all[p.len() + 1 + j] == call_in_words(c[j]));
            }
        }
    }
}

/// What a compression takes out of the conversation is told to the one who
/// writes the summary: each message under its role, each call with its
/// arguments, and the summary so far. What stays is what was not told.
pub proof fn law_nothing_is_compressed_untold(v: RunView, i: int)
    requires
        compression_due(v.context),
        0 <= i < v.context.messages.len() - compression_started(v).context.messages.len(),
    ensures
        contains_text(compression_prompt(v.context), said_in_words(v.context.messages[i])),
        v.context.messages[i].tool_calls matches Some(c) ==> forall|j: int|
            0 <= j < c.len() ==> contains_text(compression_prompt(v.context), call_in_words(#[trigger] c[j])),
        v.context.summary matches Some(s) ==> contains_text(compression_prompt(v.context), "【已有摘要】\n"@ + s),
        compression_started(v).context.messages.len() > 0,
        forall|k: int|
            0 <= k < compression_started(v).context.messages.len() ==> #[trigger] compression_started(
                v,
            ).context.messages[k] == v.context.messages[k + v.context.messages.len() - compression_started(
                v,
            ).context.messages.len()],
        compression_started(v).context.summary == v.context.summary,
        compression_started(v).context.system_prompt == v.context.system_prompt,
{
    let c = v.context;
    law_cut_keeps_tool_groups(c.messages);
    let taken = c.messages.take(cut(c.messages)->Some_0);
    law_summary_request_holds_all(c);
    lemma_said(taken, i);
    let all = all_in_words(taken);
    let prompt = compression_prompt(c);
    assert forall|x: Seq<char>| #[trigger] all.contains(x) implies contains_text(prompt, x) by {
        lemma_order_holds(prompt, all, all.index_of(x));
    }
    if let Some(calls) = c.messages[i].tool_calls {
        assert forall|j: int| 0 <= j < calls.len() implies contains_text(
            prompt,
            call_in_words(#[trigger] calls[j]),
        ) by {
            assert(all.contains(call_in_words(calls[j])));
        }
    }
    if let Some(s) = c.summary {
        let words = "以下是已有的会话历史摘要和新的对话内容。请把它们合并成一份简洁摘要，保留：关键决策、结论、重要文件路径、未完成任务、用户偏好。直接输出摘要内容，不要任何前缀。\n\n【已有摘要】\n"@;
        reveal_strlit(
            "以下是已有的会话历史摘要和新的对话内容。请把它们合并成一份简洁摘要，保留：关键决策、结论、重要文件路径、未完成任务、用户偏好。直接输出摘要内容，不要任何前缀。\n\n【已有摘要】\n",
        );
        reveal_strlit("【已有摘要】\n");
        let n = words.len() - "【已有摘要】\n"@.len();
        assert(words.skip(n) =~= "【已有摘要】\n"@);
        assert(words =~= words.take(n) + "【已有摘要】\n"@);
        broadcast use group_holds;

        assert(contains_text(words.take(n) + "【已有摘要】\n"@ + s, "【已有摘要】\n"@ + s));
    }
}

/// What is remembered of other sessions is told: each question and the start
/// of its answer, in their order.
pub proof fn law_memories_are_told(hits: Seq<(String, String)>, i: int)
    requires
        0 <= i < hits.len(),
    ensures
        contains_text(memory_lines(hits), "\n- 用户曾问："@ + hits[i].0@ + "\n  你答："@),
        hits[i].1@.len() <= 400 ==> contains_text(
            memory_lines(hits),
            hits[i].0@ + "\n  你答："@ + hits[i].1@,
        ),
        hits[i].1@.len() > 400 ==> contains_text(
            memory_lines(hits),
            hits[i].0@ + "\n  你答："@ + hits[i].1@.take(400),
        ),
    decreases hits.len(),
{
    broadcast use group_holds;

    if i < hits.len() - 1 {
        law_memories_are_told(hits.drop_last(), i);
    }
}

/// What a turn sends is the system prompt, the summary so far, and every
/// message in its order; what is remembered stands behind the system prompt of
/// the first turn, and changes nothing else.
pub proof fn law_turn_sends_all(v: RunView, memory: Option<MessageView>)
    ensures
        ({
            let sent = turn_messages(v, memory);
            let n = v.context.messages.len() as int;
            &&& sent.len() >= n + 1
            &&& sent[0].role == Role::System && sent[0].content == v.context.system_prompt
            &&& forall|i: int| 0 <= i < n ==> #[trigger] sent[sent.len() - n + i] == v.context.messages[i]
            &&& v.context.summary matches Some(s) ==> sent.len() >= n + 2 && sent[sent.len() - n - 1].role
                == Role::System && contains_text(sent[sent.len() - n - 1].content, s)
            &&& memory matches Some(m) ==> v.turn == 0 ==> sent[1] == m
            &&& sent.len() == 1 + n + (if v.context.summary is Some {
                1int
            } else {
                0
            }) + (if memory is Some && v.turn == 0 {
                1int
            } else {
                0
            })
        }),
{
    broadcast use group_holds;

}

proof fn lemma_tools_are_skipped(v: Seq<MessageView>, e: int)
    requires
        0 <= e <= v.len(),
    ensures
        e <= skip_tools(v, e) <= v.len(),
        forall|j: int| e <= j < skip_tools(v, e) ==> (#[trigger] v[j]).role == Role::Tool,
        skip_tools(v, e) < v.len() ==> v[skip_tools(v, e)].role != Role::Tool,
    decreases v.len() - e,
{
    if e < v.len() && v[e].role == Role::Tool {
        lemma_tools_are_skipped(v, e + 1);
    }
}

/// A long conversation keeps its last twelve messages; results of tools that
/// would stand first among them go with what came before.
pub proof fn law_last_messages_stay(v: Seq<MessageView>, k: int)
    requires
        v.len() > 12,
        0 <= k < 12,
        forall|j: int| v.len() - 12 <= j < v.len() - 12 + k ==> (#[trigger] v[j]).role == Role::Tool,
        v[v.len() - 12 + k].role != Role::Tool,
    ensures
        cut(v) == Some(v.len() - 12 + k),
{
    let e = v.len() - 12;
    lemma_tools_are_skipped(v, e);
    let s = skip_tools(v, e);
    if s < e + k {
        assert(v[s].role == Role::Tool);
    } else if s > e + k {
        assert(v[e + k].role == Role::Tool);
    }
    assert(cut_keeping(v, 12) == s);
}

/// A conversation of three messages or more can be compressed, unless it ends
/// with two results of tools. One of fewer cannot be.
pub proof fn law_what_can_be_compressed(v: Seq<MessageView>)
    ensures
        v.len() <= 2 ==> cut(v) is None || v[0].role == Role::Tool,
        v.len() > 2 && !(v[v.len() - 2].role == Role::Tool && v[v.len() - 1].role == Role::Tool) ==> cut(v) is Some,
        cut(v) matches Some(e) ==> 0 < e < v.len() && v[e].role != Role::Tool,
{
    law_cut_keeps_tool_groups(v);
    if v.len() > 2 {
        lemma_tools_are_skipped(v, v.len() - 2);
        let s = skip_tools(v, v.len() - 2);
        assert(cut_keeping(v, 2) == s);
        if s == v.len() {
            assert(v[v.len() - 2].role == Role::Tool);
            assert(v[v.len() - 1].role == Role::Tool);
        }
    } else {
        lemma_tools_are_skipped(v, 0);
        assert(cut_keeping(v, 12) == skip_tools(v, 0));
        assert(cut_keeping(v, 2) == skip_tools(v, 0));
        if v.len() > 0 && skip_tools(v, 0) > 0 {
            assert(v[0].role == Role::Tool);
        }
    }
}

proof fn lemma_nothing_summarized(v: Seq<MessageView>)
    requires
        forall|j: int| 0 <= j < v.len() ==> !is_summary(#[trigger] v[j]),
    ensures
        summarized_len(v) == 0,
    decreases v.len(),
{
    if v.len() > 0 {
        let p = v.drop_last();
        assert forall|j: int| 0 <= j < p.len() implies !is_summary(#[trigger] p[j]) by {
            assert(p[j] == v[j]);
        }
        assert(!is_summary(v[v.len() - 1]));
        lemma_nothing_summarized(p);
    }
}

/// A conversation that was never compressed comes back whole.
pub proof fn law_conversation_comes_back(prompt: Seq<char>, v: Seq<MessageView>, max: usize, above: i64)
    requires
        forall|j: int| 0 <= j < v.len() ==> !is_summary(#[trigger] v[j]),
    ensures
        ({
            let c = restored(prompt, v, max, above);
            &&& c.messages == v
            &&& c.summary is None
            &&& c.system_prompt == prompt
            &&& c.max_tokens == max
            &&& c.compress_above == above
        }),
{
    lemma_nothing_summarized(v);
    assert(v.skip(0) =~= v);
}

/// Only what the system says under the heading of a summary is one.
pub proof fn law_what_is_a_summary(m: MessageView, rest: Seq<char>)
    ensures
        m.role != Role::System ==> !is_summary(m),
        m.role == Role::System && m.content == "【会话历史摘要】"@ + rest ==> is_summary(m),
{
    if m.role == Role::System && m.content == "【会话历史摘要】"@ + rest {
        let p = "【会话历史摘要】"@;
        assert(m.content.subrange(0, p.len() as int) =~= p);
    }
}

/// The request for a summary is counted: its text goes in, in one call.
pub proof fn law_summary_is_counted(v: RunView)
    requires
        v.usage.input_tokens + utf8_len(compression_prompt(v.context)) / 2 <= u64::MAX,
        v.usage.llm_calls < u64::MAX,
    ensures
        ({
            let u = compression_started(v).usage;
            &&& u.input_tokens == v.usage.input_tokens + utf8_len(compression_prompt(v.context)) / 2
            &&& u.llm_calls == v.usage.llm_calls + 1
            &&& u.output_tokens == v.usage.output_tokens
            &&& u.cached_tokens == v.usage.cached_tokens
        }),
{
}

} // verus!
