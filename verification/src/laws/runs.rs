//! A run of the agent: what joins the conversation, what is told of it, and
//! what it counts.

use vstd::prelude::*;

use crate::agent::{
    answer_ended, begun, broken_message, chunk_event, chunk_taken, is_failure, result_message, signalled,
    steer_message, turn_started, RunView,
};
use crate::anthropic::{answer_calls, answer_text};
use crate::context::{
    added, calls_tokens, lemma_total_split, msg_tokens, summary_message, text_tokens, total_tokens, ContextView,
};
use crate::events::AgentEventView;
use crate::text::{contains_text, dec, occurs_at, trim, utf8_len};
use crate::types::{call_views, ChunkView, MessageView, Role, ToolCall, ToolCallView};

use super::group_holds;

verus! {

/// What is added to a conversation stands at its end, as it is, and changes
/// nothing else; where it would be too long, nothing changes.
pub proof fn law_what_is_added(c: ContextView, m: MessageView, d: ContextView, r: Result<(), String>)
    requires
        added(c, m, d, r),
    ensures
        r is Ok <==> total_tokens(c.messages) + msg_tokens(m) <= c.max_tokens,
        r is Ok ==> d.messages == c.messages.push(m),
        r is Err ==> d.messages == c.messages,
        d.system_prompt == c.system_prompt && d.summary == c.summary && d.max_tokens == c.max_tokens
            && d.compress_above == c.compress_above,
        r matches Err(e) ==> contains_text(e@, dec(total_tokens(c.messages))) && contains_text(
            e@,
            dec(msg_tokens(m)),
        ) && contains_text(e@, dec(c.max_tokens as nat)),
{
    broadcast use group_holds;

}

/// An answer joins the conversation with its text and all its calls; the calls
/// are the ones that are run, and the text is what the run says in the end.
pub proof fn law_answer_joins_the_conversation(v: RunView, w: RunView, c: Vec<ToolCall>)
    requires
        answer_ended(v, w, Ok(c)),
    ensures
        call_views(c@) == answer_calls(v.chunks),
        w.context.messages.len() == v.context.messages.len() + 1,
        w.context.messages.drop_last() == v.context.messages,
        w.context.messages.last().role == Role::Assistant,
        w.context.messages.last().content == answer_text(v.chunks),
        c@.len() == 0 ==> w.context.messages.last().tool_calls is None,
        c@.len() > 0 ==> w.context.messages.last().tool_calls == Some(answer_calls(v.chunks)),
        w.final_text == answer_text(v.chunks),
        w.turn == v.turn && w.errors == v.errors && w.steers == v.steers,
        !(trim(answer_text(v.chunks)).len() == 0 && answer_calls(v.chunks).len() == 0),
{
    assert(call_views(c@).len() == c@.len());
    assert(w.context.messages.drop_last() =~= v.context.messages);
}

/// An answer with neither text nor calls is refused, and only such a one.
pub proof fn law_empty_answers(v: RunView, w: RunView, e: String)
    requires
        answer_ended(v, w, Err(e)),
    ensures
        trim(answer_text(v.chunks)).len() == 0 && answer_calls(v.chunks).len() == 0 ==> w == v,
        w.context.messages == v.context.messages,
{
}

/// A tool's result joins the conversation under the id of its call, as the tool
/// gave it.
pub proof fn law_result_joins_under_its_call(id: Seq<char>, result: Seq<char>)
    ensures
        result_message(id, result).role == Role::Tool,
        result_message(id, result).content == result,
        result_message(id, result).tool_call_id == Some(id),
        result_message(id, result).tool_calls is None,
{
}

/// The user's words in between are kept as they were said, and of the answer
/// that they break off what was there.
pub proof fn law_words_in_between(steer: Seq<char>, text: Seq<char>)
    ensures
        steer_message(steer).role == Role::User,
        contains_text(steer_message(steer).content, steer),
        steer_message(steer).content.len() == "[用户中途指令] "@.len() + steer.len(),
        broken_message(text).role == Role::Assistant,
        occurs_at(broken_message(text).content, text, 0),
        broken_message(text).content.len() > text.len(),
        broken_message(text).tool_calls is None,
{
    broadcast use group_holds;

    reveal_strlit("\n(此回复被用户中途打断)");
    let b = text + "\n(此回复被用户中途打断)"@;
    assert(b.subrange(0, text.len() as int) =~= text);
}

/// A tool that fails is kept as a signal with the start of its failure; one that
/// succeeds after it failed counts as a retry; nothing else changes.
pub proof fn law_tools_give_signals(v: RunView, name: Seq<char>, result: Seq<char>)
    requires
        v.retries < usize::MAX,
    ensures
        ({
            let w = signalled(v, name, result);
            let failed = occurs_at(result, "ERROR"@, 0);
            &&& failed ==> w.errors.len() == v.errors.len() + 1 && w.errors.drop_last() == v.errors && w.errors.last().0
                == name && w.failed.contains(name) && w.retries == v.retries
            &&& failed && result.len() <= 160 ==> w.errors.last().1 == result
            &&& failed && result.len() > 160 ==> w.errors.last().1 == result.take(160)
            &&& !failed ==> w.errors == v.errors && !w.failed.contains(name)
            &&& !failed && v.failed.contains(name) ==> w.retries == v.retries + 1
            &&& !failed && !v.failed.contains(name) ==> w.retries == v.retries
            &&& forall|other: Seq<char>| other != name ==> (w.failed.contains(other) <==> v.failed.contains(other))
            &&& w.context == v.context && w.steers == v.steers && w.usage == v.usage && w.turn == v.turn
        }),
{
    assert(signalled(v, name, result).errors.drop_last() =~= v.errors || !is_failure(result));
}

/// A run begins with nothing of the one before but the conversation and what
/// was used.
pub proof fn law_run_begins_anew(v: RunView)
    ensures
        begun(v).errors.len() == 0 && begun(v).steers.len() == 0 && begun(v).retries == 0 && begun(v).turn == 0,
        begun(v).chunks.len() == 0 && begun(v).final_text.len() == 0,
        forall|n: Seq<char>| !begun(v).failed.contains(n),
        begun(v).context == v.context && begun(v).usage == v.usage && begun(v).max_turns == v.max_turns,
{
}

/// What comes in is told as it comes: text as text, reasoning as reasoning. All
/// of it is kept in its order.
pub proof fn law_pieces_are_told(v: RunView, c: ChunkView)
    ensures
        c matches ChunkView::Delta(s) ==> chunk_event(c) == Some(AgentEventView::MessageUpdate(s)),
        c matches ChunkView::Reasoning(s) ==> chunk_event(c) == Some(AgentEventView::Thinking(s)),
        !(c is Delta) && !(c is Reasoning) ==> chunk_event(c) is None,
        chunk_taken(v, c).chunks == v.chunks.push(c),
        chunk_taken(v, c).context == v.context,
{
}

/// Tokens are estimated as half the bytes, over a message's text and its calls,
/// and those of a conversation are those of its messages.
pub proof fn law_tokens_are_estimated(m: MessageView, a: Seq<MessageView>, b: Seq<MessageView>, s: Seq<char>)
    ensures
        text_tokens(s) == utf8_len(s) / 2,
        m.tool_calls is None ==> msg_tokens(m) == utf8_len(m.content) / 2,
        m.tool_calls matches Some(c) ==> msg_tokens(m) == utf8_len(m.content) / 2 + calls_tokens(c),
        total_tokens(a + b) == total_tokens(a) + total_tokens(b),
        total_tokens(seq![m]) == msg_tokens(m),
        total_tokens(Seq::<MessageView>::empty()) == 0,
{
    lemma_total_split(a, b);
    assert(seq![m].drop_last() =~= Seq::<MessageView>::empty());
    assert(total_tokens(Seq::<MessageView>::empty()) == 0);
    assert(seq![m].last() == m);
}

/// The tokens of calls are those of their names and their arguments.
pub proof fn law_calls_cost_tokens(a: Seq<ToolCallView>, c: ToolCallView)
    ensures
        calls_tokens(a.push(c)) == calls_tokens(a) + utf8_len(c.name) / 2 + utf8_len(c.arguments) / 2,
        calls_tokens(Seq::<ToolCallView>::empty()) == 0,
{
    assert(a.push(c).drop_last() =~= a);
}

/// A summary is sent as a message of the system that holds it.
pub proof fn law_summary_is_a_message(s: Seq<char>)
    ensures
        summary_message(s).role == Role::System,
        contains_text(summary_message(s).content, "【会话历史摘要】"@ + "\n"@ + s),
        summary_message(s).tool_calls is None,
{
    broadcast use group_holds;

}

/// A turn begins with the count of what is sent, in one more call, and with an
/// empty answer.
pub proof fn law_turn_begins(v: RunView, sent: Seq<MessageView>)
    requires
        v.usage.input_tokens + total_tokens(sent) <= u64::MAX,
        v.usage.llm_calls < u64::MAX,
    ensures
        ({
            let w = turn_started(v, sent);
            &&& w.usage.input_tokens == v.usage.input_tokens + total_tokens(sent)
            &&& w.usage.llm_calls == v.usage.llm_calls + 1
            &&& w.usage.output_tokens == v.usage.output_tokens
            &&& w.usage.cached_tokens == v.usage.cached_tokens
            &&& w.base_input == v.usage.input_tokens
            &&& w.base_output == v.usage.output_tokens
            &&& !w.server_usage_seen
            &&& w.chunks.len() == 0
            &&& w.context == v.context && w.turn == v.turn && w.max_turns == v.max_turns
            &&& w.errors == v.errors && w.steers == v.steers && w.failed == v.failed && w.retries == v.retries
        }),
{
}

} // verus!
