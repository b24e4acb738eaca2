//! What the model is sent of a conversation, and what is made of its answer.

use vstd::prelude::*;

use crate::anthropic::{
    all_arguments, answer_calls, answer_text, call_at, call_indexes, event_results, event_sep_from, fed_rest,
    fed_results, first_id, first_name, for_call, is_retryable, is_success, law_calls_by_index, line_results,
    messages_url, payload_chunks, payload_results, push_message, request_body, sep_at, system_text, system_texts,
    takes_results, turn_json, turns_json, turns_of,
};
use crate::json::{json_parsed, JsonView};
use crate::text::{contains_text, is_space, join, lines, lossy, occurs_at, trim_start};
use crate::types::{ChunkView, Message, Role, ToolCallView, ToolSchema};

use super::{group_members, in_order, lemma_join_holds, lemma_join_in_order};

verus! {

broadcast use group_members;

/// What the system messages say.
pub open spec fn system_contents(messages: Seq<Message>) -> Seq<Seq<char>> {
    messages.filter(|m: Message| m.role == Role::System).map_values(|m: Message| m.content@)
}

proof fn lemma_system_texts(messages: Seq<Message>)
    ensures
        system_texts(messages) == system_contents(messages),
        forall|i: int|
            0 <= i < messages.len() && (#[trigger] messages[i]).role == Role::System ==> system_texts(
                messages,
            ).contains(messages[i].content@),
    decreases messages.len(),
{
    reveal(Seq::filter);
    let all = system_texts(messages);
    if messages.len() > 0 {
        let p = messages.drop_last();
        let before = system_texts(p);
        lemma_system_texts(p);
        assert forall|i: int| 0 <= i < messages.len() && (#[trigger] messages[i]).role == Role::System implies
            all.contains(messages[i].content@) by {
            let x = messages[i].content@;
            if i < p.len() {
                assert(p[i] == messages[i]);
                assert(all[before.index_of(x)] == x);
            } else {
                assert(all[before.len() as int] == x);
            }
        }
    }
    assert(all =~= system_contents(messages));
}

/// Every system message is sent: the system text is made of the contents of
/// all of them, in their order, each on a line of its own.
pub proof fn law_every_system_message_is_sent(messages: Seq<Message>)
    ensures
        system_text(messages) is Some <==> system_contents(messages).len() > 0,
        system_text(messages) matches Some(t) ==> t == join(system_contents(messages), "\n"@) && in_order(
            t,
            system_contents(messages),
        ),
        forall|i: int|
            0 <= i < messages.len() && (#[trigger] messages[i]).role == Role::System ==> system_text(messages) is Some
                && contains_text(system_text(messages)->0, messages[i].content@),
{
    let all = system_contents(messages);
    lemma_system_texts(messages);
    lemma_join_in_order(all, "\n"@);
    assert forall|i: int| 0 <= i < messages.len() && (#[trigger] messages[i]).role == Role::System implies system_text(
        messages,
    ) is Some && contains_text(system_text(messages)->0, messages[i].content@) by {
        lemma_join_holds(all, "\n"@, all.index_of(messages[i].content@));
    }
}

/// A turn that the model is sent is one of this role with this text.
pub open spec fn says(t: JsonView, role: Seq<char>, text: Seq<char>) -> bool {
    t.get_str("role"@) == Some(role) && t.get_str("content"@) == Some(text)
}

/// A block stands for a call.
pub open spec fn is_call_block(b: JsonView, c: ToolCallView) -> bool {
    &&& b.get_str("type"@) == Some("tool_use"@)
    &&& b.get_str("id"@) == Some(c.id)
    &&& b.get_str("name"@) == Some(c.name)
    &&& json_parsed(c.arguments) matches Ok(v) ==> b.get("input"@) == Some(v)
    &&& json_parsed(c.arguments) is Err ==> b.get("input"@) == Some(JsonView::Obj(Seq::empty()))
}

/// A block stands for a tool's result.
pub open spec fn is_result_block(b: JsonView, m: Message) -> bool {
    &&& b.get_str("type"@) == Some("tool_result"@)
    &&& b.get_str("content"@) == Some(m.content@)
    &&& m.tool_call_id matches Some(id) ==> b.get_str("tool_use_id"@) == Some(id@)
}

proof fn lemma_request_names()
    ensures
        "role"@ != "content"@,
        "type"@ != "id"@,
        "type"@ != "name"@,
        "type"@ != "input"@,
        "type"@ != "text"@,
        "type"@ != "tool_use_id"@,
        "type"@ != "content"@,
        "id"@ != "name"@,
        "id"@ != "input"@,
        "name"@ != "input"@,
        "tool_use_id"@ != "content"@,
        "user"@ != "assistant"@,
{
    reveal_strlit("role");
    reveal_strlit("content");
    reveal_strlit("type");
    reveal_strlit("id");
    reveal_strlit("name");
    reveal_strlit("input");
    reveal_strlit("text");
    reveal_strlit("tool_use_id");
    reveal_strlit("user");
    reveal_strlit("assistant");
    assert("role"@.len() != "content"@.len());
    assert("role"@[0] != "type"@[0]);
    assert("role"@.len() != "id"@.len());
    assert("role"@[0] != "name"@[0]);
    assert("role"@.len() != "input"@.len());
    assert("role"@[0] != "text"@[0]);
    assert("role"@.len() != "tool_use_id"@.len());
    assert("role"@[0] != "user"@[0]);
    assert("role"@.len() != "assistant"@.len());
    assert("content"@.len() != "type"@.len());
    assert("content"@.len() != "id"@.len());
    assert("content"@.len() != "name"@.len());
    assert("content"@.len() != "input"@.len());
    assert("content"@.len() != "text"@.len());
    assert("content"@.len() != "tool_use_id"@.len());
    assert("content"@.len() != "user"@.len());
    assert("content"@.len() != "assistant"@.len());
    assert("type"@.len() != "id"@.len());
    assert("type"@[0] != "name"@[0]);
    assert("type"@.len() != "input"@.len());
    assert("type"@[1] != "text"@[1]);
    assert("type"@.len() != "tool_use_id"@.len());
    assert("type"@[0] != "user"@[0]);
    assert("type"@.len() != "assistant"@.len());
    assert("id"@.len() != "name"@.len());
    assert("id"@.len() != "input"@.len());
    assert("id"@.len() != "text"@.len());
    assert("id"@.len() != "tool_use_id"@.len());
    assert("id"@.len() != "user"@.len());
    assert("id"@.len() != "assistant"@.len());
    assert("name"@.len() != "input"@.len());
    assert("name"@[0] != "text"@[0]);
    assert("name"@.len() != "tool_use_id"@.len());
    assert("name"@[0] != "user"@[0]);
    assert("name"@.len() != "assistant"@.len());
    assert("input"@.len() != "text"@.len());
    assert("input"@.len() != "tool_use_id"@.len());
    assert("input"@.len() != "user"@.len());
    assert("input"@.len() != "assistant"@.len());
    assert("text"@.len() != "tool_use_id"@.len());
    assert("text"@[0] != "user"@[0]);
    assert("text"@.len() != "assistant"@.len());
    assert("tool_use_id"@.len() != "user"@.len());
    assert("tool_use_id"@.len() != "assistant"@.len());
    assert("user"@.len() != "assistant"@.len());
}

/// What one more message adds to what the model is sent: nothing, where it is a
/// system message; a turn of the user or of the assistant with its text; a turn
/// of the assistant with its text and all its calls; or a tool's result, which
/// stands at the end of a turn of the user. What was sent before stays.
pub proof fn law_every_message_is_sent(before: Seq<Message>, m: Message)
    ensures
        ({
            let old = turns_json(turns_of(before));
            let new = turns_json(turns_of(before.push(m)));
            &&& m.role == Role::System ==> new == old
            &&& m.role == Role::User ==> new.len() == old.len() + 1 && new.drop_last() == old && says(
                new.last(),
                "user"@,
                m.content@,
            )
            &&& m.role == Role::Assistant && m.tool_calls is None ==> new.len() == old.len() + 1
                && new.drop_last() == old && says(new.last(), "assistant"@, m.content@)
            &&& m.role == Role::Assistant ==> (m.tool_calls matches Some(calls) ==> {
                &&& new.len() == old.len() + 1
                &&& new.drop_last() == old
                &&& new.last().get_str("role"@) == Some("assistant"@)
                &&& new.last().get("content"@) matches Some(JsonView::Arr(blocks))
                &&& blocks.len() == calls@.len() + (if m.content@.len() > 0 {
                    1int
                } else {
                    0
                })
                &&& m.content@.len() > 0 ==> blocks[0].get_str("type"@) == Some("text"@) && blocks[0].get_str(
                    "text"@,
                ) == Some(m.content@)
                &&& forall|i: int|
                    0 <= i < calls@.len() ==> is_call_block(
                        blocks[blocks.len() - calls@.len() + i],
                        (#[trigger] calls@[i])@,
                    )
            })
            &&& m.role == Role::Tool ==> {
                &&& new.len() > 0
                &&& new.last().get_str("role"@) == Some("user"@)
                &&& new.last().get("content"@) matches Some(JsonView::Arr(blocks))
                &&& blocks.len() > 0
                &&& is_result_block(blocks.last(), m)
                &&& new.len() == old.len() + 1 ==> new.drop_last() == old && blocks.len() == 1
                &&& new.len() != old.len() + 1 ==> new.len() == old.len() && new.drop_last() == old.drop_last()
                    && old.last().get_str("role"@) == Some("user"@) && old.last().get("content"@) == Some(
                    JsonView::Arr(blocks.drop_last()),
                )
            }
        }),
{
    lemma_request_names();
    let turns = turns_of(before);
    let v = before.push(m);
    assert(v.drop_last() =~= before);
    let more = push_message(turns, m);
    assert(turns_of(v) == more);
    let old = turns_json(turns);
    let new = turns_json(more);
    if m.role == Role::Tool {
        if turns.len() > 0 && takes_results(turns.last()) {
            let b = turns.last()->Blocks_blocks;
            assert(new.drop_last() =~= old.drop_last());
            assert(new.last() == turn_json(more.last()));
            assert(more.last()->Blocks_blocks.drop_last() =~= b);
            assert(old.last() == turn_json(turns.last()));
            assert(is_result_block(more.last()->Blocks_blocks.last(), m));
        } else {
            assert(new.drop_last() =~= old);
            assert(new.last() == turn_json(more.last()));
            assert(is_result_block(more.last()->Blocks_blocks.last(), m));
        }
    } else if m.role != Role::System {
        assert(new.drop_last() =~= old);
        assert(new.last() == turn_json(more.last()));
        if m.role == Role::Assistant && m.tool_calls is Some {
            let calls = m.tool_calls->0@;
            let blocks = more.last()->Blocks_blocks;
            assert forall|i: int| 0 <= i < calls.len() implies is_call_block(
                blocks[blocks.len() - calls.len() + i],
                (#[trigger] calls[i])@,
            ) by {}
        }
    }
}

/// The request names the model, holds the conversation and the system text, and
/// offers every tool with its description and its parameters.
pub proof fn law_request_is_complete(model: Seq<char>, messages: Seq<Message>, tools: Seq<ToolSchema>)
    ensures
        ({
            let r = request_body(model, messages, tools);
            &&& r.get_str("model"@) == Some(model)
            &&& r.get("messages"@) == Some(JsonView::Arr(turns_json(turns_of(messages))))
            &&& r.get_u64("max_tokens"@) == Some(4096u64)
            &&& r.get("stream"@) == Some(JsonView::Bool(true))
            &&& system_text(messages) is None ==> r.get("system"@) is None
            &&& system_text(messages) matches Some(t) ==> {
                &&& r.get("system"@) matches Some(JsonView::Arr(a))
                &&& a.len() == 1
                &&& a[0].get_str("type"@) == Some("text"@)
                &&& a[0].get_str("text"@) == Some(t)
                &&& a[0].get2_str("cache_control"@, "type"@) == Some("ephemeral"@)
            }
            &&& tools.len() == 0 ==> r.get("tools"@) is None
            &&& tools.len() > 0 ==> {
                &&& r.get("tools"@) matches Some(JsonView::Arr(a))
                &&& a.len() == tools.len()
                &&& forall|i: int|
                    0 <= i < tools.len() ==> {
                        &&& a[i].get_str("name"@) == Some((#[trigger] tools[i]).name@)
                        &&& a[i].get_str("description"@) == Some(tools[i].description@)
                        &&& a[i].get("input_schema"@) == Some(tools[i].parameters@)
                    }
            }
        }),
{
    reveal_strlit("model");
    reveal_strlit("messages");
    reveal_strlit("max_tokens");
    reveal_strlit("stream");
    reveal_strlit("system");
    reveal_strlit("tools");
    assert("model"@.len() != "messages"@.len());
    assert("model"@.len() != "max_tokens"@.len());
    assert("model"@.len() != "stream"@.len());
    assert("model"@.len() != "system"@.len());
    assert("model"@[0] != "tools"@[0]);
    assert("messages"@.len() != "max_tokens"@.len());
    assert("messages"@.len() != "stream"@.len());
    assert("messages"@.len() != "system"@.len());
    assert("messages"@.len() != "tools"@.len());
    assert("max_tokens"@.len() != "stream"@.len());
    assert("max_tokens"@.len() != "system"@.len());
    assert("max_tokens"@.len() != "tools"@.len());
    assert("stream"@[1] != "system"@[1]);
    assert("stream"@.len() != "tools"@.len());
    assert("system"@.len() != "tools"@.len());
    reveal_strlit("type");
    reveal_strlit("text");
    reveal_strlit("cache_control");
    assert("type"@[1] != "text"@[1]);
    assert("type"@.len() != "cache_control"@.len());
    assert("text"@.len() != "cache_control"@.len());
    reveal_strlit("name");
    reveal_strlit("description");
    reveal_strlit("input_schema");
    assert("name"@.len() != "description"@.len());
    assert("name"@.len() != "input_schema"@.len());
    assert("description"@.len() != "input_schema"@.len());
}

/// The text of an answer is all its pieces of text, one after the other, and
/// nothing else.
pub proof fn law_answer_is_its_text(a: Seq<ChunkView>, b: Seq<ChunkView>, c: ChunkView)
    ensures
        answer_text(a + b) == answer_text(a) + answer_text(b),
        c matches ChunkView::Delta(s) ==> answer_text(seq![c]) == s,
        !(c is Delta) ==> answer_text(seq![c]) == Seq::<char>::empty(),
    decreases b.len(),
{
    assert(seq![c].drop_last() =~= Seq::<ChunkView>::empty());
    assert(answer_text(Seq::<ChunkView>::empty()) =~= Seq::<char>::empty());
    if let ChunkView::Delta(s) = c {
        assert(Seq::<char>::empty() + s =~= s);
    }
    if b.len() == 0 {
        assert(a + b =~= a);
        assert(answer_text(a) + answer_text(b) =~= answer_text(a));
    } else {
        assert((a + b).drop_last() =~= a + b.drop_last());
        assert((a + b).last() == b.last());
        law_answer_is_its_text(a, b.drop_last(), c);
        if let ChunkView::Delta(s) = b.last() {
            assert((answer_text(a) + answer_text(b.drop_last())) + s =~= answer_text(a) + (answer_text(
                b.drop_last(),
            ) + s));
        }
    }
}

/// The arguments of a call are all the pieces that came for it, and its id and
/// its name are the first that came.
pub proof fn law_call_is_its_pieces(a: Seq<ChunkView>, b: Seq<ChunkView>, i: usize)
    ensures
        all_arguments(a + b, i) == all_arguments(a, i) + all_arguments(b, i),
        first_id(a + b, i) == (if first_id(a, i) is Some {
            first_id(a, i)
        } else {
            first_id(b, i)
        }),
        first_name(a + b, i) == (if first_name(a, i) is Some {
            first_name(a, i)
        } else {
            first_name(b, i)
        }),
    decreases b.len(),
{
    if b.len() == 0 {
        assert(a + b =~= a);
        assert(all_arguments(a, i) + all_arguments(b, i) =~= all_arguments(a, i));
    } else {
        assert((a + b).drop_last() =~= a + b.drop_last());
        assert((a + b).last() == b.last());
        law_call_is_its_pieces(a, b.drop_last(), i);
        if for_call(b.last(), i) {
            let d = b.last()->arguments_delta;
            assert((all_arguments(a, i) + all_arguments(b.drop_last(), i)) + d =~= all_arguments(a, i) + (
            all_arguments(b.drop_last(), i) + d));
        }
    }
}

/// A piece of a call gives the call at its index what it carries, and nothing
/// to another.
pub proof fn law_piece_of_a_call(
    index: usize,
    id: Option<Seq<char>>,
    name: Option<Seq<char>>,
    arguments_delta: Seq<char>,
    i: usize,
)
    ensures
        ({
            let one = seq![ChunkView::ToolCallDelta { index, id, name, arguments_delta }];
            if i == index {
                &&& all_arguments(one, i) == arguments_delta
                &&& first_id(one, i) == id
                &&& first_name(one, i) == name
            } else {
                &&& all_arguments(one, i) == Seq::<char>::empty()
                &&& first_id(one, i) is None
                &&& first_name(one, i) is None
            }
        }),
{
    let one = seq![ChunkView::ToolCallDelta { index, id, name, arguments_delta }];
    let none = Seq::<ChunkView>::empty();
    assert(one.drop_last() =~= none);
    assert(all_arguments(none, i) == Seq::<char>::empty());
    assert(first_id(none, i) is None);
    assert(first_name(none, i) is None);
    assert(Seq::<char>::empty() + arguments_delta =~= arguments_delta);
}

/// An answer has a call for every index for which a piece came, in the order of
/// the indexes, with the id, the name and the arguments that came for it.
pub proof fn law_every_call_is_made(chunks: Seq<ChunkView>, n: int, i: usize)
    requires
        0 <= n < chunks.len(),
        for_call(chunks[n], i),
    ensures
        exists|k: int|
            0 <= k < answer_calls(chunks).len() && call_indexes(chunks)[k] == i && {
                let c = #[trigger] answer_calls(chunks)[k];
                &&& c.arguments == all_arguments(chunks, i)
                &&& first_id(chunks, i) matches Some(id) ==> c.id == id
                &&& first_name(chunks, i) matches Some(name) ==> c.name == name
            },
{
    law_calls_by_index(chunks);
    assert(call_indexes(chunks).contains(i));
    let k = call_indexes(chunks).index_of(i);
    assert(answer_calls(chunks)[k] == call_at(chunks, i));
}

/// What the events of a stream carry is taken over: pieces of text, the start
/// of a call, more of its arguments, and what was used.
pub proof fn law_events_are_taken_over(v: JsonView, t: Seq<char>)
    ensures
        v.get_str("type"@) == Some("content_block_delta"@) && v.get2_str("delta"@, "type"@) == Some("text_delta"@)
            && v.get2_str("delta"@, "text"@) == Some(t) && t.len() > 0 ==> payload_chunks(v) == seq![
            ChunkView::Delta(t),
        ],
        v.get_str("type"@) == Some("content_block_delta"@) && v.get2_str("delta"@, "type"@) == Some(
            "input_json_delta"@,
        ) && v.get2_str("delta"@, "partial_json"@) == Some(t) ==> payload_chunks(v).len() == 1 && (v.get_u64(
            "index"@,
        ) matches Some(i) ==> payload_chunks(v)[0] == (ChunkView::ToolCallDelta {
            index: i as usize,
            id: None,
            name: None,
            arguments_delta: t,
        })),
        v.get_str("type"@) == Some("content_block_start"@) && v.get2_str("content_block"@, "type"@) == Some(
            "tool_use"@,
        ) ==> payload_chunks(v).len() == 1 && (v.get_u64("index"@) matches Some(i) ==> payload_chunks(v)[0] == (
        ChunkView::ToolCallDelta {
            index: i as usize,
            id: v.get2_str("content_block"@, "id"@),
            name: v.get2_str("content_block"@, "name"@),
            arguments_delta: Seq::empty(),
        })),
        v.get_str("type"@) == Some("message_stop"@) ==> payload_chunks(v) == seq![ChunkView::Done],
{
    reveal_strlit("content_block_start");
    reveal_strlit("content_block_delta");
    reveal_strlit("message_start");
    reveal_strlit("message_delta");
    reveal_strlit("message_stop");
    assert("content_block_start"@[14] != "content_block_delta"@[14]);
    assert("content_block_start"@.len() != "message_start"@.len());
    assert("content_block_start"@.len() != "message_delta"@.len());
    assert("content_block_start"@.len() != "message_stop"@.len());
    assert("content_block_delta"@.len() != "message_start"@.len());
    assert("content_block_delta"@.len() != "message_delta"@.len());
    assert("content_block_delta"@.len() != "message_stop"@.len());
    assert("message_start"@[8] != "message_delta"@[8]);
    assert("message_start"@.len() != "message_stop"@.len());
    assert("message_delta"@.len() != "message_stop"@.len());
    reveal_strlit("text_delta");
    reveal_strlit("input_json_delta");
    assert("text_delta"@.len() != "input_json_delta"@.len());
}

/// What the server says was used is taken over.
pub proof fn law_usage_is_taken_over(v: JsonView, m: JsonView, u: JsonView, n: u64, c: u64)
    ensures
        v.get_str("type"@) == Some("message_start"@) && v.get("message"@) == Some(m) && m.get("usage"@) == Some(u)
            && u.get_u64("input_tokens"@) == Some(n) && u.get_u64("cache_read_input_tokens"@) == Some(c) && n > 0
            ==> payload_chunks(v) == seq![
            ChunkView::Usage { input_tokens: n, output_tokens: 0, cached_tokens: c },
        ],
        v.get_str("type"@) == Some("message_delta"@) && v.get("usage"@) == Some(u) && u.get_u64("output_tokens"@)
            == Some(n) && n > 0 ==> payload_chunks(v) == seq![
            ChunkView::Usage { input_tokens: 0, output_tokens: n, cached_tokens: 0 },
        ],
{
    reveal_strlit("content_block_start");
    reveal_strlit("content_block_delta");
    reveal_strlit("message_start");
    reveal_strlit("message_delta");
    reveal_strlit("message_stop");
    assert("content_block_start"@[14] != "content_block_delta"@[14]);
    assert("content_block_start"@.len() != "message_start"@.len());
    assert("content_block_start"@.len() != "message_delta"@.len());
    assert("content_block_start"@.len() != "message_stop"@.len());
    assert("content_block_delta"@.len() != "message_start"@.len());
    assert("content_block_delta"@.len() != "message_delta"@.len());
    assert("content_block_delta"@.len() != "message_stop"@.len());
    assert("message_start"@[8] != "message_delta"@[8]);
    assert("message_start"@.len() != "message_stop"@.len());
    assert("message_delta"@.len() != "message_stop"@.len());
    reveal_strlit("text_delta");
    reveal_strlit("input_json_delta");
    assert("text_delta"@.len() != "input_json_delta"@.len());
}

/// A line of an event that begins with `data:` carries its payload, with or
/// without a space before it; other lines carry nothing.
pub proof fn law_data_lines_carry_payloads(p: Seq<char>, line: Seq<char>)
    ensures
        p.len() > 0 && !is_space(p[0]) ==> line_results("data:"@ + p) == payload_results(p) && line_results(
            "data: "@ + p,
        ) == payload_results(p),
        !occurs_at(line, "data:"@, 0) ==> line_results(line).len() == 0,
        json_parsed(p) is Err ==> payload_results(p).len() == 1 && payload_results(p)[0] is Err,
        json_parsed(p) matches Ok(v) ==> payload_results(p).len() == payload_chunks(v).len() && forall|i: int|
            0 <= i < payload_chunks(v).len() ==> (#[trigger] payload_results(p)[i]) == Ok::<ChunkView, Seq<char>>(
                payload_chunks(v)[i],
            ),
{
    reveal_strlit("data:");
    reveal_strlit("data: ");
    let a = "data:"@ + p;
    assert(a.subrange(0, 5) =~= "data:"@);
    assert(a.skip(5) =~= p);
    let b = "data: "@ + p;
    assert(b.subrange(0, 5) =~= "data:"@);
    assert(b.skip(5) =~= seq![' '] + p);
    assert((seq![' '] + p).drop_first() =~= p);
    assert(is_space((seq![' '] + p)[0]));
    assert(trim_start(seq![' '] + p) == trim_start(p));
}

/// The lines of an event are read one after the other.
pub proof fn law_events_are_read_by_lines(a: Seq<Seq<char>>, b: Seq<Seq<char>>)
    ensures
        event_results(a + b) == event_results(a) + event_results(b),
        forall|l: Seq<char>| event_results(seq![l]) == #[trigger] line_results(l),
    decreases b.len(),
{
    assert forall|l: Seq<char>| event_results(seq![l]) == #[trigger] line_results(l) by {
        assert(seq![l].drop_last() =~= Seq::<Seq<char>>::empty());
        assert(event_results(Seq::<Seq<char>>::empty()) + line_results(l) =~= line_results(l));
    }
    if b.len() == 0 {
        assert(a + b =~= a);
        assert(event_results(a) + event_results(b) =~= event_results(a));
    } else {
        assert((a + b).drop_last() =~= a + b.drop_last());
        law_events_are_read_by_lines(a, b.drop_last());
        assert((event_results(a) + event_results(b.drop_last())) + line_results(b.last()) =~= event_results(a) + (
        event_results(b.drop_last()) + line_results(b.last())));
    }
}

proof fn lemma_first_sep(e: Seq<u8>, rest: Seq<u8>, from: int)
    requires
        0 <= from <= e.len(),
        forall|i: int| 0 <= i < e.len() ==> !sep_at(e.push(10), i),
    ensures
        event_sep_from(e + seq![10u8, 10u8] + rest, from) == Some(e.len() as int),
    decreases e.len() - from,
{
    let all = e + seq![10u8, 10u8] + rest;
    assert(all[e.len() as int] == 10 && all[e.len() as int + 1] == 10);
    if from < e.len() {
        assert(!sep_at(e.push(10), from));
        assert(all[from] == e.push(10)[from] && all[from + 1] == e.push(10)[from + 1]);
        lemma_first_sep(e, rest, from + 1);
    }
}

/// An event that is complete is read as soon as its blank line is there, and
/// what follows it is read after it.
pub proof fn law_complete_events_are_read(e: Seq<u8>, rest: Seq<u8>)
    requires
        forall|i: int| 0 <= i < e.len() ==> !sep_at(e.push(10), i),
    ensures
        fed_results(e + seq![10u8, 10u8] + rest) == event_results(lines(lossy(e))) + fed_results(rest),
        fed_rest(e + seq![10u8, 10u8] + rest) == fed_rest(rest),
{
    lemma_first_sep(e, rest, 0);
    let all = e + seq![10u8, 10u8] + rest;
    assert(all.take(e.len() as int) =~= e);
    assert(all.skip(e.len() as int + 2) =~= rest);
}

/// A server that is overloaded or broken is asked again; a request that is
/// refused for another reason is not.
pub proof fn law_which_replies_are_retried(status: u16)
    ensures
        is_success(status) <==> status / 100 == 2,
        is_retryable(status) <==> status == 429 || status / 100 == 5,
        !(is_success(status) && is_retryable(status)),
{
}

/// Requests go to one place below the server's address, whether or not it ends
/// with a slash.
pub proof fn law_one_address(base: Seq<char>)
    requires
        base.len() > 0,
        base.last() != '/',
    ensures
        messages_url(base) == base + "/v1/messages"@,
        messages_url(base.push('/')) == base + "/v1/messages"@,
{
    assert(base.push('/').drop_last() =~= base);
}

/// Events are parted by two line feeds.
pub proof fn law_events_are_parted(buf: Seq<u8>, i: int)
    requires
        0 <= i < buf.len() - 1,
    ensures
        sep_at(buf, i) <==> buf[i] == 0x0a && buf[i + 1] == 0x0a,
{
}

} // verus!
