//! The Anthropic Messages protocol: requests out of conversations, chunks out
//! of server-sent events, answers out of chunks, and the rule for retries.

use vstd::prelude::*;
use vstd::slice::slice_subrange;

use crate::json::{json_parsed, parse, views, Json, JsonView};
use crate::text::{
    after_prefix, join, join_strings, lines, lines_of, lossy, str_eq, strip_prefix, strip_right,
    strip_right_string, strs, text_of_bytes, trim, trim_start, trim_start_string, trim_string,
};
use crate::types::{
    chunk_views, opt_view, ChunkView, Message, Role, StreamChunk, ToolCall, ToolCallView, ToolSchema,
};

verus! {

/// Retries after the first request.
pub const MAX_RETRIES: u32 = 2;

/// The protocol's version header.
pub const ANTHROPIC_VERSION: &'static str = "2023-06-01";

/// The answer's length limit, which the protocol asks for.
pub const MAX_TOKENS: u64 = 4096;

/// Seconds to wait for a connection.
pub const CONNECT_TIMEOUT_SECS: u64 = 30;

/// Where requests for the server at `base_url` go.
pub open spec fn messages_url(base_url: Seq<char>) -> Seq<char> {
    strip_right(base_url, '/') + "/v1/messages"@
}

pub fn messages_url_of(base_url: &str) -> (r: String)
    ensures
        r@ == messages_url(base_url@),
{
    let mut s: String = strip_right_string(base_url, '/');
    s.append("/v1/messages");
    s
}

// ---------- conversation to request ----------

/// A turn of the protocol's conversation: a plain text, or a list of blocks.
pub enum TurnView {
    Text { user: bool, text: Seq<char> },
    Blocks { user: bool, blocks: Seq<JsonView> },
}

pub open spec fn role_name(user: bool) -> Seq<char> {
    if user {
        "user"@
    } else {
        "assistant"@
    }
}

pub open spec fn turn_json(t: TurnView) -> JsonView {
    match t {
        TurnView::Text { user, text } => JsonView::obj().with("role"@, JsonView::Str(role_name(user))).with(
            "content"@,
            JsonView::Str(text),
        ),
        TurnView::Blocks { user, blocks } => JsonView::obj().with("role"@, JsonView::Str(role_name(user))).with(
            "content"@,
            JsonView::Arr(blocks),
        ),
    }
}

pub open spec fn text_block(text: Seq<char>) -> JsonView {
    JsonView::obj().with("type"@, JsonView::Str("text"@)).with("text"@, JsonView::Str(text))
}

/// The arguments of a call as a JSON value; an empty object where they are
/// not JSON.
pub open spec fn call_input(arguments: Seq<char>) -> JsonView {
    match json_parsed(arguments) {
        Ok(v) => v,
        Err(_) => JsonView::obj(),
    }
}

pub open spec fn tool_use_block(c: ToolCallView) -> JsonView {
    JsonView::obj().with("type"@, JsonView::Str("tool_use"@)).with("id"@, JsonView::Str(c.id)).with(
        "name"@,
        JsonView::Str(c.name),
    ).with("input"@, call_input(c.arguments))
}

pub open spec fn tool_result_block(m: Message) -> JsonView {
    JsonView::obj().with("type"@, JsonView::Str("tool_result"@)).with(
        "tool_use_id"@,
        JsonView::Str(
            match m.tool_call_id {
                Some(id) => id@,
                None => Seq::empty(),
            },
        ),
    ).with("content"@, JsonView::Str(m.content@))
}

/// The blocks of an assistant's message with tool calls: its text, where it
/// has one, and then each call.
pub open spec fn assistant_blocks(content: Seq<char>, calls: Seq<ToolCall>) -> Seq<JsonView> {
    (if content.len() > 0 {
        seq![text_block(content)]
    } else {
        Seq::empty()
    }) + Seq::new(calls.len(), |i: int| tool_use_block(calls[i]@))
}

/// Whether a tool result joins this turn.
pub open spec fn takes_results(t: TurnView) -> bool {
    t matches TurnView::Blocks { user, blocks } && user
}

/// The turns after one more message. System messages make no turn, and a tool
/// result joins the turn of the result before it.
pub open spec fn push_message(turns: Seq<TurnView>, m: Message) -> Seq<TurnView> {
    match m.role {
        Role::System => turns,
        Role::User => turns.push(TurnView::Text { user: true, text: m.content@ }),
        Role::Assistant => match m.tool_calls {
            Some(calls) => turns.push(
                TurnView::Blocks { user: false, blocks: assistant_blocks(m.content@, calls@) },
            ),
            None => turns.push(TurnView::Text { user: false, text: m.content@ }),
        },
        Role::Tool => if turns.len() > 0 && takes_results(turns.last()) {
            turns.drop_last().push(
                TurnView::Blocks {
                    user: true,
                    blocks: turns.last()->Blocks_blocks.push(tool_result_block(m)),
                },
            )
        } else {
            turns.push(TurnView::Blocks { user: true, blocks: seq![tool_result_block(m)] })
        },
    }
}

/// The turns of a conversation.
pub open spec fn turns_of(messages: Seq<Message>) -> Seq<TurnView>
    decreases messages.len(),
{
    if messages.len() == 0 {
        Seq::empty()
    } else {
        push_message(turns_of(messages.drop_last()), messages.last())
    }
}

/// The turns as the protocol writes them.
pub open spec fn turns_json(turns: Seq<TurnView>) -> Seq<JsonView> {
    Seq::new(turns.len(), |i: int| turn_json(turns[i]))
}

/// The texts of the system messages.
pub open spec fn system_texts(messages: Seq<Message>) -> Seq<Seq<char>>
    decreases messages.len(),
{
    if messages.len() == 0 {
        Seq::empty()
    } else {
        let before = system_texts(messages.drop_last());
        if messages.last().role == Role::System {
            before.push(messages.last().content@)
        } else {
            before
        }
    }
}

/// The top-level system text: the system messages, one per line.
pub open spec fn system_text(messages: Seq<Message>) -> Option<Seq<char>> {
    if system_texts(messages).len() == 0 {
        None
    } else {
        Some(join(system_texts(messages), "\n"@))
    }
}

/// A turn under construction.
enum Turn {
    Text { user: bool, text: String },
    Blocks { user: bool, blocks: Vec<Json> },
}

spec fn turn_view(t: Turn) -> TurnView {
    match t {
        Turn::Text { user, text } => TurnView::Text { user, text: text@ },
        Turn::Blocks { user, blocks } => TurnView::Blocks { user, blocks: views(blocks@) },
    }
}

spec fn turn_views(v: Seq<Turn>) -> Seq<TurnView> {
    Seq::new(v.len(), |i: int| turn_view(v[i]))
}

fn call_input_of(arguments: &str) -> (r: Json)
    ensures
        r@ == call_input(arguments@),
{
    match parse(arguments) {
        Ok(v) => v,
        Err(_) => Json::obj(),
    }
}

fn assistant_blocks_of(content: &String, calls: &Vec<ToolCall>) -> (r: Vec<Json>)
    ensures
        views(r@) == assistant_blocks(content@, calls@),
{
    let mut out: Vec<Json> = Vec::new();
    if !content.as_str().is_empty() {
        out.push(Json::obj().with("type", Json::text("text")).with("text", Json::text(content.as_str())));
    }
    let ghost first = if content@.len() > 0 {
        seq![text_block(content@)]
    } else {
        Seq::<JsonView>::empty()
    };
    assert(views(out@) =~= first);
    let mut i: usize = 0;
    while i < calls.len()
        invariant
            i <= calls.len(),
            views(out@) == first + Seq::new(i as nat, |k: int| tool_use_block(calls@[k]@)),
        decreases calls.len() - i,
    {
        let ghost before = views(out@);
        let c: &ToolCall = &calls[i];
        out.push(
            Json::obj().with("type", Json::text("tool_use")).with("id", Json::text(c.id.as_str())).with(
                "name",
                Json::text(c.name.as_str()),
            ).with("input", call_input_of(c.arguments.as_str())),
        );
        i += 1;
        assert(views(out@) =~= before.push(tool_use_block(calls@[i - 1]@)));
        assert(views(out@) =~= first + Seq::new(i as nat, |k: int| tool_use_block(calls@[k]@)));
    }
    out
}

fn turn_json_of(t: Turn) -> (r: Json)
    ensures
        r@ == turn_json(turn_view(t)),
{
    match t {
        Turn::Text { user, text } => Json::obj().with(
            "role",
            Json::text(
                if user {
                    "user"
                } else {
                    "assistant"
                },
            ),
        ).with("content", Json::Str(text)),
        Turn::Blocks { user, blocks } => Json::obj().with(
            "role",
            Json::text(
                if user {
                    "user"
                } else {
                    "assistant"
                },
            ),
        ).with("content", Json::list(blocks)),
    }
}

fn add_message(turns: &mut Vec<Turn>, m: &Message)
    ensures
        turn_views(final(turns)@) == push_message(turn_views(old(turns)@), *m),
{
    let ghost before = turn_views(turns@);
    match m.role {
        Role::System => {},
        Role::User => {
            turns.push(Turn::Text { user: true, text: m.content.clone() });
            assert(turn_views(turns@) =~= push_message(before, *m));
        },
        Role::Assistant => {
            match &m.tool_calls {
                Some(calls) => {
                    let blocks: Vec<Json> = assistant_blocks_of(&m.content, calls);
                    turns.push(Turn::Blocks { user: false, blocks });
                },
                None => {
                    turns.push(Turn::Text { user: false, text: m.content.clone() });
                },
            }
            assert(turn_views(turns@) =~= push_message(before, *m));
        },
        Role::Tool => {
            let id: &str = match &m.tool_call_id {
                Some(id) => id.as_str(),
                None => "",
            };
            proof {
                reveal_strlit("");
                assert(""@ =~= Seq::<char>::empty());
            }
            let block: Json = Json::obj().with("type", Json::text("tool_result")).with(
                "tool_use_id",
                Json::text(id),
            ).with("content", Json::text(m.content.as_str()));
            assert(block@ == tool_result_block(*m));
            match turns.pop() {
                Some(Turn::Blocks { user: true, blocks }) => {
                    let mut b = blocks;
                    b.push(block);
                    assert(views(b@) =~= views(blocks@).push(block@));
                    turns.push(Turn::Blocks { user: true, blocks: b });
                    assert(before.last() == turn_view(Turn::Blocks { user: true, blocks }));
                    assert(turn_views(turns@) =~= push_message(before, *m));
                },
                Some(other) => {
                    let mut b: Vec<Json> = Vec::new();
                    b.push(block);
                    assert(views(b@) =~= seq![block@]);
                    turns.push(other);
                    assert(before.last() == turn_view(other));
                    turns.push(Turn::Blocks { user: true, blocks: b });
                    assert(turn_views(turns@) =~= push_message(before, *m));
                },
                None => {
                    let mut b: Vec<Json> = Vec::new();
                    b.push(block);
                    assert(views(b@) =~= seq![block@]);
                    turns.push(Turn::Blocks { user: true, blocks: b });
                    assert(turn_views(turns@) =~= push_message(before, *m));
                },
            }
        },
    }
}

/// Turns a conversation into the protocol's system text and turns.
///
/// System messages leave the list and become one text; an assistant's tool
/// calls become `tool_use` blocks; tool results become `tool_result` blocks of
/// a user turn, neighbouring results in one turn.
pub fn messages_to_anthropic(messages: &Vec<Message>) -> (r: (Option<String>, Vec<Json>))
    ensures
        opt_view(r.0) == system_text(messages@),
        views(r.1@) == turns_json(turns_of(messages@)),
{
    let mut texts: Vec<String> = Vec::new();
    let mut turns: Vec<Turn> = Vec::new();
    let mut i: usize = 0;
    assert(strs(texts@) =~= system_texts(messages@.take(0)));
    assert(turn_views(turns@) =~= turns_of(messages@.take(0)));
    while i < messages.len()
        invariant
            i <= messages.len(),
            strs(texts@) == system_texts(messages@.take(i as int)),
            turn_views(turns@) == turns_of(messages@.take(i as int)),
        decreases messages.len() - i,
    {
        let ghost old_texts = strs(texts@);
        assert(messages@.take(i as int + 1).drop_last() =~= messages@.take(i as int));
        if messages[i].role == Role::System {
            texts.push(messages[i].content.clone());
            assert(strs(texts@) =~= old_texts.push(messages@[i as int].content@));
        }
        add_message(&mut turns, &messages[i]);
        i += 1;
    }
    assert(messages@.take(i as int) =~= messages@);
    let system: Option<String> = if texts.len() == 0 {
        None
    } else {
        Some(join_strings(&texts, "\n"))
    };
    let mut out: Vec<Json> = Vec::new();
    let ghost all = turn_views(turns@);
    let mut rest: Vec<Turn> = Vec::new();
    // Reverse, then move the turns out one by one.
    while turns.len() > 0
        invariant
            turns@.len() + rest@.len() == all.len(),
            forall|k: int| 0 <= k < turns@.len() ==> turn_view(#[trigger] turns@[k]) == all[k],
            forall|k: int|
                0 <= k < rest@.len() ==> turn_view(#[trigger] rest@[k]) == all[all.len() - 1 - k],
        decreases turns.len(),
    {
        let n: usize = turns.len();
        match turns.pop() {
            Some(t) => {
                assert(turn_view(t) == all[n - 1]);
                rest.push(t);
            },
            None => {},
        }
    }
    while rest.len() > 0
        invariant
            out@.len() + rest@.len() == all.len(),
            forall|k: int| 0 <= k < out@.len() ==> (#[trigger] out@[k])@ == turn_json(all[k]),
            forall|k: int|
                0 <= k < rest@.len() ==> turn_view(#[trigger] rest@[k]) == all[all.len() - 1 - k],
        decreases rest.len(),
    {
        match rest.pop() {
            Some(t) => {
                out.push(turn_json_of(t));
            },
            None => {},
        }
    }
    assert(views(out@) =~= turns_json(turns_of(messages@)));
    (system, out)
}

/// Two neighbouring turns are never both tool results: results that follow
/// each other share one turn.
pub proof fn law_tool_results_share_a_turn(messages: Seq<Message>, k: int)
    requires
        0 <= k,
        k + 1 < turns_of(messages).len(),
    ensures
        !(takes_results(turns_of(messages)[k]) && takes_results(turns_of(messages)[k + 1])),
    decreases messages.len(),
{
    if messages.len() > 0 {
        let before = turns_of(messages.drop_last());
        let now = turns_of(messages);
        if k + 1 < before.len() {
            law_tool_results_share_a_turn(messages.drop_last(), k);
        }
        if messages.last().role == Role::Tool && before.len() > 0 && takes_results(before.last()) {
            assert(forall|j: int| 0 <= j < now.len() ==> takes_results(now[j]) == takes_results(before[j]));
        }
    }
}

/// The system field: one text block, marked as the end of the cached prefix.
pub open spec fn system_field(text: Seq<char>) -> JsonView {
    JsonView::arr().item(
        JsonView::obj().with("type"@, JsonView::Str("text"@)).with("text"@, JsonView::Str(text)).with(
            "cache_control"@,
            JsonView::obj().with("type"@, JsonView::Str("ephemeral"@)),
        ),
    )
}

pub open spec fn tool_json(t: ToolSchema) -> JsonView {
    JsonView::obj().with("name"@, JsonView::Str(t.name@)).with("description"@, JsonView::Str(t.description@)).with(
        "input_schema"@,
        t.parameters@,
    )
}

/// The request for a conversation. Without system messages it has no system
/// field, without tools no tools field.
pub open spec fn request_body(model: Seq<char>, messages: Seq<Message>, tools: Seq<ToolSchema>) -> JsonView {
    let base = JsonView::obj().with("model"@, JsonView::Str(model)).with(
        "messages"@,
        JsonView::Arr(turns_json(turns_of(messages))),
    ).with("max_tokens"@, JsonView::Uint(MAX_TOKENS)).with("stream"@, JsonView::Bool(true));
    let with_system = match system_text(messages) {
        Some(t) => base.with("system"@, system_field(t)),
        None => base,
    };
    if tools.len() == 0 {
        with_system
    } else {
        with_system.with("tools"@, JsonView::Arr(Seq::new(tools.len(), |i: int| tool_json(tools[i]))))
    }
}

/// Builds the request for a conversation.
pub fn build_request_body(model: &str, messages: &Vec<Message>, tools: &Vec<ToolSchema>) -> (r: Json)
    ensures
        r@ == request_body(model@, messages@, tools@),
{
    let (system, msgs) = messages_to_anthropic(messages);
    let mut body: Json = Json::obj().with("model", Json::text(model)).with("messages", Json::list(msgs)).with(
        "max_tokens",
        Json::Uint(MAX_TOKENS),
    ).with("stream", Json::Bool(true));
    if let Some(text) = system {
        let field: Json = Json::arr().item(
            Json::obj().with("type", Json::text("text")).with("text", Json::Str(text)).with(
                "cache_control",
                Json::obj().with("type", Json::text("ephemeral")),
            ),
        );
        body = body.with("system", field);
    }
    if tools.len() != 0 {
        let mut arr: Vec<Json> = Vec::new();
        let mut i: usize = 0;
        while i < tools.len()
            invariant
                i <= tools.len(),
                views(arr@) == Seq::new(i as nat, |k: int| tool_json(tools@[k])),
            decreases tools.len() - i,
        {
            let ghost before = views(arr@);
            let t: &ToolSchema = &tools[i];
            arr.push(
                Json::obj().with("name", Json::text(t.name.as_str())).with(
                    "description",
                    Json::text(t.description.as_str()),
                ).with("input_schema", t.parameters.dup()),
            );
            i += 1;
            assert(views(arr@) =~= before.push(tool_json(tools@[i - 1])));
            assert(views(arr@) =~= Seq::new(i as nat, |k: int| tool_json(tools@[k])));
        }
        assert(views(arr@) =~= Seq::new(tools@.len(), |i: int| tool_json(tools@[i])));
        body = body.with("tools", Json::list(arr));
    }
    body
}

// ---------- event payload to chunks ----------

/// The number, or zero.
pub open spec fn or_zero(n: Option<u64>) -> u64 {
    match n {
        Some(x) => x,
        None => 0,
    }
}

/// The text, or the empty one.
pub open spec fn or_empty(s: Option<Seq<char>>) -> Seq<char> {
    match s {
        Some(x) => x,
        None => Seq::empty(),
    }
}

/// The unsigned member `b` of the member `a`.
pub open spec fn get2_u64(v: JsonView, a: Seq<char>, b: Seq<char>) -> Option<u64> {
    match v.get(a) {
        Some(x) => x.get_u64(b),
        None => None,
    }
}

/// The usage member `b` of the message that an event carries.
pub open spec fn message_usage(v: JsonView, b: Seq<char>) -> u64 {
    match v.get("message"@) {
        Some(m) => or_zero(get2_u64(m, "usage"@, b)),
        None => 0,
    }
}

/// The chunks that one event's payload stands for.
pub open spec fn payload_chunks(v: JsonView) -> Seq<ChunkView> {
    let kind = or_empty(v.get_str("type"@));
    let index = or_zero(v.get_u64("index"@)) as usize;
    if kind == "content_block_start"@ {
        if v.get2_str("content_block"@, "type"@) == Some("tool_use"@) {
            seq![
                ChunkView::ToolCallDelta {
                    index,
                    id: v.get2_str("content_block"@, "id"@),
                    name: v.get2_str("content_block"@, "name"@),
                    arguments_delta: Seq::empty(),
                },
            ]
        } else {
            Seq::empty()
        }
    } else if kind == "content_block_delta"@ {
        let delta = or_empty(v.get2_str("delta"@, "type"@));
        if delta == "text_delta"@ {
            let text = or_empty(v.get2_str("delta"@, "text"@));
            if text.len() > 0 {
                seq![ChunkView::Delta(text)]
            } else {
                Seq::empty()
            }
        } else if delta == "input_json_delta"@ {
            seq![
                ChunkView::ToolCallDelta {
                    index,
                    id: None,
                    name: None,
                    arguments_delta: or_empty(v.get2_str("delta"@, "partial_json"@)),
                },
            ]
        } else {
            Seq::empty()
        }
    } else if kind == "message_start"@ {
        let input = message_usage(v, "input_tokens"@);
        let cached = message_usage(v, "cache_read_input_tokens"@);
        if input > 0 || cached > 0 {
            seq![ChunkView::Usage { input_tokens: input, output_tokens: 0, cached_tokens: cached }]
        } else {
            Seq::empty()
        }
    } else if kind == "message_delta"@ {
        let output = or_zero(get2_u64(v, "usage"@, "output_tokens"@));
        if output > 0 {
            seq![ChunkView::Usage { input_tokens: 0, output_tokens: output, cached_tokens: 0 }]
        } else {
            Seq::empty()
        }
    } else if kind == "message_stop"@ {
        seq![ChunkView::Done]
    } else {
        Seq::empty()
    }
}

fn unwrap_zero(n: Option<u64>) -> (r: u64)
    ensures
        r == or_zero(n),
{
    match n {
        Some(x) => x,
        None => 0,
    }
}

fn unwrap_empty<'a>(s: Option<&'a str>) -> (r: &'a str)
    ensures
        r@ == or_empty(match s {
            Some(x) => Some(x@),
            None => None,
        }),
{
    match s {
        Some(x) => x,
        None => {
            proof {
                reveal_strlit("");
                assert(""@ =~= Seq::<char>::empty());
            }
            ""
        },
    }
}

fn to_owned_opt(s: Option<&str>) -> (r: Option<String>)
    ensures
        opt_view(r) == (match s {
            Some(x) => Some(x@),
            None => None,
        }),
{
    match s {
        Some(x) => Some(x.to_string()),
        None => None,
    }
}

fn get2_u64_of(v: &Json, a: &str, b: &str) -> (r: Option<u64>)
    ensures
        r == get2_u64(v@, a@, b@),
{
    match v.get(a) {
        Some(x) => x.get_u64(b),
        None => None,
    }
}

fn message_usage_of(v: &Json, b: &str) -> (r: u64)
    ensures
        r == message_usage(v@, b@),
{
    match v.get("message") {
        Some(m) => unwrap_zero(get2_u64_of(m, "usage", b)),
        None => 0,
    }
}

/// Reads the chunks out of one event's payload.
pub fn chunks_of(v: &Json) -> (r: Vec<StreamChunk>)
    ensures
        chunk_views(r@) == payload_chunks(v@),
{
    let mut out: Vec<StreamChunk> = Vec::new();
    let kind: &str = unwrap_empty(v.get_str("type"));
    let index: usize = unwrap_zero(v.get_u64("index")) as usize;
    if str_eq(kind, "content_block_start") {
        if str_eq(unwrap_empty(v.get2_str("content_block", "type")), "tool_use") {
            proof {
                reveal_strlit("tool_use");
            }
            out.push(
                StreamChunk::ToolCallDelta {
                    index,
                    id: to_owned_opt(v.get2_str("content_block", "id")),
                    name: to_owned_opt(v.get2_str("content_block", "name")),
                    arguments_delta: String::new(),
                },
            );
            assert(chunk_views(out@) =~= payload_chunks(v@));
        }
        assert(chunk_views(out@) =~= payload_chunks(v@));
    } else if str_eq(kind, "content_block_delta") {
        let delta: &str = unwrap_empty(v.get2_str("delta", "type"));
        if str_eq(delta, "text_delta") {
            let text: &str = unwrap_empty(v.get2_str("delta", "text"));
            if !text.is_empty() {
                out.push(StreamChunk::Delta(text.to_string()));
            }
            assert(chunk_views(out@) =~= payload_chunks(v@));
        } else if str_eq(delta, "input_json_delta") {
            let partial: &str = unwrap_empty(v.get2_str("delta", "partial_json"));
            out.push(
                StreamChunk::ToolCallDelta { index, id: None, name: None, arguments_delta: partial.to_string() },
            );
            assert(chunk_views(out@) =~= payload_chunks(v@));
        }
    } else if str_eq(kind, "message_start") {
        let input_tokens: u64 = message_usage_of(v, "input_tokens");
        let cached_tokens: u64 = message_usage_of(v, "cache_read_input_tokens");
        if input_tokens > 0 || cached_tokens > 0 {
            out.push(StreamChunk::Usage { input_tokens, output_tokens: 0, cached_tokens });
        }
        assert(chunk_views(out@) =~= payload_chunks(v@));
    } else if str_eq(kind, "message_delta") {
        let output_tokens: u64 = unwrap_zero(get2_u64_of(v, "usage", "output_tokens"));
        if output_tokens > 0 {
            out.push(StreamChunk::Usage { input_tokens: 0, output_tokens, cached_tokens: 0 });
        }
    } else if str_eq(kind, "message_stop") {
        out.push(StreamChunk::Done);
    }
    assert(chunk_views(out@) =~= payload_chunks(v@));
    out
}

/// Parses one event's payload. A payload that is not JSON gives the parser's
/// message.
pub fn parse_data_payload(payload: &str) -> (r: Result<Vec<StreamChunk>, String>)
    ensures
        match r {
            Ok(chunks) => json_parsed(payload@) is Ok && chunk_views(chunks@) == payload_chunks(
                json_parsed(payload@)->Ok_0,
            ),
            Err(e) => json_parsed(payload@) == Err::<JsonView, Seq<char>>(e@),
        },
{
    match parse(payload) {
        Ok(v) => Ok(chunks_of(&v)),
        Err(e) => Err(e),
    }
}

// ---------- server-sent events ----------

/// What one step of the stream gives: a chunk, or a message of failure.
pub type ChunkResult = Result<ChunkView, Seq<char>>;

pub open spec fn result_view(r: Result<StreamChunk, String>) -> ChunkResult {
    match r {
        Ok(c) => Ok(c@),
        Err(e) => Err(e@),
    }
}

pub open spec fn result_views(v: Seq<Result<StreamChunk, String>>) -> Seq<ChunkResult> {
    Seq::new(v.len(), |i: int| result_view(v[i]))
}

/// What one payload gives: its chunks, or one failure.
pub open spec fn payload_results(payload: Seq<char>) -> Seq<ChunkResult> {
    match json_parsed(payload) {
        Ok(v) => Seq::new(payload_chunks(v).len(), |i: int| Ok(payload_chunks(v)[i])),
        Err(e) => seq![Err(e)],
    }
}

/// What one line gives: only `data:` lines that hold something count.
pub open spec fn line_results(line: Seq<char>) -> Seq<ChunkResult> {
    match after_prefix(line, "data:"@) {
        Some(p) => if trim_start(p).len() > 0 {
            payload_results(trim_start(p))
        } else {
            Seq::empty()
        },
        None => Seq::empty(),
    }
}

/// What the lines of one event give, in order.
pub open spec fn event_results(ls: Seq<Seq<char>>) -> Seq<ChunkResult>
    decreases ls.len(),
{
    if ls.len() == 0 {
        Seq::empty()
    } else {
        event_results(ls.drop_last()) + line_results(ls.last())
    }
}

/// An event ends at this position: two line feeds stand there.
pub open spec fn sep_at(buf: Seq<u8>, i: int) -> bool {
    0 <= i && i + 1 < buf.len() && buf[i] == 10 && buf[i + 1] == 10
}

/// The first position from `from` on at which an event ends.
pub open spec fn event_sep_from(buf: Seq<u8>, from: int) -> Option<int>
    decreases buf.len() - from,
{
    if from + 1 >= buf.len() {
        None
    } else if sep_at(buf, from) {
        Some(from)
    } else {
        event_sep_from(buf, from + 1)
    }
}

/// The first position at which an event ends.
pub open spec fn event_sep(buf: Seq<u8>) -> Option<int> {
    event_sep_from(buf, 0)
}

proof fn lemma_event_sep(buf: Seq<u8>, from: int)
    requires
        0 <= from,
    ensures
        match event_sep_from(buf, from) {
            Some(i) => from <= i && sep_at(buf, i) && forall|j: int| from <= j < i ==> !sep_at(buf, j),
            None => forall|j: int| from <= j ==> !sep_at(buf, j),
        },
    decreases buf.len() - from,
{
    if from + 1 >= buf.len() || sep_at(buf, from) {
    } else {
        lemma_event_sep(buf, from + 1);
    }
}

/// Finds the first place in the bytes where an event ends.
pub fn find_event_sep(buf: &[u8]) -> (r: Option<usize>)
    ensures
        match r {
            Some(i) => event_sep(buf@) == Some(i as int),
            None => event_sep(buf@) is None,
        },
{
    if buf.len() < 2 {
        return None;
    }
    let last: usize = buf.len() - 1;
    let mut i: usize = 0;
    while i < last
        invariant
            i <= last,
            last == buf.len() - 1,
            event_sep(buf@) == event_sep_from(buf@, i as int),
        decreases last - i,
    {
        if buf[i] == 10 && buf[i + 1] == 10 {
            return Some(i);
        }
        i += 1;
    }
    None
}

/// What the complete events in the bytes give.
pub open spec fn fed_results(buf: Seq<u8>) -> Seq<ChunkResult>
    decreases buf.len(),
{
    match event_sep(buf) {
        Some(p) => if 0 <= p && p + 2 <= buf.len() {
            event_results(lines(lossy(buf.take(p)))) + fed_results(buf.skip(p + 2))
        } else {
            Seq::empty()
        },
        None => Seq::empty(),
    }
}

/// The bytes after the last complete event.
pub open spec fn fed_rest(buf: Seq<u8>) -> Seq<u8>
    decreases buf.len(),
{
    match event_sep(buf) {
        Some(p) => if 0 <= p && p + 2 <= buf.len() {
            fed_rest(buf.skip(p + 2))
        } else {
            buf
        },
        None => buf,
    }
}

/// What the bytes left at the end of the stream give.
pub open spec fn finish_results(buf: Seq<u8>) -> Seq<ChunkResult> {
    event_results(lines(trim(lossy(buf))))
}

/// An incremental parser of server-sent events. It keeps bytes, so that a
/// character cut in two by the network is put together again.
pub struct SseParser {
    buffer: Vec<u8>,
}

impl SseParser {
    /// The bytes of the event that is not complete yet.
    pub closed spec fn pending(&self) -> Seq<u8> {
        self.buffer@
    }

    pub fn new() -> (r: SseParser)
        ensures
            r.pending() == Seq::<u8>::empty(),
    {
        SseParser { buffer: Vec::new() }
    }

    /// Handles the text of one complete event.
    pub fn handle_event(&mut self, event: &str, out: &mut Vec<Result<StreamChunk, String>>)
        ensures
            final(self).pending() == old(self).pending(),
            result_views(final(out)@) == result_views(old(out)@) + event_results(lines(event@)),
    {
        event_into(event, out);
    }

    /// Takes bytes from the network and gives what they complete.
    pub fn feed(&mut self, bytes: &[u8]) -> (r: Vec<Result<StreamChunk, String>>)
        ensures
            result_views(r@) == fed_results(old(self).pending() + bytes@),
            final(self).pending() == fed_rest(old(self).pending() + bytes@),
    {
        let mut buf: Vec<u8> = Vec::new();
        let ghost start = self.buffer@;
        buf.append(&mut self.buffer);
        let ghost empty_buf = Seq::<u8>::empty();
        assert(empty_buf + start =~= start);
        push_bytes(&mut buf, bytes);
        let ghost all = start + bytes@;
        assert(buf@ =~= all);
        let mut out: Vec<Result<StreamChunk, String>> = Vec::new();
        let mut pos: usize = 0;
        proof {
            assert(all.skip(0) =~= all);
            assert(result_views(out@) + fed_results(all) =~= fed_results(all));
        }
        let mut done: bool = false;
        while !done
            invariant
                pos <= buf.len(),
                buf@ == all,
                result_views(out@) + fed_results(all.skip(pos as int)) == fed_results(all),
                fed_rest(all.skip(pos as int)) == fed_rest(all),
                done ==> event_sep(all.skip(pos as int)) is None,
            decreases
                buf.len() - pos,
                if done {
                    0int
                } else {
                    1int
                },
        {
            let tail: &[u8] = slice_subrange(buf.as_slice(), pos, buf.len());
            let ghost rest = all.skip(pos as int);
            assert(tail@ =~= rest);
            match find_event_sep(tail) {
                Some(p) => {
                    proof {
                        lemma_event_sep(rest, 0);
                    }
                    let event: String = text_of_bytes(slice_subrange(tail, 0, p));
                    assert(tail@.subrange(0, p as int) =~= rest.take(p as int));
                    let ghost before = result_views(out@);
                    event_into(event.as_str(), &mut out);
                    proof {
                        assert(rest.skip(p as int + 2) =~= all.skip(pos as int + p as int + 2));
                        let this = event_results(lines(lossy(rest.take(p as int))));
                        let next = fed_results(all.skip(pos as int + p as int + 2));
                        assert(before + (this + next) =~= (before + this) + next);
                    }
                    pos = pos + p + 2;
                },
                None => {
                    done = true;
                },
            }
        }
        proof {
            assert(fed_results(all.skip(pos as int)) =~= Seq::<ChunkResult>::empty());
            assert(result_views(out@) + Seq::<ChunkResult>::empty() =~= result_views(out@));
            assert(all.subrange(pos as int, all.len() as int) =~= all.skip(pos as int));
        }
        let mut kept: Vec<u8> = Vec::new();
        push_bytes(&mut kept, slice_subrange(buf.as_slice(), pos, buf.len()));
        assert(kept@ =~= all.skip(pos as int));
        self.buffer = kept;
        out
    }

    /// Takes the end of the stream: what is left counts as an event.
    pub fn finish(&mut self) -> (r: Vec<Result<StreamChunk, String>>)
        ensures
            result_views(r@) == finish_results(old(self).pending()),
            final(self).pending() == Seq::<u8>::empty(),
    {
        let mut out: Vec<Result<StreamChunk, String>> = Vec::new();
        let rest: String = text_of_bytes(self.buffer.as_slice());
        self.buffer.clear();
        let trimmed: String = trim_string(rest.as_str());
        if !trimmed.as_str().is_empty() {
            event_into(trimmed.as_str(), &mut out);
            assert(result_views(out@) =~= finish_results(old(self).pending()));
        } else {
            assert(lines(trimmed@) =~= Seq::<Seq<char>>::empty());
            assert(result_views(out@) =~= finish_results(old(self).pending()));
        }
        out
    }
}

fn push_bytes(v: &mut Vec<u8>, bytes: &[u8])
    ensures
        final(v)@ == old(v)@ + bytes@,
{
    let ghost start = v@;
    let mut i: usize = 0;
    assert(start + bytes@.take(0) =~= start);
    while i < bytes.len()
        invariant
            i <= bytes.len(),
            v@ == start + bytes@.take(i as int),
        decreases bytes.len() - i,
    {
        v.push(bytes[i]);
        i += 1;
        assert(v@ =~= start + bytes@.take(i as int));
    }
    assert(bytes@.take(i as int) =~= bytes@);
}

fn event_into(event: &str, out: &mut Vec<Result<StreamChunk, String>>)
    ensures
        result_views(final(out)@) == result_views(old(out)@) + event_results(lines(event@)),
{
    let ls: Vec<String> = lines_of(event);
    let ghost start = result_views(out@);
    let ghost all = lines(event@);
    let mut i: usize = 0;
    proof {
        assert(all.take(0) =~= Seq::<Seq<char>>::empty());
        assert(start + Seq::<ChunkResult>::empty() =~= start);
    }
    while i < ls.len()
        invariant
            i <= ls.len(),
            strs(ls@) == all,
            result_views(out@) == start + event_results(all.take(i as int)),
        decreases ls.len() - i,
    {
        let ghost before = result_views(out@);
        proof {
            assert(all.take(i as int + 1).drop_last() =~= all.take(i as int));
            assert(all.take(i as int + 1).last() == ls@[i as int]@);
        }
        line_into(ls[i].as_str(), out);
        proof {
            let x = event_results(all.take(i as int));
            let y = line_results(ls@[i as int]@);
            assert(start + (x + y) =~= (start + x) + y);
        }
        i += 1;
    }
    assert(all.take(i as int) =~= all);
}

fn line_into(line: &str, out: &mut Vec<Result<StreamChunk, String>>)
    ensures
        result_views(final(out)@) == result_views(old(out)@) + line_results(line@),
{
    let ghost start = result_views(out@);
    match strip_prefix(line, "data:") {
        Some(p) => {
            let payload: String = trim_start_string(p.as_str());
            if !payload.as_str().is_empty() {
                match parse_data_payload(payload.as_str()) {
                    Ok(chunks) => {
                        let ghost want = payload_results(payload@);
                        let ghost all = chunks@;
                        assert(start + want.take(0) =~= start);
                        for c in it: chunks
                            invariant
                                it.seq() == all,
                                want.len() == all.len(),
                                forall|k: int|
                                    0 <= k < all.len() ==> want[k] == Ok::<ChunkView, Seq<char>>(
                                        (#[trigger] all[k])@,
                                    ),
                                result_views(out@) == start + want.take(it.index() as int),
                        {
                            let ghost before = result_views(out@);
                            out.push(Ok(c));
                            proof {
                                let k = it.index() as int;
                                assert(result_views(out@) =~= before.push(want[k]));
                                assert(result_views(out@) =~= start + want.take(k + 1));
                            }
                        }
                        assert(want.take(all.len() as int) =~= want);
                    },
                    Err(e) => {
                        out.push(Err(e));
                        assert(result_views(out@) =~= start + seq![Err::<ChunkView, Seq<char>>(e@)]);
                    },
                }
            } else {
                assert(result_views(out@) =~= start + Seq::<ChunkResult>::empty());
            }
        },
        None => {
            assert(result_views(out@) =~= start + Seq::<ChunkResult>::empty());
        },
    }
}

proof fn lemma_sep_extends(x: Seq<u8>, y: Seq<u8>)
    requires
        event_sep(x) is Some,
    ensures
        event_sep(x + y) == event_sep(x),
{
    lemma_event_sep(x, 0);
    lemma_event_sep(x + y, 0);
    let i = event_sep(x)->Some_0;
    let a = x + y;
    assert(sep_at(a, i));
    assert forall|j: int| 0 <= j < i implies !sep_at(a, j) by {
        assert(!sep_at(x, j));
        assert(a[j] == x[j] && a[j + 1] == x[j + 1]);
    }
    match event_sep(a) {
        Some(k) => {
            assert(k <= i);
            assert(k == i);
        },
        None => {},
    }
}

/// Where the network cuts the stream makes no difference: two pieces give what
/// the bytes give in one piece, and leave the same bytes over.
pub proof fn law_feed_in_pieces(x: Seq<u8>, y: Seq<u8>)
    ensures
        fed_results(x) + fed_results(fed_rest(x) + y) == fed_results(x + y),
        fed_rest(fed_rest(x) + y) == fed_rest(x + y),
    decreases x.len(),
{
    lemma_event_sep(x, 0);
    match event_sep(x) {
        Some(p) => {
            lemma_sep_extends(x, y);
            law_feed_in_pieces(x.skip(p + 2), y);
            let a = x + y;
            assert(a.take(p) =~= x.take(p));
            assert(a.skip(p + 2) =~= x.skip(p + 2) + y);
            let this = event_results(lines(lossy(x.take(p))));
            let more = fed_results(x.skip(p + 2));
            let end = fed_results(fed_rest(x) + y);
            assert((this + more) + end =~= this + (more + end));
        },
        None => {
            assert(Seq::<ChunkResult>::empty() + fed_results(x + y) =~= fed_results(x + y));
        },
    }
}

/// What is left over holds no complete event.
pub proof fn law_rest_is_incomplete(x: Seq<u8>)
    ensures
        event_sep(fed_rest(x)) is None,
    decreases x.len(),
{
    lemma_event_sep(x, 0);
    match event_sep(x) {
        Some(p) => {
            law_rest_is_incomplete(x.skip(p + 2));
        },
        None => {},
    }
}

// ---------- chunks to answer ----------

/// The text of an answer.
pub open spec fn answer_text(chunks: Seq<ChunkView>) -> Seq<char>
    decreases chunks.len(),
{
    if chunks.len() == 0 {
        Seq::empty()
    } else {
        let before = answer_text(chunks.drop_last());
        match chunks.last() {
            ChunkView::Delta(s) => before + s,
            _ => before,
        }
    }
}

/// The chunk belongs to the tool call with this index.
pub open spec fn for_call(c: ChunkView, i: usize) -> bool {
    c matches ChunkView::ToolCallDelta { index, id, name, arguments_delta } && index == i
}

/// The first id given for a call.
pub open spec fn first_id(chunks: Seq<ChunkView>, i: usize) -> Option<Seq<char>>
    decreases chunks.len(),
{
    if chunks.len() == 0 {
        None
    } else {
        match first_id(chunks.drop_last(), i) {
            Some(s) => Some(s),
            None => if for_call(chunks.last(), i) {
                chunks.last()->ToolCallDelta_id
            } else {
                None
            },
        }
    }
}

/// The first name given for a call.
pub open spec fn first_name(chunks: Seq<ChunkView>, i: usize) -> Option<Seq<char>>
    decreases chunks.len(),
{
    if chunks.len() == 0 {
        None
    } else {
        match first_name(chunks.drop_last(), i) {
            Some(s) => Some(s),
            None => if for_call(chunks.last(), i) {
                chunks.last()->ToolCallDelta_name
            } else {
                None
            },
        }
    }
}

/// The arguments of a call, put together.
pub open spec fn all_arguments(chunks: Seq<ChunkView>, i: usize) -> Seq<char>
    decreases chunks.len(),
{
    if chunks.len() == 0 {
        Seq::empty()
    } else {
        let before = all_arguments(chunks.drop_last(), i);
        if for_call(chunks.last(), i) {
            before + chunks.last()->arguments_delta
        } else {
            before
        }
    }
}

/// How many of the ascending numbers are below `x`.
pub open spec fn rank(s: Seq<usize>, x: usize) -> int
    decreases s.len(),
{
    if s.len() == 0 || s[0] >= x {
        0
    } else {
        1 + rank(s.drop_first(), x)
    }
}

pub open spec fn ascending(s: Seq<usize>) -> bool {
    forall|i: int, j: int| 0 <= i < j < s.len() ==> s[i] < s[j]
}

/// The ascending numbers with `x` among them.
pub open spec fn insert_index(s: Seq<usize>, x: usize) -> Seq<usize> {
    if s.contains(x) {
        s
    } else {
        s.insert(rank(s, x), x)
    }
}

/// The indexes of the calls in an answer, ascending.
pub open spec fn call_indexes(chunks: Seq<ChunkView>) -> Seq<usize>
    decreases chunks.len(),
{
    if chunks.len() == 0 {
        Seq::empty()
    } else {
        let before = call_indexes(chunks.drop_last());
        match chunks.last() {
            ChunkView::ToolCallDelta { index, id, name, arguments_delta } => insert_index(before, index),
            _ => before,
        }
    }
}

/// The call with this index.
pub open spec fn call_at(chunks: Seq<ChunkView>, i: usize) -> ToolCallView {
    ToolCallView {
        id: or_empty(first_id(chunks, i)),
        name: or_empty(first_name(chunks, i)),
        arguments: all_arguments(chunks, i),
    }
}

/// The calls of an answer, by their indexes.
pub open spec fn answer_calls(chunks: Seq<ChunkView>) -> Seq<ToolCallView> {
    Seq::new(call_indexes(chunks).len(), |k: int| call_at(chunks, call_indexes(chunks)[k]))
}

proof fn lemma_rank(s: Seq<usize>, x: usize)
    requires
        ascending(s),
    ensures
        0 <= rank(s, x) <= s.len(),
        forall|j: int| 0 <= j < rank(s, x) ==> s[j] < x,
        forall|j: int| rank(s, x) <= j < s.len() ==> s[j] >= x,
        s.contains(x) == (rank(s, x) < s.len() && s[rank(s, x)] == x),
    decreases s.len(),
{
    if s.len() == 0 || s[0] >= x {
        if s.contains(x) {
            let j = s.index_of(x);
            assert(s[j] == x);
        }
    } else {
        let t = s.drop_first();
        assert(ascending(t));
        lemma_rank(t, x);
        let p = rank(s, x);
        assert forall|j: int| 0 <= j < p implies s[j] < x by {
            if j > 0 {
                assert(t[j - 1] < x);
            }
        }
        assert forall|j: int| p <= j < s.len() implies s[j] >= x by {
            assert(t[j - 1] >= x);
        }
        if s.contains(x) {
            let j = s.index_of(x);
            assert(s[j] == x);
            assert(t[j - 1] == x);
            assert(t.contains(x));
        }
        if t.contains(x) {
            let j = t.index_of(x);
            assert(s[j + 1] == x);
        }
        if p < s.len() && s[p] == x {
            assert(s.contains(x));
        }
    }
}

proof fn lemma_insert_index(s: Seq<usize>, x: usize)
    requires
        ascending(s),
    ensures
        ascending(insert_index(s, x)),
        forall|y: usize| insert_index(s, x).contains(y) <==> (s.contains(y) || y == x),
{
    lemma_rank(s, x);
    let r = insert_index(s, x);
    if !s.contains(x) {
        let p = rank(s, x);
        assert(r[p] == x);
        assert forall|y: usize| r.contains(y) <==> (s.contains(y) || y == x) by {
            if r.contains(y) {
                let j = r.index_of(y);
                assert(r[j] == y);
                if j < p {
                    assert(s[j] == y);
                } else if j > p {
                    assert(s[j - 1] == y);
                }
            }
            if s.contains(y) {
                let j = s.index_of(y);
                assert(s[j] == y);
                if j < p {
                    assert(r[j] == y);
                } else {
                    assert(r[j + 1] == y);
                }
            }
            if y == x {
                assert(r.contains(y));
            }
        }
    }
}

/// The calls of an answer come in ascending order of their indexes, and an
/// index has a call exactly where some chunk names it.
pub proof fn law_calls_by_index(chunks: Seq<ChunkView>)
    ensures
        ascending(call_indexes(chunks)),
        forall|i: usize|
            call_indexes(chunks).contains(i) <==> exists|k: int|
                0 <= k < chunks.len() && for_call(#[trigger] chunks[k], i),
    decreases chunks.len(),
{
    if chunks.len() > 0 {
        let prev = chunks.drop_last();
        law_calls_by_index(prev);
        let before = call_indexes(prev);
        let now = call_indexes(chunks);
        match chunks.last() {
            ChunkView::ToolCallDelta { index, id, name, arguments_delta } => {
                lemma_insert_index(before, index);
            },
            _ => {},
        }
        assert forall|i: usize|
            now.contains(i) <==> exists|k: int| 0 <= k < chunks.len() && for_call(#[trigger] chunks[k], i) by {
            if now.contains(i) {
                if before.contains(i) {
                    let k = choose|k: int| 0 <= k < prev.len() && for_call(#[trigger] prev[k], i);
                    assert(for_call(chunks[k], i));
                } else {
                    assert(for_call(chunks[chunks.len() - 1], i));
                }
            }
            if exists|k: int| 0 <= k < chunks.len() && for_call(#[trigger] chunks[k], i) {
                let k = choose|k: int| 0 <= k < chunks.len() && for_call(#[trigger] chunks[k], i);
                if k < prev.len() {
                    assert(for_call(prev[k], i));
                    assert(before.contains(i));
                }
            }
        }
    }
}

proof fn lemma_absent_call(chunks: Seq<ChunkView>, i: usize)
    requires
        !call_indexes(chunks).contains(i),
    ensures
        first_id(chunks, i) is None,
        first_name(chunks, i) is None,
        all_arguments(chunks, i) == Seq::<char>::empty(),
    decreases chunks.len(),
{
    if chunks.len() > 0 {
        let prev = chunks.drop_last();
        law_calls_by_index(chunks);
        law_calls_by_index(prev);
        if call_indexes(prev).contains(i) {
            let k = choose|k: int| 0 <= k < prev.len() && for_call(#[trigger] prev[k], i);
            assert(for_call(chunks[k], i));
        }
        if for_call(chunks.last(), i) {
            assert(for_call(chunks[chunks.len() - 1], i));
        }
        lemma_absent_call(prev, i);
    }
}

/// A call under construction.
struct Partial {
    index: usize,
    id: Option<String>,
    name: Option<String>,
    arguments: String,
}

spec fn partial_indexes(v: Seq<Partial>) -> Seq<usize> {
    Seq::new(v.len(), |i: int| v[i].index)
}

spec fn partial_ok(p: Partial, chunks: Seq<ChunkView>) -> bool {
    &&& opt_view(p.id) == first_id(chunks, p.index)
    &&& opt_view(p.name) == first_name(chunks, p.index)
    &&& p.arguments@ == all_arguments(chunks, p.index)
}

spec fn partials_ok(v: Seq<Partial>, chunks: Seq<ChunkView>) -> bool {
    &&& partial_indexes(v) == call_indexes(chunks)
    &&& forall|k: int| 0 <= k < v.len() ==> partial_ok(#[trigger] v[k], chunks)
}

fn clone_opt_of(s: &Option<String>) -> (r: Option<String>)
    ensures
        r == *s,
{
    crate::text::clone_opt(s)
}

/// Puts one more chunk into the calls under construction.
fn add_call_chunk(
    calls: &mut Vec<Partial>,
    index: usize,
    id: &Option<String>,
    name: &Option<String>,
    arguments_delta: &String,
    Ghost(chunks): Ghost<Seq<ChunkView>>,
)
    requires
        chunks.len() > 0,
        partials_ok(old(calls)@, chunks.drop_last()),
        chunks.last() == (ChunkView::ToolCallDelta {
            index,
            id: opt_view(*id),
            name: opt_view(*name),
            arguments_delta: arguments_delta@,
        }),
    ensures
        partials_ok(final(calls)@, chunks),
{
    let ghost prev = chunks.drop_last();
    let ghost old_calls = calls@;
    let ghost idx = partial_indexes(calls@);
    proof {
        law_calls_by_index(prev);
        lemma_rank(idx, index);
    }
    let mut p: usize = 0;
    assert(idx.skip(0) =~= idx);
    while p < calls.len() && calls[p].index < index
        invariant
            p <= calls.len(),
            calls@ == old_calls,
            idx == partial_indexes(old_calls),
            rank(idx, index) == p + rank(idx.skip(p as int), index),
        decreases calls.len() - p,
    {
        assert(idx.skip(p as int).drop_first() =~= idx.skip(p as int + 1));
        p += 1;
    }
    assert(rank(idx, index) == p);
    assert forall|k: int| 0 <= k < old_calls.len() && old_calls[k].index != index implies partial_ok(
        #[trigger] old_calls[k],
        chunks,
    ) by {
        assert(partial_ok(old_calls[k], prev));
    }
    if p < calls.len() && calls[p].index == index {
        assert(idx[p as int] == index);
        assert(idx.contains(index));
        let c: Partial = calls.remove(p);
        assert(c == old_calls[p as int]);
        assert(partial_ok(c, prev));
        let new_id: Option<String> = match c.id {
            Some(x) => Some(x),
            None => clone_opt_of(id),
        };
        let new_name: Option<String> = match c.name {
            Some(x) => Some(x),
            None => clone_opt_of(name),
        };
        let mut arguments: String = c.arguments;
        arguments.append(arguments_delta.as_str());
        calls.insert(p, Partial { index, id: new_id, name: new_name, arguments });
        proof {
            assert(partial_ok(calls@[p as int], chunks));
            assert forall|k: int| 0 <= k < calls@.len() implies partial_ok(#[trigger] calls@[k], chunks) by {
                if k != p {
                    assert(calls@[k] == old_calls[k]);
                    if k < p {
                        assert(idx[k] < idx[p as int]);
                    } else {
                        assert(idx[p as int] < idx[k]);
                    }
                    assert(old_calls[k].index == idx[k]);
                }
            }
            assert(partial_indexes(calls@) =~= idx);
        }
    } else {
        proof {
            assert(!idx.contains(index));
            lemma_absent_call(prev, index);
            assert(Seq::<char>::empty() + arguments_delta@ =~= arguments_delta@);
        }
        calls.insert(
            p,
            Partial { index, id: clone_opt_of(id), name: clone_opt_of(name), arguments: arguments_delta.clone() },
        );
        proof {
            assert(partial_ok(calls@[p as int], chunks));
            assert forall|k: int| 0 <= k < calls@.len() implies partial_ok(#[trigger] calls@[k], chunks) by {
                if k < p {
                    assert(calls@[k] == old_calls[k]);
                    assert(idx[k] == old_calls[k].index);
                    assert(idx.contains(idx[k]));
                } else if k > p {
                    assert(calls@[k] == old_calls[k - 1]);
                    assert(idx[k - 1] == old_calls[k - 1].index);
                    assert(idx.contains(idx[k - 1]));
                }
            }
            assert(partial_indexes(calls@) =~= idx.insert(p as int, index));
        }
    }
}

fn take_text(s: Option<String>) -> (r: String)
    ensures
        r@ == or_empty(opt_view(s)),
{
    match s {
        Some(x) => x,
        None => String::new(),
    }
}

/// Puts an answer together: its text, and its tool calls in the order of their
/// indexes. A call takes the first id and the first name given for it, and all
/// pieces of its arguments.
pub fn parse_response(chunks: &Vec<StreamChunk>) -> (r: (String, Vec<ToolCall>))
    ensures
        r.0@ == answer_text(chunk_views(chunks@)),
        crate::types::call_views(r.1@) == answer_calls(chunk_views(chunks@)),
{
    let mut text: String = String::new();
    let mut calls: Vec<Partial> = Vec::new();
    let ghost all = chunk_views(chunks@);
    let mut i: usize = 0;
    assert(partial_indexes(calls@) =~= call_indexes(all.take(0)));
    while i < chunks.len()
        invariant
            i <= chunks.len(),
            all == chunk_views(chunks@),
            text@ == answer_text(all.take(i as int)),
            partials_ok(calls@, all.take(i as int)),
        decreases chunks.len() - i,
    {
        let ghost now = all.take(i as int + 1);
        proof {
            assert(now.drop_last() =~= all.take(i as int));
            assert(now.last() == chunks@[i as int]@);
        }
        match &chunks[i] {
            StreamChunk::Delta(s) => {
                text.append(s.as_str());
                proof {
                    lemma_other_chunk(calls@, now);
                }
            },
            StreamChunk::ToolCallDelta { index, id, name, arguments_delta } => {
                add_call_chunk(&mut calls, *index, id, name, arguments_delta, Ghost(now));
            },
            _ => {
                proof {
                    lemma_other_chunk(calls@, now);
                }
            },
        }
        i += 1;
    }
    assert(all.take(i as int) =~= all);
    let mut out: Vec<ToolCall> = Vec::new();
    let ghost parts = calls@;
    for c in it: calls
        invariant
            it.seq() == parts,
            partials_ok(parts, all),
            out.len() == it.index(),
            forall|k: int|
                0 <= k < out.len() ==> (#[trigger] out@[k])@ == call_at(all, call_indexes(all)[k]),
    {
        proof {
            let k = it.index() as int;
            assert(partial_ok(parts[k], all));
            assert(partial_indexes(parts)[k] == c.index);
        }
        out.push(ToolCall { id: take_text(c.id), name: take_text(c.name), arguments: c.arguments });
    }
    assert(partial_indexes(parts).len() == parts.len());
    assert(crate::types::call_views(out@) =~= answer_calls(all));
    (text, out)
}

proof fn lemma_other_chunk(calls: Seq<Partial>, chunks: Seq<ChunkView>)
    requires
        chunks.len() > 0,
        partials_ok(calls, chunks.drop_last()),
        !(chunks.last() is ToolCallDelta),
    ensures
        partials_ok(calls, chunks),
{
    assert forall|k: int| 0 <= k < calls.len() implies partial_ok(#[trigger] calls[k], chunks) by {
        assert(partial_ok(calls[k], chunks.drop_last()));
    }
}

// ---------- retries ----------

/// How a request ended: with a status, or without an answer.
#[derive(Debug, Clone, Copy, PartialEq, Eq, Structural)]
pub enum Reply {
    Status(u16),
    NoAnswer,
}

/// What to do next.
#[derive(Debug, Clone, Copy, PartialEq, Eq, Structural)]
pub enum Attempt {
    Accept,
    RetryAfter { secs: u64 },
    GiveUp,
}

/// A status that means success.
pub open spec fn is_success(status: u16) -> bool {
    200 <= status < 300
}

/// A status after which another try may succeed.
pub open spec fn is_retryable(status: u16) -> bool {
    status == 429 || 500 <= status < 600
}

/// Decides after the request number `attempt` (from zero): too many requests
/// and server errors are tried again, as is a request without an answer, with
/// a pause that doubles, until the retries are used up.
pub fn after_reply(attempt: u32, reply: Reply) -> (r: Attempt)
    ensures
        r == (match reply {
            Reply::Status(s) => if is_success(s) {
                Attempt::Accept
            } else if is_retryable(s) && attempt < MAX_RETRIES {
                Attempt::RetryAfter { secs: vstd::arithmetic::power2::pow2(attempt as nat) as u64 }
            } else {
                Attempt::GiveUp
            },
            Reply::NoAnswer => if attempt < MAX_RETRIES {
                Attempt::RetryAfter { secs: vstd::arithmetic::power2::pow2(attempt as nat) as u64 }
            } else {
                Attempt::GiveUp
            },
        }),
{
    proof {
        vstd::arithmetic::power2::lemma2_to64();
    }
    let again: Attempt = if attempt < MAX_RETRIES {
        Attempt::RetryAfter {
            secs: if attempt == 0 {
                1
            } else {
                2
            },
        }
    } else {
        Attempt::GiveUp
    };
    match reply {
        Reply::Status(s) => if 200 <= s && s < 300 {
            Attempt::Accept
        } else if s == 429 || (500 <= s && s < 600) {
            again
        } else {
            Attempt::GiveUp
        },
        Reply::NoAnswer => again,
    }
}

} // verus!
