//! What texts and records are in the statements of the library: that nothing is
//! stated of a value but of what it holds.

use vstd::prelude::*;

use crate::evolution::{growth_views, EvolutionEvent};
use crate::events::{AgentEvent, AgentEventView};
use crate::groups::{event_views, EventView, GroupEvent};
use crate::json::{member, opt_str, str_items, views, Json, JsonView};
use crate::memory::{group_views, hit_views, MemoryGroup, MemoryHit, MemoryKey};
use crate::text::{
    after_prefix, contains_text, dec, dec_int, dec_value, digit, find_text, first_index, head, is_space, join,
    lemma_find_from, lemma_first_index, lines, occurs_at, path_join, split, strip_both, strip_left, strip_right, strs,
    tail, trim, trim_end, trim_start,
};
use crate::types::{
    call_views, chunk_views, msg_views, opt_view, plain_view, ChunkView, Message, Role, StreamChunk, ToolCall,
};

verus! {

/// What is stated of a message is stated of its fields.
pub proof fn law_messages_are_their_fields(m: Message, v: Seq<Message>, i: int, role: Role, content: Seq<char>)
    ensures
        m@.role == m.role,
        m@.content == m.content@,
        m.tool_calls is None <==> m@.tool_calls is None,
        m.tool_calls matches Some(c) ==> m@.tool_calls->0.len() == c@.len() && forall|k: int|
            0 <= k < c@.len() ==> (#[trigger] m@.tool_calls->0[k]).id == c@[k].id@ && m@.tool_calls->0[k].name
                == c@[k].name@ && m@.tool_calls->0[k].arguments == c@[k].arguments@,
        m.tool_call_id is None <==> m@.tool_call_id is None,
        m.tool_call_id matches Some(id) ==> m@.tool_call_id == Some(id@),
        msg_views(v).len() == v.len(),
        0 <= i < v.len() ==> msg_views(v)[i] == v[i]@,
        plain_view(role, content).role == role,
        plain_view(role, content).content == content,
        plain_view(role, content).tool_calls is None,
        plain_view(role, content).tool_call_id is None,
{
}

/// What is stated of a call is stated of its fields.
pub proof fn law_calls_are_their_fields(c: ToolCall, v: Seq<ToolCall>, i: int)
    ensures
        c@.id == c.id@ && c@.name == c.name@ && c@.arguments == c.arguments@,
        call_views(v).len() == v.len(),
        0 <= i < v.len() ==> call_views(v)[i] == v[i]@,
{
}

/// What is stated of a piece of an answer is stated of its fields.
pub proof fn law_chunks_are_their_fields(c: StreamChunk, v: Seq<StreamChunk>, i: int)
    ensures
        match c {
            StreamChunk::Delta(s) => c@ == ChunkView::Delta(s@),
            StreamChunk::Reasoning(s) => c@ == ChunkView::Reasoning(s@),
            StreamChunk::ToolCallDelta { index, id, name, arguments_delta } => {
                &&& c@ is ToolCallDelta
                &&& c@->ToolCallDelta_index == index
                &&& c@->arguments_delta == arguments_delta@
                &&& c@->ToolCallDelta_id is Some <==> id is Some
                &&& id matches Some(x) ==> c@->ToolCallDelta_id == Some(x@)
                &&& c@->ToolCallDelta_name is Some <==> name is Some
                &&& name matches Some(x) ==> c@->ToolCallDelta_name == Some(x@)
            },
            StreamChunk::Usage { input_tokens, output_tokens, cached_tokens } => c@ == (ChunkView::Usage {
                input_tokens,
                output_tokens,
                cached_tokens,
            }),
            StreamChunk::Done => c@ == ChunkView::Done,
        },
        chunk_views(v).len() == v.len(),
        0 <= i < v.len() ==> chunk_views(v)[i] == v[i]@,
{
}

/// What is stated of an event of a run is stated of its fields.
pub proof fn law_run_events_are_their_fields(e: AgentEvent)
    ensures
        match e {
            AgentEvent::AgentStart => e@ == AgentEventView::AgentStart,
            AgentEvent::MessageUpdate(s) => e@ == AgentEventView::MessageUpdate(s@),
            AgentEvent::Thinking(s) => e@ == AgentEventView::Thinking(s@),
            AgentEvent::ToolCall { name, arguments } => e@ == (AgentEventView::ToolCall {
                name: name@,
                arguments: arguments@,
            }),
            AgentEvent::ToolResult { name, output } => e@ == (AgentEventView::ToolResult {
                name: name@,
                output: output@,
            }),
            AgentEvent::Steered(s) => e@ == AgentEventView::Steered(s@),
            AgentEvent::Done { final_text } => e@ == (AgentEventView::Done { final_text: final_text@ }),
            AgentEvent::UsageUpdate(u) => e@ == AgentEventView::UsageUpdate(u),
            AgentEvent::Error(s) => e@ == AgentEventView::Error(s@),
            AgentEvent::Evolved(s) => e@ == AgentEventView::Evolved(s@),
        },
{
}

/// What is stated of an event of a group is stated of its fields.
pub proof fn law_group_events_are_their_fields(e: GroupEvent, v: Seq<GroupEvent>, i: int)
    ensures
        match e {
            GroupEvent::Message { from, text, ts } => e@ == (EventView::Message { from: from@, text: text@, ts }),
            GroupEvent::Mention { from, text, ts, mentions } => {
                &&& e@ is Mention
                &&& e@->Mention_from == from@
                &&& e@->Mention_text == text@
                &&& e@->Mention_ts == ts
                &&& e@->mentions.len() == mentions@.len()
                &&& forall|k: int| 0 <= k < mentions@.len() ==> (#[trigger] e@->mentions[k]) == mentions@[k]@
            },
            GroupEvent::Subtask { from, to, prompt, ts, state } => e@ == (EventView::Subtask {
                from: from@,
                to: to@,
                prompt: prompt@,
                ts,
                state: state@,
            }),
            GroupEvent::Summary { text, ts } => e@ == (EventView::Summary { text: text@, ts }),
            GroupEvent::StateChange { from_state, to_state, ts } => e@ == (EventView::StateChange {
                from_state: from_state@,
                to_state: to_state@,
                ts,
            }),
            GroupEvent::Error { text, ts } => e@ == (EventView::Error { text: text@, ts }),
            GroupEvent::MemberActivity { from, kind, text, ts } => e@ == (EventView::MemberActivity {
                from: from@,
                kind: kind@,
                text: text@,
                ts,
            }),
        },
        event_views(v).len() == v.len(),
        0 <= i < v.len() ==> event_views(v)[i] == v[i]@,
{
}

/// What is stated of a memory that was found is stated of its fields.
pub proof fn law_hits_are_their_fields(h: MemoryHit, v: Seq<MemoryHit>, k: MemoryKey, g: MemoryGroup, i: int)
    ensures
        h@.id == h.id && h@.query == h.query@ && h@.answer == h.answer@ && h@.score == h.score,
        h@.session_id == h.session_id@ && h@.created_at == h.created_at,
        hit_views(v).len() == v.len(),
        0 <= i < v.len() ==> hit_views(v)[i] == v[i]@,
        k@.session_id == k.session_id@ && k@.query == k.query@ && k@.answer == k.answer@,
        g@.key == g.key@ && g@.created_at == g.created_at && g@.ids == g.ids@,
{
}

/// What is stated of groups of rows is stated of each of them.
pub proof fn law_row_groups_are_listed(v: Seq<MemoryGroup>, i: int)
    ensures
        group_views(v).len() == v.len(),
        0 <= i < v.len() ==> group_views(v)[i] == v[i]@,
{
}

/// What is stated of an event of growth is stated of its fields.
pub proof fn law_growth_events_are_their_fields(e: EvolutionEvent, v: Seq<EvolutionEvent>, i: int)
    ensures
        e@.ts == e.ts && e@.kind == e.kind@ && e@.content == e.content@ && e@.evidence == e.evidence@,
        e@.session_id == e.session_id@,
        growth_views(v).len() == v.len(),
        0 <= i < v.len() ==> growth_views(v)[i] == v[i]@,
{
}

/// What is stated of a JSON value is stated of what it holds.
pub proof fn law_json_values_are_what_they_hold(j: Json, v: Seq<Json>, i: int)
    ensures
        match j {
            Json::Null => j@ == JsonView::Null,
            Json::Bool(b) => j@ == JsonView::Bool(b),
            Json::Uint(n) => j@ == JsonView::Uint(n),
            Json::Neg(n) => j@ == JsonView::Neg(n),
            Json::Float(s) => j@ == JsonView::Float(s@),
            Json::Str(s) => j@ == JsonView::Str(s@),
            Json::Arr(a) => j@ is Arr && j@->Arr_0.len() == a@.len() && (0 <= i < a@.len() ==> j@->Arr_0[i]
                == a@[i]@),
            Json::Obj(m) => j@ is Obj && j@->Obj_0.len() == m@.len() && (0 <= i < m@.len() ==> j@->Obj_0[i].0
                == m@[i].0@ && j@->Obj_0[i].1 == m@[i].1@),
        },
        views(v).len() == v.len(),
        0 <= i < v.len() ==> views(v)[i] == v[i]@,
{
}

/// A member of an object is the first one with its name.
pub proof fn law_members_are_found(m: Seq<(Seq<char>, JsonView)>, i: int, key: Seq<char>)
    ensures
        0 <= i < m.len() && m[i].0 == key && (forall|k: int| 0 <= k < i ==> (#[trigger] m[k]).0 != key)
            ==> JsonView::Obj(m).get(key) == Some(m[i].1),
        (forall|k: int| 0 <= k < m.len() ==> (#[trigger] m[k]).0 != key) ==> JsonView::Obj(m).get(key) is None,
    decreases m.len(),
{
    if m.len() > 0 && m[0].0 != key {
        let t = m.drop_first();
        law_members_are_found(t, i - 1, key);
        if 0 <= i < m.len() && m[i].0 == key && (forall|k: int| 0 <= k < i ==> (#[trigger] m[k]).0 != key) {
            assert(i > 0);
            assert(t[i - 1] == m[i]);
            assert forall|k: int| 0 <= k < i - 1 implies (#[trigger] t[k]).0 != key by {
                assert(t[k] == m[k + 1]);
            }
        }
        if forall|k: int| 0 <= k < m.len() ==> (#[trigger] m[k]).0 != key {
            assert forall|k: int| 0 <= k < t.len() implies (#[trigger] t[k]).0 != key by {
                assert(t[k] == m[k + 1]);
            }
        }
    } else if m.len() > 0 {
        if 0 <= i < m.len() && m[i].0 == key && (forall|k: int| 0 <= k < i ==> (#[trigger] m[k]).0 != key) {
            if i > 0 {
                assert(m[0].0 != key);
            }
        }
    }
}

/// A value is read as what it is, and as nothing else.
pub proof fn law_values_are_read_as_they_are(v: JsonView)
    ensures
        v.as_str() is Some <==> v is Str,
        v matches JsonView::Str(s) ==> v.as_str() == Some(s),
        v.as_u64() is Some <==> v is Uint,
        v matches JsonView::Uint(n) ==> v.as_u64() == Some(n),
        v.as_bool() is Some <==> v is Bool,
        v matches JsonView::Bool(b) ==> v.as_bool() == Some(b),
        v.as_arr() is Some <==> v is Arr,
        v matches JsonView::Arr(a) ==> v.as_arr() == Some(a),
        v.as_i64() matches Some(n) ==> (v matches JsonView::Uint(u) ==> n == u) && (v matches JsonView::Neg(u) ==> n
            == u),
        v matches JsonView::Neg(n) ==> v.as_i64() == Some(n),
        v matches JsonView::Uint(n) ==> (n <= i64::MAX ==> v.as_i64() == Some(n as i64)),
{
}

/// Texts in a list are those of the strings; an absent text is absent.
pub proof fn law_lists_of_texts(v: Seq<String>, i: int, o: Option<String>, t: Seq<Seq<char>>)
    ensures
        strs(v).len() == v.len(),
        0 <= i < v.len() ==> strs(v)[i] == v[i]@,
        o is None <==> opt_view(o) is None,
        o matches Some(s) ==> opt_view(o) == Some(s@),
        opt_str(opt_view(o)) is Null <==> o is None,
        o matches Some(s) ==> opt_str(opt_view(o)) == JsonView::Str(s@),
        str_items(t) is Arr && str_items(t)->Arr_0.len() == t.len(),
        0 <= i < t.len() ==> str_items(t)->Arr_0[i] == JsonView::Str(t[i]),
{
}

/// The start of a text is as much of it as fits, and so is its end.
pub proof fn law_start_and_end(s: Seq<char>, n: nat, i: int)
    ensures
        s.len() <= n ==> head(s, n) == s && tail(s, n) == s,
        s.len() > n ==> head(s, n).len() == n && tail(s, n).len() == n,
        0 <= i < head(s, n).len() ==> head(s, n)[i] == s[i],
        0 <= i < tail(s, n).len() ==> tail(s, n)[i] == s[s.len() - tail(s, n).len() + i],
{
}

/// Trimming takes away the white space at both ends and nothing else.
pub proof fn law_trimming(s: Seq<char>)
    ensures
        trim_start(s).len() <= s.len(),
        s.skip(s.len() - trim_start(s).len()) == trim_start(s),
        forall|i: int| 0 <= i < s.len() - trim_start(s).len() ==> is_space(#[trigger] s[i]),
        trim_start(s).len() > 0 ==> !is_space(trim_start(s)[0]),
        trim(s).len() > 0 ==> !is_space(trim(s)[0]) && !is_space(trim(s).last()),
        contains_text(s, trim(s)),
{
    lemma_trim_start(s);
    let t = trim_start(s);
    lemma_trim_end(t);
    let u = trim_end(t);
    let k = s.len() - t.len();
    assert(s.subrange(k, k + u.len()) =~= t.take(u.len() as int));
    assert(occurs_at(s, u, k));
}

proof fn lemma_trim_start(s: Seq<char>)
    ensures
        trim_start(s).len() <= s.len(),
        s.skip(s.len() - trim_start(s).len()) == trim_start(s),
        forall|i: int| 0 <= i < s.len() - trim_start(s).len() ==> is_space(#[trigger] s[i]),
        trim_start(s).len() > 0 ==> !is_space(trim_start(s)[0]),
    decreases s.len(),
{
    if s.len() > 0 && is_space(s[0]) {
        let t = s.drop_first();
        lemma_trim_start(t);
        assert(s.skip(s.len() - trim_start(s).len()) =~= t.skip(t.len() - trim_start(t).len()));
        assert forall|i: int| 0 <= i < s.len() - trim_start(s).len() implies is_space(#[trigger] s[i]) by {
            if i > 0 {
                assert(t[i - 1] == s[i]);
            }
        }
    } else {
        assert(s.skip(0) =~= s);
    }
}

proof fn lemma_trim_end(s: Seq<char>)
    ensures
        trim_end(s).len() <= s.len(),
        s.take(trim_end(s).len() as int) == trim_end(s),
        forall|i: int| trim_end(s).len() <= i < s.len() ==> is_space(#[trigger] s[i]),
        trim_end(s).len() > 0 ==> !is_space(trim_end(s).last()) && trim_end(s)[0] == s[0],
    decreases s.len(),
{
    if s.len() > 0 && is_space(s.last()) {
        let t = s.drop_last();
        lemma_trim_end(t);
        assert(s.take(trim_end(s).len() as int) =~= t.take(trim_end(t).len() as int));
        assert forall|i: int| trim_end(s).len() <= i < s.len() implies is_space(#[trigger] s[i]) by {
            if i < t.len() {
                assert(t[i] == s[i]);
            }
        }
    } else {
        assert(s.take(s.len() as int) =~= s);
    }
}

/// Taking a character off the ends takes all of it there and nothing else.
pub proof fn law_stripping(s: Seq<char>, c: char)
    ensures
        strip_right(s, c).len() <= s.len(),
        s.take(strip_right(s, c).len() as int) == strip_right(s, c),
        forall|i: int| strip_right(s, c).len() <= i < s.len() ==> (#[trigger] s[i]) == c,
        strip_right(s, c).len() > 0 ==> strip_right(s, c).last() != c,
    decreases s.len(),
{
    if s.len() > 0 && s.last() == c {
        let t = s.drop_last();
        law_stripping(t, c);
        assert(s.take(strip_right(s, c).len() as int) =~= t.take(strip_right(t, c).len() as int));
        assert forall|i: int| strip_right(s, c).len() <= i < s.len() implies (#[trigger] s[i]) == c by {
            if i < t.len() {
                assert(t[i] == s[i]);
            }
        }
    } else {
        assert(s.take(s.len() as int) =~= s);
    }
}

/// Taking a character off the front takes all of it there and nothing else.
pub proof fn law_stripping_the_front(s: Seq<char>, c: char)
    ensures
        strip_left(s, c).len() <= s.len(),
        s.skip(s.len() - strip_left(s, c).len()) == strip_left(s, c),
        forall|i: int| 0 <= i < s.len() - strip_left(s, c).len() ==> (#[trigger] s[i]) == c,
        strip_left(s, c).len() > 0 ==> strip_left(s, c)[0] != c,
        strip_both(s, c).len() > 0 ==> strip_both(s, c).last() != c,
    decreases s.len(),
{
    law_stripping(strip_left(s, c), c);
    if s.len() > 0 && s[0] == c {
        let t = s.drop_first();
        law_stripping_the_front(t, c);
        assert(s.skip(s.len() - strip_left(s, c).len()) =~= t.skip(t.len() - strip_left(t, c).len()));
        assert forall|i: int| 0 <= i < s.len() - strip_left(s, c).len() implies (#[trigger] s[i]) == c by {
            if i > 0 {
                assert(t[i - 1] == s[i]);
            }
        }
    } else {
        assert(s.skip(0) =~= s);
    }
}

/// A text that was split is the parts with the character between them, and no
/// part holds it.
pub proof fn law_splitting(s: Seq<char>, c: char)
    ensures
        join(split(s, c), seq![c]) == s,
        split(s, c).len() > 0,
        forall|i: int| 0 <= i < split(s, c).len() ==> !(#[trigger] split(s, c)[i]).contains(c),
    decreases s.len(),
{
    let i = first_index(s, c);
    lemma_first_index(s, c);
    if i >= s.len() {
        assert(!s.contains(c)) by {
            if s.contains(c) {
                let k = s.index_of(c);
                assert(s[k] == c);
            }
        }
    } else {
        let first = s.take(i);
        let rest = s.skip(i + 1);
        law_splitting(rest, c);
        lemma_join_front(first, split(rest, c), seq![c]);
        assert(first + seq![c] + rest =~= s);
        assert(!first.contains(c)) by {
            if first.contains(c) {
                let k = first.index_of(c);
                assert(s[k] == c);
            }
        }
        assert forall|k: int| 0 <= k < split(s, c).len() implies !(#[trigger] split(s, c)[k]).contains(c) by {
            if k > 0 {
                assert(split(s, c)[k] == split(rest, c)[k - 1]);
            }
        }
    }
}

/// Joined texts with one more in front.
pub proof fn lemma_join_front(a: Seq<char>, parts: Seq<Seq<char>>, sep: Seq<char>)
    requires
        parts.len() > 0,
    ensures
        join(seq![a] + parts, sep) == a + sep + join(parts, sep),
    decreases parts.len(),
{
    let all = seq![a] + parts;
    assert(all.drop_last() =~= seq![a] + parts.drop_last());
    if parts.len() > 1 {
        lemma_join_front(a, parts.drop_last(), sep);
        assert((a + sep + join(parts.drop_last(), sep)) + sep + parts.last() =~= a + sep + (join(
            parts.drop_last(),
            sep,
        ) + sep + parts.last()));
    } else {
        assert(all.drop_last() =~= seq![a]);
        assert(join(all.drop_last(), sep) == a);
    }
}

/// A number is written in digits that stand for it, the first not a zero unless
/// it is the only one; numbers that differ are written differently.
pub proof fn law_numbers_are_written(n: nat, m: nat)
    ensures
        dec(n).len() > 0,
        dec_value(dec(n)) == n,
        forall|i: int| 0 <= i < dec(n).len() ==> '0' <= #[trigger] dec(n)[i] <= '9',
        dec(n).len() > 1 ==> dec(n)[0] != '0',
        dec(n) == dec(m) ==> n == m,
    decreases n,
{
    lemma_dec(n);
    lemma_dec(m);
}

proof fn lemma_dec(n: nat)
    ensures
        dec(n).len() > 0,
        dec_value(dec(n)) == n,
        forall|i: int| 0 <= i < dec(n).len() ==> '0' <= #[trigger] dec(n)[i] <= '9',
        dec(n).len() > 1 ==> dec(n)[0] != '0',
        n > 0 ==> dec(n)[0] != '0',
    decreases n,
{
    if n < 10 {
        let d = digit(n);
        assert(seq![d].drop_last() =~= Seq::<char>::empty());
        assert(dec_value(Seq::<char>::empty()) == 0);
        assert(d as nat == 48 + n);
    } else {
        lemma_dec(n / 10);
        let d = digit(n % 10);
        assert(dec(n).drop_last() =~= dec(n / 10));
        assert(d as nat == 48 + n % 10);
        assert(dec(n)[0] == dec(n / 10)[0]);
    }
}

/// A signed number is written with a minus where it is negative.
pub proof fn law_signed_numbers_are_written(n: int)
    ensures
        n >= 0 ==> dec_int(n) == dec(n as nat),
        n < 0 ==> dec_int(n).len() > 1 && dec_int(n)[0] == '-' && dec_int(n).skip(1) == dec((-n) as nat),
{
    if n < 0 {
        lemma_dec((-n) as nat);
        assert(dec_int(n).skip(1) =~= dec((-n) as nat));
    }
}

/// A path below a directory is the directory, a slash and the rest; a path from
/// the root stands for itself.
pub proof fn law_paths_are_joined(a: Seq<char>, b: Seq<char>)
    ensures
        b.len() > 0 && b[0] == '/' ==> path_join(a, b) == b,
        a.len() > 0 && a.last() != '/' && (b.len() == 0 || b[0] != '/') ==> path_join(a, b) == a + seq!['/'] + b,
        a.len() > 0 && a.last() == '/' && (b.len() == 0 || b[0] != '/') ==> path_join(a, b) == a + b,
{
    assert(a.push('/') =~= a + seq!['/']);
}

/// A prefix is taken off where it stands, and only there.
pub proof fn law_prefixes_are_taken_off(s: Seq<char>, pat: Seq<char>)
    ensures
        after_prefix(pat + s, pat) == Some(s),
        after_prefix(s, pat) matches Some(r) ==> s == pat + r,
{
    let t = pat + s;
    assert(t.subrange(0, pat.len() as int) =~= pat);
    assert(t.skip(pat.len() as int) =~= s);
    if let Some(r) = after_prefix(s, pat) {
        assert(s =~= s.subrange(0, pat.len() as int) + s.skip(pat.len() as int));
    }
}

/// A pattern is found where it first stands.
pub proof fn law_patterns_are_found(s: Seq<char>, pat: Seq<char>)
    ensures
        match find_text(s, pat) {
            Some(i) => 0 <= i && i + pat.len() <= s.len() && s.subrange(i, i + pat.len()) == pat && forall|j: int, k: int|
                0 <= j < i && k == j + pat.len() && k <= s.len() ==> #[trigger] s.subrange(j, k) != pat,
            None => forall|j: int, k: int|
                0 <= j && k == j + pat.len() && k <= s.len() ==> #[trigger] s.subrange(j, k) != pat,
        },
{
    lemma_find_from(s, pat, 0);
    assert forall|j: int, k: int|
        (match find_text(s, pat) {
            Some(i) => 0 <= j < i,
            None => 0 <= j,
        }) && k == j + pat.len() && k <= s.len() implies #[trigger] s.subrange(j, k) != pat by {
        assert(!occurs_at(s, pat, j));
    }
}

/// The lines of a text: what stands before a line feed, without a carriage
/// return at its end, and then the lines of the rest.
pub proof fn law_lines_of_a_text(line: Seq<char>, rest: Seq<char>)
    requires
        !line.contains('\n'),
    ensures
        line.len() == 0 || line.last() != '\r' ==> lines(line + seq!['\n'] + rest) == seq![line] + lines(rest),
        lines(line + seq!['\r', '\n'] + rest) == seq![line] + lines(rest),
        line.len() > 0 ==> lines(line) == seq![line],
        lines(Seq::<char>::empty()).len() == 0,
{
    let a = line + seq!['\n'] + rest;
    lemma_first_at(a, '\n', line.len() as int);
    assert(a.take(line.len() as int) =~= line);
    assert(a.skip(line.len() as int + 1) =~= rest);
    let b = line + seq!['\r', '\n'] + rest;
    assert forall|k: int| 0 <= k < line.len() + 1 implies b[k] != '\n' by {
        if k < line.len() {
            assert(b[k] == line[k]);
        }
    }
    lemma_first_at(b, '\n', line.len() as int + 1);
    assert(b.take(line.len() as int + 1) =~= line.push('\r'));
    assert(b.take(line.len() as int + 1).drop_last() =~= line);
    assert(b.skip(line.len() as int + 2) =~= rest);
    lemma_first_index(line, '\n');
    if line.len() > 0 && first_index(line, '\n') < line.len() {
        assert(line[first_index(line, '\n')] == '\n');
    }
}

proof fn lemma_first_at(s: Seq<char>, c: char, n: int)
    requires
        0 <= n < s.len(),
        s[n] == c,
        forall|k: int| 0 <= k < n ==> s[k] != c,
    ensures
        first_index(s, c) == n,
{
    lemma_first_index(s, c);
    let i = first_index(s, c);
    if i < n {
        assert(s[i] == c);
    }
}

/// A field of a record stands under its name in an object, or at its place in a
/// list that is as long as the record.
pub proof fn law_fields_of_a_record(v: JsonView, a: Seq<JsonView>, key: Seq<char>, at: nat, n: nat)
    requires
        at < n,
    ensures
        a.len() == n ==> JsonView::Arr(a).field(key, at, n) == Some(a[at as int]),
        a.len() != n ==> JsonView::Arr(a).field(key, at, n) is None,
        !(v is Arr) ==> v.field(key, at, n) == v.get(key),
        !(v is Arr) ==> v.field_str(key, at, n) == v.get_str(key),
        a.len() == n && a[at as int] is Str ==> JsonView::Arr(a).field_str(key, at, n) == Some(a[at as int]->Str_0),
        a.len() == n && a[at as int] is Uint ==> JsonView::Arr(a).field_u64(key, at, n) == Some(a[at as int]->Uint_0),
{
}

} // verus!
