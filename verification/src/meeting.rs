//! How a group's discussion runs: what members are told, what their answers
//! mean, who speaks next, and when the discussion pauses or ends.

use vstd::prelude::*;

use crate::agents::MAIN;
use crate::client::name_pairs;
use crate::console::{is_file_name, valid_name};
use crate::events::{AgentEvent, AgentEventView};
use crate::groups::{
    add_tokens, before_target, create_group, event_views, find_lead, founded, group_error, has_name, lead_of,
    lemma_position, may_move, member_at, members_error, moved_last, next_of, next_speaker, pairs, pick, position,
    promote_error, promote_lead, role_set, sat_add, set_state, speaking_order, speaking_to_force_next, uuid_shape,
    EventView, GroupConfig, GroupEvent, GroupTask, Member, NamePair, DEFAULT_TASK_DEPTH,
};
use crate::json::{json_printed, print, Json, JsonView};
use crate::text::{
    after_prefix, byte_len, char_count, chars_at, chars_of, contains_string, contains_text, dec, dec_string, find_string,
    find_text, first_index, index_from, is_space, is_whitespace, join, join_path, join_strings, list_has, occurs_at,
    path_join, slice_of, str_eq, strip_prefix, strs, tail, tail_string, trim, trim_string, utf8_len,
};
use crate::types::opt_view;

verus! {

/// How many events of the stream a member is told.
pub const GROUP_CTX_EVENTS: usize = 40;

/// How many characters of the stream a member is told.
pub const GROUP_CTX_CHARS: usize = 12_000;

/// Failures in a row after which a group pauses.
pub const GROUP_MAX_FAIL_STREAK: u32 = 3;

// ---------- what an answer says ----------

/// The names with one more, the longer ones first; equally long ones stay in
/// the order they came.
pub open spec fn insert_name(v: Seq<Seq<char>>, x: Seq<char>) -> Seq<Seq<char>>
    decreases v.len(),
{
    if v.len() == 0 || utf8_len(v.last()) >= utf8_len(x) {
        v.push(x)
    } else {
        insert_name(v.drop_last(), x).push(v.last())
    }
}

/// The members' names, the longer ones first.
pub open spec fn names_by_length(m: Seq<Member>) -> Seq<Seq<char>>
    decreases m.len(),
{
    if m.len() == 0 {
        Seq::empty()
    } else {
        insert_name(names_by_length(m.drop_last()), m.last().name@)
    }
}

/// A text calls on a name at a position: the name stands there behind an `@`,
/// and none of the longer names does.
pub open spec fn called_at(all: Seq<Seq<char>>, text: Seq<char>, name: Seq<char>, at: int) -> bool {
    &&& occurs_at(text, "@"@ + name, at)
    &&& forall|k: int|
        0 <= k < all.len() && (#[trigger] all[k]).len() > name.len() ==> !occurs_at(text, "@"@ + all[k], at)
}

/// A text calls on a name.
pub open spec fn calls_on(all: Seq<Seq<char>>, text: Seq<char>, name: Seq<char>) -> bool {
    exists|at: int| called_at(all, text, name, at)
}

/// The names, out of all of them, that a text calls on with `@`, each once.
pub open spec fn called(names: Seq<Seq<char>>, all: Seq<Seq<char>>, text: Seq<char>) -> Seq<Seq<char>>
    decreases names.len(),
{
    if names.len() == 0 {
        Seq::empty()
    } else {
        let before = called(names.drop_last(), all, text);
        if calls_on(all, text, names.last()) && !before.contains(names.last()) {
            before.push(names.last())
        } else {
            before
        }
    }
}

/// The members that a text calls on.
pub open spec fn mentions_in(text: Seq<char>, members: Seq<Member>) -> Seq<Seq<char>> {
    called(names_by_length(members), names_by_length(members), text)
}

fn put_name(out: &mut Vec<String>, x: &str)
    ensures
        strs(final(out)@) == insert_name(strs(old(out)@), x@),
{
    let ghost all = strs(out@);
    let n: usize = out.len();
    let mut i: usize = n;
    let len: usize = byte_len(x);
    assert(all.take(n as int) =~= all);
    assert(insert_name(all, x@) + all.skip(n as int) =~= insert_name(all, x@));
    while i > 0 && byte_len(out[i - 1].as_str()) < len
        invariant
            i <= n,
            n == out.len(),
            len == utf8_len(x@),
            all == strs(out@),
            insert_name(all, x@) == insert_name(all.take(i as int), x@) + all.skip(i as int),
        decreases i,
    {
        proof {
            let now = all.take(i as int);
            assert(now.last() == out@[i - 1]@);
            assert(now.drop_last() =~= all.take(i - 1));
            assert(insert_name(all.take(i - 1), x@).push(all[i - 1]) + all.skip(i as int) =~= insert_name(
                all.take(i - 1),
                x@,
            ) + all.skip(i - 1));
        }
        i -= 1;
    }
    proof {
        assert(i > 0 ==> all.take(i as int).last() == out@[i - 1]@);
    }
    out.insert(i, x.to_string());
    assert(strs(out@) =~= all.take(i as int).push(x@) + all.skip(i as int));
}

fn with_at(name: &str) -> (r: Vec<char>)
    ensures
        r@ == "@"@ + name@,
{
    let mut pat: String = "@".to_string();
    pat.append(name);
    chars_of(pat.as_str())
}

fn is_called_at(all: &Vec<String>, text: &[char], name: &str, at: usize) -> (r: bool)
    ensures
        r == called_at(strs(all@), text@, name@, at as int),
{
    let pat: Vec<char> = with_at(name);
    if !chars_at(text, pat.as_slice(), at) {
        return false;
    }
    let mut k: usize = 0;
    while k < all.len()
        invariant
            k <= all.len(),
            pat@ == "@"@ + name@,
            forall|j: int|
                0 <= j < k && (#[trigger] strs(all@)[j]).len() > name@.len() ==> !occurs_at(
                    text@,
                    "@"@ + strs(all@)[j],
                    at as int,
                ),
        decreases all.len() - k,
    {
        assert(strs(all@)[k as int] == all@[k as int]@);
        let other: Vec<char> = with_at(all[k].as_str());
        if other.len() > pat.len() && chars_at(text, other.as_slice(), at) {
            return false;
        }
        k += 1;
    }
    true
}

fn is_called(all: &Vec<String>, text: &[char], name: &str) -> (r: bool)
    ensures
        r == calls_on(strs(all@), text@, name@),
{
    let mut at: usize = 0;
    while at < text.len()
        invariant
            at <= text.len(),
            forall|j: int| 0 <= j < at ==> !called_at(strs(all@), text@, name@, j),
        decreases text.len() - at,
    {
        if is_called_at(all, text, name, at) {
            return true;
        }
        at += 1;
    }
    proof {
        reveal_strlit("@");
        assert forall|j: int| !called_at(strs(all@), text@, name@, j) by {
            assert(("@"@ + name@).len() >= 1);
        }
    }
    false
}

/// The members that a text calls on with `@`, those with longer names first.
/// Where several names stand at one `@`, the longest is called.
pub fn parse_mentions(text: &str, g: &GroupConfig) -> (r: Vec<String>)
    ensures
        strs(r@) == mentions_in(text@, g.members@),
{
    let ghost ms = g.members@;
    let mut names: Vec<String> = Vec::new();
    let mut i: usize = 0;
    assert(strs(names@) =~= names_by_length(ms.take(0)));
    while i < g.members.len()
        invariant
            i <= g.members.len(),
            ms == g.members@,
            strs(names@) == names_by_length(ms.take(i as int)),
        decreases g.members.len() - i,
    {
        assert(ms.take(i as int + 1).drop_last() =~= ms.take(i as int));
        put_name(&mut names, g.members[i].name.as_str());
        i += 1;
    }
    assert(ms.take(i as int) =~= ms);
    let ghost all = strs(names@);
    let chars: Vec<char> = chars_of(text);
    let mut out: Vec<String> = Vec::new();
    let mut k: usize = 0;
    assert(strs(out@) =~= called(all.take(0), all, text@));
    while k < names.len()
        invariant
            k <= names.len(),
            all == strs(names@),
            chars@ == text@,
            strs(out@) == called(all.take(k as int), all, text@),
        decreases names.len() - k,
    {
        let ghost before = strs(out@);
        proof {
            assert(all.take(k as int + 1).drop_last() =~= all.take(k as int));
            assert(all.take(k as int + 1).last() == names@[k as int]@);
        }
        if is_called(&names, chars.as_slice(), names[k].as_str()) && !list_has(&out, names[k].as_str()) {
            out.push(names[k].clone());
            assert(strs(out@) =~= before.push(names@[k as int]@));
        }
        k += 1;
    }
    assert(all.take(k as int) =~= all);
    out
}

proof fn lemma_insert_name(v: Seq<Seq<char>>, x: Seq<char>, y: Seq<char>)
    ensures
        insert_name(v, x).contains(y) == (v.contains(y) || x == y),
    decreases v.len(),
{
    if v.len() == 0 || utf8_len(v.last()) >= utf8_len(x) {
        assert(v.push(x)[v.len() as int] == x);
        if v.contains(y) {
            let k = v.index_of(y);
            assert(v.push(x)[k] == y);
        }
        if v.push(x).contains(y) {
            let k = v.push(x).index_of(y);
            assert(k < v.len() ==> v[k] == y);
        }
    } else {
        let p = v.drop_last();
        lemma_insert_name(p, x, y);
        let q = insert_name(p, x);
        let r = q.push(v.last());
        assert(r[q.len() as int] == v.last());
        assert(v[v.len() - 1] == v.last());
        if v.contains(y) {
            let k = v.index_of(y);
            if k < p.len() {
                assert(p[k] == y);
                assert(p.contains(y));
            }
        }
        if q.contains(y) {
            let k = q.index_of(y);
            assert(r[k] == y);
        }
        if r.contains(y) {
            let k = r.index_of(y);
            assert(k < q.len() ==> q[k] == y);
        }
        if p.contains(y) {
            let k = p.index_of(y);
            assert(v[k] == y);
        }
    }
}

proof fn lemma_names(m: Seq<Member>, y: Seq<char>)
    ensures
        names_by_length(m).contains(y) == (exists|i: int| 0 <= i < m.len() && (#[trigger] m[i]).name@ == y),
    decreases m.len(),
{
    if m.len() > 0 {
        let p = m.drop_last();
        lemma_names(p, y);
        lemma_insert_name(names_by_length(p), m.last().name@, y);
        assert(m[m.len() - 1] == m.last());
        if exists|i: int| 0 <= i < p.len() && (#[trigger] p[i]).name@ == y {
            let i = choose|i: int| 0 <= i < p.len() && (#[trigger] p[i]).name@ == y;
            assert(m[i].name@ == y);
        }
        if exists|i: int| 0 <= i < m.len() && (#[trigger] m[i]).name@ == y {
            let i = choose|i: int| 0 <= i < m.len() && (#[trigger] m[i]).name@ == y;
            if i < p.len() {
                assert(p[i].name@ == y);
            }
        }
    }
}

proof fn lemma_called(names: Seq<Seq<char>>, all: Seq<Seq<char>>, text: Seq<char>, y: Seq<char>)
    ensures
        called(names, all, text).contains(y) == (names.contains(y) && calls_on(all, text, y)),
    decreases names.len(),
{
    if names.len() > 0 {
        let p = names.drop_last();
        lemma_called(p, all, text, y);
        let before = called(p, all, text);
        let r = called(names, all, text);
        assert(names[names.len() - 1] == names.last());
        if p.contains(y) {
            let k = p.index_of(y);
            assert(names[k] == y);
        }
        if names.contains(y) {
            let k = names.index_of(y);
            assert(k < p.len() ==> p[k] == y);
        }
        if r.len() > before.len() {
            assert(r[before.len() as int] == names.last());
            if before.contains(y) {
                let k = before.index_of(y);
                assert(r[k] == y);
            }
            if r.contains(y) {
                let k = r.index_of(y);
                assert(k < before.len() ==> before[k] == y);
            }
        }
    }
}

/// A text calls exactly on those members whose names stand behind an `@` in it
/// at which no member's longer name stands.
pub proof fn law_mentions(text: Seq<char>, members: Seq<Member>, name: Seq<char>)
    ensures
        mentions_in(text, members).contains(name) <==> is_member(members, name) && exists|at: int|
            #[trigger] occurs_at(text, "@"@ + name, at) && forall|longer: Seq<char>|
                #[trigger] is_member(members, longer) && longer.len() > name.len() ==> !occurs_at(
                    text,
                    "@"@ + longer,
                    at,
                ),
{
    let all = names_by_length(members);
    lemma_names(members, name);
    lemma_called(all, all, text, name);
    assert forall|y: Seq<char>| all.contains(y) == #[trigger] is_member(members, y) by {
        lemma_names(members, y);
    }
    if calls_on(all, text, name) {
        let at = choose|at: int| called_at(all, text, name, at);
        assert forall|longer: Seq<char>|
            #[trigger] is_member(members, longer) && longer.len() > name.len() implies !occurs_at(
            text,
            "@"@ + longer,
            at,
        ) by {
            assert(all.contains(longer));
            assert(all[all.index_of(longer)] == longer);
        }
        assert(occurs_at(text, "@"@ + name, at));
    }
    if exists|at: int|
        #[trigger] occurs_at(text, "@"@ + name, at) && forall|longer: Seq<char>|
            #[trigger] is_member(members, longer) && longer.len() > name.len() ==> !occurs_at(
                text,
                "@"@ + longer,
                at,
            ) {
        let at = choose|at: int|
            #[trigger] occurs_at(text, "@"@ + name, at) && forall|longer: Seq<char>|
                #[trigger] is_member(members, longer) && longer.len() > name.len() ==> !occurs_at(
                    text,
                    "@"@ + longer,
                    at,
                );
        assert forall|k: int| 0 <= k < all.len() && (#[trigger] all[k]).len() > name.len() implies !occurs_at(
            text,
            "@"@ + all[k],
            at,
        ) by {
            assert(all.contains(all[k]));
            assert(is_member(members, all[k]));
        }
        assert(called_at(all, text, name, at));
    }
}

/// Whether an answer says that the discussion is over.
pub fn has_done(text: &str) -> (r: bool)
    ensures
        r == contains_text(text@, "[DONE]"@),
{
    contains_string(text, "[DONE]")
}

/// The position of the first white space, or the length.
pub open spec fn first_space(s: Seq<char>) -> int
    decreases s.len(),
{
    if s.len() == 0 || is_space(s[0]) {
        0
    } else {
        1 + first_space(s.drop_first())
    }
}

/// The text after the first white space.
pub open spec fn after_space(s: Seq<char>) -> Seq<char> {
    if first_space(s) < s.len() {
        s.skip(first_space(s) + 1)
    } else {
        Seq::empty()
    }
}

/// The member and the task in `@member task`.
pub open spec fn assignment(s: Seq<char>) -> Option<(Seq<char>, Seq<char>)> {
    match after_prefix(trim(s), "@"@) {
        None => None,
        Some(rest) => {
            let t = trim(rest);
            let to = t.take(first_space(t));
            let task = trim(after_space(t));
            if to.len() == 0 || task.len() == 0 {
                None
            } else {
                Some((to, task))
            }
        },
    }
}

/// The member and the task in the first `[DELEGATE @member task]` of a text.
pub open spec fn delegate_in(text: Seq<char>) -> Option<(Seq<char>, Seq<char>)> {
    match find_text(text, "[DELEGATE"@) {
        None => None,
        Some(start) => {
            let inner = text.skip(start + 9);
            if first_index(inner, ']') >= inner.len() {
                None
            } else {
                assignment(inner.take(first_index(inner, ']')))
            }
        },
    }
}

fn read_assignment(s: &str) -> (r: Option<(String, String)>)
    ensures
        match r {
            Some((to, task)) => assignment(s@) == Some((to@, task@)),
            None => assignment(s@) is None,
        },
{
    let t: String = trim_string(s);
    let rest: String = match strip_prefix(t.as_str(), "@") {
        Some(x) => x,
        None => {
            return None;
        },
    };
    let t: String = trim_string(rest.as_str());
    let v: Vec<char> = chars_of(t.as_str());
    let mut i: usize = 0;
    assert(v@.skip(0) =~= v@);
    while i < v.len() && !is_whitespace(v[i])
        invariant
            i <= v.len(),
            first_space(v@) == i + first_space(v@.skip(i as int)),
        decreases v.len() - i,
    {
        assert(v@.skip(i as int).drop_first() =~= v@.skip(i as int + 1));
        i += 1;
    }
    assert(first_space(v@) == i);
    let to: String = slice_of(v.as_slice(), 0, i);
    assert(to@ =~= t@.take(i as int));
    let after: String = if i < v.len() {
        slice_of(v.as_slice(), i + 1, v.len())
    } else {
        String::new()
    };
    assert(after@ =~= after_space(t@));
    let task: String = trim_string(after.as_str());
    if to.as_str().is_empty() || task.as_str().is_empty() {
        None
    } else {
        Some((to, task))
    }
}

/// The task that a lead hands on in an answer: `[DELEGATE @member task]`.
pub fn parse_delegate(text: &str) -> (r: Option<(String, String)>)
    ensures
        match r {
            Some((to, task)) => delegate_in(text@) == Some((to@, task@)),
            None => delegate_in(text@) is None,
        },
{
    let v: Vec<char> = chars_of(text);
    let start: usize = match find_string(text, "[DELEGATE") {
        Some(i) => i,
        None => {
            return None;
        },
    };
    proof {
        crate::text::lemma_find_from(text@, "[DELEGATE"@, 0);
        reveal_strlit("[DELEGATE");
        assert("[DELEGATE"@.len() == 9);
        assert(crate::text::occurs_at(text@, "[DELEGATE"@, start as int));
    }
    let len: usize = v.len();
    assert(start + 9 <= len);
    let from: usize = start + 9;
    let ghost inner = text@.skip(start + 9);
    let end: usize = index_from(v.as_slice(), ']', from);
    proof {
        crate::text::lemma_first_index(inner, ']');
    }
    if end >= len {
        return None;
    }
    let s: String = slice_of(v.as_slice(), from, end);
    assert(s@ =~= inner.take(first_index(inner, ']')));
    read_assignment(s.as_str())
}

// ---------- what members are told ----------

/// An event as members are told it; steps of a member's work are not told.
pub open spec fn told_event(e: EventView) -> Option<Seq<char>> {
    match e {
        EventView::MemberActivity { from, kind, text, ts } => None,
        EventView::Message { from, text, ts } => Some(from + ": "@ + text),
        EventView::Mention { from, text, ts, mentions } => Some(
            from + ": "@ + text + "（@"@ + join(mentions, " "@) + "）"@,
        ),
        EventView::Subtask { from, to, prompt, ts, state } => Some(
            "["@ + from + " → "@ + to + "] 子任务（"@ + state + "）："@ + prompt,
        ),
        EventView::Summary { text, ts } => Some("[小结] "@ + text),
        EventView::StateChange { from_state, to_state, ts } => Some("[状态] "@ + from_state + " → "@ + to_state),
        EventView::Error { text, ts } => Some("[错误] "@ + text),
    }
}

/// An event as a line of text; none for a step of a member's work.
pub fn event_text(e: &GroupEvent) -> (r: Option<String>)
    ensures
        opt_view(r) == told_event(e@),
{
    match e {
        GroupEvent::MemberActivity { .. } => None,
        GroupEvent::Message { from, text, .. } => {
            let mut s: String = from.clone();
            s.append(": ");
            s.append(text.as_str());
            Some(s)
        },
        GroupEvent::Mention { from, text, mentions, .. } => {
            let mut s: String = from.clone();
            s.append(": ");
            s.append(text.as_str());
            s.append("（@");
            let j: String = join_strings(mentions, " ");
            s.append(j.as_str());
            s.append("）");
            Some(s)
        },
        GroupEvent::Subtask { from, to, prompt, state, .. } => {
            let mut s: String = "[".to_string();
            s.append(from.as_str());
            s.append(" → ");
            s.append(to.as_str());
            s.append("] 子任务（");
            s.append(state.as_str());
            s.append("）：");
            s.append(prompt.as_str());
            Some(s)
        },
        GroupEvent::Summary { text, .. } => {
            let mut s: String = "[小结] ".to_string();
            s.append(text.as_str());
            Some(s)
        },
        GroupEvent::StateChange { from_state, to_state, .. } => {
            let mut s: String = "[状态] ".to_string();
            s.append(from_state.as_str());
            s.append(" → ");
            s.append(to_state.as_str());
            Some(s)
        },
        GroupEvent::Error { text, .. } => {
            let mut s: String = "[错误] ".to_string();
            s.append(text.as_str());
            Some(s)
        },
    }
}

/// The lines that members are told.
pub open spec fn told_lines(v: Seq<EventView>) -> Seq<Seq<char>>
    decreases v.len(),
{
    if v.len() == 0 {
        Seq::empty()
    } else {
        let before = told_lines(v.drop_last());
        match told_event(v.last()) {
            Some(t) => before.push(t),
            None => before,
        }
    }
}

/// The last items of a list.
pub open spec fn last_items(v: Seq<Seq<char>>, n: nat) -> Seq<Seq<char>> {
    if v.len() <= n {
        v
    } else {
        v.skip(v.len() - n)
    }
}

/// What members are told of the stream: its last lines, and of these the last
/// characters.
pub open spec fn context_of(v: Seq<EventView>, max_events: nat, max_chars: nat) -> Seq<char> {
    let s = join(last_items(told_lines(v), max_events), "\n"@);
    if s.len() <= max_chars {
        s
    } else {
        "……（前文省略）\n"@ + tail(s, max_chars)
    }
}

/// What members are told of the stream: its last `max_events` lines, and of
/// these at most the last `max_chars` characters.
pub fn stream_context(events: &Vec<GroupEvent>, max_events: usize, max_chars: usize) -> (r: String)
    ensures
        r@ == context_of(event_views(events@), max_events as nat, max_chars as nat),
{
    let ghost all = event_views(events@);
    let mut out: Vec<String> = Vec::new();
    let mut i: usize = 0;
    assert(strs(out@) =~= told_lines(all.take(0)));
    while i < events.len()
        invariant
            i <= events.len(),
            all == event_views(events@),
            strs(out@) == told_lines(all.take(i as int)),
        decreases events.len() - i,
    {
        let ghost before = strs(out@);
        proof {
            assert(all.take(i as int + 1).drop_last() =~= all.take(i as int));
            assert(all.take(i as int + 1).last() == events@[i as int]@);
        }
        if let Some(t) = event_text(&events[i]) {
            let ghost tv = t@;
            out.push(t);
            assert(strs(out@) =~= before.push(tv));
        }
        i += 1;
    }
    assert(all.take(i as int) =~= all);
    let ghost lines = strs(out@);
    let s: String = if out.len() <= max_events {
        join_strings(&out, "\n")
    } else {
        let at: usize = out.len() - max_events;
        let rest: Vec<String> = out.split_off(at);
        assert(strs(rest@) =~= last_items(lines, max_events as nat));
        join_strings(&rest, "\n")
    };
    if char_count(s.as_str()) <= max_chars {
        return s;
    }
    let mut r: String = "……（前文省略）\n".to_string();
    let t: String = tail_string(s.as_str(), max_chars);
    r.append(t.as_str());
    r
}

/// What members are told stays within the limit and its heading.
pub proof fn law_context_is_bounded(v: Seq<EventView>, max_events: nat, max_chars: nat)
    ensures
        context_of(v, max_events, max_chars).len() <= max_chars + "……（前文省略）\n"@.len(),
{
}

/// A line on a member.
pub open spec fn roster_line(m: Member) -> Seq<char> {
    "- "@ + m.name@ + "（"@ + (if m.display_name@.len() == 0 {
        m.name@
    } else {
        m.display_name@
    }) + "，"@ + m.role@ + "）"@
}

/// The lines on the members.
pub open spec fn roster(m: Seq<Member>) -> Seq<Seq<char>> {
    Seq::new(m.len(), |i: int| roster_line(m[i]))
}

fn roster_text(m: &Vec<Member>) -> (r: String)
    ensures
        r@ == join(roster(m@), "\n"@),
{
    let mut out: Vec<String> = Vec::new();
    let mut i: usize = 0;
    while i < m.len()
        invariant
            i <= m.len(),
            out@.len() == i,
            forall|k: int| 0 <= k < i ==> (#[trigger] out@[k])@ == roster_line(m@[k]),
        decreases m.len() - i,
    {
        let mut s: String = "- ".to_string();
        s.append(m[i].name.as_str());
        s.append("（");
        if m[i].display_name.as_str().is_empty() {
            s.append(m[i].name.as_str());
        } else {
            s.append(m[i].display_name.as_str());
        }
        s.append("，");
        s.append(m[i].role.as_str());
        s.append("）");
        out.push(s);
        i += 1;
    }
    assert(strs(out@) =~= roster(m@));
    join_strings(&out, "\n")
}

/// Whether a member leads.
pub open spec fn leads(m: Seq<Member>, name: Seq<char>) -> bool {
    exists|i: int| 0 <= i < m.len() && (#[trigger] m[i]).name@ == name && m[i].role@ == "lead"@
}

fn is_lead(m: &Vec<Member>, name: &str) -> (r: bool)
    ensures
        r == leads(m@, name@),
{
    let mut i: usize = 0;
    while i < m.len()
        invariant
            i <= m.len(),
            forall|j: int| 0 <= j < i ==> !((#[trigger] m@[j]).name@ == name@ && m@[j].role@ == "lead"@),
        decreases m.len() - i,
    {
        if str_eq(m[i].name.as_str(), name) && str_eq(m[i].role.as_str(), "lead") {
            assert(m@[i as int].name@ == name@);
            return true;
        }
        i += 1;
    }
    false
}

/// What a group talks about.
pub open spec fn topic_of(g: GroupConfig) -> Seq<char> {
    match g.task {
        Some(t) => t.topic@,
        None => "自由讨论"@,
    }
}

fn topic_text(g: &GroupConfig) -> (r: String)
    ensures
        r@ == topic_of(*g),
{
    match &g.task {
        Some(t) => t.topic.clone(),
        None => "自由讨论".to_string(),
    }
}

/// The tokens that a group may still use.
pub open spec fn budget_left(g: GroupConfig) -> nat {
    if g.settings.budget_tokens >= g.used_tokens {
        (g.settings.budget_tokens - g.used_tokens) as nat
    } else {
        0
    }
}

/// What a member is told before it speaks.
pub open spec fn member_prompt(g: GroupConfig, events: Seq<EventView>, name: Seq<char>) -> Seq<char> {
    "你正在参加群聊「"@ + g.title@ + "」，你的身份是成员 "@ + name + (if leads(g.members@, name) {
        "（lead）"@
    } else {
        Seq::empty()
    }) + "。\n\n【群成员】\n"@ + join(roster(g.members@), "\n"@) + "\n\n【当前 lead】"@ + (match lead_of(g.members@) {
        Some(l) => l,
        None => "无"@,
    }) + "\n【主题】"@ + topic_of(g) + "\n【进度】第 "@ + dec((g.round + 1) as nat) + "/"@ + dec(
        g.settings.max_rounds as nat,
    ) + " 轮，剩余 token 预算约 "@ + dec(budget_left(g)) + "\n\n【最近讨论记录】\n"@ + context_of(
        events,
        GROUP_CTX_EVENTS as nat,
        GROUP_CTX_CHARS as nat,
    ) + "\n\n【规则】\n1. 你是群聊中的 "@ + name + "，接续上下文讨论，不要重复别人说过的话。\n2. 可以 @成员名 点名追问（被点名者将优先发言）。\n3. 认为讨论已收敛时，在回复末尾单独输出 [DONE]。\n4. 如果你是 lead：先做规划，可用 [DELEGATE @成员名 任务描述] 派卡（需人批准后执行）。\n5. 回复控制在 300 字以内，直接说内容，不要客套。"@
}

/// What a member is told before it speaks.
pub fn build_member_prompt(g: &GroupConfig, events: &Vec<GroupEvent>, name: &str) -> (r: String)
    ensures
        r@ == member_prompt(*g, event_views(events@), name@),
{
    let mut s: String = "你正在参加群聊「".to_string();
    s.append(g.title.as_str());
    s.append("」，你的身份是成员 ");
    s.append(name);
    let note: &str = if is_lead(&g.members, name) {
        "（lead）"
    } else {
        ""
    };
    proof {
        reveal_strlit("");
        assert(""@ =~= Seq::<char>::empty());
    }
    s.append(note);
    s.append("。\n\n【群成员】\n");
    let roster: String = roster_text(&g.members);
    s.append(roster.as_str());
    s.append("\n\n【当前 lead】");
    let lead: String = match find_lead(&g.members) {
        Some(l) => l,
        None => "无".to_string(),
    };
    s.append(lead.as_str());
    s.append("\n【主题】");
    let topic: String = topic_text(g);
    s.append(topic.as_str());
    s.append("\n【进度】第 ");
    let round: String = dec_string(g.round as u64 + 1);
    s.append(round.as_str());
    s.append("/");
    let rounds: String = dec_string(g.settings.max_rounds as u64);
    s.append(rounds.as_str());
    s.append(" 轮，剩余 token 预算约 ");
    let left: u64 = if g.settings.budget_tokens >= g.used_tokens {
        g.settings.budget_tokens - g.used_tokens
    } else {
        0
    };
    let left_text: String = dec_string(left);
    s.append(left_text.as_str());
    s.append("\n\n【最近讨论记录】\n");
    let ctx: String = stream_context(events, GROUP_CTX_EVENTS, GROUP_CTX_CHARS);
    s.append(ctx.as_str());
    s.append("\n\n【规则】\n1. 你是群聊中的 ");
    s.append(name);
    s.append(
        "，接续上下文讨论，不要重复别人说过的话。\n2. 可以 @成员名 点名追问（被点名者将优先发言）。\n3. 认为讨论已收敛时，在回复末尾单独输出 [DONE]。\n4. 如果你是 lead：先做规划，可用 [DELEGATE @成员名 任务描述] 派卡（需人批准后执行）。\n5. 回复控制在 300 字以内，直接说内容，不要客套。",
    );
    s
}

/// What is asked for a summary.
pub open spec fn summary_words(g: GroupConfig, events: Seq<EventView>) -> Seq<char> {
    "以下是群聊「"@ + g.title@ + "」（主题："@ + topic_of(g) + "）的讨论记录：\n\n"@ + context_of(
        events,
        GROUP_CTX_EVENTS as nat,
        GROUP_CTX_CHARS as nat,
    ) + "\n\n请输出不超过 300 字的小结：达成的结论、未决分歧、后续行动。直接给小结正文。"@
}

/// What is asked for a summary.
pub fn build_summary_prompt(g: &GroupConfig, events: &Vec<GroupEvent>) -> (r: String)
    ensures
        r@ == summary_words(*g, event_views(events@)),
        r@ == "以下是群聊「"@ + g.title@ + "」（主题："@ + topic_of(*g) + "）的讨论记录：\n\n"@ + context_of(
            event_views(events@),
            GROUP_CTX_EVENTS as nat,
            GROUP_CTX_CHARS as nat,
        ) + "\n\n请输出不超过 300 字的小结：达成的结论、未决分歧、后续行动。直接给小结正文。"@,
{
    let mut s: String = "以下是群聊「".to_string();
    s.append(g.title.as_str());
    s.append("」（主题：");
    let topic: String = topic_text(g);
    s.append(topic.as_str());
    s.append("）的讨论记录：\n\n");
    let ctx: String = stream_context(events, GROUP_CTX_EVENTS, GROUP_CTX_CHARS);
    s.append(ctx.as_str());
    s.append("\n\n请输出不超过 300 字的小结：达成的结论、未决分歧、后续行动。直接给小结正文。");
    s
}

/// What is asked of a member for a task handed on.
pub fn subtask_prompt(g: &GroupConfig, events: &Vec<GroupEvent>, prompt: &str) -> (r: String)
    ensures
        r@ == "你在群聊「"@ + g.title@ + "」中被委任子任务：\n"@ + prompt@ + "\n\n最近群上下文：\n"@ + context_of(
            event_views(events@),
            GROUP_CTX_EVENTS as nat,
            GROUP_CTX_CHARS as nat,
        ) + "\n\n请执行该任务并给出结果汇报（300 字以内）。"@,
{
    let mut s: String = "你在群聊「".to_string();
    s.append(g.title.as_str());
    s.append("」中被委任子任务：\n");
    s.append(prompt);
    s.append("\n\n最近群上下文：\n");
    let ctx: String = stream_context(events, GROUP_CTX_EVENTS, GROUP_CTX_CHARS);
    s.append(ctx.as_str());
    s.append("\n\n请执行该任务并给出结果汇报（300 字以内）。");
    s
}

/// The step of a member's work that an event of its run shows, if any.
pub fn activity_of(from: &str, e: &AgentEvent, now: u64) -> (r: Option<GroupEvent>)
    ensures
        ({
            let act = |kind: Seq<char>, text: Seq<char>|
                Some(EventView::MemberActivity { from: from@, kind, text, ts: now });
            opt_event(r) == (match e@ {
                AgentEventView::Thinking(t) => act("thinking"@, t),
                AgentEventView::ToolCall { name, arguments } => act(
                    "tool_call"@,
                    json_printed(
                        JsonView::obj().with("name"@, JsonView::Str(name)).with(
                            "arguments"@,
                            JsonView::Str(arguments),
                        ),
                    ),
                ),
                AgentEventView::ToolResult { name, output } => act(
                    "tool_result"@,
                    json_printed(
                        JsonView::obj().with("name"@, JsonView::Str(name)).with("output"@, JsonView::Str(output)),
                    ),
                ),
                _ => None,
            })
        }),
{
    match e {
        AgentEvent::Thinking(t) => Some(
            GroupEvent::MemberActivity {
                from: from.to_string(),
                kind: "thinking".to_string(),
                text: t.clone(),
                ts: now,
            },
        ),
        AgentEvent::ToolCall { name, arguments } => {
            let j: Json = Json::obj().with("name", Json::text(name.as_str())).with(
                "arguments",
                Json::text(arguments.as_str()),
            );
            Some(
                GroupEvent::MemberActivity {
                    from: from.to_string(),
                    kind: "tool_call".to_string(),
                    text: print(&j),
                    ts: now,
                },
            )
        },
        AgentEvent::ToolResult { name, output } => {
            let j: Json = Json::obj().with("name", Json::text(name.as_str())).with(
                "output",
                Json::text(output.as_str()),
            );
            Some(
                GroupEvent::MemberActivity {
                    from: from.to_string(),
                    kind: "tool_result".to_string(),
                    text: print(&j),
                    ts: now,
                },
            )
        },
        _ => None,
    }
}

pub open spec fn opt_event(e: Option<GroupEvent>) -> Option<EventView> {
    match e {
        Some(x) => Some(x@),
        None => None,
    }
}

// ---------- founding and finding ----------

/// A group's name among the sessions: `group-` and a file name.
pub open spec fn is_group_sid(sid: Seq<char>) -> bool {
    match after_prefix(sid, "group-"@) {
        Some(rest) => is_file_name(rest),
        None => false,
    }
}

pub fn valid_group_sid(sid: &str) -> (r: bool)
    ensures
        r == is_group_sid(sid@),
{
    match strip_prefix(sid, "group-") {
        Some(rest) => valid_name(rest.as_str()),
        None => false,
    }
}

/// The directory of a group among the sessions.
pub fn group_dir_path(session_dir: &str, sid: &str) -> (r: String)
    ensures
        r@ == path_join(session_dir@, sid@),
{
    join_path(session_dir, sid)
}

/// The name of every new group is a valid one.
pub proof fn law_new_group_has_valid_sid(id: Seq<char>)
    requires
        uuid_shape(id),
    ensures
        is_group_sid("group-"@ + id),
{
    let sid = "group-"@ + id;
    reveal_strlit("group-");
    reveal_strlit("..");
    assert(sid.take("group-"@.len() as int) =~= "group-"@);
    assert(sid.skip("group-"@.len() as int) =~= id);
    assert(crate::text::occurs_at(sid, "group-"@, 0));
    assert forall|i: int| 0 <= i < id.len() implies crate::console::file_char(#[trigger] id[i]) by {}
    assert forall|i: int| !crate::text::occurs_at(id, ".."@, i) by {
        if crate::text::occurs_at(id, ".."@, i) {
            let w = id.subrange(i, i + 2);
            assert(w[0] == ".."@[0]);
            assert(w[0] == id[i]);
            assert(id[i] == '.');
        }
    }
}

/// Finds a group by its name; `there` tells whether its record can be read.
pub fn resolve_group(sid: &str, there: bool) -> (r: Result<(), String>)
    ensures
        match r {
            Ok(_) => is_group_sid(sid@) && there,
            Err(e) => if !is_group_sid(sid@) {
                e@ == "ERROR: 非法群 id"@
            } else {
                !there && e@ == "ERROR: 群不存在："@ + sid@
            },
        },
{
    if !valid_group_sid(sid) {
        return Err("ERROR: 非法群 id".to_string());
    }
    if !there {
        let mut e: String = "ERROR: 群不存在：".to_string();
        e.append(sid);
        return Err(e);
    }
    Ok(())
}

/// What is wrong with the first agent that cannot be a member, if any.
pub open spec fn invited_error(v: Seq<NamePair>, known: Seq<Seq<char>>) -> Option<Seq<char>>
    decreases v.len(),
{
    if v.len() == 0 {
        None
    } else {
        match invited_error(v.drop_last(), known) {
            Some(e) => Some(e),
            None => if v.last().0 == MAIN@ {
                Some("ERROR: main（主Agent）由系统自动加入，无需指定"@)
            } else if !known.contains(v.last().0) {
                Some("ERROR: agent 不存在："@ + v.last().0)
            } else {
                None
            },
        }
    }
}

/// The main agent and those invited.
pub open spec fn with_main(v: Seq<NamePair>) -> Seq<NamePair> {
    seq![(MAIN@, "小JOE（主Agent）"@)] + v
}

/// Why a group cannot be founded from the console, if so.
pub open spec fn create_error(title: Seq<char>, v: Seq<NamePair>, known: Seq<Seq<char>>) -> Option<Seq<char>> {
    if trim(title).len() == 0 {
        Some("ERROR: 群标题不能为空"@)
    } else if v.len() == 0 {
        Some("ERROR: 至少 1 个 agent 分身"@)
    } else {
        match invited_error(v, known) {
            Some(e) => Some(e),
            None => group_error(with_main(v)),
        }
    }
}

proof fn lemma_first_invited(v: Seq<NamePair>, known: Seq<Seq<char>>, k: int)
    requires
        0 <= k <= v.len(),
        invited_error(v.take(k), known) is Some,
    ensures
        invited_error(v, known) == invited_error(v.take(k), known),
    decreases v.len() - k,
{
    if k < v.len() {
        assert(v.take(k + 1).drop_last() =~= v.take(k));
        lemma_first_invited(v, known, k + 1);
    } else {
        assert(v.take(k) =~= v);
    }
}

/// Founds a group from the console: the main agent is added, and the others
/// must be agents that are known. Gives the group's name among the sessions,
/// its record and the first event of its stream.
pub fn do_group_create(title: &str, members: &Vec<(String, String)>, known: &Vec<String>) -> (r: Result<
    (String, GroupConfig, GroupEvent),
    String,
>)
    ensures
        match r {
            Ok((sid, g, e)) => {
                &&& create_error(title@, name_pairs(members@), strs(known@)) is None
                &&& uuid_shape(g.id@)
                &&& founded(g, g.id@, title@, with_main(name_pairs(members@)), g.created_ts)
                &&& sid@ == "group-"@ + g.id@
                &&& e@ == (EventView::StateChange {
                    from_state: "idle"@,
                    to_state: "idle"@,
                    ts: crate::groups::event_ts(e@),
                })
            },
            Err(e) => create_error(title@, name_pairs(members@), strs(known@)) == Some(e@),
        },
{
    let ghost all = name_pairs(members@);
    let t: String = trim_string(title);
    if t.as_str().is_empty() {
        return Err("ERROR: 群标题不能为空".to_string());
    }
    if members.len() == 0 {
        return Err("ERROR: 至少 1 个 agent 分身".to_string());
    }
    let mut list: Vec<(&str, &str)> = Vec::new();
    list.push((MAIN, "小JOE（主Agent）"));
    let mut i: usize = 0;
    assert(pairs(list@) =~= with_main(all.take(0)));
    while i < members.len()
        invariant
            i <= members.len(),
            members.len() > 0,
            trim(title@).len() > 0,
            all == name_pairs(members@),
            invited_error(all.take(i as int), strs(known@)) is None,
            pairs(list@) == with_main(all.take(i as int)),
        decreases members.len() - i,
    {
        let ghost before = pairs(list@);
        proof {
            assert(all.take(i as int + 1).drop_last() =~= all.take(i as int));
            assert(all.take(i as int + 1).last() == (members@[i as int].0@, members@[i as int].1@));
        }
        let name: &str = members[i].0.as_str();
        if str_eq(name, MAIN) {
            proof {
                lemma_first_invited(all, strs(known@), i as int + 1);
            }
            return Err("ERROR: main（主Agent）由系统自动加入，无需指定".to_string());
        }
        if !list_has(known, name) {
            let mut e: String = "ERROR: agent 不存在：".to_string();
            e.append(name);
            proof {
                lemma_first_invited(all, strs(known@), i as int + 1);
            }
            return Err(e);
        }
        list.push((name, members[i].1.as_str()));
        assert(pairs(list@) =~= before.push((name@, members@[i as int].1@)));
        assert(pairs(list@) =~= with_main(all.take(i as int + 1)));
        i += 1;
    }
    assert(all.take(i as int) =~= all);
    match create_group(title, list.as_slice()) {
        Err(e) => Err(e),
        Ok(g) => {
            let mut sid: String = "group-".to_string();
            sid.append(g.id.as_str());
            let e: GroupEvent = GroupEvent::StateChange {
                from_state: "idle".to_string(),
                to_state: "idle".to_string(),
                ts: crate::groups::now_ts(),
            };
            Ok((sid, g, e))
        },
    }
}

// ---------- steps of the discussion ----------

/// Counts the tokens of a turn on a group's record, as it was loaded; where it
/// cannot be read nothing is counted. `false` means that the budget is used
/// up.
pub fn group_add_tokens(loaded: Option<GroupConfig>, n: u64) -> (r: (Option<GroupConfig>, bool))
    ensures
        match loaded {
            None => r.0 is None && r.1,
            Some(g) => {
                &&& r.0 == Some(GroupConfig { used_tokens: sat_add(g.used_tokens, n), ..g })
                &&& r.1 == (sat_add(g.used_tokens, n) <= g.settings.budget_tokens)
            },
        },
{
    match loaded {
        None => (None, true),
        Some(g) => {
            let mut h = g;
            let ok: bool = add_tokens(&mut h, n);
            (Some(h), ok)
        },
    }
}

/// A record to save, if any, and the events to append.
#[derive(Debug)]
pub struct GroupStep {
    pub saved: Option<GroupConfig>,
    pub events: Vec<GroupEvent>,
}

/// The event of a failure.
pub open spec fn failure(text: Seq<char>, ts: u64) -> EventView {
    EventView::Error { text, ts }
}

/// Whether a group, as it was loaded, can pause.
pub open spec fn can_pause(loaded: Option<GroupConfig>) -> bool {
    loaded is Some && may_move(loaded->0.state@, "paused"@)
}

/// The record of a group that paused.
pub open spec fn is_paused(g: GroupConfig, h: GroupConfig) -> bool {
    h.state@ == "paused"@ && h == (GroupConfig { state: h.state, ..g })
}

/// The events of a pause, for a reason.
pub open spec fn pause_events(loaded: Option<GroupConfig>, why: Seq<char>, now: u64) -> Seq<EventView> {
    if can_pause(loaded) {
        seq![
            EventView::StateChange { from_state: loaded->0.state@, to_state: "paused"@, ts: now },
            failure(why, now),
        ]
    } else {
        seq![failure(why, now)]
    }
}

fn pause(loaded: Option<GroupConfig>, why: &str, now: u64) -> (r: GroupStep)
    ensures
        event_views(r.events@) == pause_events(loaded, why@, now),
        match r.saved {
            Some(h) => can_pause(loaded) && is_paused(loaded->0, h),
            None => !can_pause(loaded),
        },
{
    let mut events: Vec<GroupEvent> = Vec::new();
    let mut saved: Option<GroupConfig> = None;
    if let Ok((h, e)) = set_state(loaded, "paused", now) {
        events.push(e);
        saved = Some(h);
    }
    let ghost before = event_views(events@);
    let last: GroupEvent = GroupEvent::Error { text: why.to_string(), ts: now };
    let ghost lv = last@;
    events.push(last);
    assert(event_views(events@) =~= before.push(lv));
    assert(event_views(events@) =~= pause_events(loaded, why@, now));
    GroupStep { saved, events }
}

/// Pauses a group whose budget is used up.
pub fn group_pause_budget(loaded: Option<GroupConfig>, now: u64) -> (r: GroupStep)
    ensures
        event_views(r.events@) == pause_events(loaded, "预算耗尽，等待续期"@, now),
        match r.saved {
            Some(h) => can_pause(loaded) && is_paused(loaded->0, h),
            None => !can_pause(loaded),
        },
{
    pause(loaded, "预算耗尽，等待续期", now)
}

/// Notes the failure number `streak` in a row; the third pauses the group.
/// `true` means that the discussion is over for now.
pub fn group_note_failure(loaded: Option<GroupConfig>, streak: u32, err: &str, now: u64) -> (r: (GroupStep, bool))
    ensures
        r.1 == (streak >= GROUP_MAX_FAIL_STREAK),
        if r.1 {
            &&& event_views(r.0.events@) == seq![failure(err@, now)] + pause_events(
                loaded,
                "连续 3 次模型调用失败，群已自动暂停"@,
                now,
            )
            &&& match r.0.saved {
                Some(h) => can_pause(loaded) && is_paused(loaded->0, h),
                None => !can_pause(loaded),
            }
        } else {
            event_views(r.0.events@) == seq![failure(err@, now)] && r.0.saved is None
        },
{
    let first: GroupEvent = GroupEvent::Error { text: err.to_string(), ts: now };
    let ghost fv = first@;
    if streak < GROUP_MAX_FAIL_STREAK {
        let mut events: Vec<GroupEvent> = Vec::new();
        events.push(first);
        assert(event_views(events@) =~= seq![fv]);
        return (GroupStep { saved: None, events }, false);
    }
    let step: GroupStep = pause(loaded, "连续 3 次模型调用失败，群已自动暂停", now);
    let ghost pv = event_views(step.events@);
    let mut events = step.events;
    events.insert(0, first);
    assert(event_views(events@) =~= seq![fv] + pv);
    (GroupStep { saved: step.saved, events }, true)
}

/// What a turn starts with.
#[derive(Debug)]
pub enum TurnStart {
    /// Nobody speaks; the record is saved where one is given.
    End(Option<GroupConfig>),
    /// The member speaks; the record is saved.
    Speak { group: GroupConfig, name: String },
}

/// The member that speaks next: behind the present speaker, or, where that one
/// is alone, from the start.
pub open spec fn turn_speaker(g: GroupConfig) -> Option<Seq<char>> {
    match next_of(speaking_order(g), opt_view(g.speaking), None) {
        Some(n) => Some(n),
        None => next_of(speaking_order(g), None, None),
    }
}

/// The record `h` while a member speaks in a group with the record `g`.
pub open spec fn turn_begun(g: GroupConfig, h: GroupConfig, name: Seq<char>) -> bool {
    opt_view(h.speaking) == Some(name) && h == (GroupConfig { speaking: h.speaking, ..g })
}

/// Starts a turn on a group's record, as it was loaded: only a group that
/// discusses has one.
pub fn start_turn(loaded: Option<GroupConfig>) -> (r: TurnStart)
    ensures
        match loaded {
            None => r == TurnStart::End(None),
            Some(g) => if g.state@ != "discussing"@ {
                r == TurnStart::End(None)
            } else {
                match turn_speaker(g) {
                    Some(n) => r is Speak && r->name@ == n && turn_begun(g, r->group, n),
                    None => r == TurnStart::End(Some(GroupConfig { speaking: None, ..g })),
                }
            },
        },
{
    match loaded {
        None => TurnStart::End(None),
        Some(g) => {
            if !str_eq(g.state.as_str(), "discussing") {
                return TurnStart::End(None);
            }
            let mut h = g;
            let name: Option<String> = match next_speaker(&h, None) {
                Some(n) => Some(n),
                None => {
                    h.speaking = None;
                    next_speaker(&h, None)
                },
            };
            match name {
                Some(n) => {
                    h.speaking = Some(n.clone());
                    TurnStart::Speak { group: h, name: n }
                },
                None => TurnStart::End(Some(h)),
            }
        },
    }
}

/// How a member failed to speak.
#[derive(Debug)]
pub enum TurnFailure {
    Session(String),
    Prompt(String),
    Timeout,
}

/// What is told of a member that failed to speak.
pub open spec fn turn_failure_text(name: Seq<char>, f: TurnFailure) -> Seq<char> {
    match f {
        TurnFailure::Session(e) => "成员 "@ + name + " 会话创建失败："@ + e@,
        TurnFailure::Prompt(e) => "成员 "@ + name + " 发言失败："@ + e@,
        TurnFailure::Timeout => "成员 "@ + name + " 发言超时"@,
    }
}

/// The event of what somebody said.
pub open spec fn said(from: Seq<char>, text: Seq<char>, mentions: Seq<Seq<char>>, now: u64) -> EventView {
    if mentions.len() == 0 {
        EventView::Message { from, text, ts: now }
    } else {
        EventView::Mention { from, text, ts: now, mentions }
    }
}

fn said_event(from: &str, text: &str, mentions: &Vec<String>, now: u64) -> (r: GroupEvent)
    ensures
        r@ == said(from@, text@, strs(mentions@), now),
{
    if mentions.len() == 0 {
        GroupEvent::Message { from: from.to_string(), text: text.to_string(), ts: now }
    } else {
        GroupEvent::Mention {
            from: from.to_string(),
            text: text.to_string(),
            ts: now,
            mentions: crate::text::clone_list(mentions),
        }
    }
}

/// Whether the group has a member with this name.
pub open spec fn is_member(m: Seq<Member>, name: Seq<char>) -> bool {
    exists|i: int| 0 <= i < m.len() && (#[trigger] m[i]).name@ == name
}

fn has_member(m: &Vec<Member>, name: &str) -> (r: bool)
    ensures
        r == is_member(m@, name@),
{
    let mut i: usize = 0;
    while i < m.len()
        invariant
            i <= m.len(),
            forall|j: int| 0 <= j < i ==> (#[trigger] m@[j]).name@ != name@,
        decreases m.len() - i,
    {
        if str_eq(m[i].name.as_str(), name) {
            return true;
        }
        i += 1;
    }
    false
}

/// The events of an answer: what was said, and the task that it hands on to a
/// member, which waits for approval.
pub open spec fn answer_events(g: GroupConfig, name: Seq<char>, text: Seq<char>, now: u64) -> Seq<EventView> {
    let first = said(name, text, mentions_in(text, g.members@), now);
    match delegate_in(text) {
        Some((to, task)) => if is_member(g.members@, to) {
            seq![
                first,
                EventView::Subtask { from: name, to, prompt: task, ts: now, state: "pending"@ },
            ]
        } else {
            seq![first]
        },
        None => seq![first],
    }
}

/// Takes a member's answer: the events to append, and the member who was
/// called on first, if it is another one.
pub fn take_answer(g: &GroupConfig, name: &str, text: &str, now: u64) -> (r: (Vec<GroupEvent>, Option<String>))
    ensures
        event_views(r.0@) == answer_events(*g, name@, text@, now),
        ({
            let m = mentions_in(text@, g.members@);
            opt_view(r.1) == (if m.len() > 0 && m[0] != name@ {
                Some(m[0])
            } else {
                None
            })
        }),
{
    let mentions: Vec<String> = parse_mentions(text, g);
    let first: GroupEvent = said_event(name, text, &mentions, now);
    let ghost fv = first@;
    let mut events: Vec<GroupEvent> = Vec::new();
    events.push(first);
    assert(event_views(events@) =~= seq![fv]);
    if let Some((to, task)) = parse_delegate(text) {
        if has_member(&g.members, to.as_str()) {
            let e: GroupEvent = GroupEvent::Subtask {
                from: name.to_string(),
                to,
                prompt: task,
                ts: now,
                state: "pending".to_string(),
            };
            let ghost ev = e@;
            events.push(e);
            assert(event_views(events@) =~= seq![fv, ev]);
        }
    }
    let next: Option<String> = if mentions.len() > 0 && !str_eq(mentions[0].as_str(), name) {
        assert(strs(mentions@)[0] == mentions@[0]@);
        Some(mentions[0].clone())
    } else {
        assert(mentions@.len() > 0 ==> strs(mentions@)[0] == mentions@[0]@);
        None
    };
    (events, next)
}

/// Lets a member speak next on a group's record, as it was loaded; the record
/// to save, if that is possible.
pub fn call_next(loaded: Option<GroupConfig>, target: &str) -> (r: Option<GroupConfig>)
    ensures
        match loaded {
            None => r is None,
            Some(g) => match before_target(speaking_order(g), target@) {
                Some(sp) => r is Some && opt_view(r->0.speaking) == Some(sp) && r->0 == (GroupConfig {
                    speaking: r->0.speaking,
                    ..g
                }),
                None => r is None,
            },
        },
{
    match loaded {
        None => None,
        Some(g) => match speaking_to_force_next(&g, target) {
            Some(sp) => {
                let mut h = g;
                h.speaking = Some(sp);
                Some(h)
            },
            None => None,
        },
    }
}

/// The tokens of a turn: as they were reported, else a quarter of the
/// characters that were told and answered.
pub fn turn_tokens(input: u64, output: u64, prompt: &str, text: &str) -> (r: u64)
    requires
        input + output <= u64::MAX,
    ensures
        r == (if input + output > 0 {
            (input + output) as int
        } else {
            (prompt@.len() + text@.len()) as int / 4
        }),
{
    if input + output > 0 {
        input + output
    } else {
        let n: u128 = char_count(prompt) as u128 + char_count(text) as u128;
        proof {
            assert(n <= 2 * usize::MAX);
            assert(n / 4 <= u64::MAX) by (nonlinear_arith)
                requires
                    n <= 0x1_FFFF_FFFF_FFFF_FFFE,
            ;
        }
        (n / 4) as u64
    }
}

/// Takes a group's record, as it was loaded, to the next round. `true` means
/// that the rounds are used up.
pub fn next_round(g: GroupConfig) -> (r: (GroupConfig, bool))
    requires
        g.round < u32::MAX - 1,
    ensures
        r.0 == (GroupConfig { round: (g.round + 1) as u32, ..g }),
        r.1 == (g.round + 2 > g.settings.max_rounds),
{
    let mut h = g;
    h.round = h.round + 1;
    let over: bool = h.round + 1 > h.settings.max_rounds;
    (h, over)
}

/// What a discussion keeps between turns: the failures in a row and who spoke
/// in the present round.
#[derive(Debug)]
pub struct GroupTurns {
    streak: u32,
    spoke: Vec<String>,
}

/// What is kept between turns.
pub struct TurnsView {
    pub streak: u32,
    pub spoke: Seq<Seq<char>>,
}

/// The failures in a row with one more.
pub open spec fn one_more(streak: u32) -> u32 {
    if streak < u32::MAX {
        (streak + 1) as u32
    } else {
        u32::MAX
    }
}

impl View for GroupTurns {
    type V = TurnsView;

    closed spec fn view(&self) -> TurnsView {
        TurnsView { streak: self.streak, spoke: strs(self.spoke@) }
    }
}

/// The speakers of a round with one more.
pub open spec fn also(spoke: Seq<Seq<char>>, name: Seq<char>) -> Seq<Seq<char>> {
    if spoke.contains(name) {
        spoke
    } else {
        spoke.push(name)
    }
}

impl GroupTurns {
    pub fn new() -> (r: GroupTurns)
        ensures
            r@.streak == 0,
            r@.spoke == Seq::<Seq<char>>::empty(),
    {
        let r: GroupTurns = GroupTurns { streak: 0, spoke: Vec::new() };
        assert(r@.spoke =~= Seq::<Seq<char>>::empty());
        r
    }

    /// Notes that a member failed to speak.
    pub fn failed(&mut self, loaded: Option<GroupConfig>, name: &str, f: &TurnFailure, now: u64) -> (r: (
        GroupStep,
        bool,
    ))
        ensures
            final(self)@.streak == one_more(old(self)@.streak),
            final(self)@.spoke == old(self)@.spoke,
            r.1 == (final(self)@.streak >= GROUP_MAX_FAIL_STREAK),
            if r.1 {
                &&& event_views(r.0.events@) == seq![failure(turn_failure_text(name@, *f), now)] + pause_events(
                    loaded,
                    "连续 3 次模型调用失败，群已自动暂停"@,
                    now,
                )
                &&& match r.0.saved {
                    Some(h) => can_pause(loaded) && is_paused(loaded->0, h),
                    None => !can_pause(loaded),
                }
            } else {
                event_views(r.0.events@) == seq![failure(turn_failure_text(name@, *f), now)] && r.0.saved is None
            },
    {
        self.streak = self.streak.saturating_add(1);
        let mut text: String = "成员 ".to_string();
        text.append(name);
        match f {
            TurnFailure::Session(e) => {
                text.append(" 会话创建失败：");
                text.append(e.as_str());
            },
            TurnFailure::Prompt(e) => {
                text.append(" 发言失败：");
                text.append(e.as_str());
            },
            TurnFailure::Timeout => {
                text.append(" 发言超时");
            },
        }
        group_note_failure(loaded, self.streak, text.as_str(), now)
    }

    /// Notes that a member answered.
    pub fn answered(&mut self)
        ensures
            final(self)@.streak == 0,
            final(self)@.spoke == old(self)@.spoke,
    {
        self.streak = 0;
    }

    /// Notes who spoke; `true` means that everybody spoke and a new round
    /// begins.
    pub fn spoke(&mut self, name: &str, members: usize) -> (r: bool)
        ensures
            final(self)@.streak == old(self)@.streak,
            r == (also(old(self)@.spoke, name@).len() >= members),
            final(self)@.spoke == (if r {
                Seq::<Seq<char>>::empty()
            } else {
                also(old(self)@.spoke, name@)
            }),
    {
        let ghost before = strs(self.spoke@);
        if !list_has(&self.spoke, name) {
            self.spoke.push(name.to_string());
            assert(strs(self.spoke@) =~= before.push(name@));
        }
        if self.spoke.len() >= members {
            self.spoke = Vec::new();
            assert(strs(self.spoke@) =~= Seq::<Seq<char>>::empty());
            true
        } else {
            false
        }
    }
}

/// How a turn goes on.
#[derive(Debug, Clone, Copy, PartialEq, Eq, Structural)]
pub enum TurnEnd {
    NextTurn,
    PauseBudget,
    Summarize,
}

/// How a turn goes on: a used-up budget comes first, then the end of the
/// rounds, then the word that the discussion is over.
pub fn turn_end(within_budget: bool, rounds_over: bool, text: &str) -> (r: TurnEnd)
    ensures
        r == (if !within_budget {
            TurnEnd::PauseBudget
        } else if rounds_over || contains_text(text@, "[DONE]"@) {
            TurnEnd::Summarize
        } else {
            TurnEnd::NextTurn
        }),
{
    if !within_budget {
        TurnEnd::PauseBudget
    } else if rounds_over || has_done(text) {
        TurnEnd::Summarize
    } else {
        TurnEnd::NextTurn
    }
}

/// What follows a member's answer.
#[derive(Debug)]
pub struct AnswerStep {
    /// The events to append.
    pub events: Vec<GroupEvent>,
    /// The record to save, if it could be read.
    pub saved: Option<GroupConfig>,
    pub end: TurnEnd,
}

/// The member that an answer calls on first, if it is another one.
pub open spec fn called_first(g: GroupConfig, name: Seq<char>, text: Seq<char>) -> Option<Seq<char>> {
    let m = mentions_in(text, g.members@);
    if m.len() > 0 && m[0] != name {
        Some(m[0])
    } else {
        None
    }
}

/// Who counts as speaking after an answer: as before, or so that the member who
/// was called on is next.
pub open spec fn speaking_after(g: GroupConfig, call: Option<Seq<char>>) -> Option<Seq<char>> {
    match call {
        Some(t) => match before_target(speaking_order(g), t) {
            Some(sp) => Some(sp),
            None => opt_view(g.speaking),
        },
        None => opt_view(g.speaking),
    }
}

/// Whether a group is within its budget after more tokens; where its record
/// cannot be read, it is.
pub open spec fn within(loaded: Option<GroupConfig>, tokens: u64) -> bool {
    match loaded {
        Some(g) => sat_add(g.used_tokens, tokens) <= g.settings.budget_tokens,
        None => true,
    }
}

/// Whether the answer was the last of the last round.
pub open spec fn rounds_over(loaded: Option<GroupConfig>, all_spoke: bool) -> bool {
    all_spoke && loaded is Some && loaded->0.round + 2 > loaded->0.settings.max_rounds
}

/// The record after an answer.
pub open spec fn answered_record(
    g: GroupConfig,
    h: GroupConfig,
    call: Option<Seq<char>>,
    tokens: u64,
    all_spoke: bool,
) -> bool {
    let ok = within(Some(g), tokens);
    &&& h == (GroupConfig {
        state: h.state,
        speaking: h.speaking,
        round: h.round,
        used_tokens: sat_add(g.used_tokens, tokens),
        ..g
    })
    &&& opt_view(h.speaking) == speaking_after(g, call)
    &&& h.round == (if ok && all_spoke {
        g.round + 1
    } else {
        g.round as int
    })
    &&& h.state@ == (if !ok && may_move(g.state@, "paused"@) {
        "paused"@
    } else {
        g.state@
    })
}

/// What a member's answer does, out of the record as it was when the turn began
/// and as it is now: to what is kept between turns, to the record, and to how
/// the discussion goes on.
pub open spec fn turn_taken(
    spoken: GroupConfig,
    loaded: Option<GroupConfig>,
    name: Seq<char>,
    text: Seq<char>,
    tokens: u64,
    kept: TurnsView,
    kept_then: TurnsView,
    saved: Option<GroupConfig>,
    end: TurnEnd,
) -> bool {
    let ok = within(loaded, tokens);
    let all_spoke = also(kept.spoke, name).len() >= spoken.members@.len();
    let call = called_first(spoken, name, text);
    &&& match (loaded, saved) {
        (None, None) => true,
        (Some(g), Some(h)) => answered_record(g, h, call, tokens, all_spoke),
        _ => false,
    }
    &&& end == (if !ok {
        TurnEnd::PauseBudget
    } else if rounds_over(loaded, all_spoke) || contains_text(text, "[DONE]"@) {
        TurnEnd::Summarize
    } else {
        TurnEnd::NextTurn
    })
    &&& kept_then.streak == 0
    &&& kept_then.spoke == (if !ok {
        kept.spoke
    } else if all_spoke {
        Seq::<Seq<char>>::empty()
    } else {
        also(kept.spoke, name)
    })
}

impl GroupTurns {
    /// Takes a member's answer on the record as it was when the turn began and
    /// as it is now: the answer's events, the member who was called on, the
    /// tokens, the round, and how the discussion goes on.
    pub fn take_turn(
        &mut self,
        spoken: &GroupConfig,
        loaded: Option<GroupConfig>,
        name: &str,
        text: &str,
        tokens: u64,
        now: u64,
    ) -> (r: AnswerStep)
        requires
            loaded is Some ==> loaded->0.round < u32::MAX - 1,
        ensures
            ({
                &&& event_views(r.events@) == answer_events(*spoken, name@, text@, now) + (if within(
                    loaded,
                    tokens,
                ) {
                    Seq::empty()
                } else {
                    pause_events(loaded, "预算耗尽，等待续期"@, now)
                })
                &&& turn_taken(*spoken, loaded, name@, text@, tokens, old(self)@, final(self)@, r.saved, r.end)
            }),
    {
        self.answered();
        let (mut events, call) = take_answer(spoken, name, text, now);
        let ghost first = event_views(events@);
        let mut record: Option<GroupConfig> = None;
        if let Some(g) = loaded {
            let mut h = g;
            if let Some(t) = &call {
                if let Some(sp) = speaking_to_force_next(&h, t.as_str()) {
                    h.speaking = Some(sp);
                }
            }
            record = Some(h);
        }
        let (counted, ok) = group_add_tokens(record, tokens);
        if !ok {
            let GroupStep { saved, events: more } = match counted {
                Some(h) => {
                    if crate::groups::state_allowed(h.state.as_str(), "paused") {
                        group_pause_budget(Some(h), now)
                    } else {
                        let mut only: Vec<GroupEvent> = Vec::new();
                        only.push(GroupEvent::Error { text: "预算耗尽，等待续期".to_string(), ts: now });
                        assert(event_views(only@) =~= pause_events(Some(h), "预算耗尽，等待续期"@, now));
                        GroupStep { saved: Some(h), events: only }
                    }
                },
                None => group_pause_budget(None, now),
            };
            let ghost mv = event_views(more@);
            let mut more2 = more;
            events.append(&mut more2);
            assert(event_views(events@) =~= first + mv);
            return AnswerStep { events, saved, end: TurnEnd::PauseBudget };
        }
        let all_spoke: bool = self.spoke(name, spoken.members.len());
        let mut over: bool = false;
        let saved: Option<GroupConfig> = match counted {
            Some(h) => {
                if all_spoke {
                    let (h2, last) = next_round(h);
                    over = last;
                    Some(h2)
                } else {
                    Some(h)
                }
            },
            None => None,
        };
        let end: TurnEnd = turn_end(true, over, text);
        assert(event_views(events@) =~= first + Seq::<EventView>::empty());
        AnswerStep { events, saved, end }
    }
}

proof fn lemma_may_move_paused(from: Seq<char>)
    ensures
        may_move(from, "paused"@) == (from == "discussing"@),
{
    crate::groups::lemma_state_names();
}

/// The third failure in a row ends the turns, and no earlier one does; a group
/// that discusses is then paused.
pub proof fn law_third_failure_pauses(streaks: Seq<u32>, i: int, g: GroupConfig)
    requires
        0 <= i < streaks.len(),
        streaks[0] == 0,
        forall|k: int| 0 < k < streaks.len() ==> #[trigger] streaks[k] == one_more(streaks[k - 1]),
        g.state@ == "discussing"@,
    ensures
        streaks[i] >= GROUP_MAX_FAIL_STREAK <==> i >= 3,
        can_pause(Some(g)),
{
    lemma_may_move_paused(g.state@);
    lemma_streak(streaks, i);
}

proof fn lemma_streak(streaks: Seq<u32>, i: int)
    requires
        0 <= i < streaks.len(),
        streaks[0] == 0,
        forall|k: int| 0 < k < streaks.len() ==> #[trigger] streaks[k] == one_more(streaks[k - 1]),
    ensures
        streaks[i] == (if i < u32::MAX {
            i
        } else {
            u32::MAX as int
        }),
    decreases i,
{
    if i > 0 {
        lemma_streak(streaks, i - 1);
        assert(streaks[i] == one_more(streaks[i - 1]));
    }
}

/// A turn of a discussion that goes on: it used tokens and stayed within the
/// budget.
pub open spec fn paid_turn(g: GroupConfig, h: GroupConfig, tokens: u64) -> bool {
    &&& tokens > 0
    &&& within(Some(g), tokens)
    &&& exists|call: Option<Seq<char>>, all_spoke: bool| answered_record(g, h, call, tokens, all_spoke)
}

/// A discussion cannot go on for ever: it has no more turns than its budget has
/// tokens left, as long as the budget is not the greatest number there is.
pub proof fn law_budget_bounds_the_turns(records: Seq<GroupConfig>, tokens: Seq<u64>)
    requires
        records.len() == tokens.len() + 1,
        records[0].settings.budget_tokens < u64::MAX,
        forall|i: int| 0 <= i < tokens.len() ==> paid_turn(records[i], records[i + 1], #[trigger] tokens[i]),
    ensures
        tokens.len() <= budget_left(records[0]),
    decreases tokens.len(),
{
    if tokens.len() > 0 {
        let g = records[0];
        let h = records[1];
        assert(paid_turn(records[0], records[1], tokens[0]));
        let (call, all_spoke) = choose|call: Option<Seq<char>>, all_spoke: bool|
            answered_record(g, h, call, tokens[0], all_spoke);
        assert(h.settings == g.settings);
        assert(h.used_tokens == sat_add(g.used_tokens, tokens[0]));
        let rs = records.drop_first();
        let ts = tokens.drop_first();
        assert forall|i: int| 0 <= i < ts.len() implies paid_turn(rs[i], rs[i + 1], #[trigger] ts[i]) by {
            assert(paid_turn(records[i + 1], records[i + 2], tokens[i + 1]));
        }
        law_budget_bounds_the_turns(rs, ts);
        assert(budget_left(h) < budget_left(g));
    }
}

// ---------- a whole discussion ----------

/// The members of a group take turns: its order names each of them once.
pub open spec fn takes_turns(g: GroupConfig) -> bool {
    let order = strs(g.settings.turn_order@);
    &&& order.no_duplicates()
    &&& order.len() == g.members@.len()
    &&& forall|k: int| 0 <= k < g.members@.len() ==> order.contains((#[trigger] g.members@[k]).name@)
}

proof fn lemma_names_differ(v: Seq<NamePair>, i: int, j: int)
    requires
        members_error(v) is None,
        0 <= i < j < v.len(),
    ensures
        v[i].0 != v[j].0,
    decreases v.len(),
{
    let p = v.drop_last();
    if j < v.len() - 1 {
        lemma_names_differ(p, i, j);
    } else if v[i].0 == v[j].0 {
        assert(p[i].0 == v.last().0);
        assert(has_name(p, v.last().0));
    }
}

/// The members of a new group take turns.
pub proof fn law_new_group_takes_turns(
    g: GroupConfig,
    id: Seq<char>,
    title: Seq<char>,
    v: Seq<NamePair>,
    now: u64,
)
    requires
        group_error(v) is None,
        founded(g, id, title, v, now),
    ensures
        takes_turns(g),
{
    let order = strs(g.settings.turn_order@);
    assert forall|i: int, j: int| 0 <= i < order.len() && 0 <= j < order.len() && i != j implies order[i]
        != order[j] by {
        if i < j {
            lemma_names_differ(v, i, j);
        } else {
            lemma_names_differ(v, j, i);
        }
    }
    assert forall|k: int| 0 <= k < g.members@.len() implies order.contains((#[trigger] g.members@[k]).name@) by {
        assert(order[k] == g.members@[k].name@);
    }
}

/// A turn of a discussion: the record before it, while the member speaks and
/// after it, what the member says, and what is kept between turns.
pub struct Turn {
    pub before: GroupConfig,
    pub spoken: GroupConfig,
    pub after: GroupConfig,
    pub name: Seq<char>,
    pub text: Seq<char>,
    pub tokens: u64,
    pub kept: TurnsView,
    pub kept_then: TurnsView,
    pub end: TurnEnd,
}

/// A turn is one that starts and is answered, with nobody else changing the
/// record meanwhile.
pub open spec fn is_turn(t: Turn) -> bool {
    &&& t.before.state@ == "discussing"@
    &&& turn_speaker(t.before) == Some(t.name)
    &&& turn_begun(t.before, t.spoken, t.name)
    &&& turn_taken(
        t.spoken,
        Some(t.spoken),
        t.name,
        t.text,
        t.tokens,
        t.kept,
        t.kept_then,
        Some(t.after),
        t.end,
    )
}

/// A turn that leaves the discussion to its rounds: the answer calls on nobody
/// else, stays within the budget, and does not say that the discussion is over.
pub open spec fn is_plain(t: Turn) -> bool {
    &&& called_first(t.spoken, t.name, t.text) is None
    &&& within(Some(t.spoken), t.tokens)
    &&& !contains_text(t.text, "[DONE]"@)
}

/// Turns that follow each other, from the first one on.
pub open spec fn is_discussion(ts: Seq<Turn>) -> bool {
    &&& ts.len() > 0
    &&& ts[0].kept.spoke == Seq::<Seq<char>>::empty()
    &&& forall|i: int| 0 <= i < ts.len() ==> is_turn(#[trigger] ts[i])
    &&& forall|i: int|
        0 < i < ts.len() ==> {
            &&& (#[trigger] ts[i]).before == ts[i - 1].after
            &&& ts[i].kept == ts[i - 1].kept_then
            &&& ts[i - 1].end == TurnEnd::NextTurn
        }
}

/// How many rounds a group has left; a discussion that starts has one.
pub open spec fn rounds_left(g: GroupConfig) -> int {
    if g.settings.max_rounds > g.round {
        g.settings.max_rounds - g.round
    } else {
        1
    }
}

/// The `m`-th in the order, counted from `first` on and around.
spec fn around(order: Seq<Seq<char>>, first: int, m: int) -> Seq<char> {
    if first + m < order.len() {
        order[first + m]
    } else {
        order[first + m - order.len()]
    }
}

/// The first `m` in the order, counted in the same way.
spec fn arounds(order: Seq<Seq<char>>, first: int, m: int) -> Seq<Seq<char>> {
    Seq::new(m as nat, |j: int| around(order, first, j))
}

proof fn lemma_moved_last(v: Seq<Seq<char>>, x: Seq<char>)
    requires
        v.no_duplicates(),
    ensures
        moved_last(v, x).no_duplicates(),
        moved_last(v, x).len() == v.len(),
        forall|y: Seq<char>| v.contains(y) ==> #[trigger] moved_last(v, x).contains(y),
{
    lemma_position(v, x);
    let p = position(v, x);
    let w = moved_last(v, x);
    if p < v.len() {
        let n = v.len() as int;
        assert forall|i: int| 0 <= i < n implies w[i] == (if i < p {
            v[i]
        } else if i < n - 1 {
            v[i + 1]
        } else {
            v[p]
        }) by {}
        assert forall|y: Seq<char>| v.contains(y) implies #[trigger] w.contains(y) by {
            let k = v.index_of(y);
            if k < p {
                assert(w[k] == y);
            } else if k > p {
                assert(w[k - 1] == y);
            } else {
                assert(w[n - 1] == y);
            }
        }
    }
}

proof fn lemma_order(g: GroupConfig)
    requires
        takes_turns(g),
    ensures
        speaking_order(g).no_duplicates(),
        speaking_order(g).len() == g.members@.len(),
        forall|k: int| 0 <= k < g.members@.len() ==> speaking_order(g).contains((#[trigger] g.members@[k]).name@),
{
    let v = strs(g.settings.turn_order@);
    if lead_of(g.members@) is Some {
        lemma_moved_last(v, lead_of(g.members@)->0);
    }
}

/// Behind the one at `p` comes the next in the order, and behind the last the
/// first.
proof fn lemma_next_around(g: GroupConfig, p: int)
    requires
        speaking_order(g).no_duplicates(),
        0 <= p < speaking_order(g).len(),
        opt_view(g.speaking) == Some(speaking_order(g)[p]),
    ensures
        turn_speaker(g) == Some(around(speaking_order(g), p, 1)) || speaking_order(g).len() == 1,
        speaking_order(g).len() == 1 ==> turn_speaker(g) == Some(speaking_order(g)[0]),
{
    let order = speaking_order(g);
    let n = order.len() as int;
    let cur = order[p];
    lemma_position(order, cur);
    assert(order.contains(cur));
    assert(position(order, cur) == p);
    let at = if p + 1 < n {
        p + 1
    } else {
        0
    };
    if p + 1 < n {
        vstd::arithmetic::div_mod::lemma_small_mod((p + 1) as nat, n as nat);
    } else {
        vstd::arithmetic::div_mod::lemma_mod_self_0(n);
    }
    assert((p + 1 + 0) % n == at);
    if n > 1 {
        assert(order[at] != order[p]);
        assert(pick(order, p + 1, 0, Some(cur), None) == Some(order[at]));
    } else {
        assert(order[at] == cur);
        assert(pick(order, p + 1, 1, Some(cur), None) is None);
        assert(pick(order, p + 1, 0, Some(cur), None) is None);
        vstd::arithmetic::div_mod::lemma_small_mod(0, n as nat);
        assert((0int + 0int) % n == 0);
        assert(pick(order, 0, 0, None, None) == Some(order[0]));
    }
}

/// How a discussion stands at its `i`-th turn.
spec fn stands(ts: Seq<Turn>, i: int) -> bool {
    let g = ts[0].before;
    let order = speaking_order(g);
    let n = order.len() as int;
    let first = position(order, ts[0].name);
    let t = ts[i];
    &&& t.before.members == g.members
    &&& t.before.settings == g.settings
    &&& t.before.round == g.round + i / n
    &&& t.name == around(order, first, i % n)
    &&& t.kept.spoke == arounds(order, first, i % n)
}

proof fn lemma_start_of(ts: Seq<Turn>)
    requires
        is_discussion(ts),
        takes_turns(ts[0].before),
    ensures
        speaking_order(ts[0].before).contains(ts[0].name),
        speaking_order(ts[0].before).len() > 0,
        stands(ts, 0),
{
    let g = ts[0].before;
    let order = speaking_order(g);
    assert(is_turn(ts[0]));
    crate::groups::law_next_speaker(order, opt_view(g.speaking), None);
    crate::groups::law_next_speaker(order, None, None);
    lemma_order(g);
    lemma_position(order, ts[0].name);
    assert(order.contains(ts[0].name));
    let n = order.len() as int;
    assert(0int / n == 0) by (nonlinear_arith)
        requires
            n > 0,
    ;
    vstd::arithmetic::div_mod::lemma_small_mod(0, n as nat);
    assert(ts[0].kept.spoke =~= arounds(order, position(order, ts[0].name), 0));
}

/// What a plain turn does where the discussion stands as it should.
proof fn lemma_plain_turn(ts: Seq<Turn>, i: int)
    requires
        is_discussion(ts),
        takes_turns(ts[0].before),
        0 <= i < ts.len(),
        is_plain(ts[i]),
        stands(ts, i),
    ensures
        ({
            let g = ts[0].before;
            let order = speaking_order(g);
            let n = order.len() as int;
            let first = position(order, ts[0].name);
            let t = ts[i];
            let m = i % n;
            &&& n > 0
            &&& 0 <= m < n
            &&& also(t.kept.spoke, t.name) == arounds(order, first, m + 1)
            &&& t.after.members == g.members
            &&& t.after.settings == g.settings
            &&& opt_view(t.after.speaking) == Some(t.name)
            &&& t.after.round == g.round + i / n + (if m + 1 == n {
                1int
            } else {
                0
            })
            &&& t.kept_then.spoke == (if m + 1 == n {
                Seq::empty()
            } else {
                arounds(order, first, m + 1)
            })
            &&& t.end == (if m + 1 == n && g.round + i / n + 2 > g.settings.max_rounds {
                TurnEnd::Summarize
            } else {
                TurnEnd::NextTurn
            })
        }),
{
    lemma_start_of(ts);
    let g = ts[0].before;
    lemma_order(g);
    let order = speaking_order(g);
    let n = order.len() as int;
    let first = position(order, ts[0].name);
    lemma_position(order, ts[0].name);
    let t = ts[i];
    let m = i % n;
    assert(0 <= m < n) by (nonlinear_arith)
        requires
            n > 0,
            m == i % n,
    ;
    assert(is_turn(t));
    let spoke = t.kept.spoke;
    if spoke.contains(t.name) {
        let j = spoke.index_of(t.name);
        assert(spoke[j] == around(order, first, j));
        let a = if first + j < n {
            first + j
        } else {
            first + j - n
        };
        let b = if first + m < n {
            first + m
        } else {
            first + m - n
        };
        assert(a != b);
        assert(order[a] != order[b]);
    }
    assert(spoke.push(t.name) =~= arounds(order, first, m + 1));
}

/// From one turn to the next, counted in rounds.
proof fn lemma_next_index(i: int, n: int)
    requires
        0 < i,
        0 < n,
    ensures
        0 <= (i - 1) % n < n,
        (i - 1) % n + 1 < n ==> i % n == (i - 1) % n + 1 && i / n == (i - 1) / n,
        (i - 1) % n + 1 == n ==> i % n == 0 && i / n == (i - 1) / n + 1,
{
    let q = (i - 1) / n;
    let m = (i - 1) % n;
    vstd::arithmetic::div_mod::lemma_fundamental_div_mod(i - 1, n);
    vstd::arithmetic::div_mod::lemma_mod_bound(i - 1, n);
    if m + 1 < n {
        assert(i == q * n + (m + 1)) by (nonlinear_arith)
            requires
                i - 1 == n * q + m,
        ;
        vstd::arithmetic::div_mod::lemma_fundamental_div_mod_converse(i, n, q, m + 1);
    } else {
        assert(i == (q + 1) * n + 0) by (nonlinear_arith)
            requires
                i - 1 == n * q + m,
                m + 1 == n,
        ;
        vstd::arithmetic::div_mod::lemma_fundamental_div_mod_converse(i, n, q + 1, 0);
    }
}

/// Behind the one who is `m` steps from the first comes the one who is a step
/// further, and behind the last of a round the first.
proof fn lemma_next_speaker_around(g: GroupConfig, first: int, m: int)
    requires
        speaking_order(g).no_duplicates(),
        0 <= first < speaking_order(g).len(),
        0 <= m < speaking_order(g).len(),
        opt_view(g.speaking) == Some(around(speaking_order(g), first, m)),
    ensures
        m + 1 < speaking_order(g).len() ==> turn_speaker(g) == Some(around(speaking_order(g), first, m + 1)),
        m + 1 == speaking_order(g).len() ==> turn_speaker(g) == Some(around(speaking_order(g), first, 0)),
{
    let n = speaking_order(g).len() as int;
    let p = if first + m < n {
        first + m
    } else {
        first + m - n
    };
    lemma_next_around(g, p);
}

/// What a plain turn leaves is what the next one stands on.
proof fn lemma_next_stands(ts: Seq<Turn>, i: int)
    requires
        is_discussion(ts),
        takes_turns(ts[0].before),
        0 < i < ts.len(),
        is_plain(ts[i - 1]),
        stands(ts, i - 1),
    ensures
        stands(ts, i),
{
    let g = ts[0].before;
    let order = speaking_order(g);
    let n = order.len() as int;
    let first = position(order, ts[0].name);
    let m = (i - 1) % n;
    let t = ts[i];
    lemma_plain_turn(ts, i - 1);
    lemma_next_index(i, n);
    assert(order.no_duplicates()) by {
        lemma_order(g);
    }
    assert(0 <= first < n) by {
        lemma_start_of(ts);
        lemma_position(order, ts[0].name);
    }
    assert(is_turn(t));
    assert(t.before == ts[i - 1].after && t.kept == ts[i - 1].kept_then);
    assert(speaking_order(t.before) == order);
    lemma_next_speaker_around(t.before, first, m);
    if m + 1 == n {
        assert(t.kept.spoke =~= arounds(order, first, 0));
    }
}

proof fn lemma_stands(ts: Seq<Turn>, i: int)
    requires
        is_discussion(ts),
        takes_turns(ts[0].before),
        0 <= i < ts.len(),
        forall|k: int| 0 <= k < i ==> is_plain(#[trigger] ts[k]),
    ensures
        stands(ts, i),
    decreases i,
{
    if i > 0 {
        lemma_stands(ts, i - 1);
        assert(is_plain(ts[i - 1]));
        lemma_next_stands(ts, i);
    } else {
        lemma_start_of(ts);
    }
}

proof fn lemma_turn_ends(ts: Seq<Turn>, i: int)
    requires
        is_discussion(ts),
        takes_turns(ts[0].before),
        forall|k: int| 0 <= k < ts.len() ==> is_plain(#[trigger] ts[k]),
        0 <= i < ts.len(),
    ensures
        ts[i].end == (if i + 1 == rounds_left(ts[0].before) * ts[0].before.members@.len() {
            TurnEnd::Summarize
        } else {
            TurnEnd::NextTurn
        }),
        i + 1 <= rounds_left(ts[0].before) * ts[0].before.members@.len(),
    decreases i,
{
    let g = ts[0].before;
    lemma_order(g);
    lemma_start_of(ts);
    lemma_stands(ts, i);
    lemma_plain_turn(ts, i);
    let n = g.members@.len() as int;
    let r = rounds_left(g);
    let q = i / n;
    let m = i % n;
    vstd::arithmetic::div_mod::lemma_fundamental_div_mod(i, n);
    assert(q >= 0) by (nonlinear_arith)
        requires
            q == i / n,
            i >= 0,
            n > 0,
    ;
    if i > 0 {
        lemma_turn_ends(ts, i - 1);
        assert(ts[i - 1].end == TurnEnd::NextTurn) by {
            assert(ts[i].before == ts[i - 1].after);
        }
        assert(i < r * n);
    } else {
        assert(r * n >= 1) by (nonlinear_arith)
            requires
                r >= 1,
                n >= 1,
        ;
    }
    assert(q < r) by (nonlinear_arith)
        requires
            i < r * n,
            i == n * q + m,
            m >= 0,
            n > 0,
    ;
    assert(i + 1 == r * n <==> (m + 1 == n && q + 1 == r)) by (nonlinear_arith)
        requires
            i == n * q + m,
            0 <= m < n,
            q < r,
    ;
}

/// A discussion whose turns are plain takes as many turns as it has rounds left
/// times members: it goes on until then, and is then summed up.
pub proof fn law_rounds_times_members(ts: Seq<Turn>)
    requires
        is_discussion(ts),
        takes_turns(ts[0].before),
        forall|k: int| 0 <= k < ts.len() ==> is_plain(#[trigger] ts[k]),
    ensures
        ts.len() <= rounds_left(ts[0].before) * ts[0].before.members@.len(),
        forall|i: int|
            0 <= i < ts.len() ==> (#[trigger] ts[i]).end == (if i + 1 == rounds_left(ts[0].before)
                * ts[0].before.members@.len() {
                TurnEnd::Summarize
            } else {
                TurnEnd::NextTurn
            }),
{
    lemma_turn_ends(ts, ts.len() - 1);
    assert forall|i: int| 0 <= i < ts.len() implies (#[trigger] ts[i]).end == (if i + 1 == rounds_left(
        ts[0].before,
    ) * ts[0].before.members@.len() {
        TurnEnd::Summarize
    } else {
        TurnEnd::NextTurn
    }) by {
        lemma_turn_ends(ts, i);
    }
}

/// The turns of the round `q` with this speaker.
pub open spec fn speaks_at(ts: Seq<Turn>, q: int, i: int, name: Seq<char>) -> bool {
    let n = ts[0].before.members@.len();
    n * q <= i < n * q + n && i < ts.len() && ts[i].name == name
}

proof fn lemma_round_speaker(ts: Seq<Turn>, q: int, h: int)
    requires
        is_discussion(ts),
        takes_turns(ts[0].before),
        forall|i: int| 0 <= i < ts.len() ==> is_plain(#[trigger] ts[i]),
        0 <= q,
        0 <= h < ts[0].before.members@.len(),
        ts[0].before.members@.len() * q + h < ts.len(),
    ensures
        ts[ts[0].before.members@.len() * q + h].name == around(
            speaking_order(ts[0].before),
            position(speaking_order(ts[0].before), ts[0].name),
            h,
        ),
{
    let n = ts[0].before.members@.len() as int;
    lemma_order(ts[0].before);
    assert(n * q >= 0) by (nonlinear_arith)
        requires
            n >= 0,
            q >= 0,
    ;
    let i = n * q + h;
    lemma_stands(ts, i);
    vstd::arithmetic::div_mod::lemma_fundamental_div_mod_converse(i, n, q, h);
}

/// Where, counted around, a name of the order comes.
spec fn steps_to(order: Seq<Seq<char>>, first: int, name: Seq<char>) -> int {
    if position(order, name) >= first {
        position(order, name) - first
    } else {
        position(order, name) - first + order.len()
    }
}

proof fn lemma_around(order: Seq<Seq<char>>, first: int, name: Seq<char>, h: int)
    requires
        order.no_duplicates(),
        order.contains(name),
        0 <= first < order.len(),
        0 <= h < order.len(),
    ensures
        0 <= steps_to(order, first, name) < order.len(),
        around(order, first, h) == name <==> h == steps_to(order, first, name),
{
    lemma_position(order, name);
    let at = position(order, name);
    let a = if first + h < order.len() {
        first + h
    } else {
        first + h - order.len()
    };
    assert(around(order, first, h) == order[a]);
    if a != at {
        assert(order[a] != order[at]);
    }
}

/// In a discussion whose turns are plain no member speaks twice in a round, and
/// when the round is over, every member has spoken in it.
pub proof fn law_each_member_speaks_once_a_round(ts: Seq<Turn>, q: int, k: int)
    requires
        is_discussion(ts),
        takes_turns(ts[0].before),
        forall|i: int| 0 <= i < ts.len() ==> is_plain(#[trigger] ts[i]),
        0 <= q,
        0 <= k < ts[0].before.members@.len(),
    ensures
        ({
            let n = ts[0].before.members@.len();
            let name = ts[0].before.members@[k].name@;
            &&& forall|i: int, j: int|
                #[trigger] speaks_at(ts, q, i, name) && #[trigger] speaks_at(ts, q, j, name) ==> i == j
            &&& n * q + n <= ts.len() ==> exists|i: int| speaks_at(ts, q, i, name)
        }),
{
    let n = ts[0].before.members@.len() as int;
    let order = speaking_order(ts[0].before);
    let first = position(order, ts[0].name);
    let name = ts[0].before.members@[k].name@;
    assert(order.no_duplicates() && order.len() == n && order.contains(name)) by {
        lemma_order(ts[0].before);
    }
    assert(0 <= first < n) by {
        lemma_start_of(ts);
        lemma_position(order, ts[0].name);
    }
    let m = steps_to(order, first, name);
    lemma_around(order, first, name, 0);
    assert forall|i: int| #[trigger] speaks_at(ts, q, i, name) implies i == n * q + m by {
        lemma_round_speaker(ts, q, i - n * q);
        lemma_around(order, first, name, i - n * q);
    }
    if n * q + n <= ts.len() {
        lemma_round_speaker(ts, q, m);
        lemma_around(order, first, name, m);
        assert(speaks_at(ts, q, n * q + m, name));
    }
}

// ---------- what the console asks of a group ----------

/// What follows from the user's words in a group.
#[derive(Debug)]
pub struct UserSaid {
    pub event: GroupEvent,
    /// Who is called on to speak next.
    pub call: Option<String>,
    /// Whether the discussion starts or goes on again.
    pub restart: bool,
}

/// Takes the user's words in a group. A stopped group takes none; a discussion
/// is not interrupted, and a group at rest takes it up again.
pub fn user_says(g: &GroupConfig, text: &str, now: u64) -> (r: Result<UserSaid, String>)
    ensures
        match r {
            Err(e) => g.state@ == "stopped"@ && e@ == "群已终止（stopped），不能发言"@,
            Ok(p) => {
                let m = mentions_in(text@, g.members@);
                &&& g.state@ != "stopped"@
                &&& p.event@ == said("user"@, text@, m, now)
                &&& opt_view(p.call) == (if g.state@ == "discussing"@ && m.len() > 0 {
                    Some(m[0])
                } else {
                    None
                })
                &&& p.restart == (g.state@ == "idle"@ || g.state@ == "paused"@ || g.state@ == "summarized"@)
            },
        },
{
    if str_eq(g.state.as_str(), "stopped") {
        return Err("群已终止（stopped），不能发言".to_string());
    }
    let mentions: Vec<String> = parse_mentions(text, g);
    let event: GroupEvent = said_event("user", text, &mentions, now);
    let call: Option<String> = if str_eq(g.state.as_str(), "discussing") && mentions.len() > 0 {
        assert(strs(mentions@)[0] == mentions@[0]@);
        Some(mentions[0].clone())
    } else {
        None
    };
    let restart: bool = str_eq(g.state.as_str(), "idle") || str_eq(g.state.as_str(), "paused") || str_eq(
        g.state.as_str(),
        "summarized",
    );
    Ok(UserSaid { event, call, restart })
}

/// A group that is asked to restart may move to the discussion.
pub proof fn law_restart_is_a_move(state: Seq<char>)
    requires
        state == "idle"@ || state == "paused"@ || state == "summarized"@,
    ensures
        may_move(state, "discussing"@),
{
}

/// Whether a group can take up a task.
pub open spec fn at_rest(g: GroupConfig) -> bool {
    g.state@ == "idle"@ || g.state@ == "paused"@
}

fn is_at_rest(g: &GroupConfig) -> (r: bool)
    ensures
        r == at_rest(*g),
{
    str_eq(g.state.as_str(), "idle") || str_eq(g.state.as_str(), "paused")
}

/// A task as it starts.
pub open spec fn is_task(t: Option<GroupTask>, topic: Seq<char>, kind: Seq<char>, lead: Option<Seq<char>>, now: u64) -> bool {
    t is Some && t->0.topic@ == topic && t->0.kind@ == kind && opt_view(t->0.lead) == lead && t->0.depth_left
        == DEFAULT_TASK_DEPTH && t->0.started_ts == now
}

/// Starts a discussion on a group's record, as it was loaded: the record to
/// save and the event to append before the group moves to the discussion.
pub fn start_discussion(loaded: Option<GroupConfig>, topic: &str, now: u64) -> (r: Result<
    (GroupConfig, GroupEvent),
    String,
>)
    ensures
        match (loaded, r) {
            (None, Err(e)) => e@ == "群档案损坏"@,
            (Some(g), Err(e)) => !at_rest(g) && e@ == "群当前状态 "@ + g.state@ + "，不能发起讨论"@,
            (Some(g), Ok((h, e))) => {
                &&& at_rest(g)
                &&& h == (GroupConfig { task: h.task, ..g })
                &&& is_task(h.task, topic@, "discussion"@, None, now)
                &&& e@ == (EventView::Message { from: "user"@, text: topic@, ts: now })
            },
            _ => false,
        },
{
    match loaded {
        None => Err("群档案损坏".to_string()),
        Some(g) => {
            if !is_at_rest(&g) {
                let mut e: String = "群当前状态 ".to_string();
                e.append(g.state.as_str());
                e.append("，不能发起讨论");
                return Err(e);
            }
            let mut h = g;
            h.task =
            Some(
                GroupTask {
                    topic: topic.to_string(),
                    kind: "discussion".to_string(),
                    lead: None,
                    depth_left: DEFAULT_TASK_DEPTH,
                    started_ts: now,
                },
            );
            let e: GroupEvent = GroupEvent::Message { from: "user".to_string(), text: topic.to_string(), ts: now };
            Ok((h, e))
        },
    }
}

/// Hands a task to a lead on a group's record, as it was loaded: the record to
/// save and the event to append before the group moves to the discussion.
pub fn start_delegation(loaded: Option<GroupConfig>, topic: &str, lead: &str, now: u64) -> (r: Result<
    (GroupConfig, GroupEvent),
    String,
>)
    ensures
        match (loaded, r) {
            (None, Err(e)) => e@ == "群档案损坏"@,
            (Some(g), Err(e)) => if !at_rest(g) {
                e@ == "群当前状态 "@ + g.state@ + "，不能委任"@
            } else {
                promote_error(g, lead@) == Some(e@)
            },
            (Some(g), Ok((h, e))) => {
                &&& at_rest(g)
                &&& promote_error(g, lead@) is None
                &&& role_set(g, GroupConfig { task: g.task, ..h }, member_at(g.members@, lead@), "lead"@)
                &&& is_task(h.task, topic@, "delegation"@, Some(lead@), now)
                &&& e@ == (EventView::Message {
                    from: "user"@,
                    text: "委任 @"@ + lead@ + "："@ + topic@,
                    ts: now,
                })
            },
            _ => false,
        },
{
    match loaded {
        None => Err("群档案损坏".to_string()),
        Some(g) => {
            if !is_at_rest(&g) {
                let mut e: String = "群当前状态 ".to_string();
                e.append(g.state.as_str());
                e.append("，不能委任");
                return Err(e);
            }
            let promoted: GroupConfig = match promote_lead(Some(g), lead) {
                Ok(h) => h,
                Err(e) => {
                    return Err(e);
                },
            };
            let ghost before = promoted;
            let mut h = promoted;
            h.task =
            Some(
                GroupTask {
                    topic: topic.to_string(),
                    kind: "delegation".to_string(),
                    lead: Some(lead.to_string()),
                    depth_left: DEFAULT_TASK_DEPTH,
                    started_ts: now,
                },
            );
            assert(GroupConfig { task: g.task, ..h } == before);
            let mut text: String = "委任 @".to_string();
            text.append(lead);
            text.append("：");
            text.append(topic);
            let e: GroupEvent = GroupEvent::Message { from: "user".to_string(), text, ts: now };
            Ok((h, e))
        },
    }
}

/// Pauses or stops a group, as it was loaded: nobody speaks any more.
pub fn pause_or_stop(loaded: Option<GroupConfig>, to: &str, now: u64) -> (r: Result<(GroupConfig, GroupEvent), String>)
    ensures
        match (loaded, r) {
            (None, Err(e)) => e@ == crate::groups::no_group(),
            (Some(g), Ok((h, ev))) => {
                &&& may_move(g.state@, to@)
                &&& h.state@ == to@
                &&& h == (GroupConfig { state: h.state, speaking: None, ..g })
                &&& ev@ == (EventView::StateChange { from_state: g.state@, to_state: to@, ts: now })
            },
            (Some(g), Err(e)) => {
                &&& !may_move(g.state@, to@)
                &&& e@ == "ERROR: 非法状态迁移："@ + g.state@ + " → "@ + to@
            },
            _ => false,
        },
{
    match set_state(loaded, to, now) {
        Ok((g, e)) => {
            let mut h = g;
            h.speaking = None;
            Ok((h, e))
        },
        Err(e) => Err(e),
    }
}

/// Whether a summary can be asked for: only while the group discusses.
pub fn check_summary(g: &GroupConfig) -> (r: Result<(), String>)
    ensures
        match r {
            Ok(_) => g.state@ == "discussing"@,
            Err(e) => g.state@ != "discussing"@ && e@ == "仅讨论中可小结（当前 "@ + g.state@ + "）"@,
        },
{
    if str_eq(g.state.as_str(), "discussing") {
        Ok(())
    } else {
        let mut e: String = "仅讨论中可小结（当前 ".to_string();
        e.append(g.state.as_str());
        e.append("）");
        Err(e)
    }
}

/// The last task that waits for approval and is meant for a member: who handed
/// it on, and the task.
pub open spec fn last_pending(v: Seq<EventView>, to: Seq<char>) -> Option<(Seq<char>, Seq<char>)>
    decreases v.len(),
{
    if v.len() == 0 {
        None
    } else {
        match v.last() {
            EventView::Subtask { from, to: t, prompt, ts, state } => if t == to && state == "pending"@ {
                Some((from, prompt))
            } else {
                last_pending(v.drop_last(), to)
            },
            _ => last_pending(v.drop_last(), to),
        }
    }
}

/// Approves the last task that waits for a member: the event to append and the
/// task to run.
pub fn approve_subtask(events: &Vec<GroupEvent>, to: &str, now: u64) -> (r: Result<(GroupEvent, String), String>)
    ensures
        match r {
            Ok((e, p)) => match last_pending(event_views(events@), to@) {
                Some((from, prompt)) => {
                    &&& p@ == prompt
                    &&& e@ == (EventView::Subtask { from, to: to@, prompt, ts: now, state: "approved"@ })
                },
                None => false,
            },
            Err(e) => last_pending(event_views(events@), to@) is None && e@ == "成员 "@ + to@ + " 没有待批准子任务"@,
        },
{
    let ghost all = event_views(events@);
    let mut i: usize = events.len();
    assert(all.take(i as int) =~= all);
    while i > 0
        invariant
            i <= events.len(),
            all == event_views(events@),
            last_pending(all, to@) == last_pending(all.take(i as int), to@),
        decreases i,
    {
        proof {
            assert(all.take(i as int).last() == events@[i - 1]@);
            assert(all.take(i as int).drop_last() =~= all.take(i - 1));
        }
        if let GroupEvent::Subtask { from, to: t, prompt, state, .. } = &events[i - 1] {
            if str_eq(t.as_str(), to) && str_eq(state.as_str(), "pending") {
                let e: GroupEvent = GroupEvent::Subtask {
                    from: from.clone(),
                    to: to.to_string(),
                    prompt: prompt.clone(),
                    ts: now,
                    state: "approved".to_string(),
                };
                return Ok((e, prompt.clone()));
            }
        }
        i -= 1;
    }
    let mut e: String = "成员 ".to_string();
    e.append(to);
    e.append(" 没有待批准子任务");
    Err(e)
}

/// How a single run of a member ended.
#[derive(Debug)]
pub enum RunEnd {
    Answer(String),
    NoSession(String),
    Failed(String),
    Timeout,
}

/// The event of a summary's end.
pub fn summary_event(end: &RunEnd, now: u64) -> (r: GroupEvent)
    ensures
        r@ == (match *end {
            RunEnd::Answer(t) => EventView::Summary { text: t@, ts: now },
            RunEnd::NoSession(e) => failure("小结会话创建失败："@ + e@, now),
            RunEnd::Failed(e) => failure("小结生成失败："@ + e@, now),
            RunEnd::Timeout => failure("小结生成超时"@, now),
        }),
{
    match end {
        RunEnd::Answer(t) => GroupEvent::Summary { text: t.clone(), ts: now },
        RunEnd::NoSession(e) => {
            let mut s: String = "小结会话创建失败：".to_string();
            s.append(e.as_str());
            GroupEvent::Error { text: s, ts: now }
        },
        RunEnd::Failed(e) => {
            let mut s: String = "小结生成失败：".to_string();
            s.append(e.as_str());
            GroupEvent::Error { text: s, ts: now }
        },
        RunEnd::Timeout => GroupEvent::Error { text: "小结生成超时".to_string(), ts: now },
    }
}

/// The events of a handed-on task's end: the answer and that the task is done,
/// or the failure.
pub open spec fn subtask_end(to: Seq<char>, prompt: Seq<char>, end: RunEnd, now: u64) -> Seq<EventView> {
    match end {
        RunEnd::Answer(t) => seq![
            EventView::Message { from: to, text: t@, ts: now },
            EventView::Subtask { from: to, to, prompt, ts: now, state: "done"@ },
        ],
        RunEnd::NoSession(e) => seq![failure("子任务会话创建失败（"@ + to + "）："@ + e@, now)],
        RunEnd::Failed(e) => seq![failure("子任务执行失败（"@ + to + "）："@ + e@, now)],
        RunEnd::Timeout => seq![failure("子任务执行超时（"@ + to + "）"@, now)],
    }
}

/// The events of a handed-on task's end.
pub fn subtask_events(to: &str, prompt: &str, end: &RunEnd, now: u64) -> (r: Vec<GroupEvent>)
    ensures
        event_views(r@) == subtask_end(to@, prompt@, *end, now),
{
    let mut out: Vec<GroupEvent> = Vec::new();
    match end {
        RunEnd::Answer(t) => {
            out.push(GroupEvent::Message { from: to.to_string(), text: t.clone(), ts: now });
            out.push(
                GroupEvent::Subtask {
                    from: to.to_string(),
                    to: to.to_string(),
                    prompt: prompt.to_string(),
                    ts: now,
                    state: "done".to_string(),
                },
            );
        },
        RunEnd::NoSession(e) => {
            let mut s: String = "子任务会话创建失败（".to_string();
            s.append(to);
            s.append("）：");
            s.append(e.as_str());
            out.push(GroupEvent::Error { text: s, ts: now });
        },
        RunEnd::Failed(e) => {
            let mut s: String = "子任务执行失败（".to_string();
            s.append(to);
            s.append("）：");
            s.append(e.as_str());
            out.push(GroupEvent::Error { text: s, ts: now });
        },
        RunEnd::Timeout => {
            let mut s: String = "子任务执行超时（".to_string();
            s.append(to);
            s.append("）");
            out.push(GroupEvent::Error { text: s, ts: now });
        },
    }
    assert(event_views(out@) =~= subtask_end(to@, prompt@, *end, now));
    out
}

/// An approved task was pending before, and once it is done it waits no more:
/// nothing but an approval starts a task that a member handed on.
pub proof fn law_only_pending_is_approved(v: Seq<EventView>, to: Seq<char>)
    ensures
        last_pending(v, to) is Some ==> exists|i: int|
            0 <= i < v.len() && (#[trigger] v[i]) is Subtask && v[i]->Subtask_to == to && v[i]->Subtask_state
                == "pending"@ && last_pending(v, to) == Some((v[i]->Subtask_from, v[i]->Subtask_prompt)),
    decreases v.len(),
{
    if v.len() > 0 {
        let p = v.drop_last();
        law_only_pending_is_approved(p, to);
        assert(v[v.len() - 1] == v.last());
        if last_pending(v, to) is Some {
            if v.last() is Subtask && v.last()->Subtask_to == to && v.last()->Subtask_state == "pending"@ {
                assert(v[v.len() - 1] is Subtask);
            } else {
                assert(last_pending(v, to) == last_pending(p, to));
                let i = choose|i: int|
                    0 <= i < p.len() && (#[trigger] p[i]) is Subtask && p[i]->Subtask_to == to
                        && p[i]->Subtask_state == "pending"@ && last_pending(p, to) == Some(
                        (p[i]->Subtask_from, p[i]->Subtask_prompt),
                    );
                assert(v[i] == p[i]);
            }
        }
    }
}

// ---------- running discussions ----------

/// The running discussions: each group's, with the number it was started
/// under.
#[derive(Debug)]
pub struct GroupRuns {
    running: Vec<(String, u64)>,
    seq: u64,
}

/// What is running.
pub struct RunsView {
    pub running: Seq<(Seq<char>, u64)>,
    pub seq: u64,
}

pub open spec fn run_pairs(v: Seq<(String, u64)>) -> Seq<(Seq<char>, u64)> {
    Seq::new(v.len(), |i: int| (v[i].0@, v[i].1))
}

impl View for GroupRuns {
    type V = RunsView;

    closed spec fn view(&self) -> RunsView {
        RunsView { running: run_pairs(self.running@), seq: self.seq }
    }
}

/// The number under which a group's discussion was started.
pub open spec fn run_of(v: Seq<(Seq<char>, u64)>, sid: Seq<char>) -> Option<u64>
    decreases v.len(),
{
    if v.len() == 0 {
        None
    } else if v.last().0 == sid {
        Some(v.last().1)
    } else {
        run_of(v.drop_last(), sid)
    }
}

/// The others' discussions.
pub open spec fn without_run(v: Seq<(Seq<char>, u64)>, sid: Seq<char>) -> Seq<(Seq<char>, u64)>
    decreases v.len(),
{
    if v.len() == 0 {
        Seq::empty()
    } else if v.last().0 == sid {
        without_run(v.drop_last(), sid)
    } else {
        without_run(v.drop_last(), sid).push(v.last())
    }
}

fn drop_run(v: &Vec<(String, u64)>, sid: &str) -> (r: Vec<(String, u64)>)
    ensures
        run_pairs(r@) == without_run(run_pairs(v@), sid@),
{
    let ghost all = run_pairs(v@);
    let mut out: Vec<(String, u64)> = Vec::new();
    let mut i: usize = 0;
    assert(run_pairs(out@) =~= without_run(all.take(0), sid@));
    while i < v.len()
        invariant
            i <= v.len(),
            all == run_pairs(v@),
            run_pairs(out@) == without_run(all.take(i as int), sid@),
        decreases v.len() - i,
    {
        let ghost before = run_pairs(out@);
        proof {
            assert(all.take(i as int + 1).drop_last() =~= all.take(i as int));
            assert(all.take(i as int + 1).last() == (v@[i as int].0@, v@[i as int].1));
        }
        if !str_eq(v[i].0.as_str(), sid) {
            out.push((v[i].0.clone(), v[i].1));
            assert(run_pairs(out@) =~= before.push((v@[i as int].0@, v@[i as int].1)));
        }
        i += 1;
    }
    assert(all.take(i as int) =~= all);
    out
}

fn find_run(v: &Vec<(String, u64)>, sid: &str) -> (r: Option<u64>)
    ensures
        r == run_of(run_pairs(v@), sid@),
{
    let ghost all = run_pairs(v@);
    let mut i: usize = v.len();
    assert(all.take(i as int) =~= all);
    while i > 0
        invariant
            i <= v.len(),
            all == run_pairs(v@),
            run_of(all, sid@) == run_of(all.take(i as int), sid@),
        decreases i,
    {
        proof {
            assert(all.take(i as int).last() == (v@[i - 1].0@, v@[i - 1].1));
            assert(all.take(i as int).drop_last() =~= all.take(i - 1));
        }
        if str_eq(v[i - 1].0.as_str(), sid) {
            return Some(v[i - 1].1);
        }
        i -= 1;
    }
    None
}

impl GroupRuns {
    pub fn new() -> (r: GroupRuns)
        ensures
            r@.running == Seq::<(Seq<char>, u64)>::empty(),
            r@.seq == 0,
    {
        let r: GroupRuns = GroupRuns { running: Vec::new(), seq: 0 };
        assert(r@.running =~= Seq::<(Seq<char>, u64)>::empty());
        r
    }

    /// How many discussions were started.
    pub fn started(&self) -> (r: u64)
        ensures
            r == self@.seq,
    {
        self.seq
    }

    /// Starts a group's discussion, unless it is running and `alive`. Gives
    /// the number it runs under.
    pub fn start(&mut self, sid: &str, alive: bool) -> (r: Option<u64>)
        requires
            old(self)@.seq < u64::MAX,
        ensures
            if run_of(old(self)@.running, sid@) is Some && alive {
                r is None && final(self)@ == old(self)@
            } else {
                &&& r == Some((old(self)@.seq + 1) as u64)
                &&& final(self)@.seq == old(self)@.seq + 1
                &&& final(self)@.running == without_run(old(self)@.running, sid@).push(
                    (sid@, (old(self)@.seq + 1) as u64),
                )
            },
    {
        if find_run(&self.running, sid).is_some() && alive {
            return None;
        }
        self.seq = self.seq + 1;
        let mut rest: Vec<(String, u64)> = drop_run(&self.running, sid);
        let ghost before = run_pairs(rest@);
        rest.push((sid.to_string(), self.seq));
        assert(run_pairs(rest@) =~= before.push((sid@, self.seq)));
        self.running = rest;
        Some(self.seq)
    }

    /// Takes a group's discussion out; gives its number where it was running.
    pub fn stop(&mut self, sid: &str) -> (r: Option<u64>)
        ensures
            r == run_of(old(self)@.running, sid@),
            final(self)@.seq == old(self)@.seq,
            final(self)@.running == without_run(old(self)@.running, sid@),
    {
        let r: Option<u64> = find_run(&self.running, sid);
        let rest: Vec<(String, u64)> = drop_run(&self.running, sid);
        self.running = rest;
        r
    }

    /// A discussion ended by itself: it is taken out, but a later one of the
    /// same group stays.
    pub fn ended(&mut self, sid: &str, seq: u64)
        ensures
            final(self)@.seq == old(self)@.seq,
            final(self)@.running == (if run_of(old(self)@.running, sid@) == Some(seq) {
                without_run(old(self)@.running, sid@)
            } else {
                old(self)@.running
            }),
    {
        match find_run(&self.running, sid) {
            Some(n) => if n == seq {
                let rest: Vec<(String, u64)> = drop_run(&self.running, sid);
                self.running = rest;
            },
            None => {},
        }
    }
}

/// A discussion that ends late does not take out the one that followed it.
pub proof fn law_later_run_stays(v: Seq<(Seq<char>, u64)>, sid: Seq<char>, earlier: u64, later: u64)
    requires
        earlier != later,
    ensures
        run_of(without_run(v, sid).push((sid, later)), sid) == Some(later),
        run_of(without_run(v, sid).push((sid, later)), sid) != Some(earlier),
{
}

} // verus!
