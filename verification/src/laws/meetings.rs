//! A discussion of several agents: what its members are told, what becomes of
//! what they say, and how groups are made and changed.

use vstd::prelude::*;

use crate::agents::{is_valid_name, MAIN};
use crate::groups::{
    event_form, event_of_form, event_ts, founded, has_name, is_member_name, lead_of, lemma_position, line_events,
    may_move, member_at, members_error, next_of, position, promote_error, role_set, sat_add, EventView, GroupConfig,
    GroupTask, Member, NamePair,
};
use crate::json::{json_parsed, JsonView};
use crate::meeting::{
    answer_events, at_rest, called_first, context_of, create_error, delegate_in, first_space, invited_error, is_member,
    is_paused, is_task, last_items, last_pending, leads, member_prompt, mentions_in, one_more, pause_events, roster,
    roster_line, run_of, said, subtask_end, summary_words, told_event, told_lines, turn_failure_text, turn_taken,
    with_main, within, without_run, RunEnd, TurnEnd, TurnFailure, TurnsView, GROUP_CTX_CHARS, GROUP_CTX_EVENTS,
};
use crate::text::{
    contains_text, dec, find_text, first_index, is_space, join, lemma_find_from, lemma_first_index, occurs_at, trim,
    trim_start,
};

use super::{
    group_holds, group_members, in_order, lemma_holds_through, lemma_join_holds, lemma_join_in_order, lemma_order_left,
    lemma_order_right,
};

verus! {

broadcast use group_members;

/// The members of a group are told what it talks about: the topic of its task.
/// The request for a summary names it too.
pub proof fn law_topic_is_told(g: GroupConfig, events: Seq<EventView>, name: Seq<char>, t: GroupTask)
    requires
        g.task == Some(t),
    ensures
        contains_text(member_prompt(g, events, name), "\n【主题】"@ + t.topic@),
        contains_text(summary_words(g, events), "」（主题："@ + t.topic@),
{
    broadcast use group_holds;

}

/// A discussion that was started on a topic, or a task that was handed over, is
/// told under that topic.
pub proof fn law_given_topic_is_told(
    h: GroupConfig,
    topic: Seq<char>,
    kind: Seq<char>,
    lead: Option<Seq<char>>,
    now: u64,
    events: Seq<EventView>,
    name: Seq<char>,
)
    requires
        is_task(h.task, topic, kind, lead, now),
    ensures
        contains_text(member_prompt(h, events, name), "\n【主题】"@ + topic),
        contains_text(summary_words(h, events), "」（主题："@ + topic),
        h.task matches Some(t) && t.topic@ == topic && t.kind@ == kind && t.started_ts == now,
{
    law_topic_is_told(h, events, name, h.task->0);
}

/// A member is told where it is, who it is, and who else is there, each with
/// the name, the display name and the role.
pub proof fn law_member_is_told_of_the_group(g: GroupConfig, events: Seq<EventView>, name: Seq<char>, i: int)
    ensures
        contains_text(member_prompt(g, events, name), "你正在参加群聊「"@ + g.title@ + "」"@),
        contains_text(member_prompt(g, events, name), "」，你的身份是成员 "@ + name),
        contains_text(summary_words(g, events), "以下是群聊「"@ + g.title@),
        0 <= i < g.members@.len() ==> {
            let m = g.members@[i];
            &&& m.display_name@.len() > 0 ==> contains_text(
                member_prompt(g, events, name),
                "- "@ + m.name@ + "（"@ + m.display_name@ + "，"@ + m.role@ + "）"@,
            )
            &&& m.display_name@.len() == 0 ==> contains_text(
                member_prompt(g, events, name),
                "- "@ + m.name@ + "（"@ + m.name@ + "，"@ + m.role@ + "）"@,
            )
        },
        contains_text(
            member_prompt(g, events, name),
            "\n【进度】第 "@ + dec((g.round + 1) as nat) + "/"@ + dec(g.settings.max_rounds as nat),
        ),
        g.used_tokens <= g.settings.budget_tokens ==> contains_text(
            member_prompt(g, events, name),
            " 轮，剩余 token 预算约 "@ + dec((g.settings.budget_tokens - g.used_tokens) as nat),
        ),
        g.used_tokens > g.settings.budget_tokens ==> contains_text(
            member_prompt(g, events, name),
            " 轮，剩余 token 预算约 "@ + dec(0),
        ),
{
    reveal_strlit("」，你的身份是成员 ");
    reveal_strlit("」");
    let rest = "」，你的身份是成员 "@.skip(1);
    assert("」，你的身份是成员 "@ =~= "」"@ + rest);
    let a = "你正在参加群聊「"@ + g.title@;
    assert(a + "」，你的身份是成员 "@ =~= a + "」"@ + rest);
    broadcast use group_holds;

    assert(contains_text(a + "」"@ + rest, a + "」"@));
    if 0 <= i < g.members@.len() {
        lemma_join_holds(roster(g.members@), "\n"@, i);
        assert(contains_text(join(roster(g.members@), "\n"@), roster_line(g.members@[i])));
    }
}

/// A member that leads is told so, and everyone is told who leads.
pub proof fn law_lead_is_told(g: GroupConfig, events: Seq<EventView>, name: Seq<char>, i: int)
    requires
        0 <= i < g.members@.len(),
        g.members@[i].role@ == "lead"@,
        forall|j: int| 0 <= j < i ==> (#[trigger] g.members@[j]).role@ != "lead"@,
    ensures
        contains_text(member_prompt(g, events, name), "\n\n【当前 lead】"@ + g.members@[i].name@),
        lead_of(g.members@) == Some(g.members@[i].name@),
        contains_text(
            member_prompt(g, events, g.members@[i].name@),
            "」，你的身份是成员 "@ + g.members@[i].name@ + "（lead）"@,
        ),
{
    lemma_lead_of(g.members@, i);
    assert(leads(g.members@, g.members@[i].name@));
    broadcast use group_holds;

}

proof fn lemma_lead_of(m: Seq<Member>, i: int)
    requires
        0 <= i < m.len(),
        m[i].role@ == "lead"@,
        forall|j: int| 0 <= j < i ==> (#[trigger] m[j]).role@ != "lead"@,
    ensures
        lead_of(m) == Some(m[i].name@),
    decreases m.len(),
{
    if i > 0 {
        assert(m[0].role@ != "lead"@);
        let t = m.drop_first();
        assert forall|j: int| 0 <= j < i - 1 implies (#[trigger] t[j]).role@ != "lead"@ by {
            assert(t[j] == m[j + 1]);
        }
        lemma_lead_of(t, i - 1);
    }
}

/// What was said and done is told with who said it and what: messages, the
/// members that were called on, tasks, summaries, states and errors. What
/// members do on the way is not told.
pub proof fn law_events_are_told(e: EventView, k: int)
    ensures
        match e {
            EventView::MemberActivity { from, kind, text, ts } => told_event(e) is None,
            EventView::Message { from, text, ts } => told_event(e) == Some(from + ": "@ + text),
            EventView::Mention { from, text, ts, mentions } => told_event(e) is Some && contains_text(
                told_event(e)->0,
                from + ": "@ + text,
            ) && (0 <= k < mentions.len() ==> contains_text(told_event(e)->0, mentions[k])),
            EventView::Subtask { from, to, prompt, ts, state } => told_event(e) is Some && contains_text(
                told_event(e)->0,
                from + " → "@ + to,
            ) && contains_text(told_event(e)->0, state + "）："@ + prompt),
            EventView::Summary { text, ts } => told_event(e) is Some && contains_text(told_event(e)->0, text),
            EventView::StateChange { from_state, to_state, ts } => told_event(e) is Some && contains_text(
                told_event(e)->0,
                from_state + " → "@ + to_state,
            ),
            EventView::Error { text, ts } => told_event(e) is Some && contains_text(told_event(e)->0, text),
        },
{
    broadcast use group_holds;

    if let EventView::Mention { from, text, ts, mentions } = e {
        if 0 <= k < mentions.len() {
            lemma_join_holds(mentions, " "@, k);
        }
    }
}

/// The stream is told event by event.
pub proof fn law_stream_is_told_event_by_event(a: Seq<EventView>, b: Seq<EventView>, e: EventView)
    ensures
        told_lines(a + b) == told_lines(a) + told_lines(b),
        told_event(e) matches Some(t) ==> told_lines(seq![e]) == seq![t],
        told_event(e) is None ==> told_lines(seq![e]).len() == 0,
    decreases b.len(),
{
    assert(seq![e].drop_last() =~= Seq::<EventView>::empty());
    assert(told_lines(Seq::<EventView>::empty()) == Seq::<Seq<char>>::empty());
    if let Some(t) = told_event(e) {
        assert(Seq::<Seq<char>>::empty().push(t) =~= seq![t]);
    }
    if b.len() == 0 {
        assert(a + b =~= a);
        assert(told_lines(a) + told_lines(b) =~= told_lines(a));
    } else {
        assert((a + b).drop_last() =~= a + b.drop_last());
        assert((a + b).last() == b.last());
        law_stream_is_told_event_by_event(a, b.drop_last(), e);
        match told_event(b.last()) {
            Some(t) => {
                assert((told_lines(a) + told_lines(b.drop_last())).push(t) =~= told_lines(a) + told_lines(
                    b.drop_last(),
                ).push(t));
            },
            None => {},
        }
    }
}

/// A member is told the last forty things that happened, in their order; where
/// they are too long, their end. The same stands in the request for a summary.
pub proof fn law_stream_is_in_the_prompts(g: GroupConfig, events: Seq<EventView>, name: Seq<char>)
    ensures
        ({
            let all = told_lines(events);
            let n = if all.len() <= 40 {
                all.len() as int
            } else {
                40
            };
            let last = all.skip(all.len() - n);
            let s = join(last, "\n"@);
            &&& s.len() <= 12_000 ==> in_order(member_prompt(g, events, name), last) && in_order(
                summary_words(g, events),
                last,
            ) && contains_text(member_prompt(g, events, name), "\n\n【最近讨论记录】\n"@ + s)
            &&& s.len() > 12_000 ==> contains_text(member_prompt(g, events, name), s.skip(s.len() - 12_000))
                && contains_text(summary_words(g, events), s.skip(s.len() - 12_000))
        }),
{
    let all = told_lines(events);
    let n = if all.len() <= 40 {
        all.len() as int
    } else {
        40
    };
    let last = all.skip(all.len() - n);
    assert(last =~= last_items(all, 40));
    let s = join(last, "\n"@);
    lemma_join_in_order(last, "\n"@);
    let c = context_of(events, GROUP_CTX_EVENTS as nat, GROUP_CTX_CHARS as nat);
    let p = member_prompt(g, events, name);
    let q = summary_words(g, events);
    broadcast use group_holds;

    assert(contains_text(p, c));
    assert(contains_text(q, c));
    if s.len() <= 12_000 {
        assert(c == s);
        lemma_order_within(p, c, last);
        lemma_order_within(q, c, last);
    } else {
        assert(c == "……（前文省略）\n"@ + s.skip(s.len() - 12_000));
    }
}

proof fn lemma_order_within(t: Seq<char>, s: Seq<char>, parts: Seq<Seq<char>>)
    requires
        contains_text(t, s),
        in_order(s, parts),
    ensures
        in_order(t, parts),
{
    let i = choose|i: int| occurs_at(t, s, i);
    let pre = t.take(i);
    let post = t.skip(i + s.len());
    assert(t =~= pre + s + post);
    lemma_order_left(pre, s, parts);
    lemma_order_right(pre + s, post, parts);
}

/// What a member answers is kept as it was said, under its name, with everyone
/// whom it calls on; and a task that it hands on to a member waits for approval
/// with the member and the words.
pub proof fn law_answers_are_kept(g: GroupConfig, name: Seq<char>, text: Seq<char>, now: u64)
    ensures
        ({
            let ev = answer_events(g, name, text, now);
            let m = mentions_in(text, g.members@);
            &&& ev.len() >= 1
            &&& m.len() == 0 ==> ev[0] == (EventView::Message { from: name, text, ts: now })
            &&& m.len() > 0 ==> ev[0] == (EventView::Mention { from: name, text, ts: now, mentions: m })
            &&& ev.len() == 2 <==> delegate_in(text) is Some && is_member(g.members@, delegate_in(text)->Some_0.0)
            &&& ev.len() <= 2
            &&& ev.len() == 2 ==> ev[1] == (EventView::Subtask {
                from: name,
                to: delegate_in(text)->Some_0.0,
                prompt: delegate_in(text)->Some_0.1,
                ts: now,
                state: "pending"@,
            })
            &&& called_first(g, name, text) is Some <==> m.len() > 0 && m[0] != name
            &&& called_first(g, name, text) matches Some(c) ==> c == m[0]
        }),
{
}

proof fn lemma_trim_plain(s: Seq<char>)
    requires
        s.len() > 0,
        !is_space(s[0]),
        !is_space(s.last()),
    ensures
        trim(s) == s,
        trim(seq![' '] + s) == s,
{
    let t = seq![' '] + s;
    assert(t.drop_first() =~= s);
    assert(trim_start(t) == trim_start(s));
}

proof fn lemma_first_space_at(s: Seq<char>, n: int)
    requires
        0 <= n < s.len(),
        is_space(s[n]),
        forall|i: int| 0 <= i < n ==> !is_space(#[trigger] s[i]),
    ensures
        first_space(s) == n,
    decreases n,
{
    if n > 0 {
        assert(!is_space(s[0]));
        let t = s.drop_first();
        assert forall|i: int| 0 <= i < n - 1 implies !is_space(#[trigger] t[i]) by {
            assert(t[i] == s[i + 1]);
        }
        lemma_first_space_at(t, n - 1);
    }
}

/// A task in brackets, with the member behind an `@`, is taken as it is
/// written: the member and the words.
pub proof fn law_task_in_brackets(pre: Seq<char>, to: Seq<char>, task: Seq<char>, post: Seq<char>)
    requires
        to.len() > 0,
        task.len() > 0,
        forall|i: int| 0 <= i < to.len() ==> !is_space(#[trigger] to[i]) && to[i] != ']',
        forall|i: int| 0 <= i < task.len() ==> #[trigger] task[i] != ']',
        !is_space(task[0]),
        !is_space(task.last()),
        forall|i: int|
            0 <= i < pre.len() ==> !occurs_at(pre + "[DELEGATE"@ + " @"@ + to + " "@ + task + "]"@ + post, "[DELEGATE"@, i),
    ensures
        delegate_in(pre + "[DELEGATE"@ + " @"@ + to + " "@ + task + "]"@ + post) == Some((to, task)),
{
    reveal_strlit("[DELEGATE");
    reveal_strlit(" @");
    reveal_strlit(" ");
    reveal_strlit("]");
    reveal_strlit("@");
    let s = pre + "[DELEGATE"@ + " @"@ + to + " "@ + task + "]"@ + post;
    let at = pre.len() as int;
    assert(s.subrange(at, at + 9) =~= "[DELEGATE"@);
    assert(occurs_at(s, "[DELEGATE"@, at));
    lemma_find_from(s, "[DELEGATE"@, 0);
    assert(find_text(s, "[DELEGATE"@) == Some(at));
    let inner = s.skip(at + 9);
    let body = " @"@ + to + " "@ + task;
    assert(inner =~= body + "]"@ + post);
    lemma_first_index(inner, ']');
    let n = first_index(inner, ']');
    assert forall|i: int| 0 <= i < body.len() implies inner[i] != ']' by {
        assert(inner[i] == body[i]);
        if i < 2 {
            assert(body[i] == " @"@[i]);
        } else if i < 2 + to.len() {
            assert(body[i] == to[i - 2]);
        } else if i == 2 + to.len() {
            assert(body[i] == ' ');
        } else {
            assert(body[i] == task[i - 3 - to.len()]);
        }
    }
    assert(inner[body.len() as int] == ']');
    assert(n == body.len()) by {
        if n < body.len() {
            assert(inner[n] == ']');
        }
    }
    assert(inner.take(n) =~= body);
    let rest = to + " "@ + task;
    let marked = "@"@ + rest;
    assert(body =~= seq![' '] + marked);
    assert(marked.last() == task.last());
    assert(marked[0] == '@');
    lemma_trim_plain(marked);
    assert(marked.subrange(0, 1) =~= "@"@);
    assert(marked.skip(1) =~= rest);
    assert(rest[0] == to[0] && rest.last() == task.last());
    lemma_trim_plain(rest);
    assert forall|i: int| 0 <= i < to.len() implies !is_space(#[trigger] rest[i]) by {
        assert(rest[i] == to[i]);
    }
    assert(rest[to.len() as int] == ' ');
    lemma_first_space_at(rest, to.len() as int);
    assert(rest.take(to.len() as int) =~= to);
    assert(rest.skip(to.len() as int + 1) =~= task);
    lemma_trim_plain(task);
}

/// What comes of a task: the answer is told under the member's name and the
/// task is done; a failure is told with the member and the reason.
pub proof fn law_end_of_a_task(to: Seq<char>, prompt: Seq<char>, end: RunEnd, now: u64)
    ensures
        match end {
            RunEnd::Answer(t) => {
                &&& subtask_end(to, prompt, end, now).len() == 2
                &&& subtask_end(to, prompt, end, now)[0] == (EventView::Message { from: to, text: t@, ts: now })
                &&& subtask_end(to, prompt, end, now)[1] == (EventView::Subtask {
                    from: to,
                    to,
                    prompt,
                    ts: now,
                    state: "done"@,
                })
            },
            RunEnd::NoSession(e) => subtask_end(to, prompt, end, now).len() == 1 && (subtask_end(
                to,
                prompt,
                end,
                now,
            )[0] matches EventView::Error { text, ts } && contains_text(text, to) && contains_text(text, e@)),
            RunEnd::Failed(e) => subtask_end(to, prompt, end, now).len() == 1 && (subtask_end(
                to,
                prompt,
                end,
                now,
            )[0] matches EventView::Error { text, ts } && contains_text(text, to) && contains_text(text, e@)),
            RunEnd::Timeout => subtask_end(to, prompt, end, now).len() == 1 && (subtask_end(
                to,
                prompt,
                end,
                now,
            )[0] matches EventView::Error { text, ts } && contains_text(text, to)),
        },
{
    broadcast use group_holds;

}

/// A failed turn is told with the member and the reason, and a pause with its
/// reason and the move of the state.
pub proof fn law_failures_are_told(name: Seq<char>, f: TurnFailure, g: GroupConfig, why: Seq<char>, now: u64)
    ensures
        contains_text(turn_failure_text(name, f), "成员 "@ + name),
        match f {
            TurnFailure::Session(e) => contains_text(turn_failure_text(name, f), e@),
            TurnFailure::Prompt(e) => contains_text(turn_failure_text(name, f), e@),
            TurnFailure::Timeout => contains_text(turn_failure_text(name, f), "超时"@),
        },
        ({
            let p = pause_events(Some(g), why, now);
            &&& p.len() > 0 && p.last() == (EventView::Error { text: why, ts: now })
            &&& g.state@ == "discussing"@ ==> p.len() == 2 && p[0] == (EventView::StateChange {
                from_state: "discussing"@,
                to_state: "paused"@,
                ts: now,
            })
        }),
{
    reveal_strlit(" 发言超时");
    reveal_strlit("超时");
    assert(" 发言超时"@ =~= " 发言超时"@.take(3) + "超时"@);
    broadcast use group_holds;

    assert(contains_text(" 发言超时"@.take(3) + "超时"@, "超时"@));
    assert(contains_text("成员 "@ + name + " 发言超时"@, " 发言超时"@));
    lemma_holds_through("成员 "@ + name + " 发言超时"@, " 发言超时"@, "超时"@);
}

/// The last task that waits for a member is the one that is approved.
pub proof fn law_last_task_is_approved(v: Seq<EventView>, i: int, to: Seq<char>, from: Seq<char>, prompt: Seq<char>, ts: u64)
    requires
        0 <= i < v.len(),
        v[i] == (EventView::Subtask { from, to, prompt, ts, state: "pending"@ }),
        forall|k: int|
            i < k < v.len() ==> !((#[trigger] v[k]) is Subtask && v[k]->Subtask_to == to && v[k]->Subtask_state
                == "pending"@),
    ensures
        last_pending(v, to) == Some((from, prompt)),
    decreases v.len(),
{
    if i < v.len() - 1 {
        let l = v[v.len() - 1];
        assert(!(l is Subtask && l->Subtask_to == to && l->Subtask_state == "pending"@));
        let p = v.drop_last();
        assert forall|k: int| i < k < p.len() implies !((#[trigger] p[k]) is Subtask && p[k]->Subtask_to == to
            && p[k]->Subtask_state == "pending"@) by {
            assert(p[k] == v[k]);
        }
        law_last_task_is_approved(p, i, to, from, prompt, ts);
    }
}

/// The run of a group that was stopped is gone, and those of the others stay.
pub proof fn law_runs_are_kept_apart(v: Seq<(Seq<char>, u64)>, sid: Seq<char>, other: Seq<char>, n: u64)
    ensures
        run_of(without_run(v, sid), sid) is None,
        other != sid ==> run_of(without_run(v, sid), other) == run_of(v, other),
        run_of(without_run(v, sid).push((sid, n)), sid) == Some(n),
        other != sid ==> run_of(without_run(v, sid).push((sid, n)), other) == run_of(v, other),
    decreases v.len(),
{
    if v.len() > 0 {
        law_runs_are_kept_apart(v.drop_last(), sid, other, n);
        if v.last().0 != sid {
            assert(without_run(v.drop_last(), sid).push(v.last()).drop_last() =~= without_run(v.drop_last(), sid));
        }
    }
    let w = without_run(v, sid);
    assert(w.push((sid, n)).drop_last() =~= w);
}

proof fn lemma_invited(v: Seq<NamePair>, known: Seq<Seq<char>>)
    ensures
        invited_error(v, known) is None <==> forall|i: int|
            0 <= i < v.len() ==> (#[trigger] v[i]).0 != MAIN@ && known.contains(v[i].0),
    decreases v.len(),
{
    if v.len() > 0 {
        let p = v.drop_last();
        lemma_invited(p, known);
        if invited_error(v, known) is None {
            assert forall|i: int| 0 <= i < v.len() implies (#[trigger] v[i]).0 != MAIN@ && known.contains(v[i].0) by {
                if i < p.len() {
                    assert(p[i] == v[i]);
                }
            }
        }
        if forall|i: int| 0 <= i < v.len() ==> (#[trigger] v[i]).0 != MAIN@ && known.contains(v[i].0) {
            assert forall|i: int| 0 <= i < p.len() implies (#[trigger] p[i]).0 != MAIN@ && known.contains(p[i].0) by {
                assert(v[i] == p[i]);
            }
            assert(v[v.len() - 1] == v.last());
        }
    }
}

proof fn lemma_members_ok(v: Seq<NamePair>)
    ensures
        members_error(v) is None <==> (forall|i: int| 0 <= i < v.len() ==> is_member_name((#[trigger] v[i]).0))
            && forall|i: int, j: int| 0 <= i < j < v.len() ==> (#[trigger] v[i]).0 != (#[trigger] v[j]).0,
    decreases v.len(),
{
    if v.len() > 0 {
        let p = v.drop_last();
        let n = v.last().0;
        lemma_members_ok(p);
        if members_error(v) is None {
            assert forall|i: int| 0 <= i < v.len() implies is_member_name((#[trigger] v[i]).0) by {
                if i < p.len() {
                    assert(p[i] == v[i]);
                }
            }
            assert forall|i: int, j: int| 0 <= i < j < v.len() implies (#[trigger] v[i]).0 != (#[trigger] v[j]).0 by {
                assert(p[i] == v[i]);
                if j < p.len() {
                    assert(p[j] == v[j]);
                } else if p[i].0 == n {
                    assert(has_name(p, n));
                }
            }
        }
        if (forall|i: int| 0 <= i < v.len() ==> is_member_name((#[trigger] v[i]).0)) && forall|i: int, j: int|
            0 <= i < j < v.len() ==> (#[trigger] v[i]).0 != (#[trigger] v[j]).0 {
            assert forall|i: int| 0 <= i < p.len() implies is_member_name((#[trigger] p[i]).0) by {
                assert(v[i] == p[i]);
            }
            assert forall|i: int, j: int| 0 <= i < j < p.len() implies (#[trigger] p[i]).0 != (#[trigger] p[j]).0 by {
                assert(v[i] == p[i] && v[j] == p[j]);
            }
            assert(v[v.len() - 1] == v.last());
            if has_name(p, n) {
                let i = choose|i: int| 0 <= i < p.len() && (#[trigger] p[i]).0 == n;
                assert(v[i].0 != v[v.len() - 1].0);
            }
        }
    }
}

/// Which groups can be founded: those with a title and one to four agents that
/// exist, are not the main agent, and have different valid names. The main
/// agent joins by itself, in front.
pub proof fn law_which_groups_are_founded(title: Seq<char>, v: Seq<NamePair>, known: Seq<Seq<char>>)
    ensures
        create_error(title, v, known) is None <==> {
            &&& trim(title).len() > 0
            &&& 1 <= v.len() <= 4
            &&& forall|i: int|
                0 <= i < v.len() ==> (#[trigger] v[i]).0 != MAIN@ && known.contains(v[i].0) && is_valid_name(v[i].0)
            &&& forall|i: int, j: int| 0 <= i < j < v.len() ==> (#[trigger] v[i]).0 != (#[trigger] v[j]).0
        },
        with_main(v).len() == v.len() + 1,
        with_main(v)[0].0 == MAIN@,
        forall|i: int| 0 <= i < v.len() ==> (#[trigger] with_main(v)[i + 1]) == v[i],
{
    let w = with_main(v);
    lemma_invited(v, known);
    lemma_members_ok(w);
    assert forall|i: int| 0 <= i < v.len() implies (#[trigger] w[i + 1]) == v[i] by {}
    let a = forall|i: int|
        0 <= i < v.len() ==> (#[trigger] v[i]).0 != MAIN@ && known.contains(v[i].0) && is_valid_name(v[i].0);
    let b = forall|i: int, j: int| 0 <= i < j < v.len() ==> (#[trigger] v[i]).0 != (#[trigger] v[j]).0;
    if create_error(title, v, known) is None {
        assert forall|i: int| 0 <= i < v.len() implies (#[trigger] v[i]).0 != MAIN@ && known.contains(v[i].0)
            && is_valid_name(v[i].0) by {
            assert(is_member_name(w[i + 1].0));
        }
        assert forall|i: int, j: int| 0 <= i < j < v.len() implies (#[trigger] v[i]).0 != (#[trigger] v[j]).0 by {
            assert(w[i + 1].0 != w[j + 1].0);
        }
    }
    if trim(title).len() > 0 && 1 <= v.len() <= 4 && a && b {
        assert forall|i: int| 0 <= i < v.len() implies (#[trigger] v[i]).0 != MAIN@ && known.contains(v[i].0) by {}
        assert forall|i: int| 0 <= i < w.len() implies is_member_name((#[trigger] w[i]).0) by {
            if i > 0 {
                assert(w[i] == v[i - 1]);
            }
        }
        assert forall|i: int, j: int| 0 <= i < j < w.len() implies (#[trigger] w[i]).0 != (#[trigger] w[j]).0 by {
            assert(w[j] == v[j - 1]);
            if i > 0 {
                assert(w[i] == v[i - 1]);
            }
        }
    }
}

/// What a new group is: idle, with its title and its members under their names,
/// who speak in the order in which they are given.
pub proof fn law_new_group(g: GroupConfig, id: Seq<char>, title: Seq<char>, v: Seq<NamePair>, now: u64, i: int)
    requires
        founded(g, id, title, v, now),
        0 <= i < v.len(),
    ensures
        g.id@ == id && g.title@ == title && g.created_ts == now && g.members@.len() == v.len(),
        g.members@[i].name@ == v[i].0 && g.members@[i].display_name@ == v[i].1,
        g.members@[i].role@ == (if v[i].0 == MAIN@ {
            "owner"@
        } else {
            "member"@
        }),
        g.settings.turn_order@.len() == v.len() && g.settings.turn_order@[i]@ == v[i].0,
        g.state@ == "idle"@ && g.round == 0 && g.used_tokens == 0 && g.speaking is None && g.task is None,
        g.settings.max_rounds == 2 && g.settings.budget_tokens == 300_000,
{
    let order = crate::text::strs(g.settings.turn_order@);
    assert(order.len() == g.settings.turn_order@.len());
    assert(order.len() == v.len());
    assert(order[i] == v[i].0);
    assert(order[i] == g.settings.turn_order@[i]@);
}

/// The moves of a group, all of them.
pub proof fn law_moves(from: Seq<char>, to: Seq<char>)
    ensures
        may_move("idle"@, to) <==> to == "discussing"@,
        may_move("discussing"@, to) <==> to == "paused"@ || to == "stopped"@ || to == "summarized"@,
        may_move("paused"@, to) <==> to == "discussing"@ || to == "stopped"@,
        may_move("summarized"@, to) <==> to == "discussing"@,
        may_move(from, to) ==> from == "idle"@ || from == "discussing"@ || from == "paused"@ || from
            == "summarized"@,
{
    reveal_strlit("idle");
    reveal_strlit("discussing");
    reveal_strlit("paused");
    reveal_strlit("stopped");
    reveal_strlit("summarized");
    assert("idle"@.len() != "discussing"@.len());
    assert("idle"@.len() != "paused"@.len());
    assert("idle"@.len() != "stopped"@.len());
    assert("idle"@.len() != "summarized"@.len());
    assert("discussing"@.len() != "paused"@.len());
    assert("discussing"@.len() != "stopped"@.len());
    assert("discussing"@[0] != "summarized"@[0]);
    assert("paused"@.len() != "stopped"@.len());
    assert("paused"@.len() != "summarized"@.len());
    assert("stopped"@.len() != "summarized"@.len());
}

/// Without anyone to skip the next speaker is the one behind the present one in
/// the order, and behind the last the first; where nobody spoke, the first.
pub proof fn law_speakers_take_turns(order: Seq<Seq<char>>, p: int)
    requires
        order.no_duplicates(),
        order.len() >= 2,
        0 <= p < order.len(),
    ensures
        next_of(order, Some(order[p]), None) == Some(
            if p + 1 < order.len() {
                order[p + 1]
            } else {
                order[0]
            },
        ),
        next_of(order, None, None) == Some(order[0]),
{
    let n = order.len() as int;
    lemma_position(order, order[p]);
    assert(order.contains(order[p]));
    assert(position(order, order[p]) == p);
    let at = if p + 1 < n {
        p + 1
    } else {
        0
    };
    if p + 1 < n {
        vstd::arithmetic::div_mod::lemma_small_mod((p + 1) as nat, n as nat);
    } else {
        vstd::arithmetic::div_mod::lemma_mod_self_0(n);
    }
    assert((p + 1 + 0) % n == at);
    assert(order[at] != order[p]);
    vstd::arithmetic::div_mod::lemma_small_mod(0, n as nat);
    assert((0int + 0int) % n == 0);
}

/// Who can be made the lead: a member that is not the owner, while there is no
/// lead. It becomes the lead, and nobody else changes.
pub proof fn law_who_can_lead(g: GroupConfig, h: GroupConfig, i: int)
    requires
        0 <= i < g.members@.len(),
        forall|j: int| 0 <= j < i ==> (#[trigger] g.members@[j]).name@ != g.members@[i].name@,
    ensures
        promote_error(g, g.members@[i].name@) is None <==> g.members@[i].role@ != "owner"@ && forall|j: int|
            0 <= j < g.members@.len() ==> (#[trigger] g.members@[j]).role@ != "lead"@,
        role_set(g, h, member_at(g.members@, g.members@[i].name@), "lead"@) ==> h.members@[i].role@ == "lead"@
            && h.members@[i].name == g.members@[i].name && forall|j: int|
            0 <= j < g.members@.len() && j != i ==> (#[trigger] h.members@[j]) == g.members@[j],
{
    crate::groups::lemma_member_at(g.members@, g.members@[i].name@);
    crate::groups::lemma_role_at(g.members@, "lead"@);
    let k = member_at(g.members@, g.members@[i].name@);
    assert(k == i) by {
        if k < i {
            assert(g.members@[k].name@ != g.members@[i].name@);
        }
    }
}

/// Tokens are added up, as far as the counter goes.
pub proof fn law_tokens_add_up(a: u64, b: u64)
    ensures
        a + b <= u64::MAX ==> sat_add(a, b) == a + b,
        a + b > u64::MAX ==> sat_add(a, b) == u64::MAX,
{
}

/// An event is written with its type and each of its fields under its name.
pub proof fn law_event_has_its_fields(e: EventView)
    ensures
        ({
            let f = event_form(e);
            &&& f.get_u64("ts"@) == Some(event_ts(e))
            &&& match e {
                EventView::Message { from, text, ts } => f.get_str("type"@) == Some("message"@) && f.get_str("from"@)
                    == Some(from) && f.get_str("text"@) == Some(text) && event_ts(e) == ts,
                EventView::Mention { from, text, ts, mentions } => f.get_str("type"@) == Some("mention"@)
                    && f.get_str("from"@) == Some(from) && f.get_str("text"@) == Some(text) && event_ts(e) == ts && (
                f.get("mentions"@) matches Some(JsonView::Arr(a)) && a.len() == mentions.len() && forall|i: int|
                    0 <= i < mentions.len() ==> (#[trigger] a[i]) == JsonView::Str(mentions[i])),
                EventView::Subtask { from, to, prompt, ts, state } => f.get_str("type"@) == Some("subtask"@)
                    && f.get_str("from"@) == Some(from) && f.get_str("to"@) == Some(to) && f.get_str("prompt"@)
                    == Some(prompt) && f.get_str("state"@) == Some(state) && event_ts(e) == ts,
                EventView::Summary { text, ts } => f.get_str("type"@) == Some("summary"@) && f.get_str("text"@)
                    == Some(text) && event_ts(e) == ts,
                EventView::StateChange { from_state, to_state, ts } => f.get_str("type"@) == Some("state_change"@)
                    && f.get_str("from_state"@) == Some(from_state) && f.get_str("to_state"@) == Some(to_state)
                    && event_ts(e) == ts,
                EventView::Error { text, ts } => f.get_str("type"@) == Some("error"@) && f.get_str("text"@) == Some(
                    text,
                ) && event_ts(e) == ts,
                EventView::MemberActivity { from, kind, text, ts } => f.get_str("type"@) == Some("member_activity"@)
                    && f.get_str("from"@) == Some(from) && f.get_str("kind"@) == Some(kind) && f.get_str("text"@)
                    == Some(text) && event_ts(e) == ts,
            }
        }),
{
    reveal_strlit("ts");
    reveal_strlit("type");
    reveal_strlit("from");
    reveal_strlit("text");
    reveal_strlit("to");
    reveal_strlit("prompt");
    reveal_strlit("state");
    reveal_strlit("mentions");
    reveal_strlit("from_state");
    reveal_strlit("to_state");
    reveal_strlit("kind");
    assert("ts"@.len() != "type"@.len());
    assert("ts"@.len() != "from"@.len());
    assert("ts"@.len() != "text"@.len());
    assert("ts"@[1] != "to"@[1]);
    assert("ts"@.len() != "prompt"@.len());
    assert("ts"@.len() != "state"@.len());
    assert("ts"@.len() != "mentions"@.len());
    assert("ts"@.len() != "from_state"@.len());
    assert("ts"@.len() != "to_state"@.len());
    assert("ts"@.len() != "kind"@.len());
    assert("type"@[0] != "from"@[0]);
    assert("type"@[1] != "text"@[1]);
    assert("type"@.len() != "to"@.len());
    assert("type"@.len() != "prompt"@.len());
    assert("type"@.len() != "state"@.len());
    assert("type"@.len() != "mentions"@.len());
    assert("type"@.len() != "from_state"@.len());
    assert("type"@.len() != "to_state"@.len());
    assert("type"@[0] != "kind"@[0]);
    assert("from"@[0] != "text"@[0]);
    assert("from"@.len() != "to"@.len());
    assert("from"@.len() != "prompt"@.len());
    assert("from"@.len() != "state"@.len());
    assert("from"@.len() != "mentions"@.len());
    assert("from"@.len() != "from_state"@.len());
    assert("from"@.len() != "to_state"@.len());
    assert("from"@[0] != "kind"@[0]);
    assert("text"@.len() != "to"@.len());
    assert("text"@.len() != "prompt"@.len());
    assert("text"@.len() != "state"@.len());
    assert("text"@.len() != "mentions"@.len());
    assert("text"@.len() != "from_state"@.len());
    assert("text"@.len() != "to_state"@.len());
    assert("text"@[0] != "kind"@[0]);
    assert("to"@.len() != "prompt"@.len());
    assert("to"@.len() != "state"@.len());
    assert("to"@.len() != "mentions"@.len());
    assert("to"@.len() != "from_state"@.len());
    assert("to"@.len() != "to_state"@.len());
    assert("to"@.len() != "kind"@.len());
    assert("prompt"@.len() != "state"@.len());
    assert("prompt"@.len() != "mentions"@.len());
    assert("prompt"@.len() != "from_state"@.len());
    assert("prompt"@.len() != "to_state"@.len());
    assert("prompt"@.len() != "kind"@.len());
    assert("state"@.len() != "mentions"@.len());
    assert("state"@.len() != "from_state"@.len());
    assert("state"@.len() != "to_state"@.len());
    assert("state"@.len() != "kind"@.len());
    assert("mentions"@.len() != "from_state"@.len());
    assert("mentions"@[0] != "to_state"@[0]);
    assert("mentions"@.len() != "kind"@.len());
    assert("from_state"@.len() != "to_state"@.len());
    assert("from_state"@.len() != "kind"@.len());
    assert("to_state"@.len() != "kind"@.len());
}

/// The events of a stream are those on its lines, in order; a line that is no
/// event is passed over.
pub proof fn law_stream_is_read_by_lines(ls: Seq<Seq<char>>, more: Seq<Seq<char>>, line: Seq<char>)
    ensures
        line_events(ls + more) == line_events(ls) + line_events(more),
        trim(line).len() > 0 && json_parsed(trim(line)) is Ok && event_of_form(json_parsed(trim(line))->Ok_0) is Some
            ==> line_events(seq![line]) == seq![event_of_form(json_parsed(trim(line))->Ok_0)->Some_0],
        trim(line).len() == 0 || json_parsed(trim(line)) is Err || event_of_form(json_parsed(trim(line))->Ok_0) is None
            ==> line_events(seq![line]).len() == 0,
    decreases more.len(),
{
    let none = Seq::<Seq<char>>::empty();
    assert(seq![line].drop_last() =~= none);
    assert(line_events(none) =~= Seq::<EventView>::empty());
    assert(seq![line].last() == line);
    if more.len() == 0 {
        assert(ls + more =~= ls);
        assert(line_events(ls + more) =~= line_events(ls) + line_events(more));
    } else {
        law_stream_is_read_by_lines(ls, more.drop_last(), line);
        assert((ls + more).drop_last() =~= ls + more.drop_last());
        assert(line_events(ls + more) =~= line_events(ls) + line_events(more));
    }
    if trim(line).len() > 0 && json_parsed(trim(line)) is Ok && event_of_form(json_parsed(trim(line))->Ok_0) is Some {
        assert(line_events(seq![line]) =~= seq![event_of_form(json_parsed(trim(line))->Ok_0)->Some_0]);
    }
}

/// An event as a list: its type, then its fields.
pub open spec fn as_list(e: EventView) -> JsonView {
    JsonView::Arr(
        match e {
            EventView::Message { from, text, ts } => seq![
                JsonView::Str("message"@),
                JsonView::Str(from),
                JsonView::Str(text),
                JsonView::Uint(ts),
            ],
            EventView::Mention { from, text, ts, mentions } => seq![
                JsonView::Str("mention"@),
                JsonView::Str(from),
                JsonView::Str(text),
                JsonView::Uint(ts),
                JsonView::Arr(Seq::new(mentions.len(), |i: int| JsonView::Str(mentions[i]))),
            ],
            EventView::Subtask { from, to, prompt, ts, state } => seq![
                JsonView::Str("subtask"@),
                JsonView::Str(from),
                JsonView::Str(to),
                JsonView::Str(prompt),
                JsonView::Uint(ts),
                JsonView::Str(state),
            ],
            EventView::Summary { text, ts } => seq![
                JsonView::Str("summary"@),
                JsonView::Str(text),
                JsonView::Uint(ts),
            ],
            EventView::StateChange { from_state, to_state, ts } => seq![
                JsonView::Str("state_change"@),
                JsonView::Str(from_state),
                JsonView::Str(to_state),
                JsonView::Uint(ts),
            ],
            EventView::Error { text, ts } => seq![JsonView::Str("error"@), JsonView::Str(text), JsonView::Uint(ts)],
            EventView::MemberActivity { from, kind, text, ts } => seq![
                JsonView::Str("member_activity"@),
                JsonView::Str(from),
                JsonView::Str(kind),
                JsonView::Str(text),
                JsonView::Uint(ts),
            ],
        },
    )
}

/// An event that is given as a list is read as the same event.
pub proof fn law_event_is_read_from_a_list(e: EventView)
    ensures
        event_of_form(as_list(e)) == Some(e),
{
    reveal_strlit("message");
    reveal_strlit("mention");
    reveal_strlit("subtask");
    reveal_strlit("summary");
    reveal_strlit("state_change");
    reveal_strlit("error");
    reveal_strlit("member_activity");
    assert("message"@[2] != "mention"@[2]);
    assert("message"@[0] != "subtask"@[0]);
    assert("message"@[0] != "summary"@[0]);
    assert("message"@.len() != "state_change"@.len());
    assert("message"@.len() != "error"@.len());
    assert("message"@.len() != "member_activity"@.len());
    assert("mention"@[0] != "subtask"@[0]);
    assert("mention"@[0] != "summary"@[0]);
    assert("mention"@.len() != "state_change"@.len());
    assert("mention"@.len() != "error"@.len());
    assert("mention"@.len() != "member_activity"@.len());
    assert("subtask"@[2] != "summary"@[2]);
    assert("subtask"@.len() != "state_change"@.len());
    assert("subtask"@.len() != "error"@.len());
    assert("subtask"@.len() != "member_activity"@.len());
    assert("summary"@.len() != "state_change"@.len());
    assert("summary"@.len() != "error"@.len());
    assert("summary"@.len() != "member_activity"@.len());
    assert("state_change"@.len() != "error"@.len());
    assert("state_change"@.len() != "member_activity"@.len());
    assert("error"@.len() != "member_activity"@.len());
    if let EventView::Mention { mentions, .. } = e {
        let a = Seq::new(mentions.len(), |i: int| JsonView::Str(mentions[i]));
        assert(Seq::new(a.len(), |i: int| a[i]->Str_0) =~= mentions);
    }
}

/// A group goes on while what it used, with what comes, is within its budget.
pub proof fn law_budget_of_a_group(g: GroupConfig, n: u64)
    requires
        g.used_tokens + n <= u64::MAX,
    ensures
        within(Some(g), n) <==> g.used_tokens + n <= g.settings.budget_tokens,
{
}

/// A discussion can begin in a group that rests: one that is idle or paused.
pub proof fn law_when_a_group_rests(g: GroupConfig)
    ensures
        g.state@ == "idle"@ ==> at_rest(g),
        g.state@ == "paused"@ ==> at_rest(g),
        g.state@ != "idle"@ && g.state@ != "paused"@ ==> !at_rest(g),
{
}

/// An answer is counted in the record of its group: its tokens, and the round
/// where everyone has spoken. A group over its budget pauses; one that is done,
/// or at the end of its last round, is summed up.
pub proof fn law_answer_is_counted(
    spoken: GroupConfig,
    g: GroupConfig,
    name: Seq<char>,
    text: Seq<char>,
    tokens: u64,
    kept: TurnsView,
    after: TurnsView,
    h: GroupConfig,
    end: TurnEnd,
)
    requires
        turn_taken(spoken, Some(g), name, text, tokens, kept, after, Some(h), end),
        g.used_tokens + tokens <= u64::MAX,
    ensures
        ({
            let fits = g.used_tokens + tokens <= g.settings.budget_tokens;
            let count = if kept.spoke.contains(name) {
                kept.spoke.len()
            } else {
                kept.spoke.len() + 1
            };
            let everyone = count >= spoken.members@.len();
            &&& h.used_tokens == g.used_tokens + tokens
            &&& h.members == g.members && h.task == g.task && h.settings == g.settings && h.id == g.id
            &&& after.streak == 0
            &&& !fits ==> end == TurnEnd::PauseBudget && after.spoke == kept.spoke && h.round == g.round
            &&& !fits && g.state@ == "discussing"@ ==> h.state@ == "paused"@
            &&& fits ==> h.state@ == g.state@
            &&& fits && contains_text(text, "[DONE]"@) ==> end == TurnEnd::Summarize
            &&& fits && everyone ==> h.round == g.round + 1 && after.spoke.len() == 0
            &&& fits && everyone && g.round + 1 >= g.settings.max_rounds ==> end == TurnEnd::Summarize
            &&& fits && !everyone ==> h.round == g.round && after.spoke.contains(name) && after.spoke.len() == count
            &&& fits && !contains_text(text, "[DONE]"@) && !(everyone && g.round + 1 >= g.settings.max_rounds)
                ==> end == TurnEnd::NextTurn
        }),
{
    if !kept.spoke.contains(name) {
        assert(kept.spoke.push(name)[kept.spoke.len() as int] == name);
    }
    law_moves(g.state@, "paused"@);
}

/// An answer that calls on nobody leaves the order of speaking as it is.
pub proof fn law_order_goes_on(
    spoken: GroupConfig,
    g: GroupConfig,
    name: Seq<char>,
    text: Seq<char>,
    tokens: u64,
    kept: TurnsView,
    after: TurnsView,
    h: GroupConfig,
    end: TurnEnd,
)
    requires
        turn_taken(spoken, Some(g), name, text, tokens, kept, after, Some(h), end),
        called_first(spoken, name, text) is None,
    ensures
        h.speaking is Some <==> g.speaking is Some,
        h.speaking is Some ==> h.speaking->Some_0@ == g.speaking->Some_0@,
{
}

/// A group that pauses changes its state and nothing else.
pub proof fn law_pausing(g: GroupConfig, h: GroupConfig)
    requires
        is_paused(g, h),
    ensures
        h.state@ == "paused"@,
        h.id == g.id && h.members == g.members && h.settings == g.settings && h.task == g.task,
        h.speaking == g.speaking && h.round == g.round && h.used_tokens == g.used_tokens,
{
}

/// Who leads a group: a member whose role it is.
pub proof fn law_who_leads(m: Seq<Member>, name: Seq<char>, i: int)
    ensures
        0 <= i < m.len() && m[i].name@ == name && m[i].role@ == "lead"@ ==> leads(m, name),
        leads(m, name) ==> exists|j: int| 0 <= j < m.len() && (#[trigger] m[j]).name@ == name && m[j].role@ == "lead"@,
{
}

/// Failures in a row are counted one by one.
pub proof fn law_failures_in_a_row(streak: u32)
    ensures
        streak < u32::MAX ==> one_more(streak) == streak + 1,
        one_more(u32::MAX) == u32::MAX,
{
}

/// Who gets a role gets nothing else, and nobody else gets anything.
pub proof fn law_role_is_set(g: GroupConfig, h: GroupConfig, i: int, role: Seq<char>, j: int)
    requires
        role_set(g, h, i, role),
        0 <= i < g.members@.len(),
        0 <= j < g.members@.len(),
    ensures
        h.members@.len() == g.members@.len(),
        h.members@[i].role@ == role,
        h.members@[i].name == g.members@[i].name,
        j != i ==> h.members@[j] == g.members@[j],
        h.id == g.id && h.state == g.state && h.settings == g.settings && h.task == g.task,
        h.round == g.round && h.used_tokens == g.used_tokens && h.speaking == g.speaking,
{
}

} // verus!
