//! Growth: the hard signals of a turn, the lessons drawn from them, the log of
//! growth events, the use of skills, and the clusters of lessons that become
//! new skills.

use vstd::multiset::Multiset;
use vstd::prelude::*;

use crate::clock::unix_seconds;
use crate::json::{
    flat_object, json_parsed, json_printed, parse, print, Json, JsonView,
};
use crate::skills::{read_skill_status, status_of};
use crate::text::{
    after_prefix, ascii_alnum, chars_of, contains_string, contains_text, dec, dec_string, find_text, find_chars,
    first_index, head, head_string, index_from, is_ascii_alnum, join, join_strings, lemma_find_from,
    lemma_first_index, lines, lines_of, list_has, lossy, lowercase, occurs_at, slice_of, sort_strings,
    text_of_bytes, sorted_texts, starts_with, str_eq, strip_both, strip_both_string, strip_prefix, strs,
    to_lowercase, trim, trim_string, unicode_alnum, chars_at,
};
use crate::types::{msg_views, opt_view, plain_view, Message, Role};

verus! {

// ---------- signals ----------

/// The hard signals of one turn.
#[derive(Debug, Clone)]
pub struct TurnSignals {
    /// Tools that failed, with the start of the failure.
    pub tool_errors: Vec<(String, String)>,
    /// What the user said in between.
    pub steers: Vec<String>,
    /// How often a tool that had failed succeeded.
    pub retries_recovered: usize,
}

impl Default for TurnSignals {
    fn default() -> (r: Self)
        ensures
            r.tool_errors@.len() == 0,
            r.steers@.len() == 0,
            r.retries_recovered == 0,
    {
        TurnSignals { tool_errors: Vec::new(), steers: Vec::new(), retries_recovered: 0 }
    }
}

/// One line per failed tool.
pub open spec fn error_lines(v: Seq<(String, String)>) -> Seq<char>
    decreases v.len(),
{
    if v.len() == 0 {
        Seq::empty()
    } else {
        error_lines(v.drop_last()) + "- 工具 "@ + v.last().0@ + " 失败："@ + head(v.last().1@, 120) + "\n"@
    }
}

/// One line per correction.
pub open spec fn steer_lines(v: Seq<String>) -> Seq<char>
    decreases v.len(),
{
    if v.len() == 0 {
        Seq::empty()
    } else {
        steer_lines(v.drop_last()) + "- 用户中途纠正：「"@ + head(v.last()@, 120) + "」\n"@
    }
}

pub open spec fn at_most<T>(v: Seq<T>, n: nat) -> Seq<T> {
    if v.len() <= n {
        v
    } else {
        v.take(n as int)
    }
}

/// The signals in words: up to six failures, up to four corrections, and the
/// retries.
pub open spec fn signals_text(s: TurnSignals) -> Seq<char> {
    error_lines(at_most(s.tool_errors@, 6)) + steer_lines(at_most(s.steers@, 4)) + (if s.retries_recovered > 0 {
        "- 失败后重试成功 "@ + dec(s.retries_recovered as nat) + " 次\n"@
    } else {
        Seq::empty()
    })
}

impl TurnSignals {
    /// Whether the turn gave no signal.
    pub fn is_empty(&self) -> (r: bool)
        ensures
            r == (self.tool_errors@.len() == 0 && self.steers@.len() == 0 && self.retries_recovered == 0),
    {
        self.tool_errors.len() == 0 && self.steers.len() == 0 && self.retries_recovered == 0
    }

    /// The signals in words.
    pub fn summary(&self) -> (r: String)
        ensures
            r@ == signals_text(*self),
    {
        let mut s: String = String::new();
        let n: usize = if self.tool_errors.len() <= 6 {
            self.tool_errors.len()
        } else {
            6
        };
        let mut i: usize = 0;
        while i < n
            invariant
                i <= n,
                n <= self.tool_errors.len(),
                s@ == error_lines(self.tool_errors@.take(i as int)),
            decreases n - i,
        {
            assert(self.tool_errors@.take(i as int + 1).drop_last() =~= self.tool_errors@.take(i as int));
            s.append("- 工具 ");
            s.append(self.tool_errors[i].0.as_str());
            s.append(" 失败：");
            let e: String = head_string(self.tool_errors[i].1.as_str(), 120);
            s.append(e.as_str());
            s.append("\n");
            i += 1;
        }
        assert(self.tool_errors@.take(n as int) =~= at_most(self.tool_errors@, 6));
        let mut t: String = String::new();
        let m: usize = if self.steers.len() <= 4 {
            self.steers.len()
        } else {
            4
        };
        let mut k: usize = 0;
        while k < m
            invariant
                k <= m,
                m <= self.steers.len(),
                t@ == steer_lines(self.steers@.take(k as int)),
            decreases m - k,
        {
            assert(self.steers@.take(k as int + 1).drop_last() =~= self.steers@.take(k as int));
            t.append("- 用户中途纠正：「");
            let e: String = head_string(self.steers[k].as_str(), 120);
            t.append(e.as_str());
            t.append("」\n");
            k += 1;
        }
        assert(self.steers@.take(m as int) =~= at_most(self.steers@, 4));
        s.append(t.as_str());
        if self.retries_recovered > 0 {
            let mut u: String = "- 失败后重试成功 ".to_string();
            let d: String = dec_string(self.retries_recovered as u64);
            u.append(d.as_str());
            u.append(" 次\n");
            s.append(u.as_str());
        }
        assert(s@ =~= signals_text(*self));
        s
    }
}

// ---------- reflection ----------

/// What the model is told before it turns signals into a lesson.
pub const REFLECTION_RULES: &'static str = "你是信号翻译器，不是评判者。给你一轮 Agent 会话中采集的硬信号（工具失败/用户纠正/重试记录）和任务摘要。你的唯一职责：判断信号里是否含有一条【可操作的教训】——必须具体到命令、参数、路径或流程步骤，能指导下次同类任务直接避开这个坑。\n\n规则：\n1. 只翻译硬信号，禁止推断、禁止美化、禁止总结优点\n2. 教训必须是操作性的（'用 X 时要先 Y'），不是认知性的（'要小心'）\n3. 信号不足以提炼教训时，只输出 NO_LESSON\n4. 输出格式（严格遵守）：\nLESSON: <一句教训，30字内>\nEVIDENCE: <引用哪条信号>";

/// The request for a reflection.
pub fn reflection_messages(signals: &TurnSignals, task_summary: &str) -> (r: Vec<Message>)
    ensures
        msg_views(r@) == seq![
            plain_view(Role::System, REFLECTION_RULES@),
            plain_view(
                Role::User,
                "任务摘要："@ + task_summary@ + "\n\n硬信号：\n"@ + signals_text(*signals),
            ),
        ],
{
    let mut user: String = "任务摘要：".to_string();
    user.append(task_summary);
    user.append("\n\n硬信号：\n");
    let s: String = signals.summary();
    user.append(s.as_str());
    let mut out: Vec<Message> = Vec::new();
    out.push(Message::plain(Role::System, REFLECTION_RULES));
    out.push(Message::plain(Role::User, user.as_str()));
    assert(msg_views(out@) =~= seq![
        plain_view(Role::System, REFLECTION_RULES@),
        plain_view(Role::User, "任务摘要："@ + task_summary@ + "\n\n硬信号：\n"@ + signals_text(*signals)),
    ]);
    out
}

/// The value on a line that begins with `key`, without quotes; empty values do
/// not count.
pub open spec fn value_on(line: Seq<char>, key: Seq<char>) -> Option<Seq<char>> {
    match after_prefix(trim(line), key) {
        Some(v) => if strip_both(trim(v), '"').len() > 0 {
            Some(strip_both(trim(v), '"'))
        } else {
            None
        },
        None => None,
    }
}

/// The last lesson among lines.
pub open spec fn last_lesson(ls: Seq<Seq<char>>) -> Option<Seq<char>>
    decreases ls.len(),
{
    if ls.len() == 0 {
        None
    } else {
        match value_on(ls.last(), "LESSON:"@) {
            Some(v) => Some(v),
            None => last_lesson(ls.drop_last()),
        }
    }
}

/// The last evidence among lines.
pub open spec fn last_evidence(ls: Seq<Seq<char>>) -> Option<Seq<char>>
    decreases ls.len(),
{
    if ls.len() == 0 {
        None
    } else {
        match value_on(ls.last(), "EVIDENCE:"@) {
            Some(v) => Some(v),
            None => last_evidence(ls.drop_last()),
        }
    }
}

/// The lesson and the evidence in the model's answer.
pub open spec fn reflected(text: Seq<char>) -> Option<(Seq<char>, Seq<char>)> {
    if contains_text(text, "NO_LESSON"@) {
        None
    } else {
        match (last_lesson(lines(text)), last_evidence(lines(text))) {
            (Some(l), Some(e)) => Some((l, e)),
            (Some(l), None) => Some((l, "（信号见事件流）"@)),
            _ => None,
        }
    }
}

fn value_on_of(line: &str, key: &str) -> (r: Option<String>)
    ensures
        opt_view(r) == value_on(line@, key@),
{
    let t: String = trim_string(line);
    match strip_prefix(t.as_str(), key) {
        Some(v) => {
            let a: String = trim_string(v.as_str());
            let b: String = strip_both_string(a.as_str(), '"');
            if b.as_str().is_empty() {
                None
            } else {
                Some(b)
            }
        },
        None => None,
    }
}

/// Reads the lesson and the evidence out of the model's answer; an answer
/// without a lesson gives none.
pub fn parse_reflection(text: &str) -> (r: Option<(String, String)>)
    ensures
        match r {
            Some(p) => reflected(text@) == Some((p.0@, p.1@)),
            None => reflected(text@) is None,
        },
{
    if contains_string(text, "NO_LESSON") {
        return None;
    }
    let ls: Vec<String> = lines_of(text);
    let ghost all = lines(text@);
    let mut lesson: Option<String> = None;
    let mut evidence: Option<String> = None;
    let mut i: usize = 0;
    assert(all.take(0) =~= Seq::<Seq<char>>::empty());
    while i < ls.len()
        invariant
            i <= ls.len(),
            all == strs(ls@),
            opt_view(lesson) == last_lesson(all.take(i as int)),
            opt_view(evidence) == last_evidence(all.take(i as int)),
        decreases ls.len() - i,
    {
        proof {
            assert(all.take(i as int + 1).drop_last() =~= all.take(i as int));
            assert(all.take(i as int + 1).last() == ls@[i as int]@);
        }
        if let Some(v) = value_on_of(ls[i].as_str(), "LESSON:") {
            lesson = Some(v);
        }
        if let Some(v) = value_on_of(ls[i].as_str(), "EVIDENCE:") {
            evidence = Some(v);
        }
        i += 1;
    }
    assert(all.take(i as int) =~= all);
    match (lesson, evidence) {
        (Some(l), Some(e)) => Some((l, e)),
        (Some(l), None) => Some((l, "（信号见事件流）".to_string())),
        _ => None,
    }
}

/// The goal in a file: its text without the white space around it, if any is
/// left.
pub fn goal_of(content: &str) -> (r: Option<String>)
    ensures
        opt_view(r) == (if trim(content@).len() == 0 {
            None
        } else {
            Some(trim(content@))
        }),
{
    let t: String = trim_string(content);
    if t.as_str().is_empty() {
        None
    } else {
        Some(t)
    }
}

// ---------- growth events ----------

/// One step of growth.
#[derive(Debug, Clone, PartialEq, Eq)]
pub struct EvolutionEvent {
    pub ts: u64,
    pub kind: String,
    pub content: String,
    pub evidence: String,
    pub session_id: String,
}

/// What a growth event holds.
pub struct GrowthView {
    pub ts: u64,
    pub kind: Seq<char>,
    pub content: Seq<char>,
    pub evidence: Seq<char>,
    pub session_id: Seq<char>,
}

impl View for EvolutionEvent {
    type V = GrowthView;

    open spec fn view(&self) -> GrowthView {
        GrowthView {
            ts: self.ts,
            kind: self.kind@,
            content: self.content@,
            evidence: self.evidence@,
            session_id: self.session_id@,
        }
    }
}

pub open spec fn growth_views(v: Seq<EvolutionEvent>) -> Seq<GrowthView> {
    Seq::new(v.len(), |i: int| v[i]@)
}

/// The time now.
pub fn now_ts() -> u64 {
    unix_seconds()
}

/// The time now.
pub fn now_ts_pub() -> u64 {
    now_ts()
}

/// An event of the agent's own growth at a given time.
pub fn event_at(kind: &str, content: &str, evidence: &str, ts: u64) -> (r: EvolutionEvent)
    ensures
        r@ == (GrowthView {
            ts,
            kind: kind@,
            content: content@,
            evidence: evidence@,
            session_id: "self-evolution"@,
        }),
{
    EvolutionEvent {
        ts,
        kind: kind.to_string(),
        content: content.to_string(),
        evidence: evidence.to_string(),
        session_id: "self-evolution".to_string(),
    }
}

/// An event of the agent's own growth now.
pub fn event(kind: &str, content: &str, evidence: &str) -> (r: EvolutionEvent)
    ensures
        r@ == (GrowthView {
            ts: r.ts,
            kind: kind@,
            content: content@,
            evidence: evidence@,
            session_id: "self-evolution"@,
        }),
{
    event_at(kind, content, evidence, now_ts())
}

/// An event as the log writes it; the members in the order of their names.
pub open spec fn growth_form(e: GrowthView) -> JsonView {
    JsonView::obj().with("content"@, JsonView::Str(e.content)).with("evidence"@, JsonView::Str(e.evidence)).with(
        "kind"@,
        JsonView::Str(e.kind),
    ).with("session_id"@, JsonView::Str(e.session_id)).with("ts"@, JsonView::Uint(e.ts))
}

pub fn growth_json(e: &EvolutionEvent) -> (r: Json)
    ensures
        r@ == growth_form(e@),
{
    Json::obj().with("content", Json::text(e.content.as_str())).with(
        "evidence",
        Json::text(e.evidence.as_str()),
    ).with("kind", Json::text(e.kind.as_str())).with("session_id", Json::text(e.session_id.as_str())).with(
        "ts",
        Json::Uint(e.ts),
    )
}

/// The event that a JSON value stands for: all its fields are there, as the
/// members of an object or one after the other in a list.
pub open spec fn growth_of_form(v: JsonView) -> Option<GrowthView> {
    match (
        v.field_u64("ts"@, 0, 5),
        v.field_str("kind"@, 1, 5),
        v.field_str("content"@, 2, 5),
        v.field_str("evidence"@, 3, 5),
        v.field_str("session_id"@, 4, 5),
    ) {
        (Some(ts), Some(kind), Some(content), Some(evidence), Some(session_id)) => Some(
            GrowthView { ts, kind, content, evidence, session_id },
        ),
        _ => None,
    }
}

pub fn growth_of_json(v: &Json) -> (r: Option<EvolutionEvent>)
    ensures
        match r {
            Some(e) => growth_of_form(v@) == Some(e@),
            None => growth_of_form(v@) is None,
        },
{
    match (
        v.field_u64("ts", 0, 5),
        v.field_str("kind", 1, 5),
        v.field_str("content", 2, 5),
        v.field_str("evidence", 3, 5),
        v.field_str("session_id", 4, 5),
    ) {
        (Some(ts), Some(kind), Some(content), Some(evidence), Some(session_id)) => Some(
            EvolutionEvent {
                ts,
                kind: kind.to_string(),
                content: content.to_string(),
                evidence: evidence.to_string(),
                session_id: session_id.to_string(),
            },
        ),
        _ => None,
    }
}

/// The event on a line, if there is one.
pub open spec fn growth_on(line: Seq<char>) -> Option<GrowthView> {
    match json_parsed(line) {
        Ok(v) => growth_of_form(v),
        Err(_) => None,
    }
}

/// The events on lines; damaged lines are passed over.
pub open spec fn growth_lines(ls: Seq<Seq<char>>) -> Seq<GrowthView>
    decreases ls.len(),
{
    if ls.len() == 0 {
        Seq::empty()
    } else {
        match growth_on(ls.last()) {
            Some(e) => growth_lines(ls.drop_last()).push(e),
            None => growth_lines(ls.drop_last()),
        }
    }
}

/// At most the last `n`.
pub open spec fn latest<T>(v: Seq<T>, n: nat) -> Seq<T> {
    if v.len() <= n {
        v
    } else {
        v.skip(v.len() - n)
    }
}

/// Reads the last `limit` events of a log, the latest at the end; damaged
/// lines are passed over.
pub fn read_events(content: &str, limit: usize) -> (r: Vec<EvolutionEvent>)
    ensures
        growth_views(r@) == latest(growth_lines(lines(content@)), limit as nat),
{
    let ls: Vec<String> = lines_of(content);
    let ghost all = lines(content@);
    let mut out: Vec<EvolutionEvent> = Vec::new();
    let mut i: usize = 0;
    assert(growth_views(out@) =~= growth_lines(all.take(0)));
    while i < ls.len()
        invariant
            i <= ls.len(),
            all == strs(ls@),
            growth_views(out@) == growth_lines(all.take(i as int)),
        decreases ls.len() - i,
    {
        let ghost before = growth_views(out@);
        proof {
            assert(all.take(i as int + 1).drop_last() =~= all.take(i as int));
            assert(all.take(i as int + 1).last() == ls@[i as int]@);
        }
        if let Ok(v) = parse(ls[i].as_str()) {
            if let Some(e) = growth_of_json(&v) {
                out.push(e);
                assert(growth_views(out@) =~= before.push(e@));
            }
        }
        i += 1;
    }
    assert(all.take(i as int) =~= all);
    if out.len() > limit {
        let at: usize = out.len() - limit;
        let ghost whole = growth_views(out@);
        let last: Vec<EvolutionEvent> = out.split_off(at);
        assert(growth_views(last@) =~= whole.skip(at as int));
        last
    } else {
        out
    }
}

proof fn lemma_growth_form(e: GrowthView)
    ensures
        flat_object(growth_form(e)),
        growth_of_form(growth_form(e)) == Some(e),
{
    reveal_strlit("content");
    reveal_strlit("evidence");
    reveal_strlit("kind");
    reveal_strlit("session_id");
    reveal_strlit("ts");
    let f = growth_form(e);
    let m = f->Obj_0;
    assert(m.len() == 5);
    assert("content"@[0] < "evidence"@[0]);
    assert("evidence"@[0] < "kind"@[0]);
    assert("kind"@[0] < "session_id"@[0]);
    assert("session_id"@[0] < "ts"@[0]);
    assert(flat_object(f));
    crate::groups::lemma_member_sorted(f, 0);
    crate::groups::lemma_member_sorted(f, 1);
    crate::groups::lemma_member_sorted(f, 2);
    crate::groups::lemma_member_sorted(f, 3);
    crate::groups::lemma_member_sorted(f, 4);
}

proof fn lemma_growth_lines_concat(a: Seq<Seq<char>>, b: Seq<Seq<char>>)
    ensures
        growth_lines(a + b) == growth_lines(a) + growth_lines(b),
    decreases b.len(),
{
    if b.len() == 0 {
        assert(a + b =~= a);
        assert(growth_lines(a) + growth_lines(b) =~= growth_lines(a));
    } else {
        assert((a + b).drop_last() =~= a + b.drop_last());
        assert((a + b).last() == b.last());
        lemma_growth_lines_concat(a, b.drop_last());
        match growth_on(b.last()) {
            Some(e) => {
                assert(growth_lines(a) + growth_lines(b) =~= (growth_lines(a) + growth_lines(
                    b.drop_last(),
                )).push(e));
            },
            None => {},
        }
    }
}

/// Appends an event to the text of the log, as one line. Reading the log then
/// gives what it gave before, and the event.
pub fn append_event(content: String, e: &EvolutionEvent) -> (r: String)
    ensures
        r@ == content@ + json_printed(growth_form(e@)).push('\n'),
        content@.len() == 0 || content@.last() == '\n' ==> growth_lines(lines(r@)) == growth_lines(
            lines(content@),
        ).push(e@),
{
    let j: Json = growth_json(e);
    let line: String = print(&j);
    let ghost old_content = content@;
    let mut out: String = content;
    out.append(line.as_str());
    out.push('\n');
    proof {
        assert(out@ =~= old_content + line@.push('\n'));
        if old_content.len() == 0 || old_content.last() == '\n' {
            lemma_growth_form(e@);
            crate::text::lemma_lines_concat(old_content, line@.push('\n'));
            crate::text::lemma_one_line(line@);
            let one = seq![line@];
            lemma_growth_lines_concat(lines(old_content), one);
            assert(one.drop_last() =~= Seq::<Seq<char>>::empty());
            assert(growth_lines(one.drop_last()) =~= Seq::<GrowthView>::empty());
            assert(growth_lines(one) =~= seq![e@]);
            assert(growth_lines(lines(out@)) =~= growth_lines(lines(old_content)).push(e@));
        }
    }
    out
}

// ---------- the use of skills ----------

/// How often a skill was used, and when last.
#[derive(Debug, Clone, Copy, PartialEq, Eq, Structural)]
pub struct SkillUseStat {
    pub count: u64,
    pub success: u64,
    pub fail: u64,
    pub last_used: u64,
}

pub open spec fn no_use() -> SkillUseStat {
    SkillUseStat { count: 0, success: 0, fail: 0, last_used: 0 }
}

impl Default for SkillUseStat {
    fn default() -> (r: Self)
        ensures
            r == no_use(),
    {
        SkillUseStat { count: 0, success: 0, fail: 0, last_used: 0 }
    }
}

/// The record of a skill's use, if there is one.
pub open spec fn use_of(v: Seq<(String, SkillUseStat)>, name: Seq<char>) -> Option<SkillUseStat>
    decreases v.len(),
{
    if v.len() == 0 {
        None
    } else if v[0].0@ == name {
        Some(v[0].1)
    } else {
        use_of(v.drop_first(), name)
    }
}

/// The record of a skill's use, or an empty one.
pub open spec fn use_or_none(v: Seq<(String, SkillUseStat)>, name: Seq<char>) -> SkillUseStat {
    match use_of(v, name) {
        Some(u) => u,
        None => no_use(),
    }
}

/// The record after one more use at the time `now`.
pub open spec fn used(u: SkillUseStat, ok: bool, now: u64) -> SkillUseStat {
    SkillUseStat {
        count: (u.count + 1) as u64,
        success: if ok {
            (u.success + 1) as u64
        } else {
            u.success
        },
        fail: if ok {
            u.fail
        } else {
            (u.fail + 1) as u64
        },
        last_used: now,
    }
}

/// Looks up the record of a skill's use.
pub fn find_use(all: &Vec<(String, SkillUseStat)>, name: &str) -> (r: Option<SkillUseStat>)
    ensures
        r == use_of(all@, name@),
{
    let mut i: usize = 0;
    assert(all@.skip(0) =~= all@);
    while i < all.len()
        invariant
            i <= all.len(),
            use_of(all@, name@) == use_of(all@.skip(i as int), name@),
        decreases all.len() - i,
    {
        assert(all@.skip(i as int).drop_first() =~= all@.skip(i as int + 1));
        if str_eq(all[i].0.as_str(), name) {
            return Some(all[i].1);
        }
        i += 1;
    }
    None
}

proof fn lemma_use_update(v: Seq<(String, SkillUseStat)>, i: int, u: SkillUseStat, other: Seq<char>)
    requires
        0 <= i < v.len(),
        forall|j: int| 0 <= j < i ==> (#[trigger] v[j]).0@ != v[i].0@,
    ensures
        use_of(v.update(i, (v[i].0, u)), v[i].0@) == Some(u),
        other != v[i].0@ ==> use_of(v.update(i, (v[i].0, u)), other) == use_of(v, other),
    decreases v.len(),
{
    let w = v.update(i, (v[i].0, u));
    if i == 0 {
        assert(w.drop_first() =~= v.drop_first());
    } else {
        assert(v[0].0@ != v[i].0@);
        let t = v.drop_first();
        assert forall|j: int| 0 <= j < i - 1 implies (#[trigger] t[j]).0@ != t[i - 1].0@ by {
            assert(v[j + 1].0@ != v[i].0@);
        }
        lemma_use_update(t, i - 1, u, other);
        assert(w.drop_first() =~= t.update(i - 1, (t[i - 1].0, u)));
    }
}

proof fn lemma_use_push(v: Seq<(String, SkillUseStat)>, e: (String, SkillUseStat), other: Seq<char>)
    ensures
        use_of(v, e.0@) is None ==> use_of(v.push(e), e.0@) == Some(e.1),
        other != e.0@ ==> use_of(v.push(e), other) == use_of(v, other),
    decreases v.len(),
{
    let w = v.push(e);
    if v.len() > 0 {
        lemma_use_push(v.drop_first(), e, other);
        assert(w.drop_first() =~= v.drop_first().push(e));
    } else {
        assert(w.drop_first() =~= v);
    }
}

/// Counts one use of a skill at the time `now`; every other record stays.
pub fn record_skill_use(all: &mut Vec<(String, SkillUseStat)>, name: &str, ok: bool, now: u64)
    requires
        use_or_none(old(all)@, name@).count < u64::MAX,
        use_or_none(old(all)@, name@).success < u64::MAX,
        use_or_none(old(all)@, name@).fail < u64::MAX,
    ensures
        use_of(final(all)@, name@) == Some(used(use_or_none(old(all)@, name@), ok, now)),
        forall|other: Seq<char>|
            other != name@ ==> #[trigger] use_of(final(all)@, other) == use_of(old(all)@, other),
{
    let ghost before = all@;
    let n: usize = all.len();
    let mut i: usize = 0;
    assert(before.skip(0) =~= before);
    while i < n && !str_eq(all[i].0.as_str(), name)
        invariant
            i <= n,
            n == all.len(),
            all@ == before,
            use_of(before, name@) == use_of(before.skip(i as int), name@),
            forall|j: int| 0 <= j < i ==> (#[trigger] before[j]).0@ != name@,
        decreases n - i,
    {
        assert(before.skip(i as int).drop_first() =~= before.skip(i as int + 1));
        i += 1;
    }
    if i < n {
        let u: SkillUseStat = all[i].1;
        assert(before.skip(i as int)[0] == before[i as int]);
        assert(use_of(before, name@) == Some(u));
        let key: String = all[i].0.clone();
        let v: SkillUseStat = SkillUseStat {
            count: u.count + 1,
            success: if ok {
                u.success + 1
            } else {
                u.success
            },
            fail: if ok {
                u.fail
            } else {
                u.fail + 1
            },
            last_used: now,
        };
        all.set(i, (key, v));
        proof {
            assert(all@ =~= before.update(i as int, (before[i as int].0, v)));
            lemma_use_update(before, i as int, v, name@);
            assert forall|other: Seq<char>| other != name@ implies #[trigger] use_of(all@, other) == use_of(
                before,
                other,
            ) by {
                lemma_use_update(before, i as int, v, other);
            }
        }
    } else {
        assert(use_of(before, name@) is None);
        let v: SkillUseStat = SkillUseStat {
            count: 1,
            success: if ok {
                1
            } else {
                0
            },
            fail: if ok {
                0
            } else {
                1
            },
            last_used: now,
        };
        let key: String = name.to_string();
        all.push((key, v));
        proof {
            lemma_use_push(before, (key, v), name@);
            assert forall|other: Seq<char>| other != name@ implies #[trigger] use_of(all@, other) == use_of(
                before,
                other,
            ) by {
                lemma_use_push(before, (key, v), other);
            }
        }
    }
}

/// What happens to a skill on trial.
#[derive(Debug, Clone, Copy, PartialEq, Eq, Structural)]
pub enum Promotion {
    Keep,
    Archive,
    Promote,
}

/// A skill on trial is archived after three failures, and promoted after five
/// uses with at least 80 percent success. Other skills stay as they are.
pub open spec fn promotion_of(status: Option<Seq<char>>, u: Option<SkillUseStat>) -> Promotion {
    match u {
        Some(s) => if status != Some("trial"@) {
            Promotion::Keep
        } else if s.fail >= 3 {
            Promotion::Archive
        } else if s.success + s.fail >= 5 && s.success * 10 >= (s.success + s.fail) * 8 {
            Promotion::Promote
        } else {
            Promotion::Keep
        },
        None => Promotion::Keep,
    }
}

/// Decides what happens to a skill, by the content of its file and its use.
pub fn check_promotion(content: &str, u: Option<SkillUseStat>) -> (r: Promotion)
    ensures
        r == promotion_of(status_of(content@), u),
{
    let trial: bool = match read_skill_status(content) {
        Some(s) => str_eq(s.as_str(), "trial"),
        None => false,
    };
    match u {
        Some(s) => if !trial {
            Promotion::Keep
        } else if s.fail >= 3 {
            Promotion::Archive
        } else {
            let total: u128 = s.success as u128 + s.fail as u128;
            if total >= 5 && s.success as u128 * 10 >= total * 8 {
                Promotion::Promote
            } else {
                Promotion::Keep
            }
        },
        None => Promotion::Keep,
    }
}

/// The event that tells of a promotion or an archiving.
pub fn promotion_event(name: &str, p: Promotion, u: SkillUseStat, now: u64) -> (r: Option<EvolutionEvent>)
    requires
        u.success + u.fail <= u64::MAX,
    ensures
        match p {
            Promotion::Keep => r is None,
            Promotion::Archive => r is Some && r->Some_0@ == (GrowthView {
                ts: now,
                kind: "skill_archived"@,
                content: "auto 技能「"@ + name@ + "」归档（失败 "@ + dec(u.fail as nat) + "/"@ + dec(
                    (u.success + u.fail) as nat,
                ) + " 次）"@,
                evidence: "success="@ + dec(u.success as nat) + " fail="@ + dec(u.fail as nat),
                session_id: "self-evolution"@,
            }),
            Promotion::Promote => r is Some && r->Some_0@ == (GrowthView {
                ts: now,
                kind: "skill_promoted"@,
                content: "auto 技能「"@ + name@ + "」转正（"@ + dec(u.success as nat) + "/"@ + dec(
                    (u.success + u.fail) as nat,
                ) + " 成功）"@,
                evidence: "success="@ + dec(u.success as nat) + " fail="@ + dec(u.fail as nat) + " count="@ + dec(
                    u.count as nat,
                ),
                session_id: "self-evolution"@,
            }),
        },
{
    let total: String = dec_string(u.success + u.fail);
    let success: String = dec_string(u.success);
    let fail: String = dec_string(u.fail);
    let mut content: String = "auto 技能「".to_string();
    content.append(name);
    let mut evidence: String = "success=".to_string();
    evidence.append(success.as_str());
    evidence.append(" fail=");
    evidence.append(fail.as_str());
    match p {
        Promotion::Keep => None,
        Promotion::Archive => {
            content.append("」归档（失败 ");
            content.append(fail.as_str());
            content.append("/");
            content.append(total.as_str());
            content.append(" 次）");
            Some(event_at("skill_archived", content.as_str(), evidence.as_str(), now))
        },
        Promotion::Promote => {
            content.append("」转正（");
            content.append(success.as_str());
            content.append("/");
            content.append(total.as_str());
            content.append(" 成功）");
            evidence.append(" count=");
            let count: String = dec_string(u.count);
            evidence.append(count.as_str());
            Some(event_at("skill_promoted", content.as_str(), evidence.as_str(), now))
        },
    }
}

/// Three failures always end a trial, whatever the successes; and a skill is
/// promoted only with at least four successes for each failure.
pub proof fn law_promotion(u: SkillUseStat)
    ensures
        u.fail >= 3 ==> promotion_of(Some("trial"@), Some(u)) == Promotion::Archive,
        promotion_of(Some("trial"@), Some(u)) == Promotion::Promote ==> u.success >= 4 * u.fail && u.success >= 4
            && u.fail <= 2,
{
}

/// Seconds after which an unused skill counts as decayed: 90 days.
pub const DECAY_SECS: u64 = 7_776_000;

/// A skill's name that is hidden: it starts with a dot.
pub open spec fn hidden(name: Seq<char>) -> bool {
    occurs_at(name, "."@, 0)
}

/// When a skill was used last.
pub open spec fn last_used_of(usage: Seq<(String, SkillUseStat)>, name: Seq<char>) -> u64 {
    use_or_none(usage, name).last_used
}

/// The start of the time that counts at `now`.
pub open spec fn decay_cutoff(now: u64) -> u64 {
    if now < DECAY_SECS {
        0
    } else {
        (now - DECAY_SECS) as u64
    }
}

pub open spec fn is_decayed(usage: Seq<(String, SkillUseStat)>, name: Seq<char>, now: u64) -> bool {
    !hidden(name) && last_used_of(usage, name) < decay_cutoff(now)
}

/// The decayed ones among skills, with the time of their last use.
pub open spec fn decayed_among(
    names: Seq<Seq<char>>,
    usage: Seq<(String, SkillUseStat)>,
    now: u64,
) -> Seq<(Seq<char>, u64)>
    decreases names.len(),
{
    if names.len() == 0 {
        Seq::empty()
    } else {
        let before = decayed_among(names.drop_last(), usage, now);
        if is_decayed(usage, names.last(), now) {
            before.push((names.last(), last_used_of(usage, names.last())))
        } else {
            before
        }
    }
}

pub open spec fn named_times(v: Seq<(String, u64)>) -> Seq<(Seq<char>, u64)> {
    Seq::new(v.len(), |i: int| (v[i].0@, v[i].1))
}

/// The installed skills that were not used for 90 days, with the time of their
/// last use; zero stands for never.
pub fn decayed_skills(names: &Vec<String>, usage: &Vec<(String, SkillUseStat)>, now: u64) -> (r: Vec<(String, u64)>)
    ensures
        named_times(r@) == decayed_among(strs(names@), usage@, now),
{
    let ghost all = strs(names@);
    let cutoff: u64 = now.saturating_sub(DECAY_SECS);
    let mut out: Vec<(String, u64)> = Vec::new();
    let mut i: usize = 0;
    assert(named_times(out@) =~= decayed_among(all.take(0), usage@, now));
    while i < names.len()
        invariant
            i <= names.len(),
            all == strs(names@),
            cutoff == decay_cutoff(now),
            named_times(out@) == decayed_among(all.take(i as int), usage@, now),
        decreases names.len() - i,
    {
        let ghost before = named_times(out@);
        proof {
            assert(all.take(i as int + 1).drop_last() =~= all.take(i as int));
            assert(all.take(i as int + 1).last() == names@[i as int]@);
        }
        let last: u64 = match find_use(usage, names[i].as_str()) {
            Some(u) => u.last_used,
            None => 0,
        };
        if !starts_with(names[i].as_str(), ".") && last < cutoff {
            out.push((names[i].clone(), last));
            assert(named_times(out@) =~= before.push((names@[i as int]@, last)));
        }
        i += 1;
    }
    assert(all.take(i as int) =~= all);
    out
}

/// The visible ones among names.
pub open spec fn visible(names: Seq<Seq<char>>) -> Seq<Seq<char>>
    decreases names.len(),
{
    if names.len() == 0 {
        Seq::empty()
    } else if hidden(names.last()) {
        visible(names.drop_last())
    } else {
        visible(names.drop_last()).push(names.last())
    }
}

/// The names of the installed skills, sorted, without the hidden ones.
pub fn list_skill_names(found: &Vec<String>) -> (r: Vec<String>)
    ensures
        sorted_texts(strs(r@)),
        strs(r@).to_multiset() == visible(strs(found@)).to_multiset(),
{
    let ghost all = strs(found@);
    let mut out: Vec<String> = Vec::new();
    let mut i: usize = 0;
    assert(strs(out@) =~= visible(all.take(0)));
    while i < found.len()
        invariant
            i <= found.len(),
            all == strs(found@),
            strs(out@) == visible(all.take(i as int)),
        decreases found.len() - i,
    {
        let ghost before = strs(out@);
        proof {
            assert(all.take(i as int + 1).drop_last() =~= all.take(i as int));
            assert(all.take(i as int + 1).last() == found@[i as int]@);
        }
        if !starts_with(found[i].as_str(), ".") {
            out.push(found[i].clone());
            assert(strs(out@) =~= before.push(found@[i as int]@));
        }
        i += 1;
    }
    assert(all.take(i as int) =~= all);
    sort_strings(out)
}

// ---------- references to skills ----------

pub open spec fn skill_name_char(c: char) -> bool {
    ascii_alnum(c) || c == '-' || c == '_'
}

pub open spec fn is_skill_name(s: Seq<char>) -> bool {
    s.len() > 0 && forall|i: int| 0 <= i < s.len() ==> skill_name_char(#[trigger] s[i])
}

/// The first skill whose file a text names, as `skills/<name>/SKILL.md`.
pub open spec fn skill_named(s: Seq<char>) -> Option<Seq<char>>
    decreases s.len(),
{
    match find_text(s, "skills/"@) {
        None => None,
        Some(pos) => if 0 <= pos && pos + 7 <= s.len() {
            let after = s.skip(pos + 7);
            let slash = first_index(after, '/');
            if slash < after.len() && is_skill_name(after.take(slash)) && occurs_at(
                after,
                "/SKILL.md"@,
                slash,
            ) {
                Some(after.take(slash))
            } else {
                skill_named(after)
            }
        } else {
            None
        },
    }
}

fn is_skill_name_of(v: &[char], from: usize, to: usize) -> (r: bool)
    requires
        from <= to <= v.len(),
    ensures
        r == is_skill_name(v@.subrange(from as int, to as int)),
{
    let ghost s = v@.subrange(from as int, to as int);
    if from == to {
        return false;
    }
    let mut i: usize = from;
    while i < to
        invariant
            from <= i <= to,
            to <= v.len(),
            s == v@.subrange(from as int, to as int),
            forall|j: int| 0 <= j < i - from ==> skill_name_char(#[trigger] s[j]),
        decreases to - i,
    {
        let c: char = v[i];
        assert(s[i - from] == c);
        if !(is_ascii_alnum(c) || c == '-' || c == '_') {
            return false;
        }
        i += 1;
    }
    true
}

/// The skill that a tool call refers to: only `bash` and `read` count.
pub fn detect_skill_reference(tool_name: &str, arguments: &str) -> (r: Option<String>)
    ensures
        opt_view(r) == (if tool_name@ == "bash"@ || tool_name@ == "read"@ {
            skill_named(arguments@)
        } else {
            None
        }),
{
    if !str_eq(tool_name, "bash") && !str_eq(tool_name, "read") {
        return None;
    }
    let v: Vec<char> = chars_of(arguments);
    let pat: Vec<char> = chars_of("skills/");
    let file: Vec<char> = chars_of("/SKILL.md");
    proof {
        reveal_strlit("skills/");
    }
    let mut at: usize = 0;
    assert(arguments@.skip(0) =~= arguments@);
    loop
        invariant
            tool_name@ == "bash"@ || tool_name@ == "read"@,
            at <= v.len(),
            v@ == arguments@,
            pat@ == "skills/"@,
            pat@.len() == 7,
            file@ == "/SKILL.md"@,
            skill_named(arguments@) == skill_named(arguments@.skip(at as int)),
        decreases v.len() - at,
    {
        let rest: &[char] = vstd::slice::slice_subrange(v.as_slice(), at, v.len());
        let ghost s = arguments@.skip(at as int);
        assert(rest@ =~= s);
        match find_chars(rest, pat.as_slice()) {
            None => {
                return None;
            },
            Some(pos) => {
                proof {
                    lemma_find_from(s, "skills/"@, 0);
                }
                let start: usize = at + pos + 7;
                let ghost after = s.skip(pos as int + 7);
                assert(after =~= arguments@.skip(start as int));
                let slash: usize = index_from(v.as_slice(), '/', start);
                proof {
                    lemma_first_index(after, '/');
                    assert(arguments@.subrange(start as int, slash as int) =~= after.take(slash - start));
                }
                if slash < v.len() && is_skill_name_of(v.as_slice(), start, slash) && chars_at(
                    v.as_slice(),
                    file.as_slice(),
                    slash,
                ) {
                    proof {
                        let k = slash - start;
                        assert(after.subrange(k, k + file@.len()) =~= arguments@.subrange(
                            slash as int,
                            slash + file@.len(),
                        ));
                        assert(occurs_at(after, "/SKILL.md"@, k));
                    }
                    return Some(slice_of(v.as_slice(), start, slash));
                }
                proof {
                    let k = slash - start;
                    if k < after.len() && occurs_at(after, "/SKILL.md"@, k) {
                        assert(after.subrange(k, k + file@.len()) =~= arguments@.subrange(
                            slash as int,
                            slash + file@.len(),
                        ));
                    }
                }
                at = start;
            },
        }
    }
}

// ---------- clusters of lessons ----------

/// Chinese, Japanese and Korean characters.
pub open spec fn cjk(c: char) -> bool {
    ||| 0x2E80 <= c as u32 <= 0x9FFF
    ||| 0x3040 <= c as u32 <= 0x30FF
    ||| 0xF900 <= c as u32 <= 0xFAFF
    ||| 0x20000 <= c as u32 <= 0x2FA1F
}

pub fn is_cjk(c: char) -> (r: bool)
    ensures
        r == cjk(c),
{
    let u: u32 = c as u32;
    (0x2E80 <= u && u <= 0x9FFF) || (0x3040 <= u && u <= 0x30FF) || (0xF900 <= u && u <= 0xFAFF) || (0x20000 <= u
        && u <= 0x2FA1F)
}

/// A letter or digit of a script with spaces between words.
pub open spec fn latin(c: char) -> bool {
    !cjk(c) && unicode_alnum(c)
}

/// A whole word of letters and digits.
pub open spec fn word_at(s: Seq<char>, a: int, b: int) -> bool {
    &&& 0 <= a < b <= s.len()
    &&& forall|i: int| a <= i < b ==> latin(#[trigger] s[i])
    &&& a > 0 ==> !latin(s[a - 1])
    &&& b < s.len() ==> !latin(s[b])
}

/// Two neighbouring characters of a script without spaces.
pub open spec fn pair_at(s: Seq<char>, i: int) -> bool {
    0 <= i && i + 1 < s.len() && cjk(s[i]) && cjk(s[i + 1])
}

/// The text of a word: in lower case.
pub open spec fn word_text(s: Seq<char>, a: int, b: int) -> Seq<char> {
    lowercase(s.subrange(a, b))
}

/// A token that starts before `n`: a pair of neighbouring characters, or a word
/// of at least two characters.
pub open spec fn token_before(s: Seq<char>, t: Seq<char>, n: int) -> bool {
    ||| exists|i: int| i < n && #[trigger] pair_at(s, i) && t == s.subrange(i, i + 2)
    ||| exists|a: int, b: int| a < n && b - a >= 2 && #[trigger] word_at(s, a, b) && t == word_text(s, a, b)
}

/// The tokens of a lesson.
pub open spec fn tokens(s: Seq<char>) -> Set<Seq<char>> {
    Set::new(|t: Seq<char>| token_before(s, t, s.len() as int))
}

/// A word in lower case.
pub fn latina(v: &[char]) -> (r: String)
    ensures
        r@ == lowercase(v@),
{
    let s: String = crate::text::string_of(v);
    to_lowercase(s.as_str())
}

/// The texts in the list are those in the set, each once.
pub open spec fn lists(v: Seq<Seq<char>>, t: Set<Seq<char>>) -> bool {
    &&& v.no_duplicates()
    &&& forall|x: Seq<char>| v.contains(x) <==> t.contains(x)
}

fn insert_text(out: &mut Vec<String>, x: String)
    requires
        strs(old(out)@).no_duplicates(),
    ensures
        strs(final(out)@).no_duplicates(),
        forall|y: Seq<char>|
            #[trigger] strs(final(out)@).contains(y) <==> strs(old(out)@).contains(y) || y == x@,
{
    let ghost before = strs(out@);
    if list_has(out, x.as_str()) {
        return;
    }
    out.push(x);
    proof {
        let now = strs(out@);
        assert(now =~= before.push(x@));
        assert forall|y: Seq<char>| #[trigger] now.contains(y) <==> before.contains(y) || y == x@ by {
            if before.contains(y) {
                let j = before.index_of(y);
                assert(now[j] == y);
            }
            if y == x@ {
                assert(now[before.len() as int] == y);
            }
            if now.contains(y) {
                let j = now.index_of(y);
                if j < before.len() {
                    assert(before[j] == y);
                }
            }
        }
    }
}

/// Two neighbouring characters of a run, the first of them before `n`.
pub open spec fn pair_before(run: Seq<char>, t: Seq<char>, n: int) -> bool {
    exists|k: int| 0 <= k < n && k + 1 < run.len() && t == #[trigger] run.subrange(k, k + 2)
}

/// Puts every two neighbouring characters of a run among the tokens; a single
/// character gives none.
pub fn flush_cjk(run: &[char], out: &mut Vec<String>)
    requires
        strs(old(out)@).no_duplicates(),
    ensures
        strs(final(out)@).no_duplicates(),
        forall|y: Seq<char>|
            #[trigger] strs(final(out)@).contains(y) <==> strs(old(out)@).contains(y) || pair_before(
                run@,
                y,
                run@.len() as int,
            ),
{
    let ghost first = strs(out@);
    let n: usize = run.len();
    let mut i: usize = 0;
    while i < n && i + 1 < n
        invariant
            i <= n,
            n == run@.len(),
            strs(out@).no_duplicates(),
            forall|y: Seq<char>|
                #[trigger] strs(out@).contains(y) <==> first.contains(y) || pair_before(run@, y, i as int),
        decreases n - i,
    {
        let ghost before = strs(out@);
        insert_text(out, slice_of(run, i, i + 2));
        proof {
            assert forall|y: Seq<char>| #[trigger] strs(out@).contains(y) <==> first.contains(y) || pair_before(
                run@,
                y,
                i as int + 1,
            ) by {
                assert(before.contains(y) <==> first.contains(y) || pair_before(run@, y, i as int));
                if pair_before(run@, y, i as int + 1) && !pair_before(run@, y, i as int) {
                    let k = choose|k: int|
                        0 <= k < i + 1 && k + 1 < run@.len() && y == #[trigger] run@.subrange(k, k + 2);
                    assert(k == i);
                }
                if y == run@.subrange(i as int, i + 2) {
                    assert(pair_before(run@, y, i as int + 1));
                }
            }
        }
        i += 1;
    }
    proof {
        assert forall|y: Seq<char>| pair_before(run@, y, i as int) == pair_before(run@, y, n as int) by {
            if pair_before(run@, y, n as int) {
                let k = choose|k: int|
                    0 <= k < n && k + 1 < run@.len() && y == #[trigger] run@.subrange(k, k + 2);
                assert(k < i);
            }
        }
    }
}

/// The tokens of a lesson: whole words of at least two letters in lower case,
/// and every two neighbouring characters of scripts without spaces.
pub fn key_tokens(s: &str) -> (r: Vec<String>)
    ensures
        lists(strs(r@), tokens(s@)),
{
    let v: Vec<char> = chars_of(s);
    let ghost c = s@;
    let n: usize = v.len();
    let mut out: Vec<String> = Vec::new();
    let mut i: usize = 0;
    proof {
        assert forall|t: Seq<char>| strs(out@).contains(t) <==> #[trigger] token_before(c, t, 0) by {
            if exists|a: int, b: int| a < 0 && b - a >= 2 && #[trigger] word_at(c, a, b) && t == word_text(
                c,
                a,
                b,
            ) {
                assert(false);
            }
        }
    }
    while i < n
        invariant
            i <= n,
            n == v.len(),
            v@ == c,
            c == s@,
            0 < i < n ==> !(latin(c[i - 1]) && latin(c[i as int])),
            strs(out@).no_duplicates(),
            forall|t: Seq<char>| strs(out@).contains(t) <==> #[trigger] token_before(c, t, i as int),
        decreases n - i,
    {
        let ghost before = strs(out@);
        if is_cjk(v[i]) {
            let start: usize = i;
            let mut j: usize = i + 1;
            while j < n && is_cjk(v[j])
                invariant
                    start < j <= n,
                    n == v.len(),
                    v@ == c,
                    forall|k: int| start <= k < j ==> cjk(#[trigger] c[k]),
                decreases n - j,
            {
                j += 1;
            }
            let run: &[char] = vstd::slice::slice_subrange(v.as_slice(), start, j);
            flush_cjk(run, &mut out);
            proof {
                assert(!latin(c[j - 1]));
                assert forall|t: Seq<char>| strs(out@).contains(t) <==> #[trigger] token_before(c, t, j as int) by {
                    lemma_next_run(c, t, start as int, j as int);
                    assert(before.contains(t) <==> token_before(c, t, start as int));
                }
            }
            i = j;
        } else if v[i].is_alphanumeric() {
            let start: usize = i;
            let mut j: usize = i + 1;
            while j < n && !is_cjk(v[j]) && v[j].is_alphanumeric()
                invariant
                    start < j <= n,
                    n == v.len(),
                    v@ == c,
                    forall|k: int| start <= k < j ==> latin(#[trigger] c[k]),
                decreases n - j,
            {
                j += 1;
            }
            proof {
                assert(start > 0 ==> !latin(c[start - 1]));
                assert(word_at(c, start as int, j as int));
            }
            if j - start >= 2 {
                let w: &[char] = vstd::slice::slice_subrange(v.as_slice(), start, j);
                insert_text(&mut out, latina(w));
            }
            proof {
                assert forall|t: Seq<char>| strs(out@).contains(t) <==> #[trigger] token_before(
                    c,
                    t,
                    j as int,
                ) by {
                    lemma_next_word(c, t, start as int, j as int);
                    assert(before.contains(t) <==> token_before(c, t, start as int));
                }
            }
            i = j;
        } else {
            proof {
                assert forall|t: Seq<char>| strs(out@).contains(t) <==> #[trigger] token_before(
                    c,
                    t,
                    i as int + 1,
                ) by {
                    lemma_next_pair(c, t, i as int);
                    assert(before.contains(t) <==> token_before(c, t, i as int));
                }
            }
            i += 1;
        }
    }
    proof {
        assert forall|t: Seq<char>| strs(out@).contains(t) <==> tokens(c).contains(t) by {
            assert(token_before(c, t, n as int) == tokens(c).contains(t));
        }
    }
    out
}

/// A character that starts no word starts at most a pair.
proof fn lemma_next_pair(c: Seq<char>, t: Seq<char>, i: int)
    requires
        0 <= i < c.len(),
        !latin(c[i]),
    ensures
        token_before(c, t, i + 1) <==> token_before(c, t, i) || (pair_at(c, i) && t == c.subrange(i, i + 2)),
{
    if exists|a: int, b: int| a < i + 1 && b - a >= 2 && #[trigger] word_at(c, a, b) && t == word_text(c, a, b) {
        let (a, b) = choose|a: int, b: int|
            a < i + 1 && b - a >= 2 && #[trigger] word_at(c, a, b) && t == word_text(c, a, b);
        if a == i {
            assert(latin(c[a]));
        }
        assert(a < i && b - a >= 2 && word_at(c, a, b) && t == word_text(c, a, b));
    }
    if exists|k: int| k < i + 1 && #[trigger] pair_at(c, k) && t == c.subrange(k, k + 2) {
        let k = choose|k: int| k < i + 1 && #[trigger] pair_at(c, k) && t == c.subrange(k, k + 2);
        if k != i {
            assert(k < i && pair_at(c, k) && t == c.subrange(k, k + 2));
        }
    }
    if token_before(c, t, i) {
        if exists|k: int| k < i && #[trigger] pair_at(c, k) && t == c.subrange(k, k + 2) {
            let k = choose|k: int| k < i && #[trigger] pair_at(c, k) && t == c.subrange(k, k + 2);
            assert(k < i + 1 && pair_at(c, k) && t == c.subrange(k, k + 2));
        } else {
            let (a, b) = choose|a: int, b: int|
                a < i && b - a >= 2 && #[trigger] word_at(c, a, b) && t == word_text(c, a, b);
            assert(a < i + 1 && b - a >= 2 && word_at(c, a, b) && t == word_text(c, a, b));
        }
    }
}

/// In a run of characters without spaces only its pairs start.
proof fn lemma_next_run(c: Seq<char>, t: Seq<char>, i: int, j: int)
    requires
        0 <= i < j <= c.len(),
        forall|k: int| i <= k < j ==> cjk(#[trigger] c[k]),
        j < c.len() ==> !cjk(c[j]),
    ensures
        token_before(c, t, j) <==> token_before(c, t, i) || pair_before(c.subrange(i, j), t, j - i),
{
    let run = c.subrange(i, j);
    if exists|a: int, b: int| a < j && b - a >= 2 && #[trigger] word_at(c, a, b) && t == word_text(c, a, b) {
        let (a, b) = choose|a: int, b: int|
            a < j && b - a >= 2 && #[trigger] word_at(c, a, b) && t == word_text(c, a, b);
        assert(latin(c[a]));
        assert(a < i && b - a >= 2 && word_at(c, a, b) && t == word_text(c, a, b));
    }
    if exists|k: int| k < j && #[trigger] pair_at(c, k) && t == c.subrange(k, k + 2) {
        let k = choose|k: int| k < j && #[trigger] pair_at(c, k) && t == c.subrange(k, k + 2);
        if k < i {
            assert(k < i && pair_at(c, k) && t == c.subrange(k, k + 2));
        } else {
            assert(k + 1 < j);
            assert(run.subrange(k - i, k - i + 2) =~= c.subrange(k, k + 2));
            assert(pair_before(run, t, j - i));
        }
    }
    if pair_before(run, t, j - i) {
        let k = choose|k: int| 0 <= k < j - i && k + 1 < run.len() && t == #[trigger] run.subrange(k, k + 2);
        assert(cjk(c[i + k]) && cjk(c[i + k + 1]));
        assert(run.subrange(k, k + 2) =~= c.subrange(i + k, i + k + 2));
        assert(i + k < j && pair_at(c, i + k) && t == c.subrange(i + k, i + k + 2));
    }
    if token_before(c, t, i) {
        if exists|k: int| k < i && #[trigger] pair_at(c, k) && t == c.subrange(k, k + 2) {
            let k = choose|k: int| k < i && #[trigger] pair_at(c, k) && t == c.subrange(k, k + 2);
            assert(k < j && pair_at(c, k) && t == c.subrange(k, k + 2));
        } else {
            let (a, b) = choose|a: int, b: int|
                a < i && b - a >= 2 && #[trigger] word_at(c, a, b) && t == word_text(c, a, b);
            assert(a < j && b - a >= 2 && word_at(c, a, b) && t == word_text(c, a, b));
        }
    }
}

/// In a word only the word itself starts.
proof fn lemma_next_word(c: Seq<char>, t: Seq<char>, i: int, j: int)
    requires
        word_at(c, i, j),
    ensures
        token_before(c, t, j) <==> token_before(c, t, i) || (j - i >= 2 && t == word_text(c, i, j)),
{
    if exists|a: int, b: int| a < j && b - a >= 2 && #[trigger] word_at(c, a, b) && t == word_text(c, a, b) {
        let (a, b) = choose|a: int, b: int|
            a < j && b - a >= 2 && #[trigger] word_at(c, a, b) && t == word_text(c, a, b);
        if a > i {
            assert(latin(c[a - 1]));
        } else if a == i {
            if b < j {
                assert(latin(c[b]));
            }
            if b > j {
                assert(latin(c[j]));
            }
            assert(b == j);
        } else {
            assert(a < i && b - a >= 2 && word_at(c, a, b) && t == word_text(c, a, b));
        }
    }
    if exists|k: int| k < j && #[trigger] pair_at(c, k) && t == c.subrange(k, k + 2) {
        let k = choose|k: int| k < j && #[trigger] pair_at(c, k) && t == c.subrange(k, k + 2);
        if k >= i {
            assert(latin(c[k]));
        }
        assert(k < i && pair_at(c, k) && t == c.subrange(k, k + 2));
    }
    if token_before(c, t, i) {
        if exists|k: int| k < i && #[trigger] pair_at(c, k) && t == c.subrange(k, k + 2) {
            let k = choose|k: int| k < i && #[trigger] pair_at(c, k) && t == c.subrange(k, k + 2);
            assert(k < j && pair_at(c, k) && t == c.subrange(k, k + 2));
        } else {
            let (a, b) = choose|a: int, b: int|
                a < i && b - a >= 2 && #[trigger] word_at(c, a, b) && t == word_text(c, a, b);
            assert(a < j && b - a >= 2 && word_at(c, a, b) && t == word_text(c, a, b));
        }
    }
    if j - i >= 2 && t == word_text(c, i, j) {
        assert(i < j && j - i >= 2 && word_at(c, i, j) && t == word_text(c, i, j));
    }
}

/// How many of the texts are in the set.
pub open spec fn count_in(v: Seq<Seq<char>>, t: Set<Seq<char>>) -> nat
    decreases v.len(),
{
    if v.len() == 0 {
        0
    } else {
        count_in(v.drop_last(), t) + (if t.contains(v.last()) {
            1nat
        } else {
            0
        })
    }
}

proof fn lemma_count_in(v: Seq<Seq<char>>, t: Set<Seq<char>>)
    requires
        v.no_duplicates(),
    ensures
        v.to_set().intersect(t).finite(),
        v.to_set().intersect(t).len() == count_in(v, t),
        count_in(v, t) <= v.len(),
    decreases v.len(),
{
    if v.len() == 0 {
        assert(v.to_set().intersect(t) =~= Set::<Seq<char>>::empty());
    } else {
        let prev = v.drop_last();
        let x = v.last();
        assert forall|i: int, j: int| 0 <= i < prev.len() && 0 <= j < prev.len() && i != j implies prev[i]
            != prev[j] by {
            assert(v[i] != v[j]);
        }
        lemma_count_in(prev, t);
        assert(!prev.to_set().contains(x)) by {
            if prev.contains(x) {
                let j = prev.index_of(x);
                assert(v[j] != v[v.len() - 1]);
            }
        }
        assert forall|y: Seq<char>| v.to_set().contains(y) <==> prev.to_set().contains(y) || y == x by {
            if v.contains(y) {
                let j = v.index_of(y);
                if j < prev.len() {
                    assert(prev[j] == y);
                }
            }
            if prev.contains(y) {
                let j = prev.index_of(y);
                assert(v[j] == y);
            }
            if y == x {
                assert(v[v.len() - 1] == y);
            }
        }
        if t.contains(x) {
            assert(v.to_set().intersect(t) =~= prev.to_set().intersect(t).insert(x));
        } else {
            assert(v.to_set().intersect(t) =~= prev.to_set().intersect(t));
        }
    }
}

/// The number of common tokens and the number of all tokens of two lessons.
pub open spec fn overlap(a: Set<Seq<char>>, b: Set<Seq<char>>) -> (nat, nat) {
    (a.intersect(b).len(), a.union(b).len())
}

/// Counts the common texts and all texts of two lists without repetitions.
pub fn jaccard(a: &Vec<String>, b: &Vec<String>) -> (r: (u128, u128))
    requires
        strs(a@).no_duplicates(),
        strs(b@).no_duplicates(),
    ensures
        (r.0 as nat, r.1 as nat) == overlap(strs(a@).to_set(), strs(b@).to_set()),
        r.0 <= u64::MAX,
        r.1 <= 2 * u64::MAX,
{
    let ghost va = strs(a@);
    let ghost vb = strs(b@);
    let ghost tb = vb.to_set();
    let mut inter: usize = 0;
    let mut i: usize = 0;
    while i < a.len()
        invariant
            i <= a.len(),
            va == strs(a@),
            vb == strs(b@),
            tb == vb.to_set(),
            inter == count_in(va.take(i as int), tb),
            inter <= i,
        decreases a.len() - i,
    {
        proof {
            assert(va.take(i as int + 1).drop_last() =~= va.take(i as int));
            assert(va.take(i as int + 1).last() == a@[i as int]@);
        }
        if list_has(b, a[i].as_str()) {
            inter += 1;
        }
        i += 1;
    }
    proof {
        assert(va.take(i as int) =~= va);
        lemma_count_in(va, tb);
        va.unique_seq_to_set();
        vb.unique_seq_to_set();
        vstd::set_lib::lemma_set_intersect_union_lens(va.to_set(), tb);
        vstd::set_lib::lemma_len_intersect(va.to_set(), tb);
    }
    let union: u128 = a.len() as u128 + b.len() as u128 - inter as u128;
    (inter as u128, union)
}

/// Two lessons are of one kind: at least 14 percent of their tokens are common.
pub open spec fn alike(a: Seq<char>, b: Seq<char>) -> bool {
    let (inter, union) = overlap(tokens(a), tokens(b));
    inter > 0 && inter * 100 >= union * 14
}

/// A cluster with a lesson like this one.
pub open spec fn fits(cluster: Seq<Seq<char>>, lesson: Seq<char>) -> bool {
    exists|i: int| 0 <= i < cluster.len() && alike(lesson, #[trigger] cluster[i])
}

/// The first cluster from `from` on that a lesson fits, or their number.
pub open spec fn first_fit(clusters: Seq<Seq<Seq<char>>>, lesson: Seq<char>, from: int) -> int
    decreases clusters.len() - from,
{
    if from < 0 || from >= clusters.len() {
        clusters.len() as int
    } else if fits(clusters[from], lesson) {
        from
    } else {
        first_fit(clusters, lesson, from + 1)
    }
}

/// The clusters with one more lesson: it joins the first that it fits, or
/// starts a new one.
pub open spec fn placed(clusters: Seq<Seq<Seq<char>>>, lesson: Seq<char>) -> Seq<Seq<Seq<char>>> {
    let i = first_fit(clusters, lesson, 0);
    if i < clusters.len() {
        clusters.update(i, clusters[i].push(lesson))
    } else {
        clusters.push(seq![lesson])
    }
}

/// The clusters of lessons.
pub open spec fn clustered(lessons: Seq<Seq<char>>) -> Seq<Seq<Seq<char>>>
    decreases lessons.len(),
{
    if lessons.len() == 0 {
        Seq::empty()
    } else {
        placed(clustered(lessons.drop_last()), lessons.last())
    }
}

/// The clusters with at least `min` lessons.
pub open spec fn large(clusters: Seq<Seq<Seq<char>>>, min: nat) -> Seq<Seq<Seq<char>>>
    decreases clusters.len(),
{
    if clusters.len() == 0 {
        Seq::empty()
    } else if clusters.last().len() >= min {
        large(clusters.drop_last(), min).push(clusters.last())
    } else {
        large(clusters.drop_last(), min)
    }
}

/// The lessons among growth events.
pub open spec fn lessons_in(v: Seq<EvolutionEvent>) -> Seq<Seq<char>>
    decreases v.len(),
{
    if v.len() == 0 {
        Seq::empty()
    } else if v.last().kind@ == "lesson"@ {
        lessons_in(v.drop_last()).push(v.last().content@)
    } else {
        lessons_in(v.drop_last())
    }
}

/// A lesson with its tokens.
struct Item {
    text: String,
    tokens: Vec<String>,
}

spec fn item_ok(it: Item) -> bool {
    lists(strs(it.tokens@), tokens(it.text@))
}

spec fn item_texts(v: Seq<Item>) -> Seq<Seq<char>> {
    Seq::new(v.len(), |i: int| v[i].text@)
}

spec fn cluster_texts(v: Seq<Vec<Item>>) -> Seq<Seq<Seq<char>>> {
    Seq::new(v.len(), |i: int| item_texts(v[i]@))
}

spec fn clusters_ok(v: Seq<Vec<Item>>) -> bool {
    forall|i: int, j: int| 0 <= i < v.len() && 0 <= j < v[i]@.len() ==> item_ok(#[trigger] v[i]@[j])
}

fn alike_items(a: &Item, b: &Item) -> (r: bool)
    requires
        item_ok(*a),
        item_ok(*b),
    ensures
        r == alike(a.text@, b.text@),
{
    let (inter, union) = jaccard(&a.tokens, &b.tokens);
    proof {
        assert(strs(a.tokens@).to_set() =~= tokens(a.text@));
        assert(strs(b.tokens@).to_set() =~= tokens(b.text@));
    }
    inter > 0 && inter * 100 >= union * 14
}

fn fits_items(cluster: &Vec<Item>, it: &Item) -> (r: bool)
    requires
        forall|j: int| 0 <= j < cluster@.len() ==> item_ok(#[trigger] cluster@[j]),
        item_ok(*it),
    ensures
        r == fits(item_texts(cluster@), it.text@),
{
    let ghost all = item_texts(cluster@);
    let mut j: usize = 0;
    while j < cluster.len()
        invariant
            j <= cluster.len(),
            all == item_texts(cluster@),
            item_ok(*it),
            forall|k: int| 0 <= k < cluster@.len() ==> item_ok(#[trigger] cluster@[k]),
            forall|k: int| 0 <= k < j ==> !alike(it.text@, #[trigger] all[k]),
        decreases cluster.len() - j,
    {
        assert(all[j as int] == cluster@[j as int].text@);
        if alike_items(it, &cluster[j]) {
            return true;
        }
        j += 1;
    }
    false
}

fn place(clusters: &mut Vec<Vec<Item>>, it: Item)
    requires
        clusters_ok(old(clusters)@),
        item_ok(it),
    ensures
        clusters_ok(final(clusters)@),
        cluster_texts(final(clusters)@) == placed(cluster_texts(old(clusters)@), it.text@),
{
    let ghost all = cluster_texts(clusters@);
    let ghost start = clusters@;
    let n: usize = clusters.len();
    let mut i: usize = 0;
    let mut found: bool = false;
    while i < n && !found
        invariant
            i <= n,
            n == clusters.len(),
            clusters@ == start,
            all == cluster_texts(start),
            clusters_ok(start),
            item_ok(it),
            found ==> i < n && first_fit(all, it.text@, 0) == i,
            !found ==> first_fit(all, it.text@, 0) == first_fit(all, it.text@, i as int),
        decreases
                n - i,
                if found {
                    0int
                } else {
                    1int
                },
    {
        assert(all[i as int] == item_texts(start[i as int]@));
        if fits_items(&clusters[i], &it) {
            found = true;
        } else {
            i += 1;
        }
    }
    let ghost text = it.text@;
    if found {
        let mut members: Vec<Item> = clusters.remove(i);
        let ghost old_members = members@;
        members.push(it);
        clusters.insert(i, members);
        proof {
            assert(item_texts(members@) =~= item_texts(old_members).push(text));
            assert(cluster_texts(clusters@) =~= placed(all, text));
            assert forall|a: int, b: int| 0 <= a < clusters@.len() && 0 <= b < clusters@[a]@.len() implies item_ok(
                #[trigger] clusters@[a]@[b],
            ) by {
                if a == i {
                    if b < old_members.len() {
                        assert(item_ok(start[a]@[b]));
                    }
                } else {
                    assert(clusters@[a] == start[a]);
                    assert(item_ok(start[a]@[b]));
                }
            }
        }
    } else {
        let mut members: Vec<Item> = Vec::new();
        members.push(it);
        clusters.push(members);
        proof {
            assert(item_texts(members@) =~= seq![text]);
            assert(cluster_texts(clusters@) =~= placed(all, text));
            assert forall|a: int, b: int| 0 <= a < clusters@.len() && 0 <= b < clusters@[a]@.len() implies item_ok(
                #[trigger] clusters@[a]@[b],
            ) by {
                if a < n {
                    assert(clusters@[a] == start[a]);
                    assert(item_ok(start[a]@[b]));
                }
            }
        }
    }
}

pub open spec fn text_lists(v: Seq<Vec<String>>) -> Seq<Seq<Seq<char>>> {
    Seq::new(v.len(), |i: int| strs(v[i]@))
}

fn item_strings(v: Vec<Item>) -> (r: Vec<String>)
    ensures
        strs(r@) == item_texts(v@),
{
    let ghost all = v@;
    let mut out: Vec<String> = Vec::new();
    for x in it: v
        invariant
            it.seq() == all,
            out.len() == it.index(),
            forall|k: int| 0 <= k < out.len() ==> (#[trigger] out@[k])@ == all[k].text@,
    {
        out.push(x.text);
    }
    assert(strs(out@) =~= item_texts(all));
    out
}

/// Groups the lessons among growth events: a lesson joins the first group that
/// holds one like it. Gives the groups with at least `min_size` lessons.
pub fn detect_lesson_clusters(events: &Vec<EvolutionEvent>, min_size: usize) -> (r: Vec<Vec<String>>)
    ensures
        text_lists(r@) == large(clustered(lessons_in(events@)), min_size as nat),
{
    let mut clusters: Vec<Vec<Item>> = Vec::new();
    let mut i: usize = 0;
    assert(cluster_texts(clusters@) =~= clustered(lessons_in(events@.take(0))));
    while i < events.len()
        invariant
            i <= events.len(),
            clusters_ok(clusters@),
            cluster_texts(clusters@) == clustered(lessons_in(events@.take(i as int))),
        decreases events.len() - i,
    {
        let ghost now = events@.take(i as int + 1);
        proof {
            assert(now.drop_last() =~= events@.take(i as int));
            assert(now.last() == events@[i as int]);
        }
        if str_eq(events[i].kind.as_str(), "lesson") {
            let text: String = events[i].content.clone();
            let toks: Vec<String> = key_tokens(text.as_str());
            let item: Item = Item { text, tokens: toks };
            place(&mut clusters, item);
            proof {
                let ls = lessons_in(now);
                assert(ls.drop_last() =~= lessons_in(events@.take(i as int)));
                assert(ls.last() == item.text@);
            }
        }
        i += 1;
    }
    assert(events@.take(i as int) =~= events@);
    let ghost all = cluster_texts(clusters@);
    let ghost parts = clusters@;
    let mut out: Vec<Vec<String>> = Vec::new();
    assert(text_lists(out@) =~= large(all.take(0), min_size as nat));
    for c in it: clusters
        invariant
            it.seq() == parts,
            all == cluster_texts(parts),
            text_lists(out@) == large(all.take(it.index() as int), min_size as nat),
    {
        let ghost before = text_lists(out@);
        let ghost k = it.index() as int;
        proof {
            assert(all.take(k + 1).drop_last() =~= all.take(k));
            assert(all.take(k + 1).last() == item_texts(c@));
        }
        if c.len() >= min_size {
            let texts: Vec<String> = item_strings(c);
            out.push(texts);
            assert(text_lists(out@) =~= before.push(item_texts(c@)));
        }
    }
    assert(all.take(parts.len() as int) =~= all);
    out
}

/// The lessons that the clusters hold together.
pub open spec fn cluster_bag(clusters: Seq<Seq<Seq<char>>>) -> Multiset<Seq<char>>
    decreases clusters.len(),
{
    if clusters.len() == 0 {
        Multiset::empty()
    } else {
        cluster_bag(clusters.drop_last()).add(clusters.last().to_multiset())
    }
}

proof fn lemma_cluster_bag_push(clusters: Seq<Seq<Seq<char>>>, i: int, x: Seq<char>)
    requires
        0 <= i < clusters.len(),
    ensures
        cluster_bag(clusters.update(i, clusters[i].push(x))) =~= cluster_bag(clusters).insert(x),
    decreases clusters.len(),
{
    let u = clusters.update(i, clusters[i].push(x));
    clusters[i].to_multiset_ensures();
    if i == clusters.len() - 1 {
        assert(u.drop_last() =~= clusters.drop_last());
    } else {
        lemma_cluster_bag_push(clusters.drop_last(), i, x);
        assert(u.drop_last() =~= clusters.drop_last().update(i, clusters[i].push(x)));
    }
}

proof fn lemma_first_fit(clusters: Seq<Seq<Seq<char>>>, lesson: Seq<char>, from: int)
    requires
        0 <= from <= clusters.len(),
    ensures
        from <= first_fit(clusters, lesson, from) <= clusters.len(),
        first_fit(clusters, lesson, from) < clusters.len() ==> fits(
            clusters[first_fit(clusters, lesson, from)],
            lesson,
        ),
    decreases clusters.len() - from,
{
    if from < clusters.len() && !fits(clusters[from], lesson) {
        lemma_first_fit(clusters, lesson, from + 1);
    }
}

/// Every lesson is in exactly one cluster: together the clusters hold the
/// lessons, each as often as it was there. No cluster is empty, and each lesson
/// of a cluster but the first fits those before it.
pub proof fn law_every_lesson_is_placed(lessons: Seq<Seq<char>>)
    ensures
        cluster_bag(clustered(lessons)) =~= lessons.to_multiset(),
        forall|i: int| 0 <= i < clustered(lessons).len() ==> (#[trigger] clustered(lessons)[i]).len() > 0,
        forall|i: int, j: int|
            0 <= i < clustered(lessons).len() && 0 < j < clustered(lessons)[i].len() ==> fits(
                clustered(lessons)[i].take(j),
                #[trigger] clustered(lessons)[i][j],
            ),
    decreases lessons.len(),
{
    let all = clustered(lessons);
    if lessons.len() > 0 {
        let p = lessons.drop_last();
        let before = clustered(p);
        law_every_lesson_is_placed(p);
        let x = lessons.last();
        let at = first_fit(before, x, 0);
        lemma_first_fit(before, x, 0);
        p.to_multiset_ensures();
        assert(p.push(x) =~= lessons);
        if at < before.len() {
            lemma_cluster_bag_push(before, at, x);
        } else {
            assert(before.push(seq![x]).drop_last() =~= before);
            let none = Seq::<Seq<char>>::empty();
            none.to_multiset_ensures();
            assert(none.push(x) =~= seq![x]);
            assert(seq![x].to_multiset() =~= Multiset::empty().insert(x));
        }
        assert forall|i: int, j: int| 0 <= i < all.len() && 0 < j < all[i].len() implies fits(
            all[i].take(j),
            #[trigger] all[i][j],
        ) by {
            if i == at {
                if at < before.len() {
                    if j < before[i].len() {
                        assert(all[i].take(j) =~= before[i].take(j));
                        assert(fits(before[i].take(j), before[i][j]));
                    } else {
                        assert(all[i].take(j) =~= before[i]);
                    }
                }
            } else {
                assert(all[i] == before[i]);
                assert(fits(before[i].take(j), before[i][j]));
            }
        }
    } else {
        lessons.to_multiset_ensures();
        assert(lessons =~= Seq::<Seq<char>>::empty());
    }
}

// ---------- drafting skills ----------

/// What the model is told before it turns lessons into a skill.
pub const DRAFT_RULES: &'static str = "你是技能合成器。给你同一主题的多条操作性教训（来自真实会话的硬信号提炼）。把它们归纳成一份 SKILL.md。规则：\n1. 只归纳教训中已有的操作规则，禁止发明新规则\n2. frontmatter 格式：\n---\nname: auto-<短名>\ndescription: <何时触发本技能，30字内>\nx-r2-status: trial\n---\n3. 正文：## 何时用\\n## 怎么做（要点列表）\\n## 来源教训（逐条列出）\n4. 直接输出 SKILL.md 全文，不要代码块包裹";

/// The lessons, numbered.
pub open spec fn numbered(lessons: Seq<Seq<char>>) -> Seq<Seq<char>> {
    Seq::new(lessons.len(), |i: int| dec((i + 1) as nat) + ". "@ + lessons[i])
}

/// The request for a skill out of lessons.
pub fn draft_messages(lessons: &Vec<String>) -> (r: Vec<Message>)
    ensures
        msg_views(r@) == seq![
            plain_view(Role::System, DRAFT_RULES@),
            plain_view(Role::User, join(numbered(strs(lessons@)), "\n"@)),
        ],
{
    let ghost all = strs(lessons@);
    let mut parts: Vec<String> = Vec::new();
    let mut i: usize = 0;
    while i < lessons.len()
        invariant
            i <= lessons.len(),
            all == strs(lessons@),
            parts.len() == i,
            forall|k: int| 0 <= k < i ==> (#[trigger] parts@[k])@ == numbered(all)[k],
        decreases lessons.len() - i,
    {
        let mut p: String = dec_string(i as u64 + 1);
        p.append(". ");
        p.append(lessons[i].as_str());
        parts.push(p);
        i += 1;
    }
    assert(strs(parts@) =~= numbered(all));
    let user: String = join_strings(&parts, "\n");
    let mut out: Vec<Message> = Vec::new();
    out.push(Message::plain(Role::System, DRAFT_RULES));
    out.push(Message::plain(Role::User, user.as_str()));
    assert(msg_views(out@) =~= seq![
        plain_view(Role::System, DRAFT_RULES@),
        plain_view(Role::User, join(numbered(strs(lessons@)), "\n"@)),
    ]);
    out
}

pub open spec fn draft_char(c: char) -> bool {
    ascii_alnum(c) || c == '-'
}

/// The name on a line of a draft: it begins with `auto-` and holds letters,
/// digits and hyphens.
pub open spec fn draft_name_on(line: Seq<char>) -> Option<Seq<char>> {
    match after_prefix(trim(line), "name:"@) {
        Some(v) => if occurs_at(trim(v), "auto-"@, 0) && forall|i: int|
            0 <= i < trim(v).len() ==> draft_char(#[trigger] trim(v)[i]) {
            Some(trim(v))
        } else {
            None
        },
        None => None,
    }
}

/// The first name among lines.
pub open spec fn draft_name_among(ls: Seq<Seq<char>>) -> Option<Seq<char>>
    decreases ls.len(),
{
    if ls.len() == 0 {
        None
    } else {
        match draft_name_on(ls[0]) {
            Some(n) => Some(n),
            None => draft_name_among(ls.drop_first()),
        }
    }
}

fn draft_name_on_of(line: &str) -> (r: Option<String>)
    ensures
        opt_view(r) == draft_name_on(line@),
{
    let t: String = trim_string(line);
    match strip_prefix(t.as_str(), "name:") {
        Some(v) => {
            let name: String = trim_string(v.as_str());
            if !starts_with(name.as_str(), "auto-") {
                return None;
            }
            let c: Vec<char> = chars_of(name.as_str());
            let mut i: usize = 0;
            while i < c.len()
                invariant
                    i <= c.len(),
                    c@ == name@,
                    name@ == trim(v@),
                    after_prefix(trim(line@), "name:"@) == Some(v@),
                    forall|j: int| 0 <= j < i ==> draft_char(#[trigger] name@[j]),
                decreases c.len() - i,
            {
                if !(is_ascii_alnum(c[i]) || c[i] == '-') {
                    assert(!draft_char(trim(v@)[i as int]));
                    return None;
                }
                i += 1;
            }
            Some(name)
        },
        None => None,
    }
}

/// Reads the skill's name out of a draft.
pub fn parse_draft_name(text: &str) -> (r: Option<String>)
    ensures
        opt_view(r) == draft_name_among(lines(text@)),
{
    let ls: Vec<String> = lines_of(text);
    let ghost all = lines(text@);
    let mut i: usize = 0;
    assert(all.skip(0) =~= all);
    while i < ls.len()
        invariant
            i <= ls.len(),
            all == strs(ls@),
            all == lines(text@),
            draft_name_among(all) == draft_name_among(all.skip(i as int)),
        decreases ls.len() - i,
    {
        assert(all.skip(i as int)[0] == ls@[i as int]@);
        assert(all.skip(i as int).drop_first() =~= all.skip(i as int + 1));
        if let Some(n) = draft_name_on_of(ls[i].as_str()) {
            return Some(n);
        }
        i += 1;
    }
    None
}

/// Whether a draft may be written: never over a skill of the same name.
pub fn write_draft_skill(name: &str, exists_already: bool) -> (r: Result<(), String>)
    ensures
        match r {
            Ok(_) => !exists_already,
            Err(e) => exists_already && e@ == "技能 "@ + name@ + " 已存在（成长中，不重复起草）"@,
        },
{
    if exists_already {
        let mut e: String = "技能 ".to_string();
        e.append(name);
        e.append(" 已存在（成长中，不重复起草）");
        Err(e)
    } else {
        Ok(())
    }
}

// ---------- what a turn leaves behind ----------

/// The session's id, or `unknown`.
pub open spec fn session_or_unknown(id: Option<Seq<char>>) -> Seq<char> {
    match id {
        Some(s) => s,
        None => "unknown"@,
    }
}

fn session_name(id: &Option<String>) -> (r: String)
    ensures
        r@ == session_or_unknown(opt_view(*id)),
{
    match id {
        Some(s) => s.clone(),
        None => "unknown".to_string(),
    }
}

/// The event for the lesson in the model's answer, if there is one.
pub fn lesson_event(text: &str, session_id: &Option<String>, now: u64) -> (r: Option<EvolutionEvent>)
    ensures
        match reflected(text@) {
            Some(p) => r is Some && r->Some_0@ == (GrowthView {
                ts: now,
                kind: "lesson"@,
                content: p.0,
                evidence: p.1,
                session_id: session_or_unknown(opt_view(*session_id)),
            }),
            None => r is None,
        },
{
    match parse_reflection(text) {
        Some((lesson, evidence)) => Some(
            EvolutionEvent {
                ts: now,
                kind: "lesson".to_string(),
                content: lesson,
                evidence,
                session_id: session_name(session_id),
            },
        ),
        None => None,
    }
}

/// What changed about the goal: it was set, or it was changed.
pub open spec fn goal_change(before: Option<Seq<char>>, after: Option<Seq<char>>) -> Option<Seq<char>> {
    match (before, after) {
        (None, Some(g)) => Some("目标已设定："@ + head(g, 80)),
        (Some(a), Some(b)) => if a != b {
            Some("目标已更新："@ + head(b, 80))
        } else {
            None
        },
        _ => None,
    }
}

/// The event for a goal that was set or changed during a turn.
pub fn goal_event(
    before: &Option<String>,
    after: &Option<String>,
    session_id: &Option<String>,
    now: u64,
) -> (r: Option<EvolutionEvent>)
    ensures
        match goal_change(opt_view(*before), opt_view(*after)) {
            Some(c) => r is Some && r->Some_0@ == (GrowthView {
                ts: now,
                kind: "goal_set"@,
                content: c,
                evidence: "用户口述 · agent 代笔"@,
                session_id: session_or_unknown(opt_view(*session_id)),
            }),
            None => r is None,
        },
{
    let mut content: String = String::new();
    match (before, after) {
        (None, Some(g)) => {
            content = "目标已设定：".to_string();
            let h: String = head_string(g.as_str(), 80);
            content.append(h.as_str());
        },
        (Some(a), Some(b)) => {
            if str_eq(a.as_str(), b.as_str()) {
                return None;
            }
            content = "目标已更新：".to_string();
            let h: String = head_string(b.as_str(), 80);
            content.append(h.as_str());
        },
        _ => {
            return None;
        },
    }
    Some(
        EvolutionEvent {
            ts: now,
            kind: "goal_set".to_string(),
            content,
            evidence: "用户口述 · agent 代笔".to_string(),
            session_id: session_name(session_id),
        },
    )
}

/// The names in `after` that are not in `before`.
pub open spec fn new_names(before: Seq<Seq<char>>, after: Seq<Seq<char>>) -> Seq<Seq<char>>
    decreases after.len(),
{
    if after.len() == 0 {
        Seq::empty()
    } else if before.contains(after.last()) {
        new_names(before, after.drop_last())
    } else {
        new_names(before, after.drop_last()).push(after.last())
    }
}

/// The skills that a turn added, where they are worth an event: the first one
/// was not drafted automatically.
pub fn added_skills(before: &Vec<String>, after: &Vec<String>) -> (r: Option<Vec<String>>)
    ensures
        ({
            let added = new_names(strs(before@), strs(after@));
            match r {
                Some(v) => strs(v@) == added && added.len() > 0 && !occurs_at(added[0], "auto-"@, 0),
                None => added.len() == 0 || occurs_at(added[0], "auto-"@, 0),
            }
        }),
{
    let ghost all = strs(after@);
    let mut out: Vec<String> = Vec::new();
    let mut i: usize = 0;
    assert(strs(out@) =~= new_names(strs(before@), all.take(0)));
    while i < after.len()
        invariant
            i <= after.len(),
            all == strs(after@),
            strs(out@) == new_names(strs(before@), all.take(i as int)),
        decreases after.len() - i,
    {
        let ghost so_far = strs(out@);
        proof {
            assert(all.take(i as int + 1).drop_last() =~= all.take(i as int));
            assert(all.take(i as int + 1).last() == after@[i as int]@);
        }
        if !list_has(before, after[i].as_str()) {
            out.push(after[i].clone());
            assert(strs(out@) =~= so_far.push(after@[i as int]@));
        }
        i += 1;
    }
    assert(all.take(i as int) =~= all);
    if out.len() == 0 {
        return None;
    }
    assert(strs(out@)[0] == out@[0]@);
    if starts_with(out[0].as_str(), "auto-") {
        return None;
    }
    Some(out)
}

/// The event for skills that were added during a turn.
pub fn skills_event(names: &Vec<String>, session_id: &Option<String>, now: u64) -> (r: EvolutionEvent)
    ensures
        r@ == (GrowthView {
            ts: now,
            kind: "skill_created"@,
            content: "学习沉淀为技能："@ + join(strs(names@), "、"@),
            evidence: "agent 主动蒸馏（成长系统注入指引）"@,
            session_id: session_or_unknown(opt_view(*session_id)),
        }),
{
    let mut content: String = "学习沉淀为技能：".to_string();
    let j: String = join_strings(names, "、");
    content.append(j.as_str());
    EvolutionEvent {
        ts: now,
        kind: "skill_created".to_string(),
        content,
        evidence: "agent 主动蒸馏（成长系统注入指引）".to_string(),
        session_id: session_name(session_id),
    }
}

/// The event for a skill that was drafted out of lessons.
pub fn draft_event(name: &str, lessons: &Vec<String>, session_id: &Option<String>, now: u64) -> (r: EvolutionEvent)
    ensures
        r@ == (GrowthView {
            ts: now,
            kind: "skill_draft"@,
            content: "同族教训 ×"@ + dec(lessons@.len()) + " 自动合成技能「"@ + name@ + "」（试用中）"@,
            evidence: if lessons@.len() > 0 {
                lessons@[0]@
            } else {
                Seq::empty()
            },
            session_id: session_or_unknown(opt_view(*session_id)),
        }),
{
    let mut content: String = "同族教训 ×".to_string();
    let d: String = dec_string(lessons.len() as u64);
    content.append(d.as_str());
    content.append(" 自动合成技能「");
    content.append(name);
    content.append("」（试用中）");
    let evidence: String = if lessons.len() > 0 {
        lessons[0].clone()
    } else {
        String::new()
    };
    EvolutionEvent {
        ts: now,
        kind: "skill_draft".to_string(),
        content,
        evidence,
        session_id: session_name(session_id),
    }
}

// ---------- a history of the agent's own files ----------

/// What is kept out of the history: data and keys.
pub const SELF_IGNORED: &'static str = "sessions/\nmemory.db\nevolution.jsonl\nskill_usage.json\nconfig.toml\nuploads/\n.sandbox-root/\n";

/// The files that are kept in the history, where they are there.
pub open spec fn self_files() -> Seq<Seq<char>> {
    seq!["skills"@, "GOAL.md"@, "SOUL.md"@]
}

/// The files to add: those that are there, and the list of what is kept out.
pub open spec fn files_to_add(skills: bool, goal: bool, soul: bool) -> Seq<Seq<char>> {
    let a = if skills {
        seq![self_files()[0]]
    } else {
        Seq::empty()
    };
    let b = if goal {
        a.push(self_files()[1])
    } else {
        a
    };
    let c = if soul {
        b.push(self_files()[2])
    } else {
        b
    };
    c.push(".gitignore"@)
}

/// The files to add; each flag tells whether the file is there.
pub fn snapshot_files(skills: bool, goal: bool, soul: bool) -> (r: Vec<String>)
    ensures
        strs(r@) == files_to_add(skills, goal, soul),
{
    let mut v: Vec<String> = Vec::new();
    if skills {
        v.push("skills".to_string());
    }
    if goal {
        v.push("GOAL.md".to_string());
    }
    if soul {
        v.push("SOUL.md".to_string());
    }
    v.push(".gitignore".to_string());
    assert(strs(v@) =~= files_to_add(skills, goal, soul));
    v
}

/// What follows once the files were added and the state of the history is
/// known.
#[derive(Debug, Clone, Copy, PartialEq, Eq, Structural)]
pub enum SnapshotStep {
    /// Nothing changed; that is told.
    Unchanged,
    Commit,
}

/// Nothing is recorded where nothing changed.
pub fn snapshot_step(status: &[u8]) -> (r: SnapshotStep)
    ensures
        r == (if status@.len() == 0 {
            SnapshotStep::Unchanged
        } else {
            SnapshotStep::Commit
        }),
{
    if status.len() == 0 {
        SnapshotStep::Unchanged
    } else {
        SnapshotStep::Commit
    }
}

/// The result of recording: the short name of the new state, or what went
/// wrong.
pub fn snapshot_result(recorded: bool, errors: &[u8], name: Option<&str>) -> (r: Result<String, String>)
    ensures
        match r {
            Ok(n) => recorded && n@ == (match name {
                Some(s) => trim(s@),
                None => Seq::empty(),
            }),
            Err(e) => !recorded && e@ == "commit 失败："@ + lossy(errors@),
        },
{
    if !recorded {
        let mut e: String = "commit 失败：".to_string();
        let t: String = text_of_bytes(errors);
        e.append(t.as_str());
        return Err(e);
    }
    let r: String = match name {
        Some(s) => trim_string(s),
        None => String::new(),
    };
    assert(name is None ==> r@ =~= Seq::<char>::empty());
    Ok(r)
}

/// The configuration with its keys, the sessions and the memory are never
/// among the files that are added.
pub proof fn law_keys_are_not_recorded(skills: bool, goal: bool, soul: bool)
    ensures
        !files_to_add(skills, goal, soul).contains("config.toml"@),
        !files_to_add(skills, goal, soul).contains("sessions"@),
        !files_to_add(skills, goal, soul).contains("memory.db"@),
{
    reveal_strlit("skills");
    reveal_strlit("GOAL.md");
    reveal_strlit("SOUL.md");
    reveal_strlit(".gitignore");
    reveal_strlit("config.toml");
    reveal_strlit("sessions");
    reveal_strlit("memory.db");
    assert("skills"@.len() == 6);
    assert("GOAL.md"@.len() == 7);
    assert("SOUL.md"@.len() == 7);
    assert(".gitignore"@.len() == 10);
    assert("config.toml"@.len() == 11);
    assert("sessions"@.len() == 8);
    assert("memory.db"@.len() == 9);
}

} // verus!
