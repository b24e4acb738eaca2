//! Tasks that run in the background: which are due, which wait for approval,
//! and what is told of their runs.

use vstd::prelude::*;

use crate::json::{Json, JsonView};
use crate::text::{dec, dec_string, head, head_string, list_has, str_eq, strs};

verus! {

/// The most background runs of a day.
pub const BG_MAX_PER_DAY: u64 = 12;

/// Seconds after which a background run is given up.
pub const BG_TIMEOUT_SECS: u64 = 600;

/// What is told of a task that a full day's budget keeps from running.
pub const BG_BUDGET_FULL: &'static str = "⏭ 今日预算已满，跳过（明日恢复）";

/// What is told of a task for which no session could be made.
pub const BG_NO_SESSION: &'static str = "ERROR: 后台会话创建失败";

/// A task, as far as the schedule reads it.
#[derive(Debug)]
pub struct TaskInfo {
    pub id: String,
    /// `pending`, `active`, `paused` or `rejected`.
    pub state: String,
    pub next_due: Option<u64>,
}

/// Whether a task is to run: it is active and its time has come.
pub open spec fn is_due(t: TaskInfo, now: u64) -> bool {
    t.state@ == "active"@ && t.next_due is Some && t.next_due->0 <= now
}

/// The tasks that are to run.
pub open spec fn due_ids(v: Seq<TaskInfo>, now: u64) -> Seq<Seq<char>>
    decreases v.len(),
{
    if v.len() == 0 {
        Seq::empty()
    } else if is_due(v.last(), now) {
        due_ids(v.drop_last(), now).push(v.last().id@)
    } else {
        due_ids(v.drop_last(), now)
    }
}

/// The tasks that are to run.
pub fn due_tasks(tasks: &Vec<TaskInfo>, now: u64) -> (r: Vec<String>)
    ensures
        strs(r@) == due_ids(tasks@, now),
{
    let ghost all = tasks@;
    let mut out: Vec<String> = Vec::new();
    let mut i: usize = 0;
    assert(strs(out@) =~= due_ids(all.take(0), now));
    while i < tasks.len()
        invariant
            i <= tasks.len(),
            all == tasks@,
            strs(out@) == due_ids(all.take(i as int), now),
        decreases tasks.len() - i,
    {
        let ghost before = strs(out@);
        assert(all.take(i as int + 1).drop_last() =~= all.take(i as int));
        assert(all.take(i as int + 1).last() == tasks@[i as int]);
        let t: &TaskInfo = &tasks[i];
        let due: bool = match t.next_due {
            Some(d) => d <= now,
            None => false,
        };
        if str_eq(t.state.as_str(), "active") && due {
            out.push(t.id.clone());
            assert(strs(out@) =~= before.push(t.id@));
        }
        i += 1;
    }
    assert(all.take(i as int) =~= all);
    out
}

/// A task that was not approved never runs.
pub proof fn law_only_active_tasks_run(v: Seq<TaskInfo>, now: u64, i: int)
    requires
        0 <= i < due_ids(v, now).len(),
    ensures
        exists|k: int|
            0 <= k < v.len() && (#[trigger] v[k]).id@ == due_ids(v, now)[i] && v[k].state@ == "active"@,
    decreases v.len(),
{
    let p = v.drop_last();
    let before = due_ids(p, now);
    if i < before.len() {
        law_only_active_tasks_run(p, now, i);
        let k = choose|k: int| 0 <= k < p.len() && (#[trigger] p[k]).id@ == before[i] && p[k].state@ == "active"@;
        assert(v[k] == p[k]);
    } else {
        assert(v[v.len() - 1] == v.last());
    }
}

/// The tasks that wait for approval.
pub open spec fn pending_ids(v: Seq<TaskInfo>) -> Seq<Seq<char>>
    decreases v.len(),
{
    if v.len() == 0 {
        Seq::empty()
    } else {
        let before = pending_ids(v.drop_last());
        if v.last().state@ == "pending"@ && !before.contains(v.last().id@) {
            before.push(v.last().id@)
        } else {
            before
        }
    }
}

/// The tasks to announce: those that wait for approval and were not known.
pub open spec fn announced(known: Seq<Seq<char>>, v: Seq<TaskInfo>) -> Seq<Seq<char>>
    decreases v.len(),
{
    if v.len() == 0 {
        Seq::empty()
    } else {
        let before = announced(known, v.drop_last());
        let id = v.last().id@;
        if v.last().state@ == "pending"@ && !known.contains(id) && !before.contains(id) {
            before.push(id)
        } else {
            before
        }
    }
}

fn pending_list(tasks: &Vec<TaskInfo>) -> (r: Vec<String>)
    ensures
        strs(r@) == pending_ids(tasks@),
{
    let ghost all = tasks@;
    let mut out: Vec<String> = Vec::new();
    let mut i: usize = 0;
    assert(strs(out@) =~= pending_ids(all.take(0)));
    while i < tasks.len()
        invariant
            i <= tasks.len(),
            all == tasks@,
            strs(out@) == pending_ids(all.take(i as int)),
        decreases tasks.len() - i,
    {
        let ghost before = strs(out@);
        assert(all.take(i as int + 1).drop_last() =~= all.take(i as int));
        assert(all.take(i as int + 1).last() == tasks@[i as int]);
        let t: &TaskInfo = &tasks[i];
        if str_eq(t.state.as_str(), "pending") && !list_has(&out, t.id.as_str()) {
            out.push(t.id.clone());
            assert(strs(out@) =~= before.push(t.id@));
        }
        i += 1;
    }
    assert(all.take(i as int) =~= all);
    out
}

/// The tasks that wait for approval and were announced.
#[derive(Debug)]
pub struct PendingWatch {
    known: Vec<String>,
}

impl View for PendingWatch {
    type V = Seq<Seq<char>>;

    closed spec fn view(&self) -> Seq<Seq<char>> {
        strs(self.known@)
    }
}

impl PendingWatch {
    /// Starts with nothing known: the tasks that wait already are announced at
    /// the first look.
    pub fn new() -> (r: PendingWatch)
        ensures
            r@ == Seq::<Seq<char>>::empty(),
    {
        let r: PendingWatch = PendingWatch { known: Vec::new() };
        assert(r@ =~= Seq::<Seq<char>>::empty());
        r
    }

    /// The tasks to announce now. A task that no longer waits is forgotten.
    pub fn announce(&mut self, tasks: &Vec<TaskInfo>) -> (r: Vec<String>)
        ensures
            strs(r@) == announced(old(self)@, tasks@),
            final(self)@ == pending_ids(tasks@),
    {
        let ghost all = tasks@;
        let ghost known = self@;
        let mut out: Vec<String> = Vec::new();
        let mut i: usize = 0;
        assert(strs(out@) =~= announced(known, all.take(0)));
        while i < tasks.len()
            invariant
                i <= tasks.len(),
                all == tasks@,
                known == self@,
                strs(out@) == announced(known, all.take(i as int)),
            decreases tasks.len() - i,
        {
            let ghost before = strs(out@);
            assert(all.take(i as int + 1).drop_last() =~= all.take(i as int));
            assert(all.take(i as int + 1).last() == tasks@[i as int]);
            let t: &TaskInfo = &tasks[i];
            if str_eq(t.state.as_str(), "pending") && !list_has(&self.known, t.id.as_str()) && !list_has(
                &out,
                t.id.as_str(),
            ) {
                out.push(t.id.clone());
                assert(strs(out@) =~= before.push(t.id@));
            }
            i += 1;
        }
        assert(all.take(i as int) =~= all);
        self.known = pending_list(tasks);
        out
    }
}

/// A task with this id waits for approval.
pub open spec fn waits(v: Seq<TaskInfo>, id: Seq<char>) -> bool {
    exists|i: int| 0 <= i < v.len() && (#[trigger] v[i]).id@ == id && v[i].state@ == "pending"@
}

proof fn lemma_waits_last(v: Seq<TaskInfo>, id: Seq<char>)
    requires
        v.len() > 0,
    ensures
        waits(v, id) <==> waits(v.drop_last(), id) || (v.last().id@ == id && v.last().state@ == "pending"@),
{
    let p = v.drop_last();
    if waits(v, id) {
        let i = choose|i: int| 0 <= i < v.len() && (#[trigger] v[i]).id@ == id && v[i].state@ == "pending"@;
        if i < p.len() {
            assert(p[i].id@ == id);
        }
    }
    if waits(p, id) {
        let i = choose|i: int| 0 <= i < p.len() && (#[trigger] p[i]).id@ == id && p[i].state@ == "pending"@;
        assert(v[i].id@ == id);
    }
    assert(v[v.len() - 1] == v.last());
}

proof fn lemma_pushed(s: Seq<Seq<char>>, x: Seq<char>, y: Seq<char>)
    ensures
        s.push(x).contains(y) <==> s.contains(y) || x == y,
{
    let r = s.push(x);
    if s.contains(y) {
        assert(r[s.index_of(y)] == y);
    }
    if x == y {
        assert(r[s.len() as int] == y);
    }
    if r.contains(y) && x != y {
        assert(s[r.index_of(y)] == y);
    }
}

proof fn lemma_pending_ids(v: Seq<TaskInfo>, id: Seq<char>)
    ensures
        pending_ids(v).contains(id) <==> waits(v, id),
    decreases v.len(),
{
    if v.len() > 0 {
        lemma_pending_ids(v.drop_last(), id);
        lemma_waits_last(v, id);
        lemma_pushed(pending_ids(v.drop_last()), v.last().id@, id);
        lemma_pending_ids(v.drop_last(), v.last().id@);
    }
}

proof fn lemma_announced(known: Seq<Seq<char>>, v: Seq<TaskInfo>, id: Seq<char>)
    ensures
        announced(known, v).contains(id) <==> waits(v, id) && !known.contains(id),
        announced(known, v).no_duplicates(),
    decreases v.len(),
{
    if v.len() > 0 {
        lemma_announced(known, v.drop_last(), id);
        lemma_announced(known, v.drop_last(), v.last().id@);
        lemma_waits_last(v, id);
        lemma_pushed(announced(known, v.drop_last()), v.last().id@, id);
    }
}

/// What is known before one of the looks at the tasks: nothing at the first,
/// and then those that waited at the last one.
pub open spec fn known_before(looks: Seq<Seq<TaskInfo>>, k: int) -> Seq<Seq<char>> {
    if k <= 0 {
        Seq::empty()
    } else {
        pending_ids(looks[k - 1])
    }
}

/// A task is announced once: at each look exactly those are announced that wait
/// and did not wait at the look before, at the first one all that wait, and
/// none twice.
pub proof fn law_announced_once(looks: Seq<Seq<TaskInfo>>, k: int, id: Seq<char>)
    requires
        0 <= k < looks.len(),
    ensures
        announced(known_before(looks, k), looks[k]).contains(id) <==> waits(looks[k], id) && (k == 0 || !waits(
            looks[k - 1],
            id,
        )),
        announced(known_before(looks, k), looks[k]).no_duplicates(),
{
    if k > 0 {
        lemma_pending_ids(looks[k - 1], id);
    }
    lemma_announced(known_before(looks, k), looks[k], id);
}

/// How a background run ended.
#[derive(Debug)]
pub enum BgOutcome {
    Answer(String),
    Failed(String),
    Timeout,
}

/// What is kept of a background run.
pub fn bg_summary(o: &BgOutcome) -> (r: String)
    ensures
        r@ == (match *o {
            BgOutcome::Answer(t) => "✅ "@ + head(t@, 300),
            BgOutcome::Failed(e) => "❌ "@ + e@,
            BgOutcome::Timeout => "⏱ 超时（"@ + dec(BG_TIMEOUT_SECS as nat) + "s）"@,
        }),
{
    match o {
        BgOutcome::Answer(t) => {
            let mut s: String = "✅ ".to_string();
            let h: String = head_string(t.as_str(), 300);
            s.append(h.as_str());
            s
        },
        BgOutcome::Failed(e) => {
            let mut s: String = "❌ ".to_string();
            s.append(e.as_str());
            s
        },
        BgOutcome::Timeout => {
            let mut s: String = "⏱ 超时（".to_string();
            let d: String = dec_string(BG_TIMEOUT_SECS);
            s.append(d.as_str());
            s.append("s）");
            s
        },
    }
}

/// The word that a background run starts.
pub fn bg_started_json(name: &str, prompt: &str) -> (r: Json)
    ensures
        r@ == JsonView::obj().with("t"@, JsonView::Str("bg_started"@)).with("name"@, JsonView::Str(name@)).with(
            "prompt_preview"@,
            JsonView::Str(head(prompt@, 120)),
        ),
{
    let p: String = head_string(prompt, 120);
    Json::obj().with("t", Json::text("bg_started")).with("name", Json::text(name)).with(
        "prompt_preview",
        Json::text(p.as_str()),
    )
}

/// The word that a background run ended.
pub fn bg_done_json(name: &str, summary: &str) -> (r: Json)
    ensures
        r@ == JsonView::obj().with("t"@, JsonView::Str("bg_done"@)).with("name"@, JsonView::Str(name@)).with(
            "result_preview"@,
            JsonView::Str(head(summary@, 200)),
        ),
{
    let p: String = head_string(summary, 200);
    Json::obj().with("t", Json::text("bg_done")).with("name", Json::text(name)).with(
        "result_preview",
        Json::text(p.as_str()),
    )
}

} // verus!
