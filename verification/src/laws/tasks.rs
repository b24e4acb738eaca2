//! The scheduled tasks: which are run, and which are announced.

use vstd::prelude::*;

use crate::schedule::{announced, due_ids, is_due, pending_ids, TaskInfo};

verus! {

/// The tasks that are run are the active ones whose time has come, in their order.
pub proof fn law_due_tasks(v: Seq<TaskInfo>, now: u64)
    ensures
        due_ids(v, now) == v.filter(
            |t: TaskInfo| t.state@ == "active"@ && t.next_due is Some && t.next_due->Some_0 <= now,
        ).map_values(|t: TaskInfo| t.id@),
    decreases v.len(),
{
    reveal(Seq::filter);
    if v.len() > 0 {
        law_due_tasks(v.drop_last(), now);
        assert(is_due(v.last(), now) <==> v.last().state@ == "active"@ && v.last().next_due is Some
            && v.last().next_due->Some_0 <= now);
    }
    assert(due_ids(v, now) =~= v.filter(
        |t: TaskInfo| t.state@ == "active"@ && t.next_due is Some && t.next_due->Some_0 <= now,
    ).map_values(|t: TaskInfo| t.id@));
}

/// The tasks that wait for approval are those in that state, each once.
pub proof fn law_waiting_tasks(v: Seq<TaskInfo>, id: Seq<char>)
    ensures
        pending_ids(v).contains(id) <==> exists|i: int|
            0 <= i < v.len() && (#[trigger] v[i]).id@ == id && v[i].state@ == "pending"@,
        pending_ids(v).no_duplicates(),
    decreases v.len(),
{
    let here = exists|i: int| 0 <= i < v.len() && (#[trigger] v[i]).id@ == id && v[i].state@ == "pending"@;
    if v.len() > 0 {
        let p = v.drop_last();
        let before = pending_ids(p);
        law_waiting_tasks(p, id);
        let there = exists|i: int| 0 <= i < p.len() && (#[trigger] p[i]).id@ == id && p[i].state@ == "pending"@;
        if there {
            let i = choose|i: int| 0 <= i < p.len() && (#[trigger] p[i]).id@ == id && p[i].state@ == "pending"@;
            assert(v[i].id@ == id);
        }
        if v.last().id@ == id && v.last().state@ == "pending"@ {
            assert(v[v.len() - 1].id@ == id);
        }
        if here {
            let i = choose|i: int| 0 <= i < v.len() && (#[trigger] v[i]).id@ == id && v[i].state@ == "pending"@;
            if i < p.len() {
                assert(p[i].id@ == id);
            }
        }
        let now = before.push(v.last().id@);
        if before.contains(id) {
            let k = before.index_of(id);
            assert(now[k] == id);
        }
        assert(now[before.len() as int] == v.last().id@);
        if now.contains(id) && id != v.last().id@ {
            let k = now.index_of(id);
            assert(before[k] == id);
        }
    }
}

/// A task that comes later in the list comes later among those that wait, and
/// among those that are announced.
pub proof fn law_waiting_tasks_keep_their_order(known: Seq<Seq<char>>, v: Seq<TaskInfo>, w: Seq<TaskInfo>)
    ensures
        pending_ids(v).is_prefix_of(pending_ids(v + w)),
        announced(known, v).is_prefix_of(announced(known, v + w)),
    decreases w.len(),
{
    if w.len() == 0 {
        assert(v + w =~= v);
    } else {
        law_waiting_tasks_keep_their_order(known, v, w.drop_last());
        assert((v + w).drop_last() =~= v + w.drop_last());
    }
}

} // verus!
