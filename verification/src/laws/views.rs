//! Lists in the statements of the library: nothing is stated of a list but of
//! what stands in it, each at its place.

use vstd::prelude::*;

use crate::agent::error_pairs;
use crate::agents::{by_name, AgentProfile};
use crate::anthropic::{event_results, finish_results, result_views};
use crate::client::{msg_result, name_pairs, ClientMsg};
use crate::dm::{opt_action, run_views, start_views, ChannelStart, DmAction, RunningChannel};
use crate::events::{opt_agent_event, AgentEvent};
use crate::evolution::{named_times, session_or_unknown, text_lists};
use crate::groups::{opt_event, opt_str_view, pairs, GroupEvent};
use crate::mcp::tools_by_name;
use crate::meeting::run_pairs;
use crate::pb::{header_views, opt_bytes, Header};
use crate::prompt::{entry_views, opt_text};
use crate::text::{lines, lossy, sorted_texts, strs, text_less, trim};
use crate::types::{StreamChunk, ToolSchema};

verus! {

/// Pairs are seen as they are.
pub proof fn law_pairs_are_seen(v: Seq<(String, String)>, w: Seq<(String, u64)>, i: int)
    ensures
        error_pairs(v).len() == v.len() && name_pairs(v).len() == v.len(),
        0 <= i < v.len() ==> error_pairs(v)[i] == (v[i].0@, v[i].1@) && name_pairs(v)[i] == (v[i].0@, v[i].1@),
        run_pairs(w).len() == w.len() && named_times(w).len() == w.len(),
        0 <= i < w.len() ==> run_pairs(w)[i] == (w[i].0@, w[i].1) && named_times(w)[i] == (w[i].0@, w[i].1),
{
}

/// Lists of texts and of files are seen as they are.
pub proof fn law_lists_are_seen(v: Seq<Vec<String>>, w: Seq<(String, Option<String>)>, i: int, j: int)
    ensures
        text_lists(v).len() == v.len(),
        0 <= i < v.len() ==> text_lists(v)[i].len() == v[i]@.len(),
        0 <= i < v.len() && 0 <= j < v[i]@.len() ==> text_lists(v)[i][j] == v[i]@[j]@,
        entry_views(w).len() == w.len(),
        0 <= i < w.len() ==> entry_views(w)[i].0 == w[i].0@,
        0 <= i < w.len() && w[i].1 is Some ==> entry_views(w)[i].1 == Some(w[i].1->Some_0@),
        0 <= i < w.len() && w[i].1 is None ==> entry_views(w)[i].1 is None,
{
}

/// Headers, running channels and channels to start are seen as they are.
pub proof fn law_records_are_seen(h: Seq<Header>, r: Seq<RunningChannel>, s: Seq<ChannelStart>, i: int)
    ensures
        header_views(h).len() == h.len() && run_views(r).len() == r.len() && start_views(s).len() == s.len(),
        0 <= i < h.len() ==> header_views(h)[i] == h[i]@ && h[i]@.key == h[i].key@ && h[i]@.value == h[i].value@,
        0 <= i < r.len() ==> run_views(r)[i] == r[i]@,
        0 <= i < s.len() ==> start_views(s)[i] == (s[i].profile as int, s[i].replaces),
{
}

/// What may be absent is seen where it is there.
pub proof fn law_options_are_seen(
    a: DmAction,
    e: AgentEvent,
    g: GroupEvent,
    b: Vec<u8>,
    t: &str,
)
    ensures
        opt_action(Some(a)) == Some(a@) && opt_action(None) is None,
        opt_agent_event(Some(e)) == Some(e@) && opt_agent_event(None) is None,
        opt_event(Some(g)) == Some(g@) && opt_event(None) is None,
        opt_bytes(Some(b)) == Some(b@) && opt_bytes(None) is None,
        opt_str_view(Some(t)) == Some(t@) && opt_str_view(None) is None,
        opt_text(Some(t)) == Some(t@) && opt_text(None) is None,
{
}

/// What came of something is seen with what it gave, or with why it failed.
pub proof fn law_results_are_seen(v: Seq<Result<StreamChunk, String>>, m: Result<ClientMsg, String>, i: int)
    ensures
        result_views(v).len() == v.len(),
        0 <= i < v.len() && v[i] is Ok ==> result_views(v)[i] is Ok && result_views(v)[i]->Ok_0 == v[i]->Ok_0@,
        0 <= i < v.len() && v[i] is Err ==> result_views(v)[i] is Err && result_views(v)[i]->Err_0 == v[i]->Err_0@,
        m is Ok ==> msg_result(m) is Ok && msg_result(m)->Ok_0 == m->Ok_0@,
        m is Err ==> msg_result(m) is Err && msg_result(m)->Err_0 == m->Err_0@,
{
}

/// What is left of a stream at its end is one more event.
pub proof fn law_rest_of_a_stream(buf: Seq<u8>)
    ensures
        finish_results(buf) == event_results(lines(trim(lossy(buf)))),
{
}

/// A signal without a session is one of an unknown session.
pub proof fn law_session_of_a_signal(id: Seq<char>)
    ensures
        session_or_unknown(Some(id)) == id,
        session_or_unknown(None) == "unknown"@,
{
}

/// Texts in order: one that begins like another comes after it, and otherwise
/// the first character that differs decides.
pub proof fn law_order_of_texts(p: Seq<char>, x: char, y: char, a: Seq<char>, b: Seq<char>)
    ensures
        text_less(p, p.push(x) + a),
        x != y ==> (text_less(p.push(x) + a, p.push(y) + b) <==> x < y),
    decreases p.len(),
{
    let s = p.push(x) + a;
    let t = p.push(y) + b;
    if p.len() > 0 {
        let q = p.drop_first();
        law_order_of_texts(q, x, y, a, b);
        assert(s.drop_first() =~= q.push(x) + a);
        assert(t.drop_first() =~= q.push(y) + b);
        assert(s[0] == p[0] && t[0] == p[0]);
    } else {
        assert(s[0] == x && t[0] == y);
    }
}

/// Texts, profiles and tools in order: of two, the first is not the later one.
pub proof fn law_what_is_in_order(v: Seq<String>, w: Seq<AgentProfile>, t: Seq<ToolSchema>, i: int, j: int)
    requires
        0 <= i < j,
    ensures
        sorted_texts(strs(v)) && j < v.len() ==> v[i]@ == v[j]@ || text_less(v[i]@, v[j]@),
        by_name(w) && j < w.len() ==> w[i].name@ == w[j].name@ || text_less(w[i].name@, w[j].name@),
        tools_by_name(t) && j < t.len() ==> t[i].name@ == t[j].name@ || text_less(t[i].name@, t[j].name@),
{
    if j < v.len() {
        crate::text::law_text_order(v[i]@, v[j]@);
        assert(strs(v)[i] == v[i]@ && strs(v)[j] == v[j]@);
    }
    if j < w.len() {
        crate::text::law_text_order(w[i].name@, w[j].name@);
    }
    if j < t.len() {
        crate::text::law_text_order(t[i].name@, t[j].name@);
    }
}

/// Names and roles are seen as they are.
pub proof fn law_names_and_roles_are_seen(v: Seq<(&str, &str)>, i: int)
    ensures
        pairs(v).len() == v.len(),
        0 <= i < v.len() ==> pairs(v)[i] == (v[i].0@, v[i].1@),
{
}

} // verus!
