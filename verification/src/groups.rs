//! Groups of agents: the group's record, its states, its budget, its lead and
//! the order in which members speak, and the stream of events.

use vstd::prelude::*;

use crate::agents::{is_valid_name, valid_name, MAIN};
use crate::clock::unix_seconds;
use crate::json::{
    flat_object, json_parsed, json_printed, member, parse, print, str_items, views, Json, JsonView,
};
use crate::text::{
    clone_list, dec, dec_string, join_path, lines, lines_of, path_join, str_eq, strs, text_less, trim,
    trim_string,
};
use crate::types::opt_view;

verus! {

/// Rounds of a discussion.
pub const DEFAULT_MAX_ROUNDS: u32 = 2;

/// Tokens a group may use.
pub const DEFAULT_BUDGET_TOKENS: u64 = 300_000;

/// How deep a lead's tasks may nest.
pub const DEFAULT_TASK_DEPTH: u32 = 2;

/// The most members, `main` counted.
pub const MAX_MEMBERS: usize = 5;

/// The fewest members, `main` counted.
pub const MIN_MEMBERS: usize = 2;

/// A member: an agent, or `main`.
#[derive(Debug, PartialEq, Eq)]
pub struct Member {
    pub name: String,
    pub display_name: String,
    /// `owner`, `member` or `lead`.
    pub role: String,
}

impl Clone for Member {
    fn clone(&self) -> (r: Self)
        ensures
            r == *self,
    {
        Member {
            name: self.name.clone(),
            display_name: self.display_name.clone(),
            role: self.role.clone(),
        }
    }
}

pub fn default_role() -> (r: String)
    ensures
        r@ == "member"@,
{
    "member".to_string()
}

/// A group's limits and the order of its speakers.
#[derive(Debug, Clone, PartialEq, Eq)]
pub struct GroupSettings {
    pub max_rounds: u32,
    pub budget_tokens: u64,
    pub turn_order: Vec<String>,
}

pub fn default_max_rounds() -> (r: u32)
    ensures
        r == DEFAULT_MAX_ROUNDS,
{
    DEFAULT_MAX_ROUNDS
}

pub fn default_budget() -> (r: u64)
    ensures
        r == DEFAULT_BUDGET_TOKENS,
{
    DEFAULT_BUDGET_TOKENS
}

impl Default for GroupSettings {
    fn default() -> (r: Self)
        ensures
            r.max_rounds == DEFAULT_MAX_ROUNDS,
            r.budget_tokens == DEFAULT_BUDGET_TOKENS,
            r.turn_order@.len() == 0,
    {
        GroupSettings {
            max_rounds: DEFAULT_MAX_ROUNDS,
            budget_tokens: DEFAULT_BUDGET_TOKENS,
            turn_order: Vec::new(),
        }
    }
}

/// What a group talks about or works on.
#[derive(Debug, Clone, PartialEq, Eq)]
pub struct GroupTask {
    pub topic: String,
    /// `discussion` or `delegation`.
    pub kind: String,
    pub lead: Option<String>,
    pub depth_left: u32,
    pub started_ts: u64,
}

pub fn default_kind() -> (r: String)
    ensures
        r@ == "discussion"@,
{
    "discussion".to_string()
}

pub fn default_depth() -> (r: u32)
    ensures
        r == DEFAULT_TASK_DEPTH,
{
    DEFAULT_TASK_DEPTH
}

/// A group's record.
#[derive(Debug, Clone, PartialEq, Eq)]
pub struct GroupConfig {
    pub id: String,
    pub title: String,
    pub created_ts: u64,
    pub members: Vec<Member>,
    /// `idle`, `discussing`, `paused`, `stopped` or `summarized`.
    pub state: String,
    pub settings: GroupSettings,
    pub round: u32,
    pub used_tokens: u64,
    pub speaking: Option<String>,
    pub task: Option<GroupTask>,
}

pub fn default_state() -> (r: String)
    ensures
        r@ == "idle"@,
{
    "idle".to_string()
}

/// An event of a group's stream.
#[derive(Debug, Clone, PartialEq, Eq)]
pub enum GroupEvent {
    /// Something said, by `user` or a member.
    Message { from: String, text: String, ts: u64 },
    /// Something said that names members.
    Mention { from: String, text: String, ts: u64, mentions: Vec<String> },
    /// A task handed on; `pending`, `approved` or `done`.
    Subtask { from: String, to: String, prompt: String, ts: u64, state: String },
    Summary { text: String, ts: u64 },
    StateChange { from_state: String, to_state: String, ts: u64 },
    Error { text: String, ts: u64 },
    /// What a member does on the way to an answer.
    MemberActivity { from: String, kind: String, text: String, ts: u64 },
}

/// What an event holds.
pub enum EventView {
    Message { from: Seq<char>, text: Seq<char>, ts: u64 },
    Mention { from: Seq<char>, text: Seq<char>, ts: u64, mentions: Seq<Seq<char>> },
    Subtask { from: Seq<char>, to: Seq<char>, prompt: Seq<char>, ts: u64, state: Seq<char> },
    Summary { text: Seq<char>, ts: u64 },
    StateChange { from_state: Seq<char>, to_state: Seq<char>, ts: u64 },
    Error { text: Seq<char>, ts: u64 },
    MemberActivity { from: Seq<char>, kind: Seq<char>, text: Seq<char>, ts: u64 },
}

impl View for GroupEvent {
    type V = EventView;

    open spec fn view(&self) -> EventView {
        match *self {
            GroupEvent::Message { from, text, ts } => EventView::Message { from: from@, text: text@, ts },
            GroupEvent::Mention { from, text, ts, mentions } => EventView::Mention {
                from: from@,
                text: text@,
                ts,
                mentions: strs(mentions@),
            },
            GroupEvent::Subtask { from, to, prompt, ts, state } => EventView::Subtask {
                from: from@,
                to: to@,
                prompt: prompt@,
                ts,
                state: state@,
            },
            GroupEvent::Summary { text, ts } => EventView::Summary { text: text@, ts },
            GroupEvent::StateChange { from_state, to_state, ts } => EventView::StateChange {
                from_state: from_state@,
                to_state: to_state@,
                ts,
            },
            GroupEvent::Error { text, ts } => EventView::Error { text: text@, ts },
            GroupEvent::MemberActivity { from, kind, text, ts } => EventView::MemberActivity {
                from: from@,
                kind: kind@,
                text: text@,
                ts,
            },
        }
    }
}

pub open spec fn event_views(v: Seq<GroupEvent>) -> Seq<EventView> {
    Seq::new(v.len(), |i: int| v[i]@)
}

/// The time of an event.
pub open spec fn event_ts(e: EventView) -> u64 {
    match e {
        EventView::Message { from, text, ts } => ts,
        EventView::Mention { from, text, ts, mentions } => ts,
        EventView::Subtask { from, to, prompt, ts, state } => ts,
        EventView::Summary { text, ts } => ts,
        EventView::StateChange { from_state, to_state, ts } => ts,
        EventView::Error { text, ts } => ts,
        EventView::MemberActivity { from, kind, text, ts } => ts,
    }
}

/// The time now, for a new event.
pub fn now_ts() -> u64 {
    unix_seconds()
}

impl GroupEvent {
    /// When it happened.
    pub fn ts(&self) -> (r: u64)
        ensures
            r == event_ts(self@),
    {
        match self {
            GroupEvent::Message { ts, .. } => *ts,
            GroupEvent::Mention { ts, .. } => *ts,
            GroupEvent::Subtask { ts, .. } => *ts,
            GroupEvent::Summary { ts, .. } => *ts,
            GroupEvent::StateChange { ts, .. } => *ts,
            GroupEvent::Error { ts, .. } => *ts,
            GroupEvent::MemberActivity { ts, .. } => *ts,
        }
    }

    /// Something said now.
    pub fn message(from: &str, text: &str) -> (r: GroupEvent)
        ensures
            r@ == (EventView::Message { from: from@, text: text@, ts: event_ts(r@) }),
    {
        GroupEvent::Message { from: from.to_string(), text: text.to_string(), ts: now_ts() }
    }

    /// Something said now that names members.
    pub fn mention(from: &str, text: &str, mentions: Vec<String>) -> (r: GroupEvent)
        ensures
            r@ == (EventView::Mention {
                from: from@,
                text: text@,
                ts: event_ts(r@),
                mentions: strs(mentions@),
            }),
    {
        GroupEvent::Mention { from: from.to_string(), text: text.to_string(), ts: now_ts(), mentions }
    }

    /// A summary made now.
    pub fn summary(text: &str) -> (r: GroupEvent)
        ensures
            r@ == (EventView::Summary { text: text@, ts: event_ts(r@) }),
    {
        GroupEvent::Summary { text: text.to_string(), ts: now_ts() }
    }

    /// A failure now.
    pub fn error(text: &str) -> (r: GroupEvent)
        ensures
            r@ == (EventView::Error { text: text@, ts: event_ts(r@) }),
    {
        GroupEvent::Error { text: text.to_string(), ts: now_ts() }
    }

    /// A step of a member's work now.
    pub fn member_activity(from: &str, kind: &str, text: &str) -> (r: GroupEvent)
        ensures
            r@ == (EventView::MemberActivity { from: from@, kind: kind@, text: text@, ts: event_ts(r@) }),
    {
        GroupEvent::MemberActivity {
            from: from.to_string(),
            kind: kind.to_string(),
            text: text.to_string(),
            ts: now_ts(),
        }
    }
}

// ---------- paths and names ----------

/// The directory of a group.
pub fn group_dir(root: &str, id: &str) -> (r: String)
    ensures
        r@ == path_join(root@, id@),
{
    join_path(root, id)
}

/// The file of a group's record.
pub fn config_path(dir: &str) -> (r: String)
    ensures
        r@ == path_join(dir@, "group.json"@),
{
    join_path(dir, "group.json")
}

/// The file of a group's stream.
pub fn stream_path(dir: &str) -> (r: String)
    ensures
        r@ == path_join(dir@, "stream.jsonl"@),
{
    join_path(dir, "stream.jsonl")
}

/// A member's name: a profile's, or `main`.
pub open spec fn is_member_name(name: Seq<char>) -> bool {
    name == MAIN@ || is_valid_name(name)
}

pub fn valid_member_name(name: &str) -> (r: bool)
    ensures
        r == is_member_name(name@),
{
    str_eq(name, MAIN) || valid_name(name)
}

// ---------- founding ----------

/// A name and a display name.
pub type NamePair = (Seq<char>, Seq<char>);

pub open spec fn pairs(v: Seq<(&str, &str)>) -> Seq<NamePair> {
    Seq::new(v.len(), |i: int| (v[i].0@, v[i].1@))
}

/// Some pair has this name.
pub open spec fn has_name(v: Seq<NamePair>, name: Seq<char>) -> bool {
    exists|i: int| 0 <= i < v.len() && (#[trigger] v[i]).0 == name
}

/// What is wrong with the first member that cannot be taken, if any.
pub open spec fn members_error(v: Seq<NamePair>) -> Option<Seq<char>>
    decreases v.len(),
{
    if v.len() == 0 {
        None
    } else {
        match members_error(v.drop_last()) {
            Some(e) => Some(e),
            None => {
                let name = v.last().0;
                if !is_member_name(name) {
                    Some("ERROR: 非法成员名："@ + name + "（1-24 位字母/数字/-/_，main 保留给人）"@)
                } else if has_name(v.drop_last(), name) {
                    Some("ERROR: 成员重名："@ + name)
                } else {
                    None
                }
            },
        }
    }
}

/// Why a group cannot be founded, if so.
pub open spec fn group_error(v: Seq<NamePair>) -> Option<Seq<char>> {
    if v.len() < MIN_MEMBERS {
        Some("ERROR: 群成员至少 2 人（含 main），当前 "@ + dec(v.len()) + " 人"@)
    } else if v.len() > MAX_MEMBERS {
        Some("ERROR: 群成员最多 5 人（含 main），当前 "@ + dec(v.len()) + " 人"@)
    } else {
        members_error(v)
    }
}

/// The role that a member starts with.
pub open spec fn first_role(name: Seq<char>) -> Seq<char> {
    if name == MAIN@ {
        "owner"@
    } else {
        "member"@
    }
}

/// The record of a new group.
pub open spec fn founded(g: GroupConfig, id: Seq<char>, title: Seq<char>, v: Seq<NamePair>, now: u64) -> bool {
    &&& g.id@ == id
    &&& g.title@ == title
    &&& g.created_ts == now
    &&& g.members@.len() == v.len()
    &&& forall|i: int|
        0 <= i < v.len() ==> {
            &&& (#[trigger] g.members@[i]).name@ == v[i].0
            &&& g.members@[i].display_name@ == v[i].1
            &&& g.members@[i].role@ == first_role(v[i].0)
        }
    &&& g.state@ == "idle"@
    &&& g.settings.max_rounds == DEFAULT_MAX_ROUNDS
    &&& g.settings.budget_tokens == DEFAULT_BUDGET_TOKENS
    &&& strs(g.settings.turn_order@) == Seq::new(v.len(), |i: int| v[i].0)
    &&& g.round == 0
    &&& g.used_tokens == 0
    &&& g.speaking is None
    &&& g.task is None
}

/// Founds a group with a given id at a given time. It has two to five members
/// with valid and different names; they speak in the order given.
pub fn new_group(id: String, title: &str, member_names: &[(&str, &str)], now: u64) -> (r: Result<
    GroupConfig,
    String,
>)
    ensures
        match r {
            Ok(g) => group_error(pairs(member_names@)) is None && founded(
                g,
                id@,
                title@,
                pairs(member_names@),
                now,
            ),
            Err(e) => group_error(pairs(member_names@)) == Some(e@),
        },
{
    let n: usize = member_names.len();
    let ghost all = pairs(member_names@);
    if n < MIN_MEMBERS {
        let mut e: String = "ERROR: 群成员至少 2 人（含 main），当前 ".to_string();
        let d: String = dec_string(n as u64);
        e.append(d.as_str());
        e.append(" 人");
        return Err(e);
    }
    if n > MAX_MEMBERS {
        let mut e: String = "ERROR: 群成员最多 5 人（含 main），当前 ".to_string();
        let d: String = dec_string(n as u64);
        e.append(d.as_str());
        e.append(" 人");
        return Err(e);
    }
    let mut members: Vec<Member> = Vec::new();
    let mut order: Vec<String> = Vec::new();
    let mut i: usize = 0;
    while i < n
        invariant
            i <= n,
            n == member_names.len(),
            all == pairs(member_names@),
            2 <= n <= 5,
            members@.len() == i,
            order@.len() == i,
            members_error(all.take(i as int)) is None,
            forall|j: int|
                0 <= j < i ==> {
                    &&& (#[trigger] members@[j]).name@ == all[j].0
                    &&& members@[j].display_name@ == all[j].1
                    &&& members@[j].role@ == first_role(all[j].0)
                },
            forall|j: int| 0 <= j < i ==> (#[trigger] order@[j])@ == all[j].0,
        decreases n - i,
    {
        let (name, display) = member_names[i];
        proof {
            assert(all.take(i as int + 1).drop_last() =~= all.take(i as int));
            assert(all.take(i as int + 1).last() == (name@, display@));
        }
        if !valid_member_name(name) {
            let mut e: String = "ERROR: 非法成员名：".to_string();
            e.append(name);
            e.append("（1-24 位字母/数字/-/_，main 保留给人）");
            proof {
                lemma_first_error(all, i as int + 1);
            }
            return Err(e);
        }
        let mut k: usize = 0;
        while k < members.len()
            invariant
                k <= members.len(),
                members@.len() == i,
                i < n,
                n == all.len(),
                2 <= n <= 5,
                name@ == all[i as int].0,
                is_member_name(name@),
                all == pairs(member_names@),
                members_error(all.take(i as int)) is None,
                all.take(i as int + 1).drop_last() == all.take(i as int),
                all.take(i as int + 1).last().0 == name@,
                forall|j: int| 0 <= j < i ==> (#[trigger] members@[j]).name@ == all[j].0,
                forall|j: int| 0 <= j < k ==> all[j].0 != name@,
            decreases members.len() - k,
        {
            if str_eq(members[k].name.as_str(), name) {
                let mut e: String = "ERROR: 成员重名：".to_string();
                e.append(name);
                proof {
                    assert(all.take(i as int)[k as int].0 == name@);
                    assert(has_name(all.take(i as int), name@));
                    lemma_first_error(all, i as int + 1);
                }
                return Err(e);
            }
            k += 1;
        }
        assert(!has_name(all.take(i as int), name@));
        let role: &str = if str_eq(name, MAIN) {
            "owner"
        } else {
            "member"
        };
        members.push(
            Member { name: name.to_string(), display_name: display.to_string(), role: role.to_string() },
        );
        order.push(name.to_string());
        i += 1;
    }
    assert(all.take(n as int) =~= all);
    assert(strs(order@) =~= Seq::new(all.len(), |i: int| all[i].0));
    Ok(
        GroupConfig {
            id,
            title: title.to_string(),
            created_ts: now,
            members,
            state: "idle".to_string(),
            settings: GroupSettings {
                max_rounds: DEFAULT_MAX_ROUNDS,
                budget_tokens: DEFAULT_BUDGET_TOKENS,
                turn_order: order,
            },
            round: 0,
            used_tokens: 0,
            speaking: None,
            task: None,
        },
    )
}

proof fn lemma_first_error(v: Seq<NamePair>, k: int)
    requires
        0 <= k <= v.len(),
        members_error(v.take(k)) is Some,
    ensures
        members_error(v) == members_error(v.take(k)),
    decreases v.len() - k,
{
    if k < v.len() {
        assert(v.take(k + 1).drop_last() =~= v.take(k));
        lemma_first_error(v, k + 1);
    } else {
        assert(v.take(k) =~= v);
    }
}

/// The shape of an id: 36 characters, hyphens at four places and lower-case
/// hexadecimal digits elsewhere.
pub open spec fn uuid_shape(s: Seq<char>) -> bool {
    &&& s.len() == 36
    &&& forall|i: int|
        0 <= i < 36 ==> if i == 8 || i == 13 || i == 18 || i == 23 {
            #[trigger] s[i] == '-'
        } else {
            '0' <= s[i] <= '9' || 'a' <= s[i] <= 'f'
        }
}

/// A random id of `uuid::Uuid::new_v4`, in the hyphenated form that its
/// `Display` writes. Only the shape is promised.
#[verifier::external_body]
fn fresh_id() -> (r: String)
    ensures
        uuid_shape(r@),
{
    uuid::Uuid::new_v4().to_string()
}

/// Founds a group with a fresh id.
pub fn create_group(title: &str, member_names: &[(&str, &str)]) -> (r: Result<GroupConfig, String>)
    ensures
        match r {
            Ok(g) => {
                &&& group_error(pairs(member_names@)) is None
                &&& uuid_shape(g.id@)
                &&& founded(g, g.id@, title@, pairs(member_names@), g.created_ts)
            },
            Err(e) => group_error(pairs(member_names@)) == Some(e@),
        },
{
    new_group(fresh_id(), title, member_names, now_ts())
}

// ---------- states ----------

/// The moves between states. A summarized group may be taken up again; a
/// stopped one may not.
pub open spec fn may_move(from: Seq<char>, to: Seq<char>) -> bool {
    ||| from == "idle"@ && to == "discussing"@
    ||| from == "discussing"@ && (to == "paused"@ || to == "stopped"@ || to == "summarized"@)
    ||| from == "paused"@ && (to == "discussing"@ || to == "stopped"@)
    ||| from == "summarized"@ && to == "discussing"@
}

pub fn state_allowed(from: &str, to: &str) -> (r: bool)
    ensures
        r == may_move(from@, to@),
{
    (str_eq(from, "idle") && str_eq(to, "discussing")) || (str_eq(from, "discussing") && (str_eq(to, "paused")
        || str_eq(to, "stopped") || str_eq(to, "summarized"))) || (str_eq(from, "paused") && (str_eq(
        to,
        "discussing",
    ) || str_eq(to, "stopped"))) || (str_eq(from, "summarized") && str_eq(to, "discussing"))
}

pub proof fn lemma_state_names()
    ensures
        "idle"@ != "discussing"@,
        "idle"@ != "paused"@,
        "idle"@ != "stopped"@,
        "idle"@ != "summarized"@,
        "discussing"@ != "paused"@,
        "discussing"@ != "stopped"@,
        "discussing"@ != "summarized"@,
        "paused"@ != "stopped"@,
        "paused"@ != "summarized"@,
        "stopped"@ != "summarized"@,
{
    reveal_strlit("idle");
    reveal_strlit("discussing");
    reveal_strlit("paused");
    reveal_strlit("stopped");
    reveal_strlit("summarized");
    assert("idle"@.len() == 4);
    assert("discussing"@.len() == 10);
    assert("paused"@.len() == 6);
    assert("stopped"@.len() == 7);
    assert("summarized"@.len() == 10);
    assert("discussing"@[0] != "summarized"@[0]);
}

/// A stopped group stays stopped, and no group becomes idle again or moves to
/// the state it is in.
pub proof fn law_states(from: Seq<char>, to: Seq<char>)
    ensures
        !may_move("stopped"@, to),
        !may_move(from, "idle"@),
        !may_move(from, from),
{
    lemma_state_names();
}

/// A record that was not there.
pub open spec fn no_group() -> Seq<char> {
    "ERROR: 群档案不存在或损坏"@
}

/// Moves a group, as it was loaded, to another state at the time `now`: the
/// record to save and the event to append.
pub fn set_state(loaded: Option<GroupConfig>, to: &str, now: u64) -> (r: Result<(GroupConfig, GroupEvent), String>)
    ensures
        match (loaded, r) {
            (None, Err(e)) => e@ == no_group(),
            (Some(g), Ok((h, ev))) => {
                &&& may_move(g.state@, to@)
                &&& h.state@ == to@
                &&& h == (GroupConfig { state: h.state, ..g })
                &&& ev@ == (EventView::StateChange { from_state: g.state@, to_state: to@, ts: now })
            },
            (Some(g), Err(e)) => {
                &&& !may_move(g.state@, to@)
                &&& e@ == "ERROR: 非法状态迁移："@ + g.state@ + " → "@ + to@
            },
            _ => false,
        },
{
    match loaded {
        None => Err("ERROR: 群档案不存在或损坏".to_string()),
        Some(g) => {
            if !state_allowed(g.state.as_str(), to) {
                let mut e: String = "ERROR: 非法状态迁移：".to_string();
                e.append(g.state.as_str());
                e.append(" → ");
                e.append(to);
                return Err(e);
            }
            let from: String = g.state.clone();
            let mut h = g;
            h.state = to.to_string();
            Ok((h, GroupEvent::StateChange { from_state: from, to_state: to.to_string(), ts: now }))
        },
    }
}

// ---------- speakers ----------

/// The name of the first lead.
pub open spec fn lead_of(members: Seq<Member>) -> Option<Seq<char>>
    decreases members.len(),
{
    if members.len() == 0 {
        None
    } else if members[0].role@ == "lead"@ {
        Some(members[0].name@)
    } else {
        lead_of(members.drop_first())
    }
}

/// The position of the first `x`, or the length.
pub open spec fn position(v: Seq<Seq<char>>, x: Seq<char>) -> int
    decreases v.len(),
{
    if v.len() == 0 || v[0] == x {
        0
    } else {
        1 + position(v.drop_first(), x)
    }
}

pub proof fn lemma_position(v: Seq<Seq<char>>, x: Seq<char>)
    ensures
        0 <= position(v, x) <= v.len(),
        position(v, x) < v.len() ==> v[position(v, x)] == x,
        forall|j: int| 0 <= j < position(v, x) ==> v[j] != x,
        v.contains(x) == (position(v, x) < v.len()),
    decreases v.len(),
{
    if v.len() > 0 && v[0] != x {
        let t = v.drop_first();
        lemma_position(t, x);
        assert forall|j: int| 0 <= j < position(v, x) implies v[j] != x by {
            if j > 0 {
                assert(t[j - 1] == v[j]);
            }
        }
        if v.contains(x) {
            let j = v.index_of(x);
            assert(v[j] == x);
            assert(t[j - 1] == x);
            assert(t.contains(x));
        }
        if t.contains(x) {
            let j = t.index_of(x);
            assert(v[j + 1] == x);
        }
    } else if v.len() > 0 {
        assert(v.contains(x));
    }
}

/// The names with the first `x` moved to the end.
pub open spec fn moved_last(v: Seq<Seq<char>>, x: Seq<char>) -> Seq<Seq<char>> {
    if position(v, x) < v.len() {
        v.remove(position(v, x)).push(x)
    } else {
        v
    }
}

/// The order in which a group's members speak: the lead comes last.
pub open spec fn speaking_order(g: GroupConfig) -> Seq<Seq<char>> {
    match lead_of(g.members@) {
        Some(lead) => moved_last(strs(g.settings.turn_order@), lead),
        None => strs(g.settings.turn_order@),
    }
}

/// The name of the first lead.
pub fn find_lead(members: &Vec<Member>) -> (r: Option<String>)
    ensures
        opt_view(r) == lead_of(members@),
{
    let mut i: usize = 0;
    assert(members@.skip(0) =~= members@);
    while i < members.len()
        invariant
            i <= members.len(),
            lead_of(members@) == lead_of(members@.skip(i as int)),
        decreases members.len() - i,
    {
        assert(members@.skip(i as int).drop_first() =~= members@.skip(i as int + 1));
        if str_eq(members[i].role.as_str(), "lead") {
            return Some(members[i].name.clone());
        }
        i += 1;
    }
    None
}

/// The position of the first `x`, or the length.
pub fn position_of(v: &Vec<String>, x: &str) -> (r: usize)
    ensures
        r == position(strs(v@), x@),
        r <= v.len(),
{
    let ghost all = strs(v@);
    let mut i: usize = 0;
    assert(all.skip(0) =~= all);
    while i < v.len()
        invariant
            i <= v.len(),
            all == strs(v@),
            position(all, x@) == i + position(all.skip(i as int), x@),
        decreases v.len() - i,
    {
        assert(all.skip(i as int)[0] == v@[i as int]@);
        assert(all.skip(i as int).drop_first() =~= all.skip(i as int + 1));
        if str_eq(v[i].as_str(), x) {
            return i;
        }
        i += 1;
    }
    i
}

/// The order in which a group's members speak: the lead comes last.
pub fn effective_turn_order(g: &GroupConfig) -> (r: Vec<String>)
    ensures
        strs(r@) == speaking_order(*g),
        r@.len() == g.settings.turn_order@.len(),
{
    let mut order: Vec<String> = clone_list(&g.settings.turn_order);
    let ghost all = strs(order@);
    if let Some(lead) = find_lead(&g.members) {
        let pos: usize = position_of(&order, lead.as_str());
        if pos < order.len() {
            let l: String = order.remove(pos);
            assert(strs(order@) =~= all.remove(pos as int));
            proof {
                lemma_position(all, lead@);
            }
            order.push(l);
            assert(strs(order@) =~= moved_last(all, lead@));
        }
    }
    order
}

/// The first candidate from the `k`-th on who is neither speaking nor skipped.
pub open spec fn pick(
    order: Seq<Seq<char>>,
    start: int,
    k: int,
    speaking: Option<Seq<char>>,
    skip: Option<Seq<char>>,
) -> Option<Seq<char>>
    decreases order.len() - k,
{
    if k < 0 || k >= order.len() {
        None
    } else {
        let cand = order[(start + k) % (order.len() as int)];
        if Some(cand) == speaking || Some(cand) == skip {
            pick(order, start, k + 1, speaking, skip)
        } else {
            Some(cand)
        }
    }
}

/// Where the search for the next speaker starts: behind the present one.
pub open spec fn pick_start(order: Seq<Seq<char>>, speaking: Option<Seq<char>>) -> int {
    match speaking {
        Some(cur) => if position(order, cur) < order.len() {
            position(order, cur) + 1
        } else {
            0
        },
        None => 0,
    }
}

/// The next speaker.
pub open spec fn next_of(
    order: Seq<Seq<char>>,
    speaking: Option<Seq<char>>,
    skip: Option<Seq<char>>,
) -> Option<Seq<char>> {
    pick(order, pick_start(order, speaking), 0, speaking, skip)
}

pub open spec fn opt_str_view(s: Option<&str>) -> Option<Seq<char>> {
    match s {
        Some(x) => Some(x@),
        None => None,
    }
}

fn is_some_name(s: &Option<String>, x: &str) -> (r: bool)
    ensures
        r == (opt_view(*s) == Some(x@)),
{
    match s {
        Some(y) => str_eq(y.as_str(), x),
        None => false,
    }
}

fn is_some_str(s: Option<&str>, x: &str) -> (r: bool)
    ensures
        r == (opt_str_view(s) == Some(x@)),
{
    match s {
        Some(y) => str_eq(y, x),
        None => false,
    }
}

/// The next to speak: who follows the present speaker in the order, without
/// the present speaker and without `skip`.
pub fn next_speaker(g: &GroupConfig, skip: Option<&str>) -> (r: Option<String>)
    ensures
        opt_view(r) == next_of(speaking_order(*g), opt_view(g.speaking), opt_str_view(skip)),
{
    let order: Vec<String> = effective_turn_order(g);
    let ghost all = speaking_order(*g);
    let n: usize = order.len();
    if n == 0 {
        return None;
    }
    let start: usize = match &g.speaking {
        Some(cur) => {
            let p: usize = position_of(&order, cur.as_str());
            if p < n {
                p + 1
            } else {
                0
            }
        },
        None => 0,
    };
    let mut k: usize = 0;
    while k < n
        invariant
            k <= n,
            n == order.len(),
            n > 0,
            start <= n,
            all == strs(order@),
            all == speaking_order(*g),
            start == pick_start(all, opt_view(g.speaking)),
            next_of(all, opt_view(g.speaking), opt_str_view(skip)) == pick(
                all,
                start as int,
                k as int,
                opt_view(g.speaking),
                opt_str_view(skip),
            ),
        decreases n - k,
    {
        let at: usize = if start < n - k {
            start + k
        } else {
            start - (n - k)
        };
        proof {
            if start + k < n {
                vstd::arithmetic::div_mod::lemma_small_mod((start + k) as nat, n as nat);
            } else {
                vstd::arithmetic::div_mod::lemma_mod_sub_multiples_vanish(start + k, n as int);
                vstd::arithmetic::div_mod::lemma_small_mod(
                    if start + k - n < n {
                        (start + k - n) as nat
                    } else {
                        0
                    },
                    n as nat,
                );
            }
            assert(at < n);
            assert((start + k) % (n as int) == at);
            assert(all[at as int] == order@[at as int]@);
        }
        let cand: &str = order[at].as_str();
        if !is_some_name(&g.speaking, cand) && !is_some_str(skip, cand) {
            return Some(cand.to_string());
        }
        k += 1;
    }
    None
}

proof fn lemma_pick(
    order: Seq<Seq<char>>,
    start: int,
    k: int,
    speaking: Option<Seq<char>>,
    skip: Option<Seq<char>>,
)
    requires
        0 <= start,
        0 <= k <= order.len(),
    ensures
        pick(order, start, k, speaking, skip) matches Some(x) ==> {
            &&& order.contains(x)
            &&& Some(x) != speaking
            &&& Some(x) != skip
        },
        pick(order, start, k, speaking, skip) is None ==> forall|j: int|
            k <= j < order.len() ==> {
                let c = #[trigger] order[(start + j) % (order.len() as int)];
                Some(c) == speaking || Some(c) == skip
            },
    decreases order.len() - k,
{
    if k < order.len() {
        let at = (start + k) % (order.len() as int);
        assert(0 <= at < order.len()) by (nonlinear_arith)
            requires
                at == (start + k) % (order.len() as int),
                order.len() > 0,
        ;
        assert(order.contains(order[at]));
        lemma_pick(order, start, k + 1, speaking, skip);
    }
}

/// The next speaker is in the order, is not the present speaker and is not
/// skipped; there is none only if nobody in the order is left.
pub proof fn law_next_speaker(order: Seq<Seq<char>>, speaking: Option<Seq<char>>, skip: Option<Seq<char>>)
    ensures
        next_of(order, speaking, skip) matches Some(x) ==> {
            &&& order.contains(x)
            &&& Some(x) != speaking
            &&& Some(x) != skip
        },
        next_of(order, speaking, skip) is None ==> forall|i: int|
            0 <= i < order.len() ==> Some(#[trigger] order[i]) == speaking || Some(order[i]) == skip,
{
    let start = pick_start(order, speaking);
    if speaking is Some {
        lemma_position(order, speaking->Some_0);
    }
    lemma_pick(order, start, 0, speaking, skip);
    if next_of(order, speaking, skip) is None {
        let n = order.len() as int;
        assert forall|i: int| 0 <= i < order.len() implies Some(#[trigger] order[i]) == speaking || Some(
            order[i],
        ) == skip by {
            let j = if i >= start {
                i - start
            } else {
                i - start + n
            };
            if i >= start {
                vstd::arithmetic::div_mod::lemma_small_mod(i as nat, n as nat);
            } else {
                vstd::arithmetic::div_mod::lemma_mod_add_multiples_vanish(i, n);
                vstd::arithmetic::div_mod::lemma_small_mod(i as nat, n as nat);
            }
            assert((start + j) % n == i);
            assert(order[(start + j) % n] == order[i]);
        }
    }
}

/// A lead in the order speaks last.
pub proof fn law_lead_speaks_last(g: GroupConfig, lead: Seq<char>)
    requires
        lead_of(g.members@) == Some(lead),
        strs(g.settings.turn_order@).contains(lead),
    ensures
        speaking_order(g).len() > 0,
        speaking_order(g).last() == lead,
{
    lemma_position(strs(g.settings.turn_order@), lead);
}

/// Who must count as speaking so that `target` is next.
pub open spec fn before_target(order: Seq<Seq<char>>, target: Seq<char>) -> Option<Seq<char>> {
    if position(order, target) >= order.len() || order.len() < 2 {
        None
    } else {
        Some(order[(position(order, target) + order.len() - 1) % (order.len() as int)])
    }
}

/// Who must be recorded as speaking so that `target` speaks next.
pub fn speaking_to_force_next(g: &GroupConfig, target: &str) -> (r: Option<String>)
    ensures
        opt_view(r) == before_target(speaking_order(*g), target@),
{
    let order: Vec<String> = effective_turn_order(g);
    let ghost all = speaking_order(*g);
    let n: usize = order.len();
    let pos: usize = position_of(&order, target);
    if pos >= n || n < 2 {
        return None;
    }
    let at: usize = if pos == 0 {
        n - 1
    } else {
        pos - 1
    };
    proof {
        if pos == 0 {
            vstd::arithmetic::div_mod::lemma_small_mod((n - 1) as nat, n as nat);
        } else {
            vstd::arithmetic::div_mod::lemma_mod_add_multiples_vanish(pos - 1, n as int);
            vstd::arithmetic::div_mod::lemma_small_mod((pos - 1) as nat, n as nat);
        }
        assert(all[at as int] == order@[at as int]@);
    }
    Some(order[at].clone())
}

/// A member who is called on speaks next, whoever else is skipped, in an order
/// that names everyone once.
pub proof fn law_called_member_is_next(order: Seq<Seq<char>>, target: Seq<char>, skip: Option<Seq<char>>)
    requires
        order.no_duplicates(),
        order.contains(target),
        order.len() >= 2,
        skip != Some(target),
    ensures
        before_target(order, target) is Some,
        next_of(order, before_target(order, target), skip) == Some(target),
{
    lemma_position(order, target);
    let n = order.len() as int;
    let pos = position(order, target);
    let at = if pos == 0 {
        n - 1
    } else {
        pos - 1
    };
    if pos == 0 {
        vstd::arithmetic::div_mod::lemma_small_mod((n - 1) as nat, n as nat);
    } else {
        vstd::arithmetic::div_mod::lemma_mod_add_multiples_vanish(pos - 1, n);
        vstd::arithmetic::div_mod::lemma_small_mod((pos - 1) as nat, n as nat);
    }
    let sp = order[at];
    assert(before_target(order, target) == Some(sp));
    lemma_position(order, sp);
    assert(order.contains(sp));
    assert(position(order, sp) == at);
    let start = at + 1;
    if pos == 0 {
        assert(start == n);
        vstd::arithmetic::div_mod::lemma_mod_self_0(n);
    } else {
        vstd::arithmetic::div_mod::lemma_small_mod(pos as nat, n as nat);
    }
    assert((start + 0) % n == pos);
    assert(sp != target);
    assert(pick(order, start, 0, Some(sp), skip) == Some(order[pos]));
}

// ---------- budget and lead ----------

/// The sum of two counts, at most the largest number.
pub open spec fn sat_add(a: u64, b: u64) -> u64 {
    if a + b > u64::MAX {
        u64::MAX
    } else {
        (a + b) as u64
    }
}

/// Counts tokens; `false` means that the budget is used up.
pub fn add_tokens(g: &mut GroupConfig, n: u64) -> (r: bool)
    ensures
        final(g).used_tokens == sat_add(old(g).used_tokens, n),
        *final(g) == (GroupConfig { used_tokens: final(g).used_tokens, ..*old(g) }),
        r == (final(g).used_tokens <= old(g).settings.budget_tokens),
{
    g.used_tokens = g.used_tokens.saturating_add(n);
    g.used_tokens <= g.settings.budget_tokens
}

/// Once the budget is used up, more tokens do not bring it back.
pub proof fn law_budget_stays_used_up(used: u64, budget: u64, a: u64, b: u64)
    requires
        sat_add(used, a) > budget,
    ensures
        sat_add(sat_add(used, a), b) > budget,
{
}

/// The position of the first member with this name, or the length.
pub open spec fn member_at(members: Seq<Member>, name: Seq<char>) -> int
    decreases members.len(),
{
    if members.len() == 0 || members[0].name@ == name {
        0
    } else {
        1 + member_at(members.drop_first(), name)
    }
}

/// The position of the first member with this role, or the length.
pub open spec fn role_at(members: Seq<Member>, role: Seq<char>) -> int
    decreases members.len(),
{
    if members.len() == 0 || members[0].role@ == role {
        0
    } else {
        1 + role_at(members.drop_first(), role)
    }
}

pub proof fn lemma_member_at(members: Seq<Member>, name: Seq<char>)
    ensures
        0 <= member_at(members, name) <= members.len(),
        member_at(members, name) < members.len() ==> members[member_at(members, name)].name@ == name,
        forall|j: int| 0 <= j < member_at(members, name) ==> members[j].name@ != name,
    decreases members.len(),
{
    if members.len() > 0 && members[0].name@ != name {
        let t = members.drop_first();
        lemma_member_at(t, name);
        assert forall|j: int| 0 <= j < member_at(members, name) implies members[j].name@ != name by {
            if j > 0 {
                assert(t[j - 1] == members[j]);
            }
        }
    }
}

pub proof fn lemma_role_at(members: Seq<Member>, role: Seq<char>)
    ensures
        0 <= role_at(members, role) <= members.len(),
        role_at(members, role) < members.len() ==> members[role_at(members, role)].role@ == role,
        forall|j: int| 0 <= j < role_at(members, role) ==> members[j].role@ != role,
    decreases members.len(),
{
    if members.len() > 0 && members[0].role@ != role {
        let t = members.drop_first();
        lemma_role_at(t, role);
        assert forall|j: int| 0 <= j < role_at(members, role) implies members[j].role@ != role by {
            if j > 0 {
                assert(t[j - 1] == members[j]);
            }
        }
    }
}

fn find_member(members: &Vec<Member>, name: &str) -> (r: usize)
    ensures
        r == member_at(members@, name@),
        r <= members.len(),
{
    let mut i: usize = 0;
    assert(members@.skip(0) =~= members@);
    while i < members.len()
        invariant
            i <= members.len(),
            member_at(members@, name@) == i + member_at(members@.skip(i as int), name@),
        decreases members.len() - i,
    {
        assert(members@.skip(i as int).drop_first() =~= members@.skip(i as int + 1));
        if str_eq(members[i].name.as_str(), name) {
            return i;
        }
        i += 1;
    }
    i
}

fn find_role(members: &Vec<Member>, role: &str) -> (r: usize)
    ensures
        r == role_at(members@, role@),
        r <= members.len(),
{
    let mut i: usize = 0;
    assert(members@.skip(0) =~= members@);
    while i < members.len()
        invariant
            i <= members.len(),
            role_at(members@, role@) == i + role_at(members@.skip(i as int), role@),
        decreases members.len() - i,
    {
        assert(members@.skip(i as int).drop_first() =~= members@.skip(i as int + 1));
        if str_eq(members[i].role.as_str(), role) {
            return i;
        }
        i += 1;
    }
    i
}

/// The group with one member's role changed, and nothing else.
pub open spec fn role_set(g: GroupConfig, h: GroupConfig, i: int, role: Seq<char>) -> bool {
    &&& h == (GroupConfig { members: h.members, ..g })
    &&& h.members@.len() == g.members@.len()
    &&& forall|j: int| 0 <= j < g.members@.len() && j != i ==> h.members@[j] == g.members@[j]
    &&& h.members@[i].role@ == role
    &&& h.members@[i] == (Member { role: h.members@[i].role, ..g.members@[i] })
}

/// Why a member cannot become lead, if so.
pub open spec fn promote_error(g: GroupConfig, name: Seq<char>) -> Option<Seq<char>> {
    let i = member_at(g.members@, name);
    if role_at(g.members@, "lead"@) < g.members@.len() {
        Some("ERROR: 已存在 lead，先 revoke_lead 再委任"@)
    } else if i >= g.members@.len() {
        Some("ERROR: 成员不存在："@ + name)
    } else if g.members@[i].role@ == "owner"@ {
        Some("ERROR: owner（人）不能被委任为 lead"@)
    } else {
        None
    }
}

fn with_role(g: GroupConfig, i: usize, role: &str) -> (r: GroupConfig)
    requires
        i < g.members@.len(),
    ensures
        role_set(g, r, i as int, role@),
{
    let mut h = g;
    let old_member: Member = h.members[i].clone();
    let m: Member = Member {
        name: old_member.name,
        display_name: old_member.display_name,
        role: role.to_string(),
    };
    h.members.set(i, m);
    h
}

/// Makes a member the lead of a group, as it was loaded. There is at most one
/// lead, and the owner is never it.
pub fn promote_lead(loaded: Option<GroupConfig>, name: &str) -> (r: Result<GroupConfig, String>)
    ensures
        match (loaded, r) {
            (None, Err(e)) => e@ == no_group(),
            (Some(g), Ok(h)) => {
                &&& promote_error(g, name@) is None
                &&& role_set(g, h, member_at(g.members@, name@), "lead"@)
            },
            (Some(g), Err(e)) => promote_error(g, name@) == Some(e@),
            _ => false,
        },
{
    match loaded {
        None => Err("ERROR: 群档案不存在或损坏".to_string()),
        Some(g) => {
            if find_role(&g.members, "lead") < g.members.len() {
                return Err("ERROR: 已存在 lead，先 revoke_lead 再委任".to_string());
            }
            let i: usize = find_member(&g.members, name);
            if i >= g.members.len() {
                let mut e: String = "ERROR: 成员不存在：".to_string();
                e.append(name);
                return Err(e);
            }
            if str_eq(g.members[i].role.as_str(), "owner") {
                return Err("ERROR: owner（人）不能被委任为 lead".to_string());
            }
            Ok(with_role(g, i, "lead"))
        },
    }
}

/// Takes the lead away from a group, as it was loaded. The state stays.
pub fn revoke_lead(loaded: Option<GroupConfig>) -> (r: Result<GroupConfig, String>)
    ensures
        match (loaded, r) {
            (None, Err(e)) => e@ == no_group(),
            (Some(g), Ok(h)) => {
                &&& role_at(g.members@, "lead"@) < g.members@.len()
                &&& role_set(g, h, role_at(g.members@, "lead"@), "member"@)
            },
            (Some(g), Err(e)) => {
                &&& role_at(g.members@, "lead"@) >= g.members@.len()
                &&& e@ == "ERROR: 当前没有 lead"@
            },
            _ => false,
        },
{
    match loaded {
        None => Err("ERROR: 群档案不存在或损坏".to_string()),
        Some(g) => {
            let i: usize = find_role(&g.members, "lead");
            if i >= g.members.len() {
                return Err("ERROR: 当前没有 lead".to_string());
            }
            Ok(with_role(g, i, "member"))
        },
    }
}

/// At most one member is the lead.
pub open spec fn one_lead(members: Seq<Member>) -> bool {
    forall|i: int, j: int|
        0 <= i < members.len() && 0 <= j < members.len() && (#[trigger] members[i]).role@ == "lead"@ && (
        #[trigger] members[j]).role@ == "lead"@ ==> i == j
}

/// Promoting and revoking keep a group at no more than one lead, and revoking
/// undoes promoting: every member is as before, the promoted one a plain
/// member.
pub proof fn law_promote_and_revoke(g: GroupConfig, h: GroupConfig, k: GroupConfig, name: Seq<char>)
    requires
        promote_error(g, name) is None,
        role_set(g, h, member_at(g.members@, name), "lead"@),
        role_set(h, k, role_at(h.members@, "lead"@), "member"@),
    ensures
        one_lead(h.members@),
        role_at(k.members@, "lead"@) == k.members@.len(),
        role_set(g, k, member_at(g.members@, name), "member"@),
{
    let i = member_at(g.members@, name);
    lemma_member_at(g.members@, name);
    lemma_role_at(g.members@, "lead"@);
    lemma_role_at(h.members@, "lead"@);
    lemma_role_at(k.members@, "lead"@);
    assert forall|j: int| 0 <= j < g.members@.len() implies g.members@[j].role@ != "lead"@ by {}
    assert(h.members@[i].role@ == "lead"@);
    assert(role_at(h.members@, "lead"@) == i);
    reveal_strlit("lead");
    reveal_strlit("member");
    assert("lead"@.len() != "member"@.len());
    assert forall|j: int| 0 <= j < k.members@.len() implies k.members@[j].role@ != "lead"@ by {
        if j != i {
            assert(h.members@[j] == g.members@[j]);
            assert(k.members@[j] == h.members@[j]);
        }
    }
}

/// Founding, promoting and revoking never change who the members are: a group
/// founded with different names keeps them.
pub proof fn law_roles_keep_names(g: GroupConfig, h: GroupConfig, i: int, role: Seq<char>)
    requires
        0 <= i < g.members@.len(),
        role_set(g, h, i, role),
    ensures
        forall|j: int| 0 <= j < g.members@.len() ==> (#[trigger] h.members@[j]).name == g.members@[j].name,
{
}

// ---------- the stream ----------

/// An event as the stream writes it; the members in the order of their names.
pub open spec fn event_form(e: EventView) -> JsonView {
    match e {
        EventView::Message { from, text, ts } => JsonView::obj().with("from"@, JsonView::Str(from)).with(
            "text"@,
            JsonView::Str(text),
        ).with("ts"@, JsonView::Uint(ts)).with("type"@, JsonView::Str("message"@)),
        EventView::Mention { from, text, ts, mentions } => JsonView::obj().with(
            "from"@,
            JsonView::Str(from),
        ).with("mentions"@, str_items(mentions)).with("text"@, JsonView::Str(text)).with(
            "ts"@,
            JsonView::Uint(ts),
        ).with("type"@, JsonView::Str("mention"@)),
        EventView::Subtask { from, to, prompt, ts, state } => JsonView::obj().with(
            "from"@,
            JsonView::Str(from),
        ).with("prompt"@, JsonView::Str(prompt)).with("state"@, JsonView::Str(state)).with(
            "to"@,
            JsonView::Str(to),
        ).with("ts"@, JsonView::Uint(ts)).with("type"@, JsonView::Str("subtask"@)),
        EventView::Summary { text, ts } => JsonView::obj().with("text"@, JsonView::Str(text)).with(
            "ts"@,
            JsonView::Uint(ts),
        ).with("type"@, JsonView::Str("summary"@)),
        EventView::StateChange { from_state, to_state, ts } => JsonView::obj().with(
            "from_state"@,
            JsonView::Str(from_state),
        ).with("to_state"@, JsonView::Str(to_state)).with("ts"@, JsonView::Uint(ts)).with(
            "type"@,
            JsonView::Str("state_change"@),
        ),
        EventView::Error { text, ts } => JsonView::obj().with("text"@, JsonView::Str(text)).with(
            "ts"@,
            JsonView::Uint(ts),
        ).with("type"@, JsonView::Str("error"@)),
        EventView::MemberActivity { from, kind, text, ts } => JsonView::obj().with(
            "from"@,
            JsonView::Str(from),
        ).with("kind"@, JsonView::Str(kind)).with("text"@, JsonView::Str(text)).with(
            "ts"@,
            JsonView::Uint(ts),
        ).with("type"@, JsonView::Str("member_activity"@)),
    }
}

pub fn event_json(e: &GroupEvent) -> (r: Json)
    ensures
        r@ == event_form(e@),
{
    match e {
        GroupEvent::Message { from, text, ts } => Json::obj().with("from", Json::text(from.as_str())).with(
            "text",
            Json::text(text.as_str()),
        ).with("ts", Json::Uint(*ts)).with("type", Json::text("message")),
        GroupEvent::Mention { from, text, ts, mentions } => Json::obj().with(
            "from",
            Json::text(from.as_str()),
        ).with("mentions", Json::texts(mentions)).with("text", Json::text(text.as_str())).with(
            "ts",
            Json::Uint(*ts),
        ).with("type", Json::text("mention")),
        GroupEvent::Subtask { from, to, prompt, ts, state } => Json::obj().with(
            "from",
            Json::text(from.as_str()),
        ).with("prompt", Json::text(prompt.as_str())).with("state", Json::text(state.as_str())).with(
            "to",
            Json::text(to.as_str()),
        ).with("ts", Json::Uint(*ts)).with("type", Json::text("subtask")),
        GroupEvent::Summary { text, ts } => Json::obj().with("text", Json::text(text.as_str())).with(
            "ts",
            Json::Uint(*ts),
        ).with("type", Json::text("summary")),
        GroupEvent::StateChange { from_state, to_state, ts } => Json::obj().with(
            "from_state",
            Json::text(from_state.as_str()),
        ).with("to_state", Json::text(to_state.as_str())).with("ts", Json::Uint(*ts)).with(
            "type",
            Json::text("state_change"),
        ),
        GroupEvent::Error { text, ts } => Json::obj().with("text", Json::text(text.as_str())).with(
            "ts",
            Json::Uint(*ts),
        ).with("type", Json::text("error")),
        GroupEvent::MemberActivity { from, kind, text, ts } => Json::obj().with(
            "from",
            Json::text(from.as_str()),
        ).with("kind", Json::text(kind.as_str())).with("text", Json::text(text.as_str())).with(
            "ts",
            Json::Uint(*ts),
        ).with("type", Json::text("member_activity")),
    }
}

/// The texts of an array that holds nothing else.
pub open spec fn all_texts(v: Seq<JsonView>) -> Option<Seq<Seq<char>>> {
    if forall|i: int| 0 <= i < v.len() ==> (#[trigger] v[i]) is Str {
        Some(Seq::new(v.len(), |i: int| v[i]->Str_0))
    } else {
        None
    }
}

/// The type that an event's form names: the member `type` of an object, or the
/// first item of a list.
pub open spec fn kind_in(v: JsonView) -> Option<Seq<char>> {
    match v {
        JsonView::Arr(a) => if a.len() > 0 {
            a[0].as_str()
        } else {
            None
        },
        _ => v.get_str("type"@),
    }
}

/// The event that a JSON value stands for: its type names it, and all its
/// fields are there, as the members of an object or behind the type in a list.
pub open spec fn event_of_form(v: JsonView) -> Option<EventView> {
    match kind_in(v) {
        None => None,
        Some(kind) => if kind == "message"@ {
            match (v.field_str("from"@, 1, 4), v.field_str("text"@, 2, 4), v.field_u64("ts"@, 3, 4)) {
                (Some(f), Some(t), Some(ts)) => Some(EventView::Message { from: f, text: t, ts }),
                _ => None,
            }
        } else if kind == "mention"@ {
            match (
                v.field_str("from"@, 1, 5),
                v.field_str("text"@, 2, 5),
                v.field_u64("ts"@, 3, 5),
                v.field("mentions"@, 4, 5),
            ) {
                (Some(f), Some(t), Some(ts), Some(JsonView::Arr(a))) => match all_texts(a) {
                    Some(m) => Some(EventView::Mention { from: f, text: t, ts, mentions: m }),
                    None => None,
                },
                _ => None,
            }
        } else if kind == "subtask"@ {
            match (
                v.field_str("from"@, 1, 6),
                v.field_str("to"@, 2, 6),
                v.field_str("prompt"@, 3, 6),
                v.field_u64("ts"@, 4, 6),
                v.field_str("state"@, 5, 6),
            ) {
                (Some(f), Some(t), Some(p), Some(ts), Some(s)) => Some(
                    EventView::Subtask { from: f, to: t, prompt: p, ts, state: s },
                ),
                _ => None,
            }
        } else if kind == "summary"@ {
            match (v.field_str("text"@, 1, 3), v.field_u64("ts"@, 2, 3)) {
                (Some(t), Some(ts)) => Some(EventView::Summary { text: t, ts }),
                _ => None,
            }
        } else if kind == "state_change"@ {
            match (
                v.field_str("from_state"@, 1, 4),
                v.field_str("to_state"@, 2, 4),
                v.field_u64("ts"@, 3, 4),
            ) {
                (Some(f), Some(t), Some(ts)) => Some(EventView::StateChange { from_state: f, to_state: t, ts }),
                _ => None,
            }
        } else if kind == "error"@ {
            match (v.field_str("text"@, 1, 3), v.field_u64("ts"@, 2, 3)) {
                (Some(t), Some(ts)) => Some(EventView::Error { text: t, ts }),
                _ => None,
            }
        } else if kind == "member_activity"@ {
            match (
                v.field_str("from"@, 1, 5),
                v.field_str("kind"@, 2, 5),
                v.field_str("text"@, 3, 5),
                v.field_u64("ts"@, 4, 5),
            ) {
                (Some(f), Some(k), Some(t), Some(ts)) => Some(
                    EventView::MemberActivity { from: f, kind: k, text: t, ts },
                ),
                _ => None,
            }
        } else {
            None
        },
    }
}

pub open spec fn opt_event(e: Option<GroupEvent>) -> Option<EventView> {
    match e {
        Some(x) => Some(x@),
        None => None,
    }
}

fn texts_of(a: &Vec<Json>) -> (r: Option<Vec<String>>)
    ensures
        match r {
            Some(v) => all_texts(views(a@)) == Some(strs(v@)),
            None => all_texts(views(a@)) is None,
        },
{
    let ghost all = views(a@);
    let mut out: Vec<String> = Vec::new();
    let mut i: usize = 0;
    while i < a.len()
        invariant
            i <= a.len(),
            all == views(a@),
            out.len() == i,
            forall|j: int| 0 <= j < i ==> (#[trigger] all[j]) is Str && all[j]->Str_0 == out@[j]@,
        decreases a.len() - i,
    {
        assert(all[i as int] == a@[i as int]@);
        match a[i].as_str() {
            Some(s) => {
                out.push(s.to_string());
            },
            None => {
                return None;
            },
        }
        i += 1;
    }
    assert(strs(out@) =~= Seq::new(all.len(), |i: int| all[i]->Str_0));
    Some(out)
}

fn kind_of(v: &Json) -> (r: Option<&str>)
    ensures
        match r {
            Some(s) => kind_in(v@) == Some(s@),
            None => kind_in(v@) is None,
        },
{
    match v.as_arr() {
        Some(a) => if a.len() > 0 {
            a[0].as_str()
        } else {
            None
        },
        None => v.get_str("type"),
    }
}

/// Reads an event out of a JSON value.
pub fn event_of_json(v: &Json) -> (r: Option<GroupEvent>)
    ensures
        opt_event(r) == event_of_form(v@),
{
    let kind: &str = match kind_of(v) {
        Some(k) => k,
        None => {
            return None;
        },
    };
    if str_eq(kind, "message") {
        match (v.field_str("from", 1, 4), v.field_str("text", 2, 4), v.field_u64("ts", 3, 4)) {
            (Some(f), Some(t), Some(ts)) => Some(
                GroupEvent::Message { from: f.to_string(), text: t.to_string(), ts },
            ),
            _ => None,
        }
    } else if str_eq(kind, "mention") {
        match (
            v.field_str("from", 1, 5),
            v.field_str("text", 2, 5),
            v.field_u64("ts", 3, 5),
            v.field("mentions", 4, 5),
        ) {
            (Some(f), Some(t), Some(ts), Some(m)) => match m.as_arr() {
                Some(a) => match texts_of(a) {
                    Some(mentions) => Some(
                        GroupEvent::Mention { from: f.to_string(), text: t.to_string(), ts, mentions },
                    ),
                    None => None,
                },
                None => None,
            },
            _ => None,
        }
    } else if str_eq(kind, "subtask") {
        match (
            v.field_str("from", 1, 6),
            v.field_str("to", 2, 6),
            v.field_str("prompt", 3, 6),
            v.field_u64("ts", 4, 6),
            v.field_str("state", 5, 6),
        ) {
            (Some(f), Some(t), Some(p), Some(ts), Some(s)) => Some(
                GroupEvent::Subtask {
                    from: f.to_string(),
                    to: t.to_string(),
                    prompt: p.to_string(),
                    ts,
                    state: s.to_string(),
                },
            ),
            _ => None,
        }
    } else if str_eq(kind, "summary") {
        match (v.field_str("text", 1, 3), v.field_u64("ts", 2, 3)) {
            (Some(t), Some(ts)) => Some(GroupEvent::Summary { text: t.to_string(), ts }),
            _ => None,
        }
    } else if str_eq(kind, "state_change") {
        match (v.field_str("from_state", 1, 4), v.field_str("to_state", 2, 4), v.field_u64("ts", 3, 4)) {
            (Some(f), Some(t), Some(ts)) => Some(
                GroupEvent::StateChange { from_state: f.to_string(), to_state: t.to_string(), ts },
            ),
            _ => None,
        }
    } else if str_eq(kind, "error") {
        match (v.field_str("text", 1, 3), v.field_u64("ts", 2, 3)) {
            (Some(t), Some(ts)) => Some(GroupEvent::Error { text: t.to_string(), ts }),
            _ => None,
        }
    } else if str_eq(kind, "member_activity") {
        match (
            v.field_str("from", 1, 5),
            v.field_str("kind", 2, 5),
            v.field_str("text", 3, 5),
            v.field_u64("ts", 4, 5),
        ) {
            (Some(f), Some(k), Some(t), Some(ts)) => Some(
                GroupEvent::MemberActivity {
                    from: f.to_string(),
                    kind: k.to_string(),
                    text: t.to_string(),
                    ts,
                },
            ),
            _ => None,
        }
    } else {
        None
    }
}

/// The event on a line, if there is one.
pub open spec fn line_event(line: Seq<char>) -> Option<EventView> {
    if trim(line).len() == 0 {
        None
    } else {
        match json_parsed(trim(line)) {
            Ok(v) => event_of_form(v),
            Err(_) => None,
        }
    }
}

/// The events on lines; damaged and empty lines are passed over.
pub open spec fn line_events(ls: Seq<Seq<char>>) -> Seq<EventView>
    decreases ls.len(),
{
    if ls.len() == 0 {
        Seq::empty()
    } else {
        match line_event(ls.last()) {
            Some(e) => line_events(ls.drop_last()).push(e),
            None => line_events(ls.drop_last()),
        }
    }
}

/// The events in the text of a stream.
pub open spec fn stream_events(content: Seq<char>) -> Seq<EventView> {
    line_events(lines(content))
}

/// Reads the events of a stream; damaged and empty lines are passed over.
pub fn read_stream(content: &str) -> (r: Vec<GroupEvent>)
    ensures
        event_views(r@) == stream_events(content@),
{
    let ls: Vec<String> = lines_of(content);
    let ghost all = lines(content@);
    let mut out: Vec<GroupEvent> = Vec::new();
    let mut i: usize = 0;
    assert(event_views(out@) =~= line_events(all.take(0)));
    while i < ls.len()
        invariant
            i <= ls.len(),
            all == strs(ls@),
            event_views(out@) == line_events(all.take(i as int)),
        decreases ls.len() - i,
    {
        let ghost before = event_views(out@);
        proof {
            assert(all.take(i as int + 1).drop_last() =~= all.take(i as int));
            assert(all.take(i as int + 1).last() == ls@[i as int]@);
        }
        let line: String = trim_string(ls[i].as_str());
        if !line.as_str().is_empty() {
            if let Ok(v) = parse(line.as_str()) {
                if let Some(e) = event_of_json(&v) {
                    out.push(e);
                    assert(event_views(out@) =~= before.push(e@));
                }
            }
        }
        i += 1;
    }
    assert(all.take(i as int) =~= all);
    out
}

proof fn lemma_less_by_first(a: Seq<char>, b: Seq<char>)
    requires
        a.len() > 0,
        b.len() > 0,
        a[0] < b[0],
    ensures
        text_less(a, b),
{
}

proof fn lemma_less_by_second(a: Seq<char>, b: Seq<char>)
    requires
        a.len() > 1,
        b.len() > 1,
        a[0] == b[0],
        a[1] < b[1],
    ensures
        text_less(a, b),
{
    assert(a.drop_first()[0] == a[1]);
    assert(b.drop_first()[0] == b[1]);
    lemma_less_by_first(a.drop_first(), b.drop_first());
}

/// The order of the members' names.
proof fn lemma_keys()
    ensures
        text_less("from"@, "kind"@),
        text_less("from"@, "mentions"@),
        text_less("from"@, "prompt"@),
        text_less("from"@, "state"@),
        text_less("from"@, "text"@),
        text_less("from"@, "to"@),
        text_less("from"@, "ts"@),
        text_less("from"@, "type"@),
        text_less("from_state"@, "to_state"@),
        text_less("from_state"@, "ts"@),
        text_less("from_state"@, "type"@),
        text_less("kind"@, "text"@),
        text_less("kind"@, "ts"@),
        text_less("kind"@, "type"@),
        text_less("mentions"@, "text"@),
        text_less("mentions"@, "ts"@),
        text_less("mentions"@, "type"@),
        text_less("prompt"@, "state"@),
        text_less("prompt"@, "to"@),
        text_less("prompt"@, "ts"@),
        text_less("prompt"@, "type"@),
        text_less("state"@, "to"@),
        text_less("state"@, "ts"@),
        text_less("state"@, "type"@),
        text_less("text"@, "ts"@),
        text_less("text"@, "type"@),
        text_less("to"@, "ts"@),
        text_less("to"@, "type"@),
        text_less("to_state"@, "ts"@),
        text_less("to_state"@, "type"@),
        text_less("ts"@, "type"@),
{
    reveal_strlit("from");
    reveal_strlit("kind");
    reveal_strlit("mentions");
    reveal_strlit("prompt");
    reveal_strlit("state");
    reveal_strlit("text");
    reveal_strlit("to");
    reveal_strlit("ts");
    reveal_strlit("type");
    reveal_strlit("from_state");
    reveal_strlit("to_state");
    lemma_less_by_first("from"@, "kind"@);
    lemma_less_by_first("from"@, "mentions"@);
    lemma_less_by_first("from"@, "prompt"@);
    lemma_less_by_first("from"@, "state"@);
    lemma_less_by_first("from"@, "text"@);
    lemma_less_by_first("from"@, "to"@);
    lemma_less_by_first("from"@, "ts"@);
    lemma_less_by_first("from"@, "type"@);
    lemma_less_by_first("from_state"@, "to_state"@);
    lemma_less_by_first("from_state"@, "ts"@);
    lemma_less_by_first("from_state"@, "type"@);
    lemma_less_by_first("kind"@, "text"@);
    lemma_less_by_first("kind"@, "ts"@);
    lemma_less_by_first("kind"@, "type"@);
    lemma_less_by_first("mentions"@, "text"@);
    lemma_less_by_first("mentions"@, "ts"@);
    lemma_less_by_first("mentions"@, "type"@);
    lemma_less_by_first("prompt"@, "state"@);
    lemma_less_by_first("prompt"@, "to"@);
    lemma_less_by_first("prompt"@, "ts"@);
    lemma_less_by_first("prompt"@, "type"@);
    lemma_less_by_first("state"@, "to"@);
    lemma_less_by_first("state"@, "ts"@);
    lemma_less_by_first("state"@, "type"@);
    lemma_less_by_second("text"@, "ts"@);
    lemma_less_by_second("text"@, "type"@);
    lemma_less_by_second("to"@, "ts"@);
    lemma_less_by_second("to"@, "type"@);
    lemma_less_by_second("to_state"@, "ts"@);
    lemma_less_by_second("to_state"@, "type"@);
    lemma_less_by_second("ts"@, "type"@);
}

/// The types of events have different names.
proof fn lemma_kinds()
    ensures
        "message"@ != "mention"@,
        "message"@ != "subtask"@,
        "message"@ != "summary"@,
        "mention"@ != "subtask"@,
        "mention"@ != "summary"@,
        "subtask"@ != "summary"@,
        "message"@.len() == 7,
        "mention"@.len() == 7,
        "subtask"@.len() == 7,
        "summary"@.len() == 7,
        "error"@.len() == 5,
        "state_change"@.len() == 12,
        "member_activity"@.len() == 15,
{
    reveal_strlit("message");
    reveal_strlit("mention");
    reveal_strlit("subtask");
    reveal_strlit("summary");
    reveal_strlit("error");
    reveal_strlit("state_change");
    reveal_strlit("member_activity");
    assert("message"@[2] != "mention"@[2]);
    assert("message"@[0] != "subtask"@[0]);
    assert("message"@[0] != "summary"@[0]);
    assert("mention"@[0] != "subtask"@[0]);
    assert("mention"@[0] != "summary"@[0]);
    assert("subtask"@[2] != "summary"@[2]);
}

proof fn lemma_member_at_index(m: Seq<(Seq<char>, JsonView)>, i: int)
    requires
        0 <= i < m.len(),
        forall|j: int| 0 <= j < i ==> (#[trigger] m[j]).0 != m[i].0,
    ensures
        member(m, m[i].0) == Some(m[i].1),
    decreases m.len(),
{
    if i > 0 {
        let t = m.drop_first();
        assert(m[0].0 != m[i].0);
        assert forall|j: int| 0 <= j < i - 1 implies (#[trigger] t[j]).0 != t[i - 1].0 by {
            assert(m[j + 1].0 != m[i].0);
        }
        lemma_member_at_index(t, i - 1);
    }
}

/// A member of an ordered object is found under its name.
pub proof fn lemma_member_sorted(v: JsonView, i: int)
    requires
        flat_object(v),
        0 <= i < v->Obj_0.len(),
    ensures
        v.get(v->Obj_0[i].0) == Some(v->Obj_0[i].1),
{
    let m = v->Obj_0;
    assert forall|j: int| 0 <= j < i implies (#[trigger] m[j]).0 != m[i].0 by {
        assert(text_less(m[j].0, m[i].0));
        crate::text::law_text_order(m[j].0, m[i].0);
    }
    lemma_member_at_index(m, i);
}

/// The names that come first in the events' forms begin with a letter.
proof fn lemma_plain_names()
    ensures
        "from"@[0] != '$',
        "from_state"@[0] != '$',
        "text"@[0] != '$',
{
    reveal_strlit("from");
    reveal_strlit("from_state");
    reveal_strlit("text");
}

/// An event's form lists its members in order and is read back as the event.
#[verifier::rlimit(60)]
pub proof fn law_event_form_is_read_back(e: EventView)
    ensures
        flat_object(event_form(e)),
        event_of_form(event_form(e)) == Some(e),
{
    lemma_keys();
    lemma_plain_names();
    let f = event_form(e);
    let m = f->Obj_0;
    match e {
        EventView::Message { from, text, ts } => {
            assert(m.len() == 4);
            assert(flat_object(f));
            lemma_member_sorted(f, 0);
            lemma_member_sorted(f, 1);
            lemma_member_sorted(f, 2);
            lemma_member_sorted(f, 3);
        },
        EventView::Mention { from, text, ts, mentions } => {
            assert(m.len() == 5);
            assert(flat_object(f));
            lemma_member_sorted(f, 0);
            lemma_member_sorted(f, 1);
            lemma_member_sorted(f, 2);
            lemma_member_sorted(f, 3);
            lemma_member_sorted(f, 4);
            let a = str_items(mentions)->Arr_0;
            assert(Seq::new(a.len(), |i: int| a[i]->Str_0) =~= mentions);
            lemma_kinds();
        },
        EventView::Subtask { from, to, prompt, ts, state } => {
            assert(m.len() == 6);
            assert(flat_object(f));
            lemma_member_sorted(f, 0);
            lemma_member_sorted(f, 1);
            lemma_member_sorted(f, 2);
            lemma_member_sorted(f, 3);
            lemma_member_sorted(f, 4);
            lemma_member_sorted(f, 5);
            lemma_kinds();
        },
        EventView::Summary { text, ts } => {
            assert(m.len() == 3);
            assert(flat_object(f));
            lemma_member_sorted(f, 0);
            lemma_member_sorted(f, 1);
            lemma_member_sorted(f, 2);
            lemma_kinds();
        },
        EventView::StateChange { from_state, to_state, ts } => {
            assert(m.len() == 4);
            assert(flat_object(f));
            lemma_member_sorted(f, 0);
            lemma_member_sorted(f, 1);
            lemma_member_sorted(f, 2);
            lemma_member_sorted(f, 3);
            lemma_kinds();
        },
        EventView::Error { text, ts } => {
            assert(m.len() == 3);
            assert(flat_object(f));
            lemma_member_sorted(f, 0);
            lemma_member_sorted(f, 1);
            lemma_member_sorted(f, 2);
            lemma_kinds();
        },
        EventView::MemberActivity { from, kind, text, ts } => {
            assert(m.len() == 5);
            assert(flat_object(f));
            lemma_member_sorted(f, 0);
            lemma_member_sorted(f, 1);
            lemma_member_sorted(f, 2);
            lemma_member_sorted(f, 3);
            lemma_member_sorted(f, 4);
            lemma_kinds();
        },
    }
}

proof fn lemma_line_events_concat(a: Seq<Seq<char>>, b: Seq<Seq<char>>)
    ensures
        line_events(a + b) == line_events(a) + line_events(b),
    decreases b.len(),
{
    if b.len() == 0 {
        assert(a + b =~= a);
        assert(line_events(a) + line_events(b) =~= line_events(a));
    } else {
        assert((a + b).drop_last() =~= a + b.drop_last());
        assert((a + b).last() == b.last());
        lemma_line_events_concat(a, b.drop_last());
        match line_event(b.last()) {
            Some(e) => {
                assert(line_events(a) + line_events(b) =~= (line_events(a) + line_events(b.drop_last())).push(
                    e,
                ));
            },
            None => {},
        }
    }
}

/// Appends an event to the text of a stream, as one line. Reading the stream
/// then gives what it gave before, and the event.
pub fn append_event(content: String, e: &GroupEvent) -> (r: String)
    ensures
        r@ == content@ + json_printed(event_form(e@)).push('\n'),
        content@.len() == 0 || content@.last() == '\n' ==> stream_events(r@) == stream_events(
            content@,
        ).push(e@),
{
    let j: Json = event_json(e);
    let line: String = print(&j);
    let ghost old_content = content@;
    let mut out: String = content;
    out.append(line.as_str());
    out.push('\n');
    proof {
        assert(out@ =~= old_content + line@.push('\n'));
        if old_content.len() == 0 || old_content.last() == '\n' {
            law_event_form_is_read_back(e@);
            crate::text::lemma_lines_concat(old_content, line@.push('\n'));
            crate::text::lemma_one_line(line@);
            crate::text::lemma_trimmed(line@);
            let one = seq![line@];
            lemma_line_events_concat(lines(old_content), one);
            assert(one.drop_last() =~= Seq::<Seq<char>>::empty());
            assert(line_event(line@) == Some(e@));
            assert(line_events(one.drop_last()) =~= Seq::<EventView>::empty());
            assert(line_events(one) =~= seq![e@]);
            assert(stream_events(out@) =~= stream_events(old_content).push(e@));
        }
    }
    out
}

} // verus!
