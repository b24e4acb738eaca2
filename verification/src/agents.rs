//! Agent profiles: their names, their states and their message channel.
//!
//! A profile starts as pending; only an approval makes it active. The name
//! `main` stands for the main agent and is never a profile.

use vstd::prelude::*;

use crate::clock::unix_seconds;
use crate::json::{Json, JsonView};
use crate::text::{
    ascii_alnum, ascii_lower_all, ascii_lowercase, byte_len, char_count, chars_of, clone_list, is_ascii_alnum,
    join_path, list_has, path_join, str_eq, str_less, strs, text_less, utf8_len,
};

verus! {

/// The reserved name of the main agent.
pub const MAIN: &'static str = "main";

/// A profile's private message channel.
#[derive(Debug)]
pub struct ChannelFeishu {
    pub enabled: bool,
    pub app_id: String,
    pub app_secret: String,
    /// The former list of senders; read where no policy is set.
    pub allow_from: Vec<String>,
    /// `deny_all`, `allow_all`, `allow_list` or `deny_list`.
    pub dm_policy: String,
    pub policy_list: Vec<String>,
    /// `none`, `compact` or `full`.
    pub show_process: String,
}

/// The channel where nothing is set: off, and nobody may write to it.
pub open spec fn is_default_channel(c: ChannelFeishu) -> bool {
    &&& !c.enabled
    &&& c.app_id@.len() == 0
    &&& c.app_secret@.len() == 0
    &&& c.allow_from@.len() == 0
    &&& c.dm_policy@ == "deny_all"@
    &&& c.policy_list@.len() == 0
    &&& c.show_process@ == "compact"@
}

impl Default for ChannelFeishu {
    fn default() -> (r: Self)
        ensures
            is_default_channel(r),
    {
        ChannelFeishu {
            enabled: false,
            app_id: String::new(),
            app_secret: String::new(),
            allow_from: Vec::new(),
            dm_policy: "deny_all".to_string(),
            policy_list: Vec::new(),
            show_process: "compact".to_string(),
        }
    }
}

impl Clone for ChannelFeishu {
    fn clone(&self) -> (r: Self)
        ensures
            r.enabled == self.enabled,
            r.app_id == self.app_id,
            r.app_secret == self.app_secret,
            r.allow_from@ == self.allow_from@,
            r.dm_policy == self.dm_policy,
            r.policy_list@ == self.policy_list@,
            r.show_process == self.show_process,
    {
        ChannelFeishu {
            enabled: self.enabled,
            app_id: self.app_id.clone(),
            app_secret: self.app_secret.clone(),
            allow_from: clone_list(&self.allow_from),
            dm_policy: self.dm_policy.clone(),
            policy_list: clone_list(&self.policy_list),
            show_process: self.show_process.clone(),
        }
    }
}

/// The policy that holds: the one that is set, or what the former list of
/// senders means.
pub open spec fn policy_of(c: ChannelFeishu) -> (Seq<char>, Seq<Seq<char>>) {
    if c.dm_policy@ == "allow_all"@ || c.dm_policy@ == "allow_list"@ || c.dm_policy@ == "deny_list"@ {
        (c.dm_policy@, strs(c.policy_list@))
    } else if strs(c.allow_from@).contains("*"@) {
        ("allow_all"@, strs(c.policy_list@))
    } else if c.allow_from@.len() > 0 {
        ("allow_list"@, strs(c.allow_from@))
    } else {
        ("deny_all"@, strs(c.policy_list@))
    }
}

impl ChannelFeishu {
    /// The policy that holds, and its list.
    pub fn effective_policy(&self) -> (r: (&str, &Vec<String>))
        ensures
            (r.0@, strs(r.1@)) == policy_of(*self),
    {
        if str_eq(self.dm_policy.as_str(), "allow_all") {
            ("allow_all", &self.policy_list)
        } else if str_eq(self.dm_policy.as_str(), "allow_list") {
            ("allow_list", &self.policy_list)
        } else if str_eq(self.dm_policy.as_str(), "deny_list") {
            ("deny_list", &self.policy_list)
        } else if list_has(&self.allow_from, "*") {
            ("allow_all", &self.policy_list)
        } else if self.allow_from.len() > 0 {
            ("allow_list", &self.allow_from)
        } else {
            ("deny_all", &self.policy_list)
        }
    }
}

/// A profile. An empty model stands for the main configuration's.
#[derive(Debug, Clone)]
pub struct AgentProfile {
    pub name: String,
    pub display_name: String,
    pub model: String,
    /// `pending`, `active` or `rejected`.
    pub state: String,
    pub description: String,
    pub created_ts: u64,
    pub channel_feishu: ChannelFeishu,
}

/// The state of a profile that names none.
pub fn default_state() -> (r: String)
    ensures
        r@ == "pending"@,
{
    "pending".to_string()
}

pub open spec fn name_char(c: char) -> bool {
    ascii_alnum(c) || c == '-' || c == '_'
}

/// A profile's name: 1 to 24 letters, digits, `-` or `_`, and not the reserved
/// one in any case.
pub open spec fn is_valid_name(name: Seq<char>) -> bool {
    &&& name.len() > 0
    &&& utf8_len(name) <= 24
    &&& ascii_lower_all(name) != MAIN@
    &&& forall|i: int| 0 <= i < name.len() ==> name_char(#[trigger] name[i])
}

pub fn valid_name(name: &str) -> (r: bool)
    ensures
        r == is_valid_name(name@),
{
    let v: Vec<char> = chars_of(name);
    if v.len() == 0 || byte_len(name) > 24 {
        return false;
    }
    let lower: String = ascii_lowercase(name);
    if str_eq(lower.as_str(), MAIN) {
        return false;
    }
    let mut i: usize = 0;
    while i < v.len()
        invariant
            i <= v.len(),
            v@ == name@,
            forall|j: int| 0 <= j < i ==> name_char(#[trigger] name@[j]),
        decreases v.len() - i,
    {
        if !(is_ascii_alnum(v[i]) || v[i] == '-' || v[i] == '_') {
            assert(!name_char(name@[i as int]));
            return false;
        }
        i += 1;
    }
    true
}

/// The directory of all profiles under a home directory.
pub open spec fn root_of(home: Seq<char>) -> Seq<char> {
    home + "/.r2/agents"@
}

pub fn agents_root(home: &str) -> (r: String)
    ensures
        r@ == root_of(home@),
{
    let mut s: String = home.to_string();
    s.append("/.r2/agents");
    s
}

/// The directory of one profile.
pub open spec fn dir_of(home: Seq<char>, name: Seq<char>) -> Seq<char> {
    path_join(root_of(home), name)
}

pub fn profile_dir(home: &str, name: &str) -> (r: String)
    ensures
        r@ == dir_of(home@, name@),
{
    let root: String = agents_root(home);
    join_path(root.as_str(), name)
}

/// The file of one profile.
pub fn toml_path(home: &str, name: &str) -> (r: String)
    ensures
        r@ == path_join(dir_of(home@, name@), "AGENT.toml"@),
{
    let dir: String = profile_dir(home, name);
    join_path(dir.as_str(), "AGENT.toml")
}

/// A profile that was read from the directory `name`: the directory's name
/// counts, and a name that is not valid has no profile.
pub fn load_profile(name: &str, read: Option<AgentProfile>) -> (r: Option<AgentProfile>)
    ensures
        match r {
            Some(p) => {
                &&& is_valid_name(name@)
                &&& read is Some
                &&& p.name@ == name@
                &&& p == (AgentProfile { name: p.name, ..read->Some_0 })
            },
            None => !is_valid_name(name@) || read is None,
        },
{
    if !valid_name(name) {
        return None;
    }
    match read {
        Some(p) => {
            let mut q = p;
            q.name = name.to_string();
            Some(q)
        },
        None => None,
    }
}

/// Whether a profile may be written.
pub fn check_saved_name(p: &AgentProfile) -> (r: Result<(), String>)
    ensures
        match r {
            Ok(_) => is_valid_name(p.name@),
            Err(e) => !is_valid_name(p.name@) && e@ == "非法档案名："@ + p.name@,
        },
{
    if valid_name(p.name.as_str()) {
        Ok(())
    } else {
        let mut e: String = "非法档案名：".to_string();
        e.append(p.name.as_str());
        Err(e)
    }
}

/// Why a profile cannot be drafted, if so.
pub open spec fn draft_error(
    name: Seq<char>,
    exists_already: bool,
    display_name: Seq<char>,
    description: Seq<char>,
    soul: Seq<char>,
) -> Option<Seq<char>> {
    if !is_valid_name(name) {
        Some("名字必须是 1-24 位字母/数字/-/_（main 保留）"@)
    } else if exists_already {
        Some("已存在同名 agent："@ + name + "（换个名字或先删除旧的）"@)
    } else if display_name.len() > 32 {
        Some("display_name 最长 32 字"@)
    } else if description.len() > 200 {
        Some("description 最长 200 字"@)
    } else if soul.len() > 8000 {
        Some("SOUL 人格最长 8000 字"@)
    } else {
        None
    }
}

/// Drafts a profile at the time `now`. It is always pending: nothing but an
/// approval makes a profile active.
pub fn draft_profile_at(
    name: &str,
    exists_already: bool,
    display_name: &str,
    model: &str,
    description: &str,
    soul: &str,
    now: u64,
) -> (r: Result<AgentProfile, String>)
    ensures
        match r {
            Ok(p) => {
                &&& draft_error(name@, exists_already, display_name@, description@, soul@) is None
                &&& p.name@ == name@
                &&& p.display_name@ == display_name@
                &&& p.model@ == model@
                &&& p.state@ == "pending"@
                &&& p.description@ == description@
                &&& p.created_ts == now
                &&& is_default_channel(p.channel_feishu)
                &&& policy_of(p.channel_feishu) == ("deny_all"@, Seq::<Seq<char>>::empty())
            },
            Err(e) => draft_error(name@, exists_already, display_name@, description@, soul@) == Some(e@),
        },
{
    if !valid_name(name) {
        return Err("名字必须是 1-24 位字母/数字/-/_（main 保留）".to_string());
    }
    if exists_already {
        let mut e: String = "已存在同名 agent：".to_string();
        e.append(name);
        e.append("（换个名字或先删除旧的）");
        return Err(e);
    }
    if char_count(display_name) > 32 {
        return Err("display_name 最长 32 字".to_string());
    }
    if char_count(description) > 200 {
        return Err("description 最长 200 字".to_string());
    }
    if char_count(soul) > 8000 {
        return Err("SOUL 人格最长 8000 字".to_string());
    }
    let channel: ChannelFeishu = ChannelFeishu::default();
    proof {
        reveal_strlit("deny_all");
        reveal_strlit("allow_all");
        reveal_strlit("allow_list");
        reveal_strlit("deny_list");
        assert("deny_all"@[0] != "allow_all"@[0]);
        assert("deny_all"@[0] != "allow_list"@[0]);
        assert("deny_all"@[5] != "deny_list"@[5]);
        assert(strs(channel.policy_list@) =~= Seq::<Seq<char>>::empty());
        assert(!strs(channel.allow_from@).contains("*"@));
    }
    Ok(
        AgentProfile {
            name: name.to_string(),
            display_name: display_name.to_string(),
            model: model.to_string(),
            state: "pending".to_string(),
            description: description.to_string(),
            created_ts: now,
            channel_feishu: channel,
        },
    )
}

/// Drafts a profile now. Whatever the clock says, it is pending and refused on
/// the same inputs.
pub fn draft_profile(
    name: &str,
    exists_already: bool,
    display_name: &str,
    model: &str,
    description: &str,
    soul: &str,
) -> (r: Result<AgentProfile, String>)
    ensures
        match r {
            Ok(p) => {
                &&& draft_error(name@, exists_already, display_name@, description@, soul@) is None
                &&& p.name@ == name@
                &&& p.display_name@ == display_name@
                &&& p.model@ == model@
                &&& p.state@ == "pending"@
                &&& p.description@ == description@
                &&& is_default_channel(p.channel_feishu)
                &&& policy_of(p.channel_feishu) == ("deny_all"@, Seq::<Seq<char>>::empty())
            },
            Err(e) => draft_error(name@, exists_already, display_name@, description@, soul@) == Some(e@),
        },
{
    draft_profile_at(name, exists_already, display_name, model, description, soul, unix_seconds())
}

pub open spec fn missing_agent(name: Seq<char>) -> Seq<char> {
    "agent 不存在："@ + name
}

fn missing_agent_of(name: &str) -> (r: String)
    ensures
        r@ == missing_agent(name@),
{
    let mut e: String = "agent 不存在：".to_string();
    e.append(name);
    e
}

/// A decision on a profile that is not pending.
pub open spec fn not_pending(p: AgentProfile, what: Seq<char>) -> Seq<char> {
    p.name@ + " 当前状态 "@ + p.state@ + "，只有 pending 可"@ + what
}

/// Moves a pending profile to another state.
fn decide(name: &str, p: Option<AgentProfile>, to: &str, what: &str) -> (r: Result<AgentProfile, String>)
    ensures
        match p {
            None => r is Err && r->Err_0@ == missing_agent(name@),
            Some(q) => if q.state@ == "pending"@ {
                &&& r is Ok
                &&& r->Ok_0.state@ == to@
                &&& r->Ok_0 == (AgentProfile { state: r->Ok_0.state, ..q })
            } else {
                r is Err && r->Err_0@ == not_pending(q, what@)
            },
        },
{
    match p {
        None => Err(missing_agent_of(name)),
        Some(q) => {
            if !str_eq(q.state.as_str(), "pending") {
                let mut e: String = q.name.clone();
                e.append(" 当前状态 ");
                e.append(q.state.as_str());
                e.append("，只有 pending 可");
                e.append(what);
                return Err(e);
            }
            let mut done = q;
            done.state = to.to_string();
            Ok(done)
        },
    }
}

/// Approves a pending profile, given what was loaded under its name.
pub fn approve(name: &str, p: Option<AgentProfile>) -> (r: Result<AgentProfile, String>)
    ensures
        match p {
            None => r is Err && r->Err_0@ == missing_agent(name@),
            Some(q) => if q.state@ == "pending"@ {
                &&& r is Ok
                &&& r->Ok_0.state@ == "active"@
                &&& r->Ok_0 == (AgentProfile { state: r->Ok_0.state, ..q })
            } else {
                r is Err && r->Err_0@ == not_pending(q, "批准"@)
            },
        },
{
    decide(name, p, "active", "批准")
}

/// Rejects a pending profile, given what was loaded under its name.
pub fn reject(name: &str, p: Option<AgentProfile>) -> (r: Result<AgentProfile, String>)
    ensures
        match p {
            None => r is Err && r->Err_0@ == missing_agent(name@),
            Some(q) => if q.state@ == "pending"@ {
                &&& r is Ok
                &&& r->Ok_0.state@ == "rejected"@
                &&& r->Ok_0 == (AgentProfile { state: r->Ok_0.state, ..q })
            } else {
                r is Err && r->Err_0@ == not_pending(q, "拒绝"@)
            },
        },
{
    decide(name, p, "rejected", "拒绝")
}

/// Whether a profile may be removed: an active one only with `force`.
pub fn remove_profile(
    name: &str,
    p: &Option<AgentProfile>,
    dir_exists: bool,
    force: bool,
) -> (r: Result<(), String>)
    ensures
        match r {
            Ok(_) => {
                &&& is_valid_name(name@)
                &&& dir_exists
                &&& p matches Some(q) ==> force || q.state@ != "active"@
            },
            Err(e) => if !is_valid_name(name@) {
                e@ == "非法档案名"@
            } else if p matches Some(q) && q.state@ == "active"@ && !force {
                e@ == p->Some_0.name@ + " 是生效中的 agent，需确认后才能删除"@
            } else {
                !dir_exists && e@ == missing_agent(name@)
            },
        },
{
    if !valid_name(name) {
        return Err("非法档案名".to_string());
    }
    if let Some(q) = p {
        if str_eq(q.state.as_str(), "active") && !force {
            let mut e: String = q.name.clone();
            e.append(" 是生效中的 agent，需确认后才能删除");
            return Err(e);
        }
    }
    if !dir_exists {
        return Err(missing_agent_of(name));
    }
    Ok(())
}

/// A profile as the console shows it.
pub open spec fn profile_view(p: AgentProfile) -> JsonView {
    JsonView::obj().with("name"@, JsonView::Str(p.name@)).with("display_name"@, JsonView::Str(p.display_name@)).with(
        "model"@,
        JsonView::Str(p.model@),
    ).with("state"@, JsonView::Str(p.state@)).with("description"@, JsonView::Str(p.description@)).with(
        "created_ts"@,
        JsonView::Uint(p.created_ts),
    )
}

pub fn profile_json(p: &AgentProfile) -> (r: Json)
    ensures
        r@ == profile_view(*p),
{
    Json::obj().with("name", Json::text(p.name.as_str())).with(
        "display_name",
        Json::text(p.display_name.as_str()),
    ).with("model", Json::text(p.model.as_str())).with("state", Json::text(p.state.as_str())).with(
        "description",
        Json::text(p.description.as_str()),
    ).with("created_ts", Json::Uint(p.created_ts))
}

/// Profiles in the order of their names.
pub open spec fn by_name(v: Seq<AgentProfile>) -> bool {
    forall|i: int, j: int|
        0 <= i < j < v.len() ==> !text_less((#[trigger] v[j]).name@, (#[trigger] v[i]).name@)
}

proof fn lemma_less_trans(a: Seq<char>, b: Seq<char>, c: Seq<char>)
    requires
        !text_less(b, a),
        !text_less(c, b),
    ensures
        !text_less(c, a),
    decreases a.len(),
{
    if a.len() > 0 && b.len() > 0 && c.len() > 0 && a[0] == b[0] && b[0] == c[0] {
        lemma_less_trans(a.drop_first(), b.drop_first(), c.drop_first());
    }
}

/// Sorts profiles by their names; nothing is lost and nothing comes twice.
pub fn list_profiles(found: Vec<AgentProfile>) -> (r: Vec<AgentProfile>)
    ensures
        by_name(r@),
        r@.to_multiset() == found@.to_multiset(),
{
    let ghost all = found@;
    let mut out: Vec<AgentProfile> = Vec::new();
    proof {
        broadcast use vstd::seq_lib::group_to_multiset_ensures;

        assert(all.take(0) =~= Seq::<AgentProfile>::empty());
        assert(out@ =~= all.take(0));
    }
    for p in it: found
        invariant
            it.seq() == all,
            by_name(out@),
            out@.to_multiset() == all.take(it.index() as int).to_multiset(),
    {
        let ghost before = out@;
        let mut i: usize = out.len();
        while i > 0 && str_less(p.name.as_str(), out[i - 1].name.as_str())
            invariant
                i <= out.len(),
                out@ == before,
                by_name(before),
                forall|k: int| i <= k < before.len() ==> text_less(p.name@, (#[trigger] before[k]).name@),
            decreases i,
        {
            i -= 1;
        }
        out.insert(i, p);
        proof {
            broadcast use vstd::seq_lib::group_to_multiset_ensures;

            let k = it.index() as int;
            assert(all.take(k + 1) =~= all.take(k).push(p));
            assert(out@ == before.insert(i as int, p));
            assert(out@.to_multiset() =~= before.to_multiset().insert(p));
            assert forall|a: int, b: int| 0 <= a < b < out@.len() implies !text_less(
                (#[trigger] out@[b]).name@,
                (#[trigger] out@[a]).name@,
            ) by {
                lemma_order_of(p.name@, before, i as int, a, b);
            }
        }
    }
    assert(all.take(all.len() as int) =~= all);
    out
}

/// Two places of a sorted list with a new profile at `i`.
proof fn lemma_order_of(name: Seq<char>, before: Seq<AgentProfile>, i: int, a: int, b: int)
    requires
        by_name(before),
        0 <= i <= before.len(),
        i > 0 ==> !text_less(name, before[i - 1].name@),
        forall|k: int| i <= k < before.len() ==> text_less(name, (#[trigger] before[k]).name@),
        0 <= a < b <= before.len(),
    ensures
        ({
            let at = |k: int|
                if k < i {
                    before[k].name@
                } else if k == i {
                    name
                } else {
                    before[k - 1].name@
                };
            !text_less(at(b), at(a))
        }),
{
    if a == i {
        crate::text::law_text_order(name, before[b - 1].name@);
    } else if b == i {
        if a < i - 1 {
            assert(!text_less(before[i - 1].name@, before[a].name@));
            lemma_less_trans(before[a].name@, before[i - 1].name@, name);
        }
    }
}

} // verus!
