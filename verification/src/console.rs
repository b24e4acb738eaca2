//! The console: names and files that a browser may ask for, and what it is
//! shown of sessions, groups, skills and agents.

use vstd::prelude::*;

use crate::agents::{is_valid_name, profile_json, profile_view, AgentProfile, MAIN};
use crate::config::{expand_tilde, expanded, model_text, opt_home, Config};
use crate::evolution::{EvolutionEvent, SkillUseStat};
use crate::groups::{event_ts, GroupConfig, GroupEvent};
use crate::json::{opt_str, views, Json, JsonView};
use crate::prompt::PromptSections;
use crate::skills::{describe, skill_description};
use crate::text::{
    ascii_alnum, ascii_lower_all, ascii_lowercase, chars_of, contains_string, contains_text, dec, dec_string,
    is_ascii_alnum, join_path, list_has, path_join, slice_of, split, split_string, starts_with, str_eq, str_less,
    strs, text_less,
};
use crate::types::{opt_view, Message, MessageView, Role, ToolCall, ToolCallView};

verus! {

/// The most bytes of an uploaded file.
pub const MAX_UPLOAD: usize = 10485760;

// ---------- names ----------

pub open spec fn file_char(c: char) -> bool {
    ascii_alnum(c) || c == '-' || c == '_' || c == '.'
}

/// The name of a skill or a session: letters, digits, `-`, `_` and `.`, and no
/// way up in the directories.
pub open spec fn is_file_name(name: Seq<char>) -> bool {
    &&& name.len() > 0
    &&& forall|i: int| 0 <= i < name.len() ==> file_char(#[trigger] name[i])
    &&& !contains_text(name, ".."@)
}

pub fn valid_name(name: &str) -> (r: bool)
    ensures
        r == is_file_name(name@),
{
    let v: Vec<char> = chars_of(name);
    if v.len() == 0 {
        return false;
    }
    let mut i: usize = 0;
    while i < v.len()
        invariant
            i <= v.len(),
            v@ == name@,
            forall|j: int| 0 <= j < i ==> file_char(#[trigger] name@[j]),
        decreases v.len() - i,
    {
        if !(is_ascii_alnum(v[i]) || v[i] == '-' || v[i] == '_' || v[i] == '.') {
            assert(!file_char(name@[i as int]));
            return false;
        }
        i += 1;
    }
    !contains_string(name, "..")
}

/// A valid name holds no slash and no backslash, so a path that ends with it
/// stays in its directory.
pub proof fn law_names_stay_in_place(name: Seq<char>)
    requires
        is_file_name(name),
    ensures
        !name.contains('/'),
        !name.contains('\\'),
        name != ".."@,
{
    if name.contains('/') {
        let i = name.index_of('/');
        assert(file_char(name[i]));
    }
    if name.contains('\\') {
        let i = name.index_of('\\');
        assert(file_char(name[i]));
    }
    if name == ".."@ {
        assert(name.subrange(0, name.len() as int) =~= name);
        assert(crate::text::occurs_at(name, ".."@, 0));
    }
}

// ---------- uploads ----------

/// The last part of a path that names something, from the parts before `n`.
pub open spec fn last_part(parts: Seq<Seq<char>>, n: int) -> Option<Seq<char>>
    decreases n,
{
    if n <= 0 || n > parts.len() {
        None
    } else if parts[n - 1].len() == 0 || parts[n - 1] == "."@ {
        last_part(parts, n - 1)
    } else if parts[n - 1] == ".."@ {
        None
    } else {
        Some(parts[n - 1])
    }
}

/// The file's name at the end of a path; none where the path ends with `..`.
pub open spec fn base_name(path: Seq<char>) -> Option<Seq<char>> {
    last_part(split(path, '/'), split(path, '/').len() as int)
}

pub fn file_name(path: &str) -> (r: Option<String>)
    ensures
        opt_view(r) == base_name(path@),
{
    let parts: Vec<String> = split_string(path, '/');
    let ghost all = split(path@, '/');
    let mut n: usize = parts.len();
    while n > 0
        invariant
            n <= parts.len(),
            all == strs(parts@),
            all == split(path@, '/'),
            base_name(path@) == last_part(all, n as int),
        decreases n,
    {
        assert(all[n - 1] == parts@[n - 1]@);
        let p: &str = parts[n - 1].as_str();
        if !p.is_empty() && !str_eq(p, ".") {
            if str_eq(p, "..") {
                return None;
            }
            return Some(p.to_string());
        }
        n -= 1;
    }
    None
}

/// The position of the last `c`, or -1.
pub open spec fn last_index(s: Seq<char>, c: char) -> int
    decreases s.len(),
{
    if s.len() == 0 {
        -1
    } else if s.last() == c {
        s.len() - 1
    } else {
        last_index(s.drop_last(), c)
    }
}

/// What follows the last dot of a file's name; a dot in front is none.
pub open spec fn extension(name: Seq<char>) -> Option<Seq<char>> {
    if last_index(name, '.') <= 0 {
        None
    } else {
        Some(name.skip(last_index(name, '.') + 1))
    }
}

fn file_extension(name: &str) -> (r: Option<String>)
    ensures
        opt_view(r) == extension(name@),
{
    let v: Vec<char> = chars_of(name);
    let mut n: usize = v.len();
    assert(v@.take(n as int) =~= v@);
    while n > 0 && v[n - 1] != '.'
        invariant
            n <= v.len(),
            last_index(v@, '.') == last_index(v@.take(n as int), '.'),
        decreases n,
    {
        assert(v@.take(n as int).drop_last() =~= v@.take(n - 1));
        assert(v@.take(n as int).last() == v@[n - 1]);
        n -= 1;
    }
    if n > 0 {
        assert(v@.take(n as int).last() == v@[n - 1]);
    }
    assert(last_index(v@, '.') == n - 1);
    if n <= 1 {
        None
    } else {
        let r: String = slice_of(v.as_slice(), n, v.len());
        assert(r@ =~= name@.skip(n as int));
        Some(r)
    }
}

/// The extensions of files that may be uploaded.
pub open spec fn upload_types() -> Seq<Seq<char>> {
    seq!["txt"@, "md"@, "rs"@, "py"@, "js"@, "ts"@, "json"@, "csv"@, "toml"@, "yaml"@, "yml"@, "log"@]
}

fn upload_type_list() -> (r: Vec<String>)
    ensures
        strs(r@) == upload_types(),
{
    let mut v: Vec<String> = Vec::new();
    v.push("txt".to_string());
    v.push("md".to_string());
    v.push("rs".to_string());
    v.push("py".to_string());
    v.push("js".to_string());
    v.push("ts".to_string());
    v.push("json".to_string());
    v.push("csv".to_string());
    v.push("toml".to_string());
    v.push("yaml".to_string());
    v.push("yml".to_string());
    v.push("log".to_string());
    assert(strs(v@) =~= upload_types());
    v
}

/// Whether a file may be uploaded: its extension, in any case, is a text's.
pub open spec fn may_upload(filename: Seq<char>) -> bool {
    match base_name(filename) {
        Some(n) => match extension(n) {
            Some(e) => upload_types().contains(ascii_lower_all(e)),
            None => false,
        },
        None => false,
    }
}

pub fn is_allowed_upload(filename: &str) -> (r: bool)
    ensures
        r == may_upload(filename@),
{
    match file_name(filename) {
        Some(n) => match file_extension(n.as_str()) {
            Some(e) => {
                let l: String = ascii_lowercase(e.as_str());
                let types: Vec<String> = upload_type_list();
                list_has(&types, l.as_str())
            },
            None => false,
        },
        None => false,
    }
}

/// The file's name of an upload, or nothing.
pub open spec fn upload_base(raw: Seq<char>) -> Seq<char> {
    match base_name(raw) {
        Some(n) => n,
        None => Seq::empty(),
    }
}

/// The name under which an upload comes: only the file's name counts, and its
/// type must be allowed.
pub fn upload_name(raw: &str) -> (r: Result<String, String>)
    ensures
        match r {
            Ok(n) => upload_base(raw@).len() > 0 && may_upload(upload_base(raw@)) && n@ == upload_base(raw@),
            Err(e) => !(upload_base(raw@).len() > 0 && may_upload(upload_base(raw@))) && e@ == "不允许的文件类型："@
                + upload_base(raw@),
        },
{
    let name: String = match file_name(raw) {
        Some(n) => n,
        None => String::new(),
    };
    assert(base_name(raw@) is None ==> name@ =~= Seq::empty());
    if name.as_str().is_empty() || !is_allowed_upload(name.as_str()) {
        let mut e: String = "不允许的文件类型：".to_string();
        e.append(name.as_str());
        return Err(e);
    }
    Ok(name)
}

/// Whether an upload is small enough.
pub fn check_upload_size(len: usize) -> (r: Result<(), String>)
    ensures
        match r {
            Ok(_) => len <= MAX_UPLOAD,
            Err(e) => len > MAX_UPLOAD && e@ == "文件超过 10MB 上限"@,
        },
{
    if len > MAX_UPLOAD {
        Err("文件超过 10MB 上限".to_string())
    } else {
        Ok(())
    }
}

/// Where an upload is kept under the working directory, at a time in
/// milliseconds.
pub fn upload_path(millis: u64, name: &str) -> (r: String)
    ensures
        r@ == "uploads/"@ + dec(millis as nat) + "_"@ + name@,
{
    let mut s: String = "uploads/".to_string();
    let d: String = dec_string(millis);
    s.append(d.as_str());
    s.append("_");
    s.append(name);
    s
}

// ---------- files behind the prompt ----------

/// The file of a layer of the system prompt.
pub open spec fn prompt_file(name: Seq<char>, home: Option<Seq<char>>, work_dir: Seq<char>) -> Option<Seq<char>> {
    if name == "soul"@ {
        Some(expanded("~/.r2/SOUL.md"@, home))
    } else if name == "agents"@ {
        Some(path_join(work_dir, "AGENTS.md"@))
    } else {
        None
    }
}

pub fn prompt_file_path(name: &str, home: Option<&str>, work_dir: &str) -> (r: Option<String>)
    ensures
        opt_view(r) == prompt_file(name@, opt_home(home), work_dir@),
{
    if str_eq(name, "soul") {
        Some(expand_tilde("~/.r2/SOUL.md", home))
    } else if str_eq(name, "agents") {
        Some(join_path(work_dir, "AGENTS.md"))
    } else {
        None
    }
}

/// The directories of skills.
pub fn skills_dirs(home: Option<&str>) -> (r: Vec<String>)
    ensures
        strs(r@) == seq![expanded("~/.r2/skills"@, opt_home(home))],
{
    let mut v: Vec<String> = Vec::new();
    v.push(expand_tilde("~/.r2/skills", home));
    assert(strs(v@) =~= seq![expanded("~/.r2/skills"@, opt_home(home))]);
    v
}

/// The directory of an agent's sessions: the main agent's own, or one under
/// the profile's directory.
pub open spec fn sessions_of(agent: Seq<char>, main_dir: Seq<char>, home: Seq<char>) -> Seq<char> {
    if agent == MAIN@ {
        main_dir
    } else {
        path_join(crate::agents::dir_of(home, agent), "sessions"@)
    }
}

pub fn session_dir_for(agent: &str, main_dir: &str, home: &str) -> (r: String)
    ensures
        r@ == sessions_of(agent@, main_dir@, home@),
{
    if str_eq(agent, MAIN) {
        main_dir.to_string()
    } else {
        let d: String = crate::agents::profile_dir(home, agent);
        join_path(d.as_str(), "sessions")
    }
}

// ---------- skills ----------

/// An entry of a directory of skills: its name, the content of its skill file
/// if it has one, and its path.
#[derive(Debug)]
pub struct SkillEntry {
    pub name: String,
    pub content: Option<String>,
    pub path: String,
}

/// Some entry before `n` has this name.
pub open spec fn entry_before(v: Seq<SkillEntry>, n: int, name: Seq<char>) -> bool {
    exists|i: int| 0 <= i < n && i < v.len() && (#[trigger] v[i]).name@ == name
}

/// A skill as it is listed: its name and its form.
pub type SkillRow = (Seq<char>, JsonView);

/// The rows in the order of their names.
pub open spec fn insert_row(v: Seq<SkillRow>, x: SkillRow) -> Seq<SkillRow>
    decreases v.len(),
{
    if v.len() == 0 || !text_less(x.0, v.last().0) {
        v.push(x)
    } else {
        insert_row(v.drop_last(), x).push(v.last())
    }
}

/// A skill's form.
pub open spec fn skill_form(e: SkillEntry) -> JsonView {
    JsonView::obj().with("name"@, JsonView::Str(e.name@)).with(
        "first_line"@,
        JsonView::Str(describe(e.content->0@)),
    ).with("path"@, JsonView::Str(e.path@))
}

/// The skills among the first `n` entries, by their names: of several entries
/// with one name the first counts.
pub open spec fn skill_rows(v: Seq<SkillEntry>, n: int) -> Seq<SkillRow>
    decreases n,
{
    if n <= 0 || n > v.len() {
        Seq::empty()
    } else {
        let before = skill_rows(v, n - 1);
        if v[n - 1].content is Some && !entry_before(v, n - 1, v[n - 1].name@) {
            insert_row(before, (v[n - 1].name@, skill_form(v[n - 1])))
        } else {
            before
        }
    }
}

/// The forms of the rows.
pub open spec fn row_forms(v: Seq<SkillRow>) -> Seq<JsonView> {
    Seq::new(v.len(), |i: int| v[i].1)
}

pub closed spec fn row_views(v: Seq<(String, Json)>) -> Seq<SkillRow> {
    Seq::new(v.len(), |i: int| (v[i].0@, v[i].1@))
}

fn put_row(rows: &mut Vec<(String, Json)>, name: String, form: Json)
    ensures
        row_views(final(rows)@) == insert_row(row_views(old(rows)@), (name@, form@)),
{
    let ghost all = row_views(rows@);
    let ghost x = (name@, form@);
    let n: usize = rows.len();
    let mut i: usize = n;
    assert(all.take(n as int) =~= all);
    assert(insert_row(all, x) + all.skip(n as int) =~= insert_row(all, x));
    while i > 0 && str_less(name.as_str(), rows[i - 1].0.as_str())
        invariant
            i <= n,
            n == rows.len(),
            all == row_views(rows@),
            x == (name@, form@),
            insert_row(all, x) == insert_row(all.take(i as int), x) + all.skip(i as int),
        decreases i,
    {
        proof {
            let now = all.take(i as int);
            assert(now.last() == all[i - 1]);
            assert(now.drop_last() =~= all.take(i - 1));
            assert(insert_row(all.take(i - 1), x).push(all[i - 1]) + all.skip(i as int) =~= insert_row(
                all.take(i - 1),
                x,
            ) + all.skip(i - 1));
        }
        i -= 1;
    }
    proof {
        assert(i > 0 ==> all.take(i as int).last() == all[i - 1]);
        assert(insert_row(all.take(i as int), x) =~= all.take(i as int).push(x));
    }
    rows.insert(i, (name, form));
    assert(row_views(rows@) =~= all.take(i as int).push(x) + all.skip(i as int));
}

/// Lists the skills for the console.
pub fn list_skills(entries: &Vec<SkillEntry>) -> (r: Vec<Json>)
    ensures
        views(r@) == row_forms(skill_rows(entries@, entries@.len() as int)),
{
    let mut rows: Vec<(String, Json)> = Vec::new();
    let mut seen: Vec<String> = Vec::new();
    let mut i: usize = 0;
    assert(row_views(rows@) =~= skill_rows(entries@, 0));
    while i < entries.len()
        invariant
            i <= entries.len(),
            row_views(rows@) == skill_rows(entries@, i as int),
            forall|x: Seq<char>| #[trigger] strs(seen@).contains(x) <==> entry_before(entries@, i as int, x),
        decreases entries.len() - i,
    {
        let name: &str = entries[i].name.as_str();
        let known: bool = list_has(&seen, name);
        if !known {
            if let Some(c) = &entries[i].content {
                let d: String = skill_description(c.as_str());
                let form: Json = Json::obj().with("name", Json::text(name)).with(
                    "first_line",
                    Json::text(d.as_str()),
                ).with("path", Json::text(entries[i].path.as_str()));
                put_row(&mut rows, name.to_string(), form);
            }
        }
        let ghost before = strs(seen@);
        seen.push(name.to_string());
        proof {
            assert(strs(seen@) =~= before.push(name@));
            assert forall|x: Seq<char>| #[trigger] strs(seen@).contains(x) <==> entry_before(
                entries@,
                i as int + 1,
                x,
            ) by {
                if entry_before(entries@, i as int + 1, x) {
                    let j = choose|j: int|
                        0 <= j < i + 1 && j < entries@.len() && (#[trigger] entries@[j]).name@ == x;
                    if j < i {
                        assert(entry_before(entries@, i as int, x));
                        assert(before.contains(x));
                        let k = before.index_of(x);
                        assert(strs(seen@)[k] == x);
                    } else {
                        assert(strs(seen@)[before.len() as int] == x);
                    }
                }
                if strs(seen@).contains(x) {
                    let k = strs(seen@).index_of(x);
                    if k < before.len() {
                        assert(before[k] == x);
                        assert(before.contains(x));
                    } else {
                        assert(entries@[i as int].name@ == x);
                    }
                }
            }
        }
        i += 1;
    }
    let ghost sorted = row_views(rows@);
    let ghost items = rows@;
    let mut out: Vec<Json> = Vec::new();
    for x in it: rows
        invariant
            it.seq() == items,
            out@.len() == it.index(),
            forall|k: int| 0 <= k < it.index() ==> (#[trigger] out@[k])@ == items[k].1@,
    {
        out.push(x.1);
    }
    assert(views(out@) =~= row_forms(sorted));
    out
}

// ---------- replies ----------

/// A reply: the status and what is told.
#[derive(Debug)]
pub struct HttpReply {
    pub status: u16,
    pub body: Json,
}

pub open spec fn error_body(message: Seq<char>) -> JsonView {
    JsonView::obj().with("error"@, JsonView::Str(message))
}

fn error_reply(status: u16, message: &str) -> (r: HttpReply)
    ensures
        r.status == status,
        r.body@ == error_body(message@),
{
    HttpReply { status, body: Json::obj().with("error", Json::text(message)) }
}

/// What is told of a layer's file: its content, where the layer is known.
pub fn prompt_file_reply(known: bool, content: Option<&str>) -> (r: HttpReply)
    ensures
        if !known {
            r.status == 400 && r.body@ == error_body("name 必须是 soul 或 agents"@)
        } else {
            r.status == 200 && r.body@ == JsonView::obj().with("exists"@, JsonView::Bool(content is Some)).with(
                "content"@,
                JsonView::Str(
                    match content {
                        Some(c) => c@,
                        None => Seq::empty(),
                    },
                ),
            )
        },
{
    if !known {
        return error_reply(400, "name 必须是 soul 或 agents");
    }
    let there: bool = content.is_some();
    let text: &str = match content {
        Some(c) => c,
        None => "",
    };
    proof {
        reveal_strlit("");
        assert(""@ =~= Seq::<char>::empty());
    }
    HttpReply { status: 200, body: Json::obj().with("exists", Json::Bool(there)).with("content", Json::text(text)) }
}

/// What is told of a skill: its content, where the name is valid and there is
/// one.
pub fn skill_preview(name: &str, content: Option<&str>) -> (r: HttpReply)
    ensures
        if !is_file_name(name@) {
            r.status == 400 && r.body@ == error_body("非法 skill 名"@)
        } else {
            match content {
                None => r.status == 404 && r.body@ == error_body("skill 不存在："@ + name@),
                Some(c) => r.status == 200 && r.body@ == JsonView::obj().with("name"@, JsonView::Str(name@)).with(
                    "content"@,
                    JsonView::Str(c@),
                ),
            }
        },
{
    if !valid_name(name) {
        return error_reply(400, "非法 skill 名");
    }
    match content {
        None => {
            let mut e: String = "skill 不存在：".to_string();
            e.append(name);
            error_reply(404, e.as_str())
        },
        Some(c) => HttpReply {
            status: 200,
            body: Json::obj().with("name", Json::text(name)).with("content", Json::text(c)),
        },
    }
}

/// The main agent as the console shows it.
pub open spec fn main_form() -> JsonView {
    JsonView::obj().with("name"@, JsonView::Str(MAIN@)).with("display_name"@, JsonView::Str("R2 主Agent"@)).with(
        "model"@,
        JsonView::Str(Seq::empty()),
    ).with("state"@, JsonView::Str("active"@)).with(
        "description"@,
        JsonView::Str("主 Agent（~/.r2 根，无分身目录）"@),
    ).with("created_ts"@, JsonView::Uint(0))
}

pub fn main_profile_json() -> (r: Json)
    ensures
        r@ == main_form(),
{
    proof {
        reveal_strlit("");
        assert(""@ =~= Seq::<char>::empty());
    }
    Json::obj().with("name", Json::text(MAIN)).with("display_name", Json::text("R2 主Agent")).with(
        "model",
        Json::text(""),
    ).with("state", Json::text("active")).with("description", Json::text("主 Agent（~/.r2 根，无分身目录）")).with(
        "created_ts",
        Json::Uint(0),
    )
}

/// What is told of an agent's files: its personality and its profile.
pub fn get_agent_files(name: &str, soul: &str, profile: Option<&AgentProfile>) -> (r: HttpReply)
    ensures
        if name@ == MAIN@ {
            r.status == 200 && r.body@ == JsonView::obj().with("soul"@, JsonView::Str(soul@)).with(
                "profile"@,
                main_form(),
            )
        } else {
            match profile {
                None => r.status == 400 && r.body@ == JsonView::Str("agent 不存在："@ + name@),
                Some(p) => r.status == 200 && r.body@ == JsonView::obj().with("soul"@, JsonView::Str(soul@)).with(
                    "profile"@,
                    profile_view(*p),
                ),
            }
        },
{
    if str_eq(name, MAIN) {
        return HttpReply {
            status: 200,
            body: Json::obj().with("soul", Json::text(soul)).with("profile", main_profile_json()),
        };
    }
    match profile {
        None => {
            let mut e: String = "agent 不存在：".to_string();
            e.append(name);
            HttpReply { status: 400, body: Json::text(e.as_str()) }
        },
        Some(p) => HttpReply {
            status: 200,
            body: Json::obj().with("soul", Json::text(soul)).with("profile", profile_json(p)),
        },
    }
}

/// What is to be done with an agent's new files.
#[derive(Debug)]
pub enum AgentFilesPlan {
    /// Nothing; the message is told with the status 400.
    Refuse(String),
    /// The main agent's personality is written, where one is given.
    Main { soul: Option<String> },
    /// The personality is written, where one is given, then the profile is
    /// changed.
    Profile { name: String, soul: Option<String> },
}

/// The string fields of a request.
pub open spec fn given(body: JsonView, key: Seq<char>) -> Option<Seq<char>> {
    body.get_str(key)
}

fn given_string(body: &Json, key: &str) -> (r: Option<String>)
    ensures
        opt_view(r) == given(body@, key@),
{
    match body.get_str(key) {
        Some(s) => Some(s.to_string()),
        None => None,
    }
}

/// The agent's name in a request; empty where none is given.
pub open spec fn asked_name(body: JsonView) -> Seq<char> {
    match given(body, "name"@) {
        Some(n) => n,
        None => Seq::empty(),
    }
}

/// Plans the writing of an agent's files; `dir_exists` tells whether the
/// profile has a directory.
pub fn plan_agent_files(body: &Json, dir_exists: bool) -> (r: AgentFilesPlan)
    ensures
        ({
            let name = asked_name(body@);
            match r {
                AgentFilesPlan::Refuse(e) => {
                    ||| name.len() == 0 && e@ == "缺少字符串字段 name"@
                    ||| name.len() > 0 && name != MAIN@ && !is_valid_name(name) && e@ == "非法档案名："@ + name
                    ||| name != MAIN@ && is_valid_name(name) && !dir_exists && e@ == "agent 目录不存在："@ + name
                },
                AgentFilesPlan::Main { soul } => name.len() > 0 && name == MAIN@ && opt_view(soul) == given(
                    body@,
                    "soul"@,
                ),
                AgentFilesPlan::Profile { name: n, soul } => name != MAIN@ && is_valid_name(name) && dir_exists && n@
                    == name && opt_view(soul) == given(body@, "soul"@),
            }
        }),
{
    let name: String = match body.get_str("name") {
        Some(n) => n.to_string(),
        None => String::new(),
    };
    assert(given(body@, "name"@) is None ==> name@ =~= Seq::empty());
    if name.as_str().is_empty() {
        return AgentFilesPlan::Refuse("缺少字符串字段 name".to_string());
    }
    let soul: Option<String> = given_string(body, "soul");
    if str_eq(name.as_str(), MAIN) {
        return AgentFilesPlan::Main { soul };
    }
    if !crate::agents::valid_name(name.as_str()) {
        let mut e: String = "非法档案名：".to_string();
        e.append(name.as_str());
        return AgentFilesPlan::Refuse(e);
    }
    if !dir_exists {
        let mut e: String = "agent 目录不存在：".to_string();
        e.append(name.as_str());
        return AgentFilesPlan::Refuse(e);
    }
    AgentFilesPlan::Profile { name, soul }
}

/// The given text, or the old one.
pub open spec fn given_or(body: JsonView, key: Seq<char>, before: Seq<char>) -> Seq<char> {
    match given(body, key) {
        Some(s) => s,
        None => before,
    }
}

/// Changes the fields of a profile that a request gives. The state stays as it
/// is: only an approval makes a profile active.
pub fn edit_profile(p: AgentProfile, body: &Json) -> (r: AgentProfile)
    ensures
        r.display_name@ == given_or(body@, "display_name"@, p.display_name@),
        r.description@ == given_or(body@, "description"@, p.description@),
        r.model@ == given_or(body@, "model"@, p.model@),
        r == (AgentProfile { display_name: r.display_name, description: r.description, model: r.model, ..p }),
{
    let mut q = p;
    if let Some(s) = given_string(body, "display_name") {
        q.display_name = s;
    }
    if let Some(s) = given_string(body, "description") {
        q.description = s;
    }
    if let Some(s) = given_string(body, "model") {
        q.model = s;
    }
    q
}

// ---------- sessions ----------

/// What is known of a session without its messages.
#[derive(Debug)]
pub struct SessionSummary {
    pub id: String,
    pub message_count: usize,
    pub first_user_preview: String,
    pub last_ts: u64,
    pub branch_from: Option<String>,
    pub branch_upto: Option<usize>,
}

/// A session as the console lists it.
pub open spec fn summary_form(s: SessionSummary) -> JsonView {
    JsonView::obj().with("id"@, JsonView::Str(s.id@)).with("message_count"@, JsonView::Uint(s.message_count as u64)).with(
        "preview"@,
        JsonView::Str(s.first_user_preview@),
    ).with("last_ts"@, JsonView::Uint(s.last_ts)).with("branch_from"@, opt_str(opt_view(s.branch_from))).with(
        "branch_upto"@,
        match s.branch_upto {
            Some(n) => JsonView::Uint(n as u64),
            None => JsonView::Null,
        },
    )
}

pub fn summary_json(s: &SessionSummary) -> (r: Json)
    ensures
        r@ == summary_form(*s),
{
    let upto: Json = match s.branch_upto {
        Some(n) => Json::Uint(n as u64),
        None => Json::Null,
    };
    Json::obj().with("id", Json::text(s.id.as_str())).with("message_count", Json::Uint(s.message_count as u64)).with(
        "preview",
        Json::text(s.first_user_preview.as_str()),
    ).with("last_ts", Json::Uint(s.last_ts)).with("branch_from", Json::text_or_null(&s.branch_from)).with(
        "branch_upto",
        upto,
    )
}

/// When a group was last used: the time of the last event of its stream, or of
/// its making where there is none.
pub open spec fn group_used(g: GroupConfig, stream: Seq<GroupEvent>) -> u64 {
    if stream.len() > 0 {
        event_ts(stream.last()@)
    } else {
        g.created_ts
    }
}

/// A group as the console lists it.
pub open spec fn group_form(name: Seq<char>, g: GroupConfig, stream: Seq<GroupEvent>) -> JsonView {
    JsonView::obj().with("id"@, JsonView::Str(name)).with("title"@, JsonView::Str(g.title@)).with(
        "kind"@,
        JsonView::Str("group"@),
    ).with("members_count"@, JsonView::Uint(g.members@.len() as u64)).with("state"@, JsonView::Str(g.state@)).with(
        "round"@,
        JsonView::Uint(g.round as u64),
    ).with("used_tokens"@, JsonView::Uint(g.used_tokens)).with("preview"@, JsonView::Str(g.title@)).with(
        "last_ts"@,
        JsonView::Uint(group_used(g, stream)),
    )
}

fn group_entry(name: &str, g: &GroupConfig, stream: &Vec<GroupEvent>) -> (r: Json)
    ensures
        r@ == group_form(name@, *g, stream@),
{
    let used: u64 = if stream.len() > 0 {
        stream[stream.len() - 1].ts()
    } else {
        g.created_ts
    };
    Json::obj().with("id", Json::text(name)).with("title", Json::text(g.title.as_str())).with(
        "kind",
        Json::text("group"),
    ).with("members_count", Json::Uint(g.members.len() as u64)).with("state", Json::text(g.state.as_str())).with(
        "round",
        Json::Uint(g.round as u64),
    ).with("used_tokens", Json::Uint(g.used_tokens)).with("preview", Json::text(g.title.as_str())).with(
        "last_ts",
        Json::Uint(used),
    )
}

/// A directory among the sessions, the record of a group in it, if it can be
/// read, and the group's stream of events.
#[derive(Debug)]
pub struct GroupFound {
    pub name: String,
    pub group: Option<GroupConfig>,
    pub stream: Vec<GroupEvent>,
}

/// The groups among the directories: those named `group-` with a record.
pub open spec fn group_forms(v: Seq<GroupFound>) -> Seq<JsonView>
    decreases v.len(),
{
    if v.len() == 0 {
        Seq::empty()
    } else {
        let before = group_forms(v.drop_last());
        if crate::text::occurs_at(v.last().name@, "group-"@, 0) && v.last().group is Some {
            before.push(group_form(v.last().name@, v.last().group->0, v.last().stream@))
        } else {
            before
        }
    }
}

/// Lists the groups among the directories.
pub fn group_entries(found: &Vec<GroupFound>) -> (r: Vec<Json>)
    ensures
        views(r@) == group_forms(found@),
{
    let ghost all = found@;
    let mut out: Vec<Json> = Vec::new();
    let mut i: usize = 0;
    assert(views(out@) =~= group_forms(all.take(0)));
    while i < found.len()
        invariant
            i <= found.len(),
            all == found@,
            views(out@) == group_forms(all.take(i as int)),
        decreases found.len() - i,
    {
        let ghost before = views(out@);
        assert(all.take(i as int + 1).drop_last() =~= all.take(i as int));
        assert(all.take(i as int + 1).last() == found@[i as int]);
        if starts_with(found[i].name.as_str(), "group-") {
            if let Some(g) = &found[i].group {
                let j: Json = group_entry(found[i].name.as_str(), g, &found[i].stream);
                let ghost jv = j@;
                out.push(j);
                assert(views(out@) =~= before.push(jv));
            }
        }
        i += 1;
    }
    assert(all.take(i as int) =~= all);
    out
}

/// When an entry was last used.
pub open spec fn last_ts(v: JsonView) -> u64 {
    match v.get_u64("last_ts"@) {
        Some(n) => n,
        None => 0,
    }
}

/// The entries with one more, the latest first; equally late ones in the order
/// they came.
pub open spec fn insert_latest(v: Seq<JsonView>, x: JsonView) -> Seq<JsonView>
    decreases v.len(),
{
    if v.len() == 0 || last_ts(v.last()) >= last_ts(x) {
        v.push(x)
    } else {
        insert_latest(v.drop_last(), x).push(v.last())
    }
}

/// The entries, the latest first.
pub open spec fn latest_first(v: Seq<JsonView>) -> Seq<JsonView>
    decreases v.len(),
{
    if v.len() == 0 {
        Seq::empty()
    } else {
        insert_latest(latest_first(v.drop_last()), v.last())
    }
}

fn put_latest(out: &mut Vec<Json>, x: Json)
    ensures
        views(final(out)@) == insert_latest(views(old(out)@), x@),
{
    let ghost all = views(out@);
    let n: usize = out.len();
    let mut i: usize = n;
    let at: u64 = match x.get_u64("last_ts") {
        Some(t) => t,
        None => 0,
    };
    assert(all.take(n as int) =~= all);
    assert(insert_latest(all, x@) + all.skip(n as int) =~= insert_latest(all, x@));
    let mut go: bool = true;
    while i > 0 && go
        invariant
            i <= n,
            n == out.len(),
            at == last_ts(x@),
            all == views(out@),
            insert_latest(all, x@) == insert_latest(all.take(i as int), x@) + all.skip(i as int),
            !go ==> i > 0 && last_ts(all[i - 1]) >= at,
        decreases
                i,
                if go {
                    1int
                } else {
                    0int
                },
    {
        assert(all[i - 1] == out@[i - 1]@);
        let other: u64 = match out[i - 1].get_u64("last_ts") {
            Some(t) => t,
            None => 0,
        };
        if other < at {
            proof {
                let now = all.take(i as int);
                assert(now.last() == all[i - 1]);
                assert(now.drop_last() =~= all.take(i - 1));
                assert(insert_latest(all.take(i - 1), x@).push(all[i - 1]) + all.skip(i as int) =~= insert_latest(
                    all.take(i - 1),
                    x@,
                ) + all.skip(i - 1));
            }
            i -= 1;
        } else {
            go = false;
        }
    }
    proof {
        assert(i > 0 ==> all.take(i as int).last() == all[i - 1]);
    }
    let ghost xv = x@;
    out.insert(i, x);
    assert(views(out@) =~= all.take(i as int).push(xv) + all.skip(i as int));
}

/// The sessions' forms.
pub open spec fn summary_forms(v: Seq<SessionSummary>) -> Seq<JsonView> {
    Seq::new(v.len(), |i: int| summary_form(v[i]))
}

/// Lists sessions and groups together, the latest first.
pub fn sessions_with_groups(sessions: &Vec<SessionSummary>, found: &Vec<GroupFound>) -> (r: Vec<Json>)
    ensures
        views(r@) == latest_first(summary_forms(sessions@) + group_forms(found@)),
{
    let ghost all = summary_forms(sessions@) + group_forms(found@);
    let mut list: Vec<Json> = Vec::new();
    let mut i: usize = 0;
    while i < sessions.len()
        invariant
            i <= sessions.len(),
            list@.len() == i,
            forall|k: int| 0 <= k < i ==> (#[trigger] list@[k])@ == summary_form(sessions@[k]),
        decreases sessions.len() - i,
    {
        list.push(summary_json(&sessions[i]));
        i += 1;
    }
    assert(views(list@) =~= summary_forms(sessions@));
    let mut groups: Vec<Json> = group_entries(found);
    let ghost gs = groups@;
    let ghost ls = list@;
    list.append(&mut groups);
    assert(list@ =~= ls + gs);
    assert(views(list@) =~= all);
    let ghost items = list@;
    let mut out: Vec<Json> = Vec::new();
    assert(views(out@) =~= latest_first(all.take(0)));
    for x in it: list
        invariant
            it.seq() == items,
            all == views(items),
            views(out@) == latest_first(all.take(it.index() as int)),
    {
        proof {
            let k = it.index() as int;
            assert(all.take(k + 1).drop_last() =~= all.take(k));
            assert(all.take(k + 1).last() == x@);
        }
        put_latest(&mut out, x);
    }
    assert(all.take(items.len() as int) =~= all);
    out
}

/// Entries of which none was used later than one before it.
pub open spec fn by_time(v: Seq<JsonView>) -> bool {
    forall|i: int, j: int| 0 <= i < j < v.len() ==> last_ts(#[trigger] v[i]) >= last_ts(#[trigger] v[j])
}

proof fn lemma_insert_latest(v: Seq<JsonView>, x: JsonView)
    requires
        by_time(v),
    ensures
        by_time(insert_latest(v, x)),
        insert_latest(v, x).to_multiset() =~= v.to_multiset().insert(x),
        forall|i: int|
            0 <= i < insert_latest(v, x).len() ==> (#[trigger] insert_latest(v, x)[i]) == x || v.contains(
                insert_latest(v, x)[i],
            ),
    decreases v.len(),
{
    let r = insert_latest(v, x);
    v.to_multiset_ensures();
    if v.len() == 0 || last_ts(v.last()) >= last_ts(x) {
        assert forall|i: int| 0 <= i < r.len() implies (#[trigger] r[i]) == x || v.contains(r[i]) by {
            if i < v.len() {
                assert(v[i] == r[i]);
            }
        }
    } else {
        let p = v.drop_last();
        lemma_insert_latest(p, x);
        let q = insert_latest(p, x);
        q.to_multiset_ensures();
        p.to_multiset_ensures();
        assert(p.push(v.last()) =~= v);
        assert forall|i: int| 0 <= i < r.len() implies (#[trigger] r[i]) == x || v.contains(r[i]) by {
            if i < q.len() {
                assert(r[i] == q[i]);
                if q[i] != x {
                    let k = p.index_of(q[i]);
                    assert(v[k] == q[i]);
                }
            } else {
                assert(v[v.len() - 1] == r[i]);
            }
        }
        assert forall|i: int, j: int| 0 <= i < j < r.len() implies last_ts(#[trigger] r[i]) >= last_ts(
            #[trigger] r[j],
        ) by {
            if j == r.len() - 1 {
                assert(r[i] == q[i]);
                if q[i] != x {
                    let k = p.index_of(q[i]);
                    assert(v[k] == q[i]);
                }
            }
        }
    }
}

/// The list is in the order of time, the latest first, and nothing is lost.
pub proof fn law_latest_first(v: Seq<JsonView>)
    ensures
        by_time(latest_first(v)),
        latest_first(v).to_multiset() =~= v.to_multiset(),
    decreases v.len(),
{
    if v.len() > 0 {
        let p = v.drop_last();
        law_latest_first(p);
        lemma_insert_latest(latest_first(p), v.last());
        p.to_multiset_ensures();
        assert(p.push(v.last()) =~= v);
    } else {
        assert(latest_first(v) =~= v);
    }
}

/// A tool call in a history.
pub open spec fn call_form(c: ToolCallView) -> JsonView {
    JsonView::obj().with("id"@, JsonView::Str(c.id)).with("name"@, JsonView::Str(c.name)).with(
        "arguments"@,
        JsonView::Str(c.arguments),
    )
}

pub open spec fn call_forms(v: Seq<ToolCallView>) -> JsonView {
    JsonView::Arr(Seq::new(v.len(), |i: int| call_form(v[i])))
}

/// A message in a history; instructions to the model are not shown.
pub open spec fn history_item(m: MessageView) -> Option<JsonView> {
    match m.role {
        Role::System => None,
        Role::User => Some(
            JsonView::obj().with("kind"@, JsonView::Str("user"@)).with("text"@, JsonView::Str(m.content)),
        ),
        Role::Assistant => Some(
            JsonView::obj().with("kind"@, JsonView::Str("assistant"@)).with("text"@, JsonView::Str(m.content)).with(
                "tool_calls"@,
                match m.tool_calls {
                    Some(c) => call_forms(c),
                    None => JsonView::arr(),
                },
            ),
        ),
        Role::Tool => Some(
            JsonView::obj().with("kind"@, JsonView::Str("tool_result"@)).with(
                "call_id"@,
                JsonView::Str(
                    match m.tool_call_id {
                        Some(id) => id,
                        None => Seq::empty(),
                    },
                ),
            ).with("text"@, JsonView::Str(m.content)),
        ),
    }
}

/// The items of a history.
pub open spec fn history_items(v: Seq<MessageView>) -> Seq<JsonView>
    decreases v.len(),
{
    if v.len() == 0 {
        Seq::empty()
    } else {
        let before = history_items(v.drop_last());
        match history_item(v.last()) {
            Some(j) => before.push(j),
            None => before,
        }
    }
}

fn calls_json(v: &Vec<ToolCall>) -> (r: Json)
    ensures
        r@ == call_forms(crate::types::call_views(v@)),
{
    let mut out: Vec<Json> = Vec::new();
    let mut i: usize = 0;
    while i < v.len()
        invariant
            i <= v.len(),
            out@.len() == i,
            forall|k: int| 0 <= k < i ==> (#[trigger] out@[k])@ == call_form(v@[k]@),
        decreases v.len() - i,
    {
        let c: &ToolCall = &v[i];
        out.push(
            Json::obj().with("id", Json::text(c.id.as_str())).with("name", Json::text(c.name.as_str())).with(
                "arguments",
                Json::text(c.arguments.as_str()),
            ),
        );
        i += 1;
    }
    assert(views(out@) =~= call_forms(crate::types::call_views(v@))->Arr_0);
    Json::list(out)
}

fn item_json(m: &Message) -> (r: Option<Json>)
    ensures
        match r {
            Some(j) => history_item(m@) == Some(j@),
            None => history_item(m@) is None,
        },
{
    match m.role {
        Role::System => None,
        Role::User => Some(
            Json::obj().with("kind", Json::text("user")).with("text", Json::text(m.content.as_str())),
        ),
        Role::Assistant => {
            let calls: Json = match &m.tool_calls {
                Some(c) => calls_json(c),
                None => Json::arr(),
            };
            Some(
                Json::obj().with("kind", Json::text("assistant")).with("text", Json::text(m.content.as_str())).with(
                    "tool_calls",
                    calls,
                ),
            )
        },
        Role::Tool => {
            proof {
                reveal_strlit("");
                assert(""@ =~= Seq::<char>::empty());
            }
            let id: &str = match &m.tool_call_id {
                Some(s) => s.as_str(),
                None => "",
            };
            Some(
                Json::obj().with("kind", Json::text("tool_result")).with("call_id", Json::text(id)).with(
                    "text",
                    Json::text(m.content.as_str()),
                ),
            )
        },
    }
}

/// A session's messages, for the browser to show them again.
pub fn session_history_json(messages: &Vec<Message>) -> (r: Json)
    ensures
        r@ == JsonView::obj().with(
            "messages"@,
            JsonView::Arr(history_items(crate::types::msg_views(messages@))),
        ),
{
    let ghost all = crate::types::msg_views(messages@);
    let mut out: Vec<Json> = Vec::new();
    let mut i: usize = 0;
    assert(views(out@) =~= history_items(all.take(0)));
    while i < messages.len()
        invariant
            i <= messages.len(),
            all == crate::types::msg_views(messages@),
            views(out@) == history_items(all.take(i as int)),
        decreases messages.len() - i,
    {
        let ghost before = views(out@);
        assert(all.take(i as int + 1).drop_last() =~= all.take(i as int));
        assert(all.take(i as int + 1).last() == messages@[i as int]@);
        if let Some(j) = item_json(&messages[i]) {
            let ghost jv = j@;
            out.push(j);
            assert(views(out@) =~= before.push(jv));
        }
        i += 1;
    }
    assert(all.take(i as int) =~= all);
    Json::obj().with("messages", Json::list(out))
}

// ---------- requests on sessions and agents ----------

/// Whether a session may be opened by its name.
pub fn check_switch(id: &str) -> (r: Result<(), String>)
    ensures
        match r {
            Ok(_) => is_file_name(id@),
            Err(e) => !is_file_name(id@) && e@ == "非法会话 id"@,
        },
{
    if valid_name(id) {
        Ok(())
    } else {
        Err("非法会话 id".to_string())
    }
}

/// Whether a session may be forked by its name.
pub fn check_fork(parent: &str) -> (r: Result<(), String>)
    ensures
        match r {
            Ok(_) => is_file_name(parent@),
            Err(e) => !is_file_name(parent@) && e@ == "非法父会话 id"@,
        },
{
    if valid_name(parent) {
        Ok(())
    } else {
        Err("非法父会话 id".to_string())
    }
}

/// Whether a session may be deleted: never while a prompt runs, and never the
/// one in use. Gives its file's name.
pub fn check_delete(id: &str, running: bool, current: Option<&str>) -> (r: Result<String, String>)
    ensures
        ({
            let in_use = current is Some && current->0@ == id@;
            match r {
                Ok(f) => is_file_name(id@) && !running && !in_use && f@ == id@ + ".jsonl"@,
                Err(e) => if !is_file_name(id@) {
                    e@ == "非法会话 id"@
                } else if running {
                    e@ == "prompt 运行中，稍后再删"@
                } else {
                    in_use && e@ == "当前会话使用中，禁止删除"@
                },
            }
        }),
{
    if !valid_name(id) {
        return Err("非法会话 id".to_string());
    }
    if running {
        return Err("prompt 运行中，稍后再删".to_string());
    }
    if let Some(c) = current {
        if str_eq(c, id) {
            return Err("当前会话使用中，禁止删除".to_string());
        }
    }
    let mut f: String = id.to_string();
    f.append(".jsonl");
    Ok(f)
}

/// Whether the console may switch to an agent: to the main one always, to a
/// profile only where it is active; and never while a prompt runs.
pub fn check_agent_switch(name: &str, profile: Option<&AgentProfile>, running: bool) -> (r: Result<(), String>)
    ensures
        ({
            let allowed = name@ == MAIN@ || (profile is Some && profile->0.state@ == "active"@);
            match r {
                Ok(_) => allowed && !running,
                Err(e) => if allowed {
                    running && e@ == "prompt 运行中，稍后再切换 agent"@
                } else {
                    match profile {
                        Some(p) => e@ == "agent "@ + p.name@ + " 当前状态 "@ + p.state@ + "，不可切换"@,
                        None => e@ == "agent 不存在："@ + name@,
                    }
                },
            }
        }),
{
    if !str_eq(name, MAIN) {
        match profile {
            Some(p) => {
                if !str_eq(p.state.as_str(), "active") {
                    let mut e: String = "agent ".to_string();
                    e.append(p.name.as_str());
                    e.append(" 当前状态 ");
                    e.append(p.state.as_str());
                    e.append("，不可切换");
                    return Err(e);
                }
            },
            None => {
                let mut e: String = "agent 不存在：".to_string();
                e.append(name);
                return Err(e);
            },
        }
    }
    if running {
        return Err("prompt 运行中，稍后再切换 agent".to_string());
    }
    Ok(())
}

/// The prompts of the console: one runs, and at most one waits.
#[derive(Debug)]
pub struct PromptQueue {
    pending: Option<String>,
}

impl View for PromptQueue {
    type V = Option<Seq<char>>;

    closed spec fn view(&self) -> Option<Seq<char>> {
        opt_view(self.pending)
    }
}

impl PromptQueue {
    pub fn new() -> (r: PromptQueue)
        ensures
            r@ is None,
    {
        PromptQueue { pending: None }
    }

    /// Takes a prompt: it runs now, or it waits in place of one that waited.
    pub fn take(&mut self, input: String, running: bool) -> (r: Option<String>)
        ensures
            if running {
                r is None && final(self)@ == Some(input@)
            } else {
                r == Some(input) && final(self)@ == old(self)@
            },
    {
        if running {
            self.pending = Some(input);
            None
        } else {
            Some(input)
        }
    }

    /// After a prompt: the one that waited, if any.
    pub fn next(&mut self) -> (r: Option<String>)
        ensures
            opt_view(r) == old(self)@,
            final(self)@ is None,
    {
        let r: Option<String> = match &self.pending {
            Some(s) => Some(s.clone()),
            None => None,
        };
        self.pending = None;
        r
    }
}

// ---------- the whole state ----------

/// What the console shows besides the configuration.
#[derive(Debug)]
pub struct StateParts {
    pub agents: Vec<AgentProfile>,
    pub current_agent: String,
    pub channels: Vec<Json>,
    pub tasks: Json,
    pub history: Json,
    pub current_session: Option<String>,
    pub sessions: Vec<Json>,
    pub tools: Vec<Json>,
    pub sections: PromptSections,
    pub running: bool,
}

/// A model to choose.
pub open spec fn model_forms(v: Seq<crate::config::ModelProfile>) -> Seq<JsonView> {
    Seq::new(
        v.len(),
        |i: int| JsonView::obj().with("name"@, JsonView::Str(v[i].name@)).with("model"@, JsonView::Str(v[i].model@)),
    )
}

fn model_list(v: &Vec<crate::config::ModelProfile>) -> (r: Json)
    ensures
        r@ == JsonView::Arr(model_forms(v@)),
{
    let mut out: Vec<Json> = Vec::new();
    let mut i: usize = 0;
    while i < v.len()
        invariant
            i <= v.len(),
            out@.len() == i,
            forall|k: int| 0 <= k < i ==> (#[trigger] out@[k])@ == model_forms(v@)[k],
        decreases v.len() - i,
    {
        out.push(
            Json::obj().with("name", Json::text(v[i].name.as_str())).with("model", Json::text(v[i].model.as_str())),
        );
        i += 1;
    }
    assert(views(out@) =~= model_forms(v@));
    Json::list(out)
}

pub open spec fn profile_forms(v: Seq<AgentProfile>) -> Seq<JsonView> {
    Seq::new(v.len(), |i: int| profile_view(v[i]))
}

fn profile_list(v: &Vec<AgentProfile>) -> (r: Json)
    ensures
        r@ == JsonView::Arr(profile_forms(v@)),
{
    let mut out: Vec<Json> = Vec::new();
    let mut i: usize = 0;
    while i < v.len()
        invariant
            i <= v.len(),
            out@.len() == i,
            forall|k: int| 0 <= k < i ==> (#[trigger] out@[k])@ == profile_view(v@[k]),
        decreases v.len() - i,
    {
        out.push(profile_json(&v[i]));
        i += 1;
    }
    assert(views(out@) =~= profile_forms(v@));
    Json::list(out)
}

/// The sandbox as the console shows it.
pub open spec fn sandbox_form(c: Config) -> JsonView {
    JsonView::obj().with("level"@, JsonView::Str(c.sandbox.level@)).with(
        "bash_timeout_secs"@,
        JsonView::Uint(c.sandbox.bash_timeout_secs),
    ).with("max_processes"@, JsonView::Uint(c.sandbox.max_processes as u64)).with(
        "max_memory_mb"@,
        JsonView::Uint(c.sandbox.max_memory_mb as u64),
    ).with("cpu_time_secs"@, JsonView::Uint(c.sandbox.cpu_time_secs as u64)).with(
        "max_file_size_mb"@,
        JsonView::Uint(c.sandbox.max_file_size_mb as u64),
    ).with("cgroup_memory_mb"@, JsonView::Uint(c.sandbox.cgroup_memory_mb as u64))
}

/// The layers of the prompt as the console shows them.
pub open spec fn sections_form(s: PromptSections) -> JsonView {
    JsonView::obj().with("core"@, JsonView::Str(s.core@)).with("soul"@, opt_str(opt_view(s.soul))).with(
        "agents"@,
        opt_str(opt_view(s.agents)),
    ).with("skills"@, opt_str(opt_view(s.skills))).with("custom"@, opt_str(opt_view(s.custom)))
}

/// The whole state as the console shows it. No key of a model is in it.
pub open spec fn state_form(c: Config, p: StateParts) -> JsonView {
    JsonView::obj().with("model"@, JsonView::Str(model_text(c.model))).with(
        "model_profiles"@,
        JsonView::Arr(model_forms(c.model.profiles@)),
    ).with("active_profile"@, JsonView::Str(c.model.active_profile@)).with(
        "agents"@,
        JsonView::Arr(profile_forms(p.agents@)),
    ).with("current_agent"@, JsonView::Str(p.current_agent@)).with(
        "channels"@,
        JsonView::Arr(views(p.channels@)),
    ).with("tasks"@, p.tasks@).with("history"@, p.history@).with(
        "current_session"@,
        opt_str(opt_view(p.current_session)),
    ).with("sessions"@, JsonView::Arr(views(p.sessions@))).with("tools"@, JsonView::Arr(views(p.tools@))).with(
        "sandbox"@,
        sandbox_form(c),
    ).with("prompt_sections"@, sections_form(p.sections)).with("running"@, JsonView::Bool(p.running))
}

/// The whole state.
pub fn state_json(c: &Config, p: StateParts) -> (r: Json)
    ensures
        r@ == state_form(*c, p),
{
    let sandbox: Json = Json::obj().with("level", Json::text(c.sandbox.level.as_str())).with(
        "bash_timeout_secs",
        Json::Uint(c.sandbox.bash_timeout_secs),
    ).with("max_processes", Json::Uint(c.sandbox.max_processes as u64)).with(
        "max_memory_mb",
        Json::Uint(c.sandbox.max_memory_mb as u64),
    ).with("cpu_time_secs", Json::Uint(c.sandbox.cpu_time_secs as u64)).with(
        "max_file_size_mb",
        Json::Uint(c.sandbox.max_file_size_mb as u64),
    ).with("cgroup_memory_mb", Json::Uint(c.sandbox.cgroup_memory_mb as u64));
    let sections: Json = Json::obj().with("core", Json::text(p.sections.core.as_str())).with(
        "soul",
        Json::text_or_null(&p.sections.soul),
    ).with("agents", Json::text_or_null(&p.sections.agents)).with(
        "skills",
        Json::text_or_null(&p.sections.skills),
    ).with("custom", Json::text_or_null(&p.sections.custom));
    Json::obj().with("model", Json::text(c.current_model())).with("model_profiles", model_list(&c.model.profiles)).with(
        "active_profile",
        Json::text(c.model.active_profile.as_str()),
    ).with("agents", profile_list(&p.agents)).with("current_agent", Json::text(p.current_agent.as_str())).with(
        "channels",
        Json::list(p.channels),
    ).with("tasks", p.tasks).with("history", p.history).with(
        "current_session",
        Json::text_or_null(&p.current_session),
    ).with("sessions", Json::list(p.sessions)).with("tools", Json::list(p.tools)).with("sandbox", sandbox).with(
        "prompt_sections",
        sections,
    ).with("running", Json::Bool(p.running))
}

/// A tool as the console shows it.
pub fn tool_json(name: &str, description: &str) -> (r: Json)
    ensures
        r@ == JsonView::obj().with("name"@, JsonView::Str(name@)).with("desc"@, JsonView::Str(description@)).with(
            "mcp"@,
            JsonView::Bool(crate::text::occurs_at(name@, "mcp_"@, 0)),
        ),
{
    Json::obj().with("name", Json::text(name)).with("desc", Json::text(description)).with(
        "mcp",
        Json::Bool(starts_with(name, "mcp_")),
    )
}

// ---------- growth ----------

/// The share of a skill's successful uses in percent, where it was used.
pub fn success_rate(u: &SkillUseStat) -> (r: Option<u64>)
    requires
        u.count > 0 ==> u.success + u.fail > 0,
    ensures
        r == rate_of(*u),
{
    if u.count > 0 {
        let n: u128 = u.success as u128 * 100;
        let d: u128 = u.success as u128 + u.fail as u128;
        proof {
            assert(n / d <= 100) by (nonlinear_arith)
                requires
                    n == u.success * 100,
                    d == u.success + u.fail,
                    d > 0,
                    u.fail >= 0,
                    u.success >= 0,
            ;
        }
        Some((n / d) as u64)
    } else {
        None
    }
}

/// The share of a skill's successful uses in percent, where it was used.
pub open spec fn rate_of(u: SkillUseStat) -> Option<u64> {
    if u.count > 0 {
        Some(((u.success * 100) / (u.success + u.fail)) as u64)
    } else {
        None
    }
}

/// A skill's badge: on trial, promoted, or written by hand.
pub open spec fn badge(status: Option<Seq<char>>) -> Seq<char> {
    if status == Some("trial"@) {
        "trial"@
    } else if status == Some("promoted"@) {
        "promoted"@
    } else {
        "native"@
    }
}

/// A skill in the view of growth.
pub open spec fn growth_skill(name: Seq<char>, status: Option<Seq<char>>, u: Option<SkillUseStat>) -> JsonView {
    let base = JsonView::obj().with("name"@, JsonView::Str(name)).with("status"@, JsonView::Str(badge(status)));
    match u {
        Some(x) => base.with("used"@, JsonView::Uint(x.count)).with(
            "success_rate"@,
            match rate_of(x) {
                Some(n) => JsonView::Uint(n),
                None => JsonView::Null,
            },
        ),
        None => base,
    }
}

pub fn growth_skill_json(name: &str, status: Option<&str>, u: Option<SkillUseStat>) -> (r: Json)
    requires
        u is Some && u->0.count > 0 ==> u->0.success + u->0.fail > 0,
    ensures
        r@ == growth_skill(
            name@,
            match status {
                Some(s) => Some(s@),
                None => None,
            },
            u,
        ),
{
    let b: &str = match status {
        Some(s) => if str_eq(s, "trial") {
            "trial"
        } else if str_eq(s, "promoted") {
            "promoted"
        } else {
            "native"
        },
        None => "native",
    };
    let base: Json = Json::obj().with("name", Json::text(name)).with("status", Json::text(b));
    match u {
        Some(x) => {
            let rate: Json = match success_rate(&x) {
                Some(n) => Json::Uint(n),
                None => Json::Null,
            };
            base.with("used", Json::Uint(x.count)).with("success_rate", rate)
        },
        None => base,
    }
}

/// An event in the view of growth.
pub open spec fn growth_event(e: EvolutionEvent) -> JsonView {
    JsonView::obj().with("ts"@, JsonView::Uint(e.ts)).with("kind"@, JsonView::Str(e.kind@)).with(
        "content"@,
        JsonView::Str(e.content@),
    ).with("evidence"@, JsonView::Str(e.evidence@)).with("session_id"@, JsonView::Str(e.session_id@))
}

pub open spec fn growth_events(v: Seq<EvolutionEvent>) -> Seq<JsonView> {
    Seq::new(v.len(), |i: int| growth_event(v[i]))
}

/// The lessons not before a time.
pub open spec fn lessons_since(v: Seq<EvolutionEvent>, since: u64) -> nat
    decreases v.len(),
{
    if v.len() == 0 {
        0
    } else {
        lessons_since(v.drop_last(), since) + (if v.last().kind@ == "lesson"@ && v.last().ts >= since {
            1nat
        } else {
            0
        })
    }
}

/// Seven days before a time, or the beginning.
pub open spec fn week_before(now: u64) -> u64 {
    if now >= 604800 {
        (now - 604800) as u64
    } else {
        0
    }
}

/// Skills that fell out of use.
pub open spec fn decayed_forms(v: Seq<(String, u64)>) -> Seq<JsonView> {
    Seq::new(
        v.len(),
        |i: int| JsonView::obj().with("name"@, JsonView::Str(v[i].0@)).with("last_used"@, JsonView::Uint(v[i].1)),
    )
}

/// The view of growth: the goal, the skills, the events and the lessons of the
/// last seven days.
pub fn api_growth(
    goal: &Option<String>,
    skills: Vec<Json>,
    events: &Vec<EvolutionEvent>,
    decayed: &Vec<(String, u64)>,
    tasks: Json,
    now: u64,
) -> (r: Json)
    ensures
        r@ == JsonView::obj().with("goal"@, opt_str(opt_view(*goal))).with("skills"@, JsonView::Arr(views(skills@))).with(
            "skills_count"@,
            JsonView::Uint(skills@.len() as u64),
        ).with("events"@, JsonView::Arr(growth_events(events@))).with(
            "lessons_7d"@,
            JsonView::Uint(lessons_since(events@, week_before(now)) as u64),
        ).with("total_events"@, JsonView::Uint(events@.len() as u64)).with(
            "decayed"@,
            JsonView::Arr(decayed_forms(decayed@)),
        ).with("tasks"@, tasks@),
{
    let since: u64 = if now >= 604800 {
        now - 604800
    } else {
        0
    };
    let mut list: Vec<Json> = Vec::new();
    let mut lessons: u64 = 0;
    let mut i: usize = 0;
    while i < events.len()
        invariant
            i <= events.len(),
            since == week_before(now),
            list@.len() == i,
            lessons <= i,
            lessons == lessons_since(events@.take(i as int), since),
            forall|k: int| 0 <= k < i ==> (#[trigger] list@[k])@ == growth_event(events@[k]),
        decreases events.len() - i,
    {
        assert(events@.take(i as int + 1).drop_last() =~= events@.take(i as int));
        let e: &EvolutionEvent = &events[i];
        list.push(
            Json::obj().with("ts", Json::Uint(e.ts)).with("kind", Json::text(e.kind.as_str())).with(
                "content",
                Json::text(e.content.as_str()),
            ).with("evidence", Json::text(e.evidence.as_str())).with(
                "session_id",
                Json::text(e.session_id.as_str()),
            ),
        );
        if str_eq(e.kind.as_str(), "lesson") && e.ts >= since {
            lessons += 1;
        }
        i += 1;
    }
    assert(events@.take(i as int) =~= events@);
    assert(views(list@) =~= growth_events(events@));
    let mut old: Vec<Json> = Vec::new();
    let mut k: usize = 0;
    while k < decayed.len()
        invariant
            k <= decayed.len(),
            old@.len() == k,
            forall|j: int| 0 <= j < k ==> (#[trigger] old@[j])@ == decayed_forms(decayed@)[j],
        decreases decayed.len() - k,
    {
        old.push(
            Json::obj().with("name", Json::text(decayed[k].0.as_str())).with("last_used", Json::Uint(decayed[k].1)),
        );
        k += 1;
    }
    assert(views(old@) =~= decayed_forms(decayed@));
    let count: u64 = skills.len() as u64;
    let total: u64 = events.len() as u64;
    Json::obj().with("goal", Json::text_or_null(goal)).with("skills", Json::list(skills)).with(
        "skills_count",
        Json::Uint(count),
    ).with("events", Json::list(list)).with("lessons_7d", Json::Uint(lessons)).with(
        "total_events",
        Json::Uint(total),
    ).with("decayed", Json::list(old)).with("tasks", tasks)
}

} // verus!
