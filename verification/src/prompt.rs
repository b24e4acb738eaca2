//! The system prompt: the fixed core, the installed skills, and the layers of
//! personality and project, or a custom text in their place.

use vstd::prelude::*;
use vstd::utf8::encode_scalar;

use crate::config::Config;
use crate::skills::{describe, skill_frontmatter_desc};
use crate::text::{
    after_prefix, byte_len, chars_of, head, join, join_strings, list_has, slice_of, str_eq, str_less, strip_prefix,
    strs, text_less, trim, trim_string, utf8_len,
};
use crate::types::opt_view;

verus! {

/// Who the agent is.
pub const SYSTEM_PROMPT: &'static str = "你是 R2，一个极简但可靠的 Rust Agent。";

/// How tools are used.
pub const TOOL_USAGE_RULES: &'static str = "工具使用规范：\n- 文件路径优先用相对 work_dir 的相对路径；不越出 work_dir 读写，除非用户明确要求。\n- bash 命令有超时限制（默认 30 秒），长任务请拆分执行。\n- 工具输出可能被截断，关键信息缺失时用更精确的范围重读。\n- 执行有副作用的命令前，先向用户说明影响。\n- 失败的输出也是信息：按错误提示调整策略，不要盲目重试。";

/// What the agent knows of its own growth.
pub const GROWTH_RULES: &'static str = "你有自我成长机制，用户口头表达时请主动使用：\n· 目标代笔：用户说出目标/身份/期望（如「我希望你成为…」）时，把原话忠实写入 ~/.r2/GOAL.md\n（用 bash 写入），写入前先向用户复述确认。未经用户明确表达，绝不创建或修改目标。\n· 学习沉淀：完成有意义的学习（方法论/框架/流程/领域知识）后，主动蒸馏成技能文件\n写入 ~/.r2/skills/<名字>/SKILL.md（frontmatter 含 name 和 description），\n下次会话自动生效——学习不沉淀等于白学。\n· 你的目标与技能会出现在成长档案里，持续积累成为你的一部分。";

/// What stands before the list of skills.
pub const SKILLS_INTRO: &'static str = "以下技能已安装（共享目录 ~/.r2/skills）。任务匹配时主动使用：\n先 bash 执行 cat ~/.r2/skills/<名字>/SKILL.md 阅读完整流程，再遵循执行。\n安装新技能：写到 ~/.r2/skills/<名字>/SKILL.md（frontmatter 带 name/description）。\n";

/// The most bytes of one layer.
pub const MAX_LAYER_BYTES: usize = 65536;

/// What stands at the end of a layer that was cut.
pub const CUT_NOTE: &'static str = "\n…（文件超过 64KB，已截断）";

/// The layers of a prompt.
#[derive(Debug)]
pub struct PromptSections {
    pub core: String,
    pub soul: Option<String>,
    pub agents: Option<String>,
    pub custom: Option<String>,
    pub skills: Option<String>,
}

/// A path with a leading `~` replaced.
pub open spec fn home_path(path: Seq<char>, home: Seq<char>) -> Seq<char> {
    match after_prefix(path, "~/"@) {
        Some(rest) => home + "/"@ + rest,
        None => if path == "~"@ {
            home
        } else {
            path
        },
    }
}

/// Replaces a leading `~` by the given home directory.
pub fn expand_with_home(path: &str, home: &str) -> (r: String)
    ensures
        r@ == home_path(path@, home@),
{
    match strip_prefix(path, "~/") {
        Some(rest) => {
            let mut s: String = home.to_string();
            s.append("/");
            s.append(rest.as_str());
            s
        },
        None => if str_eq(path, "~") {
            home.to_string()
        } else {
            path.to_string()
        },
    }
}

// ---------- layers ----------

/// The bytes of a character.
pub open spec fn char_bytes(c: char) -> nat {
    encode_scalar(c as u32).len()
}

/// As many characters from the front as fit into `n` bytes.
pub open spec fn fit(s: Seq<char>, n: nat) -> Seq<char>
    decreases s.len(),
{
    if s.len() == 0 || char_bytes(s[0]) > n {
        Seq::empty()
    } else {
        seq![s[0]] + fit(s.drop_first(), (n - char_bytes(s[0])) as nat)
    }
}

fn width_of(c: char) -> (r: usize)
    ensures
        r == char_bytes(c),
        1 <= r <= 4,
{
    let u: u32 = c as u32;
    if u < 0x80 {
        1
    } else if u < 0x800 {
        2
    } else if u < 0x10000 {
        3
    } else {
        4
    }
}

fn fit_string(s: &str, n: usize) -> (r: String)
    ensures
        r@ == fit(s@, n as nat),
{
    let v: Vec<char> = chars_of(s);
    let mut left: usize = n;
    let mut i: usize = 0;
    proof {
        assert(s@.skip(0) =~= s@);
        assert(s@.take(0) + fit(s@, n as nat) =~= fit(s@, n as nat));
    }
    while i < v.len() && width_of(v[i]) <= left
        invariant
            i <= v.len(),
            v@ == s@,
            fit(s@, n as nat) == s@.take(i as int) + fit(s@.skip(i as int), left as nat),
        decreases v.len() - i,
    {
        proof {
            let rest = s@.skip(i as int);
            assert(rest.drop_first() =~= s@.skip(i as int + 1));
            assert(s@.take(i as int + 1) + fit(s@.skip(i as int + 1), (left - char_bytes(rest[0])) as nat)
                =~= s@.take(i as int) + (seq![rest[0]] + fit(
                s@.skip(i as int + 1),
                (left - char_bytes(rest[0])) as nat,
            )));
        }
        left = left - width_of(v[i]);
        i += 1;
    }
    proof {
        assert(fit(s@.skip(i as int), left as nat) =~= Seq::<char>::empty());
        assert(s@.take(i as int) + Seq::<char>::empty() =~= s@.subrange(0, i as int));
    }
    slice_of(v.as_slice(), 0, i)
}

/// A prefix that fits is no longer than the limit, and it is a prefix.
pub proof fn law_layer_fits(s: Seq<char>, n: nat)
    ensures
        utf8_len(fit(s, n)) <= n,
        fit(s, n).len() <= s.len(),
        fit(s, n) == s.take(fit(s, n).len() as int),
    decreases s.len(),
{
    let f = fit(s, n);
    if s.len() == 0 || char_bytes(s[0]) > n {
        assert(f =~= s.take(0));
    } else {
        let rest = fit(s.drop_first(), (n - char_bytes(s[0])) as nat);
        law_layer_fits(s.drop_first(), (n - char_bytes(s[0])) as nat);
        assert(f.drop_first() =~= rest);
        assert(f =~= s.take(f.len() as int));
    }
}

/// The text of a layer: nothing where the file is blank, and cut where it is
/// too long.
pub open spec fn layer_of(content: Option<Seq<char>>) -> Option<Seq<char>> {
    match content {
        Some(c) => if trim(c).len() == 0 {
            None
        } else if utf8_len(c) > MAX_LAYER_BYTES {
            Some(fit(c, MAX_LAYER_BYTES as nat) + CUT_NOTE@)
        } else {
            Some(c)
        },
        None => None,
    }
}

/// Takes a layer out of a file's content.
pub fn read_layer(content: Option<&str>) -> (r: Option<String>)
    ensures
        opt_view(r) == layer_of(
            match content {
                Some(c) => Some(c@),
                None => None,
            },
        ),
{
    match content {
        Some(c) => {
            let t: String = trim_string(c);
            if t.as_str().is_empty() {
                return None;
            }
            if byte_len(c) > MAX_LAYER_BYTES {
                let mut s: String = fit_string(c, MAX_LAYER_BYTES);
                s.append(CUT_NOTE);
                return Some(s);
            }
            Some(c.to_string())
        },
        None => None,
    }
}

// ---------- skills ----------

/// A skill's name and description.
pub type SkillItem = (Seq<char>, Seq<char>);

/// A directory entry: its name, and the content of its skill file if it has
/// one.
pub type SkillFile = (Seq<char>, Option<Seq<char>>);

pub open spec fn entry_views(v: Seq<(String, Option<String>)>) -> Seq<SkillFile> {
    Seq::new(v.len(), |i: int| (v[i].0@, opt_view(v[i].1)))
}

/// Some entry before `n` has this name.
pub open spec fn named_before(v: Seq<SkillFile>, n: int, name: Seq<char>) -> bool {
    exists|i: int| 0 <= i < n && i < v.len() && (#[trigger] v[i]).0 == name
}

/// The items in the order of their names.
pub open spec fn insert_item(v: Seq<SkillItem>, x: SkillItem) -> Seq<SkillItem>
    decreases v.len(),
{
    if v.len() == 0 || !text_less(x.0, v.last().0) {
        v.push(x)
    } else {
        insert_item(v.drop_last(), x).push(v.last())
    }
}

/// The skills among the first `n` entries, by their names: of several entries
/// with one name the first counts.
pub open spec fn skill_items(v: Seq<SkillFile>, n: int) -> Seq<SkillItem>
    decreases n,
{
    if n <= 0 || n > v.len() {
        Seq::empty()
    } else {
        let before = skill_items(v, n - 1);
        match v[n - 1].1 {
            Some(content) => if named_before(v, n - 1, v[n - 1].0) {
                before
            } else {
                insert_item(before, (v[n - 1].0, head(describe(content), 120)))
            },
            None => before,
        }
    }
}

/// One line per skill.
pub open spec fn skill_lines(v: Seq<SkillItem>) -> Seq<Seq<char>> {
    Seq::new(v.len(), |i: int| "- "@ + v[i].0 + "："@ + v[i].1)
}

/// The layer of the installed skills.
pub open spec fn skills_layer(entries: Seq<SkillFile>) -> Option<Seq<char>> {
    let items = skill_items(entries, entries.len() as int);
    if items.len() == 0 {
        None
    } else {
        Some(SKILLS_INTRO@ + join(skill_lines(items), "\n"@))
    }
}

spec fn item_views(v: Seq<(String, String)>) -> Seq<SkillItem> {
    Seq::new(v.len(), |i: int| (v[i].0@, v[i].1@))
}

fn insert_sorted(items: &mut Vec<(String, String)>, name: String, desc: String)
    ensures
        item_views(final(items)@) == insert_item(item_views(old(items)@), (name@, desc@)),
{
    let ghost all = item_views(items@);
    let ghost x = (name@, desc@);
    let n: usize = items.len();
    let mut i: usize = n;
    assert(all.take(n as int) =~= all);
    assert(insert_item(all, x) + all.skip(n as int) =~= insert_item(all, x));
    while i > 0 && str_less(name.as_str(), items[i - 1].0.as_str())
        invariant
            i <= n,
            n == items.len(),
            all == item_views(items@),
            x == (name@, desc@),
            insert_item(all, x) == insert_item(all.take(i as int), x) + all.skip(i as int),
        decreases i,
    {
        proof {
            let now = all.take(i as int);
            assert(now.last() == all[i - 1]);
            assert(now.drop_last() =~= all.take(i - 1));
            assert(insert_item(all.take(i - 1), x).push(all[i - 1]) + all.skip(i as int) =~= insert_item(
                all.take(i - 1),
                x,
            ) + all.skip(i - 1));
        }
        i -= 1;
    }
    proof {
        assert(i > 0 ==> all.take(i as int).last() == all[i - 1]);
        assert(insert_item(all.take(i as int), x) =~= all.take(i as int).push(x));
    }
    items.insert(i, (name, desc));
    assert(item_views(items@) =~= all.take(i as int).push(x) + all.skip(i as int));
}

/// Lists the installed skills for the prompt. The entries come in the order of
/// precedence: a private skill before a shared one of the same name.
pub fn scan_skills_layer(entries: &Vec<(String, Option<String>)>) -> (r: Option<String>)
    ensures
        opt_view(r) == skills_layer(entry_views(entries@)),
{
    let ghost all = entry_views(entries@);
    let mut items: Vec<(String, String)> = Vec::new();
    let mut seen: Vec<String> = Vec::new();
    let mut i: usize = 0;
    assert(item_views(items@) =~= skill_items(all, 0));
    while i < entries.len()
        invariant
            i <= entries.len(),
            all == entry_views(entries@),
            item_views(items@) == skill_items(all, i as int),
            forall|x: Seq<char>| #[trigger] strs(seen@).contains(x) <==> named_before(all, i as int, x),
        decreases entries.len() - i,
    {
        let ghost before = strs(seen@);
        let ghost name = entries@[i as int].0@;
        assert(all[i as int].0 == name);
        let fresh: bool = !list_has(&seen, entries[i].0.as_str());
        if fresh {
            if let Some(content) = &entries[i].1 {
                let desc: String = skill_frontmatter_desc(content.as_str());
                insert_sorted(&mut items, entries[i].0.clone(), desc);
            }
        }
        seen.push(entries[i].0.clone());
        proof {
            let now = strs(seen@);
            assert(now =~= before.push(name));
            assert forall|x: Seq<char>| #[trigger] now.contains(x) <==> named_before(all, i as int + 1, x) by {
                if now.contains(x) {
                    let j = now.index_of(x);
                    if j < before.len() {
                        assert(before[j] == x);
                        assert(before.contains(x));
                        let k = choose|k: int| 0 <= k < i && k < all.len() && (#[trigger] all[k]).0 == x;
                        assert(all[k].0 == x);
                    } else {
                        assert(all[i as int].0 == x);
                    }
                }
                if named_before(all, i as int + 1, x) {
                    let k = choose|k: int| 0 <= k < i + 1 && k < all.len() && (#[trigger] all[k]).0 == x;
                    if k < i {
                        assert(named_before(all, i as int, x));
                        assert(before.contains(x));
                        let j = before.index_of(x);
                        assert(now[j] == x);
                    } else {
                        assert(now[before.len() as int] == x);
                    }
                }
            }
        }
        i += 1;
    }
    if items.len() == 0 {
        return None;
    }
    let ghost want = skill_lines(item_views(items@));
    let mut ls: Vec<String> = Vec::new();
    let mut k: usize = 0;
    while k < items.len()
        invariant
            k <= items.len(),
            want == skill_lines(item_views(items@)),
            ls.len() == k,
            forall|j: int| 0 <= j < k ==> (#[trigger] ls@[j])@ == want[j],
        decreases items.len() - k,
    {
        let mut l: String = "- ".to_string();
        l.append(items[k].0.as_str());
        l.append("：");
        l.append(items[k].1.as_str());
        ls.push(l);
        k += 1;
    }
    assert(strs(ls@) =~= want);
    let mut out: String = SKILLS_INTRO.to_string();
    let list: String = join_strings(&ls, "\n");
    out.append(list.as_str());
    Some(out)
}

// ---------- the prompt ----------

/// The part that is always there.
pub open spec fn core_text() -> Seq<char> {
    SYSTEM_PROMPT@ + "\n\n"@ + TOOL_USAGE_RULES@
}

/// A layer with its title, or nothing.
pub open spec fn titled(title: Seq<char>, layer: Option<Seq<char>>) -> Seq<char> {
    match layer {
        Some(t) => "\n\n"@ + title + "\n"@ + t,
        None => Seq::empty(),
    }
}

/// The personality with its title: an agent profile's own, or else the global
/// one.
pub open spec fn soul_part(own: Option<Seq<char>>, global: Option<Seq<char>>) -> Seq<char> {
    match own {
        Some(t) => titled("[SOUL.md 分身人格]"@, own),
        None => titled("[SOUL.md 全局人格]"@, global),
    }
}

/// The personality: an agent profile's own, or else the global one.
pub open spec fn soul_text(own: Option<Seq<char>>, global: Option<Seq<char>>) -> Option<Seq<char>> {
    match own {
        Some(t) => Some(t),
        None => global,
    }
}

/// The personality of an agent profile out of its file; without a profile there
/// is none.
pub open spec fn own_soul(config: Config, file: Option<Seq<char>>) -> Option<Seq<char>> {
    match config.agent.persona_dir {
        Some(_) => layer_of(file),
        None => None,
    }
}

/// The whole prompt. A custom text takes the place of personality and project.
pub open spec fn prompt_text(
    custom: Seq<char>,
    skills: Option<Seq<char>>,
    own: Option<Seq<char>>,
    global: Option<Seq<char>>,
    agents: Option<Seq<char>>,
) -> Seq<char> {
    let front = core_text() + titled("[已安装技能]"@, skills) + "\n\n[成长系统]\n"@ + GROWTH_RULES@;
    if trim(custom).len() > 0 {
        front + "\n\n[自定义配置]\n"@ + trim(custom)
    } else {
        front + soul_part(own, global) + titled("[AGENTS.md 项目上下文]"@, agents)
    }
}

/// The path of an agent profile's own personality.
pub fn own_soul_path(config: &Config, home: &str) -> (r: Option<String>)
    ensures
        opt_view(r) == (match config.agent.persona_dir {
            Some(p) => Some(home_path(p@, home@) + "/SOUL.md"@),
            None => None,
        }),
{
    match &config.agent.persona_dir {
        Some(p) => {
            let mut s: String = expand_with_home(p.as_str(), home);
            s.append("/SOUL.md");
            Some(s)
        },
        None => None,
    }
}

/// The path of the global personality.
pub fn soul_path(home: &str) -> (r: String)
    ensures
        r@ == home_path("~/.r2/SOUL.md"@, home@),
{
    expand_with_home("~/.r2/SOUL.md", home)
}

/// The path of the project's file.
pub fn agents_path(config: &Config, home: &str) -> (r: String)
    ensures
        r@ == home_path(config.agent.work_dir@, home@) + "/AGENTS.md"@,
{
    let mut s: String = expand_with_home(config.agent.work_dir.as_str(), home);
    s.append("/AGENTS.md");
    s
}

/// The directories of skills, in the order of precedence.
pub fn skill_dirs(config: &Config, home: &str) -> (r: Vec<String>)
    ensures
        strs(r@) == (match config.agent.persona_dir {
            Some(p) => seq![home_path(p@, home@) + "/skills"@, home@ + "/.r2/skills"@],
            None => seq![home@ + "/.r2/skills"@],
        }),
{
    let mut out: Vec<String> = Vec::new();
    if let Some(p) = &config.agent.persona_dir {
        let mut s: String = expand_with_home(p.as_str(), home);
        s.append("/skills");
        out.push(s);
    }
    let mut t: String = home.to_string();
    t.append("/.r2/skills");
    out.push(t);
    assert(strs(out@) =~= (match config.agent.persona_dir {
        Some(p) => seq![home_path(p@, home@) + "/skills"@, home@ + "/.r2/skills"@],
        None => seq![home@ + "/.r2/skills"@],
    }));
    out
}

fn append_titled(full: &mut String, title: &str, layer: &Option<String>)
    ensures
        final(full)@ == old(full)@ + titled(title@, opt_view(*layer)),
{
    let ghost start = full@;
    if let Some(t) = layer {
        full.append("\n\n");
        full.append(title);
        full.append("\n");
        full.append(t.as_str());
    }
    assert(full@ =~= start + titled(title@, opt_view(*layer)));
}

pub open spec fn opt_text(s: Option<&str>) -> Option<Seq<char>> {
    match s {
        Some(x) => Some(x@),
        None => None,
    }
}

/// Puts the system prompt together out of the configuration and the files that
/// were read: the skill entries, the agent profile's own and the global
/// personality, and the project. A profile without a personality of its own has
/// the global one.
pub fn build_system_prompt_with_home(
    config: &Config,
    entries: &Vec<(String, Option<String>)>,
    own_file: Option<&str>,
    soul_file: Option<&str>,
    agents_file: Option<&str>,
) -> (r: (String, PromptSections))
    ensures
        r.0@ == prompt_text(
            config.agent.system_prompt@,
            skills_layer(entry_views(entries@)),
            own_soul(*config, opt_text(own_file)),
            layer_of(opt_text(soul_file)),
            layer_of(opt_text(agents_file)),
        ),
        r.1.core@ == core_text(),
        opt_view(r.1.skills) == skills_layer(entry_views(entries@)),
        trim(config.agent.system_prompt@).len() > 0 ==> opt_view(r.1.custom) == Some(
            trim(config.agent.system_prompt@),
        ) && r.1.soul is None && r.1.agents is None,
        trim(config.agent.system_prompt@).len() == 0 ==> r.1.custom is None && opt_view(r.1.soul)
            == soul_text(own_soul(*config, opt_text(own_file)), layer_of(opt_text(soul_file))) && opt_view(
            r.1.agents,
        ) == layer_of(opt_text(agents_file)),
{
    let mut core: String = SYSTEM_PROMPT.to_string();
    core.append("\n\n");
    core.append(TOOL_USAGE_RULES);
    let skills: Option<String> = scan_skills_layer(entries);
    let mut full: String = core.clone();
    append_titled(&mut full, "[已安装技能]", &skills);
    full.append("\n\n[成长系统]\n");
    full.append(GROWTH_RULES);
    let custom: String = trim_string(config.agent.system_prompt.as_str());
    if !custom.as_str().is_empty() {
        full.append("\n\n[自定义配置]\n");
        full.append(custom.as_str());
        return (full, PromptSections { core, soul: None, agents: None, custom: Some(custom), skills });
    }
    let own: Option<String> = if config.agent.persona_dir.is_some() {
        read_layer(own_file)
    } else {
        None
    };
    let agents: Option<String> = read_layer(agents_file);
    let soul: Option<String> = if own.is_some() {
        append_titled(&mut full, "[SOUL.md 分身人格]", &own);
        own
    } else {
        let global: Option<String> = read_layer(soul_file);
        append_titled(&mut full, "[SOUL.md 全局人格]", &global);
        global
    };
    append_titled(&mut full, "[AGENTS.md 项目上下文]", &agents);
    (full, PromptSections { core, soul, agents, custom: None, skills })
}

/// The core is the beginning of every prompt.
pub proof fn law_core_comes_first(
    custom: Seq<char>,
    skills: Option<Seq<char>>,
    own: Option<Seq<char>>,
    global: Option<Seq<char>>,
    agents: Option<Seq<char>>,
)
    ensures
        core_text().is_prefix_of(prompt_text(custom, skills, own, global, agents)),
{
    let p = prompt_text(custom, skills, own, global, agents);
    assert(p.subrange(0, core_text().len() as int) =~= core_text());
}

/// Two items with different names may be put in in any order.
proof fn lemma_insert_both(v: Seq<SkillItem>, a: SkillItem, b: SkillItem)
    requires
        a.0 != b.0,
    ensures
        insert_item(insert_item(v, a), b) == insert_item(insert_item(v, b), a),
    decreases v.len(),
{
    crate::text::law_text_order(a.0, b.0);
    let va = insert_item(v, a);
    let vb = insert_item(v, b);
    if v.len() == 0 {
        assert(va.drop_last() =~= v);
        assert(vb.drop_last() =~= v);
        assert(insert_item(v, a) =~= v.push(a));
        assert(insert_item(v, b) =~= v.push(b));
        assert(insert_item(va, b) =~= insert_item(vb, a));
    } else {
        let l = v.last();
        let t = v.drop_last();
        lemma_insert_both(t, a, b);
        crate::text::law_text_order(a.0, l.0);
        crate::text::law_text_order(b.0, l.0);
        assert(t.push(l) =~= v);
        if !text_less(a.0, l.0) && !text_less(b.0, l.0) {
            assert(va =~= v.push(a));
            assert(vb =~= v.push(b));
            assert(va.drop_last() =~= v);
            assert(vb.drop_last() =~= v);
            assert(insert_item(va, b) =~= insert_item(vb, a));
        } else if text_less(a.0, l.0) && text_less(b.0, l.0) {
            assert(va.drop_last() =~= insert_item(t, a));
            assert(vb.drop_last() =~= insert_item(t, b));
        } else if text_less(a.0, l.0) {
            // a goes before the last one, b behind it.
            assert(va.drop_last() =~= insert_item(t, a));
            assert(va.last() == l);
            assert(vb =~= v.push(b));
            assert(vb.drop_last() =~= v);
            crate::text::lemma_not_less_trans(a.0, l.0, b.0);
            assert(insert_item(va, b) =~= va.push(b));
            assert(text_less(a.0, b.0));
            assert(insert_item(vb, a) =~= va.push(b));
        } else {
            assert(vb.drop_last() =~= insert_item(t, b));
            assert(vb.last() == l);
            assert(va =~= v.push(a));
            assert(va.drop_last() =~= v);
            crate::text::lemma_not_less_trans(b.0, l.0, a.0);
            assert(insert_item(vb, a) =~= vb.push(a));
            assert(text_less(b.0, a.0));
            assert(insert_item(va, b) =~= vb.push(a));
        }
    }
}

/// No two entries have one name, as in a directory.
pub open spec fn names_differ(v: Seq<SkillFile>) -> bool {
    forall|i: int, j: int| 0 <= i < j < v.len() ==> (#[trigger] v[i]).0 != (#[trigger] v[j]).0
}

spec fn names_of(v: Seq<SkillFile>) -> Set<Seq<char>> {
    Set::new(|n: Seq<char>| named_before(v, v.len() as int, n))
}

/// The items with one more entry, unless its name is taken or it has no file.
spec fn taken_in(taken: Set<Seq<char>>, items: Seq<SkillItem>, e: SkillFile) -> Seq<SkillItem> {
    match e.1 {
        Some(content) => if taken.contains(e.0) {
            items
        } else {
            insert_item(items, (e.0, head(describe(content), 120)))
        },
        None => items,
    }
}

spec fn all_taken_in(taken: Set<Seq<char>>, base: Seq<SkillItem>, v: Seq<SkillFile>) -> Seq<SkillItem>
    decreases v.len(),
{
    if v.len() == 0 {
        base
    } else {
        taken_in(taken, all_taken_in(taken, base, v.drop_last()), v.last())
    }
}

/// The items of one directory's entries that follow those of another.
proof fn lemma_items_of(p: Seq<SkillFile>, v: Seq<SkillFile>, n: int)
    requires
        names_differ(v),
        0 <= n <= v.len(),
    ensures
        skill_items(p + v, p.len() + n) == all_taken_in(
            names_of(p),
            skill_items(p + v, p.len() as int),
            v.take(n),
        ),
    decreases n,
{
    if n > 0 {
        let all = p + v;
        let at = p.len() + n;
        lemma_items_of(p, v, n - 1);
        assert(v.take(n).drop_last() =~= v.take(n - 1));
        assert(v.take(n).last() == v[n - 1]);
        assert(all[at - 1] == v[n - 1]);
        let name = v[n - 1].0;
        if named_before(all, at - 1, name) {
            let i = choose|i: int| 0 <= i < at - 1 && i < all.len() && (#[trigger] all[i]).0 == name;
            if i >= p.len() {
                assert(all[i] == v[i - p.len()]);
                assert(v[i - p.len()].0 != v[n - 1].0);
            } else {
                assert(all[i] == p[i]);
            }
            assert(named_before(p, p.len() as int, name));
        }
        if named_before(p, p.len() as int, name) {
            let i = choose|i: int| 0 <= i < p.len() && i < p.len() && (#[trigger] p[i]).0 == name;
            assert(all[i] == p[i]);
            assert(named_before(all, at - 1, name));
        }
    } else {
        assert(v.take(0) =~= Seq::<SkillFile>::empty());
    }
}

/// The first entries of a list alone decide on their items.
proof fn lemma_items_of_first(p: Seq<SkillFile>, v: Seq<SkillFile>, n: int)
    requires
        0 <= n <= p.len(),
    ensures
        skill_items(p + v, n) == skill_items(p, n),
    decreases n,
{
    if n > 0 {
        let all = p + v;
        lemma_items_of_first(p, v, n - 1);
        assert(all[n - 1] == p[n - 1]);
        let name = p[n - 1].0;
        if named_before(all, n - 1, name) {
            let i = choose|i: int| 0 <= i < n - 1 && i < all.len() && (#[trigger] all[i]).0 == name;
            assert(p[i] == all[i]);
        }
        if named_before(p, n - 1, name) {
            let i = choose|i: int| 0 <= i < n - 1 && i < p.len() && (#[trigger] p[i]).0 == name;
            assert(p[i] == all[i]);
        }
    }
}

/// One entry of a directory may be put in last.
proof fn lemma_put_last(taken: Set<Seq<char>>, base: Seq<SkillItem>, w: Seq<SkillFile>, k: int)
    requires
        names_differ(w),
        0 <= k < w.len(),
    ensures
        all_taken_in(taken, base, w) == taken_in(taken, all_taken_in(taken, base, w.remove(k)), w[k]),
    decreases w.len(),
{
    if k == w.len() - 1 {
        assert(w.remove(k) =~= w.drop_last());
    } else {
        let t = w.drop_last();
        let l = w.last();
        assert(w.remove(k) =~= t.remove(k).push(l));
        assert(w.remove(k).drop_last() =~= t.remove(k));
        assert forall|i: int, j: int| 0 <= i < j < t.len() implies (#[trigger] t[i]).0 != (#[trigger] t[j]).0 by {
            assert(w[i].0 != w[j].0);
        }
        lemma_put_last(taken, base, t, k);
        let g = all_taken_in(taken, base, t.remove(k));
        assert(w[k].0 != w[w.len() - 1].0);
        if w[k].1 is Some && l.1 is Some {
            lemma_insert_both(
                g,
                (w[k].0, head(describe(w[k].1->Some_0), 120)),
                (l.0, head(describe(l.1->Some_0), 120)),
            );
        }
    }
}

proof fn lemma_any_order(taken: Set<Seq<char>>, base: Seq<SkillItem>, v: Seq<SkillFile>, w: Seq<SkillFile>)
    requires
        names_differ(v),
        names_differ(w),
        v.to_multiset() == w.to_multiset(),
    ensures
        all_taken_in(taken, base, v) == all_taken_in(taken, base, w),
    decreases v.len(),
{
    v.to_multiset_ensures();
    w.to_multiset_ensures();
    if v.len() > 0 {
        let x = v.last();
        assert(v[v.len() - 1] == x);
        assert(v.contains(x));
        assert(w.to_multiset().count(x) > 0);
        let k = w.index_of(x);
        let p = v.drop_last();
        let q = w.remove(k);
        assert(v.remove(v.len() - 1) =~= p);
        assert(p.to_multiset() =~= q.to_multiset());
        assert forall|i: int, j: int| 0 <= i < j < p.len() implies (#[trigger] p[i]).0 != (#[trigger] p[j]).0 by {
            assert(v[i].0 != v[j].0);
        }
        assert forall|i: int, j: int| 0 <= i < j < q.len() implies (#[trigger] q[i]).0 != (#[trigger] q[j]).0 by {
            let a = if i < k { i } else { i + 1 };
            let b = if j < k { j } else { j + 1 };
            assert(q[i] == w[a] && q[j] == w[b]);
            assert(w[a].0 != w[b].0);
        }
        lemma_any_order(taken, base, p, q);
        lemma_put_last(taken, base, w, k);
    } else {
        assert(w.len() == 0);
    }
}

/// The order in which a directory lists its entries makes no difference to the
/// layer of the skills: neither in the agent's own directory nor in the shared
/// one that follows it.
pub proof fn law_skill_order(own: Seq<SkillFile>, own2: Seq<SkillFile>, shared: Seq<SkillFile>, shared2: Seq<SkillFile>)
    requires
        names_differ(own),
        names_differ(own2),
        names_differ(shared),
        names_differ(shared2),
        own.to_multiset() == own2.to_multiset(),
        shared.to_multiset() == shared2.to_multiset(),
    ensures
        skills_layer(own + shared) == skills_layer(own2 + shared2),
{
    let none = Seq::<SkillFile>::empty();
    own.to_multiset_ensures();
    own2.to_multiset_ensures();
    shared.to_multiset_ensures();
    shared2.to_multiset_ensures();
    assert(names_of(own) =~= names_of(own2)) by {
        assert forall|n: Seq<char>| names_of(own).contains(n) <==> names_of(own2).contains(n) by {
            if named_before(own, own.len() as int, n) {
                let i = choose|i: int| 0 <= i < own.len() && i < own.len() && (#[trigger] own[i]).0 == n;
                assert(own.contains(own[i]));
                assert(own2.to_multiset().count(own[i]) > 0);
                let k = own2.index_of(own[i]);
                assert(own2[k].0 == n);
            }
            if named_before(own2, own2.len() as int, n) {
                let i = choose|i: int| 0 <= i < own2.len() && i < own2.len() && (#[trigger] own2[i]).0 == n;
                assert(own2.contains(own2[i]));
                assert(own.to_multiset().count(own2[i]) > 0);
                let k = own.index_of(own2[i]);
                assert(own[k].0 == n);
            }
        }
    }
    assert(none + own =~= own);
    assert(none + own2 =~= own2);
    lemma_items_of(none, own, own.len() as int);
    lemma_items_of(none, own2, own2.len() as int);
    assert(own.take(own.len() as int) =~= own);
    assert(own2.take(own2.len() as int) =~= own2);
    lemma_any_order(names_of(none), skill_items(own, 0), own, own2);
    lemma_items_of_first(own, shared, own.len() as int);
    lemma_items_of_first(own2, shared2, own2.len() as int);
    lemma_items_of(own, shared, shared.len() as int);
    lemma_items_of(own2, shared2, shared2.len() as int);
    assert(shared.take(shared.len() as int) =~= shared);
    assert(shared2.take(shared2.len() as int) =~= shared2);
    lemma_any_order(names_of(own), skill_items(own + shared, own.len() as int), shared, shared2);
}

} // verus!
