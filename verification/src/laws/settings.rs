//! What the agent is told of itself and how it is configured: the system
//! prompt, skills, agent profiles and the configuration.

use vstd::prelude::*;

use crate::agents::{
    dir_of, draft_error, is_default_channel, is_valid_name, missing_agent, name_char, not_pending, policy_of,
    profile_view, AgentProfile, ChannelFeishu,
};
use crate::config::{
    budget, expanded, known_provider, level_of, model_set, model_text, persona, processed, server_views, upserted,
    without, Config, McpServerConfig, ModelConfig, SandboxLevel, ServerView,
};
use crate::models::model_named;
use crate::prompt::{
    core_text, fit, home_path, insert_item, layer_of, named_before, own_soul, prompt_text, skill_items, skill_lines,
    skills_layer, soul_text, SkillFile, SkillItem, CUT_NOTE, GROWTH_RULES, MAX_LAYER_BYTES, SYSTEM_PROMPT,
    TOOL_USAGE_RULES,
};
use crate::skills::{
    describe, description_between, description_in, fence_from, first_text_from, has_front_matter, is_fence, is_status,
    restated, states_status, status_between, status_of, with_status, STATUS_KEY,
};
use crate::text::{
    ascii_alnum, ascii_lower_all, contains_text, head, lines, occurs_at, strip_both, strip_left, strs, trim, utf8_len,
};
use crate::types::opt_view;

use super::{group_holds, group_members, lemma_join_holds};

verus! {

broadcast use group_members;

/// The system prompt holds what it is made of: the core, the rules of growth,
/// the skills, and the user's own text or else the personality and the project,
/// each under its title.
pub proof fn law_prompt_holds_its_parts(
    custom: Seq<char>,
    skills: Option<Seq<char>>,
    own: Option<Seq<char>>,
    global: Option<Seq<char>>,
    agents: Option<Seq<char>>,
)
    ensures
        ({
            let p = prompt_text(custom, skills, own, global, agents);
            &&& contains_text(p, SYSTEM_PROMPT@)
            &&& contains_text(p, TOOL_USAGE_RULES@)
            &&& contains_text(p, GROWTH_RULES@)
            &&& skills matches Some(s) ==> contains_text(p, "[已安装技能]"@ + "\n"@ + s)
            &&& trim(custom).len() > 0 ==> contains_text(p, "\n\n[自定义配置]\n"@ + trim(custom))
            &&& trim(custom).len() == 0 ==> {
                &&& own matches Some(t) ==> contains_text(p, "[SOUL.md 分身人格]"@ + "\n"@ + t)
                &&& own is None ==> (global matches Some(t) ==> contains_text(p, "[SOUL.md 全局人格]"@ + "\n"@ + t))
                &&& agents matches Some(t) ==> contains_text(p, "[AGENTS.md 项目上下文]"@ + "\n"@ + t)
            }
            &&& own matches Some(t) ==> soul_text(own, global) == Some(t)
            &&& own is None ==> soul_text(own, global) == global
        }),
{
    broadcast use group_holds;

}

/// A file is taken over whole where it holds something and is not too long, and
/// else from its start as far as it fits. A profile's own personality counts
/// only where there is a profile.
pub proof fn law_files_are_taken_over(c: Seq<char>, config: Config, file: Option<Seq<char>>)
    ensures
        trim(c).len() > 0 && utf8_len(c) <= MAX_LAYER_BYTES ==> layer_of(Some(c)) == Some(c),
        trim(c).len() == 0 ==> layer_of(Some(c)) is None,
        layer_of(None) is None,
        trim(c).len() > 0 && utf8_len(c) > MAX_LAYER_BYTES ==> layer_of(Some(c)) is Some && occurs_at(
            layer_of(Some(c))->0,
            c.take(fit(c, MAX_LAYER_BYTES as nat).len() as int),
            0,
        ) && layer_of(Some(c))->0.len() == fit(c, MAX_LAYER_BYTES as nat).len() + CUT_NOTE@.len(),
        config.agent.persona_dir is None ==> own_soul(config, file) is None,
        config.agent.persona_dir is Some ==> own_soul(config, file) == layer_of(file),
{
    crate::prompt::law_layer_fits(c, MAX_LAYER_BYTES as nat);
    let f = fit(c, MAX_LAYER_BYTES as nat);
    let l = f + CUT_NOTE@;
    assert(l.subrange(0, f.len() as int) =~= f);
}

proof fn lemma_item_inserted(v: Seq<SkillItem>, x: SkillItem, y: SkillItem)
    ensures
        insert_item(v, x).contains(y) <==> v.contains(y) || x == y,
    decreases v.len(),
{
    let r = insert_item(v, x);
    if v.len() == 0 || !crate::text::text_less(x.0, v.last().0) {
        assert(r[v.len() as int] == x);
        if v.contains(y) {
            assert(r[v.index_of(y)] == y);
        }
        if r.contains(y) && x != y {
            assert(v[r.index_of(y)] == y);
        }
    } else {
        let p = v.drop_last();
        lemma_item_inserted(p, x, y);
        let q = insert_item(p, x);
        assert(r[q.len() as int] == v.last());
        assert(v[v.len() - 1] == v.last());
        if q.contains(y) {
            assert(r[q.index_of(y)] == y);
        }
        if p.contains(y) {
            assert(v[p.index_of(y)] == y);
        }
        if v.contains(y) {
            let k = v.index_of(y);
            if k < p.len() {
                assert(p[k] == y);
            }
        }
        if r.contains(y) {
            let k = r.index_of(y);
            if k < q.len() {
                assert(q[k] == y);
            }
        }
    }
}

proof fn lemma_items(v: Seq<SkillFile>, n: int, i: int)
    requires
        0 <= i < n <= v.len(),
        v[i].1 is Some,
        !named_before(v, i, v[i].0),
    ensures
        skill_items(v, n).contains((v[i].0, head(describe(v[i].1->0), 120))),
    decreases n,
{
    let y = (v[i].0, head(describe(v[i].1->0), 120));
    if i < n - 1 {
        lemma_items(v, n - 1, i);
        if let Some(content) = v[n - 1].1 {
            lemma_item_inserted(skill_items(v, n - 1), (v[n - 1].0, head(describe(content), 120)), y);
        }
    } else {
        lemma_item_inserted(skill_items(v, n - 1), y, y);
    }
}

/// Every skill with a file is listed, under its name with what it is for; of
/// several with one name the first.
pub proof fn law_every_skill_is_listed(entries: Seq<SkillFile>, i: int)
    requires
        0 <= i < entries.len(),
        entries[i].1 is Some,
        forall|j: int| 0 <= j < i ==> (#[trigger] entries[j]).0 != entries[i].0,
    ensures
        skills_layer(entries) is Some,
        ({
            let d = describe(entries[i].1->0);
            contains_text(
                skills_layer(entries)->0,
                "- "@ + entries[i].0 + "："@ + d.take(if d.len() <= 120 {
                    d.len() as int
                } else {
                    120
                }),
            )
        }),
{
    let n = entries.len() as int;
    let d = describe(entries[i].1->0);
    assert(d.take(d.len() as int) =~= d);
    let y = (entries[i].0, head(d, 120));
    lemma_items(entries, n, i);
    let items = skill_items(entries, n);
    let k = items.index_of(y);
    let ls = skill_lines(items);
    assert(ls[k] == "- "@ + y.0 + "："@ + y.1);
    lemma_join_holds(ls, "\n"@, k);
    broadcast use group_holds;

}

proof fn lemma_fence(ls: Seq<Seq<char>>, from: int)
    requires
        0 <= from <= ls.len(),
    ensures
        from <= fence_from(ls, from) <= ls.len(),
        fence_from(ls, from) < ls.len() ==> is_fence(ls[fence_from(ls, from)]),
        forall|i: int| from <= i < fence_from(ls, from) ==> !is_fence(#[trigger] ls[i]),
    decreases ls.len() - from,
{
    if from < ls.len() && !is_fence(ls[from]) {
        lemma_fence(ls, from + 1);
    }
}

/// Front matter is what stands between a first line of three hyphens and the
/// next such line.
pub proof fn law_front_matter(ls: Seq<Seq<char>>, b: int)
    ensures
        has_front_matter(ls) ==> trim(ls[0]) == "---"@ && 0 < fence_from(ls, 1) < ls.len() && trim(
            ls[fence_from(ls, 1)],
        ) == "---"@,
        0 < b < ls.len() && trim(ls[0]) == "---"@ && trim(ls[b]) == "---"@ && (forall|i: int|
            0 < i < b ==> trim(#[trigger] ls[i]) != "---"@) ==> has_front_matter(ls) && fence_from(ls, 1) == b,
{
    if ls.len() > 0 {
        lemma_fence(ls, 1);
        let f = fence_from(ls, 1);
        if 0 < b < ls.len() && trim(ls[0]) == "---"@ && trim(ls[b]) == "---"@ && (forall|i: int|
            0 < i < b ==> trim(#[trigger] ls[i]) != "---"@) {
            if f < b {
                assert(is_fence(ls[f]));
            } else if b < f {
                assert(!is_fence(ls[b]));
            }
        }
    }
}

proof fn lemma_description_between(ls: Seq<Seq<char>>, from: int, to: int, i: int)
    requires
        0 <= from <= i < to <= ls.len(),
        description_in(ls[i]) is Some,
        forall|k: int| from <= k < i ==> description_in(#[trigger] ls[k]) is None,
    ensures
        description_between(ls, from, to) == description_in(ls[i]),
    decreases i - from,
{
    if from < i {
        assert(description_in(ls[from]) is None);
        lemma_description_between(ls, from + 1, to, i);
    }
}

/// A skill is described by the first description in its front matter.
pub proof fn law_skill_is_described(content: Seq<char>, i: int)
    requires
        has_front_matter(lines(content)),
        0 < i < fence_from(lines(content), 1),
        description_in(lines(content)[i]) is Some,
        forall|k: int| 0 < k < i ==> description_in(#[trigger] lines(content)[k]) is None,
    ensures
        Some(describe(content)) == description_in(lines(content)[i]),
{
    let ls = lines(content);
    lemma_fence(ls, 1);
    lemma_description_between(ls, 1, fence_from(ls, 1), i);
}

/// A line with a description gives it, without quotes.
pub proof fn law_description_on_a_line(line: Seq<char>, d: Seq<char>)
    requires
        trim(line) == "description:"@ + d,
    ensures
        description_in(line) matches Some(w) ==> w.len() > 0 && w == strip_both(strip_both(trim(d), '"'), '\''),
        strip_both(strip_both(trim(d), '"'), '\'').len() > 0 ==> description_in(line) is Some,
        !occurs_at(trim(line), "description:"@, 0) ==> description_in(line) is None,
{
    let t = "description:"@ + d;
    assert(t.subrange(0, "description:"@.len() as int) =~= "description:"@);
    assert(t.skip("description:"@.len() as int) =~= d);
}

proof fn lemma_first_text(ls: Seq<Seq<char>>, from: int, i: int)
    requires
        0 <= from <= i < ls.len(),
        trim(ls[i]).len() > 0,
        forall|k: int| from <= k < i ==> trim(#[trigger] ls[k]).len() == 0,
    ensures
        first_text_from(ls, from) == trim(ls[i]),
    decreases i - from,
{
    if from < i {
        assert(trim(ls[from]).len() == 0);
        lemma_first_text(ls, from + 1, i);
    }
}

/// A skill without a description is described by the first line that says
/// something, without the signs of a heading.
pub proof fn law_skill_without_a_description(content: Seq<char>, i: int)
    requires
        !has_front_matter(lines(content)),
        lines(content).len() > 0,
        trim(lines(content)[0]) != "---"@,
        0 <= i < lines(content).len(),
        trim(lines(content)[i]).len() > 0,
        forall|k: int| 0 <= k < i ==> trim(#[trigger] lines(content)[k]).len() == 0,
    ensures
        describe(content) == trim(strip_left(trim(lines(content)[i]), '#')),
{
    lemma_first_text(lines(content), 0, i);
}

proof fn lemma_status_between(ls: Seq<Seq<char>>, from: int, to: int, i: int)
    requires
        0 <= from <= i < to <= ls.len(),
        is_status(ls[i]),
        forall|k: int| from <= k < i ==> !is_status(#[trigger] ls[k]),
    ensures
        status_between(ls, from, to) == Some(trim(trim(ls[i]).skip(STATUS_KEY@.len() as int))),
    decreases i - from,
{
    if from < i {
        assert(!is_status(ls[from]));
        lemma_status_between(ls, from + 1, to, i);
    }
}

/// A skill's status is the first in its front matter; one without front matter
/// has none.
pub proof fn law_skill_status(content: Seq<char>, i: int)
    ensures
        !has_front_matter(lines(content)) ==> status_of(content) is None,
        has_front_matter(lines(content)) && 0 < i < fence_from(lines(content), 1) && occurs_at(
            trim(lines(content)[i]),
            "x-r2-status:"@,
            0,
        ) && (forall|k: int| 0 < k < i ==> !is_status(#[trigger] lines(content)[k])) ==> status_of(content) == Some(
            trim(trim(lines(content)[i]).skip("x-r2-status:"@.len() as int)),
        ),
{
    let ls = lines(content);
    if has_front_matter(ls) {
        lemma_fence(ls, 1);
        if 0 < i < fence_from(ls, 1) && occurs_at(trim(ls[i]), "x-r2-status:"@, 0) && (forall|k: int|
            0 < k < i ==> !is_status(#[trigger] ls[k])) {
            lemma_status_between(ls, 1, fence_from(ls, 1), i);
        }
    }
}

proof fn lemma_restated_lines(ls: Seq<Seq<char>>, from: int, to: int, status: Seq<char>, i: int)
    requires
        0 <= from <= to <= ls.len(),
    ensures
        restated(ls, from, to, status).len() == to - from,
        from <= i < to ==> restated(ls, from, to, status)[i - from] == (if is_status(ls[i]) {
            "x-r2-status: "@ + status
        } else {
            ls[i]
        }),
    decreases to - from,
{
    if from < to {
        lemma_restated_lines(ls, from + 1, to, status, i);
    }
}

/// Writing a skill's status changes the lines of its front matter that state it
/// and no other line; where none does, one is added at its end.
pub proof fn law_only_the_status_changes(ls: Seq<Seq<char>>, status: Seq<char>, i: int)
    requires
        has_front_matter(ls),
        0 <= i < ls.len(),
    ensures
        ({
            let b = fence_from(ls, 1);
            let out = with_status(ls, status);
            let stated = exists|k: int| 0 < k < b && is_status(#[trigger] ls[k]);
            &&& i < b && (i == 0 || !is_status(ls[i])) ==> out[i] == ls[i]
            &&& 0 < i < b && is_status(ls[i]) ==> out[i] == "x-r2-status: "@ + status
            &&& stated ==> out.len() == ls.len() && (i >= b ==> out[i] == ls[i])
            &&& !stated ==> out.len() == ls.len() + 1 && out[b] == "x-r2-status: "@ + status && (i >= b ==> out[i + 1]
                == ls[i])
        }),
{
    assert(fence_from(ls, 0) == 0);
    lemma_fence(ls, 1);
    let b = fence_from(ls, 1);
    lemma_restated_lines(ls, 1, b, status, i);
    let stated = exists|k: int| 0 < k < b && is_status(#[trigger] ls[k]);
    assert(states_status(ls, 1, b) <==> stated) by {
        if states_status(ls, 1, b) {
            let k = choose|k: int| 1 <= k < b && 0 <= k < ls.len() && is_status(#[trigger] ls[k]);
            assert(is_status(ls[k]));
        }
        if stated {
            let k = choose|k: int| 0 < k < b && is_status(#[trigger] ls[k]);
            assert(is_status(ls[k]));
        }
    }
}

/// A path from the home directory is found below it; another stays.
pub proof fn law_home_paths(rest: Seq<char>, path: Seq<char>, h: Seq<char>)
    ensures
        expanded("~/"@ + rest, Some(h)) == h + "/"@ + rest,
        home_path("~/"@ + rest, h) == h + "/"@ + rest,
        expanded("~"@, Some(h)) == h && home_path("~"@, h) == h,
        path.len() == 0 || path[0] != '~' ==> expanded(path, Some(h)) == path && home_path(path, h) == path,
        expanded(path, None) == path,
{
    reveal_strlit("~/");
    reveal_strlit("~");
    let t = "~/"@ + rest;
    assert(t.subrange(0, 2) =~= "~/"@);
    assert(t.skip(2) =~= rest);
    assert("~"@.len() < "~/"@.len());
    if path.len() >= 2 && path[0] != '~' {
        assert(path.subrange(0, 2)[0] == path[0]);
        assert("~/"@[0] == '~');
    }
    if path == "~"@ {
        assert(path[0] == '~');
    }
}

/// The model in use is that of the provider; setting it changes that and
/// nothing else.
pub proof fn law_model_in_use(c: ModelConfig, d: ModelConfig, name: Seq<char>)
    ensures
        c.provider@ == "anthropic"@ ==> model_text(c) == c.anthropic.model@,
        c.provider@ != "anthropic"@ ==> model_text(c) == c.openai_compat.model@,
        model_set(c, d, name) ==> {
            &&& model_text(d) == name
            &&& d.provider == c.provider && d.profiles == c.profiles && d.active_profile == c.active_profile
            &&& d.openai_compat.api_key == c.openai_compat.api_key && d.openai_compat.base_url
                == c.openai_compat.base_url
            &&& d.anthropic.api_key == c.anthropic.api_key && d.anthropic.base_url == c.anthropic.base_url
            &&& c.provider@ == "anthropic"@ ==> d.openai_compat == c.openai_compat
            &&& c.provider@ != "anthropic"@ ==> d.anthropic == c.anthropic
        },
{
}

/// The token limit is the one that was set, or else the model's window, or
/// 128000 where the model is not known.
pub proof fn law_token_limit(set: usize, model: Seq<char>)
    ensures
        set != 0 ==> budget(set, model) == set,
        set == 0 ==> (model_named(model) matches Some(m) ==> budget(set, model) == m.context_window),
        set == 0 && model_named(model) is None ==> budget(set, model) == 128_000,
{
}

/// A loaded configuration has its paths found from the home directory and its
/// limit settled; nothing else changes.
pub proof fn law_loaded_configuration(c: Config, d: Config, home: Option<Seq<char>>)
    requires
        processed(c, d, home),
    ensures
        d.session.dir@ == expanded(c.session.dir@, home),
        d.agent.work_dir@ == expanded(c.agent.work_dir@, home),
        c.agent.max_total_tokens != 0 ==> d.agent.max_total_tokens == c.agent.max_total_tokens,
        d.model == c.model && d.context == c.context && d.sandbox == c.sandbox && d.mcp == c.mcp,
        d.agent.max_turns == c.agent.max_turns && d.agent.system_prompt == c.agent.system_prompt
            && d.agent.persona_dir == c.agent.persona_dir && d.source_path == c.source_path,
{
}

/// The levels of the sandbox and the providers, all of them.
pub proof fn law_known_words(s: Seq<char>)
    ensures
        level_of("off"@) == Some(SandboxLevel::Off),
        level_of("container"@) == Some(SandboxLevel::Container),
        level_of("strict"@) == Some(SandboxLevel::Strict),
        level_of(s) is Some ==> s == "off"@ || s == "container"@ || s == "strict"@,
        known_provider(s) <==> s == "openai_compat"@ || s == "anthropic"@,
{
    reveal_strlit("off");
    reveal_strlit("container");
    reveal_strlit("strict");
    assert("off"@.len() != "container"@.len());
    assert("off"@.len() != "strict"@.len());
    assert("container"@.len() != "strict"@.len());
}

proof fn lemma_without(v: Seq<ServerView>, name: Seq<char>, x: ServerView)
    ensures
        without(v, name).contains(x) <==> v.contains(x) && x.name != name,
    decreases v.len(),
{
    if v.len() > 0 {
        let p = v.drop_last();
        lemma_without(p, name, x);
        let w = without(v, name);
        let u = without(p, name);
        if v.contains(x) {
            let k = v.index_of(x);
            if k < p.len() {
                assert(p[k] == x);
            }
        }
        if p.contains(x) {
            assert(v[p.index_of(x)] == x);
        }
        assert(v[v.len() - 1] == v.last());
        if v.last().name != name {
            assert(w[u.len() as int] == v.last());
            if u.contains(x) {
                assert(w[u.index_of(x)] == x);
            }
            if w.contains(x) {
                let k = w.index_of(x);
                if k < u.len() {
                    assert(u[k] == x);
                }
            }
        }
    }
}

/// Servers that are laid over others take the places of those with their names,
/// the last of each name; the others stay.
pub proof fn law_servers_are_laid_over(v: Seq<ServerView>, more: Seq<ServerView>, x: ServerView)
    ensures
        (forall|i: int| 0 <= i < more.len() ==> (#[trigger] more[i]).name != x.name) ==> (upserted(
            v,
            more,
        ).contains(x) <==> v.contains(x)),
        more.len() > 0 ==> upserted(v, more).last() == more.last() && upserted(v, more).contains(more.last()),
        more.len() > 0 && x.name == more.last().name && x != more.last() ==> !upserted(v, more).contains(x),
    decreases more.len(),
{
    if more.len() > 0 {
        let p = more.drop_last();
        law_servers_are_laid_over(v, p, x);
        let before = upserted(v, p);
        let w = without(before, more.last().name);
        let all = w.push(more.last());
        lemma_without(before, more.last().name, x);
        assert(all[w.len() as int] == more.last());
        assert(all.contains(more.last()));
        if all.contains(x) && x != more.last() {
            let k = all.index_of(x);
            assert(k < w.len());
            assert(w[k] == x);
        }
        if forall|i: int| 0 <= i < more.len() ==> (#[trigger] more[i]).name != x.name {
            assert(more[more.len() - 1].name != x.name);
            assert forall|i: int| 0 <= i < p.len() implies (#[trigger] p[i]).name != x.name by {
                assert(more[i].name != x.name);
            }
            if w.contains(x) {
                assert(all[w.index_of(x)] == x);
            }
        }
    }
}

/// An agent profile works in its own directories, with its own model where it
/// has one, and with its servers laid over the others; everything else is the
/// main configuration's.
pub proof fn law_profile_configuration(
    c: Config,
    d: Config,
    home: Seq<char>,
    name: Seq<char>,
    model: Option<Seq<char>>,
    servers: Seq<ServerView>,
)
    requires
        persona(c, d, dir_of(home, name), model, servers),
        name.len() > 0,
        name[0] != '/',
        name.last() != '/',
    ensures
        dir_of(home, name) == home + "/.r2/agents/"@ + name,
        opt_view(d.agent.persona_dir) == Some(home + "/.r2/agents/"@ + name),
        d.agent.work_dir@ == home + "/.r2/agents/"@ + name + "/work"@,
        d.session.dir@ == home + "/.r2/agents/"@ + name + "/sessions"@,
        model matches Some(m) ==> m.len() > 0 ==> model_text(d.model) == m,
        model is None || model->0.len() == 0 ==> d.model == c.model,
        server_views(d.mcp.servers@) == upserted(server_views(c.mcp.servers@), servers),
        d.agent.max_turns == c.agent.max_turns && d.agent.max_total_tokens == c.agent.max_total_tokens
            && d.agent.system_prompt == c.agent.system_prompt,
        d.context == c.context && d.sandbox == c.sandbox,
{
    reveal_strlit("/.r2/agents");
    reveal_strlit("/.r2/agents/");
    reveal_strlit("work");
    reveal_strlit("sessions");
    reveal_strlit("/work");
    reveal_strlit("/sessions");
    assert("/.r2/agents"@.push('/') =~= "/.r2/agents/"@);
    let root = home + "/.r2/agents"@;
    assert(root.last() == 's');
    assert(root.push('/') + name =~= home + "/.r2/agents/"@ + name);
    let dir = home + "/.r2/agents/"@ + name;
    assert(dir.last() == name.last());
    assert(dir.push('/') + "work"@ =~= dir + "/work"@);
    assert(dir.push('/') + "sessions"@ =~= dir + "/sessions"@);
    assert(dir_of(home, name) == dir);
    law_model_in_use(
        c.model,
        d.model,
        match model {
            Some(m) => m,
            None => Seq::empty(),
        },
    );
}

/// What is stated of a server is stated of its fields.
pub proof fn law_servers_are_their_fields(s: McpServerConfig, v: Seq<McpServerConfig>, i: int)
    ensures
        s@.name == s.name@ && s@.command == s.command@ && s@.args == strs(s.args@),
        server_views(v).len() == v.len(),
        0 <= i < v.len() ==> server_views(v)[i] == v[i]@,
{
}

/// The policy of a channel: the one that is set; else what the former list of
/// senders means; else nobody may write.
pub proof fn law_policy_in_force(c: ChannelFeishu)
    ensures
        c.dm_policy@ == "allow_all"@ ==> policy_of(c).0 == "allow_all"@,
        c.dm_policy@ == "allow_list"@ ==> policy_of(c) == ("allow_list"@, strs(c.policy_list@)),
        c.dm_policy@ == "deny_list"@ ==> policy_of(c) == ("deny_list"@, strs(c.policy_list@)),
        c.dm_policy@ == "deny_all"@ && c.allow_from@.len() == 0 ==> policy_of(c).0 == "deny_all"@,
        c.dm_policy@.len() == 0 && c.allow_from@.len() == 0 ==> policy_of(c).0 == "deny_all"@,
        c.dm_policy@.len() == 0 && strs(c.allow_from@).contains("*"@) ==> policy_of(c).0 == "allow_all"@,
        c.dm_policy@.len() == 0 && c.allow_from@.len() > 0 && !strs(c.allow_from@).contains("*"@) ==> policy_of(c)
            == ("allow_list"@, strs(c.allow_from@)),
        is_default_channel(c) ==> !c.enabled && policy_of(c).0 == "deny_all"@ && c.show_process@ == "compact"@
            && c.app_id@.len() == 0 && c.app_secret@.len() == 0,
{
    reveal_strlit("allow_all");
    reveal_strlit("allow_list");
    reveal_strlit("deny_list");
    reveal_strlit("deny_all");
    assert("allow_all"@.len() != "allow_list"@.len());
    assert("allow_all"@[0] != "deny_list"@[0]);
    assert("allow_all"@.len() != "deny_all"@.len());
    assert("allow_list"@.len() != "deny_list"@.len());
    assert("allow_list"@.len() != "deny_all"@.len());
    assert("deny_list"@.len() != "deny_all"@.len());
    if c.allow_from@.len() == 0 {
        assert(!strs(c.allow_from@).contains("*"@));
    }
}

/// The names that a profile may have: one to 24 letters, digits, hyphens and
/// underscores, in no case the main agent's.
pub proof fn law_profile_names(name: Seq<char>)
    ensures
        is_valid_name(name) <==> 0 < name.len() && utf8_len(name) <= 24 && ascii_lower_all(name) != "main"@ && forall|
            i: int,
        |
            0 <= i < name.len() ==> ascii_alnum(#[trigger] name[i]) || name[i] == '-' || name[i] == '_',
{
    if is_valid_name(name) {
        assert forall|i: int| 0 <= i < name.len() implies ascii_alnum(#[trigger] name[i]) || name[i] == '-' || name[i]
            == '_' by {
            assert(name_char(name[i]));
        }
    }
}

/// Which profiles can be drafted.
pub proof fn law_which_profiles_are_drafted(
    name: Seq<char>,
    there: bool,
    display_name: Seq<char>,
    description: Seq<char>,
    soul: Seq<char>,
)
    ensures
        draft_error(name, there, display_name, description, soul) is None <==> is_valid_name(name) && !there
            && display_name.len() <= 32 && description.len() <= 200 && soul.len() <= 8000,
        is_valid_name(name) && there ==> contains_text(
            draft_error(name, there, display_name, description, soul)->0,
            name,
        ),
{
    broadcast use group_holds;

}

/// What the console is shown of a profile.
pub proof fn law_profile_is_shown(p: AgentProfile, what: Seq<char>)
    ensures
        profile_view(p).get_str("name"@) == Some(p.name@),
        profile_view(p).get_str("display_name"@) == Some(p.display_name@),
        profile_view(p).get_str("model"@) == Some(p.model@),
        profile_view(p).get_str("state"@) == Some(p.state@),
        profile_view(p).get_str("description"@) == Some(p.description@),
        profile_view(p).get_u64("created_ts"@) == Some(p.created_ts),
        contains_text(missing_agent(p.name@), p.name@),
        contains_text(not_pending(p, what), p.name@) && contains_text(not_pending(p, what), p.state@)
            && contains_text(not_pending(p, what), what),
{
    reveal_strlit("name");
    reveal_strlit("display_name");
    reveal_strlit("model");
    reveal_strlit("state");
    reveal_strlit("description");
    reveal_strlit("created_ts");
    assert("name"@.len() != "display_name"@.len());
    assert("name"@.len() != "model"@.len());
    assert("name"@.len() != "state"@.len());
    assert("name"@.len() != "description"@.len());
    assert("name"@.len() != "created_ts"@.len());
    assert("display_name"@.len() != "model"@.len());
    assert("display_name"@.len() != "state"@.len());
    assert("display_name"@.len() != "description"@.len());
    assert("display_name"@.len() != "created_ts"@.len());
    assert("model"@[0] != "state"@[0]);
    assert("model"@.len() != "description"@.len());
    assert("model"@.len() != "created_ts"@.len());
    assert("state"@.len() != "description"@.len());
    assert("state"@.len() != "created_ts"@.len());
    assert("description"@.len() != "created_ts"@.len());
    broadcast use group_holds;

}

/// The core of the prompt is what the agent is, then how it uses its tools.
pub proof fn law_core_of_the_prompt()
    ensures
        core_text() == SYSTEM_PROMPT@ + "\n\n"@ + TOOL_USAGE_RULES@,
{
}

} // verus!
