//! How the agent grows: what is told of a run, what is learnt from it, which
//! lessons belong together, and what becomes of skills.

use vstd::prelude::*;

use crate::evolution::{
    alike, at_most, clustered, decayed_among, draft_name_among, draft_name_on, error_lines, files_to_add, first_fit,
    fits, goal_change, growth_form, growth_lines, growth_of_form, growth_on, hidden, is_skill_name, large,
    last_evidence, last_lesson, latest, lessons_in, new_names, no_use, numbered, pair_at, promotion_of, reflected,
    signals_text, skill_named, steer_lines, token_before, tokens, use_of, used, value_on, visible, word_at, word_text,
    EvolutionEvent, GrowthView, Promotion, SkillUseStat, TurnSignals,
};
use crate::json::{json_parsed, JsonView};
use crate::text::{
    after_prefix, contains_text, dec, find_text, first_index, head, join, lemma_find_from, lemma_first_index, lines,
    lowercase, occurs_at, strip_both, trim,
};

use super::{
    group_holds, group_members, in_order, lemma_holds_itself, lemma_join_holds, lemma_join_in_order, lemma_left_holds,
    lemma_right_holds,
};

verus! {

broadcast use group_members;

/// What is told of a failed tool: its name and the start of the failure.
pub open spec fn failure_told(e: (String, String)) -> Seq<char> {
    "- 工具 "@ + e.0@ + " 失败："@ + e.1@.take(if e.1@.len() <= 120 {
        e.1@.len() as int
    } else {
        120
    }) + "\n"@
}

/// What is told of the user's words.
pub open spec fn words_told(s: String) -> Seq<char> {
    "- 用户中途纠正：「"@ + s@.take(if s@.len() <= 120 {
        s@.len() as int
    } else {
        120
    }) + "」\n"@
}

proof fn lemma_error_lines(v: Seq<(String, String)>, i: int)
    requires
        0 <= i < v.len(),
    ensures
        contains_text(error_lines(v), failure_told(v[i])),
    decreases v.len(),
{
    let a = error_lines(v.drop_last());
    let last = "- 工具 "@ + v.last().0@ + " 失败："@ + head(v.last().1@, 120) + "\n"@;
    assert(error_lines(v) =~= a + last);
    if i < v.len() - 1 {
        lemma_error_lines(v.drop_last(), i);
        lemma_left_holds(a, last, failure_told(v[i]));
    } else {
        assert(v[i].1@.take(v[i].1@.len() as int) =~= v[i].1@);
        assert(last == failure_told(v[i]));
        lemma_holds_itself(last);
        lemma_right_holds(a, last, last);
    }
}

proof fn lemma_steer_lines(v: Seq<String>, i: int)
    requires
        0 <= i < v.len(),
    ensures
        contains_text(steer_lines(v), words_told(v[i])),
    decreases v.len(),
{
    let a = steer_lines(v.drop_last());
    let last = "- 用户中途纠正：「"@ + head(v.last()@, 120) + "」\n"@;
    assert(steer_lines(v) =~= a + last);
    if i < v.len() - 1 {
        lemma_steer_lines(v.drop_last(), i);
        lemma_left_holds(a, last, words_told(v[i]));
    } else {
        assert(v[i]@.take(v[i]@.len() as int) =~= v[i]@);
        assert(last == words_told(v[i]));
        lemma_holds_itself(last);
        lemma_right_holds(a, last, last);
    }
}

/// The signals of a run are told: the first six failures, the first four times
/// that the user corrected it, and how often a retry succeeded.
pub proof fn law_signals_are_told(s: TurnSignals, i: int)
    requires
        0 <= i,
    ensures
        i < 6 && i < s.tool_errors@.len() ==> contains_text(signals_text(s), failure_told(s.tool_errors@[i])),
        i < 4 && i < s.steers@.len() ==> contains_text(signals_text(s), words_told(s.steers@[i])),
        s.retries_recovered > 0 ==> contains_text(
            signals_text(s),
            "- 失败后重试成功 "@ + dec(s.retries_recovered as nat) + " 次\n"@,
        ),
        s.tool_errors@.len() == 0 && s.steers@.len() == 0 && s.retries_recovered == 0 ==> signals_text(s).len() == 0,
{
    broadcast use group_holds;

    let a = at_most(s.tool_errors@, 6);
    let b = at_most(s.steers@, 4);
    if i < 6 && i < s.tool_errors@.len() {
        lemma_error_lines(a, i);
        assert(a[i] == s.tool_errors@[i]);
    }
    if i < 4 && i < s.steers@.len() {
        lemma_steer_lines(b, i);
        assert(b[i] == s.steers@[i]);
    }
}

/// Every lesson stands in the request for a skill, under its number, and the
/// lessons stand in their order.
pub proof fn law_every_lesson_is_in_the_request(lessons: Seq<Seq<char>>)
    ensures
        in_order(
            join(numbered(lessons), "\n"@),
            Seq::new(lessons.len(), |i: int| dec((i + 1) as nat) + ". "@ + lessons[i]),
        ),
        forall|i: int|
            0 <= i < lessons.len() ==> contains_text(
                join(numbered(lessons), "\n"@),
                dec((i + 1) as nat) + ". "@ + #[trigger] lessons[i],
            ),
{
    let want = Seq::new(lessons.len(), |i: int| dec((i + 1) as nat) + ". "@ + lessons[i]);
    assert(numbered(lessons) =~= want);
    lemma_join_in_order(want, "\n"@);
    assert forall|i: int| 0 <= i < lessons.len() implies contains_text(
        join(numbered(lessons), "\n"@),
        dec((i + 1) as nat) + ". "@ + #[trigger] lessons[i],
    ) by {
        lemma_join_holds(want, "\n"@, i);
    }
}

/// The lessons are the contents of the events of that kind, in their order.
pub proof fn law_lessons_are_those_events(v: Seq<EvolutionEvent>)
    ensures
        lessons_in(v) == v.filter(|e: EvolutionEvent| e.kind@ == "lesson"@).map_values(
            |e: EvolutionEvent| e.content@,
        ),
    decreases v.len(),
{
    reveal(Seq::filter);
    if v.len() > 0 {
        law_lessons_are_those_events(v.drop_last());
    }
    assert(lessons_in(v) =~= v.filter(|e: EvolutionEvent| e.kind@ == "lesson"@).map_values(
        |e: EvolutionEvent| e.content@,
    ));
}

/// Of the clusters exactly those are taken up that are large enough.
pub proof fn law_large_clusters_are_taken_up(clusters: Seq<Seq<Seq<char>>>, min: nat)
    ensures
        large(clusters, min) == clusters.filter(|c: Seq<Seq<char>>| c.len() >= min),
    decreases clusters.len(),
{
    reveal(Seq::filter);
    if clusters.len() > 0 {
        law_large_clusters_are_taken_up(clusters.drop_last(), min);
    }
    assert(large(clusters, min) =~= clusters.filter(|c: Seq<Seq<char>>| c.len() >= min));
}

/// Lessons that share no word are not alike; lessons with the same words are.
pub proof fn law_what_is_alike(a: Seq<char>, b: Seq<char>)
    ensures
        tokens(a).intersect(tokens(b)).len() == 0 ==> !alike(a, b),
        tokens(a).len() > 0 && tokens(a) == tokens(b) ==> alike(a, b),
        alike(a, b) == alike(b, a),
        alike(a, b) ==> 7 * tokens(a).union(tokens(b)).len() <= 50 * tokens(a).intersect(tokens(b)).len(),
{
    assert(tokens(a).intersect(tokens(b)) =~= tokens(b).intersect(tokens(a)));
    assert(tokens(a).union(tokens(b)) =~= tokens(b).union(tokens(a)));
    assert(tokens(a).intersect(tokens(a)) =~= tokens(a));
    assert(tokens(a).union(tokens(a)) =~= tokens(a));
}

proof fn lemma_first_fit(clusters: Seq<Seq<Seq<char>>>, lesson: Seq<char>, from: int)
    requires
        0 <= from <= clusters.len(),
    ensures
        from <= first_fit(clusters, lesson, from) <= clusters.len(),
        first_fit(clusters, lesson, from) < clusters.len() ==> fits(
            clusters[first_fit(clusters, lesson, from)],
            lesson,
        ),
        forall|i: int| from <= i < first_fit(clusters, lesson, from) ==> !fits(#[trigger] clusters[i], lesson),
    decreases clusters.len() - from,
{
    if from < clusters.len() && !fits(clusters[from], lesson) {
        lemma_first_fit(clusters, lesson, from + 1);
    }
}

/// A lesson joins the first cluster that holds one like it, and opens a new one
/// where none does; the other clusters stay as they are.
pub proof fn law_where_a_lesson_goes(lessons: Seq<Seq<char>>, x: Seq<char>)
    ensures
        ({
            let old = clustered(lessons);
            let new = clustered(lessons.push(x));
            &&& (forall|i: int| 0 <= i < old.len() ==> !fits(#[trigger] old[i], x)) ==> new == old.push(seq![x])
            &&& forall|k: int|
                0 <= k < old.len() && fits(#[trigger] old[k], x) && (forall|i: int|
                    0 <= i < k ==> !fits(#[trigger] old[i], x)) ==> new == old.update(k, old[k].push(x))
        }),
{
    let old = clustered(lessons);
    assert(lessons.push(x).drop_last() =~= lessons);
    lemma_first_fit(old, x, 0);
    assert forall|k: int|
        0 <= k < old.len() && fits(#[trigger] old[k], x) && (forall|i: int|
            0 <= i < k ==> !fits(#[trigger] old[i], x)) implies clustered(lessons.push(x)) == old.update(
        k,
        old[k].push(x),
    ) by {
        let f = first_fit(old, x, 0);
        if f < k {
            assert(!fits(old[f], x));
        }
    }
}

/// The words of a text: each pair of neighbouring ideographs, and each run of
/// two or more other letters and digits, in lower case.
pub proof fn law_words_of_a_text(s: Seq<char>, a: int, b: int)
    ensures
        pair_at(s, a) ==> tokens(s).contains(s.subrange(a, a + 2)),
        word_at(s, a, b) && b - a >= 2 ==> tokens(s).contains(lowercase(s.subrange(a, b))),
        forall|t: Seq<char>| #[trigger]
            tokens(s).contains(t) ==> (exists|i: int| #[trigger] pair_at(s, i) && t == s.subrange(i, i + 2)) || (exists|
                i: int,
                j: int,
            | #[trigger]
                word_at(s, i, j) && j - i >= 2 && t == lowercase(s.subrange(i, j))),
{
    if word_at(s, a, b) && b - a >= 2 {
        assert(token_before(s, word_text(s, a, b), s.len() as int));
    }
    assert forall|t: Seq<char>| #[trigger] tokens(s).contains(t) implies (exists|i: int| #[trigger]
        pair_at(s, i) && t == s.subrange(i, i + 2)) || (exists|i: int, j: int| #[trigger]
        word_at(s, i, j) && j - i >= 2 && t == lowercase(s.subrange(i, j))) by {
        assert(token_before(s, t, s.len() as int));
    }
}

/// A skill's use is counted once, as a success or as a failure, and its time is
/// kept.
pub proof fn law_use_is_counted(u: SkillUseStat, now: u64)
    requires
        u.count < u64::MAX,
        u.success < u64::MAX,
        u.fail < u64::MAX,
    ensures
        used(u, true, now).count == u.count + 1 && used(u, false, now).count == u.count + 1,
        used(u, true, now).success == u.success + 1 && used(u, true, now).fail == u.fail,
        used(u, false, now).fail == u.fail + 1 && used(u, false, now).success == u.success,
        used(u, true, now).last_used == now && used(u, false, now).last_used == now,
        no_use().count == 0 && no_use().success == 0 && no_use().fail == 0 && no_use().last_used == 0,
{
}

/// What a skill on trial becomes: three failures end it; with five uses and
/// eight in ten a success it is taken on; a skill not on trial stays.
pub proof fn law_what_becomes_of_a_skill(status: Option<Seq<char>>, u: SkillUseStat)
    ensures
        status != Some("trial"@) ==> promotion_of(status, Some(u)) == Promotion::Keep,
        promotion_of(status, None) == Promotion::Keep,
        status == Some("trial"@) ==> (promotion_of(status, Some(u)) == Promotion::Archive <==> u.fail >= 3),
        status == Some("trial"@) ==> (promotion_of(status, Some(u)) == Promotion::Promote <==> u.fail < 3
            && u.success + u.fail >= 5 && u.success >= 4 * u.fail),
{
}

/// A skill decays when it was not used for ninety days: exactly those of the
/// visible skills are named, each with the time of its last use.
pub proof fn law_which_skills_decay(
    names: Seq<Seq<char>>,
    usage: Seq<(String, SkillUseStat)>,
    now: u64,
    name: Seq<char>,
    t: u64,
)
    ensures
        decayed_among(names, usage, now).contains((name, t)) <==> names.contains(name) && !(name.len() > 0 && name[0]
            == '.') && t == (match use_of(usage, name) {
            Some(u) => u.last_used,
            None => 0,
        }) && t + 90 * 24 * 3600 < now,
    decreases names.len(),
{
    reveal_strlit(".");
    assert(hidden(name) <==> name.len() > 0 && name[0] == '.') by {
        if name.len() > 0 {
            assert(name.subrange(0, 1) =~= seq![name[0]]);
            assert("."@ =~= seq!['.']);
            if name[0] == '.' {
                assert(name.subrange(0, 1) =~= "."@);
            } else if hidden(name) {
                assert(name.subrange(0, 1)[0] == "."@[0]);
            }
        }
    }
    let all = decayed_among(names, usage, now);
    if names.len() > 0 {
        let p = names.drop_last();
        law_which_skills_decay(p, usage, now, name, t);
        let before = decayed_among(p, usage, now);
        if before.contains((name, t)) {
            assert(all[before.index_of((name, t))] == (name, t));
            assert(p.contains(name));
            assert(names[p.index_of(name)] == name);
        }
        if all.contains((name, t)) && !before.contains((name, t)) {
            let k = all.index_of((name, t));
            if k < before.len() {
                assert(before[k] == (name, t));
            }
            assert(names[names.len() - 1] == name);
        }
        if names.contains(name) && !p.contains(name) {
            let k = names.index_of(name);
            if k < p.len() {
                assert(p[k] == name);
            }
            assert(names.last() == name);
            if all.len() > before.len() {
                assert(all[before.len() as int] == all.last());
            }
        }
        if names.last() == name && all.len() > before.len() {
            assert(all[before.len() as int] == all.last());
        }
    }
}

/// Of the skills in a directory those are listed whose names do not begin with
/// a dot.
pub proof fn law_visible_skills(names: Seq<Seq<char>>)
    ensures
        visible(names) == names.filter(|n: Seq<char>| !(occurs_at(n, "."@, 0))),
    decreases names.len(),
{
    reveal(Seq::filter);
    if names.len() > 0 {
        law_visible_skills(names.drop_last());
    }
    assert(visible(names) =~= names.filter(|n: Seq<char>| !(occurs_at(n, "."@, 0))));
}

/// A call that refers to a skill's file names the skill: what is named stands
/// in the call as a skill's directory, and nothing is named where no such
/// place stands in it.
pub proof fn law_named_skill_stands_in_the_call(s: Seq<char>)
    ensures
        skill_named(s) matches Some(n) ==> contains_text(s, "skills/"@ + n + "/SKILL.md"@) && is_skill_name(n),
    decreases s.len(),
{
    reveal_strlit("skills/");
    reveal_strlit("/SKILL.md");
    lemma_find_from(s, "skills/"@, 0);
    match find_text(s, "skills/"@) {
        None => {},
        Some(pos) => {
            let after = s.skip(pos + 7);
            let slash = first_index(after, '/');
            lemma_first_index(after, '/');
            assert(s.subrange(pos, pos + 7) =~= "skills/"@);
            if slash < after.len() && is_skill_name(after.take(slash)) && occurs_at(after, "/SKILL.md"@, slash) {
                let n = after.take(slash);
                let whole = "skills/"@ + n + "/SKILL.md"@;
                assert(after.subrange(slash, slash + 9) =~= "/SKILL.md"@);
                assert(s.subrange(pos, pos + whole.len()) =~= whole) by {
                    assert forall|k: int| 0 <= k < whole.len() implies s.subrange(pos, pos + whole.len())[k]
                        == whole[k] by {
                        if k < 7 {
                            assert(s.subrange(pos, pos + 7)[k] == "skills/"@[k]);
                        } else if k < 7 + slash {
                            assert(after[k - 7] == s[pos + k]);
                        } else {
                            assert(after.subrange(slash, slash + 9)[k - 7 - slash] == "/SKILL.md"@[k - 7 - slash]);
                            assert(after[k - 7] == s[pos + k]);
                        }
                    }
                }
                assert(occurs_at(s, whole, pos));
            } else {
                law_named_skill_stands_in_the_call(after);
                if let Some(n) = skill_named(after) {
                    assert(s =~= s.take(pos + 7) + after);
                    lemma_right_holds(s.take(pos + 7), after, "skills/"@ + n + "/SKILL.md"@);
                }
            }
        },
    }
}

/// A call with one skill's file in it names that skill.
pub proof fn law_skill_in_a_call_is_named(pre: Seq<char>, n: Seq<char>, post: Seq<char>)
    requires
        is_skill_name(n),
        forall|i: int| 0 <= i < pre.len() ==> !occurs_at(pre + "skills/"@ + n + "/SKILL.md"@ + post, "skills/"@, i),
    ensures
        skill_named(pre + "skills/"@ + n + "/SKILL.md"@ + post) == Some(n),
{
    reveal_strlit("skills/");
    reveal_strlit("/SKILL.md");
    let s = pre + "skills/"@ + n + "/SKILL.md"@ + post;
    let at = pre.len() as int;
    assert(s.subrange(at, at + 7) =~= "skills/"@);
    assert(occurs_at(s, "skills/"@, at));
    lemma_find_from(s, "skills/"@, 0);
    assert(find_text(s, "skills/"@) == Some(at));
    let after = s.skip(at + 7);
    assert(after =~= n + "/SKILL.md"@ + post);
    let slash = first_index(after, '/');
    lemma_first_index(after, '/');
    assert forall|k: int| 0 <= k < n.len() implies after[k] != '/' by {
        assert(after[k] == n[k]);
        assert(crate::evolution::skill_name_char(n[k]));
    }
    assert(after[n.len() as int] == '/');
    assert(slash == n.len()) by {
        if slash < n.len() {
            assert(after[slash] == '/');
        }
    }
    assert(after.take(slash) =~= n);
    assert(after.subrange(slash, slash + 9) =~= "/SKILL.md"@);
}

/// A lesson is taken out of what the model says: from the last line that has
/// one, and its evidence from the last line that has some. Words that say that
/// there is none end it.
pub proof fn law_lesson_is_taken(text: Seq<char>, i: int, j: int)
    requires
        !contains_text(text, "NO_LESSON"@),
        0 <= i < lines(text).len(),
        0 <= j < lines(text).len(),
        value_on(lines(text)[i], "LESSON:"@) is Some,
        forall|k: int| i < k < lines(text).len() ==> value_on(#[trigger] lines(text)[k], "LESSON:"@) is None,
        value_on(lines(text)[j], "EVIDENCE:"@) is Some,
        forall|k: int| j < k < lines(text).len() ==> value_on(#[trigger] lines(text)[k], "EVIDENCE:"@) is None,
    ensures
        reflected(text) == Some(
            (value_on(lines(text)[i], "LESSON:"@)->0, value_on(lines(text)[j], "EVIDENCE:"@)->0),
        ),
{
    lemma_last_lesson(lines(text), i);
    lemma_last_evidence(lines(text), j);
}

proof fn lemma_last_lesson(ls: Seq<Seq<char>>, i: int)
    requires
        0 <= i < ls.len(),
        value_on(ls[i], "LESSON:"@) is Some,
        forall|k: int| i < k < ls.len() ==> value_on(#[trigger] ls[k], "LESSON:"@) is None,
    ensures
        last_lesson(ls) == value_on(ls[i], "LESSON:"@),
    decreases ls.len(),
{
    if i < ls.len() - 1 {
        assert(value_on(ls[ls.len() - 1], "LESSON:"@) is None);
        lemma_last_lesson(ls.drop_last(), i);
    }
}

proof fn lemma_last_evidence(ls: Seq<Seq<char>>, i: int)
    requires
        0 <= i < ls.len(),
        value_on(ls[i], "EVIDENCE:"@) is Some,
        forall|k: int| i < k < ls.len() ==> value_on(#[trigger] ls[k], "EVIDENCE:"@) is None,
    ensures
        last_evidence(ls) == value_on(ls[i], "EVIDENCE:"@),
    decreases ls.len(),
{
    if i < ls.len() - 1 {
        assert(value_on(ls[ls.len() - 1], "EVIDENCE:"@) is None);
        lemma_last_evidence(ls.drop_last(), i);
    }
}

/// A line with a key and a plain value behind it has that value.
pub proof fn law_value_behind_a_key(key: Seq<char>, v: Seq<char>)
    requires
        key.len() > 0,
        v.len() > 0,
        trim(key + " "@ + v) == key + " "@ + v,
        trim(" "@ + v) == v,
        strip_both(v, '"') == v,
    ensures
        value_on(key + " "@ + v, key) == Some(v),
{
    let l = key + " "@ + v;
    assert(l.subrange(0, key.len() as int) =~= key);
    assert(l.skip(key.len() as int) =~= " "@ + v);
}

/// Nothing is learnt where the model says that there is no lesson.
pub proof fn law_no_lesson(text: Seq<char>)
    ensures
        contains_text(text, "NO_LESSON"@) ==> reflected(text) is None,
        (forall|k: int| 0 <= k < lines(text).len() ==> value_on(#[trigger] lines(text)[k], "LESSON:"@) is None)
            ==> reflected(text) is None,
{
    if forall|k: int| 0 <= k < lines(text).len() ==> value_on(#[trigger] lines(text)[k], "LESSON:"@) is None {
        lemma_no_lesson(lines(text));
    }
}

proof fn lemma_no_lesson(ls: Seq<Seq<char>>)
    requires
        forall|k: int| 0 <= k < ls.len() ==> value_on(#[trigger] ls[k], "LESSON:"@) is None,
    ensures
        last_lesson(ls) is None,
    decreases ls.len(),
{
    if ls.len() > 0 {
        assert(value_on(ls[ls.len() - 1], "LESSON:"@) is None);
        assert forall|k: int| 0 <= k < ls.drop_last().len() implies value_on(
            #[trigger] ls.drop_last()[k],
            "LESSON:"@,
        ) is None by {
            assert(ls.drop_last()[k] == ls[k]);
        }
        lemma_no_lesson(ls.drop_last());
    }
}

/// The name of a drafted skill is the first in the draft that begins with
/// `auto-` and is made of letters, digits and hyphens.
pub proof fn law_draft_is_named(ls: Seq<Seq<char>>, i: int)
    requires
        0 <= i < ls.len(),
        draft_name_on(ls[i]) is Some,
        forall|k: int| 0 <= k < i ==> draft_name_on(#[trigger] ls[k]) is None,
    ensures
        draft_name_among(ls) == draft_name_on(ls[i]),
        occurs_at(draft_name_among(ls)->0, "auto-"@, 0),
        after_prefix(trim(ls[i]), "name:"@) matches Some(v) && trim(v) == draft_name_among(ls)->0,
    decreases ls.len(),
{
    if i > 0 {
        assert(draft_name_on(ls[0]) is None);
        let t = ls.drop_first();
        assert forall|k: int| 0 <= k < i - 1 implies draft_name_on(#[trigger] t[k]) is None by {
            assert(t[k] == ls[k + 1]);
        }
        law_draft_is_named(t, i - 1);
    }
}

/// A goal that is new or another one is told, with its start; one that stays is
/// not.
pub proof fn law_goal_changes_are_told(a: Option<Seq<char>>, g: Seq<char>)
    ensures
        goal_change(a, Some(g)) is Some <==> a != Some(g),
        goal_change(a, None) is None,
        a != Some(g) && g.len() <= 80 ==> contains_text(goal_change(a, Some(g))->0, g),
        a != Some(g) && g.len() > 80 ==> contains_text(goal_change(a, Some(g))->0, g.take(80)),
        goal_change(a, Some(g)) matches Some(t) ==> (if a is None {
            occurs_at(t, "目标已设定："@, 0)
        } else {
            occurs_at(t, "目标已更新："@, 0)
        }),
{
    broadcast use group_holds;

    let x = "目标已设定："@ + head(g, 80);
    let y = "目标已更新："@ + head(g, 80);
    assert(x.subrange(0, "目标已设定："@.len() as int) =~= "目标已设定："@);
    assert(y.subrange(0, "目标已更新："@.len() as int) =~= "目标已更新："@);
}

/// The skills that are new are those that were not there before, in their order.
pub proof fn law_new_skills(before: Seq<Seq<char>>, after: Seq<Seq<char>>)
    ensures
        new_names(before, after) == after.filter(|n: Seq<char>| !before.contains(n)),
    decreases after.len(),
{
    reveal(Seq::filter);
    if after.len() > 0 {
        law_new_skills(before, after.drop_last());
    }
    assert(new_names(before, after) =~= after.filter(|n: Seq<char>| !before.contains(n)));
}

/// An event of growth is written with each of its members under its name, and
/// is read from there.
pub proof fn law_growth_event_has_its_members(e: GrowthView, v: JsonView)
    ensures
        growth_form(e).get_u64("ts"@) == Some(e.ts),
        growth_form(e).get_str("kind"@) == Some(e.kind),
        growth_form(e).get_str("content"@) == Some(e.content),
        growth_form(e).get_str("evidence"@) == Some(e.evidence),
        growth_form(e).get_str("session_id"@) == Some(e.session_id),
        v is Obj ==> (growth_of_form(v) matches Some(x) ==> v.get_u64("ts"@) == Some(x.ts) && v.get_str("kind"@)
            == Some(x.kind) && v.get_str("content"@) == Some(x.content) && v.get_str("evidence"@) == Some(x.evidence)
            && v.get_str("session_id"@) == Some(x.session_id)),
{
    reveal_strlit("ts");
    reveal_strlit("kind");
    reveal_strlit("content");
    reveal_strlit("evidence");
    reveal_strlit("session_id");
    assert("ts"@.len() != "kind"@.len());
    assert("ts"@.len() != "content"@.len());
    assert("ts"@.len() != "evidence"@.len());
    assert("ts"@.len() != "session_id"@.len());
    assert("kind"@.len() != "content"@.len());
    assert("kind"@.len() != "evidence"@.len());
    assert("kind"@.len() != "session_id"@.len());
    assert("content"@.len() != "evidence"@.len());
    assert("content"@.len() != "session_id"@.len());
    assert("evidence"@.len() != "session_id"@.len());
}

/// The log is read line by line, and of what was read the last events are
/// given, in their order.
pub proof fn law_log_is_read_by_lines(a: Seq<Seq<char>>, b: Seq<Seq<char>>, v: Seq<GrowthView>, n: nat)
    ensures
        growth_lines(a + b) == growth_lines(a) + growth_lines(b),
        latest(v, n).len() == (if v.len() <= n {
            v.len()
        } else {
            n
        }),
        forall|i: int|
            0 <= i < latest(v, n).len() ==> (#[trigger] latest(v, n)[i]) == v[v.len() - latest(v, n).len() + i],
    decreases b.len(),
{
    if b.len() == 0 {
        assert(a + b =~= a);
        assert(growth_lines(a) + growth_lines(b) =~= growth_lines(a));
    } else {
        assert((a + b).drop_last() =~= a + b.drop_last());
        assert((a + b).last() == b.last());
        law_log_is_read_by_lines(a, b.drop_last(), v, n);
        match growth_on(b.last()) {
            Some(e) => {
                assert((growth_lines(a) + growth_lines(b.drop_last())).push(e) =~= growth_lines(a) + growth_lines(
                    b.drop_last(),
                ).push(e));
            },
            None => {},
        }
    }
}

/// What is known of a skill's use is what stands first under its name.
pub proof fn law_use_of_a_skill(v: Seq<(String, SkillUseStat)>, i: int)
    requires
        0 <= i < v.len(),
        forall|j: int| 0 <= j < i ==> (#[trigger] v[j]).0@ != v[i].0@,
    ensures
        use_of(v, v[i].0@) == Some(v[i].1),
    decreases v.len(),
{
    if i > 0 {
        assert(v[0].0@ != v[i].0@);
        let t = v.drop_first();
        assert(t[i - 1] == v[i]);
        assert forall|j: int| 0 <= j < i - 1 implies (#[trigger] t[j]).0@ != t[i - 1].0@ by {
            assert(v[j + 1] == t[j]);
        }
        law_use_of_a_skill(t, i - 1);
    }
}

/// Of a skill whose name stands nowhere, no use is known.
pub proof fn law_no_use_of_a_skill(v: Seq<(String, SkillUseStat)>, name: Seq<char>)
    requires
        forall|j: int| 0 <= j < v.len() ==> (#[trigger] v[j]).0@ != name,
    ensures
        use_of(v, name) is None,
    decreases v.len(),
{
    if v.len() > 0 {
        assert(v[0].0@ != name);
        let t = v.drop_first();
        assert forall|j: int| 0 <= j < t.len() implies (#[trigger] t[j]).0@ != name by {
            assert(v[j + 1] == t[j]);
        }
        law_no_use_of_a_skill(t, name);
    }
}

/// A lesson fits where it is like one of the lessons there, and nowhere else.
pub proof fn law_where_a_lesson_fits(cluster: Seq<Seq<char>>, lesson: Seq<char>, i: int)
    ensures
        0 <= i < cluster.len() && alike(lesson, cluster[i]) ==> fits(cluster, lesson),
        (forall|j: int| 0 <= j < cluster.len() ==> !alike(lesson, #[trigger] cluster[j])) ==> !fits(cluster, lesson),
{
}

/// An event of growth that is given as a list is read as the same event.
pub proof fn law_growth_event_is_read_from_a_list(e: GrowthView)
    ensures
        growth_of_form(
            JsonView::Arr(
                seq![
                    JsonView::Uint(e.ts),
                    JsonView::Str(e.kind),
                    JsonView::Str(e.content),
                    JsonView::Str(e.evidence),
                    JsonView::Str(e.session_id),
                ],
            ),
        ) == Some(e),
{
}

/// What is recorded of the agent itself: the files that are there, and never
/// without the list of what is left out.
pub proof fn law_what_is_recorded(skills: bool, goal: bool, soul: bool)
    ensures
        ({
            let f = files_to_add(skills, goal, soul);
            &&& f.len() > 0 && f.last() == ".gitignore"@
            &&& skills ==> f.contains("skills"@)
            &&& goal ==> f.contains("GOAL.md"@)
            &&& soul ==> f.contains("SOUL.md"@)
            &&& f.len() == 1 + (if skills {
                1int
            } else {
                0
            }) + (if goal {
                1int
            } else {
                0
            }) + (if soul {
                1int
            } else {
                0
            })
        }),
{
    let f = files_to_add(skills, goal, soul);
    if skills {
        assert(f[0] == "skills"@);
    }
    if goal {
        assert(f[if skills {
            1int
        } else {
            0
        }] == "GOAL.md"@);
    }
    if soul {
        assert(f[f.len() - 2] == "SOUL.md"@);
    }
}

/// A line of the log is the event that it holds; one that holds none is passed
/// over.
pub proof fn law_line_of_the_log(line: Seq<char>)
    ensures
        json_parsed(line) is Ok && growth_of_form(json_parsed(line)->Ok_0) is Some
            ==> growth_lines(seq![line]) == seq![growth_of_form(json_parsed(line)->Ok_0)->Some_0],
        json_parsed(line) is Err || growth_of_form(json_parsed(line)->Ok_0) is None ==> growth_lines(seq![line]).len() == 0,
        growth_lines(Seq::empty()).len() == 0,
{
    let none = Seq::<Seq<char>>::empty();
    assert(seq![line].drop_last() =~= none);
    assert(growth_lines(none) =~= Seq::<GrowthView>::empty());
    assert(seq![line].last() == line);
    if growth_on(line) is Some {
        assert(growth_lines(seq![line]) =~= seq![growth_on(line)->Some_0]);
    }
}

} // verus!
