//! The sandbox: where its files lie, what it runs, and how its settings are
//! written down.

use vstd::prelude::*;

use crate::config::Config;
use crate::namespaces::{
    applets, device_number, exec_code, first_place, following, step_action, told, under, SandboxAction, SandboxStep,
    OUTPUT_LIMIT,
};
use crate::persist::{
    begins, debug_text, file_of, in_model_part, in_sandbox, is_header, is_sandbox_header, key_on, model_header,
    model_part_end, model_section, pair_texts, profile_line_at, rebuilt_section, run_args, run_env, sandbox_header,
    session_file, session_model, setting, value_for, with_profile, with_sandbox,
};
use crate::text::{
    contains_text, dec, dec_int, first_index, join, lines, occurs_at, trim, trim_end, trim_start, utf8_len,
};

use super::{group_holds, in_order, lemma_join_in_order, lemma_order_right};

verus! {

/// The busybox that is used is the first that is there.
pub proof fn law_first_busybox(present: Seq<bool>, i: int)
    requires
        0 <= i < present.len(),
        i < 3,
        present[i],
        forall|j: int| 0 <= j < i ==> !#[trigger] present[j],
    ensures
        first_place(present) == Some(seq!["/usr/bin/busybox"@, "/bin/busybox"@, "/usr/local/bin/busybox"@][i]),
{
    if i > 0 {
        assert(!present[0]);
    }
    if i > 1 {
        assert(!present[1]);
    }
}

/// Where no busybox is there, none is used.
pub proof fn law_no_busybox(present: Seq<bool>)
    requires
        forall|j: int| 0 <= j < present.len() ==> !#[trigger] present[j],
    ensures
        first_place(present) is None,
{
}

/// Every name lies in the directory.
pub proof fn law_every_name_lies_in_the_directory(dir: Seq<char>, names: Seq<Seq<char>>, i: int)
    requires
        0 <= i < names.len(),
        dir.len() > 0,
        dir.last() != '/',
        names[i].len() > 0,
        names[i][0] != '/',
    ensures
        under(dir, names).len() == names.len(),
        under(dir, names)[i] == dir + "/"@ + names[i],
{
    reveal_strlit("/");
    assert(under(dir, names)[i] =~= dir + "/"@ + names[i]);
}

/// The shell and the usual tools are among the programs of a sandbox.
pub proof fn law_programs_of_a_sandbox()
    ensures
        applets().len() == 23,
        applets().contains("sh"@),
        applets().contains("ls"@),
        applets().contains("cat"@),
        applets().contains("grep"@),
{
    let a = applets();
    assert(a[0] == "sh"@);
    assert(a[2] == "ls"@);
    assert(a[3] == "cat"@);
    assert(a[11] == "grep"@);
}

/// A device's number holds both its parts.
pub proof fn law_device_number_has_both_parts(major: int, minor: int)
    requires
        0 <= major,
        0 <= minor < 256,
    ensures
        device_number(major, minor) / 256 == major,
        device_number(major, minor) % 256 == minor,
{
}

/// The order of the steps into a sandbox.
pub open spec fn steps() -> Seq<SandboxStep> {
    seq![
        SandboxStep::NewUser,
        SandboxStep::DenyGroups,
        SandboxStep::UserMap,
        SandboxStep::GroupMap,
        SandboxStep::NewSpaces,
        SandboxStep::PrivateMounts,
        SandboxStep::BindWork,
        SandboxStep::Fork,
        SandboxStep::MountProc,
        SandboxStep::ChangeRoot,
        SandboxStep::ChangeDir,
        SandboxStep::Execute,
    ]
}

/// The steps come one after the other.
pub proof fn law_steps_come_in_order(i: int, errno: Option<i32>)
    requires
        0 <= i < 11,
    ensures
        following(steps()[i]) == steps()[i + 1],
        step_action(steps()[i], true, errno) == SandboxAction::Next(steps()[i + 1]),
{
}

/// A step that fails ends the way in; only that the groups could not be denied
/// is passed over. What fails inside is told by the code of the process.
pub proof fn law_failed_steps(i: int, errno: Option<i32>)
    requires
        0 <= i < 12,
    ensures
        ({
            let a = step_action(steps()[i], false, errno);
            &&& i == 1 ==> a == SandboxAction::Next(SandboxStep::UserMap)
            &&& i == 0 || 2 <= i <= 7 ==> a == SandboxAction::Fail
            &&& i == 8 ==> a == SandboxAction::Exit(125)
            &&& 9 <= i <= 10 ==> a == SandboxAction::Exit(126)
            &&& i == 11 ==> a is Exit
        }),
{
}

/// The code of a command that could not be started tells why, as far as the
/// codes reach.
pub proof fn law_code_tells_why(e: i32)
    ensures
        e < 90 ==> exec_code(Some(e)) == 160 + e,
        e >= 90 ==> exec_code(Some(e)) == 250,
        exec_code(None) == 250,
{
}

/// An output that is not too long is told whole, and the code behind it.
pub proof fn law_output_is_told(s: Seq<char>, cut: Seq<char>, code: int)
    ensures
        utf8_len(s) <= 65536 ==> told(s, cut, code) == s + "\nexit_code="@ + dec_int(code) + "\n"@,
        utf8_len(s) > 65536 ==> told(s, cut, code) == cut + "\n...(输出截断)"@ + "\nexit_code="@ + dec_int(code) + "\n"@,
{
    assert(told(s, cut, code) =~= (if utf8_len(s) <= OUTPUT_LIMIT {
        s
    } else {
        cut + "\n...(输出截断)"@
    }) + "\nexit_code="@ + dec_int(code) + "\n"@);
}

/// A file holds its lines in order, and ends with a line feed.
pub proof fn law_file_holds_its_lines(ls: Seq<Seq<char>>)
    ensures
        in_order(file_of(ls), ls),
        file_of(ls).len() > 0,
        file_of(ls).last() == '\n',
        file_of(ls).len() <= join(ls, "\n"@).len() + 1,
{
    lemma_join_in_order(ls, "\n"@);
    let s = join(ls, "\n"@);
    lemma_order_right(s, seq!['\n'], ls);
    assert(s.push('\n') =~= s + seq!['\n']);
}

/// The section of the model begins with its first line.
pub proof fn law_first_model_line(ls: Seq<Seq<char>>, from: int)
    requires
        0 <= from <= ls.len(),
    ensures
        from <= model_header(ls, from) <= ls.len(),
        model_header(ls, from) < ls.len() ==> occurs_at(trim_start(ls[model_header(ls, from)]), "[model]"@, 0),
        forall|i: int| from <= i < model_header(ls, from) ==> !occurs_at(trim_start(#[trigger] ls[i]), "[model]"@, 0),
    decreases ls.len() - from,
{
    if from < ls.len() && !begins(ls[from], "[model]"@) {
        law_first_model_line(ls, from + 1);
    }
}

/// The line of the profile is the first such line of the section.
pub proof fn law_first_profile_line(ls: Seq<Seq<char>>, from: int)
    requires
        0 <= from <= ls.len(),
    ensures
        match profile_line_at(ls, from) {
            Some(k) => {
                &&& from <= k < ls.len()
                &&& occurs_at(trim_start(ls[k]), "active_profile"@, 0)
                &&& forall|i: int|
                    from <= i < k ==> !occurs_at(trim_start(#[trigger] ls[i]), "active_profile"@, 0) && !occurs_at(
                        trim_start(ls[i]),
                        "["@,
                        0,
                    )
            },
            None => forall|i: int|
                #![trigger ls[i]]
                from <= i < ls.len() && occurs_at(trim_start(ls[i]), "active_profile"@, 0) && !occurs_at(
                    trim_start(ls[i]),
                    "["@,
                    0,
                ) ==> exists|j: int| from <= j < i && occurs_at(trim_start(#[trigger] ls[j]), "["@, 0),
        },
    decreases ls.len() - from,
{
    if from < ls.len() && !begins(ls[from], "["@) && !begins(ls[from], "active_profile"@) {
        law_first_profile_line(ls, from + 1);
    } else if from < ls.len() && begins(ls[from], "["@) {
        assert forall|i: int|
            #![trigger ls[i]]
            from <= i < ls.len() && occurs_at(trim_start(ls[i]), "active_profile"@, 0) && !occurs_at(
                trim_start(ls[i]),
                "["@,
                0,
            ) implies exists|j: int| from <= j < i && occurs_at(trim_start(#[trigger] ls[j]), "["@, 0) by {
            assert(occurs_at(trim_start(ls[from]), "["@, 0));
        }
    }
}

/// The profile is written into the section of the model: into its line, or
/// into a new one behind the first. All other lines stay.
pub proof fn law_profile_is_written(ls: Seq<Seq<char>>, name: Seq<char>)
    requires
        model_header(ls, 0) < ls.len(),
    ensures
        ({
            let h = model_header(ls, 0);
            let line = "active_profile = \""@ + name + "\""@;
            let r = with_profile(ls, name);
            match profile_line_at(ls, h + 1) {
                Some(k) => r == ls.take(k).push(line) + ls.skip(k + 1),
                None => r == ls.take(h + 1).push(line) + ls.skip(h + 1),
            }
        }),
{
    let h = model_header(ls, 0);
    law_first_model_line(ls, 0);
    law_first_profile_line(ls, h + 1);
    let line = "active_profile = \""@ + name + "\""@;
    match profile_line_at(ls, h + 1) {
        Some(k) => {
            assert(with_profile(ls, name) =~= ls.take(k).push(line) + ls.skip(k + 1));
        },
        None => {
            assert(with_profile(ls, name) =~= ls.take(h + 1).push(line) + ls.skip(h + 1));
        },
    }
}

/// A key has the value that stands first beside it.
pub proof fn law_value_of_a_key(vals: Seq<(Seq<char>, Seq<char>)>, i: int)
    requires
        0 <= i < vals.len(),
        forall|j: int| 0 <= j < i ==> (#[trigger] vals[j]).0 != vals[i].0,
    ensures
        value_for(vals, vals[i].0) == Some(vals[i].1),
    decreases vals.len(),
{
    if i > 0 {
        assert(vals[0].0 != vals[i].0);
        let t = vals.drop_first();
        assert(t[i - 1] == vals[i]);
        assert forall|j: int| 0 <= j < i - 1 implies (#[trigger] t[j]).0 != t[i - 1].0 by {
            assert(vals[j + 1] == t[j]);
        }
        law_value_of_a_key(t, i - 1);
    }
}

/// A key that stands nowhere has no value.
pub proof fn law_no_value(vals: Seq<(Seq<char>, Seq<char>)>, key: Seq<char>)
    requires
        forall|j: int| 0 <= j < vals.len() ==> (#[trigger] vals[j]).0 != key,
    ensures
        value_for(vals, key) is None,
    decreases vals.len(),
{
    if vals.len() > 0 {
        assert(vals[0].0 != key);
        let t = vals.drop_first();
        assert forall|j: int| 0 <= j < t.len() implies (#[trigger] t[j]).0 != key by {
            assert(vals[j + 1] == t[j]);
        }
        law_no_value(t, key);
    }
}

/// The key on a line is what stands before its first sign of equality.
pub proof fn law_key_on_a_line(line: Seq<char>, k: int)
    ensures
        !trim_start(line).contains('=') ==> key_on(line) is None,
        0 <= k < trim_start(line).len() && trim_start(line)[k] == '=' && (forall|j: int|
            0 <= j < k ==> #[trigger] trim_start(line)[j] != '=') ==> key_on(line) == Some(trim(trim_start(line).take(k))),
{
    let t = trim_start(line);
    crate::text::lemma_first_index(t, '=');
    let i = first_index(t, '=');
    if i < t.len() {
        assert(t[i] == '=');
    }
}

/// A setting is its key, a sign of equality and its value.
pub proof fn law_setting_is_written(key: Seq<char>, val: Seq<char>)
    ensures
        setting(key, val) == key + " = "@ + val,
{
}

/// A line belongs to the section of the sandbox where the nearest header above
/// it is that of the sandbox.
pub proof fn law_section_of_a_line(ls: Seq<Seq<char>>, n: int)
    requires
        0 <= n <= ls.len(),
    ensures
        in_sandbox(ls, n) <==> exists|h: int|
            {
                &&& 0 <= h < n
                &&& trim_start(#[trigger] ls[h]) == "[sandbox]"@
                &&& forall|j: int| h < j < n ==> !occurs_at(trim_start(#[trigger] ls[j]), "["@, 0)
            },
    decreases n,
{
    reveal_strlit("[");
    reveal_strlit("[sandbox]");
    let own = "[sandbox]"@;
    assert(own.subrange(0, 1) =~= "["@);
    assert(occurs_at(own, "["@, 0));
    if n > 0 {
        law_section_of_a_line(ls, n - 1);
        let last = ls[n - 1];
        if is_header(last) {
            if is_sandbox_header(last) {
                assert(trim_start(ls[n - 1]) == own);
            } else {
                assert(occurs_at(trim_start(ls[n - 1]), "["@, 0));
                assert forall|h: int| 0 <= h < n && trim_start(#[trigger] ls[h]) == own implies exists|j: int|
                    h < j < n && occurs_at(trim_start(#[trigger] ls[j]), "["@, 0) by {
                    assert(h < n - 1);
                    assert(occurs_at(trim_start(ls[n - 1]), "["@, 0));
                }
            }
        } else {
            assert(!occurs_at(trim_start(ls[n - 1]), "["@, 0));
            if in_sandbox(ls, n - 1) {
                let h = choose|h: int|
                    {
                        &&& 0 <= h < n - 1
                        &&& trim_start(#[trigger] ls[h]) == own
                        &&& forall|j: int| h < j < n - 1 ==> !occurs_at(trim_start(#[trigger] ls[j]), "["@, 0)
                    };
                assert(trim_start(ls[h]) == own);
                assert forall|j: int| h < j < n implies !occurs_at(trim_start(#[trigger] ls[j]), "["@, 0) by {
                    if j == n - 1 {
                    }
                }
            }
        }
    }
}

/// The section of the sandbox begins with its first line.
pub proof fn law_first_sandbox_line(ls: Seq<Seq<char>>, from: int)
    requires
        0 <= from <= ls.len(),
    ensures
        from <= sandbox_header(ls, from) <= ls.len(),
        sandbox_header(ls, from) < ls.len() ==> trim_start(ls[sandbox_header(ls, from)]) == "[sandbox]"@,
        forall|i: int| from <= i < sandbox_header(ls, from) ==> trim_start(#[trigger] ls[i]) != "[sandbox]"@,
    decreases ls.len() - from,
{
    reveal_strlit("[");
    reveal_strlit("[sandbox]");
    let own = "[sandbox]"@;
    assert(own.subrange(0, 1) =~= "["@);
    assert(occurs_at(own, "["@, 0));
    if from < ls.len() {
        law_first_sandbox_line(ls, from + 1);
    }
}

/// A setting that stood in the section is written in its place; a line that
/// sets nothing known stays as it is, wherever it stands.
pub proof fn law_lines_outside_stay(ls: Seq<Seq<char>>, vals: Seq<(Seq<char>, Seq<char>)>, i: int)
    requires
        0 <= i < ls.len(),
        !in_sandbox(ls, i) || occurs_at(trim_start(ls[i]), "["@, 0) || !trim_start(ls[i]).contains('='),
    ensures
        with_sandbox(ls, vals).contains(ls[i]),
{
    law_key_on_a_line(ls[i], 0);
    crate::persist::law_other_lines_stay(ls, vals, i);
}

/// The lines of the model's section are those from its first line up to the
/// next section of something else.
pub proof fn law_end_of_the_model(ls: Seq<Seq<char>>, from: int)
    requires
        0 <= from <= ls.len(),
    ensures
        ({
            let end = model_part_end(ls, from);
            &&& from <= end <= ls.len()
            &&& end < ls.len() ==> ({
                let t = trim_start(ls[end]);
                occurs_at(t, "["@, 0) && !occurs_at(t, "[model"@, 0)
            })
            &&& forall|i: int|
                #![trigger ls[i]]
                from <= i < end ==> ({
                    let t = trim_start(ls[i]);
                    !occurs_at(t, "["@, 0) || occurs_at(t, "[model"@, 0)
                })
        }),
    decreases ls.len() - from,
{
    reveal_strlit("[");
    reveal_strlit("#");
    if from < ls.len() {
        let t = trim_start(ls[from]);
        if occurs_at(t, "["@, 0) {
            assert(t.subrange(0, 1)[0] == t[0]);
            assert("["@[0] == '[');
            assert(t[0] == '[');
        }
        if occurs_at(t, "#"@, 0) {
            assert(t.subrange(0, 1)[0] == t[0]);
            assert("#"@[0] == '#');
            assert(t[0] == '#');
        }
        if in_model_part(ls[from]) {
            law_end_of_the_model(ls, from + 1);
        }
    }
}

/// A sandbox gets every line of the section of the model, and no other.
pub proof fn law_section_of_the_model(content: Seq<char>)
    ensures
        ({
            let ls = lines(content);
            let a = model_header(ls, 0);
            let b = model_part_end(ls, a);
            &&& 0 <= a <= b <= ls.len()
            &&& in_order(model_section(content), ls.subrange(a, b))
            &&& model_section(content) == join(ls.subrange(a, b), "\n"@)
        }),
{
    let ls = lines(content);
    law_first_model_line(ls, 0);
    let a = model_header(ls, 0);
    law_end_of_the_model(ls, a);
    lemma_join_in_order(ls.subrange(a, model_part_end(ls, a)), "\n"@);
}

/// A section that is written anew holds the address, the key and the model of
/// the provider in use.
pub proof fn law_section_is_written_anew(c: Config)
    ensures
        c.model.provider@ == "openai_compat"@ ==> ({
            let t = rebuilt_section(c)->Some_0;
            &&& rebuilt_section(c) is Some
            &&& contains_text(t, "base_url = \""@ + c.model.openai_compat.base_url@ + "\"\n"@)
            &&& contains_text(t, "api_key = \""@ + c.model.openai_compat.api_key@ + "\"\n"@)
            &&& contains_text(t, "model = \""@ + c.model.openai_compat.model@ + "\"\n"@)
            &&& contains_text(t, "provider = \"openai_compat\"\n[model.openai_compat]"@)
        }),
        c.model.provider@ == "anthropic"@ ==> ({
            let t = rebuilt_section(c)->Some_0;
            &&& rebuilt_section(c) is Some
            &&& contains_text(t, "base_url = \""@ + c.model.anthropic.base_url@ + "\"\n"@)
            &&& contains_text(t, "api_key = \""@ + c.model.anthropic.api_key@ + "\"\n"@)
            &&& contains_text(t, "model = \""@ + c.model.anthropic.model@ + "\"\n"@)
            &&& contains_text(t, "provider = \"anthropic\"\n[model.anthropic]"@)
        }),
        c.model.provider@ != "openai_compat"@ && c.model.provider@ != "anthropic"@ ==> rebuilt_section(c) is None,
{
    let start = "[model]\n"@;
    let one = "provider = \"openai_compat\"\n[model.openai_compat]"@;
    let two = "provider = \"anthropic\"\n[model.anthropic]"@;
    assert("anthropic"@ != "openai_compat"@) by {
        reveal_strlit("anthropic");
        reveal_strlit("openai_compat");
        assert("anthropic"@.len() != "openai_compat"@.len());
    }
    lemma_section_pieces();
    if c.model.provider@ == "openai_compat"@ {
        let o = c.model.openai_compat;
        lemma_section_text(start, one, o.base_url@, o.api_key@, o.model@);
        lemma_section_regrouped(start + one + "\n"@, o.base_url@, o.api_key@, o.model@);
    } else if c.model.provider@ == "anthropic"@ {
        let o = c.model.anthropic;
        lemma_section_text(start, two, o.base_url@, o.api_key@, o.model@);
        lemma_section_regrouped(start + two + "\n"@, o.base_url@, o.api_key@, o.model@);
    }
}

proof fn lemma_section_pieces()
    ensures
        "[model]\nprovider = \"openai_compat\"\n[model.openai_compat]\nbase_url = \""@ == "[model]\n"@
            + "provider = \"openai_compat\"\n[model.openai_compat]"@ + "\n"@ + "base_url = \""@,
        "[model]\nprovider = \"anthropic\"\n[model.anthropic]\nbase_url = \""@ == "[model]\n"@
            + "provider = \"anthropic\"\n[model.anthropic]"@ + "\n"@ + "base_url = \""@,
        "\"\napi_key = \""@ == "\"\n"@ + "api_key = \""@,
        "\"\nmodel = \""@ == "\"\n"@ + "model = \""@,
{
    let start = "[model]\n"@;
    let one = "provider = \"openai_compat\"\n[model.openai_compat]"@;
    let two = "provider = \"anthropic\"\n[model.anthropic]"@;
    let base = "base_url = \""@;
    let key = "api_key = \""@;
    let model = "model = \""@;
    let end = "\"\n"@;
    assert("[model]\nprovider = \"openai_compat\"\n[model.openai_compat]\nbase_url = \""@ =~= start + one + "\n"@ + base)
        by {
        reveal_strlit("[model]\nprovider = \"openai_compat\"\n[model.openai_compat]\nbase_url = \"");
        reveal_strlit("[model]\n");
        reveal_strlit("provider = \"openai_compat\"\n[model.openai_compat]");
        reveal_strlit("\n");
        reveal_strlit("base_url = \"");
    }
    assert("[model]\nprovider = \"anthropic\"\n[model.anthropic]\nbase_url = \""@ =~= start + two + "\n"@ + base) by {
        reveal_strlit("[model]\nprovider = \"anthropic\"\n[model.anthropic]\nbase_url = \"");
        reveal_strlit("[model]\n");
        reveal_strlit("provider = \"anthropic\"\n[model.anthropic]");
        reveal_strlit("\n");
        reveal_strlit("base_url = \"");
    }
    assert("\"\napi_key = \""@ =~= end + key) by {
        reveal_strlit("\"\napi_key = \"");
        reveal_strlit("\"\n");
        reveal_strlit("api_key = \"");
    }
    assert("\"\nmodel = \""@ =~= end + model) by {
        reveal_strlit("\"\nmodel = \"");
        reveal_strlit("\"\n");
        reveal_strlit("model = \"");
    }
}

spec fn section_text(start: Seq<char>, head: Seq<char>, url: Seq<char>, key: Seq<char>, model: Seq<char>) -> Seq<char> {
    start + head + "\n"@ + ("base_url = \""@ + url + "\"\n"@) + ("api_key = \""@ + key + "\"\n"@) + ("model = \""@ + model
        + "\"\n"@)
}

proof fn lemma_section_regrouped(front: Seq<char>, url: Seq<char>, key: Seq<char>, model: Seq<char>)
    ensures
        front + "base_url = \""@ + url + ("\"\n"@ + "api_key = \""@) + key + ("\"\n"@ + "model = \""@) + model + "\"\n"@
            == front + ("base_url = \""@ + url + "\"\n"@) + ("api_key = \""@ + key + "\"\n"@) + ("model = \""@ + model
            + "\"\n"@),
{
    let end = "\"\n"@;
    let b = "base_url = \""@;
    let k = "api_key = \""@;
    let m = "model = \""@;
    let first = front + (b + url + end);
    let second = first + (k + key + end);
    assert(front + b + url + (end + k) =~= first + k);
    assert(first + k + key + (end + m) =~= second + m);
    assert(second + m + model + end =~= second + (m + model + end));
}

proof fn lemma_section_text(start: Seq<char>, head: Seq<char>, url: Seq<char>, key: Seq<char>, model: Seq<char>)
    ensures
        contains_text(section_text(start, head, url, key, model), head),
        contains_text(section_text(start, head, url, key, model), "base_url = \""@ + url + "\"\n"@),
        contains_text(section_text(start, head, url, key, model), "api_key = \""@ + key + "\"\n"@),
        contains_text(section_text(start, head, url, key, model), "model = \""@ + model + "\"\n"@),
{
    broadcast use group_holds;

}

/// A sandbox runs with the model of the file it was started with, or with the
/// one in use where there is none.
pub proof fn law_model_of_a_sandbox(c: Config, raw: Seq<char>)
    ensures
        session_model(c, Some(raw)) == Some(model_section(raw)),
        session_model(c, None) == rebuilt_section(c),
{
}

/// The configuration of a sandbox holds its model, its directory and its time
/// limit, and is strict.
pub proof fn law_configuration_of_a_sandbox(model: Seq<char>, dir: Seq<char>, secs: u64)
    ensures
        ({
            let t = session_file(model, dir, secs);
            &&& occurs_at(t, trim_end(model), 0)
            &&& contains_text(t, "[agent]\nwork_dir = "@ + debug_text(dir))
            &&& contains_text(t, "[sandbox]\nlevel = \"strict\"\n"@)
            &&& contains_text(t, "bash_timeout_secs = "@ + dec(secs as nat) + "\n"@)
        }),
{
    broadcast use group_holds;

    let t = session_file(model, dir, secs);
    let m = trim_end(model);
    let agent = "[agent]\nwork_dir = "@;
    let strict = "[sandbox]\nlevel = \"strict\"\n"@;
    let limit = "bash_timeout_secs = "@;
    assert("\n[agent]\nwork_dir = "@ =~= "\n"@ + agent) by {
        reveal_strlit("\n[agent]\nwork_dir = ");
        reveal_strlit("\n");
        reveal_strlit("[agent]\nwork_dir = ");
    }
    assert("\n\n[sandbox]\nlevel = \"strict\"\nmax_processes = 0\nbash_timeout_secs = "@ =~= "\n\n"@ + strict
        + "max_processes = 0\n"@ + limit) by {
        reveal_strlit("\n\n[sandbox]\nlevel = \"strict\"\nmax_processes = 0\nbash_timeout_secs = ");
        reveal_strlit("\n\n");
        reveal_strlit("[sandbox]\nlevel = \"strict\"\n");
        reveal_strlit("max_processes = 0\n");
        reveal_strlit("bash_timeout_secs = ");
    }
    let d = agent + debug_text(dir);
    let l = limit + dec(secs as nat) + "\n"@;
    let u = m + "\n"@ + "\n"@ + d + "\n\n"@ + strict + "max_processes = 0\n"@ + l;
    assert(t =~= u);
    assert(contains_text(u, d));
    assert(contains_text(u, strict));
    assert(contains_text(u, l));
    assert(t.subrange(0, m.len() as int) =~= m);
}

/// A sandbox is asked once, and with its own configuration.
pub proof fn law_what_a_sandbox_is_asked(prompt: Seq<char>, config: Seq<char>)
    ensures
        run_args(prompt, config).len() == 4,
        run_args(prompt, config)[0] == "--once"@,
        run_args(prompt, config)[1] == prompt,
        run_args(prompt, config)[2] == "--config"@,
        run_args(prompt, config)[3] == config,
{
}

/// The home of a sandbox is its directory, and it joins the group it was given.
pub proof fn law_surroundings_of_a_sandbox(dir: Seq<char>, term: Option<Seq<char>>, group: Option<Seq<char>>)
    ensures
        ({
            let e = run_env(dir, term, group);
            &&& value_for(e, "HOME"@) == Some(dir)
            &&& value_for(e, "PATH"@) == Some("/usr/local/bin:/usr/bin:/bin"@)
            &&& term is Some ==> value_for(e, "TERM"@) == term
            &&& term is None ==> value_for(e, "TERM"@) == Some("dumb"@)
            &&& value_for(e, "R2_CGROUP_JOIN"@) == group
            &&& e.len() == (if group is Some {
                4nat
            } else {
                3
            })
        }),
{
    reveal_strlit("PATH");
    reveal_strlit("HOME");
    reveal_strlit("TERM");
    reveal_strlit("R2_CGROUP_JOIN");
    assert("PATH"@[0] != "HOME"@[0]);
    assert("PATH"@[0] != "TERM"@[0]);
    assert("PATH"@.len() != "R2_CGROUP_JOIN"@.len());
    assert("HOME"@[0] != "TERM"@[0]);
    assert("HOME"@.len() != "R2_CGROUP_JOIN"@.len());
    assert("TERM"@.len() != "R2_CGROUP_JOIN"@.len());
    let e = run_env(dir, term, group);
    law_value_of_a_key(e, 0);
    law_value_of_a_key(e, 1);
    law_value_of_a_key(e, 2);
    if group is Some {
        law_value_of_a_key(e, 3);
    } else {
        law_no_value(e, "R2_CGROUP_JOIN"@);
    }
}

/// Pairs of texts are seen as they are.
pub proof fn law_pairs_are_their_texts(v: Seq<(String, String)>, i: int)
    requires
        0 <= i < v.len(),
    ensures
        pair_texts(v).len() == v.len(),
        pair_texts(v)[i] == (v[i].0@, v[i].1@),
{
}

} // verus!
