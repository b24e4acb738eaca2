//! Changes to configuration files that keep the user's lines: the chosen model
//! profile, the sandbox limits, and the file of a sandboxed session.

use vstd::prelude::*;

use crate::config::Config;
use crate::text::{
    chars_of, contains_string, contains_text, dec, dec_string, first_index, index_from, is_space, join,
    join_strings, lemma_first_index, lines, lines_of, occurs_at, slice_of, starts_with, str_eq, strs, trim, trim_end, trim_end_string,
    trim_start, trim_start_string, trim_string,
};
use crate::types::opt_view;

verus! {

/// The lines as a file: with a line feed at the end.
pub open spec fn file_of(ls: Seq<Seq<char>>) -> Seq<char> {
    let s = join(ls, "\n"@);
    if s.len() > 0 && s.last() == '\n' {
        s
    } else {
        s.push('\n')
    }
}

fn file_of_lines(ls: &Vec<String>) -> (r: String)
    ensures
        r@ == file_of(strs(ls@)),
{
    let mut s: String = join_strings(ls, "\n");
    let v: Vec<char> = chars_of(s.as_str());
    if v.len() == 0 || v[v.len() - 1] != '\n' {
        s.push('\n');
    }
    s
}

/// A line that begins with `pat`, white space aside.
pub open spec fn begins(line: Seq<char>, pat: Seq<char>) -> bool {
    occurs_at(trim_start(line), pat, 0)
}

fn line_begins(line: &str, pat: &str) -> (r: bool)
    ensures
        r == begins(line@, pat@),
{
    let t: String = trim_start_string(line);
    starts_with(t.as_str(), pat)
}

// ---------- the chosen model profile ----------

/// The position of the `[model]` header, or the length.
pub open spec fn model_header(ls: Seq<Seq<char>>, from: int) -> int
    decreases ls.len() - from,
{
    if from < 0 || from >= ls.len() {
        ls.len() as int
    } else if begins(ls[from], "[model]"@) {
        from
    } else {
        model_header(ls, from + 1)
    }
}

/// The position of the profile's line in the section that goes on at `from`,
/// if it is there: the section ends at the next header.
pub open spec fn profile_line_at(ls: Seq<Seq<char>>, from: int) -> Option<int>
    decreases ls.len() - from,
{
    if from < 0 || from >= ls.len() || begins(ls[from], "["@) {
        None
    } else if begins(ls[from], "active_profile"@) {
        Some(from)
    } else {
        profile_line_at(ls, from + 1)
    }
}

/// The line that names the profile.
pub open spec fn profile_line(name: Seq<char>) -> Seq<char> {
    "active_profile = \""@ + name + "\""@
}

/// The lines with the profile set: its line in the `[model]` section is
/// replaced, or one is added below the header. No other line changes.
pub open spec fn with_profile(ls: Seq<Seq<char>>, name: Seq<char>) -> Seq<Seq<char>> {
    let h = model_header(ls, 0);
    match profile_line_at(ls, h + 1) {
        Some(i) => ls.update(i, profile_line(name)),
        None => ls.insert(h + 1, profile_line(name)),
    }
}

fn find_model_header(ls: &Vec<String>) -> (r: usize)
    ensures
        r == model_header(strs(ls@), 0),
        r <= ls.len(),
{
    let ghost all = strs(ls@);
    let mut i: usize = 0;
    while i < ls.len()
        invariant
            i <= ls.len(),
            all == strs(ls@),
            model_header(all, 0) == model_header(all, i as int),
        decreases ls.len() - i,
    {
        assert(all[i as int] == ls@[i as int]@);
        if line_begins(ls[i].as_str(), "[model]") {
            return i;
        }
        i += 1;
    }
    i
}

fn find_profile_line(ls: &Vec<String>, from: usize) -> (r: Option<usize>)
    requires
        from <= ls.len(),
    ensures
        match r {
            Some(i) => profile_line_at(strs(ls@), from as int) == Some(i as int) && i < ls.len(),
            None => profile_line_at(strs(ls@), from as int) is None,
        },
{
    let ghost all = strs(ls@);
    let mut i: usize = from;
    while i < ls.len()
        invariant
            from <= i <= ls.len(),
            all == strs(ls@),
            profile_line_at(all, from as int) == profile_line_at(all, i as int),
        decreases ls.len() - i,
    {
        assert(all[i as int] == ls@[i as int]@);
        if line_begins(ls[i].as_str(), "[") {
            return None;
        }
        if line_begins(ls[i].as_str(), "active_profile") {
            return Some(i);
        }
        i += 1;
    }
    None
}

/// Sets the model profile in a configuration file: gives the new content.
pub fn persist_active_profile(content: &str, name: &str) -> (r: Result<String, String>)
    ensures
        match r {
            Ok(s) => {
                &&& model_header(lines(content@), 0) < lines(content@).len()
                &&& s@ == file_of(with_profile(lines(content@), name@))
            },
            Err(e) => {
                &&& model_header(lines(content@), 0) >= lines(content@).len()
                &&& e@ == "config.toml 缺 [model] 段，无法持久化 active_profile"@
            },
        },
{
    let mut ls: Vec<String> = lines_of(content);
    let ghost all = lines(content@);
    let h: usize = find_model_header(&ls);
    if h >= ls.len() {
        return Err("config.toml 缺 [model] 段，无法持久化 active_profile".to_string());
    }
    let mut line: String = "active_profile = \"".to_string();
    line.append(name);
    line.append("\"");
    match find_profile_line(&ls, h + 1) {
        Some(i) => {
            ls.set(i, line);
            assert(strs(ls@) =~= all.update(i as int, profile_line(name@)));
        },
        None => {
            ls.insert(h + 1, line);
            assert(strs(ls@) =~= all.insert(h as int + 1, profile_line(name@)));
        },
    }
    Ok(file_of_lines(&ls))
}

proof fn lemma_profile_line(name: Seq<char>)
    ensures
        begins(profile_line(name), "active_profile"@),
        !begins(profile_line(name), "["@),
{
    reveal_strlit("active_profile");
    reveal_strlit("active_profile = \"");
    reveal_strlit("[");
    let l = profile_line(name);
    assert(l[0] == 'a');
    assert(trim_start(l) == l);
    assert(l.subrange(0, 14) =~= "active_profile"@);
    assert(occurs_at(l, "active_profile"@, 0));
    assert(l.subrange(0, 1)[0] == 'a');
    assert(!occurs_at(l, "["@, 0));
}

/// Lines that agree up to a header have it at the same place.
proof fn lemma_same_header(ls: Seq<Seq<char>>, ms: Seq<Seq<char>>, from: int)
    requires
        0 <= from,
        model_header(ls, from) < ls.len(),
        ms.len() >= ls.len(),
        forall|i: int| from <= i <= model_header(ls, from) ==> #[trigger] ms[i] == ls[i],
    ensures
        model_header(ms, from) == model_header(ls, from),
        from <= model_header(ls, from),
    decreases ls.len() - from,
{
    if !begins(ls[from], "[model]"@) {
        lemma_same_header(ls, ms, from + 1);
    }
    assert(ms[from] == ls[from]);
}

/// A profile line that is found is still found when it is set anew.
proof fn lemma_same_profile(ls: Seq<Seq<char>>, from: int, line: Seq<char>)
    requires
        0 <= from,
        profile_line_at(ls, from) is Some,
        begins(line, "active_profile"@),
        !begins(line, "["@),
    ensures
        from <= profile_line_at(ls, from)->0 < ls.len(),
        profile_line_at(ls.update(profile_line_at(ls, from)->0, line), from) == profile_line_at(ls, from),
    decreases ls.len() - from,
{
    if !begins(ls[from], "active_profile"@) {
        lemma_same_profile(ls, from + 1, line);
    }
}

/// Setting the profile twice is the same as setting the second one: the line
/// that was set is found again, and no other line changes.
pub proof fn law_profile_is_replaced(ls: Seq<Seq<char>>, first: Seq<char>, second: Seq<char>)
    requires
        model_header(ls, 0) < ls.len(),
    ensures
        with_profile(with_profile(ls, first), second) == with_profile(ls, second),
        with_profile(ls, first).contains(profile_line(first)),
        forall|i: int|
            0 <= i <= model_header(ls, 0) ==> #[trigger] with_profile(ls, first)[i] == ls[i],
{
    lemma_profile_line(first);
    lemma_profile_line(second);
    let h = model_header(ls, 0);
    let ms = with_profile(ls, first);
    lemma_same_header(ls, ls, 0);
    match profile_line_at(ls, h + 1) {
        Some(i) => {
            lemma_same_profile(ls, h + 1, profile_line(first));
            assert forall|k: int| 0 <= k <= h implies #[trigger] ms[k] == ls[k] by {}
            lemma_same_header(ls, ms, 0);
            assert(ms[i] == profile_line(first));
            assert(ms.update(i, profile_line(second)) =~= ls.update(i, profile_line(second)));
        },
        None => {
            assert forall|k: int| 0 <= k <= h implies #[trigger] ms[k] == ls[k] by {}
            lemma_same_header(ls, ms, 0);
            assert(ms[h + 1] == profile_line(first));
            assert(profile_line_at(ms, h + 1) == Some(h + 1));
            assert(ms.update(h + 1, profile_line(second)) =~= ls.insert(h + 1, profile_line(second)));
        },
    }
}

// ---------- the sandbox limits ----------

/// The value that is to be set for a key, if any.
pub open spec fn value_for(vals: Seq<(Seq<char>, Seq<char>)>, key: Seq<char>) -> Option<Seq<char>>
    decreases vals.len(),
{
    if vals.len() == 0 {
        None
    } else if vals[0].0 == key {
        Some(vals[0].1)
    } else {
        value_for(vals.drop_first(), key)
    }
}

/// The key on a line: what stands before its first equals sign.
pub open spec fn key_on(line: Seq<char>) -> Option<Seq<char>> {
    let t = trim_start(line);
    let i = first_index(t, '=');
    if i < t.len() {
        Some(trim(t.take(i)))
    } else {
        None
    }
}

pub open spec fn is_header(line: Seq<char>) -> bool {
    begins(line, "["@)
}

pub open spec fn is_sandbox_header(line: Seq<char>) -> bool {
    trim_start(line) == "[sandbox]"@
}

/// Whether the line after the first `n` stands in a `[sandbox]` section.
pub open spec fn in_sandbox(ls: Seq<Seq<char>>, n: int) -> bool
    decreases n,
{
    if n <= 0 || n > ls.len() {
        false
    } else if is_header(ls[n - 1]) {
        is_sandbox_header(ls[n - 1])
    } else {
        in_sandbox(ls, n - 1)
    }
}

/// The key of line `i` that is to be set, if it is one.
pub open spec fn key_set_at(ls: Seq<Seq<char>>, vals: Seq<(Seq<char>, Seq<char>)>, i: int) -> Option<Seq<char>> {
    if is_header(ls[i]) || !in_sandbox(ls, i) {
        None
    } else {
        match key_on(ls[i]) {
            Some(k) => if value_for(vals, k) is Some {
                Some(k)
            } else {
                None
            },
            None => None,
        }
    }
}

pub open spec fn setting(key: Seq<char>, val: Seq<char>) -> Seq<char> {
    key + " = "@ + val
}

/// Line `i` with its value set, where it is one of the keys.
pub open spec fn line_set(ls: Seq<Seq<char>>, vals: Seq<(Seq<char>, Seq<char>)>, i: int) -> Seq<char> {
    match key_set_at(ls, vals, i) {
        Some(k) => setting(k, value_for(vals, k)->Some_0),
        None => ls[i],
    }
}

/// The lines with the values set that stand there already.
pub open spec fn lines_set(ls: Seq<Seq<char>>, vals: Seq<(Seq<char>, Seq<char>)>) -> Seq<Seq<char>> {
    Seq::new(ls.len(), |i: int| line_set(ls, vals, i))
}

/// A key stands in a `[sandbox]` section already.
pub open spec fn key_stands(ls: Seq<Seq<char>>, vals: Seq<(Seq<char>, Seq<char>)>, key: Seq<char>) -> bool {
    exists|i: int| 0 <= i < ls.len() && #[trigger] key_set_at(ls, vals, i) == Some(key)
}

/// The position of the first `[sandbox]` header from `from` on, or the length.
pub open spec fn sandbox_header(ls: Seq<Seq<char>>, from: int) -> int
    decreases ls.len() - from,
{
    if from < 0 || from >= ls.len() {
        ls.len() as int
    } else if is_header(ls[from]) && is_sandbox_header(ls[from]) {
        from
    } else {
        sandbox_header(ls, from + 1)
    }
}

/// The lines for the first `n` values whose keys do not stand yet.
pub open spec fn missing_settings(
    ls: Seq<Seq<char>>,
    vals: Seq<(Seq<char>, Seq<char>)>,
    n: int,
) -> Seq<Seq<char>>
    decreases n,
{
    if n <= 0 || n > vals.len() {
        Seq::empty()
    } else if key_stands(ls, vals, vals[n - 1].0) {
        missing_settings(ls, vals, n - 1)
    } else {
        missing_settings(ls, vals, n - 1).push(setting(vals[n - 1].0, vals[n - 1].1))
    }
}

/// The lines with the sandbox's values set: those that stand there are
/// replaced, the others are added below the header, which is added at the end
/// where there is none. No other line changes.
pub open spec fn with_sandbox(ls: Seq<Seq<char>>, vals: Seq<(Seq<char>, Seq<char>)>) -> Seq<Seq<char>> {
    let set = lines_set(ls, vals);
    let more = missing_settings(ls, vals, vals.len() as int);
    let h = sandbox_header(ls, 0);
    if h < ls.len() {
        set.take(h + 1) + more + set.skip(h + 1)
    } else {
        set + seq![Seq::<char>::empty(), "[sandbox]"@] + more
    }
}

pub open spec fn pair_texts(v: Seq<(String, String)>) -> Seq<(Seq<char>, Seq<char>)> {
    Seq::new(v.len(), |i: int| (v[i].0@, v[i].1@))
}

fn find_value(vals: &Vec<(String, String)>, key: &str) -> (r: Option<usize>)
    ensures
        match r {
            Some(i) => i < vals.len() && value_for(pair_texts(vals@), key@) == Some(vals@[i as int].1@),
            None => value_for(pair_texts(vals@), key@) is None,
        },
{
    let ghost all = pair_texts(vals@);
    let mut i: usize = 0;
    assert(all.skip(0) =~= all);
    while i < vals.len()
        invariant
            i <= vals.len(),
            all == pair_texts(vals@),
            value_for(all, key@) == value_for(all.skip(i as int), key@),
        decreases vals.len() - i,
    {
        assert(all.skip(i as int)[0] == (vals@[i as int].0@, vals@[i as int].1@));
        assert(all.skip(i as int).drop_first() =~= all.skip(i as int + 1));
        if str_eq(vals[i].0.as_str(), key) {
            return Some(i);
        }
        i += 1;
    }
    None
}

fn key_on_of(line: &str) -> (r: Option<String>)
    ensures
        opt_view(r) == key_on(line@),
{
    let t: String = trim_start_string(line);
    let v: Vec<char> = chars_of(t.as_str());
    assert(t@.skip(0) =~= t@);
    let i: usize = index_from(v.as_slice(), '=', 0);
    if i < v.len() {
        let k: String = slice_of(v.as_slice(), 0, i);
        assert(t@.subrange(0, i as int) =~= t@.take(i as int));
        Some(trim_string(k.as_str()))
    } else {
        None
    }
}

/// Sets the sandbox's values in a configuration file: gives the new content.
#[verifier::rlimit(60)]
pub fn persist_sandbox(content: &str, vals: &Vec<(String, String)>) -> (r: String)
    ensures
        r@ == file_of(with_sandbox(lines(content@), pair_texts(vals@))),
{
    let ls: Vec<String> = lines_of(content);
    let ghost all = lines(content@);
    let ghost vs = pair_texts(vals@);
    let n: usize = ls.len();
    let mut out: Vec<String> = Vec::new();
    let mut done: Vec<String> = Vec::new();
    let mut inside: bool = false;
    let mut header: usize = n;
    let mut i: usize = 0;
    while i < n
        invariant
            i <= n,
            n == ls.len(),
            all == strs(ls@),
            vs == pair_texts(vals@),
            inside == in_sandbox(all, i as int),
            header < i || header == n,
            header < i ==> sandbox_header(all, 0) == header,
            header == n ==> sandbox_header(all, 0) == sandbox_header(all, i as int),
            out.len() == i,
            forall|k: int| 0 <= k < i ==> (#[trigger] out@[k])@ == line_set(all, vs, k),
            forall|key: Seq<char>|
                #[trigger] strs(done@).contains(key) <==> exists|k: int|
                    0 <= k < i && #[trigger] key_set_at(all, vs, k) == Some(key),
        decreases n - i,
    {
        assert(all[i as int] == ls@[i as int]@);
        let t: String = trim_start_string(ls[i].as_str());
        let ghost before = strs(done@);
        let ghost mut added: Option<Seq<char>> = None;
        if starts_with(t.as_str(), "[") {
            inside = str_eq(t.as_str(), "[sandbox]");
            if inside && header == n {
                header = i;
            }
            out.push(ls[i].clone());
        } else if inside {
            match key_on_of(ls[i].as_str()) {
                Some(k) => match find_value(vals, k.as_str()) {
                    Some(j) => {
                        let mut line: String = k.clone();
                        line.append(" = ");
                        line.append(vals[j].1.as_str());
                        out.push(line);
                        proof {
                            added = Some(k@);
                        }
                        done.push(k);
                    },
                    None => {
                        out.push(ls[i].clone());
                    },
                },
                None => {
                    out.push(ls[i].clone());
                },
            }
        } else {
            out.push(ls[i].clone());
        }
        proof {
            assert(added == key_set_at(all, vs, i as int));
            if added is Some {
                assert(strs(done@) =~= before.push(added->Some_0));
            }
            assert forall|key: Seq<char>| #[trigger] strs(done@).contains(key) <==> exists|k: int|
                0 <= k < i + 1 && #[trigger] key_set_at(all, vs, k) == Some(key) by {
                let now = strs(done@);
                if now.contains(key) {
                    let j = now.index_of(key);
                    if added is Some && j == before.len() {
                        assert(key_set_at(all, vs, i as int) == Some(key));
                    } else {
                        assert(before[j] == key);
                        assert(before.contains(key));
                        let k = choose|k: int| 0 <= k < i && #[trigger] key_set_at(all, vs, k) == Some(key);
                        assert(key_set_at(all, vs, k) == Some(key));
                    }
                }
                if exists|k: int| 0 <= k < i + 1 && #[trigger] key_set_at(all, vs, k) == Some(key) {
                    let k = choose|k: int| 0 <= k < i + 1 && #[trigger] key_set_at(all, vs, k) == Some(key);
                    if k < i {
                        assert(before.contains(key));
                        let j = before.index_of(key);
                        assert(now[j] == key);
                    } else {
                        assert(now[before.len() as int] == key);
                    }
                }
            }
        }
        i += 1;
    }
    let ghost set = lines_set(all, vs);
    assert(strs(out@) =~= set);
    let mut more: Vec<String> = Vec::new();
    let mut j: usize = 0;
    assert(strs(more@) =~= missing_settings(all, vs, 0));
    while j < vals.len()
        invariant
            j <= vals.len(),
            vs == pair_texts(vals@),
            strs(more@) == missing_settings(all, vs, j as int),
            forall|key: Seq<char>| #[trigger] strs(done@).contains(key) <==> key_stands(all, vs, key),
        decreases vals.len() - j,
    {
        let ghost before = strs(more@);
        if !crate::text::list_has(&done, vals[j].0.as_str()) {
            let mut line: String = vals[j].0.clone();
            line.append(" = ");
            line.append(vals[j].1.as_str());
            more.push(line);
            assert(strs(more@) =~= before.push(line@));
        }
        j += 1;
    }
    let ghost added = strs(more@);
    if header < n {
        let mut rest: Vec<String> = out.split_off(header + 1);
        let ghost first = out@;
        let ghost last = rest@;
        out.append(&mut more);
        out.append(&mut rest);
        proof {
            assert(strs(first) =~= set.take(header as int + 1));
            assert(strs(last) =~= set.skip(header as int + 1));
            assert(strs(out@) =~= strs(first) + added + strs(last));
        }
    } else {
        out.push(String::new());
        out.push("[sandbox]".to_string());
        assert(strs(out@) =~= set + seq![Seq::<char>::empty(), "[sandbox]"@]);
        let ghost first = strs(out@);
        out.append(&mut more);
        assert(strs(out@) =~= first + added);
    }
    assert(strs(out@) == with_sandbox(all, vs));
    file_of_lines(&out)
}

/// A line that is no setting of the sandbox's stays as it is and in its order:
/// those behind the first header move down by the settings that are added.
pub proof fn law_other_lines_stay(ls: Seq<Seq<char>>, vals: Seq<(Seq<char>, Seq<char>)>, i: int)
    requires
        0 <= i < ls.len(),
        key_set_at(ls, vals, i) is None,
    ensures
        ({
            let h = sandbox_header(ls, 0);
            let more = missing_settings(ls, vals, vals.len() as int).len();
            let at = if h < ls.len() && i > h {
                i + more
            } else {
                i
            };
            0 <= at < with_sandbox(ls, vals).len() && with_sandbox(ls, vals)[at] == ls[i]
        }),
{
    lemma_first_header(ls, 0);
}

/// A key as the settings have them: no white space at its ends, no bracket at
/// its front and no equals sign.
pub open spec fn plain_key(k: Seq<char>) -> bool {
    &&& k.len() > 0
    &&& !is_space(k[0])
    &&& !is_space(k.last())
    &&& k[0] != '['
    &&& !k.contains('=')
}

pub open spec fn plain_settings(vals: Seq<(Seq<char>, Seq<char>)>) -> bool {
    &&& forall|i: int| 0 <= i < vals.len() ==> plain_key((#[trigger] vals[i]).0)
    &&& forall|i: int, j: int| 0 <= i < j < vals.len() ==> (#[trigger] vals[i]).0 != (#[trigger] vals[j]).0
}

proof fn lemma_first_header(ls: Seq<Seq<char>>, from: int)
    requires
        0 <= from <= ls.len(),
    ensures
        from <= sandbox_header(ls, from) <= ls.len(),
        sandbox_header(ls, from) < ls.len() ==> is_header(ls[sandbox_header(ls, from)]) && is_sandbox_header(
            ls[sandbox_header(ls, from)],
        ),
        forall|i: int|
            from <= i < sandbox_header(ls, from) ==> !(is_header(#[trigger] ls[i]) && is_sandbox_header(ls[i])),
    decreases ls.len() - from,
{
    if from < ls.len() && !(is_header(ls[from]) && is_sandbox_header(ls[from])) {
        lemma_first_header(ls, from + 1);
    }
}

/// Before the first header nothing stands in the section.
proof fn lemma_before_header(ls: Seq<Seq<char>>, n: int)
    requires
        0 <= n <= sandbox_header(ls, 0),
    ensures
        !in_sandbox(ls, n),
    decreases n,
{
    lemma_first_header(ls, 0);
    if n > 0 {
        lemma_before_header(ls, n - 1);
    }
}

proof fn lemma_setting_is_no_header(k: Seq<char>, v: Seq<char>)
    requires
        plain_key(k),
    ensures
        !is_header(setting(k, v)),
{
    reveal_strlit("[");
    let l = setting(k, v);
    assert(l[0] == k[0]);
    assert(trim_start(l) == l);
    assert(l.subrange(0, 1)[0] == k[0]);
}

proof fn lemma_value_for(vals: Seq<(Seq<char>, Seq<char>)>, j: int)
    requires
        plain_settings(vals),
        0 <= j < vals.len(),
    ensures
        value_for(vals, vals[j].0) == Some(vals[j].1),
    decreases vals.len(),
{
    if j > 0 {
        let t = vals.drop_first();
        assert forall|a: int, b: int| 0 <= a < b < t.len() implies (#[trigger] t[a]).0 != (#[trigger] t[b]).0 by {
            assert(vals[a + 1].0 != vals[b + 1].0);
        }
        assert forall|a: int| 0 <= a < t.len() implies plain_key((#[trigger] t[a]).0) by {
            assert(plain_key(vals[a + 1].0));
        }
        assert(vals[0].0 != vals[j].0);
        lemma_value_for(t, j - 1);
        assert(t[j - 1] == vals[j]);
    }
}

proof fn lemma_known_key(vals: Seq<(Seq<char>, Seq<char>)>, k: Seq<char>)
    requires
        value_for(vals, k) is Some,
    ensures
        exists|i: int| 0 <= i < vals.len() && (#[trigger] vals[i]).0 == k,
    decreases vals.len(),
{
    if vals[0].0 != k {
        let t = vals.drop_first();
        lemma_known_key(t, k);
        let i = choose|i: int| 0 <= i < t.len() && (#[trigger] t[i]).0 == k;
        assert(vals[i + 1].0 == k);
    }
}

/// Setting values makes no header and takes none away.
proof fn lemma_headers_stay(ls: Seq<Seq<char>>, vals: Seq<(Seq<char>, Seq<char>)>, i: int)
    requires
        plain_settings(vals),
        0 <= i < ls.len(),
    ensures
        is_header(line_set(ls, vals, i)) == is_header(ls[i]),
        is_header(ls[i]) ==> line_set(ls, vals, i) == ls[i],
{
    if let Some(k) = key_set_at(ls, vals, i) {
        lemma_known_key(vals, k);
        lemma_setting_is_no_header(k, value_for(vals, k)->Some_0);
    }
}

proof fn lemma_missing(ls: Seq<Seq<char>>, vals: Seq<(Seq<char>, Seq<char>)>, n: int)
    requires
        plain_settings(vals),
        0 <= n <= vals.len(),
    ensures
        forall|q: int|
            0 <= q < missing_settings(ls, vals, n).len() ==> !is_header(#[trigger] missing_settings(ls, vals, n)[q]),
        forall|j: int|
            0 <= j < n && !key_stands(ls, vals, (#[trigger] vals[j]).0) ==> missing_settings(ls, vals, n).contains(
                setting(vals[j].0, vals[j].1),
            ),
    decreases n,
{
    if n > 0 {
        lemma_missing(ls, vals, n - 1);
        let before = missing_settings(ls, vals, n - 1);
        let now = missing_settings(ls, vals, n);
        lemma_setting_is_no_header(vals[n - 1].0, vals[n - 1].1);
        assert forall|j: int| 0 <= j < n && !key_stands(ls, vals, (#[trigger] vals[j]).0) implies now.contains(
            setting(vals[j].0, vals[j].1),
        ) by {
            let l = setting(vals[j].0, vals[j].1);
            if j == n - 1 {
                assert(now[before.len() as int] == l);
            } else {
                assert(now[before.index_of(l)] == l);
            }
        }
    }
}

/// Where the lines after the first header stand with regard to the section.
proof fn lemma_section_moves(ls: Seq<Seq<char>>, vals: Seq<(Seq<char>, Seq<char>)>, n: int)
    requires
        plain_settings(vals),
        sandbox_header(ls, 0) < ls.len(),
        sandbox_header(ls, 0) < n <= with_sandbox(ls, vals).len(),
    ensures
        ({
            let h = sandbox_header(ls, 0);
            let m = missing_settings(ls, vals, vals.len() as int).len();
            in_sandbox(with_sandbox(ls, vals), n) == (n <= h + 1 + m || in_sandbox(ls, n - m))
        }),
    decreases n,
{
    let h = sandbox_header(ls, 0);
    let more = missing_settings(ls, vals, vals.len() as int);
    let m = more.len();
    let r = with_sandbox(ls, vals);
    lemma_first_header(ls, 0);
    lemma_missing(ls, vals, vals.len() as int);
    if n == h + 1 {
        lemma_headers_stay(ls, vals, h);
        assert(r[h] == line_set(ls, vals, h));
    } else {
        lemma_section_moves(ls, vals, n - 1);
        if n <= h + 1 + m {
            assert(r[n - 1] == more[n - 1 - (h + 1)]);
        } else {
            let i = n - 1 - m;
            assert(r[n - 1] == line_set(ls, vals, i));
            lemma_headers_stay(ls, vals, i);
            if i == h + 1 {
                assert(in_sandbox(ls, h + 1));
            }
        }
    }
}

/// After the values are set, each of them stands in a `[sandbox]` section.
pub proof fn law_settings_stand(ls: Seq<Seq<char>>, vals: Seq<(Seq<char>, Seq<char>)>, j: int)
    requires
        plain_settings(vals),
        0 <= j < vals.len(),
    ensures
        exists|i: int|
            0 <= i < with_sandbox(ls, vals).len() && #[trigger] with_sandbox(ls, vals)[i] == setting(
                vals[j].0,
                vals[j].1,
            ) && in_sandbox(with_sandbox(ls, vals), i),
{
    let h = sandbox_header(ls, 0);
    let more = missing_settings(ls, vals, vals.len() as int);
    let m = more.len();
    let r = with_sandbox(ls, vals);
    let line = setting(vals[j].0, vals[j].1);
    lemma_first_header(ls, 0);
    lemma_missing(ls, vals, vals.len() as int);
    lemma_value_for(vals, j);
    if key_stands(ls, vals, vals[j].0) {
        let i = choose|i: int| 0 <= i < ls.len() && #[trigger] key_set_at(ls, vals, i) == Some(vals[j].0);
        if i <= h {
            lemma_before_header(ls, i);
        }
        assert(r[i + m] == line_set(ls, vals, i));
        lemma_section_moves(ls, vals, i + m);
        assert(r[i + m] == line && in_sandbox(r, i + m));
    } else {
        let q = more.index_of(line);
        if h < ls.len() {
            assert(r[h + 1 + q] == line);
            lemma_section_moves(ls, vals, h + 1 + q);
        } else {
            lemma_own_header();
            let at = ls.len() as int + 1;
            lemma_added_section(ls, vals, q);
            assert(r[at + 1 + q] == line);
        }
    }
}

/// The section that is added at the end holds the lines below its header.
proof fn lemma_added_section(ls: Seq<Seq<char>>, vals: Seq<(Seq<char>, Seq<char>)>, q: int)
    requires
        plain_settings(vals),
        sandbox_header(ls, 0) == ls.len(),
        0 <= q < missing_settings(ls, vals, vals.len() as int).len(),
        is_header("[sandbox]"@),
        is_sandbox_header("[sandbox]"@),
    ensures
        in_sandbox(with_sandbox(ls, vals), ls.len() + 2 + q),
    decreases q,
{
    let r = with_sandbox(ls, vals);
    let more = missing_settings(ls, vals, vals.len() as int);
    lemma_missing(ls, vals, vals.len() as int);
    if q == 0 {
        assert(r[ls.len() as int + 1] == "[sandbox]"@);
    } else {
        lemma_added_section(ls, vals, q - 1);
        assert(r[ls.len() + 1 + q] == more[q - 1]);
    }
}

proof fn lemma_key_on_setting(k: Seq<char>, v: Seq<char>)
    requires
        plain_key(k),
    ensures
        key_on(setting(k, v)) == Some(k),
{
    reveal_strlit(" = ");
    let l = setting(k, v);
    let n = k.len() as int;
    assert(l[0] == k[0]);
    assert(trim_start(l) == l);
    let i = first_index(l, '=');
    lemma_first_index(l, '=');
    assert(l[n] == ' ' && l[n + 1] == '=');
    if i < n {
        assert(k[i] == '=');
        assert(k.contains('='));
    }
    assert(i == n + 1);
    let t = l.take(i);
    assert(t =~= k.push(' '));
    assert(t[0] == k[0]);
    assert(trim_start(t) == t);
    assert(t.drop_last() =~= k);
    assert(trim_end(k) == k);
    assert(is_space(' '));
}

/// The same keys in the same order.
pub open spec fn same_keys(a: Seq<(Seq<char>, Seq<char>)>, b: Seq<(Seq<char>, Seq<char>)>) -> bool {
    a.len() == b.len() && forall|i: int| 0 <= i < a.len() ==> (#[trigger] a[i]).0 == b[i].0
}

proof fn lemma_same_known(a: Seq<(Seq<char>, Seq<char>)>, b: Seq<(Seq<char>, Seq<char>)>, k: Seq<char>)
    requires
        same_keys(a, b),
    ensures
        value_for(a, k) is Some == value_for(b, k) is Some,
    decreases a.len(),
{
    if a.len() > 0 {
        let s = a.drop_first();
        let t = b.drop_first();
        assert(a[0].0 == b[0].0);
        assert forall|i: int| 0 <= i < s.len() implies (#[trigger] s[i]).0 == t[i].0 by {
            assert(a[i + 1].0 == b[i + 1].0);
        }
        lemma_same_known(s, t, k);
    }
}

proof fn lemma_same_places(
    ls: Seq<Seq<char>>,
    a: Seq<(Seq<char>, Seq<char>)>,
    b: Seq<(Seq<char>, Seq<char>)>,
)
    requires
        same_keys(a, b),
    ensures
        forall|i: int| #[trigger] key_set_at(ls, a, i) == key_set_at(ls, b, i),
        forall|k: Seq<char>| #[trigger] key_stands(ls, a, k) == key_stands(ls, b, k),
{
    assert forall|i: int| #[trigger] key_set_at(ls, a, i) == key_set_at(ls, b, i) by {
        if let Some(k) = key_on(ls[i]) {
            lemma_same_known(a, b, k);
        }
    }
    assert forall|k: Seq<char>| #[trigger] key_stands(ls, a, k) == key_stands(ls, b, k) by {
        if key_stands(ls, a, k) {
            let i = choose|i: int| 0 <= i < ls.len() && #[trigger] key_set_at(ls, a, i) == Some(k);
            assert(key_set_at(ls, b, i) == Some(k));
        }
        if key_stands(ls, b, k) {
            let i = choose|i: int| 0 <= i < ls.len() && #[trigger] key_set_at(ls, b, i) == Some(k);
            assert(key_set_at(ls, a, i) == Some(k));
        }
    }
}

/// Settings with the same keys are added at the same places.
proof fn lemma_same_missing(
    ls: Seq<Seq<char>>,
    a: Seq<(Seq<char>, Seq<char>)>,
    b: Seq<(Seq<char>, Seq<char>)>,
    n: int,
)
    requires
        same_keys(a, b),
        0 <= n <= a.len(),
    ensures
        missing_settings(ls, a, n).len() == missing_settings(ls, b, n).len(),
        forall|q: int|
            0 <= q < missing_settings(ls, a, n).len() ==> exists|j: int|
                0 <= j < n && (#[trigger] missing_settings(ls, a, n)[q]) == setting((#[trigger] a[j]).0, a[j].1)
                    && missing_settings(ls, b, n)[q] == setting(a[j].0, b[j].1),
    decreases n,
{
    if n > 0 {
        lemma_same_places(ls, a, b);
        lemma_same_missing(ls, a, b, n - 1);
        let pa = missing_settings(ls, a, n - 1);
        let pb = missing_settings(ls, b, n - 1);
        let na = missing_settings(ls, a, n);
        let nb = missing_settings(ls, b, n);
        assert(a[n - 1].0 == b[n - 1].0);
        assert(key_stands(ls, a, a[n - 1].0) == key_stands(ls, b, a[n - 1].0));
        assert forall|q: int| 0 <= q < na.len() implies exists|j: int|
            0 <= j < n && (#[trigger] na[q]) == setting((#[trigger] a[j]).0, a[j].1) && nb[q] == setting(
                a[j].0,
                b[j].1,
            ) by {
            if q < pa.len() {
                assert(na[q] == pa[q] && nb[q] == pb[q]);
                let j = choose|j: int|
                    0 <= j < n - 1 && pa[q] == setting((#[trigger] a[j]).0, a[j].1) && pb[q] == setting(a[j].0, b[j].1);
                assert(0 <= j < n && na[q] == setting(a[j].0, a[j].1));
            } else {
                assert(na[q] == setting(a[n - 1].0, a[n - 1].1));
            }
        }
    }
}

proof fn lemma_header_is(ls: Seq<Seq<char>>, from: int, h: int)
    requires
        0 <= from <= h < ls.len(),
        is_header(ls[h]) && is_sandbox_header(ls[h]),
        forall|i: int| from <= i < h ==> !(is_header(#[trigger] ls[i]) && is_sandbox_header(ls[i])),
    ensures
        sandbox_header(ls, from) == h,
    decreases h - from,
{
    if from < h {
        lemma_header_is(ls, from + 1, h);
    }
}

proof fn lemma_own_header()
    ensures
        is_header("[sandbox]"@),
        is_sandbox_header("[sandbox]"@),
        !is_header(Seq::<char>::empty()),
        key_on(Seq::<char>::empty()) is None,
{
    reveal_strlit("[");
    reveal_strlit("[sandbox]");
    assert("[sandbox]"@[0] == '[');
    assert(trim_start("[sandbox]"@) == "[sandbox]"@);
    assert("[sandbox]"@.subrange(0, 1) =~= "["@);
}

/// The header stands where it stood, or where it was added.
proof fn lemma_header_after(ls: Seq<Seq<char>>, vals: Seq<(Seq<char>, Seq<char>)>)
    requires
        plain_settings(vals),
    ensures
        sandbox_header(with_sandbox(ls, vals), 0) == (if sandbox_header(ls, 0) < ls.len() {
            sandbox_header(ls, 0)
        } else {
            ls.len() as int + 1
        }),
{
    let h = sandbox_header(ls, 0);
    let r = with_sandbox(ls, vals);
    lemma_first_header(ls, 0);
    lemma_own_header();
    let at = if h < ls.len() {
        h
    } else {
        ls.len() as int + 1
    };
    assert forall|i: int| 0 <= i < at implies !(is_header(#[trigger] r[i]) && is_sandbox_header(r[i])) by {
        if i < ls.len() {
            assert(r[i] == line_set(ls, vals, i));
            lemma_headers_stay(ls, vals, i);
        } else {
            assert(r[i] == Seq::<char>::empty());
        }
    }
    if h < ls.len() {
        assert(r[h] == line_set(ls, vals, h));
        lemma_headers_stay(ls, vals, h);
    } else {
        assert(r[at] == "[sandbox]"@);
    }
    lemma_header_is(r, 0, at);
}

/// What a line that was there becomes when the values are set once more.
proof fn lemma_set_once_more(
    ls: Seq<Seq<char>>,
    a: Seq<(Seq<char>, Seq<char>)>,
    b: Seq<(Seq<char>, Seq<char>)>,
    i: int,
    at: int,
)
    requires
        plain_settings(a),
        plain_settings(b),
        same_keys(a, b),
        0 <= i < ls.len(),
        0 <= at < with_sandbox(ls, a).len(),
        with_sandbox(ls, a)[at] == line_set(ls, a, i),
        in_sandbox(with_sandbox(ls, a), at) == in_sandbox(ls, i),
    ensures
        line_set(with_sandbox(ls, a), b, at) == line_set(ls, b, i),
{
    let r = with_sandbox(ls, a);
    lemma_same_places(ls, a, b);
    lemma_headers_stay(ls, a, i);
    assert(key_set_at(ls, a, i) == key_set_at(ls, b, i));
    if let Some(k) = key_set_at(ls, a, i) {
        lemma_known_key(a, k);
        lemma_key_on_setting(k, value_for(a, k)->Some_0);
        lemma_same_known(a, b, k);
        assert(key_set_at(r, b, at) == Some(k));
    } else {
        assert(r[at] == ls[i]);
        assert(key_set_at(r, b, at) == key_set_at(ls, b, i));
    }
}

/// Setting values and then others for the same keys is the same as setting the
/// others.
pub proof fn law_settings_are_replaced(
    ls: Seq<Seq<char>>,
    a: Seq<(Seq<char>, Seq<char>)>,
    b: Seq<(Seq<char>, Seq<char>)>,
)
    requires
        plain_settings(a),
        plain_settings(b),
        same_keys(a, b),
    ensures
        with_sandbox(with_sandbox(ls, a), b) == with_sandbox(ls, b),
{
    let n = a.len() as int;
    let h = sandbox_header(ls, 0);
    let r = with_sandbox(ls, a);
    let w = with_sandbox(ls, b);
    let ma = missing_settings(ls, a, n);
    let mb = missing_settings(ls, b, n);
    let m = ma.len() as int;
    lemma_first_header(ls, 0);
    lemma_own_header();
    lemma_header_after(ls, a);
    lemma_missing(ls, a, n);
    lemma_same_missing(ls, a, b, n);
    lemma_same_places(ls, a, b);
    assert(missing_settings(r, b, n) =~= Seq::<Seq<char>>::empty()) by {
        assert forall|j: int| 0 <= j < n implies key_stands(r, b, (#[trigger] b[j]).0) by {
            law_settings_stand(ls, a, j);
            let i = choose|i: int|
                0 <= i < r.len() && #[trigger] r[i] == setting(a[j].0, a[j].1) && in_sandbox(r, i);
            assert(a[j].0 == b[j].0);
            assert(plain_key(a[j].0));
            lemma_setting_is_no_header(a[j].0, a[j].1);
            lemma_key_on_setting(a[j].0, a[j].1);
            lemma_value_for(b, j);
            assert(key_set_at(r, b, i) == Some(b[j].0));
        }
        lemma_none_missing(r, b, n);
    }
    assert forall|p: int| 0 <= p < r.len() implies #[trigger] line_set(r, b, p) == w[p] by {
        if h < ls.len() {
            if p <= h {
                lemma_before_header(ls, p);
                lemma_before_header(r, p);
                assert(r[p] == line_set(ls, a, p));
                lemma_set_once_more(ls, a, b, p, p);
                assert(w[p] == line_set(ls, b, p));
            } else if p <= h + m {
                let q = p - h - 1;
                assert(r[p] == ma[q]);
                assert(w[p] == mb[q]);
                lemma_section_moves(ls, a, p);
                lemma_added_again(ls, r, a, b, p, q);
            } else {
                let i = p - m;
                assert(r[p] == line_set(ls, a, i));
                assert(w[p] == line_set(ls, b, i));
                lemma_section_moves(ls, a, p);
                if i == h + 1 {
                    assert(in_sandbox(ls, h + 1));
                }
                lemma_set_once_more(ls, a, b, i, p);
            }
        } else {
            if p < ls.len() {
                lemma_before_header(ls, p);
                lemma_before_header(r, p);
                assert(r[p] == line_set(ls, a, p));
                lemma_set_once_more(ls, a, b, p, p);
                assert(w[p] == line_set(ls, b, p));
            } else if p == ls.len() {
                assert(r[p] == Seq::<char>::empty());
                assert(w[p] == Seq::<char>::empty());
            } else if p == ls.len() + 1 {
                assert(r[p] == "[sandbox]"@);
                assert(w[p] == "[sandbox]"@);
            } else {
                let q = p - ls.len() - 2;
                assert(r[p] == ma[q]);
                assert(w[p] == mb[q]);
                lemma_added_section(ls, a, q);
                lemma_added_again(ls, r, a, b, p, q);
            }
        }
    }
    let set = lines_set(r, b);
    let g = sandbox_header(r, 0);
    assert(set.take(g + 1) + Seq::<Seq<char>>::empty() + set.skip(g + 1) =~= set);
    assert(set =~= w);
}

proof fn lemma_none_missing(ls: Seq<Seq<char>>, vals: Seq<(Seq<char>, Seq<char>)>, n: int)
    requires
        0 <= n <= vals.len(),
        forall|j: int| 0 <= j < n ==> key_stands(ls, vals, (#[trigger] vals[j]).0),
    ensures
        missing_settings(ls, vals, n).len() == 0,
    decreases n,
{
    if n > 0 {
        lemma_none_missing(ls, vals, n - 1);
        assert(key_stands(ls, vals, vals[n - 1].0));
    }
}

/// What a line that was added becomes when the values are set once more.
proof fn lemma_added_again(
    ls: Seq<Seq<char>>,
    r: Seq<Seq<char>>,
    a: Seq<(Seq<char>, Seq<char>)>,
    b: Seq<(Seq<char>, Seq<char>)>,
    p: int,
    q: int,
)
    requires
        plain_settings(a),
        plain_settings(b),
        same_keys(a, b),
        0 <= p < r.len(),
        0 <= q < missing_settings(ls, a, a.len() as int).len(),
        r[p] == missing_settings(ls, a, a.len() as int)[q],
        in_sandbox(r, p),
    ensures
        line_set(r, b, p) == missing_settings(ls, b, a.len() as int)[q],
{
    let n = a.len() as int;
    lemma_same_missing(ls, a, b, n);
    let j = choose|j: int|
        0 <= j < n && missing_settings(ls, a, n)[q] == setting((#[trigger] a[j]).0, a[j].1) && missing_settings(
            ls,
            b,
            n,
        )[q] == setting(a[j].0, b[j].1);
    assert(plain_key(a[j].0));
    assert(a[j].0 == b[j].0);
    lemma_setting_is_no_header(a[j].0, a[j].1);
    lemma_key_on_setting(a[j].0, a[j].1);
    lemma_value_for(b, j);
}

// ---------- the file of a sandboxed session ----------

/// What is asked of a sandboxed run.
#[derive(Debug)]
pub struct SandboxRunArgs {
    pub prompt: String,
    pub memory_mb: u64,
    pub pids: u32,
    pub ephemeral: bool,
    pub timeout_secs: u64,
}

/// The directory of a sandboxed session.
pub fn session_dir(cwd: &str, now: u64, pid: u32) -> (r: String)
    ensures
        r@ == crate::text::path_join(
            crate::text::path_join(cwd@, "r2-sessions"@),
            "sess-"@ + dec(now as nat) + "-"@ + dec(pid as nat),
        ),
{
    let base: String = crate::text::join_path(cwd, "r2-sessions");
    let mut name: String = "sess-".to_string();
    let a: String = dec_string(now);
    name.append(a.as_str());
    name.append("-");
    let b: String = dec_string(pid as u64);
    name.append(b.as_str());
    crate::text::join_path(base.as_str(), name.as_str())
}

/// A line that belongs to the model's section: anything but the header of
/// another one.
pub open spec fn in_model_part(line: Seq<char>) -> bool {
    let t = trim_start(line);
    t.len() == 0 || occurs_at(t, "#"@, 0) || !occurs_at(t, "["@, 0) || occurs_at(t, "[model"@, 0)
}

/// The end of the model's section that goes on at `from`.
pub open spec fn model_part_end(ls: Seq<Seq<char>>, from: int) -> int
    decreases ls.len() - from,
{
    if from < 0 || from >= ls.len() {
        ls.len() as int
    } else if in_model_part(ls[from]) {
        model_part_end(ls, from + 1)
    } else {
        from
    }
}

/// The model's section of a configuration file, as it stands.
pub open spec fn model_section(content: Seq<char>) -> Seq<char> {
    let ls = lines(content);
    let a = model_header(ls, 0);
    join(ls.subrange(a, model_part_end(ls, a)), "\n"@)
}

/// The model's section for a configuration without a file.
pub open spec fn rebuilt_section(c: Config) -> Option<Seq<char>> {
    if c.model.provider@ == "openai_compat"@ {
        Some(
            "[model]\nprovider = \"openai_compat\"\n[model.openai_compat]\nbase_url = \""@
                + c.model.openai_compat.base_url@ + "\"\napi_key = \""@ + c.model.openai_compat.api_key@
                + "\"\nmodel = \""@ + c.model.openai_compat.model@ + "\"\n"@,
        )
    } else if c.model.provider@ == "anthropic"@ {
        Some(
            "[model]\nprovider = \"anthropic\"\n[model.anthropic]\nbase_url = \""@ + c.model.anthropic.base_url@
                + "\"\napi_key = \""@ + c.model.anthropic.api_key@ + "\"\nmodel = \""@ + c.model.anthropic.model@
                + "\"\n"@,
        )
    } else {
        None
    }
}

/// The model's section of a session: that of the source file, or a rebuilt one.
pub open spec fn session_model(c: Config, source: Option<Seq<char>>) -> Option<Seq<char>> {
    match source {
        Some(raw) => Some(model_section(raw)),
        None => rebuilt_section(c),
    }
}

/// What `{:?}` writes for a text.
pub uninterp spec fn debug_text(s: Seq<char>) -> Seq<char>;

/// Quotes a text with std's `Debug` for `str`. The result depends on the text
/// alone.
#[verifier::external_body]
fn debug_quoted(s: &str) -> (r: String)
    ensures
        r@ == debug_text(s@),
{
    format!("{s:?}")
}

/// The file of a sandboxed session: the model's section, the session's
/// directory as working directory, and the strictest sandbox without a limit
/// on the user's processes.
pub open spec fn session_file(model: Seq<char>, dir: Seq<char>, bash_timeout_secs: u64) -> Seq<char> {
    trim_end(model) + "\n"@ + "\n[agent]\nwork_dir = "@ + debug_text(dir)
        + "\n\n[sandbox]\nlevel = \"strict\"\nmax_processes = 0\nbash_timeout_secs = "@ + dec(
        bash_timeout_secs as nat,
    ) + "\n"@
}

fn model_section_of(content: &str) -> (r: String)
    ensures
        r@ == model_section(content@),
{
    let ls: Vec<String> = lines_of(content);
    let ghost all = lines(content@);
    let a: usize = find_model_header(&ls);
    let mut out: Vec<String> = Vec::new();
    let mut i: usize = a;
    let mut more: bool = true;
    assert(strs(out@) =~= all.subrange(a as int, a as int));
    while i < ls.len() && more
        invariant
            a <= i <= ls.len(),
            all == strs(ls@),
            strs(out@) == all.subrange(a as int, i as int),
            more ==> model_part_end(all, a as int) == model_part_end(all, i as int),
            !more ==> model_part_end(all, a as int) == i,
        decreases
                ls.len() - i,
                if more {
                    1int
                } else {
                    0int
                },
    {
        assert(all[i as int] == ls@[i as int]@);
        let ghost before = strs(out@);
        let t: String = trim_start_string(ls[i].as_str());
        if t.as_str().is_empty() || starts_with(t.as_str(), "#") || !starts_with(t.as_str(), "[") || starts_with(
            t.as_str(),
            "[model",
        ) {
            out.push(ls[i].clone());
            assert(strs(out@) =~= before.push(all[i as int]));
            assert(before.push(all[i as int]) =~= all.subrange(a as int, i as int + 1));
            i += 1;
        } else {
            more = false;
        }
    }
    join_strings(&out, "\n")
}

fn rebuilt_section_of(c: &Config) -> (r: Option<String>)
    ensures
        opt_view(r) == rebuilt_section(*c),
{
    if str_eq(c.model.provider.as_str(), "openai_compat") {
        let mut s: String =
            "[model]\nprovider = \"openai_compat\"\n[model.openai_compat]\nbase_url = \"".to_string();
        s.append(c.model.openai_compat.base_url.as_str());
        s.append("\"\napi_key = \"");
        s.append(c.model.openai_compat.api_key.as_str());
        s.append("\"\nmodel = \"");
        s.append(c.model.openai_compat.model.as_str());
        s.append("\"\n");
        Some(s)
    } else if str_eq(c.model.provider.as_str(), "anthropic") {
        let mut s: String = "[model]\nprovider = \"anthropic\"\n[model.anthropic]\nbase_url = \"".to_string();
        s.append(c.model.anthropic.base_url.as_str());
        s.append("\"\napi_key = \"");
        s.append(c.model.anthropic.api_key.as_str());
        s.append("\"\nmodel = \"");
        s.append(c.model.anthropic.model.as_str());
        s.append("\"\n");
        Some(s)
    } else {
        None
    }
}

/// Builds the file of a sandboxed session. `source` is the content of the
/// configuration's own file. A section without a key ends the attempt.
pub fn write_session_config(parent: &Config, source: Option<&str>, sess_dir: &str) -> (r: Result<String, String>)
    ensures
        match session_model(
            *parent,
            match source {
                Some(s) => Some(s@),
                None => None,
            },
        ) {
            Some(m) => if contains_text(m, "api_key"@) {
                r is Ok && r->Ok_0@ == session_file(m, sess_dir@, parent.sandbox.bash_timeout_secs)
            } else {
                r is Err && r->Err_0@ == "model 段缺少 api_key，中止会话生成"@
            },
            None => r is Err && r->Err_0@ == "未知 provider："@ + parent.model.provider@,
        },
{
    let section: String = match source {
        Some(raw) => model_section_of(raw),
        None => match rebuilt_section_of(parent) {
            Some(s) => s,
            None => {
                let mut e: String = "未知 provider：".to_string();
                e.append(parent.model.provider.as_str());
                return Err(e);
            },
        },
    };
    if !contains_string(section.as_str(), "api_key") {
        return Err("model 段缺少 api_key，中止会话生成".to_string());
    }
    let mut toml: String = trim_end_string(section.as_str());
    toml.append("\n");
    toml.append("\n[agent]\nwork_dir = ");
    let dir: String = debug_quoted(sess_dir);
    toml.append(dir.as_str());
    toml.append("\n\n[sandbox]\nlevel = \"strict\"\nmax_processes = 0\nbash_timeout_secs = ");
    let secs: String = dec_string(parent.sandbox.bash_timeout_secs);
    toml.append(secs.as_str());
    toml.append("\n");
    Ok(toml)
}

/// Whether a sandboxed run has used up its time: no limit where none is set.
pub fn sandbox_expired(timeout_secs: u64, elapsed_nanos: u64) -> (r: bool)
    ensures
        r == (timeout_secs > 0 && elapsed_nanos >= timeout_secs * 1_000_000_000),
{
    let limit: u128 = timeout_secs as u128 * 1_000_000_000;
    timeout_secs > 0 && elapsed_nanos as u128 >= limit
}

// ---------- a run of its own ----------

/// How the agent is started for a session of its own: nothing of the
/// surroundings is passed on but what is listed here.
#[derive(Debug)]
pub struct SandboxCommand {
    pub args: Vec<String>,
    pub env: Vec<(String, String)>,
}

/// The arguments of a run for one prompt.
pub open spec fn run_args(prompt: Seq<char>, config: Seq<char>) -> Seq<Seq<char>> {
    seq!["--once"@, prompt, "--config"@, config]
}

/// The environment of a run: the search path, the session's directory as home,
/// the terminal, and the group of processes to join, if there is one.
pub open spec fn run_env(dir: Seq<char>, term: Option<Seq<char>>, group: Option<Seq<char>>) -> Seq<(
    Seq<char>,
    Seq<char>,
)> {
    let base = seq![
        ("PATH"@, "/usr/local/bin:/usr/bin:/bin"@),
        ("HOME"@, dir),
        (
            "TERM"@,
            match term {
                Some(t) => t,
                None => "dumb"@,
            },
        ),
    ];
    match group {
        Some(g) => base.push(("R2_CGROUP_JOIN"@, g)),
        None => base,
    }
}

/// How the agent is started for a session of its own.
pub fn sandbox_command(prompt: &str, config: &str, dir: &str, term: Option<&str>, group: Option<&str>) -> (r:
    SandboxCommand)
    ensures
        strs(r.args@) == run_args(prompt@, config@),
        pair_texts(r.env@) == run_env(
            dir@,
            match term {
                Some(t) => Some(t@),
                None => None,
            },
            match group {
                Some(g) => Some(g@),
                None => None,
            },
        ),
{
    let mut args: Vec<String> = Vec::new();
    args.push("--once".to_string());
    args.push(prompt.to_string());
    args.push("--config".to_string());
    args.push(config.to_string());
    assert(strs(args@) =~= run_args(prompt@, config@));
    let mut env: Vec<(String, String)> = Vec::new();
    env.push(("PATH".to_string(), "/usr/local/bin:/usr/bin:/bin".to_string()));
    env.push(("HOME".to_string(), dir.to_string()));
    let t: &str = match term {
        Some(t) => t,
        None => "dumb",
    };
    env.push(("TERM".to_string(), t.to_string()));
    if let Some(g) = group {
        env.push(("R2_CGROUP_JOIN".to_string(), g.to_string()));
    }
    proof {
        let tv = match term {
            Some(t) => Some(t@),
            None => None,
        };
        let gv = match group {
            Some(g) => Some(g@),
            None => None,
        };
        assert(pair_texts(env@) =~= run_env(dir@, tv, gv));
    }
    SandboxCommand { args, env }
}

/// The line on a session's group of processes and its limits.
pub fn group_line(group: &str, pids: u32, memory_mb: u64) -> (r: String)
    ensures
        r@ == "  cgroup:   "@ + group@ + " (pids≤"@ + dec(pids as nat) + (if memory_mb > 0 {
            ", mem≤"@ + dec(memory_mb as nat) + "M"@
        } else {
            Seq::empty()
        }) + ")"@,
{
    let mut s: String = "  cgroup:   ".to_string();
    s.append(group);
    s.append(" (pids≤");
    let p: String = dec_string(pids as u64);
    s.append(p.as_str());
    let mut m: String = String::new();
    assert(m@ =~= Seq::<char>::empty());
    if memory_mb > 0 {
        m = ", mem≤".to_string();
        let d: String = dec_string(memory_mb);
        m.append(d.as_str());
        m.append("M");
    }
    s.append(m.as_str());
    s.append(")");
    s
}

} // verus!
