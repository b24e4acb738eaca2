//! Skill files: their front matter, their description and their status.

use vstd::prelude::*;

use crate::text::{
    after_prefix, chomp, first_index, head, head_string, is_space, lemma_first_index, lemma_lines_concat,
    lemma_one_line, lemma_trim_chomp, lemma_trimmed, lines, lines_of, occurs_at, starts_with, str_eq, strip_both,
    strip_both_string, strip_left, strip_left_string, strip_prefix, strs, trim, trim_start, trim_string,
};
use crate::types::opt_view;

verus! {

/// The line that opens and closes the front matter.
pub open spec fn is_fence(line: Seq<char>) -> bool {
    trim(line) == "---"@
}

fn is_fence_line(line: &str) -> (r: bool)
    ensures
        r == is_fence(line@),
{
    let t: String = trim_string(line);
    str_eq(t.as_str(), "---")
}

/// The position of the first fence from `from` on, or the length.
pub open spec fn fence_from(ls: Seq<Seq<char>>, from: int) -> int
    decreases ls.len() - from,
{
    if from >= ls.len() || from < 0 {
        ls.len() as int
    } else if is_fence(ls[from]) {
        from
    } else {
        fence_from(ls, from + 1)
    }
}

fn find_fence(ls: &Vec<String>, from: usize) -> (r: usize)
    ensures
        r == fence_from(strs(ls@), from as int),
        r <= ls.len(),
        from <= ls.len() ==> from <= r,
        r < ls.len() ==> is_fence(ls@[r as int]@),
{
    if from >= ls.len() {
        return ls.len();
    }
    let ghost all = strs(ls@);
    let mut i: usize = from;
    while i < ls.len()
        invariant
            from <= i <= ls.len(),
            all == strs(ls@),
            fence_from(all, from as int) == fence_from(all, i as int),
        decreases ls.len() - i,
    {
        assert(all[i as int] == ls@[i as int]@);
        if is_fence_line(ls[i].as_str()) {
            return i;
        }
        i += 1;
    }
    i
}

/// The first line is a fence.
pub open spec fn opens(ls: Seq<Seq<char>>) -> bool {
    ls.len() > 0 && is_fence(ls[0])
}

/// The first line is a fence, and another one follows.
pub open spec fn has_front_matter(ls: Seq<Seq<char>>) -> bool {
    opens(ls) && fence_from(ls, 1) < ls.len()
}

/// The value of a description line, without its quotes.
pub open spec fn description_in(line: Seq<char>) -> Option<Seq<char>> {
    match after_prefix(trim(line), "description:"@) {
        Some(v) => {
            let w = strip_both(strip_both(trim(v), '"'), '\'');
            if w.len() > 0 {
                Some(w)
            } else {
                None
            }
        },
        None => None,
    }
}

fn description_in_of(line: &str) -> (r: Option<String>)
    ensures
        opt_view(r) == description_in(line@),
{
    let t: String = trim_string(line);
    match strip_prefix(t.as_str(), "description:") {
        Some(v) => {
            let a: String = trim_string(v.as_str());
            let b: String = strip_both_string(a.as_str(), '"');
            let c: String = strip_both_string(b.as_str(), '\'');
            if c.as_str().is_empty() {
                None
            } else {
                Some(c)
            }
        },
        None => None,
    }
}

/// The first description among the lines from `from` up to `to`.
pub open spec fn description_between(ls: Seq<Seq<char>>, from: int, to: int) -> Option<Seq<char>>
    decreases to - from,
{
    if from >= to || from < 0 || from >= ls.len() {
        None
    } else {
        match description_in(ls[from]) {
            Some(d) => Some(d),
            None => description_between(ls, from + 1, to),
        }
    }
}

/// The first line from `from` on that is not blank, trimmed.
pub open spec fn first_text_from(ls: Seq<Seq<char>>, from: int) -> Seq<char>
    decreases ls.len() - from,
{
    if from >= ls.len() || from < 0 {
        Seq::empty()
    } else if trim(ls[from]).len() > 0 {
        trim(ls[from])
    } else {
        first_text_from(ls, from + 1)
    }
}

/// Where the body of a file starts: behind its front matter.
pub open spec fn body_start(ls: Seq<Seq<char>>) -> int {
    if has_front_matter(ls) {
        fence_from(ls, 1) + 1
    } else if opens(ls) {
        1
    } else {
        0
    }
}

/// A skill's description: that of its front matter, or else the first line of
/// its body without the heading's marks.
pub open spec fn describe(content: Seq<char>) -> Seq<char> {
    let ls = lines(content);
    let said = if has_front_matter(ls) {
        description_between(ls, 1, fence_from(ls, 1))
    } else {
        None
    };
    match said {
        Some(d) => d,
        None => trim(strip_left(first_text_from(ls, body_start(ls)), '#')),
    }
}

/// The description of a skill file.
pub fn skill_description(content: &str) -> (r: String)
    ensures
        r@ == describe(content@),
{
    let ls: Vec<String> = lines_of(content);
    let ghost all = lines(content@);
    let n: usize = ls.len();
    assert(all == strs(ls@));
    let open: bool = n > 0 && is_fence_line(ls[0].as_str());
    assert(open == opens(all)) by {
        if n > 0 {
            assert(all[0] == ls@[0]@);
        }
    }
    let end: usize = if open {
        find_fence(&ls, 1)
    } else {
        n
    };
    let mut start: usize = 0;
    if open {
        start = 1;
        if end < n {
            start = end + 1;
            let mut i: usize = 1;
            while i < end
                invariant
                    1 <= i,
                    end < n,
                    n == ls.len(),
                    all == strs(ls@),
                    all == lines(content@),
                    has_front_matter(all),
                    end == fence_from(all, 1),
                    description_between(all, 1, end as int) == description_between(all, i as int, end as int),
                decreases end - i,
            {
                assert(all[i as int] == ls@[i as int]@);
                if let Some(d) = description_in_of(ls[i].as_str()) {
                    return d;
                }
                i += 1;
            }
            assert(description_between(all, 1, end as int) is None);
        }
    }
    assert(start == body_start(all));
    let mut k: usize = start;
    let mut text: String = String::new();
    let mut found: bool = false;
    while k < n && !found
        invariant
            n == ls.len(),
            all == strs(ls@),
            found ==> text@ == first_text_from(all, start as int),
            !found ==> text@.len() == 0,
            !found ==> first_text_from(all, start as int) == first_text_from(all, k as int),
        decreases
                n - k,
                if found {
                    0int
                } else {
                    1int
                },
    {
        assert(all[k as int] == ls@[k as int]@);
        let t: String = trim_string(ls[k].as_str());
        if !t.as_str().is_empty() {
            text = t;
            found = true;
        } else {
            k += 1;
        }
    }
    assert(text@ =~= first_text_from(all, start as int));
    let bare: String = strip_left_string(text.as_str(), '#');
    trim_string(bare.as_str())
}

/// The description as the system prompt lists it: at most 120 characters.
pub fn skill_frontmatter_desc(content: &str) -> (r: String)
    ensures
        r@ == head(describe(content@), 120),
{
    let d: String = skill_description(content);
    head_string(d.as_str(), 120)
}

// ---------- status ----------

/// How a status line begins.
pub const STATUS_KEY: &'static str = "x-r2-status:";

pub open spec fn is_status(line: Seq<char>) -> bool {
    occurs_at(trim(line), STATUS_KEY@, 0)
}

/// The first status among the lines from `from` up to `to`.
pub open spec fn status_between(ls: Seq<Seq<char>>, from: int, to: int) -> Option<Seq<char>>
    decreases to - from,
{
    if from >= to || from < 0 || from >= ls.len() {
        None
    } else {
        match after_prefix(trim(ls[from]), STATUS_KEY@) {
            Some(v) => Some(trim(v)),
            None => status_between(ls, from + 1, to),
        }
    }
}

/// The status in a skill's front matter; a skill written by hand has none.
pub open spec fn status_of(content: Seq<char>) -> Option<Seq<char>> {
    let ls = lines(content);
    if has_front_matter(ls) {
        status_between(ls, 1, fence_from(ls, 1))
    } else {
        None
    }
}

/// Reads the status of a skill.
pub fn read_skill_status(content: &str) -> (r: Option<String>)
    ensures
        opt_view(r) == status_of(content@),
{
    let ls: Vec<String> = lines_of(content);
    let ghost all = lines(content@);
    if ls.len() == 0 || !is_fence_line(ls[0].as_str()) {
        assert(ls.len() > 0 ==> all[0] == ls@[0]@);
        return None;
    }
    assert(all[0] == ls@[0]@);
    let end: usize = find_fence(&ls, 1);
    if end >= ls.len() {
        return None;
    }
    let mut i: usize = 1;
    while i < end
        invariant
            1 <= i,
            end < ls.len(),
            all == strs(ls@),
            all == lines(content@),
            has_front_matter(all),
            end == fence_from(all, 1),
            status_of(content@) == status_between(all, i as int, end as int),
        decreases end - i,
    {
        assert(all[i as int] == ls@[i as int]@);
        let t: String = trim_string(ls[i].as_str());
        if let Some(v) = strip_prefix(t.as_str(), STATUS_KEY) {
            return Some(trim_string(v.as_str()));
        }
        i += 1;
    }
    None
}

/// The line that states a status.
pub open spec fn status_line(status: Seq<char>) -> Seq<char> {
    "x-r2-status: "@ + status
}

/// The lines of a file, each with its end.
pub open spec fn text_of_lines(ls: Seq<Seq<char>>) -> Seq<char>
    decreases ls.len(),
{
    if ls.len() == 0 {
        Seq::empty()
    } else {
        text_of_lines(ls.drop_last()) + ls.last().push('\n')
    }
}

/// The lines of the front matter from `from` up to `to`, with the status
/// replaced.
pub open spec fn restated(ls: Seq<Seq<char>>, from: int, to: int, status: Seq<char>) -> Seq<Seq<char>>
    decreases to - from,
{
    if from >= to || from < 0 || from >= ls.len() {
        Seq::empty()
    } else {
        seq![
            if is_status(ls[from]) {
                status_line(status)
            } else {
                ls[from]
            },
        ] + restated(ls, from + 1, to, status)
    }
}

/// Some line from `from` up to `to` states a status.
pub open spec fn states_status(ls: Seq<Seq<char>>, from: int, to: int) -> bool {
    exists|i: int| from <= i < to && 0 <= i < ls.len() && is_status(#[trigger] ls[i])
}

/// The lines with the status of the front matter set: a status that stands
/// there is replaced, otherwise one is added at the end of the front matter.
/// Nothing else changes.
pub open spec fn with_status(ls: Seq<Seq<char>>, status: Seq<char>) -> Seq<Seq<char>> {
    let a = fence_from(ls, 0);
    if a >= ls.len() {
        ls
    } else {
        let b = fence_from(ls, a + 1);
        let head = ls.take(a + 1) + restated(ls, a + 1, b, status);
        if b >= ls.len() {
            head
        } else if states_status(ls, a + 1, b) {
            head + ls.skip(b)
        } else {
            head.push(status_line(status)) + ls.skip(b)
        }
    }
}

fn push_line(out: &mut String, line: &str, Ghost(before): Ghost<Seq<Seq<char>>>)
    requires
        old(out)@ == text_of_lines(before),
    ensures
        final(out)@ == text_of_lines(before.push(line@)),
{
    out.append(line);
    out.push('\n');
    assert(before.push(line@).drop_last() =~= before);
    assert(out@ =~= text_of_lines(before) + line@.push('\n'));
}

/// Sets the status of a skill: gives the new content of its file.
#[verifier::rlimit(40)]
pub fn write_skill_status(content: &str, status: &str) -> (r: String)
    ensures
        r@ == text_of_lines(with_status(lines(content@), status@)),
{
    let ls: Vec<String> = lines_of(content);
    let ghost all = lines(content@);
    let n: usize = ls.len();
    let a: usize = find_fence(&ls, 0);
    let b: usize = if a < n {
        find_fence(&ls, a + 1)
    } else {
        n
    };
    let mut line: String = "x-r2-status: ".to_string();
    line.append(status);
    let mut out: String = String::new();
    let ghost mut done: Seq<Seq<char>> = Seq::empty();
    let mut stated: bool = false;
    let mut i: usize = 0;
    while i < n && i <= a
        invariant
            i <= n,
            i <= a + 1,
            n == ls.len(),
            a <= n,
            all == strs(ls@),
            done == all.take(i as int),
            out@ == text_of_lines(done),
        decreases n - i,
    {
        assert(all[i as int] == ls@[i as int]@);
        push_line(&mut out, ls[i].as_str(), Ghost(done));
        proof {
            done = done.push(all[i as int]);
            assert(done =~= all.take(i as int + 1));
        }
        i += 1;
    }
    if a >= n {
        assert(done =~= all);
        return out;
    }
    let ghost front = all.take(a as int + 1);
    let ghost want = restated(all, a as int + 1, b as int, status@);
    assert(done =~= front);
    assert(front + want =~= done + restated(all, i as int, b as int, status@));
    while i < b
        invariant
            a + 1 <= i <= b,
            b <= n,
            n == ls.len(),
            all == strs(ls@),
            line@ == status_line(status@),
            front + want == done + restated(all, i as int, b as int, status@),
            stated == states_status(all, a as int + 1, i as int),
            out@ == text_of_lines(done),
        decreases b - i,
    {
        assert(all[i as int] == ls@[i as int]@);
        let t: String = trim_string(ls[i].as_str());
        let ghost before = done;
        let ghost rest = restated(all, i as int + 1, b as int, status@);
        if starts_with(t.as_str(), STATUS_KEY) {
            push_line(&mut out, line.as_str(), Ghost(done));
            proof {
                done = done.push(line@);
                assert(before + (seq![line@] + rest) =~= done + rest);
                assert(is_status(all[i as int]));
            }
            stated = true;
        } else {
            push_line(&mut out, ls[i].as_str(), Ghost(done));
            proof {
                done = done.push(all[i as int]);
                assert(before + (seq![all[i as int]] + rest) =~= done + rest);
                assert(!is_status(all[i as int]));
                assert(states_status(all, a as int + 1, i as int + 1) == states_status(
                    all,
                    a as int + 1,
                    i as int,
                )) by {
                    if states_status(all, a as int + 1, i as int + 1) {
                        let k = choose|k: int|
                            a + 1 <= k < i + 1 && 0 <= k < all.len() && is_status(#[trigger] all[k]);
                        assert(k != i);
                    }
                    if states_status(all, a as int + 1, i as int) {
                        let k = choose|k: int|
                            a + 1 <= k < i && 0 <= k < all.len() && is_status(#[trigger] all[k]);
                        assert(is_status(all[k]));
                    }
                }
            }
        }
        i += 1;
    }
    assert(done + restated(all, b as int, b as int, status@) =~= done);
    if b >= n {
        return out;
    }
    if !stated {
        push_line(&mut out, line.as_str(), Ghost(done));
        proof {
            done = done.push(line@);
        }
    }
    let ghost kept = done;
    assert(kept + all.subrange(b as int, b as int) =~= kept);
    while i < n
        invariant
            b <= i <= n,
            n == ls.len(),
            all == strs(ls@),
            done == kept + all.subrange(b as int, i as int),
            out@ == text_of_lines(done),
        decreases n - i,
    {
        assert(all[i as int] == ls@[i as int]@);
        push_line(&mut out, ls[i].as_str(), Ghost(done));
        proof {
            done = done.push(all[i as int]);
            assert(done =~= kept + all.subrange(b as int, i as int + 1));
        }
        i += 1;
    }
    assert(all.subrange(b as int, n as int) =~= all.skip(b as int));
    out
}

// ---------- reading what was written ----------

proof fn lemma_text_of_lines(ls: Seq<Seq<char>>)
    requires
        forall|i: int| 0 <= i < ls.len() ==> !(#[trigger] ls[i]).contains('\n'),
    ensures
        lines(text_of_lines(ls)) == Seq::new(ls.len(), |i: int| chomp(ls[i])),
        ls.len() > 0 ==> text_of_lines(ls).len() > 0 && text_of_lines(ls).last() == '\n',
        ls.len() == 0 ==> text_of_lines(ls).len() == 0,
    decreases ls.len(),
{
    let want = Seq::new(ls.len(), |i: int| chomp(ls[i]));
    if ls.len() == 0 {
        assert(lines(text_of_lines(ls)) =~= want);
    } else {
        let prev = ls.drop_last();
        assert forall|i: int| 0 <= i < prev.len() implies !(#[trigger] prev[i]).contains('\n') by {
            assert(prev[i] == ls[i]);
        }
        lemma_text_of_lines(prev);
        let line = ls.last();
        assert(!ls[ls.len() - 1].contains('\n'));
        lemma_one_line(line);
        lemma_lines_concat(text_of_lines(prev), line.push('\n'));
        assert(lines(text_of_lines(ls)) =~= want);
    }
}

proof fn lemma_lines_have_no_feed(s: Seq<char>)
    ensures
        forall|i: int| 0 <= i < lines(s).len() ==> !(#[trigger] lines(s)[i]).contains('\n'),
    decreases s.len(),
{
    let i = first_index(s, '\n');
    lemma_first_index(s, '\n');
    let ls = lines(s);
    if s.len() > 0 {
        if i >= s.len() {
            assert(ls =~= seq![s]);
            assert(!s.contains('\n'));
        } else {
            lemma_lines_have_no_feed(s.skip(i + 1));
            let first = chomp(s.take(i));
            let rest = lines(s.skip(i + 1));
            assert(ls =~= seq![first] + rest);
            assert forall|k: int| 0 <= k < ls.len() implies !(#[trigger] ls[k]).contains('\n') by {
                if k == 0 {
                    if first.contains('\n') {
                        let j = first.index_of('\n');
                        assert(s[j] == first[j]);
                    }
                } else {
                    assert(ls[k] == rest[k - 1]);
                }
            }
        }
    }
}

/// The front matter and its status depend on the trimmed lines alone.
proof fn lemma_fence_chomped(ls: Seq<Seq<char>>, from: int)
    requires
        0 <= from,
    ensures
        fence_from(Seq::new(ls.len(), |i: int| chomp(ls[i])), from) == fence_from(ls, from),
    decreases ls.len() - from,
{
    let cs = Seq::new(ls.len(), |i: int| chomp(ls[i]));
    if from < ls.len() {
        lemma_trim_chomp(ls[from]);
        lemma_fence_chomped(ls, from + 1);
    }
}

proof fn lemma_status_chomped(ls: Seq<Seq<char>>, from: int, to: int)
    ensures
        status_between(Seq::new(ls.len(), |i: int| chomp(ls[i])), from, to) == status_between(ls, from, to),
    decreases to - from,
{
    let cs = Seq::new(ls.len(), |i: int| chomp(ls[i]));
    if 0 <= from < to && from < ls.len() {
        lemma_trim_chomp(ls[from]);
        lemma_status_chomped(ls, from + 1, to);
    }
}

proof fn lemma_fence_bounds(ls: Seq<Seq<char>>, from: int)
    requires
        0 <= from <= ls.len(),
    ensures
        from <= fence_from(ls, from) <= ls.len(),
        fence_from(ls, from) < ls.len() ==> is_fence(ls[fence_from(ls, from)]),
        forall|i: int| from <= i < fence_from(ls, from) ==> !is_fence(#[trigger] ls[i]),
    decreases ls.len() - from,
{
    if from < ls.len() && !is_fence(ls[from]) {
        lemma_fence_bounds(ls, from + 1);
    }
}

/// A fence is where no line before it is one.
proof fn lemma_fence_at(ls: Seq<Seq<char>>, from: int, b: int)
    requires
        0 <= from <= b < ls.len(),
        is_fence(ls[b]),
        forall|i: int| from <= i < b ==> !is_fence(#[trigger] ls[i]),
    ensures
        fence_from(ls, from) == b,
    decreases b - from,
{
    if from < b {
        assert(!is_fence(ls[from]));
        lemma_fence_at(ls, from + 1, b);
    }
}

proof fn lemma_restated(ls: Seq<Seq<char>>, from: int, to: int, status: Seq<char>)
    requires
        0 <= from <= to <= ls.len(),
    ensures
        restated(ls, from, to, status).len() == to - from,
        forall|i: int|
            0 <= i < to - from ==> #[trigger] restated(ls, from, to, status)[i] == (if is_status(
                ls[from + i],
            ) {
                status_line(status)
            } else {
                ls[from + i]
            }),
    decreases to - from,
{
    if from < to {
        lemma_restated(ls, from + 1, to, status);
        let r = restated(ls, from, to, status);
        let t = restated(ls, from + 1, to, status);
        assert forall|i: int| 0 <= i < to - from implies #[trigger] r[i] == (if is_status(ls[from + i]) {
            status_line(status)
        } else {
            ls[from + i]
        }) by {
            if i > 0 {
                assert(r[i] == t[i - 1]);
            }
        }
    }
}

/// The status is that of the first line that states one.
proof fn lemma_status_at(ls: Seq<Seq<char>>, from: int, to: int, k: int)
    requires
        0 <= from <= k < to <= ls.len(),
        is_status(ls[k]),
        forall|i: int| from <= i < k ==> !is_status(#[trigger] ls[i]),
    ensures
        status_between(ls, from, to) == Some(trim(trim(ls[k]).skip(STATUS_KEY@.len() as int))),
    decreases k - from,
{
    if from < k {
        assert(!is_status(ls[from]));
        lemma_status_at(ls, from + 1, to, k);
    }
}

/// A plain word: not empty, on one line, and without white space at its ends.
pub open spec fn plain_status(s: Seq<char>) -> bool {
    &&& s.len() > 0
    &&& !is_space(s[0])
    &&& !is_space(s.last())
    &&& !s.contains('\n')
}

proof fn lemma_status_line(status: Seq<char>)
    requires
        plain_status(status),
    ensures
        is_status(status_line(status)),
        !is_fence(status_line(status)),
        !status_line(status).contains('\n'),
        trim(trim(status_line(status)).skip(STATUS_KEY@.len() as int)) == status,
{
    reveal_strlit("x-r2-status: ");
    reveal_strlit("x-r2-status:");
    reveal_strlit("---");
    let l = status_line(status);
    let p = "x-r2-status: "@;
    assert(p.len() == 13);
    assert(STATUS_KEY@.len() == 12);
    assert(l[0] == 'x');
    assert(l.last() == status.last());
    lemma_trimmed(l);
    assert(l.subrange(0, 12) =~= STATUS_KEY@);
    assert("---"@[0] == '-');
    let rest = l.skip(12);
    assert(rest =~= seq![' '] + status);
    assert(is_space(' '));
    assert(rest.drop_first() =~= status);
    assert(trim_start(status) == status);
    assert(trim_start(rest) == status);
    if l.contains('\n') {
        let j = l.index_of('\n');
        assert(l[j] == '\n');
        if j >= 13 {
            assert(status[j - 13] == '\n');
        } else {
            assert(p[j] == '\n');
        }
    }
}

/// The status that was written into a skill's front matter is the one that is
/// read afterwards.
pub proof fn law_status_is_read_back(content: Seq<char>, status: Seq<char>)
    requires
        has_front_matter(lines(content)),
        plain_status(status),
    ensures
        status_of(text_of_lines(with_status(lines(content), status))) == Some(status),
{
    let ls = lines(content);
    let b = fence_from(ls, 1);
    assert(fence_from(ls, 0) == 0);
    lemma_fence_bounds(ls, 1);
    lemma_restated(ls, 1, b, status);
    lemma_status_line(status);
    lemma_lines_have_no_feed(content);
    let line = status_line(status);
    let mid = restated(ls, 1, b, status);
    let new = with_status(ls, status);
    let head = ls.take(1) + mid;
    let nb = if states_status(ls, 1, b) {
        b
    } else {
        b + 1
    };
    assert(new[0] == ls[0]);
    assert forall|i: int| 0 <= i < new.len() implies !(#[trigger] new[i]).contains('\n') by {
        if i == 0 {
            assert(!ls[0].contains('\n'));
        } else if i < b {
            assert(new[i] == mid[i - 1]);
            assert(!ls[i].contains('\n'));
        } else if i < nb {
            assert(new[i] == line);
        } else {
            assert(new[i] == ls[i - nb + b]);
            assert(!ls[i - nb + b].contains('\n'));
        }
    }
    assert forall|i: int| 1 <= i < nb implies !is_fence(#[trigger] new[i]) by {
        if i < b {
            assert(new[i] == mid[i - 1]);
            assert(!is_fence(ls[i]));
        }
    }
    assert(new[nb] == ls[b]);
    lemma_fence_at(new, 1, nb);
    let k = if states_status(ls, 1, b) {
        first_status(ls, 1, b)
    } else {
        b
    };
    if states_status(ls, 1, b) {
        lemma_first_status(ls, 1, b);
        assert(new[k] == mid[k - 1]);
        assert(new[k] == line);
    } else {
        assert(new[k] == line);
    }
    assert forall|i: int| 1 <= i < k implies !is_status(#[trigger] new[i]) by {
        assert(new[i] == mid[i - 1]);
        assert(!is_status(ls[i]));
    }
    lemma_status_at(new, 1, nb, k);
    lemma_text_of_lines(new);
    let cs = Seq::new(new.len(), |i: int| chomp(new[i]));
    lemma_fence_chomped(new, 0);
    lemma_fence_chomped(new, 1);
    lemma_status_chomped(new, 1, nb);
    lemma_trim_chomp(new[0]);
}

/// The first line from `from` on that states a status, or `to`.
spec fn first_status(ls: Seq<Seq<char>>, from: int, to: int) -> int
    decreases to - from,
{
    if from >= to || is_status(ls[from]) {
        from
    } else {
        first_status(ls, from + 1, to)
    }
}

proof fn lemma_first_status(ls: Seq<Seq<char>>, from: int, to: int)
    requires
        0 <= from <= to <= ls.len(),
        states_status(ls, from, to),
    ensures
        from <= first_status(ls, from, to) < to,
        is_status(ls[first_status(ls, from, to)]),
        forall|i: int| from <= i < first_status(ls, from, to) ==> !is_status(#[trigger] ls[i]),
    decreases to - from,
{
    let k = choose|k: int| from <= k < to && 0 <= k < ls.len() && is_status(#[trigger] ls[k]);
    if !is_status(ls[from]) {
        assert(is_status(ls[k]));
        lemma_first_status(ls, from + 1, to);
    }
}

} // verus!
