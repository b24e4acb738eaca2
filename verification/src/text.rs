//! Text as sequences of characters: comparison, trimming, lines, searching,
//! joining and decimal numbers.

use vstd::prelude::*;
use vstd::slice::slice_subrange;
use vstd::utf8::{decode_utf8, encode_utf8, valid_utf8};

verus! {

/// `String::push` appends the given character to the end of the string.
pub assume_specification [String::push](s: &mut String, c: char)
    ensures
        final(s)@ == old(s)@.push(c),
;

// ---------- characters ----------

/// Unicode `White_Space`.
pub open spec fn is_space(c: char) -> bool {
    ||| 0x9 <= c as u32 <= 0xd
    ||| c as u32 == 0x20
    ||| c as u32 == 0x85
    ||| c as u32 == 0xa0
    ||| c as u32 == 0x1680
    ||| 0x2000 <= c as u32 <= 0x200a
    ||| c as u32 == 0x2028
    ||| c as u32 == 0x2029
    ||| c as u32 == 0x202f
    ||| c as u32 == 0x205f
    ||| c as u32 == 0x3000
}

pub fn is_whitespace(c: char) -> (r: bool)
    ensures
        r == is_space(c),
{
    let u: u32 = c as u32;
    (0x9 <= u && u <= 0xd) || u == 0x20 || u == 0x85 || u == 0xa0 || u == 0x1680 || (0x2000 <= u && u
        <= 0x200a) || u == 0x2028 || u == 0x2029 || u == 0x202f || u == 0x205f || u == 0x3000
}

/// `A`-`Z`, `a`-`z` or `0`-`9`.
pub open spec fn ascii_alnum(c: char) -> bool {
    ||| 'a' <= c <= 'z'
    ||| 'A' <= c <= 'Z'
    ||| '0' <= c <= '9'
}

pub fn is_ascii_alnum(c: char) -> (r: bool)
    ensures
        r == ascii_alnum(c),
{
    ('a' <= c && c <= 'z') || ('A' <= c && c <= 'Z') || ('0' <= c && c <= '9')
}

/// The lower-case letter for an ASCII capital, every other character as it is.
pub open spec fn ascii_lower(c: char) -> char {
    if 'A' <= c <= 'Z' {
        ((c as u8) + 32) as char
    } else {
        c
    }
}

pub fn to_ascii_lower(c: char) -> (r: char)
    ensures
        r == ascii_lower(c),
{
    if 'A' <= c && c <= 'Z' {
        (c as u8 + 32) as char
    } else {
        c
    }
}

pub open spec fn ascii_lower_all(s: Seq<char>) -> Seq<char> {
    Seq::new(s.len(), |i: int| ascii_lower(s[i]))
}

// ---------- strings and their characters ----------

/// The texts of a list of strings.
pub open spec fn strs(v: Seq<String>) -> Seq<Seq<char>> {
    Seq::new(v.len(), |i: int| v[i]@)
}

/// The characters of a string, in order.
pub fn chars_of(s: &str) -> (r: Vec<char>)
    ensures
        r@ == s@,
{
    let mut out: Vec<char> = Vec::new();
    for c in it: s.chars()
        invariant
            it.seq() == s@,
            out@ == s@.take(it.index() as int),
    {
        out.push(c);
        assert(out@ =~= s@.take(it.index() as int + 1));
    }
    assert(out@ =~= s@);
    out
}

/// The string made of the given characters.
pub fn string_of(v: &[char]) -> (r: String)
    ensures
        r@ == v@,
{
    let mut out: String = String::new();
    let mut i: usize = 0;
    while i < v.len()
        invariant
            i <= v.len(),
            out@ == v@.take(i as int),
        decreases v.len() - i,
    {
        out.push(v[i]);
        i += 1;
        assert(out@ =~= v@.take(i as int));
    }
    assert(out@ =~= v@);
    out
}

/// The characters from `from` up to `to`, as a string.
pub fn slice_of(v: &[char], from: usize, to: usize) -> (r: String)
    requires
        from <= to <= v.len(),
    ensures
        r@ == v@.subrange(from as int, to as int),
{
    string_of(slice_subrange(v, from, to))
}

pub fn chars_eq(a: &[char], b: &[char]) -> (r: bool)
    ensures
        r == (a@ == b@),
{
    if a.len() != b.len() {
        return false;
    }
    let mut i: usize = 0;
    while i < a.len()
        invariant
            i <= a.len(),
            a.len() == b.len(),
            forall|j: int| 0 <= j < i ==> a@[j] == b@[j],
        decreases a.len() - i,
    {
        if a[i] != b[i] {
            return false;
        }
        i += 1;
    }
    assert(a@ =~= b@);
    true
}

/// Whether two strings hold the same characters.
pub fn str_eq(a: &str, b: &str) -> (r: bool)
    ensures
        r == (a@ == b@),
{
    let x: Vec<char> = chars_of(a);
    let y: Vec<char> = chars_of(b);
    chars_eq(x.as_slice(), y.as_slice())
}

/// Whether one of the strings equals `x`.
pub fn list_has(list: &Vec<String>, x: &str) -> (r: bool)
    ensures
        r == strs(list@).contains(x@),
{
    let mut i: usize = 0;
    while i < list.len()
        invariant
            i <= list.len(),
            forall|j: int| 0 <= j < i ==> list@[j]@ != x@,
        decreases list.len() - i,
    {
        if str_eq(list[i].as_str(), x) {
            assert(strs(list@)[i as int] == x@);
            return true;
        }
        i += 1;
    }
    assert forall|j: int| 0 <= j < strs(list@).len() implies strs(list@)[j] != x@ by {}
    false
}

/// A copy of a list of strings.
pub fn clone_list(list: &Vec<String>) -> (r: Vec<String>)
    ensures
        r@ == list@,
{
    let mut out: Vec<String> = Vec::new();
    let mut i: usize = 0;
    while i < list.len()
        invariant
            i <= list.len(),
            out@ == list@.take(i as int),
        decreases list.len() - i,
    {
        out.push(list[i].clone());
        i += 1;
        assert(out@ =~= list@.take(i as int));
    }
    assert(out@ =~= list@);
    out
}

/// A copy of an optional string.
pub fn clone_opt(s: &Option<String>) -> (r: Option<String>)
    ensures
        r == *s,
{
    match s {
        Some(x) => Some(x.clone()),
        None => None,
    }
}

/// Length of a text in UTF-8 bytes.
pub open spec fn utf8_len(s: Seq<char>) -> nat {
    encode_utf8(s).len()
}

pub fn byte_len(s: &str) -> (r: usize)
    ensures
        r == utf8_len(s@),
{
    s.as_bytes().len()
}

/// What `String::from_utf8_lossy` makes of bytes that are not valid UTF-8.
pub uninterp spec fn lossy_decoded(bytes: Seq<u8>) -> Seq<char>;

/// Decodes bytes with `String::from_utf8_lossy`: valid UTF-8 is decoded as it
/// is; what other bytes give depends on them alone.
#[verifier::external_body]
fn decode_lossy(bytes: &[u8]) -> (r: String)
    ensures
        valid_utf8(bytes@) ==> r@ == decode_utf8(bytes@),
        !valid_utf8(bytes@) ==> r@ == lossy_decoded(bytes@),
{
    String::from_utf8_lossy(bytes).into_owned()
}

/// The text that bytes stand for; invalid UTF-8 is replaced.
pub open spec fn lossy(bytes: Seq<u8>) -> Seq<char> {
    if valid_utf8(bytes) {
        decode_utf8(bytes)
    } else {
        lossy_decoded(bytes)
    }
}

pub fn text_of_bytes(bytes: &[u8]) -> (r: String)
    ensures
        r@ == lossy(bytes@),
{
    decode_lossy(bytes)
}

/// Bytes that encode a text decode to it.
pub proof fn lemma_lossy_encoded(s: Seq<char>)
    ensures
        lossy(encode_utf8(s)) == s,
{
    vstd::utf8::encode_utf8_valid_utf8(s);
    vstd::utf8::encode_utf8_decode_utf8(s);
}

/// The text in ASCII lower case.
pub fn ascii_lowercase(s: &str) -> (r: String)
    ensures
        r@ == ascii_lower_all(s@),
{
    let v: Vec<char> = chars_of(s);
    let mut out: String = String::new();
    let mut i: usize = 0;
    while i < v.len()
        invariant
            i <= v.len(),
            v@ == s@,
            out@ == ascii_lower_all(s@.take(i as int)),
        decreases v.len() - i,
    {
        out.push(to_ascii_lower(v[i]));
        i += 1;
        assert(out@ =~= ascii_lower_all(s@.take(i as int)));
    }
    assert(s@.take(i as int) =~= s@);
    out
}

// ---------- trimming ----------

/// Without the white space at the front.
pub open spec fn trim_start(s: Seq<char>) -> Seq<char>
    decreases s.len(),
{
    if s.len() > 0 && is_space(s[0]) {
        trim_start(s.drop_first())
    } else {
        s
    }
}

/// Without the white space at the end.
pub open spec fn trim_end(s: Seq<char>) -> Seq<char>
    decreases s.len(),
{
    if s.len() > 0 && is_space(s.last()) {
        trim_end(s.drop_last())
    } else {
        s
    }
}

/// Without white space at either end.
pub open spec fn trim(s: Seq<char>) -> Seq<char> {
    trim_end(trim_start(s))
}

/// Without the copies of `c` at the front.
pub open spec fn strip_left(s: Seq<char>, c: char) -> Seq<char>
    decreases s.len(),
{
    if s.len() > 0 && s[0] == c {
        strip_left(s.drop_first(), c)
    } else {
        s
    }
}

/// Without the copies of `c` at the end.
pub open spec fn strip_right(s: Seq<char>, c: char) -> Seq<char>
    decreases s.len(),
{
    if s.len() > 0 && s.last() == c {
        strip_right(s.drop_last(), c)
    } else {
        s
    }
}

/// Without the copies of `c` at either end.
pub open spec fn strip_both(s: Seq<char>, c: char) -> Seq<char> {
    strip_right(strip_left(s, c), c)
}

pub fn trim_start_string(s: &str) -> (r: String)
    ensures
        r@ == trim_start(s@),
{
    let v: Vec<char> = chars_of(s);
    let mut i: usize = 0;
    assert(s@.skip(0) =~= s@);
    while i < v.len() && is_whitespace(v[i])
        invariant
            i <= v.len(),
            v@ == s@,
            trim_start(s@) == trim_start(s@.skip(i as int)),
        decreases v.len() - i,
    {
        assert(s@.skip(i as int).drop_first() =~= s@.skip(i as int + 1));
        i += 1;
    }
    assert(s@.subrange(i as int, s@.len() as int) =~= s@.skip(i as int));
    slice_of(v.as_slice(), i, v.len())
}

pub fn trim_end_string(s: &str) -> (r: String)
    ensures
        r@ == trim_end(s@),
{
    let v: Vec<char> = chars_of(s);
    let mut j: usize = v.len();
    assert(s@.take(j as int) =~= s@);
    while j > 0 && is_whitespace(v[j - 1])
        invariant
            j <= v.len(),
            v@ == s@,
            trim_end(s@) == trim_end(s@.take(j as int)),
        decreases j,
    {
        assert(s@.take(j as int).drop_last() =~= s@.take(j as int - 1));
        j -= 1;
    }
    assert(s@.subrange(0, j as int) =~= s@.take(j as int));
    slice_of(v.as_slice(), 0, j)
}

pub fn trim_string(s: &str) -> (r: String)
    ensures
        r@ == trim(s@),
{
    let a: String = trim_start_string(s);
    trim_end_string(a.as_str())
}

pub fn strip_left_string(s: &str, c: char) -> (r: String)
    ensures
        r@ == strip_left(s@, c),
{
    let v: Vec<char> = chars_of(s);
    let mut i: usize = 0;
    assert(s@.skip(0) =~= s@);
    while i < v.len() && v[i] == c
        invariant
            i <= v.len(),
            v@ == s@,
            strip_left(s@, c) == strip_left(s@.skip(i as int), c),
        decreases v.len() - i,
    {
        assert(s@.skip(i as int).drop_first() =~= s@.skip(i as int + 1));
        i += 1;
    }
    assert(s@.subrange(i as int, s@.len() as int) =~= s@.skip(i as int));
    slice_of(v.as_slice(), i, v.len())
}

pub fn strip_right_string(s: &str, c: char) -> (r: String)
    ensures
        r@ == strip_right(s@, c),
{
    let v: Vec<char> = chars_of(s);
    let mut j: usize = v.len();
    assert(s@.take(j as int) =~= s@);
    while j > 0 && v[j - 1] == c
        invariant
            j <= v.len(),
            v@ == s@,
            strip_right(s@, c) == strip_right(s@.take(j as int), c),
        decreases j,
    {
        assert(s@.take(j as int).drop_last() =~= s@.take(j as int - 1));
        j -= 1;
    }
    assert(s@.subrange(0, j as int) =~= s@.take(j as int));
    slice_of(v.as_slice(), 0, j)
}

pub fn strip_both_string(s: &str, c: char) -> (r: String)
    ensures
        r@ == strip_both(s@, c),
{
    let a: String = strip_left_string(s, c);
    strip_right_string(a.as_str(), c)
}

// ---------- searching ----------

/// `pat` stands in `s` at position `i`.
pub open spec fn occurs_at(s: Seq<char>, pat: Seq<char>, i: int) -> bool {
    &&& 0 <= i
    &&& i + pat.len() <= s.len()
    &&& s.subrange(i, i + pat.len()) == pat
}

/// `pat` stands somewhere in `s`.
pub open spec fn contains_text(s: Seq<char>, pat: Seq<char>) -> bool {
    exists|i: int| occurs_at(s, pat, i)
}

/// The first position from `from` on at which `pat` stands in `s`.
pub open spec fn find_from(s: Seq<char>, pat: Seq<char>, from: int) -> Option<int>
    decreases s.len() + 1 - from,
{
    if from + pat.len() > s.len() {
        None
    } else if occurs_at(s, pat, from) {
        Some(from)
    } else {
        find_from(s, pat, from + 1)
    }
}

/// The first position at which `pat` stands in `s`.
pub open spec fn find_text(s: Seq<char>, pat: Seq<char>) -> Option<int> {
    find_from(s, pat, 0)
}

/// A search finds an occurrence, and none stands before it.
pub proof fn lemma_find_from(s: Seq<char>, pat: Seq<char>, from: int)
    requires
        0 <= from,
    ensures
        match find_from(s, pat, from) {
            Some(i) => from <= i && occurs_at(s, pat, i) && forall|j: int|
                from <= j < i ==> !occurs_at(s, pat, j),
            None => forall|j: int| from <= j ==> !occurs_at(s, pat, j),
        },
    decreases s.len() + 1 - from,
{
    if from + pat.len() > s.len() {
    } else if occurs_at(s, pat, from) {
    } else {
        lemma_find_from(s, pat, from + 1);
    }
}

/// A text contains a pattern exactly where a search finds it.
pub proof fn lemma_contains_find(s: Seq<char>, pat: Seq<char>)
    ensures
        contains_text(s, pat) == (find_text(s, pat) is Some),
{
    lemma_find_from(s, pat, 0);
}

pub fn chars_at(s: &[char], pat: &[char], i: usize) -> (r: bool)
    ensures
        r == occurs_at(s@, pat@, i as int),
{
    if i > s.len() || pat.len() > s.len() - i {
        return false;
    }
    let r: bool = chars_eq(slice_subrange(s, i, i + pat.len()), pat);
    r
}

pub fn find_chars(s: &[char], pat: &[char]) -> (r: Option<usize>)
    ensures
        match r {
            Some(i) => find_text(s@, pat@) == Some(i as int),
            None => find_text(s@, pat@) is None,
        },
{
    if pat.len() > s.len() {
        return None;
    }
    let last: usize = s.len() - pat.len();
    let mut i: usize = 0;
    while i < last
        invariant
            i <= last,
            last == s.len() - pat.len(),
            find_text(s@, pat@) == find_from(s@, pat@, i as int),
        decreases last - i,
    {
        if chars_at(s, pat, i) {
            return Some(i);
        }
        i += 1;
    }
    if chars_at(s, pat, last) {
        Some(last)
    } else {
        assert(find_from(s@, pat@, last + 1) is None);
        None
    }
}

/// The position, in characters, of the first occurrence of `pat`.
pub fn find_string(s: &str, pat: &str) -> (r: Option<usize>)
    ensures
        match r {
            Some(i) => find_text(s@, pat@) == Some(i as int),
            None => find_text(s@, pat@) is None,
        },
{
    let a: Vec<char> = chars_of(s);
    let b: Vec<char> = chars_of(pat);
    find_chars(a.as_slice(), b.as_slice())
}

pub fn contains_string(s: &str, pat: &str) -> (r: bool)
    ensures
        r == contains_text(s@, pat@),
{
    proof {
        lemma_contains_find(s@, pat@);
    }
    find_string(s, pat).is_some()
}

pub fn starts_with(s: &str, pat: &str) -> (r: bool)
    ensures
        r == occurs_at(s@, pat@, 0),
{
    let a: Vec<char> = chars_of(s);
    let b: Vec<char> = chars_of(pat);
    chars_at(a.as_slice(), b.as_slice(), 0)
}

/// What follows `pat` at the front of `s`, where `s` starts with it.
pub open spec fn after_prefix(s: Seq<char>, pat: Seq<char>) -> Option<Seq<char>> {
    if occurs_at(s, pat, 0) {
        Some(s.skip(pat.len() as int))
    } else {
        None
    }
}

pub fn strip_prefix(s: &str, pat: &str) -> (r: Option<String>)
    ensures
        match r {
            Some(x) => after_prefix(s@, pat@) == Some(x@),
            None => after_prefix(s@, pat@) is None,
        },
{
    let a: Vec<char> = chars_of(s);
    let b: Vec<char> = chars_of(pat);
    if chars_at(a.as_slice(), b.as_slice(), 0) {
        assert(s@.subrange(pat@.len() as int, s@.len() as int) =~= s@.skip(pat@.len() as int));
        Some(slice_of(a.as_slice(), b.len(), a.len()))
    } else {
        None
    }
}

// ---------- parts of a text ----------

/// At most the first `n` characters.
pub open spec fn head(s: Seq<char>, n: nat) -> Seq<char> {
    if s.len() <= n {
        s
    } else {
        s.take(n as int)
    }
}

/// At most the last `n` characters.
pub open spec fn tail(s: Seq<char>, n: nat) -> Seq<char> {
    if s.len() <= n {
        s
    } else {
        s.skip(s.len() - n)
    }
}

pub fn char_count(s: &str) -> (r: usize)
    ensures
        r == s@.len(),
{
    chars_of(s).len()
}

pub fn head_string(s: &str, n: usize) -> (r: String)
    ensures
        r@ == head(s@, n as nat),
{
    let v: Vec<char> = chars_of(s);
    let k: usize = if v.len() <= n {
        v.len()
    } else {
        n
    };
    assert(s@.subrange(0, k as int) =~= head(s@, n as nat));
    slice_of(v.as_slice(), 0, k)
}

pub fn tail_string(s: &str, n: usize) -> (r: String)
    ensures
        r@ == tail(s@, n as nat),
{
    let v: Vec<char> = chars_of(s);
    let k: usize = if v.len() <= n {
        0
    } else {
        v.len() - n
    };
    assert(s@.subrange(k as int, s@.len() as int) =~= tail(s@, n as nat));
    slice_of(v.as_slice(), k, v.len())
}

/// The position of the first `c`, or the length of the text.
pub open spec fn first_index(s: Seq<char>, c: char) -> int
    decreases s.len(),
{
    if s.len() == 0 || s[0] == c {
        0
    } else {
        1 + first_index(s.drop_first(), c)
    }
}

pub proof fn lemma_first_index(s: Seq<char>, c: char)
    ensures
        0 <= first_index(s, c) <= s.len(),
        forall|j: int| 0 <= j < first_index(s, c) ==> s[j] != c,
        first_index(s, c) < s.len() ==> s[first_index(s, c)] == c,
    decreases s.len(),
{
    if s.len() > 0 && s[0] != c {
        let t = s.drop_first();
        lemma_first_index(t, c);
        assert forall|j: int| 0 <= j < first_index(s, c) implies s[j] != c by {
            if j > 0 {
                assert(t[j - 1] == s[j]);
            }
        }
    }
}

/// The position of the first `c` from `from` on, or the length.
pub fn index_from(v: &[char], c: char, from: usize) -> (r: usize)
    requires
        from <= v.len(),
    ensures
        from <= r <= v.len(),
        r == from + first_index(v@.skip(from as int), c),
        r < v.len() ==> v@[r as int] == c,
{
    let mut i: usize = from;
    while i < v.len() && v[i] != c
        invariant
            from <= i <= v.len(),
            first_index(v@.skip(from as int), c) == (i - from) + first_index(v@.skip(i as int), c),
        decreases v.len() - i,
    {
        assert(v@.skip(i as int).drop_first() =~= v@.skip(i as int + 1));
        i += 1;
    }
    i
}

/// A line without the carriage return that precedes its line feed.
pub open spec fn chomp(s: Seq<char>) -> Seq<char> {
    if s.len() > 0 && s.last() == '\r' {
        s.drop_last()
    } else {
        s
    }
}

/// The lines of a text. A line ends with a line feed, or a carriage return and
/// a line feed; the last line may have no end.
pub open spec fn lines(s: Seq<char>) -> Seq<Seq<char>>
    decreases s.len(),
{
    let i = first_index(s, '\n');
    proof {
        lemma_first_index(s, '\n');
    }
    if s.len() == 0 {
        Seq::empty()
    } else if i >= s.len() {
        seq![s]
    } else {
        seq![chomp(s.take(i))] + lines(s.skip(i + 1))
    }
}

/// A complete text is read before what follows it.
pub proof fn lemma_lines_concat(a: Seq<char>, b: Seq<char>)
    requires
        a.len() == 0 || a.last() == '\n',
    ensures
        lines(a + b) == lines(a) + lines(b),
    decreases a.len(),
{
    if a.len() == 0 {
        assert(a + b =~= b);
        assert(lines(a) + lines(b) =~= lines(b));
    } else {
        let i = first_index(a, '\n');
        lemma_first_index(a, '\n');
        assert(i < a.len());
        let ab = a + b;
        lemma_first_index(ab, '\n');
        assert(ab[i] == '\n');
        let j = first_index(ab, '\n');
        if j < i {
            assert(ab[j] == a[j]);
        }
        assert(j == i);
        assert(ab.take(i) =~= a.take(i));
        assert(ab.skip(i + 1) =~= a.skip(i + 1) + b);
        let rest = a.skip(i + 1);
        if rest.len() > 0 {
            assert(rest.last() == a.last());
        }
        lemma_lines_concat(rest, b);
        assert(lines(ab) =~= lines(a) + lines(b));
    }
}

/// A text without a line feed is one line, once a line feed ends it.
pub proof fn lemma_one_line(line: Seq<char>)
    requires
        !line.contains('\n'),
    ensures
        lines(line.push('\n')) == seq![chomp(line)],
{
    let s = line.push('\n');
    lemma_first_index(s, '\n');
    let i = first_index(s, '\n');
    if i < line.len() {
        assert(line[i] == '\n');
        assert(line.contains('\n'));
    }
    assert(s[line.len() as int] == '\n');
    assert(i == line.len());
    assert(s.take(i) =~= line);
    assert(s.skip(i + 1) =~= Seq::<char>::empty());
    assert(lines(s.skip(i + 1)) =~= Seq::<Seq<char>>::empty());
    assert(lines(s) =~= seq![chomp(line)]);
}

/// A text with no white space at its ends is its own trimmed form.
pub proof fn lemma_trimmed(s: Seq<char>)
    requires
        s.len() > 0,
        !is_space(s[0]),
        !is_space(s.last()),
    ensures
        trim(s) == s,
{
}

/// A carriage return at the end does not change the trimmed form.
pub proof fn lemma_trim_chomp(s: Seq<char>)
    ensures
        trim(chomp(s)) == trim(s),
    decreases s.len(),
{
    if s.len() > 0 && s.last() == '\r' {
        let m = s.drop_last();
        if m.len() == 0 {
            assert(s.drop_first() =~= m);
            assert(s[0] == '\r');
            assert(trim_start(s) == trim_start(m));
        } else if is_space(m[0]) {
            assert(s[0] == m[0]);
            let t = s.drop_first();
            assert(chomp(t) =~= m.drop_first());
            lemma_trim_chomp(t);
        } else {
            assert(s[0] == m[0]);
            assert(trim_start(s) == s);
            assert(trim_start(m) == m);
        }
    }
}

pub fn lines_of(s: &str) -> (r: Vec<String>)
    ensures
        strs(r@) == lines(s@),
{
    let v: Vec<char> = chars_of(s);
    let mut out: Vec<String> = Vec::new();
    let mut pos: usize = 0;
    proof {
        assert(s@.skip(0) =~= s@);
        assert(strs(out@) + lines(s@) =~= lines(s@));
    }
    while pos < v.len()
        invariant
            pos <= v.len(),
            v@ == s@,
            strs(out@) + lines(s@.skip(pos as int)) == lines(s@),
        decreases v.len() - pos,
    {
        let e: usize = index_from(v.as_slice(), '\n', pos);
        let ghost rest = s@.skip(pos as int);
        let ghost before = strs(out@);
        proof {
            lemma_first_index(rest, '\n');
        }
        if e >= v.len() {
            out.push(slice_of(v.as_slice(), pos, e));
            proof {
                assert(s@.subrange(pos as int, e as int) =~= rest);
                assert(strs(out@) =~= before.push(rest));
                assert(before + seq![rest] =~= before.push(rest));
                assert(lines(s@.skip(e as int)) =~= Seq::<Seq<char>>::empty());
                assert(strs(out@) + lines(s@.skip(e as int)) =~= strs(out@));
            }
            pos = e;
        } else {
            let cut: usize = if e > pos && v[e - 1] == '\r' {
                e - 1
            } else {
                e
            };
            out.push(slice_of(v.as_slice(), pos, cut));
            proof {
                let i = first_index(rest, '\n');
                assert(rest.take(i) =~= s@.subrange(pos as int, e as int));
                assert(chomp(rest.take(i)) =~= s@.subrange(pos as int, cut as int));
                assert(rest.skip(i + 1) =~= s@.skip(e as int + 1));
                assert(strs(out@) =~= before.push(chomp(rest.take(i))));
                assert(strs(out@) + lines(s@.skip(e as int + 1)) =~= before + (seq![
                    chomp(rest.take(i)),
                ] + lines(s@.skip(e as int + 1))));
            }
            pos = e + 1;
        }
    }
    proof {
        assert(lines(s@.skip(pos as int)) =~= Seq::<Seq<char>>::empty());
        assert(strs(out@) + Seq::<Seq<char>>::empty() =~= strs(out@));
    }
    out
}

/// The parts of a text between the copies of `c`.
pub open spec fn split(s: Seq<char>, c: char) -> Seq<Seq<char>>
    decreases s.len(),
{
    let i = first_index(s, c);
    proof {
        lemma_first_index(s, c);
    }
    if i >= s.len() {
        seq![s]
    } else {
        seq![s.take(i)] + split(s.skip(i + 1), c)
    }
}

pub fn split_string(s: &str, c: char) -> (r: Vec<String>)
    ensures
        strs(r@) == split(s@, c),
        r.len() > 0,
{
    let v: Vec<char> = chars_of(s);
    let mut out: Vec<String> = Vec::new();
    let mut pos: usize = 0;
    proof {
        assert(s@.skip(0) =~= s@);
        assert(strs(out@) + split(s@, c) =~= split(s@, c));
    }
    loop
        invariant
            pos <= v.len(),
            v@ == s@,
            strs(out@) + split(s@.skip(pos as int), c) == split(s@, c),
        decreases v.len() - pos,
    {
        let e: usize = index_from(v.as_slice(), c, pos);
        let ghost rest = s@.skip(pos as int);
        let ghost before = strs(out@);
        out.push(slice_of(v.as_slice(), pos, e));
        proof {
            lemma_first_index(rest, c);
            assert(s@.subrange(pos as int, e as int) =~= rest.take(e - pos));
            assert(strs(out@) =~= before.push(rest.take(e - pos)));
        }
        if e >= v.len() {
            proof {
                assert(rest.take(e - pos) =~= rest);
                assert(before + seq![rest] =~= strs(out@));
            }
            return out;
        }
        proof {
            assert(rest.skip(e - pos + 1) =~= s@.skip(e as int + 1));
            assert(strs(out@) + split(s@.skip(e as int + 1), c) =~= before + (seq![rest.take(e - pos)] + split(
                s@.skip(e as int + 1),
                c,
            )));
        }
        pos = e + 1;
    }
}

// ---------- joining ----------

/// The parts one after another, with `sep` between them.
pub open spec fn join(parts: Seq<Seq<char>>, sep: Seq<char>) -> Seq<char>
    decreases parts.len(),
{
    if parts.len() == 0 {
        Seq::empty()
    } else if parts.len() == 1 {
        parts[0]
    } else {
        join(parts.drop_last(), sep) + sep + parts.last()
    }
}

pub fn join_strings(parts: &Vec<String>, sep: &str) -> (r: String)
    ensures
        r@ == join(strs(parts@), sep@),
{
    let mut out: String = String::new();
    let mut i: usize = 0;
    while i < parts.len()
        invariant
            i <= parts.len(),
            out@ == join(strs(parts@.take(i as int)), sep@),
        decreases parts.len() - i,
    {
        let ghost before = out@;
        proof {
            let now = strs(parts@.take(i as int + 1));
            assert(now.drop_last() =~= strs(parts@.take(i as int)));
            assert(now.last() == parts@[i as int]@);
        }
        if i == 0 {
            assert(before + parts@[0]@ =~= parts@[0]@);
        } else {
            out.append(sep);
        }
        out.append(parts[i].as_str());
        i += 1;
    }
    assert(parts@.take(i as int) =~= parts@);
    out
}

// ---------- decimal numbers ----------

pub open spec fn digit(n: nat) -> char {
    (('0' as nat + n) as u8) as char
}

/// A natural number in decimal.
pub open spec fn dec(n: nat) -> Seq<char>
    decreases n,
{
    if n < 10 {
        seq![digit(n)]
    } else {
        dec(n / 10).push(digit(n % 10))
    }
}

pub fn digit_of(n: u8) -> (r: char)
    requires
        n < 10,
    ensures
        r == digit(n as nat),
{
    (48 + n) as char
}

/// A number in decimal.
pub fn dec_string(n: u64) -> (r: String)
    ensures
        r@ == dec(n as nat),
    decreases n,
{
    if n < 10 {
        let mut s: String = String::new();
        s.push(digit_of(n as u8));
        assert(s@ =~= dec(n as nat));
        s
    } else {
        let mut s: String = dec_string(n / 10);
        s.push(digit_of((n % 10) as u8));
        s
    }
}

/// An integer in decimal, with a minus sign where it is negative.
pub open spec fn dec_int(n: int) -> Seq<char> {
    if n < 0 {
        seq!['-'] + dec((-n) as nat)
    } else {
        dec(n as nat)
    }
}

pub fn dec_int_string(n: i64) -> (r: String)
    ensures
        r@ == dec_int(n as int),
{
    if n < 0 {
        let m: u64 = (-(n as i128)) as u64;
        let mut s: String = String::new();
        s.push('-');
        let d: String = dec_string(m);
        s.append(d.as_str());
        assert(s@ =~= seq!['-'] + dec(m as nat));
        s
    } else {
        dec_string(n as u64)
    }
}

/// The digits `0` to `9`.
pub open spec fn is_digit(c: char) -> bool {
    '0' <= c <= '9'
}

pub open spec fn all_digits(s: Seq<char>) -> bool {
    forall|i: int| 0 <= i < s.len() ==> is_digit(#[trigger] s[i])
}

/// The number that digits stand for.
pub open spec fn dec_value(s: Seq<char>) -> nat
    decreases s.len(),
{
    if s.len() == 0 {
        0
    } else {
        dec_value(s.drop_last()) * 10 + (s.last() as nat - '0' as nat) as nat
    }
}

/// The number that a text of digits stands for, where it has a digit and the
/// number is at most `max`.
pub open spec fn digits_value(s: Seq<char>, max: nat) -> Option<nat> {
    if s.len() > 0 && all_digits(s) && dec_value(s) <= max {
        Some(dec_value(s))
    } else {
        None
    }
}

proof fn lemma_dec_value_grows(s: Seq<char>, k: int)
    requires
        0 <= k <= s.len(),
        all_digits(s),
    ensures
        dec_value(s.take(k)) <= dec_value(s),
    decreases s.len() - k,
{
    if k < s.len() {
        lemma_dec_value_grows(s, k + 1);
        assert(s.take(k + 1).drop_last() =~= s.take(k));
    } else {
        assert(s.take(k) =~= s);
    }
}

pub fn digits_value_of(v: &[char], max: u64) -> (r: Option<u64>)
    ensures
        match r {
            Some(n) => digits_value(v@, max as nat) == Some(n as nat),
            None => digits_value(v@, max as nat) is None,
        },
{
    if v.len() == 0 {
        return None;
    }
    let mut acc: u64 = 0;
    let mut i: usize = 0;
    while i < v.len()
        invariant
            i <= v.len(),
            acc <= max,
            forall|j: int| 0 <= j < i ==> is_digit(#[trigger] v@[j]),
            acc == dec_value(v@.take(i as int)),
        decreases v.len() - i,
    {
        let c: char = v[i];
        if !('0' <= c && c <= '9') {
            assert(!is_digit(v@[i as int]));
            return None;
        }
        let d: u64 = (c as u32 - 48) as u64;
        proof {
            assert(v@.take(i as int + 1).drop_last() =~= v@.take(i as int));
        }
        if acc as u128 * 10 + d as u128 > max as u128 {
            proof {
                if all_digits(v@) {
                    lemma_dec_value_grows(v@, i as int + 1);
                }
            }
            return None;
        }
        acc = acc * 10 + d;
        i += 1;
    }
    assert(v@.take(i as int) =~= v@);
    assert(all_digits(v@));
    Some(acc)
}

/// An unsigned number as `str::parse` reads it: an optional plus sign and
/// digits.
pub open spec fn parsed_uint(s: Seq<char>, max: nat) -> Option<nat> {
    if s.len() > 0 && s[0] == '+' {
        digits_value(s.skip(1), max)
    } else {
        digits_value(s, max)
    }
}

pub fn parse_uint(s: &str, max: u64) -> (r: Option<u64>)
    ensures
        match r {
            Some(n) => parsed_uint(s@, max as nat) == Some(n as nat),
            None => parsed_uint(s@, max as nat) is None,
        },
{
    let v: Vec<char> = chars_of(s);
    if v.len() > 0 && v[0] == '+' {
        assert(s@.subrange(1, s@.len() as int) =~= s@.skip(1));
        digits_value_of(slice_subrange(v.as_slice(), 1, v.len()), max)
    } else {
        digits_value_of(v.as_slice(), max)
    }
}

/// The digits at the front of a text.
pub open spec fn leading_digits(s: Seq<char>) -> Seq<char>
    decreases s.len(),
{
    if s.len() > 0 && is_digit(s[0]) {
        seq![s[0]] + leading_digits(s.drop_first())
    } else {
        Seq::empty()
    }
}

proof fn lemma_leading_digits(s: Seq<char>, k: int)
    requires
        0 <= k <= s.len(),
        forall|j: int| 0 <= j < k ==> is_digit(#[trigger] s[j]),
        k < s.len() ==> !is_digit(s[k]),
    ensures
        leading_digits(s) == s.take(k),
    decreases s.len(),
{
    if k == 0 {
        assert(s.take(0) =~= Seq::<char>::empty());
    } else {
        let t = s.drop_first();
        assert(is_digit(s[0]));
        assert forall|j: int| 0 <= j < k - 1 implies is_digit(#[trigger] t[j]) by {
            assert(is_digit(s[j + 1]));
        }
        lemma_leading_digits(t, k - 1);
        assert(seq![s[0]] + t.take(k - 1) =~= s.take(k));
    }
}

/// The number of digits at the front.
pub fn count_leading_digits(v: &[char]) -> (r: usize)
    ensures
        r <= v.len(),
        leading_digits(v@) == v@.take(r as int),
{
    let mut i: usize = 0;
    while i < v.len() && '0' <= v[i] && v[i] <= '9'
        invariant
            i <= v.len(),
            forall|j: int| 0 <= j < i ==> is_digit(#[trigger] v@[j]),
        decreases v.len() - i,
    {
        i += 1;
    }
    proof {
        lemma_leading_digits(v@, i as int);
    }
    i
}

// ---------- paths ----------

/// A path joined to another: an absolute second path stands alone.
pub open spec fn path_join(a: Seq<char>, b: Seq<char>) -> Seq<char> {
    if b.len() > 0 && b[0] == '/' {
        b
    } else if a.len() == 0 || a.last() == '/' {
        a + b
    } else {
        a.push('/') + b
    }
}

pub fn join_path(a: &str, b: &str) -> (r: String)
    ensures
        r@ == path_join(a@, b@),
{
    let x: Vec<char> = chars_of(a);
    let y: Vec<char> = chars_of(b);
    if y.len() > 0 && y[0] == '/' {
        return b.to_string();
    }
    let mut s: String = a.to_string();
    if x.len() > 0 && x[x.len() - 1] != '/' {
        s.push('/');
    }
    s.append(b);
    s
}

// ---------- order ----------

/// The order of texts: by their first different character, a prefix first.
pub open spec fn text_less(a: Seq<char>, b: Seq<char>) -> bool
    decreases a.len(),
{
    if b.len() == 0 {
        false
    } else if a.len() == 0 {
        true
    } else if a[0] != b[0] {
        a[0] < b[0]
    } else {
        text_less(a.drop_first(), b.drop_first())
    }
}

pub fn str_less(a: &str, b: &str) -> (r: bool)
    ensures
        r == text_less(a@, b@),
{
    let x: Vec<char> = chars_of(a);
    let y: Vec<char> = chars_of(b);
    let mut i: usize = 0;
    assert(a@.skip(0) =~= a@);
    assert(b@.skip(0) =~= b@);
    loop
        invariant
            i <= x.len(),
            i <= y.len(),
            x@ == a@,
            y@ == b@,
            text_less(a@, b@) == text_less(a@.skip(i as int), b@.skip(i as int)),
        decreases x.len() - i,
    {
        if i >= y.len() {
            return false;
        }
        if i >= x.len() {
            return true;
        }
        if x[i] != y[i] {
            return x[i] < y[i];
        }
        assert(a@.skip(i as int).drop_first() =~= a@.skip(i as int + 1));
        assert(b@.skip(i as int).drop_first() =~= b@.skip(i as int + 1));
        i += 1;
    }
}

/// No text comes before itself, and of two different ones exactly one comes
/// before the other.
pub proof fn law_text_order(a: Seq<char>, b: Seq<char>)
    ensures
        !(text_less(a, b) && text_less(b, a)),
        a != b ==> text_less(a, b) || text_less(b, a),
        a == b ==> !text_less(a, b),
    decreases a.len(),
{
    if a.len() > 0 && b.len() > 0 && a[0] == b[0] {
        law_text_order(a.drop_first(), b.drop_first());
        if a.drop_first() == b.drop_first() {
            assert(a =~= seq![a[0]] + a.drop_first());
            assert(b =~= seq![b[0]] + b.drop_first());
        }
    } else if a.len() == 0 && b.len() == 0 {
        assert(a =~= b);
    }
}

/// Texts in ascending order.
pub open spec fn sorted_texts(v: Seq<Seq<char>>) -> bool {
    forall|i: int, j: int| 0 <= i < j < v.len() ==> !text_less(#[trigger] v[j], #[trigger] v[i])
}

pub proof fn lemma_not_less_trans(a: Seq<char>, b: Seq<char>, c: Seq<char>)
    requires
        !text_less(b, a),
        !text_less(c, b),
    ensures
        !text_less(c, a),
    decreases a.len(),
{
    if a.len() > 0 && b.len() > 0 && c.len() > 0 && a[0] == b[0] && b[0] == c[0] {
        lemma_not_less_trans(a.drop_first(), b.drop_first(), c.drop_first());
    }
}

proof fn lemma_sorted_insert(v: Seq<Seq<char>>, i: int, x: Seq<char>)
    requires
        sorted_texts(v),
        0 <= i <= v.len(),
        i > 0 ==> !text_less(x, v[i - 1]),
        forall|k: int| i <= k < v.len() ==> text_less(x, #[trigger] v[k]),
    ensures
        sorted_texts(v.insert(i, x)),
{
    let r = v.insert(i, x);
    assert forall|a: int, b: int| 0 <= a < b < r.len() implies !text_less(#[trigger] r[b], #[trigger] r[a]) by {
        if a == i {
            law_text_order(x, v[b - 1]);
        } else if b == i {
            if a < i - 1 {
                assert(!text_less(v[i - 1], v[a]));
                lemma_not_less_trans(v[a], v[i - 1], x);
            }
        } else {
            let a0 = if a < i {
                a
            } else {
                a - 1
            };
            let b0 = if b < i {
                b
            } else {
                b - 1
            };
            assert(!text_less(v[b0], v[a0]));
        }
    }
}

/// Sorts strings; nothing is lost and nothing comes twice.
pub fn sort_strings(list: Vec<String>) -> (r: Vec<String>)
    ensures
        sorted_texts(strs(r@)),
        strs(r@).to_multiset() == strs(list@).to_multiset(),
{
    let ghost all = strs(list@);
    let ghost items = list@;
    let mut out: Vec<String> = Vec::new();
    assert(strs(out@) =~= all.take(0));
    for x in it: list
        invariant
            it.seq() == items,
            all == strs(items),
            sorted_texts(strs(out@)),
            strs(out@).to_multiset() == all.take(it.index() as int).to_multiset(),
    {
        let ghost before = strs(out@);
        let mut i: usize = out.len();
        while i > 0 && str_less(x.as_str(), out[i - 1].as_str())
            invariant
                i <= out.len(),
                before == strs(out@),
                forall|k: int| i <= k < before.len() ==> text_less(x@, #[trigger] before[k]),
            decreases i,
        {
            i -= 1;
        }
        proof {
            assert(i > 0 ==> before[i - 1] == out@[i - 1]@);
            lemma_sorted_insert(before, i as int, x@);
        }
        out.insert(i, x);
        proof {
            broadcast use vstd::seq_lib::group_to_multiset_ensures;

            let k = it.index() as int;
            assert(strs(out@) =~= before.insert(i as int, x@));
            assert(all.take(k + 1) =~= all.take(k).push(x@));
            assert(strs(out@).to_multiset() =~= before.to_multiset().insert(x@));
        }
    }
    assert(all.take(items.len() as int) =~= all);
    out
}

// ---------- Unicode ----------

/// What `char::is_alphanumeric` says of a character.
pub uninterp spec fn unicode_alnum(c: char) -> bool;

/// `char::is_alphanumeric`: the answer depends on the character alone, and for
/// ASCII characters it is letters and digits.
pub assume_specification [char::is_alphanumeric](c: char) -> (r: bool)
    ensures
        r == unicode_alnum(c),
        (c as u32) < 128 ==> r == ascii_alnum(c),
;

/// What `str::to_lowercase` makes of a text.
pub uninterp spec fn lowercase(s: Seq<char>) -> Seq<char>;

/// Turns a text into lower case with `str::to_lowercase`. The result depends
/// on the text alone; an ASCII text has its capitals replaced.
#[verifier::external_body]
pub(crate) fn to_lowercase(s: &str) -> (r: String)
    ensures
        r@ == lowercase(s@),
        is_ascii_text(s@) ==> r@ == ascii_lower_all(s@),
{
    s.to_lowercase()
}

/// Only ASCII characters.
pub open spec fn is_ascii_text(s: Seq<char>) -> bool {
    forall|i: int| 0 <= i < s.len() ==> (#[trigger] s[i] as u32) < 128
}

} // verus!
