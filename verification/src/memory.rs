//! Memory across sessions: hashed character groups, the form in which vectors
//! are stored, decay by age, the choice of hits, and the upkeep of the store.
//!
//! Vectors are computed with elsewhere; here they are their bit patterns, and a
//! score is a number that orders as the score does.

use vstd::multiset::Multiset;
use vstd::prelude::*;
use vstd::utf8::encode_utf8;

use crate::clock::unix_seconds;
use crate::config::{expanded, opt_home, Config};
use crate::json::{json_parsed, parse, views, Json, JsonView};
use crate::text::{
    chars_of, dec, dec_int, dec_int_string, dec_string, head, head_string, join, join_strings, slice_of, str_eq,
    str_less, strip_right, strip_right_string, strs, text_less,
};
use crate::types::opt_view;

verus! {

/// The length of a hashed vector.
pub const EMBED_DIM: usize = 256;

/// The most characters of a stored answer.
pub const MAX_ANSWER_CHARS: usize = 2000;

// ---------- hashing ----------

/// The hash after more bytes.
pub open spec fn fnv_from(h: u64, bytes: Seq<u8>) -> u64
    decreases bytes.len(),
{
    if bytes.len() == 0 {
        h
    } else {
        let before = fnv_from(h, bytes.drop_last());
        vstd::wrapping::u64_specs::wrapping_mul(before ^ (bytes.last() as u64), 0x100000001b3)
    }
}

/// The 64-bit FNV-1a hash.
pub open spec fn fnv(bytes: Seq<u8>) -> u64 {
    fnv_from(0xcbf29ce484222325, bytes)
}

pub fn fnv1a(bytes: &[u8]) -> (r: u64)
    ensures
        r == fnv(bytes@),
{
    let mut hash: u64 = 0xcbf29ce484222325;
    let mut i: usize = 0;
    while i < bytes.len()
        invariant
            i <= bytes.len(),
            hash == fnv(bytes@.take(i as int)),
        decreases bytes.len() - i,
    {
        assert(bytes@.take(i as int + 1).drop_last() =~= bytes@.take(i as int));
        hash = (hash ^ (bytes[i] as u64)).wrapping_mul(0x100000001b3);
        i += 1;
    }
    assert(bytes@.take(i as int) =~= bytes@);
    hash
}

/// The bucket of a group of characters.
pub open spec fn bucket(s: Seq<char>) -> int {
    fnv(encode_utf8(s)) as int % 256
}

/// How many of the first `k` groups of `n` characters fall into a bucket.
pub open spec fn groups_in(s: Seq<char>, n: int, k: int, b: int) -> nat
    decreases k,
{
    if k <= 0 || k - 1 + n > s.len() {
        0
    } else {
        groups_in(s, n, k - 1, b) + (if bucket(s.subrange(k - 1, k - 1 + n)) == b {
            1nat
        } else {
            0
        })
    }
}

/// The number of groups of `n` characters.
pub open spec fn group_count(s: Seq<char>, n: int) -> int {
    if s.len() >= n {
        s.len() - n + 1
    } else {
        0
    }
}

/// How many groups of one, two or three characters fall into a bucket.
pub open spec fn bucket_count(s: Seq<char>, b: int) -> nat {
    groups_in(s, 1, group_count(s, 1), b) + groups_in(s, 2, group_count(s, 2), b) + groups_in(
        s,
        3,
        group_count(s, 3),
        b,
    )
}

proof fn lemma_groups_bound(s: Seq<char>, n: int, k: int, b: int)
    requires
        0 <= k,
    ensures
        groups_in(s, n, k, b) <= k,
    decreases k,
{
    if k > 0 && k - 1 + n <= s.len() {
        lemma_groups_bound(s, n, k - 1, b);
    }
}

fn add_groups(v: &Vec<char>, n: usize, counts: &mut Vec<u64>, Ghost(base): Ghost<spec_fn(int) -> nat>)
    requires
        1 <= n <= 3,
        old(counts)@.len() == 256,
        forall|b: int| 0 <= b < 256 ==> old(counts)@[b] == #[trigger] base(b) && base(b) <= 2 * v@.len(),
        v@.len() <= 0x1000_0000_0000_0000,
    ensures
        final(counts)@.len() == 256,
        forall|b: int|
            0 <= b < 256 ==> final(counts)@[b] == base(b) + #[trigger] groups_in(
                v@,
                n as int,
                group_count(v@, n as int),
                b,
            ),
{
    if v.len() < n {
        return;
    }
    let len: usize = v.len();
    let total: usize = len - n + 1;
    let mut k: usize = 0;
    while k < total
        invariant
            k <= total,
            1 <= n <= 3,
            n <= v@.len(),
            len == v@.len(),
            total == len - n + 1,
            v@.len() <= 0x1000_0000_0000_0000,
            counts@.len() == 256,
            forall|b: int| 0 <= b < 256 ==> #[trigger] base(b) <= 2 * v@.len(),
            forall|b: int|
                0 <= b < 256 ==> counts@[b] == base(b) + #[trigger] groups_in(v@, n as int, k as int, b),
        decreases total - k,
    {
        let g: String = slice_of(v.as_slice(), k, k + n);
        let at: usize = (fnv1a(g.as_str().as_bytes()) % 256) as usize;
        proof {
            assert(at == bucket(v@.subrange(k as int, k + n)));
            lemma_groups_bound(v@, n as int, k as int, at as int);
            assert(base(at as int) <= 2 * v@.len());
        }
        let ghost before = counts@;
        let c: u64 = counts[at];
        counts.set(at, c + 1);
        proof {
            assert forall|b: int| 0 <= b < 256 implies counts@[b] == base(b) + #[trigger] groups_in(
                v@,
                n as int,
                k as int + 1,
                b,
            ) by {
                assert(before[b] == base(b) + groups_in(v@, n as int, k as int, b));
            }
        }
        k += 1;
    }
}

/// Counts the groups of one, two and three characters of a text by their
/// buckets. The text must be short enough for the counts.
pub fn bucket_counts(text: &str) -> (r: Option<Vec<u64>>)
    ensures
        match r {
            Some(v) => v@.len() == EMBED_DIM && forall|b: int|
                0 <= b < 256 ==> v@[b] == #[trigger] bucket_count(text@, b),
            None => text@.len() > 0x1000_0000_0000_0000,
        },
{
    let v: Vec<char> = chars_of(text);
    if v.len() as u128 > 0x1000_0000_0000_0000 {
        return None;
    }
    let mut counts: Vec<u64> = Vec::new();
    while counts.len() < 256
        invariant
            counts@.len() <= 256,
            forall|b: int| 0 <= b < counts@.len() ==> counts@[b] == 0,
        decreases 256 - counts.len(),
    {
        counts.push(0);
    }
    let ghost s = text@;
    let ghost base1 = |b: int| 0nat;
    add_groups(&v, 1, &mut counts, Ghost(base1));
    let ghost base2 = |b: int| groups_in(s, 1, group_count(s, 1), b);
    proof {
        assert forall|b: int| 0 <= b < 256 implies counts@[b] == #[trigger] base2(b) && base2(b) <= 2 * v@.len() by {
            assert(counts@[b] == base1(b) + groups_in(s, 1, group_count(s, 1), b));
            lemma_groups_bound(s, 1, group_count(s, 1), b);
        }
    }
    add_groups(&v, 2, &mut counts, Ghost(base2));
    let ghost base3 = |b: int| groups_in(s, 1, group_count(s, 1), b) + groups_in(s, 2, group_count(s, 2), b);
    proof {
        assert forall|b: int| 0 <= b < 256 implies counts@[b] == #[trigger] base3(b) && base3(b) <= 2 * v@.len() by {
            assert(counts@[b] == base2(b) + groups_in(s, 2, group_count(s, 2), b));
            lemma_groups_bound(s, 1, group_count(s, 1), b);
            lemma_groups_bound(s, 2, group_count(s, 2), b);
        }
    }
    add_groups(&v, 3, &mut counts, Ghost(base3));
    proof {
        assert forall|b: int| 0 <= b < 256 implies counts@[b] == #[trigger] bucket_count(s, b) by {
            assert(counts@[b] == base3(b) + groups_in(s, 3, group_count(s, 3), b));
        }
    }
    Some(counts)
}

/// A text without characters falls into no bucket.
pub proof fn law_empty_text_has_no_groups(b: int)
    ensures
        bucket_count(Seq::empty(), b) == 0,
{
}

// ---------- stored vectors ----------

/// Four bytes of a number, the low ones first.
pub open spec fn le_bytes(x: u32) -> Seq<u8> {
    seq![
        (x % 256) as u8,
        (x / 256 % 256) as u8,
        (x / 65536 % 256) as u8,
        (x / 16777216) as u8,
    ]
}

/// A vector as bytes.
pub open spec fn emb_bytes(v: Seq<u32>) -> Seq<u8>
    decreases v.len(),
{
    if v.len() == 0 {
        Seq::empty()
    } else {
        emb_bytes(v.drop_last()) + le_bytes(v.last())
    }
}

/// The number in four bytes.
pub open spec fn le_value(b: Seq<u8>, at: int) -> u32 {
    (b[at] + 256 * b[at + 1] + 65536 * b[at + 2] + 16777216 * b[at + 3]) as u32
}

/// The vector in bytes; up to three bytes at the end do not count.
pub open spec fn emb_values(b: Seq<u8>) -> Seq<u32> {
    Seq::new((b.len() / 4) as nat, |i: int| le_value(b, 4 * i))
}

/// Writes the bit patterns of a vector as bytes.
pub fn encode_emb(v: &Vec<u32>) -> (r: Vec<u8>)
    ensures
        r@ == emb_bytes(v@),
{
    let mut out: Vec<u8> = Vec::new();
    let mut i: usize = 0;
    while i < v.len()
        invariant
            i <= v.len(),
            out@ == emb_bytes(v@.take(i as int)),
        decreases v.len() - i,
    {
        let ghost before = out@;
        let x: u32 = v[i];
        out.push((x % 256) as u8);
        out.push((x / 256 % 256) as u8);
        out.push((x / 65536 % 256) as u8);
        out.push((x / 16777216) as u8);
        proof {
            assert(v@.take(i as int + 1).drop_last() =~= v@.take(i as int));
            assert(out@ =~= before + le_bytes(x));
        }
        i += 1;
    }
    assert(v@.take(i as int) =~= v@);
    out
}

/// Reads the bit patterns of a vector out of bytes.
pub fn decode_emb(blob: &[u8]) -> (r: Vec<u32>)
    ensures
        r@ == emb_values(blob@),
{
    let len: usize = blob.len();
    let n: usize = len / 4;
    let mut out: Vec<u32> = Vec::new();
    let mut i: usize = 0;
    while i < n
        invariant
            i <= n,
            len == blob@.len(),
            n == len / 4,
            out@.len() == i,
            forall|k: int| 0 <= k < i ==> out@[k] == #[trigger] le_value(blob@, 4 * k),
        decreases n - i,
    {
        let at: usize = 4 * i;
        let x: u64 = blob[at] as u64 + 256 * (blob[at + 1] as u64) + 65536 * (blob[at + 2] as u64) + 16777216 * (
        blob[at + 3] as u64);
        out.push(x as u32);
        i += 1;
    }
    assert(out@ =~= emb_values(blob@));
    out
}

proof fn lemma_emb_len(v: Seq<u32>)
    ensures
        emb_bytes(v).len() == 4 * v.len(),
    decreases v.len(),
{
    if v.len() > 0 {
        lemma_emb_len(v.drop_last());
    }
}

/// A stored vector is read back as it was.
pub proof fn law_vector_round_trip(v: Seq<u32>)
    ensures
        emb_values(emb_bytes(v)) == v,
    decreases v.len(),
{
    lemma_emb_len(v);
    let b = emb_bytes(v);
    if v.len() > 0 {
        let p = v.drop_last();
        law_vector_round_trip(p);
        lemma_emb_len(p);
        let bp = emb_bytes(p);
        assert forall|i: int| 0 <= i < v.len() implies #[trigger] emb_values(b)[i] == v[i] by {
            if i < p.len() {
                assert(b[4 * i] == bp[4 * i]);
                assert(b[4 * i + 1] == bp[4 * i + 1]);
                assert(b[4 * i + 2] == bp[4 * i + 2]);
                assert(b[4 * i + 3] == bp[4 * i + 3]);
                assert(emb_values(bp)[i] == p[i]);
            } else {
                let x = v.last();
                assert(b[4 * i] == le_bytes(x)[0]);
                assert(b[4 * i + 1] == le_bytes(x)[1]);
                assert(b[4 * i + 2] == le_bytes(x)[2]);
                assert(b[4 * i + 3] == le_bytes(x)[3]);
                assert(x % 256 + 256 * (x / 256 % 256) + 65536 * (x / 65536 % 256) + 16777216 * (x / 16777216) == x)
                    by (nonlinear_arith);
            }
        }
    }
    assert(emb_values(b) =~= v);
}

// ---------- age ----------

/// Whole days between two times; none where the first is later.
pub open spec fn age_days(created_at: i64, now: i64) -> int {
    if now <= created_at {
        0
    } else {
        (now - created_at) / 86_400
    }
}

/// How much of a score counts, in percent: all up to 30 days, 90 up to 90
/// days, and 75 beyond.
pub open spec fn decay(created_at: i64, now: i64) -> u32 {
    if age_days(created_at, now) <= 30 {
        100
    } else if age_days(created_at, now) <= 90 {
        90
    } else {
        75
    }
}

pub fn decay_factor(created_at: i64, now: i64) -> (r: u32)
    ensures
        r == decay(created_at, now),
{
    if now <= created_at {
        return 100;
    }
    let days: i128 = (now as i128 - created_at as i128) / 86_400;
    if days <= 30 {
        100
    } else if days <= 90 {
        90
    } else {
        75
    }
}

/// A memory never counts more as it grows older.
pub proof fn law_memories_fade(created_at: i64, now: i64, later: i64)
    requires
        now <= later,
    ensures
        decay(created_at, later) <= decay(created_at, now),
{
    if created_at < now {
        assert((now - created_at) / 86_400 <= (later - created_at) / 86_400) by (nonlinear_arith)
            requires
                now <= later,
        ;
    }
}

/// Seconds since 1970.
pub fn now_secs() -> (r: i64)
    ensures
        r >= 0,
{
    let t: u64 = unix_seconds();
    if t > i64::MAX as u64 {
        i64::MAX
    } else {
        t as i64
    }
}

// ---------- hits ----------

/// A memory that answers a question. A higher score orders first.
#[derive(Debug, Clone)]
pub struct MemoryHit {
    pub id: i64,
    pub query: String,
    pub answer: String,
    pub score: i64,
    pub session_id: String,
    pub created_at: i64,
}

/// What a hit holds.
pub struct HitView {
    pub id: i64,
    pub query: Seq<char>,
    pub answer: Seq<char>,
    pub score: i64,
    pub session_id: Seq<char>,
    pub created_at: i64,
}

impl View for MemoryHit {
    type V = HitView;

    open spec fn view(&self) -> HitView {
        HitView {
            id: self.id,
            query: self.query@,
            answer: self.answer@,
            score: self.score,
            session_id: self.session_id@,
            created_at: self.created_at,
        }
    }
}

pub open spec fn hit_views(v: Seq<MemoryHit>) -> Seq<HitView> {
    Seq::new(v.len(), |i: int| v[i]@)
}

/// Two hits on one question of one session.
pub open spec fn same_memory(a: HitView, b: HitView) -> bool {
    a.session_id == b.session_id && a.query == b.query
}

/// The hits with one more: of those on one question the best stays, the first
/// of several.
pub open spec fn with_best(v: Seq<HitView>, x: HitView) -> Seq<HitView>
    decreases v.len(),
{
    if v.len() == 0 {
        seq![x]
    } else if same_memory(v[0], x) {
        if v[0].score >= x.score {
            v
        } else {
            seq![x] + v.drop_first()
        }
    } else {
        seq![v[0]] + with_best(v.drop_first(), x)
    }
}

/// The best hit on each question.
pub open spec fn best_of(v: Seq<HitView>) -> Seq<HitView>
    decreases v.len(),
{
    if v.len() == 0 {
        Seq::empty()
    } else {
        with_best(best_of(v.drop_last()), v.last())
    }
}

/// The hits with one more, by falling scores; equal ones in the order they
/// came.
pub open spec fn insert_hit(v: Seq<HitView>, x: HitView) -> Seq<HitView>
    decreases v.len(),
{
    if v.len() == 0 || v.last().score >= x.score {
        v.push(x)
    } else {
        insert_hit(v.drop_last(), x).push(v.last())
    }
}

/// The hits by falling scores.
pub open spec fn ranked(v: Seq<HitView>) -> Seq<HitView>
    decreases v.len(),
{
    if v.len() == 0 {
        Seq::empty()
    } else {
        insert_hit(ranked(v.drop_last()), v.last())
    }
}

/// The best `k` hits, one for each question.
pub open spec fn top_hits(v: Seq<HitView>, k: nat) -> Seq<HitView> {
    let r = ranked(best_of(v));
    if r.len() <= k {
        r
    } else {
        r.take(k as int)
    }
}

fn put_best(out: &mut Vec<MemoryHit>, x: MemoryHit)
    ensures
        hit_views(final(out)@) == with_best(hit_views(old(out)@), x@),
{
    let ghost all = hit_views(out@);
    let n: usize = out.len();
    let mut i: usize = 0;
    assert(all.skip(0) =~= all);
    assert(all.take(0) + with_best(all, x@) =~= with_best(all, x@));
    while i < n && !(str_eq(out[i].session_id.as_str(), x.session_id.as_str()) && str_eq(
        out[i].query.as_str(),
        x.query.as_str(),
    ))
        invariant
            i <= n,
            n == out.len(),
            all == hit_views(out@),
            with_best(all, x@) == all.take(i as int) + with_best(all.skip(i as int), x@),
        decreases n - i,
    {
        proof {
            let rest = all.skip(i as int);
            assert(rest[0] == out@[i as int]@);
            assert(rest.drop_first() =~= all.skip(i as int + 1));
            assert(all.take(i as int) + (seq![rest[0]] + with_best(all.skip(i as int + 1), x@)) =~= all.take(
                i as int + 1,
            ) + with_best(all.skip(i as int + 1), x@));
        }
        i += 1;
    }
    let ghost rest = all.skip(i as int);
    if i < n {
        assert(rest[0] == out@[i as int]@);
        if out[i].score < x.score {
            let ghost xv = x@;
            let _ = out.remove(i);
            out.insert(i, x);
            assert(hit_views(out@) =~= all.take(i as int) + (seq![xv] + rest.drop_first()));
        } else {
            assert(all =~= all.take(i as int) + rest);
        }
    } else {
        let ghost xv = x@;
        out.push(x);
        assert(hit_views(out@) =~= all.take(i as int) + seq![xv]);
        assert(with_best(rest, xv) =~= seq![xv]);
    }
}

fn put_ranked(out: &mut Vec<MemoryHit>, x: MemoryHit)
    ensures
        hit_views(final(out)@) == insert_hit(hit_views(old(out)@), x@),
{
    let ghost all = hit_views(out@);
    let n: usize = out.len();
    let mut i: usize = n;
    assert(all.take(n as int) =~= all);
    assert(insert_hit(all, x@) + all.skip(n as int) =~= insert_hit(all, x@));
    while i > 0 && out[i - 1].score < x.score
        invariant
            i <= n,
            n == out.len(),
            all == hit_views(out@),
            insert_hit(all, x@) == insert_hit(all.take(i as int), x@) + all.skip(i as int),
        decreases i,
    {
        proof {
            let now = all.take(i as int);
            assert(now.last() == out@[i - 1]@);
            assert(now.drop_last() =~= all.take(i - 1));
            assert(insert_hit(all.take(i - 1), x@).push(all[i - 1]) + all.skip(i as int) =~= insert_hit(
                all.take(i - 1),
                x@,
            ) + all.skip(i - 1));
        }
        i -= 1;
    }
    proof {
        assert(i > 0 ==> all.take(i as int).last() == out@[i - 1]@);
    }
    let ghost xv = x@;
    out.insert(i, x);
    assert(hit_views(out@) =~= all.take(i as int).push(xv) + all.skip(i as int));
}

/// Chooses the hits: the best on each question, by falling scores, at most
/// `k`.
pub fn best_hits(found: Vec<MemoryHit>, k: usize) -> (r: Vec<MemoryHit>)
    ensures
        hit_views(r@) == top_hits(hit_views(found@), k as nat),
{
    let ghost all = hit_views(found@);
    let ghost items = found@;
    let mut best: Vec<MemoryHit> = Vec::new();
    assert(hit_views(best@) =~= best_of(all.take(0)));
    for x in it: found
        invariant
            it.seq() == items,
            all == hit_views(items),
            hit_views(best@) == best_of(all.take(it.index() as int)),
    {
        proof {
            let i = it.index() as int;
            assert(all.take(i + 1).drop_last() =~= all.take(i));
            assert(all.take(i + 1).last() == x@);
        }
        put_best(&mut best, x);
    }
    assert(all.take(items.len() as int) =~= all);
    let ghost chosen = hit_views(best@);
    let ghost picks = best@;
    let mut out: Vec<MemoryHit> = Vec::new();
    assert(hit_views(out@) =~= ranked(chosen.take(0)));
    for x in it: best
        invariant
            it.seq() == picks,
            chosen == hit_views(picks),
            hit_views(out@) == ranked(chosen.take(it.index() as int)),
    {
        proof {
            let i = it.index() as int;
            assert(chosen.take(i + 1).drop_last() =~= chosen.take(i));
            assert(chosen.take(i + 1).last() == x@);
        }
        put_ranked(&mut out, x);
    }
    assert(chosen.take(picks.len() as int) =~= chosen);
    let ghost whole = hit_views(out@);
    if out.len() > k {
        out.truncate(k);
        assert(hit_views(out@) =~= whole.take(k as int));
    }
    out
}

/// Scores that fall.
pub open spec fn falling(v: Seq<HitView>) -> bool {
    forall|i: int, j: int| 0 <= i < j < v.len() ==> (#[trigger] v[i]).score >= (#[trigger] v[j]).score
}

proof fn lemma_insert_hit(v: Seq<HitView>, x: HitView)
    requires
        falling(v),
    ensures
        falling(insert_hit(v, x)),
        insert_hit(v, x).len() == v.len() + 1,
        forall|i: int|
            0 <= i < insert_hit(v, x).len() ==> (#[trigger] insert_hit(v, x)[i]) == x || v.contains(
                insert_hit(v, x)[i],
            ),
    decreases v.len(),
{
    let r = insert_hit(v, x);
    if v.len() == 0 || v.last().score >= x.score {
        assert forall|i: int| 0 <= i < r.len() implies (#[trigger] r[i]) == x || v.contains(r[i]) by {
            if i < v.len() {
                assert(v[i] == r[i]);
            }
        }
    } else {
        let p = v.drop_last();
        lemma_insert_hit(p, x);
        let q = insert_hit(p, x);
        assert forall|i: int| 0 <= i < r.len() implies (#[trigger] r[i]) == x || v.contains(r[i]) by {
            if i < q.len() {
                assert(r[i] == q[i]);
                if q[i] != x {
                    let k = p.index_of(q[i]);
                    assert(v[k] == q[i]);
                }
            } else {
                assert(v[v.len() - 1] == r[i]);
            }
        }
        assert forall|i: int, j: int| 0 <= i < j < r.len() implies (#[trigger] r[i]).score >= (
        #[trigger] r[j]).score by {
            if j == r.len() - 1 {
                assert(r[i] == q[i]);
                if q[i] != x {
                    let k = p.index_of(q[i]);
                    assert(v[k] == q[i]);
                }
            }
        }
    }
}

proof fn lemma_ranked(v: Seq<HitView>)
    ensures
        falling(ranked(v)),
        ranked(v).len() == v.len(),
        forall|i: int| 0 <= i < ranked(v).len() ==> v.contains(#[trigger] ranked(v)[i]),
    decreases v.len(),
{
    if v.len() > 0 {
        let p = v.drop_last();
        lemma_ranked(p);
        lemma_insert_hit(ranked(p), v.last());
        assert forall|i: int| 0 <= i < ranked(v).len() implies v.contains(#[trigger] ranked(v)[i]) by {
            let y = ranked(v)[i];
            if y == v.last() {
                assert(v[v.len() - 1] == y);
            } else {
                let k = ranked(p).index_of(y);
                assert(p.contains(ranked(p)[k]));
                let m = p.index_of(y);
                assert(v[m] == y);
            }
        }
    }
}

/// At most `k` hits come out, the better ones first.
pub proof fn law_hits_are_ranked(v: Seq<HitView>, k: nat)
    ensures
        falling(top_hits(v, k)),
        top_hits(v, k).len() <= k,
{
    lemma_ranked(best_of(v));
}

/// No two hits on one question.
pub open spec fn one_each(v: Seq<HitView>) -> bool {
    forall|i: int, j: int| 0 <= i < j < v.len() ==> !same_memory(#[trigger] v[i], #[trigger] v[j])
}

proof fn lemma_with_best(v: Seq<HitView>, x: HitView)
    requires
        one_each(v),
    ensures
        one_each(with_best(v, x)),
        forall|i: int|
            0 <= i < with_best(v, x).len() ==> (#[trigger] with_best(v, x)[i]) == x || v.contains(
                with_best(v, x)[i],
            ),
    decreases v.len(),
{
    let r = with_best(v, x);
    if v.len() == 0 {
    } else if same_memory(v[0], x) {
        assert forall|i: int| 0 <= i < r.len() implies (#[trigger] r[i]) == x || v.contains(r[i]) by {
            if r[i] != x {
                assert(v[i] == r[i]);
            }
        }
    } else {
        let t = v.drop_first();
        assert forall|i: int, j: int| 0 <= i < j < t.len() implies !same_memory(#[trigger] t[i], #[trigger] t[j]) by {
            assert(!same_memory(v[i + 1], v[j + 1]));
        }
        lemma_with_best(t, x);
        let q = with_best(t, x);
        assert forall|i: int| 0 <= i < r.len() implies (#[trigger] r[i]) == x || v.contains(r[i]) by {
            if i == 0 {
                assert(v[0] == r[0]);
            } else {
                assert(r[i] == q[i - 1]);
                if q[i - 1] != x {
                    let k = t.index_of(q[i - 1]);
                    assert(v[k + 1] == q[i - 1]);
                }
            }
        }
        assert forall|i: int, j: int| 0 <= i < j < r.len() implies !same_memory(#[trigger] r[i], #[trigger] r[j]) by {
            if i == 0 {
                assert(r[j] == q[j - 1]);
                if q[j - 1] != x {
                    let k = t.index_of(q[j - 1]);
                    assert(!same_memory(v[0], v[k + 1]));
                }
            } else {
                assert(!same_memory(q[i - 1], q[j - 1]));
            }
        }
    }
}

proof fn lemma_best_one_each(v: Seq<HitView>)
    ensures
        one_each(best_of(v)),
    decreases v.len(),
{
    if v.len() > 0 {
        lemma_best_one_each(v.drop_last());
        lemma_with_best(best_of(v.drop_last()), v.last());
    }
}

proof fn lemma_insert_one_each(v: Seq<HitView>, x: HitView)
    requires
        one_each(v),
        forall|i: int| 0 <= i < v.len() ==> !same_memory(#[trigger] v[i], x),
    ensures
        one_each(insert_hit(v, x)),
        forall|i: int|
            0 <= i < insert_hit(v, x).len() ==> (#[trigger] insert_hit(v, x)[i]) == x || v.contains(
                insert_hit(v, x)[i],
            ),
    decreases v.len(),
{
    let r = insert_hit(v, x);
    if v.len() == 0 || v.last().score >= x.score {
        assert forall|i: int| 0 <= i < r.len() implies (#[trigger] r[i]) == x || v.contains(r[i]) by {
            if i < v.len() {
                assert(v[i] == r[i]);
            }
        }
    } else {
        let p = v.drop_last();
        assert forall|i: int| 0 <= i < p.len() implies !same_memory(#[trigger] p[i], x) by {
            assert(!same_memory(v[i], x));
        }
        assert forall|i: int, j: int| 0 <= i < j < p.len() implies !same_memory(#[trigger] p[i], #[trigger] p[j]) by {
            assert(!same_memory(v[i], v[j]));
        }
        lemma_insert_one_each(p, x);
        let q = insert_hit(p, x);
        let l = v.last();
        assert forall|i: int| 0 <= i < r.len() implies (#[trigger] r[i]) == x || v.contains(r[i]) by {
            if i < q.len() {
                assert(r[i] == q[i]);
                if q[i] != x {
                    assert(v[p.index_of(q[i])] == q[i]);
                }
            } else {
                assert(v[v.len() - 1] == r[i]);
            }
        }
        assert forall|i: int, j: int| 0 <= i < j < r.len() implies !same_memory(#[trigger] r[i], #[trigger] r[j]) by {
            if j == r.len() - 1 {
                assert(r[i] == q[i]);
                assert(!same_memory(v[v.len() - 1], x));
                if q[i] != x {
                    let k = p.index_of(q[i]);
                    assert(!same_memory(v[k], v[v.len() - 1]));
                }
            } else {
                assert(!same_memory(q[i], q[j]));
            }
        }
    }
}

proof fn lemma_ranked_one_each(v: Seq<HitView>)
    requires
        one_each(v),
    ensures
        one_each(ranked(v)),
    decreases v.len(),
{
    if v.len() > 0 {
        let p = v.drop_last();
        assert forall|i: int, j: int| 0 <= i < j < p.len() implies !same_memory(#[trigger] p[i], #[trigger] p[j]) by {
            assert(!same_memory(v[i], v[j]));
        }
        lemma_ranked_one_each(p);
        lemma_ranked(p);
        let r = ranked(p);
        assert forall|i: int| 0 <= i < r.len() implies !same_memory(#[trigger] r[i], v.last()) by {
            assert(p.contains(r[i]));
            let k = p.index_of(r[i]);
            assert(!same_memory(v[k], v[v.len() - 1]));
        }
        lemma_insert_one_each(r, v.last());
    }
}

/// Of the hits that a search returns no two are on one question.
pub proof fn law_one_hit_per_question(v: Seq<HitView>, k: nat)
    ensures
        one_each(top_hits(v, k)),
{
    lemma_best_one_each(v);
    lemma_ranked_one_each(best_of(v));
    let r = ranked(best_of(v));
    assert forall|i: int, j: int| 0 <= i < j < top_hits(v, k).len() implies !same_memory(
        #[trigger] top_hits(v, k)[i],
        #[trigger] top_hits(v, k)[j],
    ) by {
        assert(!same_memory(r[i], r[j]));
    }
}

// ---------- the store ----------

/// The backend that turns texts into vectors; a name that is not known means
/// hashing.
#[derive(Debug, Clone, Copy, PartialEq, Eq, Structural)]
pub enum EmbeddingBackend {
    Hash,
    Api,
}

/// Hashing of character groups on this machine.
#[derive(Debug)]
pub struct HashEmbedding;

impl HashEmbedding {
    /// The backend's name in the store.
    pub fn id(&self) -> (r: &'static str)
        ensures
            r@ == "hash"@,
    {
        "hash"
    }

    /// The length of its vectors.
    pub fn dim(&self) -> (r: usize)
        ensures
            r == EMBED_DIM,
    {
        EMBED_DIM
    }
}

/// The backend that a configuration chooses.
pub fn build_embedding_provider(config: &Config) -> (r: EmbeddingBackend)
    ensures
        r == (if config.context.l3_embedding@ == "api"@ {
            EmbeddingBackend::Api
        } else {
            EmbeddingBackend::Hash
        }),
{
    if str_eq(config.context.l3_embedding.as_str(), "api") {
        EmbeddingBackend::Api
    } else {
        EmbeddingBackend::Hash
    }
}

/// A service's name in the store.
pub fn api_embedding_id(model: &str) -> (r: String)
    ensures
        r@ == "openai_compat:"@ + model@,
{
    let mut s: String = "openai_compat:".to_string();
    s.append(model);
    s
}

/// Where requests to a service go.
pub fn embeddings_url(base_url: &str) -> (r: String)
    ensures
        r@ == strip_right(base_url@, '/') + "/embeddings"@,
{
    let mut s: String = strip_right_string(base_url, '/');
    s.append("/embeddings");
    s
}

/// The array of the first vector in a service's reply.
pub open spec fn embedding_array(v: JsonView) -> Option<Seq<JsonView>> {
    match v.get("data"@) {
        Some(JsonView::Arr(d)) => if d.len() > 0 {
            match d[0].get("embedding"@) {
                Some(JsonView::Arr(e)) => Some(e),
                _ => None,
            }
        } else {
            None
        },
        _ => None,
    }
}

pub open spec fn is_number(v: JsonView) -> bool {
    v is Uint || v is Neg || v is Float
}

pub open spec fn all_numbers(v: Seq<JsonView>) -> bool {
    forall|i: int| 0 <= i < v.len() ==> is_number(#[trigger] v[i])
}

fn json_is_number(j: &Json) -> (r: bool)
    ensures
        r == is_number(j@),
{
    match j {
        Json::Uint(_) => true,
        Json::Neg(_) => true,
        Json::Float(_) => true,
        _ => false,
    }
}

/// Reads the numbers of the first vector out of a service's reply.
pub fn embedding_numbers(v: &Json) -> (r: Result<Vec<Json>, String>)
    ensures
        match embedding_array(v@) {
            Some(a) => if all_numbers(a) {
                r is Ok && views(r->Ok_0@) == a
            } else {
                r is Err && r->Err_0@ == "embedding 向量含非数值元素"@
            },
            None => r is Err && r->Err_0@ == "embedding 响应缺少 data[0].embedding 字段"@,
        },
{
    let missing: String = "embedding 响应缺少 data[0].embedding 字段".to_string();
    let data: &Vec<Json> = match v.get("data") {
        Some(d) => match d.as_arr() {
            Some(a) => a,
            None => {
                return Err(missing);
            },
        },
        None => {
            return Err(missing);
        },
    };
    if data.len() == 0 {
        return Err(missing);
    }
    assert(views(data@)[0] == data@[0]@);
    let arr: &Vec<Json> = match data[0].get("embedding") {
        Some(e) => match e.as_arr() {
            Some(a) => a,
            None => {
                return Err(missing);
            },
        },
        None => {
            return Err(missing);
        },
    };
    let ghost all = views(arr@);
    let mut out: Vec<Json> = Vec::new();
    let mut i: usize = 0;
    assert(embedding_array(v@) == Some(all));
    while i < arr.len()
        invariant
            i <= arr.len(),
            all == views(arr@),
            embedding_array(v@) == Some(all),
            out@.len() == i,
            forall|k: int| 0 <= k < i ==> (#[trigger] out@[k])@ == all[k] && is_number(all[k]),
        decreases arr.len() - i,
    {
        assert(all[i as int] == arr@[i as int]@);
        if !json_is_number(&arr[i]) {
            assert(!is_number(all[i as int]));
            return Err("embedding 向量含非数值元素".to_string());
        }
        out.push(arr[i].dup());
        i += 1;
    }
    assert(views(out@) =~= all);
    Ok(out)
}

/// Reads the numbers of the first vector out of the text of a service's reply.
pub fn parse_embedding_response(body: &str) -> (r: Result<Vec<Json>, String>)
    ensures
        match json_parsed(body@) {
            Err(e) => r is Err && r->Err_0@ == "embedding 响应不是合法 JSON："@ + e,
            Ok(v) => match embedding_array(v) {
                Some(a) => if all_numbers(a) {
                    r is Ok && views(r->Ok_0@) == a
                } else {
                    r is Err && r->Err_0@ == "embedding 向量含非数值元素"@
                },
                None => r is Err && r->Err_0@ == "embedding 响应缺少 data[0].embedding 字段"@,
            },
        },
{
    match parse(body) {
        Ok(v) => embedding_numbers(&v),
        Err(e) => {
            let mut m: String = "embedding 响应不是合法 JSON：".to_string();
            m.append(e.as_str());
            Err(m)
        },
    }
}

/// After the try number `attempt` (from zero) at a service: `None` stands for
/// no answer. Too many requests and server errors are tried again, three times
/// in all; gives the seconds to wait.
pub fn embedding_retry(attempt: u32, status: Option<u16>) -> (r: Option<u64>)
    ensures
        ({
            let again = match status {
                Some(s) => s == 429 || 500 <= s < 600,
                None => true,
            };
            r == (if again && attempt < 2 {
                Some((attempt + 1) as u64)
            } else {
                None
            })
        }),
{
    let again: bool = match status {
        Some(s) => s == 429 || (500 <= s && s < 600),
        None => true,
    };
    if again && attempt < 2 {
        Some(attempt as u64 + 1)
    } else {
        None
    }
}

/// The file of the store.
pub fn memory_db_path(config: &Config, home: Option<&str>) -> (r: String)
    ensures
        r@ == expanded(config.session.dir@, opt_home(home)) + "/memory.db"@,
{
    let mut s: String = crate::config::expand_tilde(config.session.dir.as_str(), home);
    s.append("/memory.db");
    s
}

/// The names in the store that are not the present backend's.
pub open spec fn other_ids(ids: Seq<Seq<char>>, embed_id: Seq<char>) -> Seq<Seq<char>>
    decreases ids.len(),
{
    if ids.len() == 0 {
        Seq::empty()
    } else if ids.last() == embed_id {
        other_ids(ids.drop_last(), embed_id)
    } else {
        other_ids(ids.drop_last(), embed_id).push(ids.last())
    }
}

/// Why a store with vectors of these backends cannot be used with the present
/// one, if so: some are not its own.
pub open spec fn mismatch_text(ids: Seq<Seq<char>>, embed_id: Seq<char>) -> Option<Seq<char>> {
    let others = other_ids(ids, embed_id);
    if others.len() == 0 {
        None
    } else {
        Some(
            "嵌入模型已变更（库中残留 "@ + join(others, ", "@) + " 的向量，当前后端为 "@ + embed_id
                + "），运行 r2 memory migrate 重建"@,
        )
    }
}

fn mismatch(ids: &Vec<String>, embed_id: &str) -> (r: Option<String>)
    ensures
        opt_view(r) == mismatch_text(strs(ids@), embed_id@),
{
    let ghost all = strs(ids@);
    let mut others: Vec<String> = Vec::new();
    let mut i: usize = 0;
    assert(strs(others@) =~= other_ids(all.take(0), embed_id@));
    while i < ids.len()
        invariant
            i <= ids.len(),
            all == strs(ids@),
            strs(others@) == other_ids(all.take(i as int), embed_id@),
        decreases ids.len() - i,
    {
        let ghost before = strs(others@);
        proof {
            assert(all.take(i as int + 1).drop_last() =~= all.take(i as int));
            assert(all.take(i as int + 1).last() == ids@[i as int]@);
        }
        if !str_eq(ids[i].as_str(), embed_id) {
            others.push(ids[i].clone());
            assert(strs(others@) =~= before.push(ids@[i as int]@));
        }
        i += 1;
    }
    assert(all.take(i as int) =~= all);
    if others.len() == 0 {
        return None;
    }
    let mut m: String = "嵌入模型已变更（库中残留 ".to_string();
    let j: String = join_strings(&others, ", ");
    m.append(j.as_str());
    m.append(" 的向量，当前后端为 ");
    m.append(embed_id);
    m.append("），运行 r2 memory migrate 重建");
    Some(m)
}

/// A question and its answer in a session.
#[derive(Debug, Clone)]
pub struct MemoryKey {
    pub session_id: String,
    pub query: String,
    pub answer: String,
}

pub struct KeyView {
    pub session_id: Seq<char>,
    pub query: Seq<char>,
    pub answer: Seq<char>,
}

impl View for MemoryKey {
    type V = KeyView;

    open spec fn view(&self) -> KeyView {
        KeyView { session_id: self.session_id@, query: self.query@, answer: self.answer@ }
    }
}

/// A row of the store that was measured against a vector. `close` tells that the
/// likeness reaches the limit in question, `score` orders as the score does.
#[derive(Debug)]
pub struct ScoredRow {
    pub id: i64,
    pub key: MemoryKey,
    pub dim: i64,
    pub superseded: bool,
    pub created_at: i64,
    pub close: bool,
    pub score: i64,
}

/// Whether a row is among those that count: not replaced, as long as the vector
/// in question, and close to it.
pub open spec fn counts(r: ScoredRow, dim: usize) -> bool {
    !r.superseded && r.dim == dim && r.close
}

fn row_counts(r: &ScoredRow, dim: usize) -> (b: bool)
    ensures
        b == counts(*r, dim),
{
    !r.superseded && r.dim >= 0 && r.dim as u64 == dim as u64 && r.close
}

/// A row as a hit.
pub open spec fn hit_of(r: ScoredRow) -> HitView {
    HitView {
        id: r.id,
        query: r.key.query@,
        answer: r.key.answer@,
        score: r.score,
        session_id: r.key.session_id@,
        created_at: r.created_at,
    }
}

/// The hits among the rows: those that count, of other sessions than the one
/// that asks.
pub open spec fn candidates(rows: Seq<ScoredRow>, dim: usize, asking: Seq<char>) -> Seq<HitView>
    decreases rows.len(),
{
    if rows.len() == 0 {
        Seq::empty()
    } else {
        let before = candidates(rows.drop_last(), dim, asking);
        let r = rows.last();
        if counts(r, dim) && r.key.session_id@ != asking {
            before.push(hit_of(r))
        } else {
            before
        }
    }
}

/// Whether one of the rows belongs to a memory.
pub open spec fn has_key(rows: Seq<ScoredRow>, key: KeyView) -> bool {
    exists|i: int| 0 <= i < rows.len() && (#[trigger] rows[i]).key@ == key
}

/// The first row of each memory among the rows that count.
pub open spec fn replaced(rows: Seq<ScoredRow>, dim: usize) -> Seq<ScoredRow>
    decreases rows.len(),
{
    if rows.len() == 0 {
        Seq::empty()
    } else {
        let before = replaced(rows.drop_last(), dim);
        if counts(rows.last(), dim) && !has_key(before, rows.last().key@) {
            before.push(rows.last())
        } else {
            before
        }
    }
}

fn same_key(a: &MemoryKey, b: &MemoryKey) -> (r: bool)
    ensures
        r == (a@ == b@),
{
    str_eq(a.session_id.as_str(), b.session_id.as_str()) && str_eq(a.query.as_str(), b.query.as_str()) && str_eq(
        a.answer.as_str(),
        b.answer.as_str(),
    )
}

fn row_has_key(rows: &Vec<ScoredRow>, key: &MemoryKey) -> (r: bool)
    ensures
        r == has_key(rows@, key@),
{
    let mut i: usize = 0;
    while i < rows.len()
        invariant
            i <= rows.len(),
            forall|j: int| 0 <= j < i ==> (#[trigger] rows@[j]).key@ != key@,
        decreases rows.len() - i,
    {
        if same_key(&rows[i].key, key) {
            return true;
        }
        i += 1;
    }
    false
}

fn replaced_rows(rows: Vec<ScoredRow>, dim: usize) -> (r: Vec<ScoredRow>)
    ensures
        r@ == replaced(rows@, dim),
{
    let ghost all = rows@;
    let mut out: Vec<ScoredRow> = Vec::new();
    assert(out@ =~= replaced(all.take(0), dim));
    for x in it: rows
        invariant
            it.seq() == all,
            out@ == replaced(all.take(it.index() as int), dim),
    {
        proof {
            let i = it.index() as int;
            assert(all.take(i + 1).drop_last() =~= all.take(i));
            assert(all.take(i + 1).last() == x);
        }
        if row_counts(&x, dim) && !row_has_key(&out, &x.key) {
            out.push(x);
        }
    }
    assert(all.take(all.len() as int) =~= all);
    out
}

fn candidate_hits(rows: Vec<ScoredRow>, dim: usize, asking: &str) -> (r: Vec<MemoryHit>)
    ensures
        hit_views(r@) == candidates(rows@, dim, asking@),
{
    let ghost all = rows@;
    let mut out: Vec<MemoryHit> = Vec::new();
    assert(hit_views(out@) =~= candidates(all.take(0), dim, asking@));
    for x in it: rows
        invariant
            it.seq() == all,
            hit_views(out@) == candidates(all.take(it.index() as int), dim, asking@),
    {
        let ghost before = hit_views(out@);
        proof {
            let i = it.index() as int;
            assert(all.take(i + 1).drop_last() =~= all.take(i));
            assert(all.take(i + 1).last() == x);
        }
        if row_counts(&x, dim) && !str_eq(x.key.session_id.as_str(), asking) {
            let hit: MemoryHit = MemoryHit {
                id: x.id,
                query: x.key.query,
                answer: x.key.answer,
                score: x.score,
                session_id: x.key.session_id,
                created_at: x.created_at,
            };
            let ghost hv = hit@;
            out.push(hit);
            assert(hit_views(out@) =~= before.push(hv));
        }
    }
    assert(all.take(all.len() as int) =~= all);
    out
}

/// The store of memories, as far as it decides: the backend in use, and why it
/// cannot be used with the vectors in the store, if so.
#[derive(Debug)]
pub struct MemoryStore {
    embed_id: String,
    mismatch: Option<String>,
}

/// What is to be written for a new memory.
#[derive(Debug)]
pub struct StorePlan {
    /// The rows whose memories are replaced.
    pub replaces: Vec<ScoredRow>,
    /// The answer as it is stored.
    pub answer: String,
}

/// What a store holds.
pub struct StoreView {
    pub embed_id: Seq<char>,
    pub mismatch: Option<Seq<char>>,
}

impl View for MemoryStore {
    type V = StoreView;

    closed spec fn view(&self) -> StoreView {
        StoreView { embed_id: self.embed_id@, mismatch: opt_view(self.mismatch) }
    }
}

impl MemoryStore {
    /// Opens a store that holds vectors of these backends.
    pub fn open(ids: &Vec<String>, embed_id: &str) -> (r: MemoryStore)
        ensures
            r@.embed_id == embed_id@,
            r@.mismatch == mismatch_text(strs(ids@), embed_id@),
    {
        let m: Option<String> = mismatch(ids, embed_id);
        MemoryStore { embed_id: embed_id.to_string(), mismatch: m }
    }

    /// The backend in use.
    pub fn embed_id(&self) -> (r: &str)
        ensures
            r@ == self@.embed_id,
    {
        self.embed_id.as_str()
    }

    /// Why memories are neither sought nor stored, if so.
    pub fn mismatch(&self) -> (r: Option<&str>)
        ensures
            self@.mismatch == (match r {
                Some(m) => Some(m@),
                None => None,
            }),
    {
        match &self.mismatch {
            Some(m) => Some(m.as_str()),
            None => None,
        }
    }

    /// Searches the measured rows for at most `k` hits. A blank vector finds
    /// nothing.
    pub fn search(&self, rows: Vec<ScoredRow>, dim: usize, blank: bool, k: usize, asking: &str) -> (r: Result<
        Vec<MemoryHit>,
        String,
    >)
        ensures
            match self@.mismatch {
                Some(m) => r is Err && r->Err_0@ == m,
                None => r is Ok && hit_views(r->Ok_0@) == (if dim == 0 || blank {
                    Seq::empty()
                } else {
                    top_hits(candidates(rows@, dim, asking@), k as nat)
                }),
            },
    {
        if let Some(m) = &self.mismatch {
            return Err(m.clone());
        }
        if dim == 0 || blank {
            let none: Vec<MemoryHit> = Vec::new();
            assert(hit_views(none@) =~= Seq::empty());
            return Ok(none);
        }
        let found: Vec<MemoryHit> = candidate_hits(rows, dim, asking);
        Ok(best_hits(found, k))
    }

    /// What is to be written for a new memory: memories that the rows close to
    /// its question belong to are replaced, unless that is switched off or its
    /// vector is blank.
    pub fn store(&self, rows: Vec<ScoredRow>, dim: usize, replacing: bool, answer: &str) -> (r: Result<
        StorePlan,
        String,
    >)
        ensures
            match self@.mismatch {
                Some(m) => r is Err && r->Err_0@ == m,
                None => r is Ok && r->Ok_0.answer@ == head(answer@, MAX_ANSWER_CHARS as nat)
                    && r->Ok_0.replaces@ == (if replacing {
                    replaced(rows@, dim)
                } else {
                    Seq::empty()
                }),
            },
    {
        if let Some(m) = &self.mismatch {
            return Err(m.clone());
        }
        let replaces: Vec<ScoredRow> = if replacing {
            replaced_rows(rows, dim)
        } else {
            Vec::new()
        };
        Ok(StorePlan { replaces, answer: head_string(answer, MAX_ANSWER_CHARS) })
    }
}

/// Each memory is replaced once, though two of its rows may be close.
pub proof fn law_replaced_once(rows: Seq<ScoredRow>, dim: usize, i: int, j: int)
    requires
        0 <= i < j < replaced(rows, dim).len(),
    ensures
        replaced(rows, dim)[i].key@ != replaced(rows, dim)[j].key@,
    decreases rows.len(),
{
    let p = rows.drop_last();
    let before = replaced(p, dim);
    if j < before.len() {
        law_replaced_once(p, dim, i, j);
    } else {
        assert(before[i] == replaced(rows, dim)[i]);
    }
}

proof fn lemma_candidates(rows: Seq<ScoredRow>, dim: usize, asking: Seq<char>, i: int)
    requires
        0 <= i < candidates(rows, dim, asking).len(),
    ensures
        exists|j: int|
            0 <= j < rows.len() && counts(#[trigger] rows[j], dim) && rows[j].key.session_id@ != asking && hit_of(
                rows[j],
            ) == candidates(rows, dim, asking)[i],
    decreases rows.len(),
{
    let p = rows.drop_last();
    let before = candidates(p, dim, asking);
    if i < before.len() {
        lemma_candidates(p, dim, asking, i);
        let j = choose|j: int|
            0 <= j < p.len() && counts(#[trigger] p[j], dim) && p[j].key.session_id@ != asking && hit_of(p[j])
                == before[i];
        assert(rows[j] == p[j]);
    } else {
        assert(rows[rows.len() - 1] == rows.last());
    }
}

proof fn lemma_best_from(v: Seq<HitView>, i: int)
    requires
        0 <= i < best_of(v).len(),
    ensures
        v.contains(best_of(v)[i]),
    decreases v.len(),
{
    let p = v.drop_last();
    lemma_best_one_each(p);
    lemma_with_best(best_of(p), v.last());
    let y = best_of(v)[i];
    if y == v.last() {
        assert(v[v.len() - 1] == y);
    } else {
        let k = best_of(p).index_of(y);
        lemma_best_from(p, k);
        let m = p.index_of(y);
        assert(v[m] == y);
    }
}

/// Every hit tells of a row that is close to the question, was not replaced,
/// has a vector of the question's length, and is of another session: what comes
/// back is that row's question with that row's answer.
pub proof fn law_hits_come_from_live_rows(rows: Seq<ScoredRow>, dim: usize, asking: Seq<char>, k: nat, i: int)
    requires
        0 <= i < top_hits(candidates(rows, dim, asking), k).len(),
    ensures
        ({
            let hit = top_hits(candidates(rows, dim, asking), k)[i];
            exists|j: int|
                {
                    &&& 0 <= j < rows.len()
                    &&& hit.id == (#[trigger] rows[j]).id
                    &&& hit.query == rows[j].key.query@
                    &&& hit.answer == rows[j].key.answer@
                    &&& hit.session_id == rows[j].key.session_id@
                    &&& hit.created_at == rows[j].created_at
                    &&& hit.score == rows[j].score
                    &&& rows[j].close
                    &&& !rows[j].superseded
                    &&& rows[j].dim == dim
                    &&& rows[j].key.session_id@ != asking
                }
        }),
{
    let c = candidates(rows, dim, asking);
    lemma_ranked(best_of(c));
    let y = ranked(best_of(c))[i];
    let b = best_of(c).index_of(y);
    lemma_best_from(c, b);
    let m = c.index_of(y);
    lemma_candidates(rows, dim, asking, m);
    let j = choose|j: int|
        0 <= j < rows.len() && counts(#[trigger] rows[j], dim) && rows[j].key.session_id@ != asking && hit_of(rows[j])
            == c[m];
    assert(y.answer == rows[j].key.answer@);
}

/// A hit tells of a row: its question, its answer, and where and when it was.
spec fn tells_of(h: HitView, r: ScoredRow) -> bool {
    &&& h.id == r.id
    &&& h.query == r.key.query@
    &&& h.answer == r.key.answer@
    &&& h.session_id == r.key.session_id@
    &&& h.created_at == r.created_at
    &&& h.score == r.score
}

proof fn lemma_considered(rows: Seq<ScoredRow>, dim: usize, asking: Seq<char>, j: int)
    requires
        0 <= j < rows.len(),
        rows[j].close,
        !rows[j].superseded,
        rows[j].dim == dim,
        rows[j].key.session_id@ != asking,
    ensures
        exists|m: int|
            0 <= m < candidates(rows, dim, asking).len() && tells_of(
                #[trigger] candidates(rows, dim, asking)[m],
                rows[j],
            ),
    decreases rows.len(),
{
    let p = rows.drop_last();
    let before = candidates(p, dim, asking);
    let all = candidates(rows, dim, asking);
    if j < rows.len() - 1 {
        lemma_considered(p, dim, asking, j);
        let m = choose|m: int| 0 <= m < before.len() && tells_of(#[trigger] before[m], p[j]);
        assert(all[m] == before[m]);
    } else {
        assert(tells_of(all[before.len() as int], rows[j]));
    }
}

/// No row that is close, was not replaced, has the question's length and is of
/// another session is passed over: the hits hold one on the same question of
/// the same session that is at least as good, or they are as many as were asked
/// for and all at least as good.
pub proof fn law_no_live_row_is_passed_over(rows: Seq<ScoredRow>, dim: usize, asking: Seq<char>, k: nat, j: int)
    requires
        0 <= j < rows.len(),
        rows[j].close,
        !rows[j].superseded,
        rows[j].dim == dim,
        rows[j].key.session_id@ != asking,
    ensures
        ({
            let top = top_hits(candidates(rows, dim, asking), k);
            ||| exists|i: int|
                0 <= i < top.len() && (#[trigger] top[i]).session_id == rows[j].key.session_id@ && top[i].query
                    == rows[j].key.query@ && top[i].score >= rows[j].score
            ||| top.len() == k && forall|i: int|
                0 <= i < top.len() ==> (#[trigger] top[i]).score >= rows[j].score
        }),
{
    let c = candidates(rows, dim, asking);
    lemma_considered(rows, dim, asking, j);
    let m = choose|m: int| 0 <= m < c.len() && tells_of(#[trigger] c[m], rows[j]);
    law_best_are_found(c, k, m);
    let top = top_hits(c, k);
    if exists|i: int| 0 <= i < top.len() && same_memory(#[trigger] top[i], c[m]) && top[i].score >= c[m].score {
        let i = choose|i: int| 0 <= i < top.len() && same_memory(#[trigger] top[i], c[m]) && top[i].score >= c[m].score;
        assert(top[i].session_id == rows[j].key.session_id@);
    }
}

/// Every memory that is close to a new one's question is replaced by it, and no
/// other: of each that a close, living row of the same length belongs to, one
/// row is named.
pub proof fn law_close_memories_are_replaced(rows: Seq<ScoredRow>, dim: usize, j: int)
    requires
        0 <= j < rows.len(),
    ensures
        rows[j].close && !rows[j].superseded && rows[j].dim == dim ==> exists|i: int|
            0 <= i < replaced(rows, dim).len() && (#[trigger] replaced(rows, dim)[i]).key.session_id@
                == rows[j].key.session_id@ && replaced(rows, dim)[i].key.query@ == rows[j].key.query@
                && replaced(rows, dim)[i].key.answer@ == rows[j].key.answer@,
        forall|i: int|
            0 <= i < replaced(rows, dim).len() ==> rows.contains(#[trigger] replaced(rows, dim)[i]) && replaced(
                rows,
                dim,
            )[i].close && !replaced(rows, dim)[i].superseded && replaced(rows, dim)[i].dim == dim,
    decreases rows.len(),
{
    let p = rows.drop_last();
    let before = replaced(p, dim);
    let all = replaced(rows, dim);
    if p.len() > 0 {
        let n = if j < p.len() {
            j
        } else {
            0
        };
        law_close_memories_are_replaced(p, dim, n);
    }
    assert forall|i: int| 0 <= i < all.len() implies rows.contains(#[trigger] all[i]) && all[i].close && !all[i].superseded
        && all[i].dim == dim by {
        if i < before.len() {
            assert(all[i] == before[i]);
            assert(p.contains(before[i]));
            assert(rows[p.index_of(before[i])] == all[i]);
        } else {
            assert(rows[rows.len() - 1] == all[i]);
        }
    }
    if rows[j].close && !rows[j].superseded && rows[j].dim == dim {
        if j < p.len() {
            let i = choose|i: int|
                0 <= i < before.len() && (#[trigger] before[i]).key.session_id@ == p[j].key.session_id@
                    && before[i].key.query@ == p[j].key.query@ && before[i].key.answer@ == p[j].key.answer@;
            assert(all[i] == before[i]);
        } else if has_key(before, rows.last().key@) {
            let i = choose|i: int| 0 <= i < before.len() && (#[trigger] before[i]).key@ == rows.last().key@;
            assert(all[i] == before[i]);
        } else {
            assert(all[before.len() as int] == rows[j]);
        }
    }
}

proof fn lemma_inserted(v: Seq<HitView>, x: HitView, y: HitView)
    requires
        y == x || v.contains(y),
    ensures
        insert_hit(v, x).contains(y),
    decreases v.len(),
{
    let r = insert_hit(v, x);
    if v.len() == 0 || v.last().score >= x.score {
        if y == x {
            assert(r[v.len() as int] == y);
        } else {
            assert(r[v.index_of(y)] == y);
        }
    } else {
        let p = v.drop_last();
        let q = insert_hit(p, x);
        if y != x && y == v.last() {
            assert(r[q.len() as int] == y);
        } else {
            if y != x {
                assert(p[v.index_of(y)] == y);
            }
            lemma_inserted(p, x, y);
            assert(r[q.index_of(y)] == y);
        }
    }
}

proof fn lemma_ranked_keeps(v: Seq<HitView>, y: HitView)
    requires
        v.contains(y),
    ensures
        ranked(v).contains(y),
    decreases v.len(),
{
    let p = v.drop_last();
    if y != v.last() {
        assert(p[v.index_of(y)] == y);
        lemma_ranked_keeps(p, y);
    }
    lemma_inserted(ranked(p), v.last(), y);
}

/// Of the hits on a question one that is as good as any of them stays.
spec fn covers(v: Seq<HitView>, c: HitView) -> bool {
    exists|i: int| 0 <= i < v.len() && same_memory(#[trigger] v[i], c) && v[i].score >= c.score
}

proof fn lemma_best_covers(v: Seq<HitView>, x: HitView, c: HitView)
    requires
        c == x || covers(v, c),
    ensures
        covers(with_best(v, x), c),
    decreases v.len(),
{
    let r = with_best(v, x);
    if v.len() == 0 {
        assert(same_memory(r[0], c));
    } else if same_memory(v[0], x) {
        if c == x {
            assert(same_memory(r[0], c));
        } else {
            let i = choose|i: int| 0 <= i < v.len() && same_memory(#[trigger] v[i], c) && v[i].score >= c.score;
            assert(same_memory(r[i], c) && r[i].score >= c.score);
        }
    } else {
        let t = v.drop_first();
        if c != x {
            let i = choose|i: int| 0 <= i < v.len() && same_memory(#[trigger] v[i], c) && v[i].score >= c.score;
            if i > 0 {
                assert(t[i - 1] == v[i]);
            } else {
                assert(same_memory(r[0], c) && r[0].score >= c.score);
            }
        }
        if c == x || covers(t, c) {
            lemma_best_covers(t, x, c);
            let q = with_best(t, x);
            let i = choose|i: int| 0 <= i < q.len() && same_memory(#[trigger] q[i], c) && q[i].score >= c.score;
            assert(r[i + 1] == q[i]);
        }
    }
}

proof fn lemma_best_of_covers(v: Seq<HitView>, m: int)
    requires
        0 <= m < v.len(),
    ensures
        covers(best_of(v), v[m]),
    decreases v.len(),
{
    let p = v.drop_last();
    if m < p.len() {
        lemma_best_of_covers(p, m);
        assert(p[m] == v[m]);
    }
    lemma_best_covers(best_of(p), v.last(), v[m]);
}

/// No better memory is left out: for each of those found, the hits hold one on
/// the same question that is as good, or there are `k` of them and all are as
/// good.
pub proof fn law_best_are_found(v: Seq<HitView>, k: nat, m: int)
    requires
        0 <= m < v.len(),
    ensures
        ({
            let top = top_hits(v, k);
            ||| exists|i: int| 0 <= i < top.len() && same_memory(#[trigger] top[i], v[m]) && top[i].score >= v[m].score
            ||| top.len() == k && forall|i: int| 0 <= i < top.len() ==> (#[trigger] top[i]).score >= v[m].score
        }),
{
    let best = best_of(v);
    let r = ranked(best);
    let top = top_hits(v, k);
    lemma_best_of_covers(v, m);
    let b = choose|b: int| 0 <= b < best.len() && same_memory(#[trigger] best[b], v[m]) && best[b].score >= v[m].score;
    let y = best[b];
    lemma_ranked_keeps(best, y);
    lemma_ranked(best);
    let q = r.index_of(y);
    if q < top.len() {
        assert(same_memory(top[q], v[m]));
    } else {
        assert forall|i: int| 0 <= i < top.len() implies (#[trigger] top[i]).score >= v[m].score by {
            assert(r[i].score >= r[q].score);
        }
    }
}

// ---------- rebuilding ----------

/// A row of the store, without its vector.
#[derive(Debug)]
pub struct MemoryRow {
    pub id: i64,
    pub key: MemoryKey,
    pub created_at: i64,
}

/// The rows of one memory, in the order of their ids.
#[derive(Debug)]
pub struct MemoryGroup {
    pub key: MemoryKey,
    pub created_at: i64,
    pub ids: Vec<i64>,
}

pub struct GroupView {
    pub key: KeyView,
    pub created_at: i64,
    pub ids: Seq<i64>,
}

impl View for MemoryGroup {
    type V = GroupView;

    open spec fn view(&self) -> GroupView {
        GroupView { key: self.key@, created_at: self.created_at, ids: self.ids@ }
    }
}

pub open spec fn group_views(v: Seq<MemoryGroup>) -> Seq<GroupView> {
    Seq::new(v.len(), |i: int| v[i]@)
}

/// The order of groups: by session, question, answer and time.
pub open spec fn group_less(a: KeyView, at: i64, b: KeyView, bt: i64) -> bool {
    if a.session_id != b.session_id {
        text_less(a.session_id, b.session_id)
    } else if a.query != b.query {
        text_less(a.query, b.query)
    } else if a.answer != b.answer {
        text_less(a.answer, b.answer)
    } else {
        at < bt
    }
}

/// The groups with one more row.
pub open spec fn add_row(v: Seq<GroupView>, key: KeyView, created_at: i64, id: i64) -> Seq<GroupView>
    decreases v.len(),
{
    if v.len() == 0 {
        seq![GroupView { key, created_at, ids: seq![id] }]
    } else if v[0].key == key && v[0].created_at == created_at {
        seq![GroupView { ids: v[0].ids.push(id), ..v[0] }] + v.drop_first()
    } else if group_less(key, created_at, v[0].key, v[0].created_at) {
        seq![GroupView { key, created_at, ids: seq![id] }] + v
    } else {
        seq![v[0]] + add_row(v.drop_first(), key, created_at, id)
    }
}

/// The rows in groups.
pub open spec fn grouped(v: Seq<MemoryRow>) -> Seq<GroupView>
    decreases v.len(),
{
    if v.len() == 0 {
        Seq::empty()
    } else {
        add_row(grouped(v.drop_last()), v.last().key@, v.last().created_at, v.last().id)
    }
}

fn group_less_of(a: &MemoryKey, at: i64, b: &MemoryKey, bt: i64) -> (r: bool)
    ensures
        r == group_less(a@, at, b@, bt),
{
    if !str_eq(a.session_id.as_str(), b.session_id.as_str()) {
        str_less(a.session_id.as_str(), b.session_id.as_str())
    } else if !str_eq(a.query.as_str(), b.query.as_str()) {
        str_less(a.query.as_str(), b.query.as_str())
    } else if !str_eq(a.answer.as_str(), b.answer.as_str()) {
        str_less(a.answer.as_str(), b.answer.as_str())
    } else {
        at < bt
    }
}

fn put_row(out: &mut Vec<MemoryGroup>, row: MemoryRow)
    ensures
        group_views(final(out)@) == add_row(group_views(old(out)@), row.key@, row.created_at, row.id),
{
    let ghost all = group_views(out@);
    let ghost key = row.key@;
    let ghost t = row.created_at;
    let ghost id = row.id;
    let n: usize = out.len();
    let mut i: usize = 0;
    assert(all.skip(0) =~= all);
    assert(all.take(0) + add_row(all, key, t, id) =~= add_row(all, key, t, id));
    while i < n && !(same_key(&out[i].key, &row.key) && out[i].created_at == row.created_at) && !group_less_of(
        &row.key,
        row.created_at,
        &out[i].key,
        out[i].created_at,
    )
        invariant
            i <= n,
            n == out.len(),
            all == group_views(out@),
            key == row.key@,
            t == row.created_at,
            id == row.id,
            add_row(all, key, t, id) == all.take(i as int) + add_row(all.skip(i as int), key, t, id),
        decreases n - i,
    {
        proof {
            let rest = all.skip(i as int);
            assert(rest[0] == out@[i as int]@);
            assert(rest.drop_first() =~= all.skip(i as int + 1));
            assert(all.take(i as int) + (seq![rest[0]] + add_row(all.skip(i as int + 1), key, t, id)) =~= all.take(
                i as int + 1,
            ) + add_row(all.skip(i as int + 1), key, t, id));
        }
        i += 1;
    }
    let ghost rest = all.skip(i as int);
    if i < n && same_key(&out[i].key, &row.key) && out[i].created_at == row.created_at {
        assert(rest[0] == out@[i as int]@);
        let mut g: MemoryGroup = out.remove(i);
        g.ids.push(row.id);
        let ghost gv = g@;
        out.insert(i, g);
        proof {
            assert(gv == (GroupView { ids: rest[0].ids.push(id), ..rest[0] }));
            assert(group_views(out@) =~= all.take(i as int) + (seq![gv] + rest.drop_first()));
        }
    } else {
        let mut ids: Vec<i64> = Vec::new();
        ids.push(row.id);
        let g: MemoryGroup = MemoryGroup { key: row.key, created_at: row.created_at, ids };
        let ghost gv = g@;
        assert(gv.ids =~= seq![id]);
        out.insert(i, g);
        proof {
            if i < n {
                assert(rest[0] == all[i as int]);
            } else {
                assert(rest =~= Seq::<GroupView>::empty());
            }
            assert(group_views(out@) =~= all.take(i as int) + (seq![gv] + rest));
            assert(add_row(rest, key, t, id) =~= seq![gv] + rest);
        }
    }
}

/// Puts the rows of the store into groups: one for each memory. The first row
/// of a group holds the question's vector.
pub fn group_rows(rows: Vec<MemoryRow>) -> (r: Vec<MemoryGroup>)
    ensures
        group_views(r@) == grouped(rows@),
{
    let ghost all = rows@;
    let mut out: Vec<MemoryGroup> = Vec::new();
    assert(group_views(out@) =~= grouped(all.take(0)));
    for x in it: rows
        invariant
            it.seq() == all,
            group_views(out@) == grouped(all.take(it.index() as int)),
    {
        proof {
            let i = it.index() as int;
            assert(all.take(i + 1).drop_last() =~= all.take(i));
            assert(all.take(i + 1).last() == x);
        }
        put_row(&mut out, x);
    }
    assert(all.take(all.len() as int) =~= all);
    out
}

/// The ids of the rows that the groups hold.
pub open spec fn grouped_ids(v: Seq<GroupView>) -> Multiset<i64>
    decreases v.len(),
{
    if v.len() == 0 {
        Multiset::empty()
    } else {
        v[0].ids.to_multiset().add(grouped_ids(v.drop_first()))
    }
}

/// A group of a memory holds a row.
pub open spec fn row_in(v: Seq<GroupView>, key: KeyView, created_at: i64, id: i64) -> bool {
    exists|g: int|
        0 <= g < v.len() && (#[trigger] v[g]).key == key && v[g].created_at == created_at && v[g].ids.contains(id)
}

proof fn lemma_add_row_ids(v: Seq<GroupView>, key: KeyView, created_at: i64, id: i64)
    ensures
        grouped_ids(add_row(v, key, created_at, id)) =~= grouped_ids(v).insert(id),
    decreases v.len(),
{
    let r = add_row(v, key, created_at, id);
    let none = Seq::<i64>::empty();
    none.to_multiset_ensures();
    assert(none.push(id) =~= seq![id]);
    assert(seq![id].to_multiset() =~= Multiset::empty().insert(id));
    if v.len() == 0 {
        assert(r.drop_first() =~= v);
    } else if v[0].key == key && v[0].created_at == created_at {
        v[0].ids.to_multiset_ensures();
        assert(r.drop_first() =~= v.drop_first());
    } else if group_less(key, created_at, v[0].key, v[0].created_at) {
        assert(r.drop_first() =~= v);
    } else {
        lemma_add_row_ids(v.drop_first(), key, created_at, id);
        assert(r.drop_first() =~= add_row(v.drop_first(), key, created_at, id));
    }
}

/// A row that is added is in a group of its memory, and those that were in one
/// stay there.
proof fn lemma_row_in(v: Seq<GroupView>, key: KeyView, created_at: i64, id: i64, k: KeyView, t: i64, x: i64)
    requires
        row_in(v, k, t, x) || (k == key && t == created_at && x == id),
    ensures
        row_in(add_row(v, key, created_at, id), k, t, x),
    decreases v.len(),
{
    let r = add_row(v, key, created_at, id);
    if v.len() == 0 {
        assert(r[0].ids[0] == id);
    } else if v[0].key == key && v[0].created_at == created_at {
        let n = v[0].ids.len() as int;
        assert(r[0].ids[n] == id);
        if row_in(v, k, t, x) {
            let g = choose|g: int|
                0 <= g < v.len() && (#[trigger] v[g]).key == k && v[g].created_at == t && v[g].ids.contains(x);
            if g == 0 {
                assert(r[0].ids[v[0].ids.index_of(x)] == x);
            } else {
                assert(r[g] == v[g]);
            }
        } else {
            assert(r[0].ids.contains(x));
        }
    } else if group_less(key, created_at, v[0].key, v[0].created_at) {
        if row_in(v, k, t, x) {
            let g = choose|g: int|
                0 <= g < v.len() && (#[trigger] v[g]).key == k && v[g].created_at == t && v[g].ids.contains(x);
            assert(r[g + 1] == v[g]);
        } else {
            assert(r[0].ids[0] == id);
        }
    } else {
        let rest = v.drop_first();
        let q = add_row(rest, key, created_at, id);
        if row_in(v, k, t, x) {
            let g = choose|g: int|
                0 <= g < v.len() && (#[trigger] v[g]).key == k && v[g].created_at == t && v[g].ids.contains(x);
            if g == 0 {
                assert(r[0] == v[0]);
            } else {
                assert(rest[g - 1] == v[g]);
                assert(row_in(rest, k, t, x));
            }
        }
        if row_in(rest, k, t, x) || (k == key && t == created_at && x == id) {
            lemma_row_in(rest, key, created_at, id, k, t, x);
            let g = choose|g: int|
                0 <= g < q.len() && (#[trigger] q[g]).key == k && q[g].created_at == t && q[g].ids.contains(x);
            assert(r[g + 1] == q[g]);
        }
    }
}

/// Every row is in exactly one group, and that is one of its memory: together
/// the groups hold the rows, each once.
pub proof fn law_every_row_is_grouped(v: Seq<MemoryRow>)
    ensures
        grouped_ids(grouped(v)) =~= Seq::new(v.len(), |i: int| v[i].id).to_multiset(),
        forall|i: int|
            0 <= i < v.len() ==> row_in(grouped(v), (#[trigger] v[i]).key@, v[i].created_at, v[i].id),
    decreases v.len(),
{
    let ids = Seq::new(v.len(), |i: int| v[i].id);
    if v.len() > 0 {
        let p = v.drop_last();
        let x = v.last();
        let before = Seq::new(p.len(), |i: int| p[i].id);
        law_every_row_is_grouped(p);
        lemma_add_row_ids(grouped(p), x.key@, x.created_at, x.id);
        before.to_multiset_ensures();
        assert(before.push(x.id) =~= ids);
        assert forall|i: int| 0 <= i < v.len() implies row_in(
            grouped(v),
            (#[trigger] v[i]).key@,
            v[i].created_at,
            v[i].id,
        ) by {
            if i < p.len() {
                assert(p[i] == v[i]);
            }
            lemma_row_in(grouped(p), x.key@, x.created_at, x.id, v[i].key@, v[i].created_at, v[i].id);
        }
    } else {
        ids.to_multiset_ensures();
        assert(ids =~= Seq::<i64>::empty());
    }
}

proof fn lemma_text_less_trans(a: Seq<char>, b: Seq<char>, c: Seq<char>)
    requires
        text_less(a, b),
        text_less(b, c),
    ensures
        text_less(a, c),
{
    crate::text::law_text_order(a, b);
    crate::text::law_text_order(b, c);
    crate::text::law_text_order(a, c);
    crate::text::lemma_not_less_trans(a, b, c);
}

proof fn lemma_group_less(a: KeyView, at: i64, b: KeyView, bt: i64)
    ensures
        !(group_less(a, at, b, bt) && group_less(b, bt, a, at)),
        a == b && at == bt ==> !group_less(a, at, b, bt),
        a != b || at != bt ==> group_less(a, at, b, bt) || group_less(b, bt, a, at),
{
    crate::text::law_text_order(a.session_id, b.session_id);
    crate::text::law_text_order(a.query, b.query);
    crate::text::law_text_order(a.answer, b.answer);
}

proof fn lemma_group_less_trans(a: KeyView, at: i64, b: KeyView, bt: i64, c: KeyView, ct: i64)
    requires
        group_less(a, at, b, bt),
        group_less(b, bt, c, ct),
    ensures
        group_less(a, at, c, ct),
{
    crate::text::law_text_order(a.session_id, b.session_id);
    crate::text::law_text_order(a.query, b.query);
    crate::text::law_text_order(a.answer, b.answer);
    if a.session_id != b.session_id && b.session_id != c.session_id {
        lemma_text_less_trans(a.session_id, b.session_id, c.session_id);
        crate::text::law_text_order(a.session_id, c.session_id);
    } else if a.session_id == b.session_id && b.session_id == c.session_id {
        if a.query != b.query && b.query != c.query {
            lemma_text_less_trans(a.query, b.query, c.query);
            crate::text::law_text_order(a.query, c.query);
        } else if a.query == b.query && b.query == c.query {
            if a.answer != b.answer && b.answer != c.answer {
                lemma_text_less_trans(a.answer, b.answer, c.answer);
                crate::text::law_text_order(a.answer, c.answer);
            }
        }
    }
}

/// Groups in ascending order.
pub open spec fn groups_ascend(v: Seq<GroupView>) -> bool {
    forall|i: int, j: int|
        0 <= i < j < v.len() ==> group_less(
            (#[trigger] v[i]).key,
            v[i].created_at,
            (#[trigger] v[j]).key,
            v[j].created_at,
        )
}

proof fn lemma_add_row_ascends(v: Seq<GroupView>, key: KeyView, created_at: i64, id: i64)
    requires
        groups_ascend(v),
    ensures
        groups_ascend(add_row(v, key, created_at, id)),
        add_row(v, key, created_at, id).len() > 0,
        forall|i: int|
            0 <= i < add_row(v, key, created_at, id).len() ==> {
                let g = #[trigger] add_row(v, key, created_at, id)[i];
                ||| g.key == key && g.created_at == created_at
                ||| exists|j: int| 0 <= j < v.len() && (#[trigger] v[j]).key == g.key && v[j].created_at == g.created_at
            },
    decreases v.len(),
{
    let r = add_row(v, key, created_at, id);
    if v.len() == 0 {
    } else if v[0].key == key && v[0].created_at == created_at {
        assert forall|i: int| 0 < i < r.len() implies #[trigger] r[i] == v[i] by {}
    } else if group_less(key, created_at, v[0].key, v[0].created_at) {
        assert forall|i: int| 0 < i < r.len() implies #[trigger] r[i] == v[i - 1] by {}
        assert forall|i: int, j: int| 0 <= i < j < r.len() implies group_less(
            (#[trigger] r[i]).key,
            r[i].created_at,
            (#[trigger] r[j]).key,
            r[j].created_at,
        ) by {
            assert(r[j] == v[j - 1]);
            if i == 0 {
                if j > 1 {
                    lemma_group_less_trans(
                        key,
                        created_at,
                        v[0].key,
                        v[0].created_at,
                        v[j - 1].key,
                        v[j - 1].created_at,
                    );
                }
            } else {
                assert(r[i] == v[i - 1]);
            }
        }
    } else {
        let t = v.drop_first();
        assert(groups_ascend(t)) by {
            assert forall|i: int, j: int| 0 <= i < j < t.len() implies group_less(
                (#[trigger] t[i]).key,
                t[i].created_at,
                (#[trigger] t[j]).key,
                t[j].created_at,
            ) by {
                assert(t[i] == v[i + 1] && t[j] == v[j + 1]);
            }
        }
        lemma_add_row_ascends(t, key, created_at, id);
        let q = add_row(t, key, created_at, id);
        lemma_group_less(key, created_at, v[0].key, v[0].created_at);
        assert forall|i: int| 0 < i < r.len() implies #[trigger] r[i] == q[i - 1] by {}
        assert forall|i: int| 0 <= i < r.len() implies ({
            let g = #[trigger] r[i];
            ||| g.key == key && g.created_at == created_at
            ||| exists|j: int| 0 <= j < v.len() && (#[trigger] v[j]).key == g.key && v[j].created_at == g.created_at
        }) by {
            if i == 0 {
                assert(v[0].key == r[0].key);
            } else {
                let g = q[i - 1];
                if !(g.key == key && g.created_at == created_at) {
                    let j = choose|j: int|
                        0 <= j < t.len() && (#[trigger] t[j]).key == g.key && t[j].created_at == g.created_at;
                    assert(v[j + 1].key == g.key);
                }
            }
        }
        assert forall|i: int, j: int| 0 <= i < j < r.len() implies group_less(
            (#[trigger] r[i]).key,
            r[i].created_at,
            (#[trigger] r[j]).key,
            r[j].created_at,
        ) by {
            assert(r[j] == q[j - 1]);
            if i == 0 {
                let g = q[j - 1];
                if !(g.key == key && g.created_at == created_at) {
                    let k = choose|k: int|
                        0 <= k < t.len() && (#[trigger] t[k]).key == g.key && t[k].created_at == g.created_at;
                    assert(t[k] == v[k + 1]);
                    assert(group_less(v[0].key, v[0].created_at, v[k + 1].key, v[k + 1].created_at));
                }
            } else {
                assert(r[i] == q[i - 1]);
            }
        }
    }
}

/// No two groups are of one memory.
pub proof fn law_groups_differ(v: Seq<MemoryRow>)
    ensures
        groups_ascend(grouped(v)),
        forall|i: int, j: int|
            0 <= i < j < grouped(v).len() ==> (#[trigger] grouped(v)[i]).key != (#[trigger] grouped(v)[j]).key
                || grouped(v)[i].created_at != grouped(v)[j].created_at,
    decreases v.len(),
{
    let g = grouped(v);
    if v.len() > 0 {
        law_groups_differ(v.drop_last());
        lemma_add_row_ascends(grouped(v.drop_last()), v.last().key@, v.last().created_at, v.last().id);
    }
    assert forall|i: int, j: int| 0 <= i < j < g.len() implies (#[trigger] g[i]).key != (#[trigger] g[j]).key
        || g[i].created_at != g[j].created_at by {
        assert(group_less(g[i].key, g[i].created_at, g[j].key, g[j].created_at));
        lemma_group_less(g[i].key, g[i].created_at, g[j].key, g[j].created_at);
    }
}

/// Whether progress is told: after every fifty, and at the end.
pub open spec fn tells_progress(done: int, total: int) -> bool {
    done % 50 == 0 || done == total
}

pub fn progress_due(done: usize, total: usize) -> (r: bool)
    ensures
        r == tells_progress(done as int, total as int),
{
    done % 50 == 0 || done == total
}

/// The vector that a row of a memory holds.
#[derive(Debug, Clone, Copy, PartialEq, Eq, Structural)]
pub enum RowVector {
    Question,
    Answer,
}

/// The vector that the `j`-th row of a group holds: the question's in the first
/// one, the answer's in the others.
pub open spec fn row_vector(j: int) -> RowVector {
    if j == 0 {
        RowVector::Question
    } else {
        RowVector::Answer
    }
}

pub fn vector_of_row(j: usize) -> (r: RowVector)
    ensures
        r == row_vector(j as int),
{
    if j == 0 {
        RowVector::Question
    } else {
        RowVector::Answer
    }
}

/// The result of a rebuilding.
#[derive(Debug, Clone, Copy, PartialEq, Eq, Structural)]
pub struct MigrateReport {
    pub total: usize,
    pub migrated: usize,
    pub failed: usize,
}

/// The report with one more memory, which was rebuilt or was not.
pub open spec fn counted(r: MigrateReport, ok: bool) -> MigrateReport {
    if ok {
        MigrateReport { migrated: (r.migrated + 1) as usize, ..r }
    } else {
        MigrateReport { failed: (r.failed + 1) as usize, ..r }
    }
}

/// What is written of a group: every row takes its vector anew where both were
/// made, and stays as it is where one was not.
pub open spec fn row_writes(ids: Seq<i64>, ok: bool) -> Seq<(i64, RowVector)> {
    if ok {
        Seq::new(ids.len(), |j: int| (ids[j], row_vector(j)))
    } else {
        Seq::empty()
    }
}

/// The progress that is told with a report: how many memories are done, and of
/// how many.
pub open spec fn progress_with(r: MigrateReport) -> Option<(usize, usize)> {
    if tells_progress(r.migrated + r.failed, r.total as int) {
        Some(((r.migrated + r.failed) as usize, r.total))
    } else {
        None
    }
}

/// What follows the try to make a group's vectors.
#[derive(Debug)]
pub struct MigrateStep {
    /// The rows to write, each with its vector.
    pub writes: Vec<(i64, RowVector)>,
    /// The progress to tell: how many memories are done, and of how many.
    pub progress: Option<(usize, usize)>,
}

impl MigrateReport {
    /// Before anything is rebuilt.
    pub fn new(total: usize) -> (r: MigrateReport)
        ensures
            r == (MigrateReport { total, migrated: 0, failed: 0 }),
    {
        MigrateReport { total, migrated: 0, failed: 0 }
    }

    /// Takes a group whose question's and answer's vectors were made, or were
    /// not.
    pub fn take_group(&mut self, g: &MemoryGroup, question_ok: bool, answer_ok: bool) -> (r: MigrateStep)
        requires
            old(self).migrated + old(self).failed < old(self).total,
        ensures
            *final(self) == counted(*old(self), question_ok && answer_ok),
            r.writes@ == row_writes(g.ids@, question_ok && answer_ok),
            r.progress == progress_with(*final(self)),
    {
        let ok: bool = question_ok && answer_ok;
        let mut writes: Vec<(i64, RowVector)> = Vec::new();
        if ok {
            let mut j: usize = 0;
            while j < g.ids.len()
                invariant
                    j <= g.ids.len(),
                    writes@.len() == j,
                    forall|k: int| 0 <= k < j ==> #[trigger] writes@[k] == (g.ids@[k], row_vector(k)),
                decreases g.ids.len() - j,
            {
                writes.push((g.ids[j], vector_of_row(j)));
                j += 1;
            }
            self.migrated = self.migrated + 1;
        } else {
            self.failed = self.failed + 1;
        }
        assert(writes@ =~= row_writes(g.ids@, ok));
        let done: usize = self.migrated + self.failed;
        let progress: Option<(usize, usize)> = if progress_due(done, self.total) {
            Some((done, self.total))
        } else {
            None
        };
        MigrateStep { writes, progress }
    }
}

/// The report after the first `k` groups; `oks` tells of each whether its
/// vectors were made.
pub open spec fn report_after(oks: Seq<bool>, k: int) -> MigrateReport
    decreases k,
{
    if k <= 0 {
        MigrateReport { total: oks.len() as usize, migrated: 0, failed: 0 }
    } else {
        counted(report_after(oks, k - 1), oks[k - 1])
    }
}

/// What is written of the first `k` groups.
pub open spec fn writes_after(groups: Seq<GroupView>, oks: Seq<bool>, k: int) -> Seq<(i64, RowVector)>
    decreases k,
{
    if k <= 0 {
        Seq::empty()
    } else {
        writes_after(groups, oks, k - 1) + row_writes(groups[k - 1].ids, oks[k - 1])
    }
}

/// How many of the first `k` groups had their vectors made.
pub open spec fn made_of(oks: Seq<bool>, k: int) -> int
    decreases k,
{
    if k <= 0 {
        0
    } else if oks[k - 1] {
        made_of(oks, k - 1) + 1
    } else {
        made_of(oks, k - 1)
    }
}

/// After `k` of the groups all of them are counted, those whose vectors were
/// made as rebuilt and the others as failed, and progress is told after every
/// fifty and at the end.
pub proof fn law_every_group_is_counted(oks: Seq<bool>, k: int)
    requires
        oks.len() <= usize::MAX,
        0 <= k <= oks.len(),
    ensures
        report_after(oks, k).total == oks.len(),
        report_after(oks, k).migrated == made_of(oks, k),
        report_after(oks, k).migrated + report_after(oks, k).failed == k,
        progress_with(report_after(oks, k)) == (if tells_progress(k, oks.len() as int) {
            Some((k as usize, oks.len() as usize))
        } else {
            None::<(usize, usize)>
        }),
    decreases k,
{
    if k > 0 {
        law_every_group_is_counted(oks, k - 1);
    }
}

/// A write is one of these groups': of a group whose vectors were made, to one
/// of its rows, with the row's vector.
pub open spec fn write_of(groups: Seq<GroupView>, oks: Seq<bool>, k: int, w: (i64, RowVector)) -> bool {
    exists|i: int, j: int|
        0 <= i < k && oks[i] && 0 <= j < groups[i].ids.len() && w == (#[trigger] groups[i].ids[j], row_vector(j))
}

proof fn lemma_writes(groups: Seq<GroupView>, oks: Seq<bool>, k: int, w: (i64, RowVector))
    requires
        groups.len() == oks.len(),
        0 <= k <= groups.len(),
    ensures
        writes_after(groups, oks, k).contains(w) <==> write_of(groups, oks, k, w),
    decreases k,
{
    let all = writes_after(groups, oks, k);
    if k > 0 {
        lemma_writes(groups, oks, k - 1, w);
        let before = writes_after(groups, oks, k - 1);
        let last = row_writes(groups[k - 1].ids, oks[k - 1]);
        if all.contains(w) {
            let p = all.index_of(w);
            if p < before.len() {
                assert(before[p] == w);
                assert(before.contains(w));
                let (i, j) = choose|i: int, j: int|
                    0 <= i < k - 1 && oks[i] && 0 <= j < groups[i].ids.len() && w == (
                        #[trigger] groups[i].ids[j],
                        row_vector(j),
                    );
                assert(w.0 == groups[i].ids[j]);
            } else {
                let j = p - before.len();
                assert(last[j] == w);
                assert(w.0 == groups[k - 1].ids[j]);
            }
        }
        if write_of(groups, oks, k, w) {
            let (i, j) = choose|i: int, j: int|
                0 <= i < k && oks[i] && 0 <= j < groups[i].ids.len() && w == (
                    #[trigger] groups[i].ids[j],
                    row_vector(j),
                );
            if i < k - 1 {
                assert(w.0 == groups[i].ids[j]);
                assert(write_of(groups, oks, k - 1, w));
                let p = before.index_of(w);
                assert(all[p] == w);
            } else {
                assert(last[j] == w);
                assert(all[before.len() + j] == w);
            }
        }
    }
}

proof fn lemma_id_counts(v: Seq<GroupView>, i: int, x: i64)
    requires
        0 <= i < v.len(),
        v[i].ids.contains(x),
    ensures
        grouped_ids(v).count(x) >= 1,
    decreases v.len(),
{
    v[0].ids.to_multiset_ensures();
    if i > 0 {
        assert(v.drop_first()[i - 1] == v[i]);
        lemma_id_counts(v.drop_first(), i - 1, x);
    }
}

proof fn lemma_counts_add(v: Seq<GroupView>, x: i64)
    requires
        v.len() > 0,
    ensures
        grouped_ids(v).count(x) == v[0].ids.to_multiset().count(x) + grouped_ids(v.drop_first()).count(x),
{
}

proof fn lemma_one_place(v: Seq<GroupView>, i: int, j: int, k: int, l: int)
    requires
        forall|x: i64| (#[trigger] grouped_ids(v).count(x)) <= 1,
        0 <= i < v.len(),
        0 <= j < v[i].ids.len(),
        i <= k < v.len(),
        0 <= l < v[k].ids.len(),
        v[i].ids[j] == v[k].ids[l],
    ensures
        i == k && j == l,
    decreases v.len(),
{
    let first = v[0].ids.to_multiset();
    let t = v.drop_first();
    let x = v[i].ids[j];
    v[0].ids.to_multiset_ensures();
    if i > 0 {
        assert forall|y: i64| (#[trigger] grouped_ids(t).count(y)) <= 1 by {
            lemma_counts_add(v, y);
            assert(grouped_ids(v).count(y) <= 1);
        }
        assert(t[i - 1] == v[i] && t[k - 1] == v[k]);
        lemma_one_place(t, i - 1, j, k - 1, l);
    } else if k > 0 {
        assert(t[k - 1] == v[k]);
        assert(t[k - 1].ids.contains(x));
        lemma_id_counts(t, k - 1, x);
        assert(v[0].ids.contains(x));
        lemma_counts_add(v, x);
        assert(grouped_ids(v).count(x) <= 1);
    } else {
        assert forall|y: i64| first.contains(y) implies first.count(y) == 1 by {
            lemma_counts_add(v, y);
            assert(grouped_ids(v).count(y) <= 1);
        }
        v[0].ids.lemma_multiset_has_no_duplicates_conv();
    }
}

/// Rebuilding the rows of a store writes exactly the rows of those groups whose
/// vectors were made, the question's vector into the first row of a group and
/// the answer's into the others; the rows of the other groups stay as they are.
pub proof fn law_rebuilding(rows: Seq<MemoryRow>, oks: Seq<bool>, i: int, j: int, v: RowVector)
    requires
        oks.len() == grouped(rows).len(),
        forall|a: int, b: int| 0 <= a < b < rows.len() ==> (#[trigger] rows[a]).id != (#[trigger] rows[b]).id,
        0 <= i < grouped(rows).len(),
        0 <= j < grouped(rows)[i].ids.len(),
    ensures
        writes_after(grouped(rows), oks, oks.len() as int).contains((grouped(rows)[i].ids[j], v)) <==> oks[i]
            && v == row_vector(j),
{
    let groups = grouped(rows);
    let n = oks.len() as int;
    let x = groups[i].ids[j];
    lemma_writes(groups, oks, n, (x, v));
    let ids = Seq::new(rows.len(), |k: int| rows[k].id);
    law_every_row_is_grouped(rows);
    assert(ids.no_duplicates());
    ids.lemma_multiset_has_no_duplicates();
    assert forall|y: i64| (#[trigger] grouped_ids(groups).count(y)) <= 1 by {
        assert(grouped_ids(groups).count(y) == ids.to_multiset().count(y));
        if ids.to_multiset().count(y) > 0 {
            assert(ids.to_multiset().contains(y));
        }
    }
    if oks[i] && v == row_vector(j) {
        assert((x, v) == (groups[i].ids[j], row_vector(j)));
        assert(write_of(groups, oks, n, (x, v)));
    }
    if write_of(groups, oks, n, (x, v)) {
        let (k, l) = choose|k: int, l: int|
            0 <= k < n && oks[k] && 0 <= l < groups[k].ids.len() && (x, v) == (
                #[trigger] groups[k].ids[l],
                row_vector(l),
            );
        if i <= k {
            lemma_one_place(groups, i, j, k, l);
        } else {
            lemma_one_place(groups, k, l, i, j);
        }
    }
}

// ---------- what the command tells ----------

/// A memory in a list.
#[derive(Debug)]
pub struct MemoryEntry {
    pub id: i64,
    pub query: String,
    pub answer: String,
    pub session_id: String,
    pub embed_id: String,
    pub created_at: i64,
    pub superseded: bool,
}

/// Numbers on the store.
#[derive(Debug)]
pub struct MemoryStats {
    pub total: usize,
    pub by_embed_id: Vec<(String, usize)>,
    pub oldest: Option<i64>,
    pub newest: Option<i64>,
}

/// The line on a memory in a list.
pub open spec fn entry_text(e: MemoryEntry) -> Seq<char> {
    "id="@ + dec_int(e.id as int) + "  |  ts="@ + dec_int(e.created_at as int) + "  |  "@ + e.embed_id@
        + "  |  "@ + head(e.query@, 50) + (if e.superseded {
        "  [已被覆盖]"@
    } else {
        Seq::empty()
    })
}

fn entry_line(e: &MemoryEntry) -> (r: String)
    ensures
        r@ == entry_text(*e),
{
    let mut s: String = "id=".to_string();
    let a: String = dec_int_string(e.id);
    s.append(a.as_str());
    s.append("  |  ts=");
    let b: String = dec_int_string(e.created_at);
    s.append(b.as_str());
    s.append("  |  ");
    s.append(e.embed_id.as_str());
    s.append("  |  ");
    let h: String = head_string(e.query.as_str(), 50);
    s.append(h.as_str());
    let ghost base = s@;
    if e.superseded {
        s.append("  [已被覆盖]");
    } else {
        assert(base + Seq::<char>::empty() =~= base);
    }
    s
}

/// The lines on the memories of a list.
pub open spec fn list_text(v: Seq<MemoryEntry>) -> Seq<Seq<char>> {
    if v.len() == 0 {
        seq!["暂无记忆"@]
    } else {
        Seq::new(v.len(), |i: int| entry_text(v[i]))
    }
}

/// What the list of memories tells.
pub fn list_lines(v: &Vec<MemoryEntry>) -> (r: Vec<String>)
    ensures
        strs(r@) == list_text(v@),
{
    let mut out: Vec<String> = Vec::new();
    if v.len() == 0 {
        out.push("暂无记忆".to_string());
        assert(strs(out@) =~= list_text(v@));
        return out;
    }
    let mut i: usize = 0;
    while i < v.len()
        invariant
            i <= v.len(),
            out@.len() == i,
            forall|k: int| 0 <= k < i ==> (#[trigger] out@[k])@ == entry_text(v@[k]),
        decreases v.len() - i,
    {
        out.push(entry_line(&v[i]));
        i += 1;
    }
    assert(strs(out@) =~= list_text(v@));
    out
}

/// What the deletion of a memory tells.
pub fn delete_line(id: i64, deleted: bool) -> (r: String)
    ensures
        r@ == (if deleted {
            "已删除记忆 id="@
        } else {
            "记忆不存在：id="@
        }) + dec_int(id as int),
{
    let mut s: String = (if deleted {
        "已删除记忆 id="
    } else {
        "记忆不存在：id="
    }).to_string();
    let d: String = dec_int_string(id);
    s.append(d.as_str());
    s
}

/// What a rebuilding tells at its end.
pub fn migrate_line(r: &MigrateReport) -> (s: String)
    ensures
        s@ == "迁移完成：共 "@ + dec(r.total as nat) + " 条，成功 "@ + dec(r.migrated as nat) + " 条，跳过（失败）"@
            + dec(r.failed as nat) + " 条"@,
{
    let mut s: String = "迁移完成：共 ".to_string();
    let a: String = dec_string(r.total as u64);
    s.append(a.as_str());
    s.append(" 条，成功 ");
    let b: String = dec_string(r.migrated as u64);
    s.append(b.as_str());
    s.append(" 条，跳过（失败）");
    let c: String = dec_string(r.failed as u64);
    s.append(c.as_str());
    s.append(" 条");
    s
}

/// What a rebuilding tells on the way.
pub fn progress_line(done: usize, total: usize) -> (s: String)
    ensures
        s@ == "重建记忆索引 "@ + dec(done as nat) + "/"@ + dec(total as nat),
{
    let mut s: String = "重建记忆索引 ".to_string();
    let a: String = dec_string(done as u64);
    s.append(a.as_str());
    s.append("/");
    let b: String = dec_string(total as u64);
    s.append(b.as_str());
    s
}

/// What a search tells of a hit; `score` is the score in decimal.
pub fn hit_lines(score: &str, query: &str, answer: &str) -> (r: (String, String))
    ensures
        r.0@ == "score="@ + score@ + "  |  问："@ + query@,
        r.1@ == "           答："@ + head(answer@, 80),
{
    let mut a: String = "score=".to_string();
    a.append(score);
    a.append("  |  问：");
    a.append(query);
    let mut b: String = "           答：".to_string();
    let h: String = head_string(answer, 80);
    b.append(h.as_str());
    (a, b)
}

/// The lines on the backends in the store.
pub open spec fn backend_lines(v: Seq<(String, usize)>) -> Seq<Seq<char>> {
    Seq::new(v.len(), |i: int| "  "@ + v[i].0@ + ": "@ + dec(v[i].1 as nat) + " 条"@)
}

/// The lines on the store's numbers.
pub open spec fn stats_text(s: MemoryStats, mismatch: Option<Seq<char>>) -> Seq<Seq<char>> {
    let a = seq!["记忆总数："@ + dec(s.total as nat)];
    let b = if s.by_embed_id@.len() == 0 {
        Seq::empty()
    } else {
        seq!["嵌入后端分布："@] + backend_lines(s.by_embed_id@)
    };
    let c = seq![
        match (s.oldest, s.newest) {
            (Some(o), Some(n)) => "时间跨度：ts="@ + dec_int(o as int) + " ~ ts="@ + dec_int(n as int),
            _ => "时间跨度：（空库）"@,
        },
    ];
    let d = match mismatch {
        Some(m) => seq!["警告："@ + m],
        None => Seq::empty(),
    };
    a + b + c + d
}

/// What the store's numbers tell.
pub fn stats_lines(s: &MemoryStats, mismatch: Option<&str>) -> (r: Vec<String>)
    ensures
        strs(r@) == stats_text(
            *s,
            match mismatch {
                Some(m) => Some(m@),
                None => None,
            },
        ),
{
    let mut out: Vec<String> = Vec::new();
    let mut first: String = "记忆总数：".to_string();
    let d: String = dec_string(s.total as u64);
    first.append(d.as_str());
    out.push(first);
    let ghost a = strs(out@);
    assert(a =~= seq!["记忆总数："@ + dec(s.total as nat)]);
    let ghost mut b: Seq<Seq<char>> = Seq::empty();
    if s.by_embed_id.len() != 0 {
        out.push("嵌入后端分布：".to_string());
        let ghost all = backend_lines(s.by_embed_id@);
        let mut i: usize = 0;
        assert(strs(out@) =~= a + (seq!["嵌入后端分布："@] + all.take(0)));
        while i < s.by_embed_id.len()
            invariant
                i <= s.by_embed_id.len(),
                all == backend_lines(s.by_embed_id@),
                strs(out@) == a + (seq!["嵌入后端分布："@] + all.take(i as int)),
            decreases s.by_embed_id.len() - i,
        {
            let ghost before = strs(out@);
            let mut l: String = "  ".to_string();
            l.append(s.by_embed_id[i].0.as_str());
            l.append(": ");
            let n: String = dec_string(s.by_embed_id[i].1 as u64);
            l.append(n.as_str());
            l.append(" 条");
            assert(l@ == all[i as int]);
            out.push(l);
            i += 1;
            assert(strs(out@) =~= before.push(all[i - 1]));
            assert(strs(out@) =~= a + (seq!["嵌入后端分布："@] + all.take(i as int)));
        }
        proof {
            assert(all.take(i as int) =~= all);
            b = seq!["嵌入后端分布："@] + all;
        }
    }
    assert(strs(out@) =~= a + b);
    let span: String = match (s.oldest, s.newest) {
        (Some(o), Some(n)) => {
            let mut t: String = "时间跨度：ts=".to_string();
            let x: String = dec_int_string(o);
            t.append(x.as_str());
            t.append(" ~ ts=");
            let y: String = dec_int_string(n);
            t.append(y.as_str());
            t
        },
        _ => "时间跨度：（空库）".to_string(),
    };
    let ghost c = seq![span@];
    out.push(span);
    assert(strs(out@) =~= a + b + c);
    if let Some(m) = mismatch {
        let mut w: String = "警告：".to_string();
        w.append(m);
        let ghost e = seq![w@];
        out.push(w);
        assert(strs(out@) =~= a + b + c + e);
    } else {
        assert(strs(out@) =~= a + b + c + Seq::<Seq<char>>::empty());
    }
    out
}

} // verus!
