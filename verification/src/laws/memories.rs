//! The memories: how they are ranked, how they fade, and how they are shown.

use vstd::prelude::*;
use vstd::utf8::encode_utf8;

use crate::json::JsonView;
use crate::memory::{
    backend_lines, best_of, bucket, bucket_count, decay, embedding_array, entry_text, fnv, groups_in, insert_hit,
    is_number, list_text, made_of, mismatch_text, other_ids, ranked, row_vector, row_writes, stats_text,
    tells_progress, with_best, HitView, MemoryEntry, MemoryStats,
};
use crate::text::{contains_text, dec, dec_int, head, join};

use super::{group_holds, lemma_holds_through, lemma_join_holds};

verus! {

/// The groups of `n` characters counted so far are those that fall into the bucket.
proof fn lemma_counted(s: Seq<char>, n: int, k: int, b: int)
    requires
        n > 0,
        0 <= k,
        k == 0 || k - 1 + n <= s.len(),
    ensures
        groups_in(s, n, k, b) == Seq::new(k as nat, |i: int| i).filter(
            |i: int| fnv(encode_utf8(s.subrange(i, i + n))) as int % 256 == b,
        ).len(),
    decreases k,
{
    reveal(Seq::filter);
    let all = Seq::new(k as nat, |i: int| i);
    if k > 0 {
        lemma_counted(s, n, k - 1, b);
        assert(all.drop_last() =~= Seq::new((k - 1) as nat, |i: int| i));
        assert(all.last() == k - 1);
    }
}

/// A text is told by how many of its groups of one, two and three characters
/// fall into each bucket, every group counted where it stands.
pub proof fn law_every_group_of_characters_counts(s: Seq<char>, b: int)
    requires
        s.len() >= 3,
    ensures
        bucket_count(s, b) == Seq::new(s.len(), |i: int| i).filter(
            |i: int| fnv(encode_utf8(s.subrange(i, i + 1))) as int % 256 == b,
        ).len() + Seq::new((s.len() - 1) as nat, |i: int| i).filter(
            |i: int| fnv(encode_utf8(s.subrange(i, i + 2))) as int % 256 == b,
        ).len() + Seq::new((s.len() - 2) as nat, |i: int| i).filter(
            |i: int| fnv(encode_utf8(s.subrange(i, i + 3))) as int % 256 == b,
        ).len(),
{
    lemma_counted(s, 1, s.len() as int, b);
    lemma_counted(s, 2, s.len() - 1, b);
    lemma_counted(s, 3, s.len() - 2, b);
}

/// A text of fewer characters has the groups that fit into it.
pub proof fn law_short_texts_have_fewer_groups(s: Seq<char>, b: int)
    ensures
        s.len() == 0 ==> bucket_count(s, b) == 0,
        s.len() == 1 ==> bucket_count(s, b) == (if bucket(s) == b {
            1nat
        } else {
            0
        }),
        s.len() == 2 ==> bucket_count(s, b) == (if bucket(s.take(1)) == b {
            1nat
        } else {
            0
        }) + (if bucket(s.skip(1)) == b {
            1nat
        } else {
            0
        }) + (if bucket(s) == b {
            1nat
        } else {
            0
        }),
{
    reveal_with_fuel(groups_in, 3);
    if s.len() == 1 {
        assert(s.subrange(0, 1) =~= s);
        assert(groups_in(s, 1, 1, b) == if bucket(s) == b {
            1nat
        } else {
            0
        });
    }
    if s.len() == 2 {
        assert(s.subrange(0, 1) =~= s.take(1));
        assert(s.subrange(1, 2) =~= s.skip(1));
        assert(s.subrange(0, 2) =~= s);
    }
}

/// The hash of a text of bytes: each byte is mixed in, then all is multiplied.
pub proof fn law_bytes_are_hashed(bytes: Seq<u8>, x: u8)
    ensures
        fnv(Seq::empty()) == 0xcbf29ce484222325,
        fnv(bytes.push(x)) as int == (fnv(bytes) ^ (x as u64)) as int * 0x100000001b3 % 0x1_0000_0000_0000_0000,
{
    assert(bytes.push(x).drop_last() =~= bytes);
}

/// A memory counts whole for a month, less for three, and still less afterwards.
pub proof fn law_when_memories_fade(created_at: i64, now: i64)
    ensures
        now - created_at < 31 * 86_400 ==> decay(created_at, now) == 100,
        31 * 86_400 <= now - created_at < 91 * 86_400 ==> decay(created_at, now) == 90,
        91 * 86_400 <= now - created_at ==> decay(created_at, now) == 75,
{
}

proof fn lemma_hits_of_one_score(v: Seq<HitView>, x: HitView, score: i64)
    requires
        forall|i: int, j: int| 0 <= i < j < v.len() ==> (#[trigger] v[i]).score >= (#[trigger] v[j]).score,
    ensures
        insert_hit(v, x).filter(|h: HitView| h.score == score) == v.push(x).filter(|h: HitView| h.score == score),
        forall|i: int, j: int|
            0 <= i < j < insert_hit(v, x).len() ==> (#[trigger] insert_hit(v, x)[i]).score >= (#[trigger] insert_hit(
                v,
                x,
            )[j]).score,
        forall|i: int|
            0 <= i < insert_hit(v, x).len() ==> (#[trigger] insert_hit(v, x)[i]).score == x.score || exists|j: int|
                0 <= j < v.len() && (#[trigger] v[j]).score == insert_hit(v, x)[i].score,
    decreases v.len(),
{
    reveal(Seq::filter);
    let p = |h: HitView| h.score == score;
    assert(v.push(x).drop_last() =~= v);
    if v.len() == 0 || v.last().score >= x.score {
        assert forall|i: int| 0 <= i < v.push(x).len() implies (#[trigger] v.push(x)[i]).score == x.score || exists|
            j: int,
        | 0 <= j < v.len() && (#[trigger] v[j]).score == v.push(x)[i].score by {
            if i < v.len() {
                assert(v[i].score == v.push(x)[i].score);
            }
        }
    } else {
        let w = v.drop_last();
        let y = v.last();
        let r = insert_hit(w, x);
        lemma_hits_of_one_score(w, x, score);
        assert(r.push(y).drop_last() =~= r);
        assert(w.push(x).drop_last() =~= w);
        assert(w.push(y) =~= v);
        assert(r.filter(p) =~= w.push(x).filter(p));
        assert(v.filter(p) == if p(y) {
            w.filter(p).push(y)
        } else {
            w.filter(p)
        });
        assert(w.push(x).filter(p) == if p(x) {
            w.filter(p).push(x)
        } else {
            w.filter(p)
        });
        assert(v.push(x).filter(p) == if p(x) {
            v.filter(p).push(x)
        } else {
            v.filter(p)
        });
        assert(r.push(y).filter(p) == if p(y) {
            r.filter(p).push(y)
        } else {
            r.filter(p)
        });
        assert forall|i: int| 0 <= i < r.push(y).len() implies (#[trigger] r.push(y)[i]).score == x.score || exists|
            j: int,
        | 0 <= j < v.len() && (#[trigger] v[j]).score == r.push(y)[i].score by {
            if i < r.len() {
                assert(r[i].score == r.push(y)[i].score);
                if r[i].score != x.score {
                    let j = choose|j: int| 0 <= j < w.len() && (#[trigger] w[j]).score == r[i].score;
                    assert(v[j].score == r.push(y)[i].score);
                }
            } else {
                assert(v[v.len() - 1].score == r.push(y)[i].score);
            }
        }
        assert forall|i: int, j: int| 0 <= i < j < r.push(y).len() implies (#[trigger] r.push(y)[i]).score >= (
        #[trigger] r.push(y)[j]).score by {
            if j == r.len() {
                assert(r[i].score == x.score || exists|k: int|
                    0 <= k < w.len() && (#[trigger] w[k]).score == r[i].score);
                if r[i].score != x.score {
                    let k = choose|k: int| 0 <= k < w.len() && (#[trigger] w[k]).score == r[i].score;
                    assert(v[k].score >= v[v.len() - 1].score);
                }
            } else {
                assert(r[i].score >= r[j].score);
            }
        }
    }
}

/// Hits of the same score stay in the order in which they were found, and none
/// is lost.
pub proof fn law_equal_hits_keep_their_order(v: Seq<HitView>, score: i64)
    ensures
        ranked(v).filter(|h: HitView| h.score == score) == v.filter(|h: HitView| h.score == score),
        forall|i: int, j: int|
            0 <= i < j < ranked(v).len() ==> (#[trigger] ranked(v)[i]).score >= (#[trigger] ranked(v)[j]).score,
    decreases v.len(),
{
    reveal(Seq::filter);
    let p = |h: HitView| h.score == score;
    if v.len() > 0 {
        let w = v.drop_last();
        law_equal_hits_keep_their_order(w, score);
        lemma_hits_of_one_score(ranked(w), v.last(), score);
        assert(ranked(w).push(v.last()).drop_last() =~= ranked(w));
    }
}

/// A memory is kept with the hit that stood there first, unless a better one comes.
pub proof fn law_better_hit_takes_the_place(v: Seq<HitView>, x: HitView, i: int)
    requires
        0 <= i < v.len(),
        forall|j: int|
            0 <= j < i ==> (#[trigger] v[j]).session_id != x.session_id || v[j].query != x.query,
        v[i].session_id == x.session_id,
        v[i].query == x.query,
    ensures
        v[i].score >= x.score ==> with_best(v, x) == v,
        v[i].score < x.score ==> with_best(v, x) == v.update(i, x),
    decreases v.len(),
{
    if i == 0 {
        assert(seq![x] + v.drop_first() =~= v.update(0, x));
    } else {
        let t = v.drop_first();
        assert forall|j: int| 0 <= j < i - 1 implies (#[trigger] t[j]).session_id != x.session_id || t[j].query
            != x.query by {
            assert(v[j + 1] == t[j]);
        }
        assert(v[0].session_id != x.session_id || v[0].query != x.query);
        law_better_hit_takes_the_place(t, x, i - 1);
        assert(seq![v[0]] + t =~= v);
        assert(seq![v[0]] + t.update(i - 1, x) =~= v.update(i, x));
    }
}

/// A hit of a memory that did not come up before is added at the end.
pub proof fn law_new_hit_is_added(v: Seq<HitView>, x: HitView)
    requires
        forall|j: int|
            0 <= j < v.len() ==> (#[trigger] v[j]).session_id != x.session_id || v[j].query != x.query,
    ensures
        with_best(v, x) == v.push(x),
    decreases v.len(),
{
    if v.len() > 0 {
        let t = v.drop_first();
        assert forall|j: int| 0 <= j < t.len() implies (#[trigger] t[j]).session_id != x.session_id || t[j].query
            != x.query by {
            assert(v[j + 1] == t[j]);
        }
        assert(v[0].session_id != x.session_id || v[0].query != x.query);
        law_new_hit_is_added(t, x);
    }
    assert(with_best(v, x) =~= v.push(x));
}

/// The hits are taken up one by one, in the order in which they were found.
pub proof fn law_hits_are_taken_up_in_order(v: Seq<HitView>, x: HitView)
    ensures
        best_of(Seq::empty()) == Seq::<HitView>::empty(),
        best_of(v.push(x)) == with_best(best_of(v), x),
{
    assert(v.push(x).drop_last() =~= v);
}

/// The vector of a reply is the first one it holds, whole.
pub proof fn law_first_vector_is_taken(v: JsonView, d: Seq<JsonView>, e: Seq<JsonView>)
    ensures
        v.get("data"@) == Some(JsonView::Arr(d)) && d.len() > 0 && d[0].get("embedding"@) == Some(JsonView::Arr(e))
            ==> embedding_array(v) == Some(e),
        v.get("data"@) == Some(JsonView::Arr(Seq::empty())) ==> embedding_array(v) is None,
        v.get("data"@) is None ==> embedding_array(v) is None,
{
}

/// Which values are numbers.
pub proof fn law_what_is_a_number(v: JsonView)
    ensures
        v is Null || v is Bool || v is Str || v is Arr || v is Obj <==> !is_number(v),
{
}

/// The other backends are all those named, but for the one in use.
pub proof fn law_other_backends(ids: Seq<Seq<char>>, embed_id: Seq<char>)
    ensures
        other_ids(ids, embed_id) == ids.filter(|x: Seq<char>| x != embed_id),
    decreases ids.len(),
{
    reveal(Seq::filter);
    if ids.len() > 0 {
        law_other_backends(ids.drop_last(), embed_id);
    }
}

proof fn lemma_others_are_named(ids: Seq<Seq<char>>, embed_id: Seq<char>)
    ensures
        (forall|j: int| 0 <= j < ids.len() ==> #[trigger] ids[j] == embed_id) <==> other_ids(ids, embed_id).len()
            == 0,
    decreases ids.len(),
{
    if ids.len() > 0 {
        let p = ids.drop_last();
        lemma_others_are_named(p, embed_id);
        if other_ids(ids, embed_id).len() == 0 {
            assert forall|j: int| 0 <= j < ids.len() implies #[trigger] ids[j] == embed_id by {
                if j < p.len() {
                    assert(p[j] == ids[j]);
                }
            }
        } else if forall|j: int| 0 <= j < ids.len() ==> #[trigger] ids[j] == embed_id {
            assert forall|j: int| 0 <= j < p.len() implies #[trigger] p[j] == embed_id by {
                assert(p[j] == ids[j]);
            }
            assert(ids[ids.len() - 1] == embed_id);
        }
    }
}

/// Memories of another backend are reported, and only those: the report names
/// that backend and the one in use.
pub proof fn law_other_backends_are_reported(ids: Seq<Seq<char>>, embed_id: Seq<char>, i: int)
    requires
        0 <= i < ids.len(),
    ensures
        (forall|j: int| 0 <= j < ids.len() ==> #[trigger] ids[j] == embed_id) <==> mismatch_text(ids, embed_id)
            is None,
        ids[i] != embed_id ==> mismatch_text(ids, embed_id) is Some && contains_text(
            mismatch_text(ids, embed_id)->Some_0,
            ids[i],
        ) && contains_text(mismatch_text(ids, embed_id)->Some_0, embed_id),
{
    broadcast use group_holds;

    law_other_backends(ids, embed_id);
    lemma_others_are_named(ids, embed_id);
    let p = |x: Seq<char>| x != embed_id;
    let others = ids.filter(p);
    if ids[i] != embed_id {
        ids.lemma_filter_contains(p, i);
        let k = others.index_of(ids[i]);
        let t = mismatch_text(ids, embed_id)->Some_0;
        assert(contains_text(t, embed_id));
        assert(contains_text(t, join(others, ", "@)));
        lemma_join_holds(others, ", "@, k);
        lemma_holds_through(t, join(others, ", "@), ids[i]);
    }
}

/// The rows of a memory: the first has the vector of the question, the others
/// that of the answer.
pub proof fn law_which_vector_a_row_has(ids: Seq<i64>, j: int)
    requires
        0 <= j < ids.len(),
    ensures
        row_writes(ids, true).len() == ids.len(),
        row_writes(ids, true)[j].0 == ids[j],
        row_writes(ids, true)[j].1 is Question <==> j == 0,
        row_writes(ids, false).len() == 0,
        row_vector(j) is Answer <==> j > 0,
{
}

/// The memories that were rebuilt are those of which both texts had a vector.
pub proof fn law_rebuilt_memories_are_counted(oks: Seq<bool>, k: int)
    requires
        0 <= k <= oks.len(),
    ensures
        made_of(oks, k) == oks.take(k).filter(|b: bool| b).len(),
    decreases k,
{
    reveal(Seq::filter);
    if k > 0 {
        law_rebuilt_memories_are_counted(oks, k - 1);
        assert(oks.take(k).drop_last() =~= oks.take(k - 1));
        assert(oks.take(k).last() == oks[k - 1]);
    }
}

/// Progress is told at every fiftieth memory and at the last one.
pub proof fn law_when_progress_is_told(done: int, total: int)
    ensures
        tells_progress(50 * done, total),
        tells_progress(total, total),
        done != total && 0 < done % 50 ==> !tells_progress(done, total),
{
}

/// A memory is shown with its number, its time, its backend and its question,
/// and with a mark where another one replaced it.
pub proof fn law_memory_is_shown(e: MemoryEntry)
    ensures
        contains_text(entry_text(e), "id="@ + dec_int(e.id as int)),
        contains_text(entry_text(e), "ts="@ + dec_int(e.created_at as int)),
        contains_text(entry_text(e), e.embed_id@),
        contains_text(entry_text(e), head(e.query@, 50)),
        e.superseded ==> contains_text(entry_text(e), "[已被覆盖]"@),
        !e.superseded ==> entry_text(e) == "id="@ + dec_int(e.id as int) + "  |  ts="@ + dec_int(e.created_at as int)
            + "  |  "@ + e.embed_id@ + "  |  "@ + head(e.query@, 50),
{
    broadcast use group_holds;

    let t = entry_text(e);
    let ts = dec_int(e.created_at as int);
    let first = "id="@ + dec_int(e.id as int);
    assert(contains_text(t, first));
    assert("  |  ts="@ =~= "  |  "@ + "ts="@) by {
        reveal_strlit("  |  ts=");
        reveal_strlit("  |  ");
        reveal_strlit("ts=");
    }
    assert(contains_text(first + "  |  ts="@ + ts, "  |  ts="@ + ts));
    assert("  |  ts="@ + ts =~= "  |  "@ + ("ts="@ + ts));
    assert(contains_text("  |  "@ + ("ts="@ + ts), "ts="@ + ts));
    lemma_holds_through(first + "  |  ts="@ + ts, "  |  ts="@ + ts, "ts="@ + ts);
    assert(contains_text(t, e.embed_id@));
    assert(contains_text(t, head(e.query@, 50)));
    if e.superseded {
        assert("  [已被覆盖]"@ =~= "  "@ + "[已被覆盖]"@) by {
            reveal_strlit("  [已被覆盖]");
            reveal_strlit("  ");
            reveal_strlit("[已被覆盖]");
        }
    } else {
        assert(t =~= "id="@ + dec_int(e.id as int) + "  |  ts="@ + dec_int(e.created_at as int) + "  |  "@ + e.embed_id@
            + "  |  "@ + head(e.query@, 50));
    }
}

/// Every memory has a line of its own.
pub proof fn law_every_memory_is_listed(v: Seq<MemoryEntry>, i: int)
    requires
        0 <= i < v.len(),
    ensures
        list_text(v).len() == v.len(),
        contains_text(list_text(v)[i], "id="@ + dec_int(v[i].id as int)),
        contains_text(list_text(v)[i], v[i].embed_id@),
        contains_text(list_text(v)[i], head(v[i].query@, 50)),
{
    law_memory_is_shown(v[i]);
}

/// The numbers of the memories are shown: of all of them, of each backend, and
/// the times from the first to the last. A warning comes last.
pub proof fn law_numbers_are_shown(s: MemoryStats, mismatch: Option<Seq<char>>, i: int)
    ensures
        ({
            let t = stats_text(s, mismatch);
            let n = s.by_embed_id@.len() as int;
            let span = if n == 0 {
                1int
            } else {
                n + 2
            };
            &&& contains_text(t[0], dec(s.total as nat))
            &&& t.len() == span + 1 + (if mismatch is Some {
                1int
            } else {
                0
            })
            &&& 0 <= i < n ==> contains_text(t[i + 2], s.by_embed_id@[i].0@ + ": "@ + dec(s.by_embed_id@[i].1 as nat))
            &&& s.oldest is Some && s.newest is Some ==> contains_text(
                t[span],
                "ts="@ + dec_int(s.oldest->Some_0 as int) + " ~ ts="@ + dec_int(s.newest->Some_0 as int),
            )
            &&& mismatch is Some ==> contains_text(t.last(), mismatch->Some_0)
        }),
{
    broadcast use group_holds;

    let t = stats_text(s, mismatch);
    let n = s.by_embed_id@.len();
    if 0 <= i < n {
        let name = s.by_embed_id@[i].0@;
        let count = dec(s.by_embed_id@[i].1 as nat);
        assert(t[i + 2] == backend_lines(s.by_embed_id@)[i]);
        assert(contains_text("  "@ + name + ": "@ + count, name + ": "@ + count));
        assert(contains_text("  "@ + name + ": "@ + count + " 条"@, name + ": "@ + count));
    }
    if s.oldest is Some && s.newest is Some {
        let o = dec_int(s.oldest->Some_0 as int);
        let w = dec_int(s.newest->Some_0 as int);
        assert("时间跨度：ts="@ =~= "时间跨度："@ + "ts="@) by {
            reveal_strlit("时间跨度：ts=");
            reveal_strlit("时间跨度：");
            reveal_strlit("ts=");
        }
        assert("时间跨度：ts="@ + o + " ~ ts="@ + w =~= "时间跨度："@ + ("ts="@ + o + " ~ ts="@ + w));
        assert(contains_text("时间跨度："@ + ("ts="@ + o + " ~ ts="@ + w), "ts="@ + o + " ~ ts="@ + w));
    }
}

} // verus!
