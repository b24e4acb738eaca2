//! What the library promises of its operations, stated of what goes in and
//! what comes out. This module holds what the statements are made of.

use vstd::prelude::*;

use crate::json::{member, JsonView};
use crate::text::{contains_text, join, occurs_at};

pub mod basics;
pub mod channels;
pub mod console;
pub mod conversations;
pub mod frames;
pub mod growth;
pub mod listings;
pub mod meetings;
pub mod memories;
pub mod requests;
pub mod runs;
pub mod sandbox;
pub mod servers;
pub mod settings;
pub mod tasks;
pub mod views;

verus! {

/// The parts stand in a text at these positions, each behind the one before it.
pub open spec fn placed(text: Seq<char>, parts: Seq<Seq<char>>, at: Seq<int>) -> bool {
    &&& at.len() == parts.len()
    &&& forall|i: int| 0 <= i < parts.len() ==> occurs_at(text, #[trigger] parts[i], at[i])
    &&& forall|i: int, j: int| 0 <= i < j < parts.len() ==> #[trigger] at[i] + parts[i].len() <= #[trigger] at[j]
}

/// The parts stand in a text, each behind the one before it.
pub open spec fn in_order(text: Seq<char>, parts: Seq<Seq<char>>) -> bool {
    exists|at: Seq<int>| placed(text, parts, at)
}

/// A text holds itself.
pub broadcast proof fn lemma_holds_itself(s: Seq<char>)
    ensures
        #[trigger] contains_text(s, s),
{
    assert(s.subrange(0, s.len() as int) =~= s);
    assert(occurs_at(s, s, 0));
}

/// What the first part of a text holds, the text holds.
pub broadcast proof fn lemma_left_holds(a: Seq<char>, b: Seq<char>, p: Seq<char>)
    ensures
        contains_text(a, p) ==> #[trigger] contains_text(a + b, p),
{
    if contains_text(a, p) {
        let i = choose|i: int| occurs_at(a, p, i);
        assert((a + b).subrange(i, i + p.len()) =~= a.subrange(i, i + p.len()));
        assert(occurs_at(a + b, p, i));
    }
}

/// What the second part of a text holds, the text holds.
pub broadcast proof fn lemma_right_holds(a: Seq<char>, b: Seq<char>, p: Seq<char>)
    ensures
        contains_text(b, p) ==> #[trigger] contains_text(a + b, p),
{
    if contains_text(b, p) {
        let i = choose|i: int| occurs_at(b, p, i);
        assert((a + b).subrange(a.len() + i, a.len() + i + p.len()) =~= b.subrange(i, i + p.len()));
        assert(occurs_at(a + b, p, a.len() + i));
    }
}

/// A text holds two parts of it that stand side by side.
pub broadcast proof fn lemma_two_hold(a: Seq<char>, b: Seq<char>, c: Seq<char>)
    ensures
        #[trigger] contains_text(a + b + c, b + c),
{
    assert(a + b + c =~= a + (b + c));
    lemma_holds_itself(b + c);
    lemma_right_holds(a, b + c, b + c);
}

/// A text holds three parts of it that stand side by side.
pub broadcast proof fn lemma_three_hold(a: Seq<char>, b: Seq<char>, c: Seq<char>, d: Seq<char>)
    ensures
        #[trigger] contains_text(a + b + c + d, b + c + d),
{
    assert(a + b + c + d =~= a + (b + c + d));
    lemma_holds_itself(b + c + d);
    lemma_right_holds(a, b + c + d, b + c + d);
}

/// A text holds four parts of it that stand side by side.
pub broadcast proof fn lemma_four_hold(a: Seq<char>, b: Seq<char>, c: Seq<char>, d: Seq<char>, e: Seq<char>)
    ensures
        #[trigger] contains_text(a + b + c + d + e, b + c + d + e),
{
    assert(a + b + c + d + e =~= a + (b + c + d + e));
    lemma_holds_itself(b + c + d + e);
    lemma_right_holds(a, b + c + d + e, b + c + d + e);
}

pub broadcast group group_holds {
    lemma_holds_itself,
    lemma_left_holds,
    lemma_right_holds,
    lemma_two_hold,
    lemma_three_hold,
    lemma_four_hold,
}

/// What a text holds, a text that holds it holds too.
pub proof fn lemma_holds_through(s: Seq<char>, t: Seq<char>, p: Seq<char>)
    requires
        contains_text(s, t),
        contains_text(t, p),
    ensures
        contains_text(s, p),
{
    let i = choose|i: int| occurs_at(s, t, i);
    let j = choose|j: int| occurs_at(t, p, j);
    assert(s.subrange(i + j, i + j + p.len()) =~= s.subrange(i, i + t.len()).subrange(j, j + p.len()));
    assert(occurs_at(s, p, i + j));
}

/// Joined texts hold each of them.
pub proof fn lemma_join_holds(parts: Seq<Seq<char>>, sep: Seq<char>, i: int)
    requires
        0 <= i < parts.len(),
    ensures
        contains_text(join(parts, sep), parts[i]),
    decreases parts.len(),
{
    broadcast use group_holds;

    if parts.len() > 1 && i < parts.len() - 1 {
        lemma_join_holds(parts.drop_last(), sep, i);
        assert(parts.drop_last()[i] == parts[i]);
    }
}

/// No parts stand in order in every text.
pub proof fn lemma_order_none(t: Seq<char>)
    ensures
        in_order(t, Seq::<Seq<char>>::empty()),
{
    assert(placed(t, Seq::<Seq<char>>::empty(), Seq::<int>::empty()));
}

/// Joined texts stand in their order.
pub proof fn lemma_join_in_order(parts: Seq<Seq<char>>, sep: Seq<char>)
    ensures
        in_order(join(parts, sep), parts),
    decreases parts.len(),
{
    if parts.len() == 0 {
        lemma_order_none(join(parts, sep));
        assert(parts =~= Seq::<Seq<char>>::empty());
    } else if parts.len() == 1 {
        let t = join(parts, sep);
        assert(t.subrange(0, t.len() as int) =~= t);
        assert(placed(t, parts, seq![0int]));
    } else {
        let a = join(parts.drop_last(), sep);
        lemma_join_in_order(parts.drop_last(), sep);
        lemma_holds_itself(parts.last());
        lemma_right_holds(sep, parts.last(), parts.last());
        lemma_order_push(a, parts.drop_last(), sep + parts.last(), parts.last());
        assert(a + sep + parts.last() =~= a + (sep + parts.last()));
        assert(parts.drop_last().push(parts.last()) =~= parts);
    }
}

/// A text with more behind it that holds one more part.
pub proof fn lemma_order_push(t: Seq<char>, parts: Seq<Seq<char>>, u: Seq<char>, p: Seq<char>)
    requires
        in_order(t, parts),
        contains_text(u, p),
    ensures
        in_order(t + u, parts.push(p)),
{
    let at = choose|at: Seq<int>| placed(t, parts, at);
    let k = choose|k: int| occurs_at(u, p, k);
    let w = t + u;
    let q = parts.push(p);
    let b = at.push(t.len() + k);
    assert forall|i: int| 0 <= i < q.len() implies occurs_at(w, #[trigger] q[i], b[i]) by {
        if i < parts.len() {
            assert(occurs_at(t, parts[i], at[i]));
            assert(w.subrange(at[i], at[i] + parts[i].len()) =~= t.subrange(at[i], at[i] + parts[i].len()));
        } else {
            assert(w.subrange(t.len() + k, t.len() + k + p.len()) =~= u.subrange(k, k + p.len()));
        }
    }
    assert forall|i: int, j: int| 0 <= i < j < q.len() implies #[trigger] b[i] + q[i].len() <= #[trigger] b[j] by {
        assert(occurs_at(t, parts[i], at[i]));
        if j < parts.len() {
            assert(at[i] + parts[i].len() <= at[j]);
        }
    }
    assert(placed(w, q, b));
}

/// Parts of one text and then parts of the next.
pub proof fn lemma_order_both(t: Seq<char>, parts: Seq<Seq<char>>, u: Seq<char>, more: Seq<Seq<char>>)
    requires
        in_order(t, parts),
        in_order(u, more),
    ensures
        in_order(t + u, parts + more),
{
    let at = choose|at: Seq<int>| placed(t, parts, at);
    let bt = choose|at: Seq<int>| placed(u, more, at);
    let w = t + u;
    let q = parts + more;
    let n = parts.len() as int;
    let b = at + Seq::new(bt.len(), |i: int| t.len() + bt[i]);
    assert forall|i: int| 0 <= i < q.len() implies occurs_at(w, #[trigger] q[i], b[i]) by {
        if i < n {
            assert(occurs_at(t, parts[i], at[i]));
            assert(w.subrange(at[i], at[i] + parts[i].len()) =~= t.subrange(at[i], at[i] + parts[i].len()));
        } else {
            let k = bt[i - n];
            assert(occurs_at(u, more[i - n], k));
            assert(w.subrange(t.len() + k, t.len() + k + q[i].len()) =~= u.subrange(k, k + q[i].len()));
        }
    }
    assert forall|i: int, j: int| 0 <= i < j < q.len() implies #[trigger] b[i] + q[i].len() <= #[trigger] b[j] by {
        if j < n {
            assert(at[i] + parts[i].len() <= at[j]);
        } else if i >= n {
            assert(bt[i - n] + more[i - n].len() <= bt[j - n]);
        } else {
            assert(occurs_at(t, parts[i], at[i]));
            assert(occurs_at(u, more[j - n], bt[j - n]));
        }
    }
    assert(placed(w, q, b));
}

/// A text with more behind it.
pub proof fn lemma_order_right(t: Seq<char>, u: Seq<char>, parts: Seq<Seq<char>>)
    requires
        in_order(t, parts),
    ensures
        in_order(t + u, parts),
{
    lemma_order_none(u);
    lemma_order_both(t, parts, u, Seq::empty());
    assert(parts + Seq::<Seq<char>>::empty() =~= parts);
}

/// A text with more in front of it.
pub proof fn lemma_order_left(u: Seq<char>, t: Seq<char>, parts: Seq<Seq<char>>)
    requires
        in_order(t, parts),
    ensures
        in_order(u + t, parts),
{
    lemma_order_none(u);
    lemma_order_both(u, Seq::empty(), t, parts);
    assert(Seq::<Seq<char>>::empty() + parts =~= parts);
}

/// One part that a text holds.
pub proof fn lemma_order_one(t: Seq<char>, p: Seq<char>)
    requires
        contains_text(t, p),
    ensures
        in_order(t, seq![p]),
{
    lemma_order_none(Seq::<char>::empty());
    lemma_order_push(Seq::<char>::empty(), Seq::<Seq<char>>::empty(), t, p);
    assert(Seq::<char>::empty() + t =~= t);
    assert(Seq::<Seq<char>>::empty().push(p) =~= seq![p]);
}

/// Parts that stand in order are held.
pub proof fn lemma_order_holds(t: Seq<char>, parts: Seq<Seq<char>>, i: int)
    requires
        in_order(t, parts),
        0 <= i < parts.len(),
    ensures
        contains_text(t, parts[i]),
{
    let at = choose|at: Seq<int>| placed(t, parts, at);
    assert(occurs_at(t, parts[i], at[i]));
}

/// A member that is added to an object is found under its name, unless one of
/// that name was there.
pub broadcast proof fn lemma_with_get(v: JsonView, key: Seq<char>, x: JsonView, q: Seq<char>)
    requires
        v is Obj,
    ensures
        #[trigger] v.with(key, x).get(q) == (match v.get(q) {
            Some(y) => Some(y),
            None => if key == q {
                Some(x)
            } else {
                None
            },
        }),
    decreases v->Obj_0.len(),
{
    let m = v->Obj_0;
    let w = m.push((key, x));
    if m.len() == 0 {
        assert(w.drop_first() =~= Seq::<(Seq<char>, JsonView)>::empty());
        assert(member(w.drop_first(), q) is None);
    } else if m[0].0 != q {
        lemma_with_get(JsonView::Obj(m.drop_first()), key, x, q);
        assert(w.drop_first() =~= m.drop_first().push((key, x)));
    }
}

/// An object with a member more is an object.
pub broadcast proof fn lemma_with_obj(v: JsonView, key: Seq<char>, x: JsonView)
    requires
        v is Obj,
    ensures
        #[trigger] v.with(key, x) is Obj,
{
}

/// An object without members has none.
pub broadcast proof fn lemma_obj_get(q: Seq<char>)
    ensures
        #[trigger] JsonView::obj().get(q) is None,
{
}

pub broadcast group group_members {
    lemma_with_get,
    lemma_with_obj,
    lemma_obj_get,
}

} // verus!
