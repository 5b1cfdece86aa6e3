//! Stable sorting by an order on what the items hold.

use crate::text::text_before;
use vstd::prelude::*;

verus! {

/// `x` put into the sorted `s`, behind everything that does not come after it.
pub open spec fn placed<V>(s: Seq<V>, x: V, before: spec_fn(V, V) -> bool) -> Seq<V>
    decreases s.len(),
{
    if s.len() == 0 || !before(x, s.last()) {
        s.push(x)
    } else {
        placed(s.drop_last(), x, before).push(s.last())
    }
}

/// The members of `s` in the order `before`; members that neither comes before the other
/// stay as they stood.
pub open spec fn sorted_stably<V>(s: Seq<V>, before: spec_fn(V, V) -> bool) -> Seq<V>
    decreases s.len(),
{
    if s.len() == 0 {
        s
    } else {
        placed(sorted_stably(s.drop_last(), before), s.last(), before)
    }
}

/// Whether `before` is an order by a key: strict, and such that what does not come
/// before can be chained.
pub open spec fn is_key_order<V>(before: spec_fn(V, V) -> bool) -> bool {
    &&& forall|a: V| !#[trigger] before(a, a)
    &&& forall|a: V, b: V, c: V|
        #![trigger before(a, b), before(b, c)]
        before(a, b) && before(b, c) ==> before(a, c)
    &&& forall|a: V, b: V, c: V|
        #![trigger before(a, b), before(b, c)]
        !before(a, b) && !before(b, c) ==> !before(a, c)
}

/// Whether no member of `s` comes before one that stands in front of it.
pub open spec fn is_sorted<V>(s: Seq<V>, before: spec_fn(V, V) -> bool) -> bool {
    forall|i: int, j: int| 0 <= i < j < s.len() ==> !before(#[trigger] s[j], #[trigger] s[i])
}

/// Things that have an order by what they hold.
pub trait Ranked: DeepView + Sized {
    spec fn order() -> spec_fn(Self::V, Self::V) -> bool;

    fn is_before(&self, other: &Self) -> (r: bool)
        ensures
            r == Self::order()(self.deep_view(), other.deep_view()),
    ;
}

proof fn lemma_placed_at<V>(s: Seq<V>, x: V, before: spec_fn(V, V) -> bool, p: int)
    requires
        0 <= p <= s.len(),
        forall|j: int| p <= j < s.len() ==> before(x, #[trigger] s[j]),
        p > 0 ==> !before(x, s[p - 1]),
    ensures
        placed(s, x, before) == s.insert(p, x),
    decreases s.len(),
{
    if s.len() == 0 || p == s.len() {
        assert(s.insert(p, x) == s.push(x));
    } else {
        assert(before(x, s[s.len() - 1]));
        lemma_placed_at(s.drop_last(), x, before, p);
        assert(s.drop_last().insert(p, x).push(s.last()) == s.insert(p, x));
    }
}

/// Sort `v` in place.
pub fn sort<T: Ranked>(v: &mut Vec<T>)
    ensures
        final(v).deep_view() == sorted_stably(old(v).deep_view(), T::order()),
        final(v)@.len() == old(v)@.len(),
{
    let ghost all = v.deep_view();
    let n = v.len();
    let mut i: usize = 0;
    assert(all.take(0) == Seq::<T::V>::empty());
    assert(all.take(0) + all.skip(0) == all);
    while i < n
        invariant
            i <= n,
            n == v@.len(),
            n == all.len(),
            v.deep_view() == sorted_stably(all.take(i as int), T::order()) + all.skip(i as int),
            sorted_stably(all.take(i as int), T::order()).len() == i,
        decreases n - i,
    {
        let ghost done = sorted_stably(all.take(i as int), T::order());
        let ghost now = v.deep_view();
        let ghost x = all[i as int];
        assert(now[i as int] == x);
        let mut p: usize = i;
        while p > 0 && v[i].is_before(&v[p - 1])
            invariant
                p <= i < n,
                n == v@.len(),
                now == v.deep_view(),
                now == done + all.skip(i as int),
                done.len() == i,
                n == all.len(),
                x == all[i as int],
                forall|j: int| p <= j < i ==> T::order()(x, #[trigger] done[j]),
            decreases p,
        {
            assert(now[i as int] == x);
            assert(now[p - 1] == done[p - 1]);
            p = p - 1;
        }
        proof {
            if p > 0 {
                assert(now[p - 1] == done[p - 1]);
                assert(now[i as int] == v@[i as int].deep_view());
                assert(now[p - 1] == v@[p - 1].deep_view());
            }
            lemma_placed_at(done, x, T::order(), p as int);
            assert(all.take(i + 1).drop_last() == all.take(i as int));
            assert(all.take(i + 1).last() == x);
            assert(done.insert(p as int, x).len() == i + 1);
            assert(done.insert(p as int, x) + all.skip(i + 1) == now.remove(i as int).insert(
                p as int,
                x,
            ));
        }
        if p < i {
            let ghost held = v@;
            let item = v.remove(i);
            v.insert(p, item);
            assert(v@ == held.remove(i as int).insert(p as int, held[i as int]));
            assert(v.deep_view() == now.remove(i as int).insert(p as int, x));
        } else {
            assert(now == now.remove(i as int).insert(p as int, x));
        }
        i = i + 1;
    }
    assert(all.take(n as int) == all);
    assert(all.skip(n as int) == Seq::<T::V>::empty());
    assert(v.deep_view() == sorted_stably(all, T::order()));
}

// ---- what sorting keeps ---------------------------------------------------------------

proof fn lemma_placed_permutes<V>(s: Seq<V>, x: V, before: spec_fn(V, V) -> bool)
    ensures
        placed(s, x, before).to_multiset() == s.push(x).to_multiset(),
        placed(s, x, before).len() == s.len() + 1,
    decreases s.len(),
{
    broadcast use vstd::seq_lib::group_to_multiset_ensures;

    if s.len() == 0 || !before(x, s.last()) {
    } else {
        let rest = s.drop_last();
        lemma_placed_permutes(rest, x, before);
        assert(s == rest.push(s.last()));
        assert(s.push(x).to_multiset() == rest.to_multiset().insert(s.last()).insert(x));
        assert(placed(s, x, before).to_multiset() == rest.to_multiset().insert(x).insert(
            s.last(),
        ));
        assert(rest.to_multiset().insert(s.last()).insert(x) =~= rest.to_multiset().insert(
            x,
        ).insert(s.last()));
    }
}

/// Sorting keeps every member, as often as it occurs, and adds none.
pub proof fn law_sorting_keeps_members<V>(s: Seq<V>, before: spec_fn(V, V) -> bool)
    ensures
        sorted_stably(s, before).to_multiset() == s.to_multiset(),
        sorted_stably(s, before).len() == s.len(),
    decreases s.len(),
{
    broadcast use vstd::seq_lib::group_to_multiset_ensures;

    if s.len() > 0 {
        let front = sorted_stably(s.drop_last(), before);
        law_sorting_keeps_members(s.drop_last(), before);
        lemma_placed_permutes(front, s.last(), before);
        assert(s == s.drop_last().push(s.last()));
        assert(front.push(s.last()).to_multiset() == front.to_multiset().insert(s.last()));
        assert(s.to_multiset() == s.drop_last().to_multiset().insert(s.last()));
    }
}

proof fn lemma_placed_sorted<V>(s: Seq<V>, x: V, before: spec_fn(V, V) -> bool)
    requires
        is_key_order(before),
        is_sorted(s, before),
    ensures
        is_sorted(placed(s, x, before), before),
        placed(s, x, before).len() == s.len() + 1,
        forall|i: int|
            0 <= i <= s.len() ==> (#[trigger] placed(s, x, before)[i] == x || exists|j: int|
                0 <= j < s.len() && #[trigger] s[j] == placed(s, x, before)[i]),
    decreases s.len(),
{
    let r = placed(s, x, before);
    if s.len() == 0 || !before(x, s.last()) {
        assert forall|i: int| 0 <= i < s.len() implies !before(x, #[trigger] s[i]) by {
            if i < s.len() - 1 {
                assert(!before(s[s.len() - 1], s[i]));
                assert(!before(x, s[s.len() - 1]));
            }
        }
        assert forall|i: int| 0 <= i <= s.len() implies (#[trigger] r[i] == x || exists|j: int|
            0 <= j < s.len() && #[trigger] s[j] == r[i]) by {
            if i < s.len() {
                assert(s[i] == r[i]);
            }
        }
    } else {
        let rest = s.drop_last();
        let last = s.last();
        assert(is_sorted(rest, before)) by {
            assert forall|i: int, j: int| 0 <= i < j < rest.len() implies !before(
                #[trigger] rest[j],
                #[trigger] rest[i],
            ) by {
                assert(rest[j] == s[j] && rest[i] == s[i]);
            }
        }
        lemma_placed_sorted(rest, x, before);
        let q = placed(rest, x, before);
        assert(r == q.push(last));
        assert forall|i: int| 0 <= i < q.len() implies !before(last, #[trigger] q[i]) by {
            if q[i] == x {
                assert(before(x, last));
                if before(last, x) {
                    assert(before(last, last));
                }
            } else {
                let j = choose|j: int| 0 <= j < rest.len() && #[trigger] rest[j] == q[i];
                assert(rest[j] == s[j]);
                assert(!before(s[s.len() - 1], s[j]));
            }
        }
        assert forall|i: int| 0 <= i <= s.len() implies (#[trigger] r[i] == x || exists|j: int|
            0 <= j < s.len() && #[trigger] s[j] == r[i]) by {
            if i < q.len() {
                assert(r[i] == q[i]);
                if q[i] != x {
                    let j = choose|j: int| 0 <= j < rest.len() && #[trigger] rest[j] == q[i];
                    assert(s[j] == r[i]);
                }
            } else {
                assert(s[s.len() - 1] == r[i]);
            }
        }
    }
}

/// Sorting by a key puts the members in order.
pub proof fn law_sorting_sorts<V>(s: Seq<V>, before: spec_fn(V, V) -> bool)
    requires
        is_key_order(before),
    ensures
        is_sorted(sorted_stably(s, before), before),
    decreases s.len(),
{
    if s.len() > 0 {
        law_sorting_sorts(s.drop_last(), before);
        lemma_placed_sorted(sorted_stably(s.drop_last(), before), s.last(), before);
    }
}

proof fn lemma_placed_keeps_order<V>(s: Seq<V>, x: V, before: spec_fn(V, V) -> bool, a: V)
    requires
        is_key_order(before),
    ensures
        ({
            let same = |y: V| !before(a, y) && !before(y, a);
            placed(s, x, before).filter(same) == s.push(x).filter(same)
        }),
    decreases s.len(),
{
    reveal(Seq::filter);
    let same = |y: V| !before(a, y) && !before(y, a);
    assert(s.push(x).drop_last() == s);
    if s.len() == 0 || !before(x, s.last()) {
    } else {
        let rest = s.drop_last();
        lemma_placed_keeps_order(rest, x, before, a);
        assert(rest.push(x).drop_last() == rest);
        let q = placed(rest, x, before);
        assert(q.push(s.last()).drop_last() == q);
        if same(x) && same(s.last()) {
            assert(!before(x, a) && !before(a, s.last()));
        }
        let last = s.last();
        assert(s.filter(same) == if same(last) {
            rest.filter(same).push(last)
        } else {
            rest.filter(same)
        });
        assert(rest.push(x).filter(same) == if same(x) {
            rest.filter(same).push(x)
        } else {
            rest.filter(same)
        });
        assert(q.push(last).filter(same) == if same(last) {
            q.filter(same).push(last)
        } else {
            q.filter(same)
        });
    }
}

/// Sorting by a key is stable: those of which none comes before another, or before `a`, or
/// behind it, stand in the order in which they stood.
pub proof fn law_sorting_is_stable<V>(s: Seq<V>, before: spec_fn(V, V) -> bool, a: V)
    requires
        is_key_order(before),
    ensures
        sorted_stably(s, before).filter(|y: V| !before(a, y) && !before(y, a)) == s.filter(
            |y: V| !before(a, y) && !before(y, a),
        ),
    decreases s.len(),
{
    reveal(Seq::filter);
    if s.len() > 0 {
        let front = s.drop_last();
        law_sorting_is_stable(front, before, a);
        let done = sorted_stably(front, before);
        lemma_placed_keeps_order(done, s.last(), before, a);
        assert(done.push(s.last()).drop_last() == done);
    }
}

/// Dictionary order is strict, and both it and its absence can be chained.
pub proof fn lemma_text_order(a: Seq<char>, b: Seq<char>, c: Seq<char>)
    ensures
        !text_before(a, a),
        text_before(a, b) && text_before(b, c) ==> text_before(a, c),
        !text_before(a, b) && !text_before(b, c) ==> !text_before(a, c),
    decreases a.len(),
{
    if a.len() > 0 {
        lemma_text_order(a.drop_first(), a.drop_first(), a.drop_first());
        if b.len() > 0 && c.len() > 0 {
            lemma_text_order(a.drop_first(), b.drop_first(), c.drop_first());
        }
    }
}

/// Two texts of which neither comes before the other are the same.
pub proof fn lemma_text_order_total(a: Seq<char>, b: Seq<char>)
    requires
        !text_before(a, b),
        !text_before(b, a),
    ensures
        a == b,
    decreases a.len(),
{
    if a.len() > 0 && b.len() > 0 {
        lemma_text_order_total(a.drop_first(), b.drop_first());
        assert(a == seq![a[0]] + a.drop_first());
        assert(b == seq![b[0]] + b.drop_first());
    } else {
        assert(a == b);
    }
}

} // verus!
