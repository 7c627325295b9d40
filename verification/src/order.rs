//! Putting things in order: stable sorting by a key, runs of equal neighbours,
//! and the order of texts.
use vstd::prelude::*;

use crate::text::chars_of;

verus! {

/// Whether `leq` compares any two values, and consistently so.
pub open spec fn total_preorder<T>(leq: spec_fn(T, T) -> bool) -> bool {
    &&& forall|x: T, y: T| #[trigger] leq(x, y) || leq(y, x)
    &&& forall|x: T, y: T, z: T| #[trigger] leq(x, y) && #[trigger] leq(y, z) ==> leq(x, z)
}

/// The values that `leq` puts in the same place as `k`.
pub open spec fn tied<T>(leq: spec_fn(T, T) -> bool, k: T) -> spec_fn(T) -> bool {
    |x: T| leq(x, k) && leq(k, x)
}

/// Whether `s` stands in ascending order.
pub open spec fn in_order<T>(s: Seq<T>, leq: spec_fn(T, T) -> bool) -> bool {
    forall|i: int, j: int| 0 <= i < j < s.len() ==> leq(#[trigger] s[i], #[trigger] s[j])
}

/// Whether `t` is `s` in ascending order, with tied values left in the order that
/// they had in `s`.
pub open spec fn is_stable_sort<T>(s: Seq<T>, t: Seq<T>, leq: spec_fn(T, T) -> bool) -> bool {
    &&& in_order(t, leq)
    &&& forall|k: T| #[trigger] t.filter(tied(leq, k)) == s.filter(tied(leq, k))
}

/// `s` in ascending order, with tied values left in the order that they had.
pub open spec fn stable_sorted<T>(s: Seq<T>, leq: spec_fn(T, T) -> bool) -> Seq<T> {
    choose|t: Seq<T>| is_stable_sort(s, t, leq)
}

/// Where every element fails a test, nothing is left of the sequence.
proof fn lemma_filter_none<T>(s: Seq<T>, p: spec_fn(T) -> bool)
    requires
        forall|i: int| 0 <= i < s.len() ==> !p(#[trigger] s[i]),
    ensures
        s.filter(p) == Seq::<T>::empty(),
    decreases s.len(),
{
    reveal(Seq::filter);
    if s.len() > 0 {
        let t = s.drop_last();
        assert forall|i: int| 0 <= i < t.len() implies !p(#[trigger] t[i]) by {
            assert(t[i] == s[i]);
        }
        lemma_filter_none(t, p);
        assert(!p(s[s.len() - 1]));
    } else {
        assert(s =~= Seq::<T>::empty());
    }
}

/// What filtering makes of a sequence with one more element.
pub proof fn lemma_filter_push<T>(s: Seq<T>, x: T, p: spec_fn(T) -> bool)
    ensures
        s.push(x).filter(p) == (if p(x) {
            s.filter(p).push(x)
        } else {
            s.filter(p)
        }),
{
    reveal(Seq::filter);
    assert(s.push(x).drop_last() =~= s);
    assert(s.push(x).last() == x);
}

/// Putting one more value behind everything that it does not precede keeps a
/// stable sort.
pub proof fn lemma_insert_keeps_stable_sort<T>(
    s: Seq<T>,
    t: Seq<T>,
    x: T,
    p: int,
    leq: spec_fn(T, T) -> bool,
)
    requires
        total_preorder(leq),
        is_stable_sort(s, t, leq),
        0 <= p <= t.len(),
        forall|i: int| 0 <= i < p ==> leq(#[trigger] t[i], x),
        forall|i: int| p <= i < t.len() ==> !leq(#[trigger] t[i], x),
    ensures
        is_stable_sort(s.push(x), t.insert(p, x), leq),
{
    let u = t.insert(p, x);
    assert forall|i: int, j: int| 0 <= i < j < u.len() implies leq(
        #[trigger] u[i],
        #[trigger] u[j],
    ) by {
        if i < p {
            assert(u[i] == t[i]);
        } else if i > p {
            assert(u[i] == t[i - 1]);
        }
        if j < p {
            assert(u[j] == t[j]);
        } else if j > p {
            assert(u[j] == t[j - 1]);
            assert(!leq(t[j - 1], x));
            assert(leq(x, t[j - 1]) || leq(t[j - 1], x));
        }
    }
    assert forall|k: T| #[trigger] u.filter(tied(leq, k)) == s.push(x).filter(tied(leq, k)) by {
        let q = tied(leq, k);
        let left = t.take(p);
        let right = t.skip(p);
        assert(u =~= left.push(x) + right);
        assert(t =~= left + right);
        Seq::filter_distributes_over_add(left.push(x), right, q);
        Seq::filter_distributes_over_add(left, right, q);
        lemma_filter_push(left, x, q);
        lemma_filter_push(s, x, q);
        assert(t.filter(q) == s.filter(q));
        if q(x) {
            assert forall|i: int| 0 <= i < right.len() implies !q(#[trigger] right[i]) by {
                assert(right[i] == t[p + i]);
                assert(!leq(t[p + i], x));
                if q(right[i]) {
                    assert(leq(right[i], k) && leq(k, x));
                }
            }
            lemma_filter_none(right, q);
            assert(left.filter(q).push(x) + Seq::<T>::empty() =~= left.filter(q).push(x));
            assert(left.filter(q) + Seq::<T>::empty() =~= left.filter(q));
        }
    }
}

/// A value stands in a sequence exactly where filtering by its tie leaves something.
proof fn lemma_tie_occurs<T>(s: Seq<T>, t: Seq<T>, i: int, leq: spec_fn(T, T) -> bool) -> (j: int)
    requires
        total_preorder(leq),
        0 <= i < s.len(),
        s.filter(tied(leq, s[i])) == t.filter(tied(leq, s[i])),
    ensures
        0 <= j < t.len(),
        leq(t[j], s[i]),
        leq(s[i], t[j]),
{
    let q = tied(leq, s[i]);
    assert(leq(s[i], s[i]) || leq(s[i], s[i]));
    assert(q(s[i]));
    s.lemma_filter_contains(q, i);
    if forall|j: int| 0 <= j < t.len() ==> !q(#[trigger] t[j]) {
        lemma_filter_none(t, q);
        assert(s.filter(q).contains(s[i]));
    }
    choose|j: int| 0 <= j < t.len() && q(#[trigger] t[j])
}

/// There is only one stable sort of a sequence.
pub proof fn lemma_stable_sort_unique<T>(
    s: Seq<T>,
    t: Seq<T>,
    u: Seq<T>,
    leq: spec_fn(T, T) -> bool,
)
    requires
        total_preorder(leq),
        is_stable_sort(s, t, leq),
        is_stable_sort(s, u, leq),
    ensures
        t == u,
{
    assert forall|k: T| #[trigger] t.filter(tied(leq, k)) == u.filter(tied(leq, k)) by {
        assert(t.filter(tied(leq, k)) == s.filter(tied(leq, k)));
        assert(u.filter(tied(leq, k)) == s.filter(tied(leq, k)));
    }
    lemma_ordered_same_ties(t, u, leq);
}

/// Two ordered sequences that agree on every tie are equal.
proof fn lemma_ordered_same_ties<T>(t: Seq<T>, u: Seq<T>, leq: spec_fn(T, T) -> bool)
    requires
        total_preorder(leq),
        in_order(t, leq),
        in_order(u, leq),
        forall|k: T| #[trigger] t.filter(tied(leq, k)) == u.filter(tied(leq, k)),
    ensures
        t == u,
    decreases t.len(),
{
    if t.len() == 0 {
        if u.len() > 0 {
            assert(t.filter(tied(leq, u[0])) == u.filter(tied(leq, u[0])));
            let j = lemma_tie_occurs(u, t, 0, leq);
        }
        assert(t =~= u);
    } else {
        let a = t.last();
        assert(t.filter(tied(leq, a)) == u.filter(tied(leq, a)));
        let j = lemma_tie_occurs(t, u, t.len() - 1, leq);
        let b = u.last();
        assert(t.filter(tied(leq, b)) == u.filter(tied(leq, b)));
        let i = lemma_tie_occurs(u, t, u.len() - 1, leq);
        // Each last element comes behind what is tied to the other.
        assert(leq(t[i], a)) by {
            if i == t.len() - 1 {
                assert(leq(a, a) || leq(a, a));
            }
        }
        assert(leq(u[j], b)) by {
            if j == u.len() - 1 {
                assert(leq(b, b) || leq(b, b));
            }
        }
        assert(leq(b, t[i]) && leq(t[i], a));
        assert(leq(b, a));
        assert(leq(a, u[j]) && leq(u[j], b));
        assert(leq(a, b));
        let t0 = t.drop_last();
        let u0 = u.drop_last();
        assert(t =~= t0.push(a));
        assert(u =~= u0.push(b));
        let q = tied(leq, a);
        assert(leq(a, a) || leq(a, a));
        lemma_filter_push(t0, a, q);
        lemma_filter_push(u0, b, q);
        assert(t.filter(q).last() == a);
        assert(u.filter(q).last() == b);
        assert(a == b);
        assert forall|k: T| #[trigger] t0.filter(tied(leq, k)) == u0.filter(tied(leq, k)) by {
            let r = tied(leq, k);
            lemma_filter_push(t0, a, r);
            lemma_filter_push(u0, b, r);
            assert(t.filter(r) == u.filter(r));
            if r(a) {
                assert(t0.filter(r) =~= t.filter(r).drop_last());
                assert(u0.filter(r) =~= u.filter(r).drop_last());
            }
        }
        lemma_ordered_same_ties(t0, u0, leq);
    }
}

/// Every sequence has a stable sort.
pub proof fn lemma_stable_sort_exists<T>(s: Seq<T>, leq: spec_fn(T, T) -> bool)
    requires
        total_preorder(leq),
    ensures
        is_stable_sort(s, stable_sorted(s, leq), leq),
    decreases s.len(),
{
    if s.len() == 0 {
        assert(is_stable_sort(s, s, leq));
    } else {
        let s0 = s.drop_last();
        let x = s.last();
        lemma_stable_sort_exists(s0, leq);
        let t = stable_sorted(s0, leq);
        let p = lemma_place_exists(t, x, t.len() as int, leq);
        lemma_insert_keeps_stable_sort(s0, t, x, p, leq);
        assert(s =~= s0.push(x));
    }
}

proof fn lemma_place_exists<T>(t: Seq<T>, x: T, n: int, leq: spec_fn(T, T) -> bool) -> (p: int)
    requires
        total_preorder(leq),
        in_order(t, leq),
        0 <= n <= t.len(),
        forall|i: int| n <= i < t.len() ==> !leq(#[trigger] t[i], x),
    ensures
        0 <= p <= t.len(),
        forall|i: int| 0 <= i < p ==> leq(#[trigger] t[i], x),
        forall|i: int| p <= i < t.len() ==> !leq(#[trigger] t[i], x),
    decreases n,
{
    if n == 0 {
        0
    } else if leq(t[n - 1], x) {
        assert forall|i: int| 0 <= i < n implies leq(#[trigger] t[i], x) by {
            if i < n - 1 {
                assert(leq(t[i], t[n - 1]));
            }
        }
        n
    } else {
        lemma_place_exists(t, x, n - 1, leq)
    }
}

/// A stable sort holds the same values, each as often.
pub proof fn lemma_stable_sort_permutes<T>(s: Seq<T>, t: Seq<T>, leq: spec_fn(T, T) -> bool)
    requires
        total_preorder(leq),
        is_stable_sort(s, t, leq),
    ensures
        s.to_multiset() == t.to_multiset(),
        s.len() == t.len(),
{
    broadcast use vstd::seq_lib::group_to_multiset_ensures;

    assert forall|v: T| s.to_multiset().count(v) == t.to_multiset().count(v) by {
        let q = tied(leq, v);
        assert(leq(v, v) || leq(v, v));
        lemma_filter_count(s, v, q);
        lemma_filter_count(t, v, q);
        assert(t.filter(q) == s.filter(q));
    }
    assert(s.to_multiset() =~= t.to_multiset());
    assert(s.len() == s.to_multiset().len());
    assert(t.len() == t.to_multiset().len());
}

proof fn lemma_filter_count<T>(s: Seq<T>, v: T, q: spec_fn(T) -> bool)
    requires
        q(v),
    ensures
        s.to_multiset().count(v) == s.filter(q).to_multiset().count(v),
    decreases s.len(),
{
    broadcast use vstd::seq_lib::group_to_multiset_ensures;

    if s.len() == 0 {
        reveal(Seq::filter);
        assert(s.filter(q) =~= s);
    } else {
        let s0 = s.drop_last();
        let x = s.last();
        assert(s =~= s0.push(x));
        lemma_filter_count(s0, v, q);
        lemma_filter_push(s0, x, q);
    }
}

// ---------------------------------------------------------------------------
// Runs of equal neighbours.
// ---------------------------------------------------------------------------
/// `s` with each run of equal neighbours reduced to one.
pub open spec fn without_repeats<T>(s: Seq<T>) -> Seq<T>
    decreases s.len(),
{
    if s.len() <= 1 {
        s
    } else if s[s.len() - 1] == s[s.len() - 2] {
        without_repeats(s.drop_last())
    } else {
        without_repeats(s.drop_last()).push(s.last())
    }
}

/// Dropping repeats keeps the last element, adds nothing and loses no value.
pub proof fn lemma_without_repeats<T>(s: Seq<T>)
    ensures
        s.len() > 0 ==> without_repeats(s).len() > 0 && without_repeats(s).last() == s.last(),
        without_repeats(s).len() <= s.len(),
        forall|x: T| #[trigger] without_repeats(s).contains(x) <==> s.contains(x),
        forall|i: int|
            0 <= i < without_repeats(s).len() - 1 ==> #[trigger] without_repeats(s)[i]
                != without_repeats(s)[i + 1],
    decreases s.len(),
{
    if s.len() > 1 {
        let s0 = s.drop_last();
        lemma_without_repeats(s0);
        let t0 = without_repeats(s0);
        let t = without_repeats(s);
        assert(s0.last() == s[s.len() - 2]);
        assert forall|x: T| #[trigger] t.contains(x) <==> s.contains(x) by {
            if t.contains(x) {
                let i = t.index_of(x);
                if i < t0.len() {
                    assert(t[i] == t0[i]);
                    assert(t0.contains(x));
                    let j = s0.index_of(x);
                    assert(s[j] == x);
                } else {
                    assert(s[s.len() - 1] == x);
                }
            }
            if s.contains(x) {
                let i = s.index_of(x);
                if i < s0.len() {
                    assert(s0[i] == x);
                    assert(s0.contains(x));
                    assert(t0.contains(x));
                    let j = t0.index_of(x);
                    assert(t[j] == x);
                } else {
                    assert(t[t.len() - 1] == x);
                }
            }
        }
        assert forall|i: int| 0 <= i < t.len() - 1 implies #[trigger] t[i] != t[i + 1] by {
            if i + 1 < t0.len() {
                assert(t[i] == t0[i]);
            } else {
                assert(t[i] == t0.last());
            }
        }
    } else {
        assert(without_repeats(s) == s);
    }
}

/// An ordered sequence stays in order when its repeats are dropped.
pub proof fn lemma_without_repeats_in_order<T>(s: Seq<T>, leq: spec_fn(T, T) -> bool)
    requires
        in_order(s, leq),
    ensures
        in_order(without_repeats(s), leq),
    decreases s.len(),
{
    if s.len() > 1 {
        let s0 = s.drop_last();
        lemma_without_repeats_in_order(s0, leq);
        lemma_without_repeats(s0);
        let t0 = without_repeats(s0);
        let t = without_repeats(s);
        if s[s.len() - 1] != s[s.len() - 2] {
            assert forall|i: int, j: int| 0 <= i < j < t.len() implies leq(
                #[trigger] t[i],
                #[trigger] t[j],
            ) by {
                assert(t[i] == t0[i]);
                if j < t0.len() {
                    assert(t[j] == t0[j]);
                } else {
                    assert(t0.contains(t0[i]));
                    let k = s0.index_of(t0[i]);
                    assert(s[k] == t0[i]);
                    assert(s[s.len() - 1] == t[j]);
                }
            }
        }
    }
}

/// Whether each element of `s` comes strictly before those behind it.
pub open spec fn strictly_in_order<T>(s: Seq<T>, leq: spec_fn(T, T) -> bool) -> bool {
    forall|i: int, j: int|
        0 <= i < j < s.len() ==> leq(#[trigger] s[i], #[trigger] s[j]) && !leq(s[j], s[i])
}

/// There is only one way to put given values strictly in order.
pub proof fn lemma_strictly_in_order_unique<T>(
    a: Seq<T>,
    b: Seq<T>,
    leq: spec_fn(T, T) -> bool,
)
    requires
        total_preorder(leq),
        strictly_in_order(a, leq),
        strictly_in_order(b, leq),
        forall|x: T| #[trigger] a.contains(x) <==> b.contains(x),
    ensures
        a == b,
    decreases a.len(),
{
    if a.len() == 0 {
        if b.len() > 0 {
            assert(b.contains(b[0]));
            assert(a.contains(b[0]));
        }
        assert(a =~= b);
    } else {
        assert(a.contains(a.last()));
        assert(b.contains(a.last()));
        let j = b.index_of(a.last());
        assert(b.contains(b.last()));
        assert(a.contains(b.last()));
        let i = a.index_of(b.last());
        if j < b.len() - 1 {
            assert(leq(b[j], b[b.len() - 1]) && !leq(b[b.len() - 1], b[j]));
            if i < a.len() - 1 {
                assert(leq(a[i], a[a.len() - 1]));
            }
            assert(leq(a[i], a[i]) || leq(a[i], a[i]));
            assert(false);
        }
        let a0 = a.drop_last();
        let b0 = b.drop_last();
        assert forall|x: T| #[trigger] a0.contains(x) <==> b0.contains(x) by {
            if a0.contains(x) {
                let k = choose|k: int| 0 <= k < a0.len() && a0[k] == x;
                assert(a[k] == x);
                assert(a.contains(x));
                assert(b.contains(x));
                let l = b.index_of(x);
                if l == b.len() - 1 {
                    assert(leq(a[k], a[a.len() - 1]) && !leq(a[a.len() - 1], a[k]));
                }
                assert(b0[l] == x);
            }
            if b0.contains(x) {
                let k = b0.index_of(x);
                assert(b[k] == x);
                assert(a.contains(x));
                let l = a.index_of(x);
                if l == a.len() - 1 {
                    assert(leq(b[k], b[b.len() - 1]) && !leq(b[b.len() - 1], b[k]));
                }
                assert(a0[l] == x);
            }
        }
        lemma_strictly_in_order_unique(a0, b0, leq);
        assert(a =~= a0.push(a.last()));
        assert(b =~= b0.push(b.last()));
    }
}

// ---------------------------------------------------------------------------
// Selecting.
// ---------------------------------------------------------------------------
/// What is selected from a sequence is what its elements are mapped to.
pub proof fn lemma_filter_map_holds<A, B>(s: Seq<A>, f: spec_fn(A) -> Option<B>, x: B)
    ensures
        s.filter_map(f).contains(x) <==> exists|i: int|
            0 <= i < s.len() && f(#[trigger] s[i]) == Some(x),
    decreases s.len(),
{
    let all = s.filter_map(f);
    if s.len() > 0 {
        let shorter = s.drop_last();
        let before = shorter.filter_map(f);
        lemma_filter_map_holds(shorter, f, x);
        if before.contains(x) {
            let k = choose|k: int| 0 <= k < before.len() && before[k] == x;
            assert(all[k] == x);
            let i = choose|i: int| 0 <= i < shorter.len() && f(#[trigger] shorter[i]) == Some(x);
            assert(f(s[i]) == Some(x));
        }
        if f(s.last()) == Some(x) {
            assert(all.last() == x);
            assert(f(s[s.len() - 1]) == Some(x));
        }
        if all.contains(x) {
            let k = choose|k: int| 0 <= k < all.len() && all[k] == x;
            if k < before.len() {
                assert(before[k] == x);
            }
        }
        if exists|i: int| 0 <= i < s.len() && f(#[trigger] s[i]) == Some(x) {
            let i = choose|i: int| 0 <= i < s.len() && f(#[trigger] s[i]) == Some(x);
            if i < shorter.len() {
                assert(f(shorter[i]) == Some(x));
            }
        }
    }
}

/// What is left of an ordered sequence is in order.
pub proof fn lemma_filter_in_order<T>(
    s: Seq<T>,
    p: spec_fn(T) -> bool,
    leq: spec_fn(T, T) -> bool,
)
    requires
        in_order(s, leq),
    ensures
        in_order(s.filter(p), leq),
    decreases s.len(),
{
    reveal(Seq::filter);
    if s.len() > 0 {
        let shorter = s.drop_last();
        assert forall|i: int, j: int| 0 <= i < j < shorter.len() implies leq(
            #[trigger] shorter[i],
            #[trigger] shorter[j],
        ) by {
            assert(leq(s[i], s[j]));
        }
        lemma_filter_in_order(shorter, p, leq);
        let kept = shorter.filter(p);
        let all = s.filter(p);
        assert forall|i: int, j: int| 0 <= i < j < all.len() implies leq(
            #[trigger] all[i],
            #[trigger] all[j],
        ) by {
            assert(all[i] == kept[i]);
            if j < kept.len() {
                assert(all[j] == kept[j]);
            } else {
                shorter.lemma_filter_contains_rev(p, kept[i]);
                let k = choose|k: int| 0 <= k < shorter.len() && shorter[k] == kept[i];
                assert(leq(s[k], s[s.len() - 1]));
            }
        }
    }
}

// ---------------------------------------------------------------------------
// The order of texts.
// ---------------------------------------------------------------------------
/// Whether `a` comes no later than `b` character by character, as in a dictionary
/// sorted by code point.
pub open spec fn text_leq(a: Seq<char>, b: Seq<char>) -> bool
    decreases a.len(),
{
    if a.len() == 0 {
        true
    } else if b.len() == 0 {
        false
    } else if a[0] == b[0] {
        text_leq(a.drop_first(), b.drop_first())
    } else {
        a[0] < b[0]
    }
}

/// The order of texts compares any two texts, and ties only equal ones.
pub proof fn lemma_text_leq_total(a: Seq<char>, b: Seq<char>)
    ensures
        text_leq(a, b) || text_leq(b, a),
        text_leq(a, b) && text_leq(b, a) ==> a == b,
    decreases a.len(),
{
    if a.len() > 0 && b.len() > 0 && a[0] == b[0] {
        lemma_text_leq_total(a.drop_first(), b.drop_first());
        assert(a =~= seq![a[0]] + a.drop_first());
        assert(b =~= seq![b[0]] + b.drop_first());
    } else if a.len() == 0 && b.len() == 0 {
        assert(a =~= b);
    }
}

/// The order of texts is consistent.
pub proof fn lemma_text_leq_transitive(a: Seq<char>, b: Seq<char>, c: Seq<char>)
    requires
        text_leq(a, b),
        text_leq(b, c),
    ensures
        text_leq(a, c),
    decreases a.len(),
{
    if a.len() > 0 && b.len() > 0 && c.len() > 0 && a[0] == b[0] && b[0] == c[0] {
        lemma_text_leq_transitive(a.drop_first(), b.drop_first(), c.drop_first());
    }
}

/// Behind what two texts have in common, the first character in which they differ decides
/// between them, by its code point; a text that ends there comes first.
pub proof fn first_difference_decides(common: Seq<char>, a: Seq<char>, b: Seq<char>)
    requires
        a.len() > 0 && b.len() > 0 ==> a[0] != b[0],
    ensures
        text_leq(common + a, common + b) <==> a.len() == 0 || (b.len() > 0 && a[0] < b[0]),
    decreases common.len(),
{
    if common.len() == 0 {
        assert(common + a =~= a);
        assert(common + b =~= b);
    } else {
        let rest = common.drop_first();
        assert((common + a).drop_first() =~= rest + a);
        assert((common + b).drop_first() =~= rest + b);
        first_difference_decides(rest, a, b);
    }
}

/// Whether `a` comes no later than `b` in the order of texts.
pub fn text_in_order(a: &str, b: &str) -> (r: bool)
    ensures
        r == text_leq(a@, b@),
{
    let x = chars_of(a);
    let y = chars_of(b);
    let mut i: usize = 0;
    proof {
        assert(x@.skip(0) =~= x@);
        assert(y@.skip(0) =~= y@);
    }
    while i < x.len()
        invariant
            i <= x@.len(),
            i <= y@.len(),
            text_leq(a@, b@) == text_leq(x@.skip(i as int), y@.skip(i as int)),
        decreases x@.len() - i,
    {
        if i >= y.len() {
            return false;
        }
        if x[i] != y[i] {
            return x[i] < y[i];
        }
        proof {
            assert(x@.skip(i as int).drop_first() =~= x@.skip(i + 1));
            assert(y@.skip(i as int).drop_first() =~= y@.skip(i + 1));
        }
        i += 1;
    }
    true
}

} // verus!
