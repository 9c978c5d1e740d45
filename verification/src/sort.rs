//! Stable sorting and consecutive deduplication, stated over sequences.

use vstd::prelude::*;

verus! {

/// The first position in `s` before which `x` strictly belongs.
pub open spec fn insert_pos<T>(s: Seq<T>, x: T, before: spec_fn(T, T) -> bool) -> int
    decreases s.len(),
{
    if s.len() == 0 {
        0
    } else if before(x, s[0]) {
        0
    } else {
        1 + insert_pos(s.drop_first(), x, before)
    }
}

/// `x` inserted after every element of `s` that it does not strictly precede.
pub open spec fn insert_sorted<T>(s: Seq<T>, x: T, before: spec_fn(T, T) -> bool) -> Seq<T> {
    s.insert(insert_pos(s, x, before), x)
}

/// The stable sort of `s` by the strict order `before`: equal elements keep
/// their relative order.
pub open spec fn stable_sort<T>(s: Seq<T>, before: spec_fn(T, T) -> bool) -> Seq<T>
    decreases s.len(),
{
    if s.len() == 0 {
        s
    } else {
        insert_sorted(stable_sort(s.drop_last(), before), s.last(), before)
    }
}

/// `s` with every element removed that `same` relates to the element kept just before it.
pub open spec fn dedup_consecutive<T>(s: Seq<T>, same: spec_fn(T, T) -> bool) -> Seq<T>
    decreases s.len(),
{
    if s.len() == 0 {
        s
    } else {
        let d = dedup_consecutive(s.drop_last(), same);
        if d.len() > 0 && same(s.last(), d.last()) {
            d
        } else {
            d.push(s.last())
        }
    }
}

/// No element of `s` is strictly preceded by a later one.
pub open spec fn sorted_by<T>(s: Seq<T>, before: spec_fn(T, T) -> bool) -> bool {
    forall|i: int, j: int| 0 <= i < j < s.len() ==> !before(s[j], s[i])
}

/// `before` is a strict weak order: irreflexive, transitive, and incomparability is transitive.
pub open spec fn strict_weak_order<T>(before: spec_fn(T, T) -> bool) -> bool {
    &&& forall|a: T| #![trigger before(a, a)] !before(a, a)
    &&& forall|a: T, b: T, c: T| #![trigger before(a, b), before(b, c)] before(a, b) && before(b, c) ==> before(a, c)
    &&& forall|a: T, b: T, c: T| #![trigger before(a, b), before(b, c)] !before(a, b) && !before(b, a) && !before(b, c) && !before(c, b)
        ==> !before(a, c) && !before(c, a)
}

proof fn lemma_insert_pos_bounds<T>(s: Seq<T>, x: T, before: spec_fn(T, T) -> bool)
    ensures
        0 <= insert_pos(s, x, before) <= s.len(),
        forall|j: int| 0 <= j < insert_pos(s, x, before) ==> !before(x, #[trigger] s[j]),
        insert_pos(s, x, before) < s.len() ==> before(x, s[insert_pos(s, x, before)]),
    decreases s.len(),
{
    if s.len() > 0 && !before(x, s[0]) {
        lemma_insert_pos_bounds(s.drop_first(), x, before);
        assert forall|j: int| 0 <= j < insert_pos(s, x, before) implies !before(x, #[trigger] s[j]) by {
            if j > 0 {
                assert(s[j] == s.drop_first()[j - 1]);
            }
        }
    }
}

proof fn lemma_insert_pos_unique<T>(s: Seq<T>, x: T, before: spec_fn(T, T) -> bool, p: int)
    requires
        0 <= p <= s.len(),
        forall|j: int| 0 <= j < p ==> !before(x, #[trigger] s[j]),
        p < s.len() ==> before(x, s[p]),
    ensures
        insert_pos(s, x, before) == p,
    decreases s.len(),
{
    if s.len() > 0 && p > 0 {
        assert(!before(x, s[0]));
        assert forall|j: int| 0 <= j < p - 1 implies !before(x, #[trigger] s.drop_first()[j]) by {
            assert(s.drop_first()[j] == s[j + 1]);
        }
        lemma_insert_pos_unique(s.drop_first(), x, before, p - 1);
    }
}

/// The first element of a stable sort is least for any total preorder `le`
/// that `before` refines (what `before` puts first is `le`-below, and what it
/// does not is `le`-above), whatever `before` does among `le`-equal elements.
pub proof fn lemma_stable_sort_first_least<T>(s: Seq<T>, before: spec_fn(T, T) -> bool, le: spec_fn(T, T) -> bool)
    requires
        forall|a: T, b: T| #![trigger before(a, b)] (before(a, b) ==> le(a, b)) && (!before(a, b) ==> le(b, a)),
        forall|a: T, b: T, c: T| #[trigger] le(a, b) && #[trigger] le(b, c) ==> le(a, c),
        forall|a: T| #[trigger] le(a, a),
    ensures
        s.len() > 0 ==> forall|i: int| 0 <= i < s.len() ==> le(stable_sort(s, before)[0], #[trigger] s[i]),
    decreases s.len(),
{
    if s.len() > 0 {
        let init = s.drop_last();
        let x = s.last();
        let t = stable_sort(init, before);
        lemma_stable_sort_first_least(init, before, le);
        lemma_stable_sort_permutes(init, before);
        let r = stable_sort(s, before);
        assert(r == t.insert(insert_pos(t, x, before), x));
        if t.len() == 0 {
            assert(r[0] == x);
            assert forall|i: int| 0 <= i < s.len() implies le(r[0], #[trigger] s[i]) by {
                assert(s[i] == x);
            }
        } else {
            let m = t[0];
            assert(before(x, m) || !before(x, m));
            if before(x, m) {
                assert(insert_pos(t, x, before) == 0);
                assert(r[0] == x);
                assert forall|i: int| 0 <= i < s.len() implies le(r[0], #[trigger] s[i]) by {
                    if i < init.len() {
                        assert(s[i] == init[i]);
                        assert(le(m, init[i]));
                        assert(le(x, m));
                    } else {
                        assert(s[i] == x);
                    }
                }
            } else {
                assert(insert_pos(t, x, before) == 1 + insert_pos(t.drop_first(), x, before));
                lemma_insert_pos_bounds(t, x, before);
                assert(r[0] == m);
                assert forall|i: int| 0 <= i < s.len() implies le(r[0], #[trigger] s[i]) by {
                    if i < init.len() {
                        assert(s[i] == init[i]);
                    } else {
                        assert(s[i] == x);
                        assert(le(m, x));
                    }
                }
            }
        }
    }
}

/// The stable sort preserves the elements.
pub proof fn lemma_stable_sort_permutes<T>(s: Seq<T>, before: spec_fn(T, T) -> bool)
    ensures
        stable_sort(s, before).to_multiset() == s.to_multiset(),
        stable_sort(s, before).len() == s.len(),
    decreases s.len(),
{
    broadcast use vstd::seq_lib::group_to_multiset_ensures;
    if s.len() > 0 {
        let t = stable_sort(s.drop_last(), before);
        lemma_stable_sort_permutes(s.drop_last(), before);
        lemma_insert_pos_bounds(t, s.last(), before);
        let p = insert_pos(t, s.last(), before);
        vstd::seq_lib::lemma_seq_union_to_multiset_commutative(t.subrange(0, p), t.subrange(p, t.len() as int));
        assert(t.insert(p, s.last()) =~= t.subrange(0, p).push(s.last()) + t.subrange(p, t.len() as int));
        assert(t =~= t.subrange(0, p) + t.subrange(p, t.len() as int));
        vstd::seq_lib::lemma_multiset_commutative(t.subrange(0, p).push(s.last()), t.subrange(p, t.len() as int));
        vstd::seq_lib::lemma_multiset_commutative(t.subrange(0, p), t.subrange(p, t.len() as int));
        assert(s =~= s.drop_last().push(s.last()));
    }
}

/// Every element of the stable sort is an element of the input.
pub proof fn lemma_stable_sort_elements<T>(s: Seq<T>, before: spec_fn(T, T) -> bool)
    ensures
        forall|i: int| 0 <= i < stable_sort(s, before).len() ==> s.contains(#[trigger] stable_sort(s, before)[i]),
{
    broadcast use vstd::seq_lib::group_to_multiset_ensures;
    lemma_stable_sort_permutes(s, before);
    let t = stable_sort(s, before);
    assert forall|i: int| 0 <= i < t.len() implies s.contains(#[trigger] t[i]) by {
        assert(t.contains(t[i]));
        assert(t.to_multiset().count(t[i]) > 0);
    }
}

/// Under a strict weak order, the stable sort is sorted.
pub proof fn lemma_stable_sort_sorted<T>(s: Seq<T>, before: spec_fn(T, T) -> bool)
    requires
        strict_weak_order(before),
    ensures
        sorted_by(stable_sort(s, before), before),
    decreases s.len(),
{
    if s.len() > 0 {
        let t = stable_sort(s.drop_last(), before);
        lemma_stable_sort_sorted(s.drop_last(), before);
        lemma_insert_pos_bounds(t, s.last(), before);
        let x = s.last();
        let p = insert_pos(t, x, before);
        let u = t.insert(p, x);
        assert forall|i: int, j: int| 0 <= i < j < u.len() implies !before(u[j], u[i]) by {
            if j < p {
                assert(u[i] == t[i] && u[j] == t[j]);
            } else if j == p {
                assert(u[i] == t[i]);
                assert(!before(x, t[i]));
            } else if i == p {
                assert(u[j] == t[j - 1]);
                if p < t.len() {
                    assert(before(x, t[p]));
                    if j - 1 > p {
                        assert(!before(t[j - 1], t[p]));
                    }
                    if before(t[j - 1], x) {
                        if j - 1 == p {
                            assert(before(x, x));
                        } else {
                            if before(t[p], t[j - 1]) {
                                assert(before(x, x));
                            } else {
                                assert(before(t[j - 1], t[p]) || !before(t[j - 1], t[p]));
                            }
                        }
                    }
                }
            } else if i < p {
                assert(u[i] == t[i] && u[j] == t[j - 1]);
            } else {
                assert(u[i] == t[i - 1] && u[j] == t[j - 1]);
            }
        }
    }
}

proof fn lemma_insert_pos_map<A, B>(s: Seq<A>, x: A, f: spec_fn(A) -> B, ba: spec_fn(A, A) -> bool, bb: spec_fn(B, B) -> bool)
    requires
        forall|a: A, b: A| #[trigger] ba(a, b) == bb(f(a), f(b)),
    ensures
        insert_pos(s, x, ba) == insert_pos(s.map_values(f), f(x), bb),
    decreases s.len(),
{
    if s.len() > 0 {
        assert(s.map_values(f)[0] == f(s[0]));
        assert(s.drop_first().map_values(f) =~= s.map_values(f).drop_first());
        lemma_insert_pos_map(s.drop_first(), x, f, ba, bb);
    }
}

/// Sorting commutes with a map that preserves the order.
pub proof fn lemma_stable_sort_map<A, B>(s: Seq<A>, f: spec_fn(A) -> B, ba: spec_fn(A, A) -> bool, bb: spec_fn(B, B) -> bool)
    requires
        forall|a: A, b: A| #[trigger] ba(a, b) == bb(f(a), f(b)),
    ensures
        stable_sort(s, ba).map_values(f) == stable_sort(s.map_values(f), bb),
    decreases s.len(),
{
    if s.len() > 0 {
        lemma_stable_sort_map(s.drop_last(), f, ba, bb);
        assert(s.drop_last().map_values(f) =~= s.map_values(f).drop_last());
        let t = stable_sort(s.drop_last(), ba);
        lemma_insert_pos_map(t, s.last(), f, ba, bb);
        lemma_insert_pos_bounds(t, s.last(), ba);
        let p = insert_pos(t, s.last(), ba);
        assert(t.insert(p, s.last()).map_values(f) =~= t.map_values(f).insert(p, f(s.last())));
    }
}

/// Deduplication commutes with a map that preserves `same`.
pub proof fn lemma_dedup_map<A, B>(s: Seq<A>, f: spec_fn(A) -> B, sa: spec_fn(A, A) -> bool, sb: spec_fn(B, B) -> bool)
    requires
        forall|a: A, b: A| #[trigger] sa(a, b) == sb(f(a), f(b)),
    ensures
        dedup_consecutive(s, sa).map_values(f) == dedup_consecutive(s.map_values(f), sb),
    decreases s.len(),
{
    if s.len() > 0 {
        lemma_dedup_map(s.drop_last(), f, sa, sb);
        assert(s.drop_last().map_values(f) =~= s.map_values(f).drop_last());
        let d = dedup_consecutive(s.drop_last(), sa);
        if d.len() > 0 {
            assert(d.map_values(f).last() == f(d.last()));
        }
        assert(d.push(s.last()).map_values(f) =~= d.map_values(f).push(f(s.last())));
    }
}

/// Sorts `v` stably by `before`, whose results `spec_before` states.
pub fn sort_by<T, F: Fn(&T, &T) -> bool>(v: Vec<T>, before: F, Ghost(spec_before): Ghost<spec_fn(T, T) -> bool>) -> (r: Vec<T>)
    requires
        forall|a: &T, b: &T| #[trigger] before.requires((a, b)),
        forall|a: &T, b: &T, o: bool| before.ensures((a, b), o) ==> o == spec_before(*a, *b),
    ensures
        r@ == stable_sort(v@, spec_before),
{
    let mut out: Vec<T> = Vec::new();
    let mut rest = v;
    let ghost orig = rest@;
    // Elements are taken from the front of `rest` in order.
    let mut taken: usize = 0;
    let n = rest.len();
    let mut items: Vec<T> = Vec::new();
    // Reverse `rest` so that popping yields the elements in their original order.
    while rest.len() > 0
        invariant
            items@ + rest@.reverse() == orig.reverse(),
        decreases rest@.len(),
    {
        let ghost before_rest = rest@;
        let x = rest.pop().unwrap();
        proof {
            assert(before_rest =~= rest@.push(x));
            assert(before_rest.reverse() =~= seq![x] + rest@.reverse());
        }
        items.push(x);
        proof {
            assert(items@ + rest@.reverse() =~= orig.reverse());
        }
    }
    assert(items@ =~= orig.reverse());
    while items.len() > 0
        invariant
            taken <= n,
            n == orig.len(),
            items@.len() == n - taken,
            items@ =~= orig.subrange(taken as int, n as int).reverse(),
            out@ == stable_sort(orig.subrange(0, taken as int), spec_before),
            forall|a: &T, b: &T| #[trigger] before.requires((a, b)),
            forall|a: &T, b: &T, o: bool| before.ensures((a, b), o) ==> o == spec_before(*a, *b),
        decreases items@.len(),
    {
        let ghost before_items = items@;
        let x = items.pop().unwrap();
        proof {
            assert(x == orig[taken as int]);
        }
        let mut p: usize = 0;
        while p < out.len()
            invariant
                p <= out@.len(),
                forall|j: int| 0 <= j < p ==> !spec_before(x, #[trigger] out@[j]),
                forall|a: &T, b: &T| #[trigger] before.requires((a, b)),
                forall|a: &T, b: &T, o: bool| before.ensures((a, b), o) ==> o == spec_before(*a, *b),
            ensures
                p <= out@.len(),
                forall|j: int| 0 <= j < p ==> !spec_before(x, #[trigger] out@[j]),
                p < out@.len() ==> spec_before(x, out@[p as int]),
            decreases out@.len() - p,
        {
            if before(&x, &out[p]) {
                break;
            }
            p += 1;
        }
        proof {
            lemma_insert_pos_unique(out@, x, spec_before, p as int);
            let pre = orig.subrange(0, taken + 1);
            assert(pre.drop_last() =~= orig.subrange(0, taken as int));
            assert(pre.last() == x);
            assert(items@ =~= orig.subrange(taken + 1, n as int).reverse());
        }
        out.insert(p, x);
        taken += 1;
    }
    assert(orig.subrange(0, n as int) =~= orig);
    out
}

/// Removes every element that `same` relates to the element kept just before it.
pub fn dedup_by<T, F: Fn(&T, &T) -> bool>(v: Vec<T>, same: F, Ghost(spec_same): Ghost<spec_fn(T, T) -> bool>) -> (r: Vec<T>)
    requires
        forall|a: &T, b: &T| #[trigger] same.requires((a, b)),
        forall|a: &T, b: &T, o: bool| same.ensures((a, b), o) ==> o == spec_same(*a, *b),
    ensures
        r@ == dedup_consecutive(v@, spec_same),
{
    let ghost orig = v@;
    let n = v.len();
    let mut items: Vec<T> = Vec::new();
    let mut rest = v;
    while rest.len() > 0
        invariant
            items@ + rest@.reverse() == orig.reverse(),
        decreases rest@.len(),
    {
        let ghost before_rest = rest@;
        let x = rest.pop().unwrap();
        proof {
            assert(before_rest =~= rest@.push(x));
            assert(before_rest.reverse() =~= seq![x] + rest@.reverse());
        }
        items.push(x);
        proof {
            assert(items@ + rest@.reverse() =~= orig.reverse());
        }
    }
    assert(items@ =~= orig.reverse());
    let mut out: Vec<T> = Vec::new();
    let mut taken: usize = 0;
    while items.len() > 0
        invariant
            taken <= n,
            n == orig.len(),
            items@.len() == n - taken,
            items@ =~= orig.subrange(taken as int, n as int).reverse(),
            out@ == dedup_consecutive(orig.subrange(0, taken as int), spec_same),
            forall|a: &T, b: &T| #[trigger] same.requires((a, b)),
            forall|a: &T, b: &T, o: bool| same.ensures((a, b), o) ==> o == spec_same(*a, *b),
        decreases items@.len(),
    {
        let x = items.pop().unwrap();
        proof {
            assert(x == orig[taken as int]);
            let pre = orig.subrange(0, taken + 1);
            assert(pre.drop_last() =~= orig.subrange(0, taken as int));
            assert(pre.last() == x);
            assert(items@ =~= orig.subrange(taken + 1, n as int).reverse());
        }
        let keep = if out.len() > 0 {
            let last = out.len() - 1;
            !same(&x, &out[last])
        } else {
            true
        };
        if keep {
            out.push(x);
        }
        taken += 1;
    }
    assert(orig.subrange(0, n as int) =~= orig);
    out
}

/// The index of the first element of `s` that satisfies `p`.
pub open spec fn first_index<T>(s: Seq<T>, p: spec_fn(T) -> bool) -> Option<int>
    decreases s.len(),
{
    if s.len() == 0 {
        None
    } else if p(s[0]) {
        Some(0)
    } else {
        match first_index(s.drop_first(), p) {
            Some(k) => Some(k + 1),
            None => None,
        }
    }
}

/// An index whose predecessors all fail `p` is the first index when it
/// satisfies `p`, and there is none when it is the end.
pub proof fn lemma_first_index<T>(s: Seq<T>, p: spec_fn(T) -> bool, i: int)
    requires
        0 <= i <= s.len(),
        forall|k: int| 0 <= k < i ==> !p(#[trigger] s[k]),
    ensures
        i < s.len() && p(s[i]) ==> first_index(s, p) == Some(i),
        i == s.len() ==> first_index(s, p) is None,
    decreases i,
{
    if i > 0 {
        assert(!p(s[0]));
        assert forall|k: int| 0 <= k < i - 1 implies !p(#[trigger] s.drop_first()[k]) by {
            assert(s.drop_first()[k] == s[k + 1]);
        }
        lemma_first_index(s.drop_first(), p, i - 1);
        if i < s.len() {
            assert(s.drop_first()[i - 1] == s[i]);
        }
    }
}

/// The first index is in range, satisfies `p`, and no earlier element does.
pub proof fn lemma_first_index_found<T>(s: Seq<T>, p: spec_fn(T) -> bool)
    ensures
        match first_index(s, p) {
            Some(i) => 0 <= i < s.len() && p(s[i]) && forall|k: int| 0 <= k < i ==> !p(#[trigger] s[k]),
            None => forall|k: int| 0 <= k < s.len() ==> !p(#[trigger] s[k]),
        },
    decreases s.len(),
{
    if s.len() > 0 && !p(s[0]) {
        lemma_first_index_found(s.drop_first(), p);
        match first_index(s.drop_first(), p) {
            Some(i) => {
                assert(s[i + 1] == s.drop_first()[i]);
                assert forall|k: int| 0 <= k < i + 1 implies !p(#[trigger] s[k]) by {
                    if k > 0 {
                        assert(s[k] == s.drop_first()[k - 1]);
                    }
                }
            },
            None => {
                assert forall|k: int| 0 <= k < s.len() implies !p(#[trigger] s[k]) by {
                    if k > 0 {
                        assert(s[k] == s.drop_first()[k - 1]);
                    }
                }
            },
        }
    }
}

/// Every element kept by deduplication is an element of the input.
pub proof fn lemma_dedup_elements<T>(s: Seq<T>, same: spec_fn(T, T) -> bool)
    ensures
        forall|i: int| 0 <= i < dedup_consecutive(s, same).len() ==> s.contains(#[trigger] dedup_consecutive(s, same)[i]),
        dedup_consecutive(s, same).len() <= s.len(),
    decreases s.len(),
{
    if s.len() > 0 {
        lemma_dedup_elements(s.drop_last(), same);
        let d = dedup_consecutive(s.drop_last(), same);
        let r = dedup_consecutive(s, same);
        assert forall|i: int| 0 <= i < r.len() implies s.contains(#[trigger] r[i]) by {
            if i < d.len() {
                assert(r[i] == d[i]);
                assert(s.drop_last().contains(d[i]));
                let k = choose|k: int| 0 <= k < s.drop_last().len() && s.drop_last()[k] == d[i];
                assert(s[k] == d[i]);
            } else {
                assert(r[i] == s.last());
                assert(s[s.len() - 1] == s.last());
            }
        }
    }
}

/// Every element of the input is kept or related by `same` to a kept one.
pub proof fn lemma_dedup_covers<T>(s: Seq<T>, same: spec_fn(T, T) -> bool)
    ensures
        forall|i: int| 0 <= i < s.len() ==> exists|j: int| 0 <= j < dedup_consecutive(s, same).len()
            && (dedup_consecutive(s, same)[j] == #[trigger] s[i] || same(s[i], dedup_consecutive(s, same)[j])),
    decreases s.len(),
{
    if s.len() > 0 {
        lemma_dedup_covers(s.drop_last(), same);
        let d = dedup_consecutive(s.drop_last(), same);
        let r = dedup_consecutive(s, same);
        assert forall|i: int| 0 <= i < s.len() implies exists|j: int| 0 <= j < r.len()
            && (r[j] == #[trigger] s[i] || same(s[i], r[j])) by {
            if i < s.len() - 1 {
                assert(s[i] == s.drop_last()[i]);
                let j = choose|j: int| 0 <= j < d.len() && (d[j] == s.drop_last()[i] || same(s.drop_last()[i], d[j]));
                assert(r[j] == d[j]);
            } else {
                if d.len() > 0 && same(s.last(), d.last()) {
                    assert(r[d.len() - 1] == d.last());
                } else {
                    assert(r[d.len() as int] == s.last());
                }
            }
        }
    }
}

/// Deduplicating a sorted sequence leaves it sorted.
pub proof fn lemma_dedup_sorted<T>(s: Seq<T>, same: spec_fn(T, T) -> bool, before: spec_fn(T, T) -> bool)
    requires
        sorted_by(s, before),
    ensures
        sorted_by(dedup_consecutive(s, same), before),
    decreases s.len(),
{
    if s.len() > 0 {
        let t = s.drop_last();
        assert(sorted_by(t, before)) by {
            assert forall|i: int, j: int| 0 <= i < j < t.len() implies !before(t[j], t[i]) by {
                assert(t[i] == s[i] && t[j] == s[j]);
            }
        }
        lemma_dedup_sorted(t, same, before);
        lemma_dedup_elements(t, same);
        let d = dedup_consecutive(t, same);
        let r = dedup_consecutive(s, same);
        if !(d.len() > 0 && same(s.last(), d.last())) {
            assert forall|i: int, j: int| 0 <= i < j < r.len() implies !before(r[j], r[i]) by {
                if j < d.len() {
                    assert(r[i] == d[i] && r[j] == d[j]);
                } else {
                    assert(r[j] == s.last());
                    assert(r[i] == d[i]);
                    assert(t.contains(d[i]));
                    let k = choose|k: int| 0 <= k < t.len() && t[k] == d[i];
                    assert(s[k] == d[i]);
                    assert(s[s.len() - 1] == s.last());
                }
            }
        }
    }
}

} // verus!
