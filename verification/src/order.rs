//! Sorted sequences: what it means that one sequence is another one sorted, and that inserting
//! in the right place keeps it so.

use vstd::prelude::*;

verus! {

/// Whether `before` orders things so that each is tied with those that are neither before nor
/// after it.
pub open spec fn is_order<A>(before: spec_fn(A, A) -> bool) -> bool {
    &&& forall|a: A| !#[trigger] before(a, a)
    &&& forall|a: A, b: A, c: A| #[trigger] before(a, b) && #[trigger] before(b, c) ==> before(a, c)
    &&& forall|a: A, b: A, c: A|
        #![trigger before(a, c), before(a, b)]
        #![trigger before(a, c), before(b, c)]
        before(a, c) ==> before(a, b) || before(b, c)
}

/// Whether nothing stands behind something that it belongs before.
pub open spec fn is_sorted<A>(v: Seq<A>, before: spec_fn(A, A) -> bool) -> bool {
    forall|i: int, j: int| 0 <= i < j < v.len() ==> !before(#[trigger] v[j], #[trigger] v[i])
}

/// What is tied with `x`.
pub open spec fn tied<A>(before: spec_fn(A, A) -> bool, x: A) -> spec_fn(A) -> bool {
    |y: A| !before(x, y) && !before(y, x)
}

/// Whether `v` is `w` sorted: in order, with the same things, and those that are tied in the
/// order that they had.
pub open spec fn is_stable_sort<A>(v: Seq<A>, w: Seq<A>, before: spec_fn(A, A) -> bool) -> bool {
    &&& is_sorted(v, before)
    &&& forall|x: A| #[trigger] v.filter(tied(before, x)) == w.filter(tied(before, x))
}

/// Filtering what nothing passes leaves nothing.
pub proof fn lemma_filter_none<A>(s: Seq<A>, keep: spec_fn(A) -> bool)
    requires
        forall|i: int| 0 <= i < s.len() ==> !keep(#[trigger] s[i]),
    ensures
        s.filter(keep) == Seq::<A>::empty(),
    decreases s.len(),
{
    reveal(Seq::filter);
    if s.len() > 0 {
        let t = s.drop_last();
        assert forall|i: int| 0 <= i < t.len() implies !keep(#[trigger] t[i]) by {
            assert(t[i] == s[i]);
        }
        lemma_filter_none(t, keep);
        assert(!keep(s[s.len() - 1]));
    }
}

/// Nothing sorted is nothing.
pub proof fn lemma_sort_empty<A>(before: spec_fn(A, A) -> bool)
    ensures
        is_stable_sort(Seq::<A>::empty(), Seq::<A>::empty(), before),
{
}

/// Putting `x` before the first thing that it belongs before sorts what has `x` at its end.
pub proof fn lemma_insert_sorted<A>(
    v: Seq<A>,
    w: Seq<A>,
    x: A,
    p: int,
    before: spec_fn(A, A) -> bool,
)
    requires
        is_order(before),
        is_stable_sort(v, w, before),
        0 <= p <= v.len(),
        forall|k: int| 0 <= k < p ==> !before(x, #[trigger] v[k]),
        p < v.len() ==> before(x, v[p]),
    ensures
        is_stable_sort(v.insert(p, x), w.push(x), before),
{
    let n = v.insert(p, x);
    assert forall|j: int| p <= j < v.len() implies before(x, #[trigger] v[j]) && !before(
        v[j],
        x,
    ) by {
        if p < j {
            assert(!before(v[j], v[p]));
        }
        assert(before(x, v[j]) || before(v[j], v[p]));
        if before(v[j], x) {
            assert(before(v[j], v[j]));
        }
    }
    assert forall|i: int, j: int| 0 <= i < j < n.len() implies !before(
        #[trigger] n[j],
        #[trigger] n[i],
    ) by {
        let a = if i < p {
            i
        } else {
            i - 1
        };
        let b = if j < p {
            j
        } else {
            j - 1
        };
        if i == p {
            assert(n[j] == v[b]);
        } else if j == p {
            assert(n[i] == v[a]);
        } else {
            assert(n[i] == v[a] && n[j] == v[b]);
        }
    }
    assert forall|y: A| #[trigger] n.filter(tied(before, y)) == w.push(x).filter(
        tied(before, y),
    ) by {
        let keep = tied(before, y);
        let front = v.take(p);
        let back = v.skip(p);
        let one = seq![x];
        assert(n =~= front + one + back);
        assert(v =~= front + back);
        assert(w.push(x) =~= w + one);
        Seq::filter_distributes_over_add(front + one, back, keep);
        Seq::filter_distributes_over_add(front, one, keep);
        Seq::filter_distributes_over_add(w, one, keep);
        Seq::filter_distributes_over_add(front, back, keep);
        assert(v.filter(keep) == w.filter(keep));
        if keep(x) {
            assert forall|i: int| 0 <= i < back.len() implies !keep(#[trigger] back[i]) by {
                assert(back[i] == v[p + i]);
                assert(before(x, v[p + i]));
                assert(before(x, y) || before(y, v[p + i]));
            }
            lemma_filter_none(back, keep);
            assert(front.filter(keep) + one.filter(keep) + back.filter(keep) =~= front.filter(keep)
                + back.filter(keep) + one.filter(keep));
        } else {
            assert forall|i: int| 0 <= i < one.len() implies !keep(#[trigger] one[i]) by {}
            lemma_filter_none(one, keep);
            assert(front.filter(keep) + one.filter(keep) + back.filter(keep) =~= front.filter(keep)
                + back.filter(keep) + one.filter(keep));
        }
    }
}

/// Sorting loses nothing and adds nothing.
pub proof fn law_sorting_keeps_what_there_is<A>(
    v: Seq<A>,
    w: Seq<A>,
    before: spec_fn(A, A) -> bool,
    x: A,
)
    requires
        is_order(before),
        is_stable_sort(v, w, before),
    ensures
        v.contains(x) <==> w.contains(x),
        v.to_multiset().count(x) == w.to_multiset().count(x),
        v.len() == w.len(),
{
    let keep = tied(before, x);
    assert(!before(x, x));
    assert(v.filter(keep) == w.filter(keep));
    lemma_filter_holds(v, keep, x);
    lemma_filter_holds(w, keep, x);
    assert forall|y: A| v.to_multiset().count(y) == #[trigger] w.to_multiset().count(y) by {
        assert(!before(y, y));
        assert(v.filter(tied(before, y)) == w.filter(tied(before, y)));
        lemma_filter_counts(v, tied(before, y), y);
        lemma_filter_counts(w, tied(before, y), y);
    }
    assert(v.to_multiset() =~= w.to_multiset());
    v.to_multiset_ensures();
    w.to_multiset_ensures();
}

proof fn lemma_filter_counts<A>(s: Seq<A>, keep: spec_fn(A) -> bool, x: A)
    requires
        keep(x),
    ensures
        s.filter(keep).to_multiset().count(x) == s.to_multiset().count(x),
    decreases s.len(),
{
    reveal(Seq::filter);
    if s.len() > 0 {
        let t = s.drop_last();
        let y = s.last();
        lemma_filter_counts(t, keep, x);
        assert(s =~= t.push(y));
        t.to_multiset_ensures();
        t.filter(keep).to_multiset_ensures();
    }
}

proof fn lemma_filter_holds<A>(s: Seq<A>, keep: spec_fn(A) -> bool, x: A)
    requires
        keep(x),
    ensures
        s.filter(keep).contains(x) <==> s.contains(x),
    decreases s.len(),
{
    reveal(Seq::filter);
    if s.len() > 0 {
        let t = s.drop_last();
        let y = s.last();
        lemma_filter_holds(t, keep, x);
        assert(s =~= t.push(y));
        let f = t.filter(keep);
        if s.contains(x) {
            let k = choose|k: int| 0 <= k < s.len() && s[k] == x;
            if k < t.len() {
                assert(t[k] == x);
                let j = choose|j: int| 0 <= j < f.len() && f[j] == x;
                assert(s.filter(keep)[j] == x);
            } else {
                assert(s.filter(keep)[f.len() as int] == x);
            }
        }
        if s.filter(keep).contains(x) {
            let j = choose|j: int| 0 <= j < s.filter(keep).len() && s.filter(keep)[j] == x;
            if j < f.len() {
                assert(f[j] == x);
                let k = choose|k: int| 0 <= k < t.len() && t[k] == x;
                assert(s[k] == x);
            } else {
                assert(s[s.len() - 1] == x);
            }
        }
    }
}

} // verus!
