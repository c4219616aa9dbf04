//! Stable sorting of result lists, and the lexicographic order of strings.

use vstd::prelude::*;

verus! {

/// A total preorder: how result items are ordered for display.
pub trait Ordered: Sized {
    /// `a` may come before `b`.
    spec fn le_spec(a: Self, b: Self) -> bool;

    proof fn lemma_le_total(a: Self, b: Self)
        ensures
            Self::le_spec(a, b) || Self::le_spec(b, a),
    ;

    proof fn lemma_le_transitive(a: Self, b: Self, c: Self)
        requires
            Self::le_spec(a, b),
            Self::le_spec(b, c),
        ensures
            Self::le_spec(a, c),
    ;

    fn le(&self, other: &Self) -> (r: bool)
        ensures
            r == Self::le_spec(*self, *other),
    ;
}

/// Where `x` goes in `s`: before the first item that must come after it.
pub open spec fn insert_pos<T: Ordered>(s: Seq<T>, x: T) -> int
    decreases s.len(),
{
    if s.len() == 0 {
        0
    } else if !T::le_spec(s[0], x) {
        0
    } else {
        1 + insert_pos(s.drop_first(), x)
    }
}

/// Stable insertion sort: each item, in input order, goes after every item that may
/// precede it (so equal items keep their input order).
pub open spec fn stable_sort_spec<T: Ordered>(s: Seq<T>) -> Seq<T>
    decreases s.len(),
{
    if s.len() == 0 {
        s
    } else {
        let sorted = stable_sort_spec(s.drop_last());
        sorted.insert(insert_pos(sorted, s.last()), s.last())
    }
}

/// Every item may come before every later item.
pub open spec fn is_sorted<T: Ordered>(s: Seq<T>) -> bool {
    forall|i: int, j: int| 0 <= i < j < s.len() ==> T::le_spec(#[trigger] s[i], #[trigger] s[j])
}

proof fn lemma_insert_pos_bounds<T: Ordered>(s: Seq<T>, x: T)
    ensures
        0 <= insert_pos(s, x) <= s.len(),
        forall|i: int| 0 <= i < insert_pos(s, x) ==> T::le_spec(#[trigger] s[i], x),
        insert_pos(s, x) < s.len() ==> !T::le_spec(s[insert_pos(s, x)], x),
    decreases s.len(),
{
    if s.len() > 0 && T::le_spec(s[0], x) {
        lemma_insert_pos_bounds(s.drop_first(), x);
        assert forall|i: int| 0 <= i < insert_pos(s, x) implies T::le_spec(#[trigger] s[i], x) by {
            if i > 0 {
                assert(s[i] == s.drop_first()[i - 1]);
            }
        }
    }
}

proof fn lemma_insert_sorted<T: Ordered>(s: Seq<T>, x: T)
    requires
        is_sorted(s),
    ensures
        is_sorted(s.insert(insert_pos(s, x), x)),
{
    lemma_insert_pos_bounds(s, x);
    let p = insert_pos(s, x);
    let r = s.insert(p, x);
    assert forall|i: int, j: int| 0 <= i < j < r.len() implies T::le_spec(
        #[trigger] r[i],
        #[trigger] r[j],
    ) by {
        if i < p && j < p {
            assert(r[i] == s[i] && r[j] == s[j]);
        } else if i < p && j == p {
            assert(r[i] == s[i]);
        } else if i < p && j > p {
            assert(r[i] == s[i] && r[j] == s[j - 1]);
        } else if i == p {
            // x before s[j - 1], which comes at or after s[p]
            assert(r[j] == s[j - 1]);
            T::lemma_le_total(s[p], x);
            if j - 1 > p {
                assert(T::le_spec(s[p], s[j - 1]));
                T::lemma_le_transitive(x, s[p], s[j - 1]);
            }
        } else {
            assert(r[i] == s[i - 1] && r[j] == s[j - 1]);
        }
    }
}

/// The stable sort orders its items.
pub proof fn law_stable_sort_sorted<T: Ordered>(s: Seq<T>)
    ensures
        is_sorted(stable_sort_spec(s)),
    decreases s.len(),
{
    if s.len() > 0 {
        law_stable_sort_sorted(s.drop_last());
        lemma_insert_sorted(stable_sort_spec(s.drop_last()), s.last());
    }
}

/// The stable sort keeps exactly the items it was given.
pub proof fn law_stable_sort_permutation<T: Ordered>(s: Seq<T>)
    ensures
        stable_sort_spec(s).to_multiset() == s.to_multiset(),
    decreases s.len(),
{
    broadcast use vstd::multiset::group_multiset_axioms, vstd::seq_lib::group_to_multiset_ensures;

    if s.len() > 0 {
        let init = s.drop_last();
        law_stable_sort_permutation(init);
        let sorted = stable_sort_spec(init);
        lemma_insert_pos_bounds(sorted, s.last());
        vstd::seq_lib::to_multiset_insert(sorted, insert_pos(sorted, s.last()), s.last());
        assert(init.push(s.last()) =~= s);
    }
}

/// `a` and `b` may precede each other both ways, so either could come first.
pub open spec fn tied<T: Ordered>(a: T, b: T) -> bool {
    T::le_spec(a, b) && T::le_spec(b, a)
}

/// Being tied with `x`.
pub open spec fn tied_with<T: Ordered>(x: T) -> spec_fn(T) -> bool {
    |y: T| tied(y, x)
}

proof fn lemma_filter_none<T>(t: Seq<T>, pred: spec_fn(T) -> bool)
    requires
        forall|j: int| 0 <= j < t.len() ==> !pred(#[trigger] t[j]),
    ensures
        t.filter(pred) == Seq::<T>::empty(),
    decreases t.len(),
{
    if t.len() > 0 {
        let init = t.drop_last();
        assert forall|j: int| 0 <= j < init.len() implies !pred(#[trigger] init[j]) by {
            assert(init[j] == t[j]);
        }
        lemma_filter_none(init, pred);
        assert(init.push(t.last()) =~= t);
        init.lemma_filter_push(t.last(), pred);
    } else {
        reveal(Seq::filter);
    }
}

/// The stable sort keeps the input order of tied items: the items tied with any `x`
/// come out in the order in which they came in.
pub proof fn law_stable_sort_keeps_ties<T: Ordered>(s: Seq<T>, x: T)
    ensures
        stable_sort_spec(s).filter(tied_with(x)) == s.filter(tied_with(x)),
    decreases s.len(),
{
    let pred = tied_with(x);
    if s.len() > 0 {
        let init = s.drop_last();
        let last = s.last();
        law_stable_sort_keeps_ties(init, x);
        let sorted = stable_sort_spec(init);
        law_stable_sort_sorted(init);
        lemma_insert_pos_bounds(sorted, last);
        let p = insert_pos(sorted, last);
        let head = sorted.take(p);
        let tail = sorted.skip(p);
        assert(sorted.insert(p, last) =~= head + seq![last] + tail);
        assert(sorted =~= head + tail);
        Seq::filter_distributes_over_add(head + seq![last], tail, pred);
        Seq::filter_distributes_over_add(head, seq![last], pred);
        Seq::filter_distributes_over_add(head, tail, pred);
        assert(init.push(last) =~= s);
        init.lemma_filter_push(last, pred);
        assert(Seq::<T>::empty().push(last) =~= seq![last]);
        Seq::<T>::empty().lemma_filter_push(last, pred);
        lemma_filter_none(Seq::<T>::empty(), pred);
        if pred(last) {
            assert forall|j: int| 0 <= j < tail.len() implies !pred(#[trigger] tail[j]) by {
                let y = sorted[p + j];
                assert(tail[j] == y);
                if pred(y) {
                    // y is tied with x and so is `last`: y may precede `last`
                    T::lemma_le_transitive(y, x, last);
                    if j > 0 {
                        T::lemma_le_transitive(sorted[p], y, last);
                    }
                }
            }
            lemma_filter_none(tail, pred);
            assert(head.filter(pred) + seq![last] + Seq::<T>::empty() =~= (head.filter(pred)
                + Seq::<T>::empty()).push(last));
        } else {
            assert(head.filter(pred) + Seq::<T>::empty() =~= head.filter(pred));
        }
    }
}

/// Sorts `v` stably: items that may precede each other both ways keep their order.
pub fn stable_sort<T: Ordered>(v: Vec<T>) -> (r: Vec<T>)
    ensures
        r@ == stable_sort_spec(v@),
{
    let ghost orig = v@;
    let n = v.len();
    assert(orig.len() <= usize::MAX);
    let mut v = v;
    let mut rev: Vec<T> = Vec::new();
    while v.len() > 0
        invariant
            v@.len() + rev@.len() == orig.len(),
            orig.len() <= usize::MAX,
            v@ == orig.take(v@.len() as int),
            forall|k: int| 0 <= k < rev@.len() ==> #[trigger] rev@[k] == orig[orig.len() - 1 - k],
        decreases v@.len(),
    {
        let x = v.pop().unwrap();
        rev.push(x);
    }
    let mut out: Vec<T> = Vec::new();
    let mut done: usize = 0;
    assert(orig.take(0) =~= Seq::<T>::empty());
    while rev.len() > 0
        invariant
            done + rev@.len() == orig.len(),
            orig.len() <= usize::MAX,
            forall|k: int| 0 <= k < rev@.len() ==> #[trigger] rev@[k] == orig[orig.len() - 1 - k],
            out@ == stable_sort_spec(orig.take(done as int)),
        decreases rev@.len(),
    {
        let x = rev.pop().unwrap();
        assert(x == orig[done as int]);
        let mut p: usize = 0;
        proof {
            lemma_insert_pos_bounds(out@, x);
        }
        while p < out.len() && out[p].le(&x)
            invariant
                0 <= p <= out@.len(),
                forall|i: int| 0 <= i < p ==> T::le_spec(#[trigger] out@[i], x),
                insert_pos(out@, x) >= p || exists|i: int| 0 <= i < p && !T::le_spec(out@[i], x),
                0 <= insert_pos(out@, x) <= out@.len(),
                forall|i: int| 0 <= i < insert_pos(out@, x) ==> T::le_spec(#[trigger] out@[i], x),
                insert_pos(out@, x) < out@.len() ==> !T::le_spec(out@[insert_pos(out@, x)], x),
            decreases out@.len() - p,
        {
            p = p + 1;
        }
        assert(p == insert_pos(out@, x));
        let ghost taken = orig.take(done as int);
        out.insert(p, x);
        done = done + 1;
        assert(orig.take(done as int).drop_last() =~= taken);
        assert(orig.take(done as int).last() == x);
    }
    assert(orig.take(orig.len() as int) =~= orig);
    out
}

/// Lexicographic order of character sequences by code point (the order of `String`).
pub open spec fn lex_le(a: Seq<char>, b: Seq<char>) -> bool
    decreases a.len(),
{
    if a.len() == 0 {
        true
    } else if b.len() == 0 {
        false
    } else if a[0] != b[0] {
        (a[0] as int) < (b[0] as int)
    } else {
        lex_le(a.drop_first(), b.drop_first())
    }
}

pub proof fn lemma_lex_total(a: Seq<char>, b: Seq<char>)
    ensures
        lex_le(a, b) || lex_le(b, a),
    decreases a.len(),
{
    if a.len() > 0 && b.len() > 0 && a[0] == b[0] {
        lemma_lex_total(a.drop_first(), b.drop_first());
    } else if a.len() > 0 && b.len() > 0 {
        assert((a[0] as int) != (b[0] as int));
    }
}

pub proof fn lemma_lex_transitive(a: Seq<char>, b: Seq<char>, c: Seq<char>)
    requires
        lex_le(a, b),
        lex_le(b, c),
    ensures
        lex_le(a, c),
    decreases a.len(),
{
    if a.len() > 0 && b.len() > 0 && c.len() > 0 {
        if a[0] == b[0] && b[0] == c[0] {
            lemma_lex_transitive(a.drop_first(), b.drop_first(), c.drop_first());
        } else if a[0] != c[0] {
            assert((a[0] as int) <= (b[0] as int) <= (c[0] as int));
            if (a[0] as int) == (c[0] as int) {
                assert(a[0] == c[0]);
            }
        }
    }
}

/// Whether `a` sorts no later than `b` (`a <= b` for strings).
pub fn lex_le_exec(a: &[char], b: &[char]) -> (r: bool)
    ensures
        r == lex_le(a@, b@),
{
    let mut i: usize = 0;
    assert(a@.skip(0) =~= a@);
    assert(b@.skip(0) =~= b@);
    while i < a.len()
        invariant
            0 <= i <= a@.len(),
            i <= b@.len(),
            forall|k: int| 0 <= k < i ==> a@[k] == b@[k],
            lex_le(a@, b@) == lex_le(a@.skip(i as int), b@.skip(i as int)),
        decreases a@.len() - i,
    {
        if i >= b.len() {
            return false;
        }
        if a[i] != b[i] {
            return a[i] < b[i];
        }
        assert(a@.skip(i as int).drop_first() =~= a@.skip(i + 1));
        assert(b@.skip(i as int).drop_first() =~= b@.skip(i + 1));
        i = i + 1;
    }
    true
}

/// The items of `v` in reverse order; popping from the result yields `v`'s items in order.
pub fn reversed<T>(v: Vec<T>) -> (r: Vec<T>)
    ensures
        r@.len() == v@.len(),
        forall|k: int| 0 <= k < v@.len() ==> #[trigger] r@[k] == v@[v@.len() - 1 - k],
{
    let ghost orig = v@;
    let mut v = v;
    let mut rev: Vec<T> = Vec::new();
    while v.len() > 0
        invariant
            v@.len() + rev@.len() == orig.len(),
            v@ == orig.take(v@.len() as int),
            forall|k: int| 0 <= k < rev@.len() ==> #[trigger] rev@[k] == orig[orig.len() - 1 - k],
        decreases v@.len(),
    {
        let x = v.pop().unwrap();
        rev.push(x);
    }
    rev
}

} // verus!
