//! Sequences with some of their elements taken out.

use vstd::prelude::*;

verus! {

/// The elements of `s` that satisfy `pred`, in order.
pub open spec fn keep<T>(s: Seq<T>, pred: spec_fn(T) -> bool) -> Seq<T>
    decreases s.len(),
{
    if s.len() == 0 {
        s
    } else if pred(s.last()) {
        keep(s.drop_last(), pred).push(s.last())
    } else {
        keep(s.drop_last(), pred)
    }
}

/// Each element that is kept was there before and satisfies the predicate.
pub proof fn lemma_keep_member<T>(s: Seq<T>, pred: spec_fn(T) -> bool, k: int)
    requires
        0 <= k < keep(s, pred).len(),
    ensures
        pred(keep(s, pred)[k]),
        exists|i: int| 0 <= i < s.len() && #[trigger] s[i] == keep(s, pred)[k],
    decreases s.len(),
{
    if s.len() > 0 {
        let rest = keep(s.drop_last(), pred);
        if pred(s.last()) && k == rest.len() {
            assert(s[s.len() - 1] == keep(s, pred)[k]);
        } else {
            lemma_keep_member(s.drop_last(), pred, k);
            let i = choose|i: int| 0 <= i < s.drop_last().len() && #[trigger] s.drop_last()[i] == rest[k];
            assert(s[i] == keep(s, pred)[k]);
        }
    }
}

/// Elements that are kept stay in their order.
pub proof fn lemma_keep_order<T>(s: Seq<T>, pred: spec_fn(T) -> bool, k1: int, k2: int)
    requires
        0 <= k1 < k2 < keep(s, pred).len(),
    ensures
        exists|i1: int, i2: int|
            0 <= i1 < i2 < s.len() && #[trigger] s[i1] == keep(s, pred)[k1] && #[trigger] s[i2]
                == keep(s, pred)[k2],
    decreases s.len(),
{
    if s.len() > 0 {
        let rest = keep(s.drop_last(), pred);
        if pred(s.last()) && k2 == rest.len() {
            lemma_keep_member(s.drop_last(), pred, k1);
            let i1 = choose|i: int| 0 <= i < s.drop_last().len() && #[trigger] s.drop_last()[i] == rest[k1];
            let i2 = s.len() - 1;
            assert(s[i1] == keep(s, pred)[k1] && s[i2] == keep(s, pred)[k2]);
        } else {
            lemma_keep_order(s.drop_last(), pred, k1, k2);
            let (i1, i2) = choose|i1: int, i2: int|
                0 <= i1 < i2 < s.drop_last().len() && #[trigger] s.drop_last()[i1] == rest[k1]
                    && #[trigger] s.drop_last()[i2] == rest[k2];
            assert(s[i1] == keep(s, pred)[k1] && s[i2] == keep(s, pred)[k2]);
        }
    }
}

/// Where every element satisfies the predicate, all are kept.
pub proof fn lemma_keep_all<T>(s: Seq<T>, pred: spec_fn(T) -> bool)
    requires
        forall|i: int| 0 <= i < s.len() ==> pred(#[trigger] s[i]),
    ensures
        keep(s, pred) == s,
    decreases s.len(),
{
    if s.len() > 0 {
        assert forall|i: int| 0 <= i < s.drop_last().len() implies pred(
            #[trigger] s.drop_last()[i],
        ) by {
            assert(s.drop_last()[i] == s[i]);
        }
        lemma_keep_all(s.drop_last(), pred);
        assert(s.drop_last().push(s.last()) =~= s);
    }
}

/// What is kept of a sequence with one more element at its end.
pub proof fn lemma_keep_push<T>(s: Seq<T>, pred: spec_fn(T) -> bool, x: T)
    ensures
        keep(s.push(x), pred) == if pred(x) {
            keep(s, pred).push(x)
        } else {
            keep(s, pred)
        },
{
    assert(s.push(x).drop_last() =~= s);
}

/// As many elements are kept as there were exactly when all satisfy the
/// predicate.
pub proof fn lemma_keep_len<T>(s: Seq<T>, pred: spec_fn(T) -> bool)
    ensures
        keep(s, pred).len() <= s.len(),
        (keep(s, pred).len() == s.len()) == (forall|i: int|
            0 <= i < s.len() ==> pred(#[trigger] s[i])),
    decreases s.len(),
{
    if s.len() > 0 {
        let rest = s.drop_last();
        lemma_keep_len(rest, pred);
        if keep(s, pred).len() == s.len() {
            assert forall|i: int| 0 <= i < s.len() implies pred(#[trigger] s[i]) by {
                if i < rest.len() {
                    assert(rest[i] == s[i]);
                }
            }
        }
        if forall|i: int| 0 <= i < s.len() ==> pred(#[trigger] s[i]) {
            assert forall|i: int| 0 <= i < rest.len() implies pred(#[trigger] rest[i]) by {
                assert(rest[i] == s[i]);
            }
        }
    }
}

} // verus!
