//! Facts about sequences that the components share: the first position at
//! which a condition holds, and how filtering grows with the sequence.

use vstd::prelude::*;

verus! {

/// The first position of `s` whose element satisfies `pred`, if any.
pub open spec fn first_index<T>(s: Seq<T>, pred: spec_fn(T) -> bool) -> Option<int>
    decreases s.len(),
{
    if s.len() == 0 {
        None
    } else {
        match first_index(s.drop_last(), pred) {
            Some(i) => Some(i),
            None => if pred(s.last()) {
                Some(s.len() - 1)
            } else {
                None
            },
        }
    }
}

/// `first_index` finds a position exactly when some element satisfies the
/// condition, and then it is the least such position.
pub proof fn lemma_first_index<T>(s: Seq<T>, pred: spec_fn(T) -> bool)
    ensures
        match first_index(s, pred) {
            Some(i) => 0 <= i < s.len() && pred(s[i]) && forall|j: int| 0 <= j < i ==> !pred(#[trigger] s[j]),
            None => forall|j: int| 0 <= j < s.len() ==> !pred(#[trigger] s[j]),
        },
    decreases s.len(),
{
    if s.len() > 0 {
        let t = s.drop_last();
        lemma_first_index(t, pred);
        assert(forall|j: int| 0 <= j < t.len() ==> t[j] == s[j]);
    }
}

/// A position that satisfies the condition, with none before it, is the one
/// that `first_index` finds.
pub proof fn lemma_first_index_is<T>(s: Seq<T>, pred: spec_fn(T) -> bool, i: int)
    requires
        0 <= i < s.len(),
        pred(s[i]),
        forall|j: int| 0 <= j < i ==> !pred(#[trigger] s[j]),
    ensures
        first_index(s, pred) == Some(i),
{
    lemma_first_index(s, pred);
}

/// Where no element satisfies the condition, `first_index` finds nothing.
pub proof fn lemma_first_index_none<T>(s: Seq<T>, pred: spec_fn(T) -> bool)
    requires
        forall|j: int| 0 <= j < s.len() ==> !pred(#[trigger] s[j]),
    ensures
        first_index(s, pred).is_none(),
{
    lemma_first_index(s, pred);
}

/// Filtering the first `i + 1` elements is filtering the first `i` and then
/// keeping or dropping element `i`.
pub proof fn lemma_filter_step<T>(s: Seq<T>, pred: spec_fn(T) -> bool, i: int)
    requires
        0 <= i < s.len(),
    ensures
        s.take(i + 1).filter(pred) == if pred(s[i]) {
            s.take(i).filter(pred).push(s[i])
        } else {
            s.take(i).filter(pred)
        },
{
    reveal(Seq::filter);
    assert(s.take(i + 1).drop_last() =~= s.take(i));
    assert(s.take(i + 1).last() == s[i]);
}

/// Filtering an empty sequence leaves it empty.
pub proof fn lemma_filter_empty<T>(s: Seq<T>, pred: spec_fn(T) -> bool)
    requires
        s.len() == 0,
    ensures
        s.filter(pred) == Seq::<T>::empty(),
{
    reveal(Seq::filter);
    assert(s.filter(pred) =~= Seq::<T>::empty());
}

/// Where every element of `s` that satisfies `p` stands at a position at
/// which `t` holds an element that satisfies `q`, no more elements of `s`
/// satisfy `p` than elements of `t` satisfy `q`.
pub proof fn lemma_filter_len_pointwise<T>(s: Seq<T>, t: Seq<T>, p: spec_fn(T) -> bool, q: spec_fn(T) -> bool)
    requires
        s.len() == t.len(),
        forall|i: int| 0 <= i < s.len() && p(#[trigger] s[i]) ==> q(t[i]),
    ensures
        s.filter(p).len() <= t.filter(q).len(),
    decreases s.len(),
{
    reveal(Seq::filter);
    if s.len() > 0 {
        let s0 = s.drop_last();
        let t0 = t.drop_last();
        assert forall|i: int| 0 <= i < s0.len() && p(#[trigger] s0[i]) implies q(t0[i]) by {
            assert(s0[i] == s[i]);
            assert(t0[i] == t[i]);
        }
        lemma_filter_len_pointwise(s0, t0, p, q);
        assert(p(s[s.len() - 1]) ==> q(t[t.len() - 1]));
    }
}

} // verus!
