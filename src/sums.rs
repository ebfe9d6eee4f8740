//! Weighted sums over sequences, and how they change when a sequence is edited.
use vstd::prelude::*;

verus! {

/// The sum of `f` over the elements of `s`.
pub open spec fn sum_by<T>(s: Seq<T>, f: spec_fn(T) -> int) -> int
    decreases s.len(),
{
    if s.len() == 0 {
        0
    } else {
        sum_by(s.drop_last(), f) + f(s.last())
    }
}

/// Appending an element adds its weight.
pub proof fn lemma_sum_push<T>(s: Seq<T>, x: T, f: spec_fn(T) -> int)
    ensures
        sum_by(s.push(x), f) == sum_by(s, f) + f(x),
{
    assert(s.push(x).drop_last() =~= s);
}

/// Concatenation adds the sums.
pub proof fn lemma_sum_concat<T>(a: Seq<T>, b: Seq<T>, f: spec_fn(T) -> int)
    ensures
        sum_by(a + b, f) == sum_by(a, f) + sum_by(b, f),
    decreases b.len(),
{
    if b.len() == 0 {
        assert(a + b =~= a);
    } else {
        assert((a + b).drop_last() =~= a + b.drop_last());
        lemma_sum_concat(a, b.drop_last(), f);
    }
}

/// A sum splits at any index.
pub proof fn lemma_sum_split<T>(s: Seq<T>, i: int, f: spec_fn(T) -> int)
    requires
        0 <= i <= s.len(),
    ensures
        sum_by(s, f) == sum_by(s.take(i), f) + sum_by(s.skip(i), f),
{
    assert(s =~= s.take(i) + s.skip(i));
    lemma_sum_concat(s.take(i), s.skip(i), f);
}

/// The sum of a one-element sequence is the weight of that element.
pub proof fn lemma_sum_single<T>(x: T, f: spec_fn(T) -> int)
    ensures
        sum_by(seq![x], f) == f(x),
{
    assert(seq![x].drop_last() =~= Seq::<T>::empty());
    assert(seq![x].last() == x);
    assert(sum_by(Seq::<T>::empty(), f) == 0);
}

/// A sum over an element followed by a sequence.
pub proof fn lemma_sum_cons<T>(x: T, rest: Seq<T>, f: spec_fn(T) -> int)
    ensures
        sum_by(seq![x] + rest, f) == f(x) + sum_by(rest, f),
{
    lemma_sum_concat(seq![x], rest, f);
    lemma_sum_single(x, f);
}

/// Taking one more element of a prefix adds that element's weight.
pub proof fn lemma_sum_take_next<T>(s: Seq<T>, i: int, f: spec_fn(T) -> int)
    requires
        0 <= i < s.len(),
    ensures
        sum_by(s.take(i + 1), f) == sum_by(s.take(i), f) + f(s[i]),
{
    assert(s.take(i + 1).drop_last() =~= s.take(i));
}

/// Replacing one element changes the sum by the difference of the weights.
pub proof fn lemma_sum_update<T>(s: Seq<T>, i: int, x: T, f: spec_fn(T) -> int)
    requires
        0 <= i < s.len(),
    ensures
        sum_by(s.update(i, x), f) == sum_by(s, f) - f(s[i]) + f(x),
{
    let t = s.update(i, x);
    lemma_sum_split(s, i, f);
    lemma_sum_split(t, i, f);
    assert(t.take(i) =~= s.take(i));
    assert(s.skip(i) =~= seq![s[i]] + s.skip(i + 1));
    assert(t.skip(i) =~= seq![x] + s.skip(i + 1));
    lemma_sum_concat(seq![s[i]], s.skip(i + 1), f);
    lemma_sum_concat(seq![x], s.skip(i + 1), f);
    lemma_sum_single(s[i], f);
    lemma_sum_single(x, f);
}

/// Removing one element subtracts its weight.
pub proof fn lemma_sum_remove<T>(s: Seq<T>, i: int, f: spec_fn(T) -> int)
    requires
        0 <= i < s.len(),
    ensures
        sum_by(s.remove(i), f) == sum_by(s, f) - f(s[i]),
{
    lemma_sum_split(s, i, f);
    assert(s.skip(i) =~= seq![s[i]] + s.skip(i + 1));
    lemma_sum_concat(seq![s[i]], s.skip(i + 1), f);
    lemma_sum_single(s[i], f);
    assert(s.remove(i) =~= s.take(i) + s.skip(i + 1));
    lemma_sum_concat(s.take(i), s.skip(i + 1), f);
}

/// With weights that are never negative, no sum is negative.
pub proof fn lemma_sum_nonneg<T>(s: Seq<T>, f: spec_fn(T) -> int)
    requires
        forall|x: T| #[trigger] f(x) >= 0,
    ensures
        sum_by(s, f) >= 0,
    decreases s.len(),
{
    if s.len() > 0 {
        lemma_sum_nonneg(s.drop_last(), f);
    }
}

/// With weights that are never negative, one element weighs at most the whole sum.
pub proof fn lemma_sum_ge_element<T>(s: Seq<T>, i: int, f: spec_fn(T) -> int)
    requires
        forall|x: T| #[trigger] f(x) >= 0,
        0 <= i < s.len(),
    ensures
        f(s[i]) <= sum_by(s, f),
{
    lemma_sum_remove(s, i, f);
    lemma_sum_nonneg(s.remove(i), f);
}

} // verus!
