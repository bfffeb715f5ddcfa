//! Small helpers over sequences of viewable values.

use vstd::prelude::*;

verus! {

/// The views of a sequence of values, element by element.
pub open spec fn seq_view<T: View>(s: Seq<T>) -> Seq<T::V> {
    s.map_values(|t: T| t@)
}

/// The view of an optional value.
pub open spec fn opt_view<T: View>(o: Option<T>) -> Option<T::V> {
    match o {
        Some(t) => Some(t@),
        None => None,
    }
}

/// The first `n` elements, or all of them when fewer are there.
pub open spec fn take_up_to<T>(s: Seq<T>, n: int) -> Seq<T> {
    if s.len() <= n {
        s
    } else {
        s.take(n)
    }
}

/// A filtered sequence grows prefix by prefix: filtering a prefix yields a
/// prefix of the filtered whole.
pub proof fn lemma_filter_split<T>(s: Seq<T>, pred: spec_fn(T) -> bool, i: int)
    requires
        0 <= i <= s.len(),
    ensures
        s.filter(pred) == s.take(i).filter(pred) + s.skip(i).filter(pred),
{
    assert(s =~= s.take(i) + s.skip(i));
    Seq::<T>::filter_distributes_over_add(s.take(i), s.skip(i), pred);
}

/// Every element of a filtered sequence comes from the source and satisfies
/// the predicate.
pub proof fn lemma_filter_sources<T>(s: Seq<T>, pred: spec_fn(T) -> bool)
    ensures
        forall|j: int|
            0 <= j < s.filter(pred).len() ==> pred(#[trigger] s.filter(pred)[j]) && s.contains(
                s.filter(pred)[j],
            ),
    decreases s.len(),
{
    reveal(Seq::filter);
    broadcast use Seq::lemma_filter_len;

    if s.len() > 0 {
        lemma_filter_sources(s.drop_last(), pred);
        let out = s.filter(pred);
        assert forall|j: int| 0 <= j < out.len() implies pred(#[trigger] out[j]) && s.contains(
            out[j],
        ) by {
            let inner = s.drop_last().filter(pred);
            if j < inner.len() {
                assert(out[j] == inner[j]);
                assert(s.drop_last().contains(inner[j]));
                let k = choose|k: int|
                    0 <= k < s.drop_last().len() && s.drop_last()[k] == inner[j];
                assert(s[k] == inner[j]);
            } else {
                assert(pred(s.last()));
                assert(out[j] == s.last());
                assert(s[s.len() - 1] == s.last());
            }
        }
    }
}

/// Once a prefix already fills the cap, the tail contributes nothing.
pub proof fn lemma_take_up_to_saturated<T>(a: Seq<T>, b: Seq<T>, n: int)
    requires
        0 <= n <= a.len(),
    ensures
        take_up_to(a + b, n) == take_up_to(a, n),
{
    assert((a + b).take(n) =~= a.take(n));
    if a.len() == n && (a + b).len() <= n {
        assert(a + b =~= a);
    }
}

} // verus!
