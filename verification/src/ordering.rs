//! Stable sorting, specified and verified once for every ordering the
//! commands use.
//!
//! A sort key is a relation `leq`; any relation that is total and transitive
//! (a total preorder) can drive the sort. `stable_sort_by` is the
//! specification: a left-to-right insertion sort that places each element
//! after every element `leq` it, so elements that compare equal keep their
//! original order. `sort_with` is the executable sort, proved to return
//! exactly `stable_sort_by` of its input.

use vstd::multiset::Multiset;
use vstd::prelude::*;
use vstd::relations::sorted_by;

verus! {

/// A relation fit to sort by: any two elements compare, and `leq` chains
/// compose.
pub open spec fn total_preorder<T>(leq: spec_fn(T, T) -> bool) -> bool {
    &&& forall|a: T, b: T| #[trigger] leq(a, b) || #[trigger] leq(b, a)
    &&& forall|a: T, b: T, c: T| #[trigger] leq(a, b) && #[trigger] leq(b, c) ==> leq(a, c)
}

/// The elements that compare equal to `x` under `leq`.
pub open spec fn equiv_class<T>(leq: spec_fn(T, T) -> bool, x: T) -> spec_fn(T) -> bool {
    |e: T| leq(e, x) && leq(x, e)
}

/// `x` placed after every element of `s` that is `leq` it: scanning from the
/// right, `x` moves past exactly the elements strictly above it.
pub open spec fn insert_sorted<T>(s: Seq<T>, x: T, leq: spec_fn(T, T) -> bool) -> Seq<T>
    decreases s.len(),
{
    if s.len() == 0 {
        seq![x]
    } else if leq(s.last(), x) {
        s.push(x)
    } else {
        insert_sorted(s.drop_last(), x, leq).push(s.last())
    }
}

/// Insertion sort, left to right; the specification of every sort in this
/// crate.
pub open spec fn stable_sort_by<T>(s: Seq<T>, leq: spec_fn(T, T) -> bool) -> Seq<T>
    decreases s.len(),
{
    if s.len() == 0 {
        Seq::empty()
    } else {
        insert_sorted(stable_sort_by(s.drop_last(), leq), s.last(), leq)
    }
}

pub broadcast proof fn lemma_insert_sorted_len<T>(s: Seq<T>, x: T, leq: spec_fn(T, T) -> bool)
    ensures
        #[trigger] insert_sorted(s, x, leq).len() == s.len() + 1,
    decreases s.len(),
{
    if s.len() > 0 && !leq(s.last(), x) {
        lemma_insert_sorted_len(s.drop_last(), x, leq);
    }
}

proof fn lemma_insert_sorted_multiset<T>(s: Seq<T>, x: T, leq: spec_fn(T, T) -> bool)
    ensures
        insert_sorted(s, x, leq).to_multiset() == s.to_multiset().insert(x),
    decreases s.len(),
{
    broadcast use vstd::seq_lib::group_to_multiset_ensures;

    if s.len() == 0 {
        assert(insert_sorted(s, x, leq) == seq![x]);
        assert(seq![x] == Seq::<T>::empty().push(x));
        assert(s.to_multiset() =~= Multiset::<T>::empty());
        assert(insert_sorted(s, x, leq).to_multiset() =~= s.to_multiset().insert(x));
    } else if leq(s.last(), x) {
        assert(insert_sorted(s, x, leq).to_multiset() =~= s.to_multiset().insert(x));
    } else {
        lemma_insert_sorted_multiset(s.drop_last(), x, leq);
        assert(s == s.drop_last().push(s.last()));
        assert(s.to_multiset() == s.drop_last().to_multiset().insert(s.last()));
        assert(insert_sorted(s, x, leq).to_multiset() == insert_sorted(s.drop_last(), x, leq)
            .to_multiset().insert(s.last()));
        assert(insert_sorted(s, x, leq).to_multiset() =~= s.to_multiset().insert(x));
    }
}

proof fn lemma_insert_sorted_sorted<T>(s: Seq<T>, x: T, leq: spec_fn(T, T) -> bool)
    requires
        total_preorder(leq),
        sorted_by(s, leq),
    ensures
        sorted_by(insert_sorted(s, x, leq), leq),
    decreases s.len(),
{
    broadcast use lemma_insert_sorted_len;

    if s.len() == 0 {
    } else if leq(s.last(), x) {
        let out = s.push(x);
        assert forall|i: int, j: int| 0 <= i < j < out.len() implies leq(out[i], out[j]) by {
            if j == out.len() - 1 && i < s.len() - 1 {
                assert(leq(s[i], s[s.len() - 1]));
            }
        }
    } else {
        // s.last() is strictly above x, so x sinks into the prefix.
        let dl = s.drop_last();
        assert(sorted_by(dl, leq)) by {
            assert forall|i: int, j: int| 0 <= i < j < dl.len() implies leq(dl[i], dl[j]) by {
                assert(leq(s[i], s[j]));
            }
        }
        lemma_insert_sorted_sorted(dl, x, leq);
        let inner = insert_sorted(dl, x, leq);
        let out = inner.push(s.last());
        lemma_insert_sorted_multiset(dl, x, leq);
        broadcast use vstd::seq_lib::group_to_multiset_ensures;

        // Every element of the inner sequence is leq the pushed last element.
        assert forall|i: int, j: int| 0 <= i < j < out.len() implies leq(out[i], out[j]) by {
            if j == out.len() - 1 {
                assert(inner.to_multiset().contains(inner[i]));
                assert(dl.to_multiset().insert(x).contains(inner[i]));
                if inner[i] == x {
                    // x is below s.last() because leq(s.last(), x) failed and leq is total.
                    assert(leq(x, s.last()));
                } else {
                    assert(dl.to_multiset().contains(inner[i]));
                    assert(dl.contains(inner[i]));
                    let k = choose|k: int| 0 <= k < dl.len() && dl[k] == inner[i];
                    assert(leq(s[k], s[s.len() - 1]));
                }
            }
        }
    }
}

/// Inserting an element below `x`'s class, or above it, does not disturb the
/// class; inserting a member of the class appends it to the class.
proof fn lemma_insert_sorted_filter<T>(
    s: Seq<T>,
    x: T,
    leq: spec_fn(T, T) -> bool,
    p: spec_fn(T) -> bool,
)
    requires
        total_preorder(leq),
        p(x) ==> forall|e: T| #[trigger] p(e) ==> leq(e, x),
    ensures
        insert_sorted(s, x, leq).filter(p) == if p(x) {
            s.filter(p).push(x)
        } else {
            s.filter(p)
        },
    decreases s.len(),
{
    reveal(Seq::filter);
    if s.len() == 0 {
        assert(insert_sorted(s, x, leq) == seq![x]);
        assert(seq![x].drop_last() =~= Seq::<T>::empty());
        assert(seq![x].last() == x);
        assert(s.filter(p) =~= Seq::<T>::empty());
    } else if leq(s.last(), x) {
        let out = s.push(x);
        assert(out.drop_last() =~= s);
        assert(out.last() == x);
    } else {
        let dl = s.drop_last();
        lemma_insert_sorted_filter(dl, x, leq, p);
        let inner = insert_sorted(dl, x, leq);
        let out = inner.push(s.last());
        assert(out.drop_last() =~= inner);
        assert(out.last() == s.last());
        assert(s == dl.push(s.last()));
        assert(s.drop_last() == dl);
        if p(s.last()) {
            // s.last() cannot be in x's class: the class sits at or below x,
            // but leq(s.last(), x) failed.
            if p(x) {
                assert(leq(s.last(), x));
                assert(false);
            }
            assert(out.filter(p) == inner.filter(p).push(s.last()));
            assert(s.filter(p) == dl.filter(p).push(s.last()));
        } else {
            assert(out.filter(p) == inner.filter(p));
            assert(s.filter(p) == dl.filter(p));
        }
    }
}

/// The laws of `stable_sort_by`, for any total preorder `leq`: the result is
/// ordered by `leq`, holds exactly the elements of the input, and keeps the
/// input's order within every class of elements that compare equal. This is
/// what "stable and total" means for every sort key of the `repos` command
/// and for each of the other sorted outputs.
pub proof fn lemma_stable_sort_by_ensures<T>(s: Seq<T>, leq: spec_fn(T, T) -> bool)
    requires
        total_preorder(leq),
    ensures
        sorted_by(stable_sort_by(s, leq), leq),
        stable_sort_by(s, leq).to_multiset() == s.to_multiset(),
        forall|x: T|
            #[trigger] stable_sort_by(s, leq).filter(equiv_class(leq, x)) == s.filter(
                equiv_class(leq, x),
            ),
    decreases s.len(),
{
    reveal(Seq::filter);
    if s.len() == 0 {
        broadcast use vstd::seq_lib::group_to_multiset_ensures;

        assert(stable_sort_by(s, leq).to_multiset() =~= s.to_multiset());
        assert forall|x: T|
            #[trigger] stable_sort_by(s, leq).filter(equiv_class(leq, x)) == s.filter(
                equiv_class(leq, x),
            ) by {
            assert(stable_sort_by(s, leq) == s);
        }
    } else {
        let dl = s.drop_last();
        lemma_stable_sort_by_ensures(dl, leq);
        let sorted_dl = stable_sort_by(dl, leq);
        lemma_insert_sorted_sorted(sorted_dl, s.last(), leq);
        lemma_insert_sorted_multiset(sorted_dl, s.last(), leq);
        broadcast use vstd::seq_lib::group_to_multiset_ensures;

        assert(s == dl.push(s.last()));
        assert(s.to_multiset() == dl.to_multiset().insert(s.last()));
        assert forall|x: T|
            #[trigger] stable_sort_by(s, leq).filter(equiv_class(leq, x)) == s.filter(
                equiv_class(leq, x),
            ) by {
            let p = equiv_class(leq, x);
            assert(p(s.last()) ==> forall|e: T| #[trigger] p(e) ==> leq(e, s.last()));
            lemma_insert_sorted_filter(sorted_dl, s.last(), leq, p);
            assert(s.drop_last() == dl);
            assert(s.filter(p) == if p(s.last()) {
                dl.filter(p).push(s.last())
            } else {
                dl.filter(p)
            });
        }
    }
}

/// Mapping a function over the sort commutes with sorting by the transported
/// relation. Lets a contract over views follow from a sort over values.
pub proof fn lemma_stable_sort_by_map<T, V>(
    s: Seq<T>,
    f: spec_fn(T) -> V,
    leq: spec_fn(T, T) -> bool,
    leq_v: spec_fn(V, V) -> bool,
)
    requires
        forall|a: T, b: T| #[trigger] leq(a, b) == leq_v(f(a), f(b)),
    ensures
        stable_sort_by(s, leq).map_values(f) == stable_sort_by(s.map_values(f), leq_v),
    decreases s.len(),
{
    if s.len() == 0 {
        assert(stable_sort_by(s, leq).map_values(f) =~= stable_sort_by(s.map_values(f), leq_v));
    } else {
        let dl = s.drop_last();
        lemma_stable_sort_by_map(dl, f, leq, leq_v);
        assert(dl.map_values(f) =~= s.map_values(f).drop_last());
        assert(f(s.last()) == s.map_values(f).last());
        lemma_insert_sorted_map(stable_sort_by(dl, leq), s.last(), f, leq, leq_v);
        assert(s.map_values(f).len() > 0);
    }
}

proof fn lemma_insert_sorted_map<T, V>(
    s: Seq<T>,
    x: T,
    f: spec_fn(T) -> V,
    leq: spec_fn(T, T) -> bool,
    leq_v: spec_fn(V, V) -> bool,
)
    requires
        forall|a: T, b: T| #[trigger] leq(a, b) == leq_v(f(a), f(b)),
    ensures
        insert_sorted(s, x, leq).map_values(f) == insert_sorted(s.map_values(f), f(x), leq_v),
    decreases s.len(),
{
    if s.len() == 0 {
        assert(insert_sorted(s, x, leq).map_values(f) =~= insert_sorted(
            s.map_values(f),
            f(x),
            leq_v,
        ));
    } else {
        let sv = s.map_values(f);
        assert(sv.len() == s.len());
        assert(sv.last() == f(s.last()));
        if leq(s.last(), x) {
            assert(insert_sorted(s, x, leq).map_values(f) =~= insert_sorted(sv, f(x), leq_v));
        } else {
            lemma_insert_sorted_map(s.drop_last(), x, f, leq, leq_v);
            assert(s.drop_last().map_values(f) =~= sv.drop_last());
            assert(insert_sorted(s, x, leq).map_values(f) =~= insert_sorted(sv, f(x), leq_v));
        }
    }
}

/// Where the scan of the executable sort stops is where the specification
/// puts the element.
proof fn lemma_insert_sorted_position<T>(
    s: Seq<T>,
    x: T,
    leq: spec_fn(T, T) -> bool,
    pos: int,
)
    requires
        0 <= pos <= s.len(),
        forall|j: int| pos <= j < s.len() ==> !leq(#[trigger] s[j], x),
        pos > 0 ==> leq(s[pos - 1], x),
    ensures
        insert_sorted(s, x, leq) == s.take(pos) + seq![x] + s.skip(pos),
    decreases s.len(),
{
    if s.len() == 0 {
        assert(insert_sorted(s, x, leq) =~= s.take(pos) + seq![x] + s.skip(pos));
    } else if pos == s.len() {
        assert(leq(s.last(), x));
        assert(insert_sorted(s, x, leq) =~= s.take(pos) + seq![x] + s.skip(pos));
    } else {
        assert(!leq(s.last(), x));
        lemma_insert_sorted_position(s.drop_last(), x, leq, pos);
        assert(insert_sorted(s, x, leq) =~= s.take(pos) + seq![x] + s.skip(pos));
    }
}

/// Sorts `v` into exactly `stable_sort_by(old(v)@, leq)`, deciding with the
/// executable comparison `le`, which must agree with `leq`.
pub(crate) fn sort_with<T, F: Fn(&T, &T) -> bool>(
    v: &mut Vec<T>,
    le: F,
    Ghost(leq): Ghost<spec_fn(T, T) -> bool>,
)
    requires
        forall|a: &T, b: &T| #[trigger] le.requires((a, b)),
        forall|a: &T, b: &T, r: bool| #[trigger] le.ensures((a, b), r) ==> r == leq(*a, *b),
    ensures
        final(v)@ == stable_sort_by(old(v)@, leq),
{
    let ghost orig: Seq<T> = v@;
    let mut out: Vec<T> = Vec::new();
    while v.len() > 0
        invariant
            v@ == orig.skip(orig.len() - v@.len()),
            v@.len() <= orig.len(),
            out@ == stable_sort_by(orig.take(orig.len() - v@.len()), leq),
            forall|a: &T, b: &T| #[trigger] le.requires((a, b)),
            forall|a: &T, b: &T, r: bool| #[trigger] le.ensures((a, b), r) ==> r == leq(*a, *b),
        decreases v@.len(),
    {
        let ghost done: int = orig.len() - v@.len();
        let x = v.remove(0);
        proof {
            assert(x == orig[done]);
            assert(v@ =~= orig.skip(done + 1));
        }
        let ghost sorted_pre: Seq<T> = out@;
        let mut pos: usize = out.len();
        while pos > 0 && !le(&out[pos - 1], &x)
            invariant
                pos <= out.len(),
                out@ == sorted_pre,
                forall|j: int| pos <= j < out@.len() ==> !leq(#[trigger] out@[j], x),
                forall|a: &T, b: &T| #[trigger] le.requires((a, b)),
                forall|a: &T, b: &T, r: bool| #[trigger] le.ensures((a, b), r) ==> r == leq(
                    *a,
                    *b,
                ),
            decreases pos,
        {
            pos = pos - 1;
        }
        proof {
            lemma_insert_sorted_position(sorted_pre, x, leq, pos as int);
        }
        out.insert(pos, x);
        proof {
            assert(out@ =~= sorted_pre.take(pos as int) + seq![x] + sorted_pre.skip(pos as int));
            let prefix = orig.take(done + 1);
            assert(prefix.drop_last() =~= orig.take(done));
            assert(prefix.last() == orig[done]);
            assert(out@ == insert_sorted(stable_sort_by(orig.take(done), leq), x, leq));
        }
    }
    proof {
        assert(orig.take(orig.len() as int) =~= orig);
    }
    *v = out;
}

} // verus!
