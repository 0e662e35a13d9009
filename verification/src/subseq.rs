//! A subsequence relation on sequences, and how `Seq::filter` relates to it.

use vstd::prelude::*;

verus! {

/// `a` is a subsequence of `b`: `a` can be had from `b` by deleting
/// elements without reordering the ones that stay.
pub open spec fn subsequence_of<A>(a: Seq<A>, b: Seq<A>) -> bool
    decreases a.len() + b.len(),
{
    if a.len() == 0 {
        true
    } else if b.len() == 0 {
        false
    } else {
        ||| (a.last() == b.last() && subsequence_of(a.drop_last(), b.drop_last()))
        ||| subsequence_of(a, b.drop_last())
    }
}

/// A subsequence is no longer than the sequence it comes from.
pub proof fn lemma_subsequence_len<A>(a: Seq<A>, b: Seq<A>)
    requires
        subsequence_of(a, b),
    ensures
        a.len() <= b.len(),
    decreases a.len() + b.len(),
{
    if a.len() == 0 {
    } else {
        if a.last() == b.last() && subsequence_of(a.drop_last(), b.drop_last()) {
            lemma_subsequence_len(a.drop_last(), b.drop_last());
        } else {
            lemma_subsequence_len(a, b.drop_last());
        }
    }
}

/// Every element of a subsequence is an element of the sequence it comes
/// from.
pub proof fn lemma_subsequence_contains<A>(a: Seq<A>, b: Seq<A>, x: A)
    requires
        subsequence_of(a, b),
        a.contains(x),
    ensures
        b.contains(x),
    decreases a.len() + b.len(),
{
    if a.len() == 0 {
    } else {
        if a.last() == b.last() && subsequence_of(a.drop_last(), b.drop_last()) {
            if x == a.last() {
                assert(b[b.len() - 1] == x);
            } else {
                let i = choose|i: int| 0 <= i < a.len() && a[i] == x;
                assert(a.drop_last()[i] == x);
                lemma_subsequence_contains(a.drop_last(), b.drop_last(), x);
                let j = choose|j: int| 0 <= j < b.len() - 1 && b.drop_last()[j] == x;
                assert(b[j] == x);
            }
        } else {
            lemma_subsequence_contains(a, b.drop_last(), x);
            let j = choose|j: int| 0 <= j < b.len() - 1 && b.drop_last()[j] == x;
            assert(b[j] == x);
        }
    }
}

/// Filtering a sequence yields a subsequence of it.
pub proof fn lemma_filter_subsequence<A>(s: Seq<A>, p: spec_fn(A) -> bool)
    ensures
        subsequence_of(s.filter(p), s),
    decreases s.len(),
{
    reveal(Seq::filter);
    if s.len() == 0 {
    } else {
        lemma_filter_subsequence(s.drop_last(), p);
        if p(s.last()) {
            assert(s.filter(p).last() == s.last());
            assert(s.filter(p).drop_last() =~= s.drop_last().filter(p));
        }
    }
}

/// Filtering with a weaker predicate keeps everything a stronger one
/// keeps: the stricter filtering is a subsequence of the looser one.
pub proof fn lemma_filter_monotonic<A>(s: Seq<A>, p: spec_fn(A) -> bool, q: spec_fn(A) -> bool)
    requires
        forall|x: A| #[trigger] p(x) ==> q(x),
    ensures
        subsequence_of(s.filter(p), s.filter(q)),
    decreases s.len(),
{
    reveal(Seq::filter);
    if s.len() == 0 {
    } else {
        lemma_filter_monotonic(s.drop_last(), p, q);
        let fp0 = s.drop_last().filter(p);
        let fq0 = s.drop_last().filter(q);
        if p(s.last()) {
            assert(q(s.last()));
            assert(s.filter(p).last() == s.filter(q).last());
            assert(s.filter(p).drop_last() =~= fp0);
            assert(s.filter(q).drop_last() =~= fq0);
        } else if q(s.last()) {
            if s.filter(p).len() > 0 {
                assert(s.filter(q).drop_last() =~= fq0);
            }
        }
    }
}

/// Filtering with a predicate that holds everywhere changes nothing.
pub proof fn lemma_filter_all<A>(s: Seq<A>, p: spec_fn(A) -> bool)
    requires
        forall|x: A| #[trigger] p(x),
    ensures
        s.filter(p) == s,
    decreases s.len(),
{
    reveal(Seq::filter);
    if s.len() == 0 {
    } else {
        lemma_filter_all(s.drop_last(), p);
        assert(p(s.last()));
        assert(s.drop_last().push(s.last()) =~= s);
    }
}

} // verus!
