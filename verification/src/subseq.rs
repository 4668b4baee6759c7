//! Subsequences: what is left of a sequence when some of its elements are
//! taken out and the others stay in order, as a function of the positions
//! kept and as a relation between two sequences.

use vstd::prelude::*;

verus! {

/// The elements of `s` at the positions that `keep` accepts, in order.
pub open spec fn keep_where<A>(s: Seq<A>, keep: spec_fn(int) -> bool) -> Seq<A>
    decreases s.len(),
{
    if s.len() == 0 {
        Seq::empty()
    } else {
        let front = keep_where(s.drop_last(), keep);
        if keep(s.len() - 1) {
            front.push(s.last())
        } else {
            front
        }
    }
}

/// `keep_where` looks at `keep` only on the positions of `s`.
pub proof fn lemma_keep_where_agree<A>(
    s: Seq<A>,
    keep1: spec_fn(int) -> bool,
    keep2: spec_fn(int) -> bool,
)
    requires
        forall|i: int| 0 <= i < s.len() ==> #[trigger] keep1(i) == keep2(i),
    ensures
        keep_where(s, keep1) == keep_where(s, keep2),
    decreases s.len(),
{
    if s.len() > 0 {
        lemma_keep_where_agree(s.drop_last(), keep1, keep2);
    }
}

/// What `keep_where` returns is no longer than what it was given, and as
/// long only if it is the same.
pub proof fn lemma_keep_where_len<A>(s: Seq<A>, keep: spec_fn(int) -> bool)
    ensures
        keep_where(s, keep).len() <= s.len(),
        keep_where(s, keep).len() == s.len() ==> keep_where(s, keep) == s,
    decreases s.len(),
{
    if s.len() > 0 {
        lemma_keep_where_len(s.drop_last(), keep);
        if keep(s.len() - 1) {
            if keep_where(s.drop_last(), keep) == s.drop_last() {
                assert(s.drop_last().push(s.last()) =~= s);
            }
        }
    } else {
        assert(keep_where(s, keep) =~= s);
    }
}

/// Filtering by what was kept anyway undoes nothing: where every element
/// that `pred` accepts is kept, the kept ones that `pred` accepts are those
/// of the whole sequence.
pub proof fn lemma_keep_where_filter<A>(
    s: Seq<A>,
    keep: spec_fn(int) -> bool,
    pred: spec_fn(A) -> bool,
)
    requires
        forall|i: int| 0 <= i < s.len() && pred(s[i]) ==> #[trigger] keep(i),
    ensures
        keep_where(s, keep).filter(pred) == s.filter(pred),
    decreases s.len(),
{
    reveal(Seq::filter);
    if s.len() > 0 {
        let front = keep_where(s.drop_last(), keep);
        lemma_keep_where_filter(s.drop_last(), keep, pred);
        if keep(s.len() - 1) {
            assert(front.push(s.last()).drop_last() =~= front);
        } else {
            assert(!pred(s[s.len() - 1]));
        }
    }
}

/// Where a kept element came from: a position of `s` that leaves room
/// behind it for the kept elements that follow.
pub proof fn lemma_keep_where_origin<A>(s: Seq<A>, keep: spec_fn(int) -> bool, i: int) -> (origin:
    int)
    requires
        0 <= i < keep_where(s, keep).len(),
    ensures
        0 <= origin < s.len(),
        keep_where(s, keep)[i] == s[origin],
        origin + (keep_where(s, keep).len() - i) <= s.len(),
    decreases s.len(),
{
    let front = keep_where(s.drop_last(), keep);
    if i < front.len() {
        lemma_keep_where_origin(s.drop_last(), keep, i)
    } else {
        s.len() - 1
    }
}

/// Whether `a` is `b` with some elements taken out: the elements of `a`
/// occur in `b`, in the same order.
pub open spec fn is_subsequence<A>(a: Seq<A>, b: Seq<A>) -> bool
    decreases b.len(),
{
    if a.len() == 0 {
        true
    } else if b.len() == 0 {
        false
    } else {
        (a.last() == b.last() && is_subsequence(a.drop_last(), b.drop_last())) || is_subsequence(
            a,
            b.drop_last(),
        )
    }
}

/// Every sequence is a subsequence of itself.
pub proof fn lemma_subsequence_refl<A>(s: Seq<A>)
    ensures
        is_subsequence(s, s),
    decreases s.len(),
{
    if s.len() > 0 {
        lemma_subsequence_refl(s.drop_last());
    }
}

/// A subsequence of a subsequence is a subsequence.
pub proof fn lemma_subsequence_trans<A>(a: Seq<A>, b: Seq<A>, c: Seq<A>)
    requires
        is_subsequence(a, b),
        is_subsequence(b, c),
    ensures
        is_subsequence(a, c),
    decreases c.len(),
{
    if a.len() > 0 {
        if is_subsequence(b, c.drop_last()) {
            lemma_subsequence_trans(a, b, c.drop_last());
        } else if a.last() == b.last() && is_subsequence(a.drop_last(), b.drop_last()) {
            lemma_subsequence_trans(a.drop_last(), b.drop_last(), c.drop_last());
        } else {
            lemma_subsequence_trans(a, b.drop_last(), c.drop_last());
        }
    }
}

/// Subsequences of two sequences, one after the other, make a subsequence
/// of the two sequences one after the other.
pub proof fn lemma_subsequence_concat<A>(a1: Seq<A>, b1: Seq<A>, a2: Seq<A>, b2: Seq<A>)
    requires
        is_subsequence(a1, b1),
        is_subsequence(a2, b2),
    ensures
        is_subsequence(a1 + a2, b1 + b2),
    decreases b2.len(),
{
    if a2.len() == 0 {
        assert(a1 + a2 =~= a1);
        if b2.len() == 0 {
            assert(b1 + b2 =~= b1);
        } else {
            lemma_subsequence_concat(a1, b1, a2, b2.drop_last());
            assert((b1 + b2).drop_last() =~= b1 + b2.drop_last());
            if a1.len() > 0 {
                assert(is_subsequence(a1 + a2, (b1 + b2).drop_last()));
            }
        }
    } else {
        assert((b1 + b2).drop_last() =~= b1 + b2.drop_last());
        assert((b1 + b2).last() == b2.last());
        if a2.last() == b2.last() && is_subsequence(a2.drop_last(), b2.drop_last()) {
            lemma_subsequence_concat(a1, b1, a2.drop_last(), b2.drop_last());
            assert((a1 + a2).drop_last() =~= a1 + a2.drop_last());
            assert((a1 + a2).last() == a2.last());
        } else {
            lemma_subsequence_concat(a1, b1, a2, b2.drop_last());
        }
    }
}

/// A subsequence stays one when the same function is applied to every
/// element of both sequences.
pub proof fn lemma_subsequence_map<A, B>(a: Seq<A>, b: Seq<A>, f: spec_fn(A) -> B)
    requires
        is_subsequence(a, b),
    ensures
        is_subsequence(a.map_values(f), b.map_values(f)),
    decreases b.len(),
{
    if a.len() > 0 {
        assert(b.map_values(f).drop_last() =~= b.drop_last().map_values(f));
        if a.last() == b.last() && is_subsequence(a.drop_last(), b.drop_last()) {
            lemma_subsequence_map(a.drop_last(), b.drop_last(), f);
            assert(a.map_values(f).drop_last() =~= a.drop_last().map_values(f));
        } else {
            lemma_subsequence_map(a, b.drop_last(), f);
        }
    }
}

/// What `keep_where` keeps is a subsequence of what it was given.
pub proof fn lemma_keep_where_is_subsequence<A>(s: Seq<A>, keep: spec_fn(int) -> bool)
    ensures
        is_subsequence(keep_where(s, keep), s),
    decreases s.len(),
{
    if s.len() > 0 {
        let front = keep_where(s.drop_last(), keep);
        lemma_keep_where_is_subsequence(s.drop_last(), keep);
        if keep(s.len() - 1) {
            assert(front.push(s.last()).drop_last() =~= front);
        }
    }
}

} // verus!
