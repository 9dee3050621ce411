//! Index-based filtering of sequences: the survivors of a removal set, and
//! the facts about them that the truncator's proofs rest on.

use vstd::prelude::*;

use crate::budget::{lemma_sum_tokens_nonneg, sum_tokens};

verus! {

/// The elements of `s` whose indices lie in `[lo, hi)` and are not removed,
/// in order.
pub open spec fn filter_range<A>(s: Seq<A>, rem: spec_fn(int) -> bool, lo: int, hi: int) -> Seq<A>
    decreases hi - lo,
{
    if lo >= hi {
        Seq::empty()
    } else {
        (if rem(lo) {
            Seq::empty()
        } else {
            seq![s[lo]]
        }) + filter_range(s, rem, lo + 1, hi)
    }
}

/// The indices in `[lo, hi)` that are not removed, in ascending order.
pub open spec fn kept_in_range(rem: spec_fn(int) -> bool, lo: int, hi: int) -> Seq<int>
    decreases hi - lo,
{
    if lo >= hi {
        Seq::empty()
    } else {
        (if rem(lo) {
            Seq::empty()
        } else {
            seq![lo]
        }) + kept_in_range(rem, lo + 1, hi)
    }
}

/// Filtering splits at any midpoint.
pub proof fn lemma_filter_range_split<A>(
    s: Seq<A>,
    rem: spec_fn(int) -> bool,
    lo: int,
    m: int,
    hi: int,
)
    requires
        lo <= m <= hi,
    ensures
        filter_range(s, rem, lo, hi) == filter_range(s, rem, lo, m) + filter_range(s, rem, m, hi),
    decreases m - lo,
{
    if lo >= m {
        assert(filter_range(s, rem, lo, m) =~= Seq::empty());
        assert(filter_range(s, rem, lo, hi) =~= filter_range(s, rem, lo, m) + filter_range(
            s,
            rem,
            m,
            hi,
        ));
    } else {
        lemma_filter_range_split(s, rem, lo + 1, m, hi);
        assert(filter_range(s, rem, lo, hi) =~= filter_range(s, rem, lo, m) + filter_range(
            s,
            rem,
            m,
            hi,
        ));
    }
}

/// Filtering depends only on the removal predicate's values in the range.
pub proof fn lemma_filter_range_congruent<A>(
    s: Seq<A>,
    rem1: spec_fn(int) -> bool,
    rem2: spec_fn(int) -> bool,
    lo: int,
    hi: int,
)
    requires
        forall|i: int| lo <= i < hi ==> ((#[trigger] rem1(i)) <==> rem2(i)),
    ensures
        filter_range(s, rem1, lo, hi) == filter_range(s, rem2, lo, hi),
    decreases hi - lo,
{
    if lo < hi {
        lemma_filter_range_congruent(s, rem1, rem2, lo + 1, hi);
    }
}

/// A range from which nothing is removed filters to the corresponding
/// subrange.
pub proof fn lemma_filter_range_none<A>(s: Seq<A>, rem: spec_fn(int) -> bool, lo: int, hi: int)
    requires
        0 <= lo <= hi <= s.len(),
        forall|i: int| lo <= i < hi ==> !(#[trigger] rem(i)),
    ensures
        filter_range(s, rem, lo, hi) == s.subrange(lo, hi),
    decreases hi - lo,
{
    if lo >= hi {
        assert(filter_range(s, rem, lo, hi) =~= s.subrange(lo, hi));
    } else {
        lemma_filter_range_none(s, rem, lo + 1, hi);
        assert(filter_range(s, rem, lo, hi) =~= s.subrange(lo, hi));
    }
}

/// A range from which everything is removed filters to nothing.
pub proof fn lemma_filter_range_all<A>(s: Seq<A>, rem: spec_fn(int) -> bool, lo: int, hi: int)
    requires
        forall|i: int| lo <= i < hi ==> #[trigger] rem(i),
    ensures
        filter_range(s, rem, lo, hi) == Seq::<A>::empty(),
    decreases hi - lo,
{
    if lo < hi {
        lemma_filter_range_all(s, rem, lo + 1, hi);
        assert(filter_range(s, rem, lo, hi) =~= Seq::<A>::empty());
    } else {
        assert(filter_range(s, rem, lo, hi) =~= Seq::<A>::empty());
    }
}

/// Two equally long sequences filtered by the same removal set keep equally
/// many elements.
pub proof fn lemma_filter_range_len_eq<A, B>(
    a: Seq<A>,
    b: Seq<B>,
    rem: spec_fn(int) -> bool,
    lo: int,
    hi: int,
)
    ensures
        filter_range(a, rem, lo, hi).len() == filter_range(b, rem, lo, hi).len(),
    decreases hi - lo,
{
    if lo < hi {
        lemma_filter_range_len_eq(a, b, rem, lo + 1, hi);
    }
}

/// Filtering keeps at most the range's length.
pub proof fn lemma_filter_range_len_le<A>(s: Seq<A>, rem: spec_fn(int) -> bool, lo: int, hi: int)
    ensures
        filter_range(s, rem, lo, hi).len() <= if hi >= lo {
            hi - lo
        } else {
            0
        },
    decreases hi - lo,
{
    if lo < hi {
        lemma_filter_range_len_le(s, rem, lo + 1, hi);
    }
}

/// The kept token counts sum to no more than the whole range.
pub proof fn lemma_filter_range_sum_le(t: Seq<usize>, rem: spec_fn(int) -> bool, lo: int, hi: int)
    requires
        0 <= lo <= hi <= t.len(),
    ensures
        sum_tokens(filter_range(t, rem, lo, hi)) <= sum_tokens(t.subrange(lo, hi)),
    decreases hi - lo,
{
    if lo >= hi {
        assert(t.subrange(lo, hi) =~= Seq::empty());
    } else {
        lemma_filter_range_sum_le(t, rem, lo + 1, hi);
        lemma_sum_tokens_drop_first(t.subrange(lo, hi));
        assert(t.subrange(lo, hi).drop_first() =~= t.subrange(lo + 1, hi));
        if rem(lo) {
            lemma_sum_tokens_nonneg(seq![t[lo]]);
            assert(filter_range(t, rem, lo, hi) =~= filter_range(t, rem, lo + 1, hi));
        } else {
            lemma_sum_tokens_drop_first(filter_range(t, rem, lo, hi));
            assert(filter_range(t, rem, lo, hi).drop_first() =~= filter_range(t, rem, lo + 1, hi));
            assert(filter_range(t, rem, lo, hi)[0] == t[lo]);
        }
    }
}

/// Removing strictly more leaves a sum no larger.
pub proof fn lemma_filter_range_sum_mono(
    t: Seq<usize>,
    rem1: spec_fn(int) -> bool,
    rem2: spec_fn(int) -> bool,
    lo: int,
    hi: int,
)
    requires
        0 <= lo <= hi <= t.len(),
        forall|i: int| lo <= i < hi ==> ((#[trigger] rem2(i)) ==> rem1(i)),
    ensures
        sum_tokens(filter_range(t, rem1, lo, hi)) <= sum_tokens(filter_range(t, rem2, lo, hi)),
    decreases hi - lo,
{
    if lo < hi {
        lemma_filter_range_sum_mono(t, rem1, rem2, lo + 1, hi);
        if rem1(lo) {
            assert(filter_range(t, rem1, lo, hi) =~= filter_range(t, rem1, lo + 1, hi));
            if rem2(lo) {
                assert(filter_range(t, rem2, lo, hi) =~= filter_range(t, rem2, lo + 1, hi));
            } else {
                lemma_sum_tokens_drop_first(filter_range(t, rem2, lo, hi));
                assert(filter_range(t, rem2, lo, hi).drop_first() =~= filter_range(
                    t,
                    rem2,
                    lo + 1,
                    hi,
                ));
                assert(filter_range(t, rem2, lo, hi)[0] == t[lo]);
            }
        } else {
            assert(!rem2(lo));
            lemma_sum_tokens_drop_first(filter_range(t, rem1, lo, hi));
            lemma_sum_tokens_drop_first(filter_range(t, rem2, lo, hi));
            assert(filter_range(t, rem1, lo, hi).drop_first() =~= filter_range(t, rem1, lo + 1, hi));
            assert(filter_range(t, rem2, lo, hi).drop_first() =~= filter_range(t, rem2, lo + 1, hi));
            assert(filter_range(t, rem1, lo, hi)[0] == t[lo]);
            assert(filter_range(t, rem2, lo, hi)[0] == t[lo]);
        }
    }
}

/// The sum of a sequence decomposes at its first element.
pub proof fn lemma_sum_tokens_drop_first(t: Seq<usize>)
    requires
        t.len() > 0,
    ensures
        sum_tokens(t) == t[0] + sum_tokens(t.drop_first()),
    decreases t.len(),
{
    if t.len() == 1 {
        assert(t.drop_last() =~= Seq::empty());
        assert(t.drop_first() =~= Seq::empty());
    } else {
        lemma_sum_tokens_drop_first(t.drop_last());
        assert(t.drop_last().drop_first() =~= t.drop_first().drop_last());
        assert(t.drop_first().last() == t.last());
    }
}

/// Sums add over concatenation.
pub proof fn lemma_sum_tokens_add(a: Seq<usize>, b: Seq<usize>)
    ensures
        sum_tokens(a + b) == sum_tokens(a) + sum_tokens(b),
    decreases b.len(),
{
    if b.len() == 0 {
        assert(a + b =~= a);
    } else {
        lemma_sum_tokens_add(a, b.drop_last());
        assert((a + b).drop_last() =~= a + b.drop_last());
        assert((a + b).last() == b.last());
    }
}

/// Any subrange sums to no more than the whole.
pub proof fn lemma_sum_tokens_subrange_le(t: Seq<usize>, lo: int, hi: int)
    requires
        0 <= lo <= hi <= t.len(),
    ensures
        sum_tokens(t.subrange(lo, hi)) <= sum_tokens(t),
{
    assert(t =~= t.subrange(0, lo) + t.subrange(lo, hi) + t.subrange(hi, t.len() as int));
    lemma_sum_tokens_add(t.subrange(0, lo) + t.subrange(lo, hi), t.subrange(hi, t.len() as int));
    lemma_sum_tokens_add(t.subrange(0, lo), t.subrange(lo, hi));
    lemma_sum_tokens_nonneg(t.subrange(0, lo));
    lemma_sum_tokens_nonneg(t.subrange(hi, t.len() as int));
}

/// One step of carrying out a removal set from the back: when every index at
/// or below `x` is still present and `x` is the next to go, the element to
/// remove sits at position `x` of the current survivors.
pub proof fn lemma_filter_remove_step<A>(
    s: Seq<A>,
    rem1: spec_fn(int) -> bool,
    rem2: spec_fn(int) -> bool,
    x: int,
    n: int,
)
    requires
        0 <= x < n <= s.len(),
        forall|i: int| 0 <= i < n ==> ((#[trigger] rem2(i)) <==> (rem1(i) || i == x)),
        forall|i: int| 0 <= i <= x ==> !(#[trigger] rem1(i)),
    ensures
        filter_range(s, rem1, 0, n).len() > x,
        filter_range(s, rem1, 0, n)[x] == s[x],
        filter_range(s, rem1, 0, n).remove(x) == filter_range(s, rem2, 0, n),
{
    lemma_filter_range_split(s, rem1, 0, x + 1, n);
    lemma_filter_range_none(s, rem1, 0, x + 1);
    lemma_filter_range_split(s, rem2, 0, x, n);
    lemma_filter_range_split(s, rem2, x, x + 1, n);
    lemma_filter_range_none(s, rem2, 0, x);
    lemma_filter_range_all(s, rem2, x, x + 1);
    lemma_filter_range_congruent(s, rem1, rem2, x + 1, n);
    assert(filter_range(s, rem1, 0, n).remove(x) =~= filter_range(s, rem2, 0, n));
}

/// The kept indices are the positions in the range that the removal set
/// spares, and the filtered sequence reads its elements off them in order.
pub proof fn lemma_filter_is_select<A>(s: Seq<A>, rem: spec_fn(int) -> bool, lo: int, hi: int)
    requires
        0 <= lo,
        hi <= s.len(),
    ensures
        kept_in_range(rem, lo, hi).len() == filter_range(s, rem, lo, hi).len(),
        forall|p: int|
            0 <= p < kept_in_range(rem, lo, hi).len() ==> lo <= #[trigger] kept_in_range(
                rem,
                lo,
                hi,
            )[p] < hi,
        forall|p: int, q: int|
            0 <= p < q < kept_in_range(rem, lo, hi).len() ==> kept_in_range(rem, lo, hi)[p]
                < kept_in_range(rem, lo, hi)[q],
        forall|p: int|
            0 <= p < kept_in_range(rem, lo, hi).len() ==> !rem(
                #[trigger] kept_in_range(rem, lo, hi)[p],
            ),
        forall|p: int|
            0 <= p < kept_in_range(rem, lo, hi).len() ==> #[trigger] filter_range(s, rem, lo, hi)[p]
                == s[kept_in_range(rem, lo, hi)[p]],
        forall|i: int|
            lo <= i < hi && !rem(i) ==> #[trigger] kept_in_range(rem, lo, hi).contains(i),
    decreases hi - lo,
{
    if lo < hi {
        lemma_filter_is_select(s, rem, lo + 1, hi);
        assert forall|i: int| lo <= i < hi && !rem(i) implies #[trigger] kept_in_range(
            rem,
            lo,
            hi,
        ).contains(i) by {
            if i == lo {
                assert(kept_in_range(rem, lo, hi)[0] == lo);
            } else {
                assert(kept_in_range(rem, lo + 1, hi).contains(i));
                let p = choose|p: int|
                    0 <= p < kept_in_range(rem, lo + 1, hi).len() && #[trigger] kept_in_range(
                        rem,
                        lo + 1,
                        hi,
                    )[p] == i;
                let off: int = if rem(lo) {
                    0
                } else {
                    1
                };
                assert(kept_in_range(rem, lo, hi)[p + off] == i);
            }
        }
    }
}

} // verus!
