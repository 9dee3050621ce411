//! The token budget: summing per-message token counts and answering whether
//! a conversation fits within a context limit.

use vstd::prelude::*;

verus! {

/// The total of a sequence of per-message token counts, as a mathematical
/// integer.
pub open spec fn sum_tokens(t: Seq<usize>) -> int
    decreases t.len(),
{
    if t.len() == 0 {
        0
    } else {
        sum_tokens(t.drop_last()) + t.last()
    }
}

/// Every token count is non-negative, so a total never is.
pub proof fn lemma_sum_tokens_nonneg(t: Seq<usize>)
    ensures
        sum_tokens(t) >= 0,
    decreases t.len(),
{
    if t.len() > 0 {
        lemma_sum_tokens_nonneg(t.drop_last());
    }
}

/// Summing one more count extends the total.
pub proof fn lemma_sum_tokens_push(t: Seq<usize>, x: usize)
    ensures
        sum_tokens(t.push(x)) == sum_tokens(t) + x,
{
    assert(t.push(x).drop_last() =~= t);
}

/// Each count is bounded by the total of any prefix that contains it.
pub proof fn lemma_sum_tokens_element_bound(t: Seq<usize>, i: int)
    requires
        0 <= i < t.len(),
    ensures
        t[i] <= sum_tokens(t),
    decreases t.len(),
{
    lemma_sum_tokens_nonneg(t.drop_last());
    if i < t.len() - 1 {
        lemma_sum_tokens_element_bound(t.drop_last(), i);
    }
}

/// Total token count of a conversation's parallel count sequence.
pub fn total_tokens(token_counts: &Vec<usize>) -> (total: usize)
    requires
        sum_tokens(token_counts@) <= usize::MAX,
    ensures
        total == sum_tokens(token_counts@),
{
    let mut total: usize = 0;
    let mut i: usize = 0;
    while i < token_counts.len()
        invariant
            0 <= i <= token_counts@.len(),
            total == sum_tokens(token_counts@.subrange(0, i as int)),
            sum_tokens(token_counts@) <= usize::MAX,
        decreases token_counts@.len() - i,
    {
        proof {
            assert(token_counts@.subrange(0, i + 1).drop_last() =~= token_counts@.subrange(
                0,
                i as int,
            ));
            lemma_sum_tokens_prefix_bound(token_counts@, i + 1);
        }
        total = total + token_counts[i];
        i = i + 1;
    }
    proof {
        assert(token_counts@.subrange(0, token_counts@.len() as int) =~= token_counts@);
    }
    total
}

/// A prefix never sums to more than the whole sequence.
pub proof fn lemma_sum_tokens_prefix_bound(t: Seq<usize>, n: int)
    requires
        0 <= n <= t.len(),
    ensures
        sum_tokens(t.subrange(0, n)) <= sum_tokens(t),
    decreases t.len() - n,
{
    if n == t.len() {
        assert(t.subrange(0, n) =~= t);
    } else {
        assert(t.subrange(0, n + 1).drop_last() =~= t.subrange(0, n));
        lemma_sum_tokens_prefix_bound(t, n + 1);
    }
}

/// Whether a conversation with the given per-message counts fits within the
/// limit.
pub fn fits_within(token_counts: &Vec<usize>, context_limit: usize) -> (r: bool)
    requires
        sum_tokens(token_counts@) <= usize::MAX,
    ensures
        r == (sum_tokens(token_counts@) <= context_limit),
{
    let total = total_tokens(token_counts);
    total <= context_limit
}

} // verus!
