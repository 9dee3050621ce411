//! The conversation truncator: given messages, parallel per-message token
//! counts, a context limit and a strategy, remove messages until the
//! conversation fits, keeping a well-formed head and tail and whole
//! tool-call/tool-response pairs.

use vstd::prelude::*;

use crate::budget::{lemma_sum_tokens_nonneg, sum_tokens, total_tokens};
use crate::filtering::{
    filter_range, lemma_filter_range_congruent, lemma_filter_range_len_eq,
    lemma_filter_range_split, lemma_filter_range_sum_le, lemma_filter_remove_step,
    lemma_sum_tokens_subrange_le,
};
use crate::message::{Message, Role};

verus! {

/// Why a truncation attempt failed.
#[derive(Clone, Copy, PartialEq, Eq, Structural, Debug)]
pub enum TruncationError {
    /// The messages and token counts differ in length.
    Shape,
    /// No user text-only message fits within the limit on its own, or none
    /// survives the head and tail fixup.
    Infeasible,
    /// The total still exceeds the limit after truncation.
    BudgetExceeded,
}

/// Some message is user text-only.
pub open spec fn has_user_text(m: Seq<Message>) -> bool {
    exists|i: int| 0 <= i < m.len() && (#[trigger] m[i]).is_user_text_only()
}

/// Some user text-only message alone fits within the limit; equivalently,
/// the least token count over such messages is at most the limit.
pub open spec fn feasible(m: Seq<Message>, t: Seq<usize>, limit: int) -> bool {
    exists|i: int|
        0 <= i < m.len() && i < t.len() && (#[trigger] m[i]).is_user_text_only() && t[i] <= limit
}

/// The index of the first user text-only message at or after `j`, or
/// `m.len()` if there is none.
pub open spec fn first_ut_from(m: Seq<Message>, j: int) -> int
    decreases m.len() - j,
{
    if j >= m.len() {
        m.len() as int
    } else if m[j].is_user_text_only() {
        j
    } else {
        first_ut_from(m, j + 1)
    }
}

/// The index of the last user text-only message, or `-1` if there is none.
pub open spec fn last_ut(m: Seq<Message>) -> int
    decreases m.len(),
{
    if m.len() == 0 {
        -1
    } else if m.last().is_user_text_only() {
        m.len() - 1
    } else {
        last_ut(m.drop_last())
    }
}

pub proof fn lemma_last_ut_props(m: Seq<Message>)
    ensures
        -1 <= last_ut(m) < m.len(),
        last_ut(m) >= 0 ==> m[last_ut(m)].is_user_text_only(),
        forall|p: int| last_ut(m) < p < m.len() ==> !(#[trigger] m[p]).is_user_text_only(),
        (last_ut(m) >= 0) <==> has_user_text(m),
    decreases m.len(),
{
    if m.len() == 0 {
    } else if m.last().is_user_text_only() {
    } else {
        lemma_last_ut_props(m.drop_last());
        assert(forall|p: int| 0 <= p < m.len() - 1 ==> m[p] == #[trigger] m.drop_last()[p]);
        assert forall|p: int| last_ut(m) < p < m.len() implies !(
        #[trigger] m[p]).is_user_text_only() by {
            if p < m.len() - 1 {
                assert(m.drop_last()[p] == m[p]);
                assert(!m.drop_last()[p].is_user_text_only());
            }
        }
        if last_ut(m) >= 0 {
            assert(m.drop_last()[last_ut(m)] == m[last_ut(m)]);
        }
        assert((last_ut(m) >= 0) <==> has_user_text(m)) by {
            if has_user_text(m) {
                let w = choose|w: int| 0 <= w < m.len() && (#[trigger] m[w]).is_user_text_only();
                assert(w != m.len() - 1);
                assert(m.drop_last()[w].is_user_text_only());
                assert(has_user_text(m.drop_last()));
            }
            if last_ut(m) >= 0 {
                assert(has_user_text(m.drop_last()));
                let w = choose|w: int|
                    0 <= w < m.drop_last().len() && (#[trigger] m.drop_last()[w]).is_user_text_only();
                assert(m[w].is_user_text_only());
            }
        }
    }
}

pub proof fn lemma_first_ut_from_props(m: Seq<Message>, j: int)
    requires
        0 <= j <= m.len(),
    ensures
        j <= first_ut_from(m, j) <= m.len(),
        first_ut_from(m, j) < m.len() ==> m[first_ut_from(m, j)].is_user_text_only(),
        forall|p: int| j <= p < first_ut_from(m, j) ==> !(#[trigger] m[p]).is_user_text_only(),
    decreases m.len() - j,
{
    if j < m.len() && !m[j].is_user_text_only() {
        lemma_first_ut_from_props(m, j + 1);
    }
}

/// What truncation does, as a function of the inputs and a removal set:
/// the result, the messages after the call, and the token counts after the
/// call. Mirrors the procedure: a shape check, a feasibility check, an early
/// exit when the total already fits, and otherwise removal followed by tail
/// and head fixup and a final budget check.
pub open spec fn spec_truncate(
    m: Seq<Message>,
    t: Seq<usize>,
    limit: int,
    rem: spec_fn(int) -> bool,
) -> (Result<(), TruncationError>, Seq<Message>, Seq<usize>) {
    if m.len() != t.len() {
        (Err(TruncationError::Shape), m, t)
    } else if !feasible(m, t, limit) {
        (Err(TruncationError::Infeasible), m, t)
    } else if sum_tokens(t) <= limit {
        (Ok(()), m, t)
    } else {
        let km = filter_range(m, rem, 0, m.len() as int);
        let kt = filter_range(t, rem, 0, t.len() as int);
        if !has_user_text(km) {
            (Err(TruncationError::Infeasible), Seq::empty(), Seq::empty())
        } else {
            let lo = first_ut_from(km, 0);
            let hi = last_ut(km);
            let fm = km.subrange(lo, hi + 1);
            let ft = kt.subrange(lo, hi + 1);
            if sum_tokens(ft) <= limit {
                (Ok(()), fm, ft)
            } else {
                (Err(TruncationError::BudgetExceeded), fm, ft)
            }
        }
    }
}

/// Truncation only reads the removal set on the conversation's indices.
pub proof fn lemma_spec_truncate_congruent(
    m: Seq<Message>,
    t: Seq<usize>,
    limit: int,
    rem1: spec_fn(int) -> bool,
    rem2: spec_fn(int) -> bool,
)
    requires
        forall|i: int| 0 <= i < m.len() ==> ((#[trigger] rem1(i)) <==> rem2(i)),
    ensures
        spec_truncate(m, t, limit, rem1) == spec_truncate(m, t, limit, rem2),
{
    if m.len() == t.len() && feasible(m, t, limit) && sum_tokens(t) > limit {
        lemma_filter_range_congruent(m, rem1, rem2, 0, m.len() as int);
        lemma_filter_range_congruent(t, rem1, rem2, 0, t.len() as int);
    }
}

/// Truncation never increases the token total.
pub proof fn lemma_spec_truncate_sum_le(
    m: Seq<Message>,
    t: Seq<usize>,
    limit: int,
    rem: spec_fn(int) -> bool,
)
    requires
        m.len() == t.len(),
    ensures
        sum_tokens(spec_truncate(m, t, limit, rem).2) <= sum_tokens(t),
        spec_truncate(m, t, limit, rem).1.len() == spec_truncate(m, t, limit, rem).2.len(),
{
    let n = t.len() as int;
    let km = filter_range(m, rem, 0, n);
    let kt = filter_range(t, rem, 0, n);
    lemma_filter_range_len_eq(m, t, rem, 0, n);
    lemma_sum_tokens_nonneg(t);
    if feasible(m, t, limit) && sum_tokens(t) > limit {
        lemma_filter_range_sum_le(t, rem, 0, n);
        assert(t.subrange(0, n) =~= t);
        if has_user_text(km) {
            let lo = first_ut_from(km, 0);
            let hi = last_ut(km);
            lemma_last_ut_props(km);
            lemma_first_ut_from_props(km, 0);
            assert(lo <= hi) by {
                if lo > hi {
                    assert(!km[hi].is_user_text_only());
                }
            }
            lemma_sum_tokens_subrange_le(kt, lo, hi + 1);
        }
    }
}

/// A strategy's removal set, as a predicate on indices.
pub open spec fn strategy_rem<S: TruncationStrategy>(
    s: S,
    m: Seq<Message>,
    t: Seq<usize>,
    limit: int,
) -> spec_fn(int) -> bool {
    |i: int| s.spec_removes(m, t, limit, i)
}

/// Membership of an index in the tail `r[from..]` of a removal list.
pub open spec fn removes_listed(r: Seq<usize>, from: int, i: int) -> bool {
    exists|q: int| from <= q < r.len() && (#[trigger] r[q]) as int == i
}

/// The removal set named by the tail `r[from..]` of a removal list.
pub open spec fn listed_rem(r: Seq<usize>, from: int) -> spec_fn(int) -> bool {
    |i: int| removes_listed(r, from, i)
}

/// A policy choosing which message indices to drop when a conversation must
/// shrink. The returned list is ascending and duplicate-free; dropping
/// exactly the listed indices brings the kept token counts within the limit;
/// and the set is closed over tool pairing: when it contains a message with
/// some tool id, it contains every message with that tool id.
pub trait TruncationStrategy: Sized {
    /// Which indices the strategy removes, given the conversation, the
    /// parallel token counts, and the limit.
    spec fn spec_removes(
        &self,
        messages: Seq<Message>,
        token_counts: Seq<usize>,
        context_limit: int,
        i: int,
    ) -> bool;

    /// The indices to remove, in ascending order.
    fn determine_indices_to_remove(
        &self,
        messages: &Vec<Message>,
        token_counts: &Vec<usize>,
        context_limit: usize,
    ) -> (r: Vec<usize>)
        requires
            messages@.len() == token_counts@.len(),
            sum_tokens(token_counts@) <= usize::MAX,
        ensures
            forall|a: int, b: int| 0 <= a < b < r@.len() ==> r@[a] < r@[b],
            forall|a: int| 0 <= a < r@.len() ==> (#[trigger] r@[a]) < messages@.len(),
            forall|i: int|
                0 <= i < messages@.len() ==> ((#[trigger] self.spec_removes(
                    messages@,
                    token_counts@,
                    context_limit as int,
                    i,
                )) <==> r@.contains(i as usize)),
            sum_tokens(
                filter_range(token_counts@, listed_rem(r@, 0), 0, token_counts@.len() as int),
            ) <= context_limit,
            forall|i: int, j: int|
                0 <= i < messages@.len() && 0 <= j < messages@.len() && #[trigger] self.spec_removes(
                    messages@,
                    token_counts@,
                    context_limit as int,
                    i,
                ) && messages@[i].spec_tool_id() is Some && messages@[i].spec_tool_id()
                    == messages@[j].spec_tool_id() ==> #[trigger] self.spec_removes(
                    messages@,
                    token_counts@,
                    context_limit as int,
                    j,
                ),
    ;
}

/// Truncates the conversation in place to fit within the context limit.
///
/// The messages and counts are parallel sequences; the procedure fails with
/// a shape error when their lengths differ, with an infeasible error when no
/// user text-only message could ever fit (or none survives the fixups), and
/// with a budget error when the survivors still exceed the limit. On an
/// early exit (the total already fits) nothing is changed.
#[verifier::loop_isolation(false)]
pub fn truncate_messages<S: TruncationStrategy>(
    messages: &mut Vec<Message>,
    token_counts: &mut Vec<usize>,
    context_limit: usize,
    strategy: &S,
) -> (result: Result<(), TruncationError>)
    requires
        sum_tokens(old(token_counts)@) <= usize::MAX,
    ensures
        ({
            let r = spec_truncate(
                old(messages)@,
                old(token_counts)@,
                context_limit as int,
                strategy_rem(*strategy, old(messages)@, old(token_counts)@, context_limit as int),
            );
            result == r.0 && final(messages)@ == r.1 && final(token_counts)@ == r.2
        }),
{
    let ghost m0 = messages@;
    let ghost t0 = token_counts@;
    let ghost lim = context_limit as int;
    let ghost rem = strategy_rem(*strategy, m0, t0, lim);

    let n = messages.len();
    if n != token_counts.len() {
        return Err(TruncationError::Shape);
    }

    // Feasibility: some user text-only message must fit the limit alone.
    let mut feasible_found = false;
    let mut i: usize = 0;
    while i < n
        invariant
            0 <= i <= n,
            n == m0.len(),
            n == t0.len(),
            messages@ == m0,
            token_counts@ == t0,
            feasible_found == exists|j: int|
                0 <= j < i && (#[trigger] m0[j]).is_user_text_only() && t0[j] <= lim,
        decreases n - i,
    {
        let m = &messages[i];
        let is_user = m.role == Role::User;
        let is_text = m.has_only_text_content();
        proof {
            assert(*m == m0[i as int]);
            assert(is_user == (m0[i as int].role == Role::User));
            assert(is_text == m0[i as int].text_only());
        }
        if is_user && is_text && token_counts[i] <= context_limit {
            feasible_found = true;
            proof {
                assert(m0[i as int].is_user_text_only() && t0[i as int] <= lim);
            }
        }
        i = i + 1;
    }
    if !feasible_found {
        return Err(TruncationError::Infeasible);
    }

    // Early exit: nothing to do when the conversation already fits.
    let total = total_tokens(token_counts);
    if total <= context_limit {
        return Ok(());
    }

    let r = strategy.determine_indices_to_remove(messages, token_counts, context_limit);

    // Remove the listed indices, last first, so that the indices still to be
    // removed stay valid.
    proof {
        lemma_filter_range_congruent(m0, listed_rem(r@, r@.len() as int), |q: int| false, 0, n as int);
        lemma_filter_range_congruent(t0, listed_rem(r@, r@.len() as int), |q: int| false, 0, n as int);
        crate::filtering::lemma_filter_range_none(m0, |q: int| false, 0, n as int);
        crate::filtering::lemma_filter_range_none(t0, |q: int| false, 0, n as int);
        assert(m0.subrange(0, n as int) =~= m0);
        assert(t0.subrange(0, n as int) =~= t0);
    }
    let mut j = r.len();
    while j > 0
        invariant
            0 <= j <= r@.len(),
            n == m0.len(),
            n == t0.len(),
            sum_tokens(t0) <= usize::MAX,
            forall|a: int, b: int| 0 <= a < b < r@.len() ==> r@[a] < r@[b],
            forall|a: int| 0 <= a < r@.len() ==> (#[trigger] r@[a]) < n,
            messages@ == filter_range(m0, listed_rem(r@, j as int), 0, n as int),
            token_counts@ == filter_range(t0, listed_rem(r@, j as int), 0, n as int),
        decreases j,
    {
        let ghost rem_before = listed_rem(r@, j as int);
        j = j - 1;
        let x = r[j];
        let ghost rem_after = listed_rem(r@, j as int);
        proof {
            assert forall|q: int| 0 <= q < n implies ((#[trigger] rem_after(q)) <==> (rem_before(q)
                || q == x as int)) by {
                if rem_after(q) {
                    let w = choose|w: int| j <= w < r@.len() && (#[trigger] r@[w]) as int == q;
                    if w == j {
                        assert(q == x as int);
                    } else {
                        assert(rem_before(q));
                    }
                } else {
                    assert(!rem_before(q) && q != x as int);
                }
            }
            assert forall|q: int| 0 <= q <= x as int implies !(#[trigger] rem_before(q)) by {
                if rem_before(q) {
                    let w = choose|w: int| j + 1 <= w < r@.len() && (#[trigger] r@[w]) as int == q;
                    assert(r@[j as int] < r@[w]);
                }
            }
            lemma_filter_remove_step(m0, rem_before, rem_after, x as int, n as int);
            lemma_filter_remove_step(t0, rem_before, rem_after, x as int, n as int);
        }
        messages.remove(x);
        token_counts.remove(x);
    }
    proof {
        assert forall|q: int| 0 <= q < n implies ((#[trigger] listed_rem(r@, 0)(q)) <==> rem(q)) by {
            assert(removes_listed(r@, 0, q) <==> r@.contains(q as usize)) by {
                if removes_listed(r@, 0, q) {
                    let w = choose|w: int| 0 <= w < r@.len() && (#[trigger] r@[w]) as int == q;
                    assert(r@[w] == q as usize);
                }
                if r@.contains(q as usize) {
                    let w = choose|w: int| 0 <= w < r@.len() && #[trigger] r@[w] == q as usize;
                    assert(r@[w] as int == q);
                }
            }
        }
        lemma_filter_range_congruent(m0, listed_rem(r@, 0), rem, 0, n as int);
        lemma_filter_range_congruent(t0, listed_rem(r@, 0), rem, 0, n as int);
    }
    let ghost km = filter_range(m0, rem, 0, n as int);
    let ghost kt = filter_range(t0, rem, 0, n as int);
    proof {
        lemma_filter_range_len_eq(m0, t0, rem, 0, n as int);
    }

    // Tail fixup: drop trailing messages until a user text-only one is last.
    while messages.len() > 0 && !(messages[messages.len() - 1].role == Role::User
        && messages[messages.len() - 1].has_only_text_content())
        invariant
            messages@.len() == token_counts@.len(),
            messages@.len() <= km.len(),
            messages@ == km.subrange(0, messages@.len() as int),
            token_counts@ == kt.subrange(0, messages@.len() as int),
            last_ut(km) == last_ut(messages@),
        decreases messages@.len(),
    {
        let len = messages.len();
        proof {
            assert(!messages@.last().is_user_text_only());
            assert(messages@.subrange(0, len - 1) =~= km.subrange(0, len - 1));
            assert(token_counts@.subrange(0, len - 1) =~= kt.subrange(0, len - 1));
            assert(messages@.drop_last() =~= messages@.subrange(0, len - 1));
        }
        messages.pop();
        token_counts.pop();
    }
    proof {
        assert(messages@.len() == 0 || messages@.last().is_user_text_only());
    }

    if messages.len() == 0 {
        proof {
            lemma_last_ut_props(km);
            assert(kt.subrange(0, 0) =~= Seq::<usize>::empty());
            assert(km.subrange(0, 0) =~= Seq::<Message>::empty());
        }
        return Err(TruncationError::Infeasible);
    }
    let ghost hi = last_ut(km);
    proof {
        lemma_last_ut_props(km);
        lemma_last_ut_props(messages@);
        assert(messages@[messages@.len() - 1].is_user_text_only());
        assert(last_ut(messages@) == messages@.len() - 1);
        assert(messages@ == km.subrange(0, hi + 1));
        assert(has_user_text(km));
    }

    // Head fixup: drop leading messages until a user text-only one is first.
    let ghost mut h: int = 0;
    while !(messages[0].role == Role::User && messages[0].has_only_text_content())
        invariant
            0 <= h <= hi < km.len(),
            messages@ == km.subrange(h, hi + 1),
            token_counts@ == kt.subrange(h, hi + 1),
            first_ut_from(km, 0) == first_ut_from(km, h),
        decreases hi - h,
    {
        proof {
            assert(km[h] == messages@[0]);
            assert(!km[h].is_user_text_only());
            assert(first_ut_from(km, h) == first_ut_from(km, h + 1));
            assert(h < hi);
            assert(messages@.remove(0) =~= km.subrange(h + 1, hi + 1));
            assert(token_counts@.remove(0) =~= kt.subrange(h + 1, hi + 1));
        }
        messages.remove(0);
        token_counts.remove(0);
        proof {
            h = h + 1;
        }
    }
    proof {
        assert(km[h] == messages@[0]);
        assert(km[h].is_user_text_only());
        assert(first_ut_from(km, h) == h);
        assert(h == first_ut_from(km, 0));
    }

    // Budget check on what survives.
    proof {
        lemma_filter_range_sum_le(t0, rem, 0, n as int);
        assert(t0.subrange(0, n as int) =~= t0);
        lemma_sum_tokens_subrange_le(kt, h, hi + 1);
    }
    let total_after = total_tokens(token_counts);
    if total_after > context_limit {
        return Err(TruncationError::BudgetExceeded);
    }
    Ok(())
}

/// The token total of the suffix starting at `k`.
pub open spec fn suffix_sum(t: Seq<usize>, k: int) -> int {
    sum_tokens(t.subrange(k, t.len() as int))
}

/// The shortest prefix whose removal brings the total within the limit:
/// the least `k` with `suffix_sum(t, k) <= limit`.
pub open spec fn oldest_cut(t: Seq<usize>, limit: int) -> int
    decreases t.len(),
{
    if sum_tokens(t) <= limit {
        0
    } else if t.len() == 0 {
        0
    } else {
        1 + oldest_cut(t.drop_first(), limit)
    }
}

pub proof fn lemma_oldest_cut_char(t: Seq<usize>, limit: int)
    requires
        limit >= 0,
    ensures
        0 <= oldest_cut(t, limit) <= t.len(),
        forall|j: int| 0 <= j < oldest_cut(t, limit) ==> suffix_sum(t, j) > limit,
        suffix_sum(t, oldest_cut(t, limit)) <= limit,
    decreases t.len(),
{
    assert(t.subrange(0, t.len() as int) =~= t);
    if sum_tokens(t) <= limit {
    } else {
        assert(t.len() > 0) by {
            if t.len() == 0 {
                assert(t =~= Seq::<usize>::empty());
            }
        }
        let d = t.drop_first();
        lemma_oldest_cut_char(d, limit);
        assert forall|j: int| 1 <= j <= t.len() implies suffix_sum(t, j) == suffix_sum(
            d,
            j - 1,
        ) by {
            assert(t.subrange(j, t.len() as int) =~= d.subrange(j - 1, d.len() as int));
        }
        assert(suffix_sum(t, 0) == sum_tokens(t));
    }
}

/// Index `i` carries the same tool id as some message in the window
/// `[wlo, whi)`.
pub open spec fn pair_in_window(m: Seq<Message>, wlo: int, whi: int, i: int) -> bool {
    m[i].spec_tool_id() is Some && exists|w: int|
        wlo <= w < whi && 0 <= w < m.len() && (#[trigger] m[w]).spec_tool_id()
            == m[i].spec_tool_id()
}

/// The removal set built from a window: the window itself, plus every
/// message sharing a tool id with a message in the window (the tool-pair
/// closure).
pub open spec fn window_removes(m: Seq<Message>, wlo: int, whi: int, i: int) -> bool {
    0 <= i < m.len() && ((wlo <= i < whi) || pair_in_window(m, wlo, whi, i))
}

/// The window removal set, as a predicate value.
pub open spec fn window_rem(m: Seq<Message>, wlo: int, whi: int) -> spec_fn(int) -> bool {
    |i: int| window_removes(m, wlo, whi, i)
}

/// Removal of the bare range `[wlo, whi)`.
pub open spec fn span_rem(wlo: int, whi: int) -> spec_fn(int) -> bool {
    |i: int| wlo <= i < whi
}

/// What the oldest-first strategy removes: the shortest prefix that brings
/// the total within the limit, closed over tool pairs.
pub open spec fn oldest_removes(m: Seq<Message>, t: Seq<usize>, limit: int, i: int) -> bool {
    window_removes(m, 0, oldest_cut(t, limit), i)
}

/// A window removal set is closed over tool pairing.
pub proof fn lemma_window_removes_closed(m: Seq<Message>, wlo: int, whi: int, i: int, j: int)
    requires
        0 <= i < m.len(),
        0 <= j < m.len(),
        window_removes(m, wlo, whi, i),
        m[i].spec_tool_id() is Some,
        m[i].spec_tool_id() == m[j].spec_tool_id(),
    ensures
        window_removes(m, wlo, whi, j),
{
    if wlo <= i < whi {
        assert(pair_in_window(m, wlo, whi, j)) by {
            assert(m[i].spec_tool_id() == m[j].spec_tool_id());
        }
    } else {
        let w = choose|w: int|
            wlo <= w < whi && 0 <= w < m.len() && (#[trigger] m[w]).spec_tool_id()
                == m[i].spec_tool_id();
        assert(m[w].spec_tool_id() == m[j].spec_tool_id());
    }
}

/// An index is listed in `r` exactly when `r` contains it.
pub proof fn lemma_listed_rem_iff(r: Seq<usize>, i: int)
    requires
        0 <= i <= usize::MAX,
    ensures
        removes_listed(r, 0, i) <==> r.contains(i as usize),
{
    if removes_listed(r, 0, i) {
        let w = choose|w: int| 0 <= w < r.len() && (#[trigger] r[w]) as int == i;
        assert(r[w] == i as usize);
    }
    if r.contains(i as usize) {
        let w = choose|w: int| 0 <= w < r.len() && #[trigger] r[w] == i as usize;
        assert(r[w] as int == i);
    }
}

/// When removing a window (plus its tool-pair closure) leaves at most
/// `limit` tokens, the removal list carries that guarantee.
proof fn lemma_window_sufficiency(
    m: Seq<Message>,
    t: Seq<usize>,
    r: Seq<usize>,
    wlo: int,
    whi: int,
    limit: int,
)
    requires
        m.len() == t.len(),
        t.len() <= usize::MAX,
        0 <= wlo <= whi <= t.len(),
        sum_tokens(t) - sum_tokens(t.subrange(wlo, whi)) <= limit,
        forall|i: int|
            0 <= i < m.len() ==> (window_removes(m, wlo, whi, i) <==> r.contains(i as usize)),
    ensures
        sum_tokens(filter_range(t, listed_rem(r, 0), 0, t.len() as int)) <= limit,
{
    let n = t.len() as int;
    assert forall|i: int| 0 <= i < n implies ((#[trigger] listed_rem(r, 0)(i)) <==> window_rem(
        m,
        wlo,
        whi,
    )(i)) by {
        lemma_listed_rem_iff(r, i);
    }
    lemma_filter_range_congruent(t, listed_rem(r, 0), window_rem(m, wlo, whi), 0, n);
    assert forall|i: int| 0 <= i < n implies ((#[trigger] span_rem(wlo, whi)(i)) ==> window_rem(
        m,
        wlo,
        whi,
    )(i)) by {}
    crate::filtering::lemma_filter_range_sum_mono(t, window_rem(m, wlo, whi), span_rem(wlo, whi), 0, n);
    lemma_filter_range_split(t, span_rem(wlo, whi), 0, wlo, n);
    lemma_filter_range_split(t, span_rem(wlo, whi), wlo, whi, n);
    crate::filtering::lemma_filter_range_none(t, span_rem(wlo, whi), 0, wlo);
    crate::filtering::lemma_filter_range_all(t, span_rem(wlo, whi), wlo, whi);
    crate::filtering::lemma_filter_range_none(t, span_rem(wlo, whi), whi, n);
    crate::filtering::lemma_sum_tokens_add(t.subrange(0, wlo), t.subrange(whi, n));
    assert(filter_range(t, span_rem(wlo, whi), 0, n) == t.subrange(0, wlo) + t.subrange(whi, n));
    assert(t =~= t.subrange(0, wlo) + t.subrange(wlo, whi) + t.subrange(whi, n));
    crate::filtering::lemma_sum_tokens_add(
        t.subrange(0, wlo) + t.subrange(wlo, whi),
        t.subrange(whi, n),
    );
    crate::filtering::lemma_sum_tokens_add(t.subrange(0, wlo), t.subrange(wlo, whi));
}

/// Whether some recorded id equals the given one.
fn contains_id(ids: &Vec<String>, id: &String) -> (r: bool)
    ensures
        r == exists|q: int| 0 <= q < ids@.len() && (#[trigger] ids@[q])@ == id@,
{
    let mut k: usize = 0;
    while k < ids.len()
        invariant
            0 <= k <= ids@.len(),
            forall|q: int| 0 <= q < k ==> (#[trigger] ids@[q])@ != id@,
        decreases ids@.len() - k,
    {
        let cand = &ids[k];
        if cand.eq(id) {
            return true;
        }
        k = k + 1;
    }
    false
}

/// The ascending list of indices removed by the window `[wlo, whi)` together
/// with its tool-pair closure.
#[verifier::loop_isolation(false)]
fn indices_for_window(messages: &Vec<Message>, wlo: usize, whi: usize) -> (r: Vec<usize>)
    requires
        wlo <= whi,
        whi as int <= messages@.len(),
    ensures
        forall|a: int, b: int| 0 <= a < b < r@.len() ==> r@[a] < r@[b],
        forall|a: int| 0 <= a < r@.len() ==> (#[trigger] r@[a]) < messages@.len(),
        forall|i: int|
            0 <= i < messages@.len() ==> ((#[trigger] window_removes(
                messages@,
                wlo as int,
                whi as int,
                i,
            )) <==> r@.contains(i as usize)),
{
    // Record the tool ids of the messages in the window.
    let mut recorded: Vec<String> = Vec::new();
    let mut j: usize = wlo;
    while j < whi
        invariant
            wlo <= j <= whi,
            forall|q: int|
                #![trigger recorded@[q]]
                0 <= q < recorded@.len() ==> exists|w: int|
                    wlo <= w < j && (#[trigger] messages@[w]).spec_tool_id() == Some(
                        recorded@[q]@,
                    ),
            forall|w: int|
                wlo <= w < j && (#[trigger] messages@[w]).spec_tool_id() is Some ==> exists|q: int|
                    0 <= q < recorded@.len() && messages@[w].spec_tool_id() == Some(
                        (#[trigger] recorded@[q])@,
                    ),
        decreases whi - j,
    {
        let ghost rec_old = recorded@;
        match messages[j].get_tool_id() {
            Some(id) => {
                let ghost idv = id@;
                recorded.push(id);
                proof {
                    assert(recorded@ == rec_old.push(id));
                    assert(messages@[j as int].spec_tool_id() == Some(idv));
                    assert forall|q: int|
                        #![trigger recorded@[q]]
                        0 <= q < recorded@.len() implies exists|w: int|
                        wlo <= w < j + 1 && (#[trigger] messages@[w]).spec_tool_id() == Some(
                            recorded@[q]@,
                        ) by {
                        if q < rec_old.len() {
                            assert(recorded@[q] == rec_old[q]);
                            let w = choose|w: int|
                                wlo <= w < j && (#[trigger] messages@[w]).spec_tool_id() == Some(
                                    rec_old[q]@,
                                );
                            assert(messages@[w].spec_tool_id() == Some(recorded@[q]@));
                        } else {
                            assert(recorded@[q]@ == idv);
                            assert(messages@[j as int].spec_tool_id() == Some(recorded@[q]@));
                        }
                    }
                    assert forall|w: int|
                        wlo <= w < j + 1 && (#[trigger] messages@[w]).spec_tool_id()
                            is Some implies exists|q: int|
                        0 <= q < recorded@.len() && messages@[w].spec_tool_id() == Some(
                            (#[trigger] recorded@[q])@,
                        ) by {
                        if w < j {
                            let q = choose|q: int|
                                0 <= q < rec_old.len() && messages@[w].spec_tool_id() == Some(
                                    (#[trigger] rec_old[q])@,
                                );
                            assert(recorded@[q] == rec_old[q]);
                            assert(messages@[w].spec_tool_id() == Some(recorded@[q]@));
                        } else {
                            assert(recorded@[rec_old.len() as int]@ == idv);
                            assert(messages@[w].spec_tool_id() == Some(
                                recorded@[rec_old.len() as int]@,
                            ));
                        }
                    }
                }
            },
            None => {
                proof {
                    assert(messages@[j as int].spec_tool_id() is None);
                    assert forall|w: int|
                        wlo <= w < j + 1 && (#[trigger] messages@[w]).spec_tool_id()
                            is Some implies exists|q: int|
                        0 <= q < recorded@.len() && messages@[w].spec_tool_id() == Some(
                            (#[trigger] recorded@[q])@,
                        ) by {
                        assert(w < j);
                    }
                }
            },
        }
        j = j + 1;
    }

    // Collect the window and everything sharing a tool id with it.
    let n = messages.len();
    let mut r: Vec<usize> = Vec::new();
    let mut i: usize = 0;
    while i < n
        invariant
            0 <= i <= n,
            forall|a: int, b: int| 0 <= a < b < r@.len() ==> r@[a] < r@[b],
            forall|a: int| 0 <= a < r@.len() ==> (#[trigger] r@[a]) < i,
            forall|p: int|
                0 <= p < i ==> ((#[trigger] window_removes(messages@, wlo as int, whi as int, p))
                    <==> r@.contains(p as usize)),
        decreases n - i,
    {
        let in_window = wlo <= i && i < whi;
        let by_pair = match messages[i].get_tool_id() {
            Some(id) => contains_id(&recorded, &id),
            None => false,
        };
        proof {
            assert(by_pair == pair_in_window(messages@, wlo as int, whi as int, i as int)) by {
                if by_pair {
                    match messages@[i as int].spec_tool_id() {
                        Some(tid) => {
                            let q = choose|q: int|
                                0 <= q < recorded@.len() && (#[trigger] recorded@[q])@ == tid;
                            let w = choose|w: int|
                                wlo <= w < whi && (#[trigger] messages@[w]).spec_tool_id() == Some(
                                    recorded@[q]@,
                                );
                            assert(messages@[w].spec_tool_id() == messages@[
                                i as int].spec_tool_id());
                        },
                        None => {},
                    }
                }
                if pair_in_window(messages@, wlo as int, whi as int, i as int) {
                    let w = choose|w: int|
                        wlo <= w < whi && 0 <= w < messages@.len() && (
                        #[trigger] messages@[w]).spec_tool_id() == messages@[
                            i as int].spec_tool_id();
                    assert(messages@[w].spec_tool_id() is Some);
                    let q = choose|q: int|
                        0 <= q < recorded@.len() && messages@[w].spec_tool_id() == Some(
                            (#[trigger] recorded@[q])@,
                        );
                    assert(recorded@[q]@ == messages@[i as int].spec_tool_id()->Some_0);
                }
            }
        }
        let ghost r_old = r@;
        if in_window || by_pair {
            r.push(i);
        }
        proof {
            assert forall|p: int| 0 <= p < i + 1 implies ((#[trigger] window_removes(
                messages@,
                wlo as int,
                whi as int,
                p,
            )) <==> r@.contains(p as usize)) by {
                if p < i {
                    assert(r@.contains(p as usize) <==> r_old.contains(p as usize)) by {
                        if r@.contains(p as usize) {
                            let w = choose|w: int|
                                0 <= w < r@.len() && #[trigger] r@[w] == p as usize;
                            assert(w < r_old.len());
                            assert(r_old[w] == p as usize);
                        }
                        if r_old.contains(p as usize) {
                            let w = choose|w: int|
                                0 <= w < r_old.len() && #[trigger] r_old[w] == p as usize;
                            assert(r@[w] == p as usize);
                        }
                    }
                } else {
                    if in_window || by_pair {
                        assert(r@[r@.len() - 1] == i as usize);
                        assert(r@.contains(i as usize));
                    } else {
                        assert(!window_removes(messages@, wlo as int, whi as int, p));
                        if r@.contains(p as usize) {
                            let w = choose|w: int|
                                0 <= w < r@.len() && #[trigger] r@[w] == p as usize;
                            assert(r@[w] < i);
                        }
                    }
                }
            }
        }
        i = i + 1;
    }
    r
}

/// The removal list of the oldest-first policy: walk from the start while
/// the remaining total exceeds the limit, then close over tool pairs.
#[verifier::loop_isolation(false)]
fn oldest_first_indices(
    messages: &Vec<Message>,
    token_counts: &Vec<usize>,
    context_limit: usize,
) -> (r: Vec<usize>)
    requires
        messages@.len() == token_counts@.len(),
        sum_tokens(token_counts@) <= usize::MAX,
    ensures
        forall|a: int, b: int| 0 <= a < b < r@.len() ==> r@[a] < r@[b],
        forall|a: int| 0 <= a < r@.len() ==> (#[trigger] r@[a]) < messages@.len(),
        forall|i: int|
            0 <= i < messages@.len() ==> ((#[trigger] oldest_removes(
                messages@,
                token_counts@,
                context_limit as int,
                i,
            )) <==> r@.contains(i as usize)),
        sum_tokens(
            filter_range(token_counts@, listed_rem(r@, 0), 0, token_counts@.len() as int),
        ) <= context_limit,
{
    let n = messages.len();
    let ghost t = token_counts@;
    let ghost lim = context_limit as int;

    let mut remaining = total_tokens(token_counts);
    let mut cut: usize = 0;
    proof {
        assert(t.subrange(0, n as int) =~= t);
    }
    while cut < n && remaining > context_limit
        invariant
            0 <= cut <= n,
            remaining == suffix_sum(t, cut as int),
            forall|j: int| 0 <= j < cut ==> suffix_sum(t, j) > lim,
        decreases n - cut,
    {
        proof {
            let sub = t.subrange(cut as int, n as int);
            crate::filtering::lemma_sum_tokens_drop_first(sub);
            assert(sub.drop_first() =~= t.subrange(cut + 1, n as int));
            lemma_sum_tokens_nonneg(t.subrange(cut + 1, n as int));
        }
        remaining = remaining - token_counts[cut];
        cut = cut + 1;
    }
    proof {
        if cut == n {
            assert(t.subrange(n as int, n as int) =~= Seq::<usize>::empty());
        }
        assert(suffix_sum(t, cut as int) <= lim);
        lemma_oldest_cut_char(t, lim);
        let oc = oldest_cut(t, lim);
        assert(oc == cut as int) by {
            if oc < cut as int {
                assert(suffix_sum(t, oc) > lim);
            }
            if oc > cut as int {
                assert(suffix_sum(t, cut as int) > lim);
            }
        }
    }
    let r = indices_for_window(messages, 0, cut);
    proof {
        assert(t =~= t.subrange(0, cut as int) + t.subrange(cut as int, n as int));
        crate::filtering::lemma_sum_tokens_add(
            t.subrange(0, cut as int),
            t.subrange(cut as int, n as int),
        );
        lemma_window_sufficiency(messages@, t, r@, 0, cut as int, lim);
    }
    r
}

/// Where the middle-out candidate window starts: the first quarter mark,
/// moved one step onward when it falls on an assistant message, so that the
/// window starts on a user message in an alternating conversation.
pub open spec fn mid_left(m: Seq<Message>) -> int {
    let l = m.len() as int / 4;
    if 0 <= l < m.len() && m[l].role == Role::Assistant {
        l + 1
    } else {
        l
    }
}

/// Where the middle-out candidate window ends (inclusive): the third
/// quarter mark, moved one step onward when it falls on a user message, and
/// clamped to the last index.
pub open spec fn mid_right(m: Seq<Message>) -> int {
    let r0 = 3 * m.len() as int / 4;
    let r1 = if 0 <= r0 < m.len() && m[r0].role == Role::User {
        r0 + 1
    } else {
        r0
    };
    if r1 >= m.len() {
        m.len() - 1
    } else {
        r1
    }
}

/// The walk through the window: the least `k` at which dropping
/// `[wlo, k)` brings the total within the limit, capped at `whi_excl`.
pub open spec fn window_cut_from(
    t: Seq<usize>,
    limit: int,
    wlo: int,
    from: int,
    whi_excl: int,
) -> int
    decreases whi_excl - from,
{
    if from >= whi_excl {
        from
    } else if sum_tokens(t) - sum_tokens(t.subrange(wlo, from)) <= limit {
        from
    } else {
        window_cut_from(t, limit, wlo, from + 1, whi_excl)
    }
}

pub proof fn lemma_window_cut_char(t: Seq<usize>, limit: int, wlo: int, from: int, whi_excl: int)
    ensures
        from <= window_cut_from(t, limit, wlo, from, whi_excl),
        window_cut_from(t, limit, wlo, from, whi_excl) <= if whi_excl >= from {
            whi_excl
        } else {
            from
        },
        forall|k: int|
            from <= k < window_cut_from(t, limit, wlo, from, whi_excl) ==> sum_tokens(t)
                - sum_tokens(t.subrange(wlo, k)) > limit,
        window_cut_from(t, limit, wlo, from, whi_excl) < whi_excl ==> sum_tokens(t) - sum_tokens(
            t.subrange(wlo, window_cut_from(t, limit, wlo, from, whi_excl)),
        ) <= limit,
    decreases whi_excl - from,
{
    if from >= whi_excl {
    } else if sum_tokens(t) - sum_tokens(t.subrange(wlo, from)) <= limit {
    } else {
        lemma_window_cut_char(t, limit, wlo, from + 1, whi_excl);
    }
}

/// The token total of the middle-out candidate window.
pub open spec fn mid_window_sum(m: Seq<Message>, t: Seq<usize>) -> int {
    if mid_left(m) <= mid_right(m) {
        sum_tokens(t.subrange(mid_left(m), mid_right(m) + 1))
    } else {
        0
    }
}

/// Removing the whole middle window still leaves too much: the strategy
/// falls back to oldest-first.
pub open spec fn middle_fallback(m: Seq<Message>, t: Seq<usize>, limit: int) -> bool {
    sum_tokens(t) - mid_window_sum(m, t) > limit
}

/// Where the middle-out walk stops.
pub open spec fn mid_window_cut(m: Seq<Message>, t: Seq<usize>, limit: int) -> int {
    window_cut_from(t, limit, mid_left(m), mid_left(m), mid_right(m) + 1)
}

/// What the middle-out strategy removes: a walk through the middle window
/// closed over tool pairs, or the oldest-first set when even removing the
/// whole window would not fit.
pub open spec fn middle_removes(m: Seq<Message>, t: Seq<usize>, limit: int, i: int) -> bool {
    if middle_fallback(m, t, limit) {
        oldest_removes(m, t, limit, i)
    } else {
        window_removes(m, mid_left(m), mid_window_cut(m, t, limit), i)
    }
}

/// Oldest-first truncation: drop messages from the start of the
/// conversation until the rest fits.
pub struct OldestFirstTruncation;

impl TruncationStrategy for OldestFirstTruncation {
    open spec fn spec_removes(
        &self,
        messages: Seq<Message>,
        token_counts: Seq<usize>,
        context_limit: int,
        i: int,
    ) -> bool {
        oldest_removes(messages, token_counts, context_limit, i)
    }

    fn determine_indices_to_remove(
        &self,
        messages: &Vec<Message>,
        token_counts: &Vec<usize>,
        context_limit: usize,
    ) -> (r: Vec<usize>) {
        let r = oldest_first_indices(messages, token_counts, context_limit);
        proof {
            let m = messages@;
            let t = token_counts@;
            let lim = context_limit as int;
            assert forall|i: int, j: int|
                0 <= i < m.len() && 0 <= j < m.len() && #[trigger] self.spec_removes(m, t, lim, i)
                    && m[i].spec_tool_id() is Some && m[i].spec_tool_id()
                    == m[j].spec_tool_id() implies #[trigger] self.spec_removes(m, t, lim, j) by {
                lemma_window_removes_closed(m, 0, oldest_cut(t, lim), i, j);
            }
        }
        r
    }
}

/// Middle-out truncation: keep the earliest and latest context and drop
/// messages from the middle of the conversation.
pub struct MiddleOutTruncation;

impl TruncationStrategy for MiddleOutTruncation {
    open spec fn spec_removes(
        &self,
        messages: Seq<Message>,
        token_counts: Seq<usize>,
        context_limit: int,
        i: int,
    ) -> bool {
        middle_removes(messages, token_counts, context_limit, i)
    }

    #[verifier::loop_isolation(false)]
    #[verifier::rlimit(60)]
    fn determine_indices_to_remove(
        &self,
        messages: &Vec<Message>,
        token_counts: &Vec<usize>,
        context_limit: usize,
    ) -> (r: Vec<usize>) {
        let n = messages.len();
        let ghost mseq = messages@;
        let ghost t = token_counts@;
        let ghost lim = context_limit as int;

        if n == 0 {
            let r: Vec<usize> = Vec::new();
            proof {
                assert(t =~= Seq::<usize>::empty());
                assert(sum_tokens(t) == 0);
                assert(!middle_fallback(mseq, t, lim));
                assert(forall|i: int| 0 <= i < mseq.len() ==> !middle_removes(mseq, t, lim, i));
                assert(forall|i: int| 0 <= i < mseq.len() ==> !r@.contains(#[trigger] (i as usize)));
                assert(filter_range(t, listed_rem(r@, 0), 0, 0) =~= Seq::<usize>::empty());
            }
            return r;
        }

        let total = total_tokens(token_counts);

        // Window start: the first quarter mark, pushed onward off an
        // assistant message.
        let mut left = n / 4;
        if left < n && messages[left].role == Role::Assistant {
            left = left + 1;
        }
        proof {
            assert(left as int == mid_left(mseq));
        }

        // Window end: the third quarter mark, pushed onward off a user
        // message, clamped to the last index.
        let q = n / 4;
        let rr = n % 4;
        proof {
            vstd::arithmetic::div_mod::lemma_fundamental_div_mod(n as int, 4);
            vstd::arithmetic::div_mod::lemma_fundamental_div_mod(3 * (rr as int), 4);
            assert(3 * (n as int) == (3 * (q as int) + (3 * (rr as int)) / 4) * 4 + (3 * (
            rr as int)) % 4);
            vstd::arithmetic::div_mod::lemma_fundamental_div_mod_converse(
                3 * (n as int),
                4,
                3 * (q as int) + (3 * (rr as int)) / 4,
                (3 * (rr as int)) % 4,
            );
            assert(3 * (q as int) + (3 * (rr as int)) / 4 == 3 * (n as int) / 4);
            assert(4 * (3 * (n as int) / 4) <= 3 * (n as int));
            assert(3 * (n as int) / 4 < n as int);
        }
        let mut right = 3 * q + (3 * rr) / 4;
        if right < n && messages[right].role == Role::User {
            right = right + 1;
        }
        if right >= n {
            right = n - 1;
        }
        proof {
            assert(right as int == mid_right(mseq));
            vstd::arithmetic::div_mod::lemma_div_is_ordered(n as int, 3 * (n as int), 4);
            assert(left as int <= right as int + 1);
        }

        // The window's own token total.
        let mut wsum: usize = 0;
        if left <= right {
            let mut k = left;
            proof {
                assert(t.subrange(left as int, left as int) =~= Seq::<usize>::empty());
            }
            while k <= right
                invariant
                    left <= k <= right + 1,
                    wsum == sum_tokens(t.subrange(left as int, k as int)),
                decreases right + 1 - k,
            {
                proof {
                    assert(t.subrange(left as int, k + 1).drop_last() =~= t.subrange(
                        left as int,
                        k as int,
                    ));
                    lemma_sum_tokens_subrange_le(t, left as int, k + 1);
                }
                wsum = wsum + token_counts[k];
                k = k + 1;
            }
        }
        proof {
            assert(wsum as int == mid_window_sum(mseq, t));
            lemma_sum_tokens_subrange_le(
                t,
                left as int,
                if left <= right {
                    right as int + 1
                } else {
                    left as int
                },
            );
            if left > right {
                assert(t.subrange(left as int, left as int) =~= Seq::<usize>::empty());
            }
        }

        // When even dropping the whole window cannot fit, fall back to
        // dropping the oldest messages first.
        if total - wsum > context_limit {
            let r = oldest_first_indices(messages, token_counts, context_limit);
            proof {
                assert(middle_fallback(mseq, t, lim));
                assert forall|i: int, j: int|
                    0 <= i < mseq.len() && 0 <= j < mseq.len() && #[trigger] self.spec_removes(
                        mseq,
                        t,
                        lim,
                        i,
                    ) && mseq[i].spec_tool_id() is Some && mseq[i].spec_tool_id()
                        == mseq[j].spec_tool_id() implies #[trigger] self.spec_removes(
                    mseq,
                    t,
                    lim,
                    j,
                ) by {
                    lemma_window_removes_closed(mseq, 0, oldest_cut(t, lim), i, j);
                }
            }
            return r;
        }

        // Walk the window while the remaining total exceeds the limit.
        let mut m = left;
        let mut remaining = total;
        proof {
            assert(t.subrange(left as int, left as int) =~= Seq::<usize>::empty());
        }
        while m <= right && remaining > context_limit
            invariant
                left <= m,
                m <= right + 1,
                remaining == sum_tokens(t) - sum_tokens(t.subrange(left as int, m as int)),
                forall|k: int|
                    left <= k < m ==> sum_tokens(t) - sum_tokens(t.subrange(left as int, k))
                        > lim,
            decreases right + 1 - m,
        {
            proof {
                assert(t.subrange(left as int, m + 1).drop_last() =~= t.subrange(
                    left as int,
                    m as int,
                ));
                lemma_sum_tokens_subrange_le(t, left as int, m + 1);
            }
            remaining = remaining - token_counts[m];
            m = m + 1;
        }
        let wcut = m;
        proof {
            lemma_window_cut_char(t, lim, left as int, left as int, right as int + 1);
            let c = mid_window_cut(mseq, t, lim);
            assert(c == wcut as int) by {
                if c < wcut as int {
                    assert(sum_tokens(t) - sum_tokens(t.subrange(left as int, c)) > lim);
                }
                if c > wcut as int {
                    assert((wcut as int) < right as int + 1);
                    assert(sum_tokens(t) - sum_tokens(t.subrange(left as int, wcut as int))
                        <= lim);
                }
            }
            assert(!middle_fallback(mseq, t, lim));
        }
        let r = indices_for_window(messages, left, wcut);
        proof {
            assert(sum_tokens(t) - sum_tokens(t.subrange(left as int, wcut as int)) <= lim) by {
                if wcut > right {
                    assert(t.subrange(left as int, wcut as int) =~= t.subrange(
                        left as int,
                        right as int + 1,
                    ));
                }
            }
            lemma_window_sufficiency(mseq, t, r@, left as int, wcut as int, lim);
            assert forall|i: int, j: int|
                0 <= i < mseq.len() && 0 <= j < mseq.len() && #[trigger] self.spec_removes(
                    mseq,
                    t,
                    lim,
                    i,
                ) && mseq[i].spec_tool_id() is Some && mseq[i].spec_tool_id()
                    == mseq[j].spec_tool_id() implies #[trigger] self.spec_removes(
                mseq,
                t,
                lim,
                j,
            ) by {
                lemma_window_removes_closed(mseq, left as int, wcut as int, i, j);
            }
        }
        r
    }
}

} // verus!
