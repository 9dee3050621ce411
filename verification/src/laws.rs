//! The guarantees the truncator gives, stated and proved over its
//! functional specification `spec_truncate`: well-formedness of successful
//! results, bounded and order-preserving survival, the prefix shape of the
//! oldest-first removal set, idempotence, and the boundary failures.

use vstd::prelude::*;

use crate::budget::{lemma_sum_tokens_element_bound, sum_tokens};
use crate::filtering::{
    filter_range, kept_in_range, lemma_filter_is_select, lemma_filter_range_all,
    lemma_filter_range_congruent, lemma_filter_range_len_eq, lemma_filter_range_len_le,
    lemma_filter_range_none, lemma_filter_range_split,
};
use crate::message::{first_tool_id, Content, Message};
use crate::truncate::{
    feasible, first_ut_from, has_user_text, last_ut, lemma_first_ut_from_props,
    lemma_last_ut_props, lemma_oldest_cut_char, oldest_cut, oldest_removes, spec_truncate,
    suffix_sum, TruncationError,
};

verus! {

/// Adjacent messages never share a role: strict user/assistant alternation.
pub open spec fn alternating(m: Seq<Message>) -> bool {
    forall|i: int|
        #![trigger m[i].role, m[i + 1].role]
        0 <= i < m.len() - 1 ==> m[i].role != m[i + 1].role
}

/// How many tool-call messages carry the given tool id.
pub open spec fn count_tool_calls(m: Seq<Message>, tid: Seq<char>) -> int
    decreases m.len(),
{
    if m.len() == 0 {
        0
    } else {
        count_tool_calls(m.drop_last(), tid) + if m.last().spec_is_tool_call()
            && m.last().spec_tool_id() == Some(tid) {
            1int
        } else {
            0int
        }
    }
}

/// How many tool-response messages carry the given tool id.
pub open spec fn count_tool_responses(m: Seq<Message>, tid: Seq<char>) -> int
    decreases m.len(),
{
    if m.len() == 0 {
        0
    } else {
        count_tool_responses(m.drop_last(), tid) + if m.last().spec_is_tool_response()
            && m.last().spec_tool_id() == Some(tid) {
            1int
        } else {
            0int
        }
    }
}

/// Every tool id is claimed by as many tool-call messages as tool-response
/// messages.
pub open spec fn tool_pairing_balanced(m: Seq<Message>) -> bool {
    forall|tid: Seq<char>| #[trigger] count_tool_calls(m, tid) == count_tool_responses(m, tid)
}

/// A conversation that already satisfies every structural invariant for the
/// given limit: non-empty, user text-only at head and tail, strictly
/// alternating, tool pairs balanced, and within budget.
pub open spec fn conversation_well_formed(m: Seq<Message>, t: Seq<usize>, limit: int) -> bool {
    &&& m.len() == t.len()
    &&& m.len() >= 1
    &&& m[0].is_user_text_only()
    &&& m[m.len() - 1].is_user_text_only()
    &&& alternating(m)
    &&& tool_pairing_balanced(m)
    &&& sum_tokens(t) <= limit
}

/// When truncation had work to do and succeeded, the result is non-empty,
/// begins and ends with a user text-only message, fits the limit, and its
/// two sequences stay parallel.
pub proof fn lemma_truncate_success_well_formed(
    m: Seq<Message>,
    t: Seq<usize>,
    limit: int,
    rem: spec_fn(int) -> bool,
)
    requires
        m.len() == t.len(),
        sum_tokens(t) > limit,
        spec_truncate(m, t, limit, rem).0 is Ok,
    ensures
        spec_truncate(m, t, limit, rem).1.len() >= 1,
        spec_truncate(m, t, limit, rem).1.len() == spec_truncate(m, t, limit, rem).2.len(),
        spec_truncate(m, t, limit, rem).1[0].is_user_text_only(),
        spec_truncate(m, t, limit, rem).1.last().is_user_text_only(),
        sum_tokens(spec_truncate(m, t, limit, rem).2) <= limit,
{
    let n = m.len() as int;
    let km = filter_range(m, rem, 0, n);
    let kt = filter_range(t, rem, 0, n);
    assert(feasible(m, t, limit));
    assert(has_user_text(km));
    let lo = first_ut_from(km, 0);
    let hi = last_ut(km);
    lemma_last_ut_props(km);
    lemma_first_ut_from_props(km, 0);
    assert(lo <= hi) by {
        if lo > hi {
            assert(!km[hi].is_user_text_only());
        }
    }
    lemma_filter_range_len_eq(m, t, rem, 0, n);
}

/// Truncation never lengthens the conversation, and keeps the messages and
/// token counts equally long.
pub proof fn lemma_truncate_lengths(
    m: Seq<Message>,
    t: Seq<usize>,
    limit: int,
    rem: spec_fn(int) -> bool,
)
    requires
        m.len() == t.len(),
    ensures
        spec_truncate(m, t, limit, rem).1.len() == spec_truncate(m, t, limit, rem).2.len(),
        spec_truncate(m, t, limit, rem).1.len() <= m.len(),
{
    let n = m.len() as int;
    let km = filter_range(m, rem, 0, n);
    let kt = filter_range(t, rem, 0, n);
    lemma_filter_range_len_eq(m, t, rem, 0, n);
    lemma_filter_range_len_le(m, rem, 0, n);
    if feasible(m, t, limit) && sum_tokens(t) > limit && has_user_text(km) {
        lemma_last_ut_props(km);
        lemma_first_ut_from_props(km, 0);
        let lo = first_ut_from(km, 0);
        let hi = last_ut(km);
        assert(lo <= hi) by {
            if lo > hi {
                assert(!km[hi].is_user_text_only());
            }
        }
    }
}

/// The surviving messages are a subsequence of the input: there is a
/// strictly increasing index map under which both outputs read off the
/// inputs. Relative order is preserved and nothing is reordered.
pub proof fn lemma_truncate_preserves_order(
    m: Seq<Message>,
    t: Seq<usize>,
    limit: int,
    rem: spec_fn(int) -> bool,
) -> (idx: Seq<int>)
    requires
        m.len() == t.len(),
    ensures
        idx.len() == spec_truncate(m, t, limit, rem).1.len(),
        forall|p: int| 0 <= p < idx.len() ==> 0 <= #[trigger] idx[p] < m.len(),
        forall|p: int, q: int| 0 <= p < q < idx.len() ==> idx[p] < idx[q],
        forall|p: int|
            0 <= p < idx.len() ==> spec_truncate(m, t, limit, rem).1[p] == m[#[trigger] idx[p]],
        forall|p: int|
            0 <= p < idx.len() ==> spec_truncate(m, t, limit, rem).2[p] == t[#[trigger] idx[p]],
{
    let n = m.len() as int;
    let km = filter_range(m, rem, 0, n);
    let kt = filter_range(t, rem, 0, n);
    if !feasible(m, t, limit) || sum_tokens(t) <= limit {
        // No change: the identity map.
        let idx = Seq::new(m.len(), |p: int| p);
        idx
    } else if !has_user_text(km) {
        Seq::empty()
    } else {
        lemma_filter_is_select(m, rem, 0, n);
        lemma_filter_is_select(t, rem, 0, n);
        lemma_filter_range_len_eq(m, t, rem, 0, n);
        let kidx = kept_in_range(rem, 0, n);
        let lo = first_ut_from(km, 0);
        let hi = last_ut(km);
        lemma_last_ut_props(km);
        lemma_first_ut_from_props(km, 0);
        assert(lo <= hi) by {
            if lo > hi {
                assert(!km[hi].is_user_text_only());
            }
        }
        let idx = kidx.subrange(lo, hi + 1);
        idx
    }
}

/// The oldest-first removal set is the shortest removable prefix, together
/// with its tool-pair closure and nothing else: no message without a tool id
/// is dropped beyond the prefix, and no longer suffix of the conversation
/// fits the limit on its own.
pub proof fn lemma_oldest_first_only_prefix(m: Seq<Message>, t: Seq<usize>, limit: int)
    requires
        limit >= 0,
        m.len() == t.len(),
    ensures
        0 <= oldest_cut(t, limit) <= m.len(),
        forall|i: int|
            0 <= i < oldest_cut(t, limit) ==> oldest_removes(m, t, limit, i),
        forall|i: int|
            0 <= i < m.len() && #[trigger] oldest_removes(m, t, limit, i) && m[i].spec_tool_id()
                is None ==> i < oldest_cut(t, limit),
        forall|k: int| 0 <= k < oldest_cut(t, limit) ==> suffix_sum(t, k) > limit,
        suffix_sum(t, oldest_cut(t, limit)) <= limit,
{
    lemma_oldest_cut_char(t, limit);
}

/// Truncating a conversation that already satisfies every invariant for the
/// limit is a no-op: it succeeds and changes nothing.
pub proof fn lemma_truncate_idempotent(
    m: Seq<Message>,
    t: Seq<usize>,
    limit: int,
    rem: spec_fn(int) -> bool,
)
    requires
        conversation_well_formed(m, t, limit),
    ensures
        spec_truncate(m, t, limit, rem) == (Ok::<(), TruncationError>(()), m, t),
{
    lemma_sum_tokens_element_bound(t, 0);
    assert(feasible(m, t, limit));
}

/// Truncating an empty conversation fails as infeasible, whatever the limit.
pub proof fn lemma_truncate_empty_infeasible(
    m: Seq<Message>,
    t: Seq<usize>,
    limit: int,
    rem: spec_fn(int) -> bool,
)
    requires
        m.len() == 0,
        t.len() == 0,
    ensures
        spec_truncate(m, t, limit, rem).0 == Err::<(), TruncationError>(
            TruncationError::Infeasible,
        ),
        spec_truncate(m, t, limit, rem).1 == m,
        spec_truncate(m, t, limit, rem).2 == t,
{
}

/// With a limit of zero, any non-empty conversation whose messages all cost
/// at least one token is infeasible. (A message counted at zero tokens is
/// the one exception: it fits any limit.)
pub proof fn lemma_truncate_zero_limit_infeasible(
    m: Seq<Message>,
    t: Seq<usize>,
    rem: spec_fn(int) -> bool,
)
    requires
        m.len() == t.len(),
        m.len() >= 1,
        forall|i: int| 0 <= i < t.len() ==> #[trigger] t[i] >= 1,
    ensures
        spec_truncate(m, t, 0, rem).0 == Err::<(), TruncationError>(TruncationError::Infeasible),
{
}

/// A content sequence holding a tool request or tool response has a first
/// tool id.
proof fn lemma_first_tool_id_some(c: Seq<Content>)
    requires
        exists|i: int|
            0 <= i < c.len() && (((#[trigger] c[i]) is ToolRequest) || (c[i] is ToolResponse)),
    ensures
        first_tool_id(c) is Some,
    decreases c.len(),
{
    let w = choose|w: int|
        0 <= w < c.len() && (((#[trigger] c[w]) is ToolRequest) || (c[w] is ToolResponse));
    if c[0].spec_tool_id() is Some {
    } else {
        assert(w != 0);
        assert(c.drop_first()[w - 1] == c[w]);
        lemma_first_tool_id_some(c.drop_first());
    }
}

/// A tool-call or tool-response message has a tool id.
pub proof fn lemma_tool_message_has_id(msg: Message)
    requires
        msg.spec_is_tool_call() || msg.spec_is_tool_response(),
    ensures
        msg.spec_tool_id() is Some,
{
    lemma_first_tool_id_some(msg.content@);
}

/// A tool-call or tool-response message is not user text-only.
pub proof fn lemma_tool_message_not_user_text(msg: Message)
    requires
        msg.spec_is_tool_call() || msg.spec_is_tool_response(),
    ensures
        !msg.is_user_text_only(),
{
    if msg.spec_is_tool_call() {
        let i = choose|i: int|
            0 <= i < msg.content@.len() && (#[trigger] msg.content@[i]) is ToolRequest;
        assert(!(msg.content@[i] is Text));
    } else {
        let i = choose|i: int|
            0 <= i < msg.content@.len() && (#[trigger] msg.content@[i]) is ToolResponse;
        assert(!(msg.content@[i] is Text));
    }
}

/// Tool pairs sit side by side and nothing is both sides at once: every
/// tool-call message is immediately followed by a tool-response message with
/// the same id, and every tool-response message immediately follows its
/// tool-call message. This is the shape the reply loop produces.
pub open spec fn pairs_adjacent(m: Seq<Message>) -> bool {
    &&& (forall|i: int|
        0 <= i < m.len() && (#[trigger] m[i].spec_tool_id()) is Some ==> (m[i].spec_is_tool_call()
            <==> !m[i].spec_is_tool_response()))
    &&& (forall|i: int|
        0 <= i < m.len() && #[trigger] m[i].spec_is_tool_call() ==> i + 1 < m.len() && m[i
            + 1].spec_is_tool_response() && m[i + 1].spec_tool_id() == m[i].spec_tool_id())
    &&& (forall|i: int|
        0 <= i < m.len() && #[trigger] m[i].spec_is_tool_response() ==> 0 < i && m[i
            - 1].spec_is_tool_call() && m[i - 1].spec_tool_id() == m[i].spec_tool_id())
}

/// When the input's tool pairs sit side by side and the removal set is
/// closed over tool ids, a successful truncation keeps tool pairs whole: in
/// the result every tool-call message is still immediately followed by its
/// tool-response message and the other way round.
pub proof fn lemma_truncate_tool_pairing(
    m: Seq<Message>,
    t: Seq<usize>,
    limit: int,
    rem: spec_fn(int) -> bool,
)
    requires
        m.len() == t.len(),
        sum_tokens(t) > limit,
        spec_truncate(m, t, limit, rem).0 is Ok,
        pairs_adjacent(m),
        forall|i: int, j: int|
            0 <= i < m.len() && 0 <= j < m.len() && #[trigger] rem(i) && m[i].spec_tool_id()
                is Some && m[i].spec_tool_id() == m[j].spec_tool_id() ==> #[trigger] rem(j),
    ensures
        forall|p: int|
            0 <= p < spec_truncate(m, t, limit, rem).1.len() && (#[trigger] spec_truncate(
                m,
                t,
                limit,
                rem,
            ).1[p]).spec_is_tool_call() ==> p + 1 < spec_truncate(m, t, limit, rem).1.len()
                && spec_truncate(m, t, limit, rem).1[p + 1].spec_is_tool_response()
                && spec_truncate(m, t, limit, rem).1[p + 1].spec_tool_id() == spec_truncate(
                m,
                t,
                limit,
                rem,
            ).1[p].spec_tool_id(),
        forall|p: int|
            0 <= p < spec_truncate(m, t, limit, rem).1.len() && (#[trigger] spec_truncate(
                m,
                t,
                limit,
                rem,
            ).1[p]).spec_is_tool_response() ==> 0 < p && spec_truncate(
                m,
                t,
                limit,
                rem,
            ).1[p - 1].spec_is_tool_call() && spec_truncate(m, t, limit, rem).1[p
                - 1].spec_tool_id() == spec_truncate(m, t, limit, rem).1[p].spec_tool_id(),
{
    let n = m.len() as int;
    let km = filter_range(m, rem, 0, n);
    assert(feasible(m, t, limit));
    assert(has_user_text(km));
    let lo = first_ut_from(km, 0);
    let hi = last_ut(km);
    lemma_last_ut_props(km);
    lemma_first_ut_from_props(km, 0);
    assert(lo <= hi) by {
        if lo > hi {
            assert(!km[hi].is_user_text_only());
        }
    }
    lemma_filter_is_select(m, rem, 0, n);
    let kidx = kept_in_range(rem, 0, n);
    let f = spec_truncate(m, t, limit, rem).1;
    assert(f == km.subrange(lo, hi + 1));

    assert forall|p: int|
        0 <= p < f.len() && (#[trigger] f[p]).spec_is_tool_call() implies p + 1 < f.len() && f[p
        + 1].spec_is_tool_response() && f[p + 1].spec_tool_id() == f[p].spec_tool_id() by {
        let kp = lo + p;
        let o = kidx[kp];
        assert(f[p] == km[kp]);
        assert(km[kp] == m[o]);
        lemma_tool_message_has_id(m[o]);
        assert(o + 1 < n && m[o + 1].spec_is_tool_response() && m[o + 1].spec_tool_id() == m[
        o].spec_tool_id());
        assert(!rem(o));
        assert(!rem(o + 1)) by {
            if rem(o + 1) {
                lemma_tool_message_has_id(m[o + 1]);
                assert(rem(o));
            }
        }
        assert(kidx.contains(o + 1));
        let kq = choose|kq: int| 0 <= kq < kidx.len() && #[trigger] kidx[kq] == o + 1;
        assert(kq == kp + 1) by {
            if kq <= kp {
                assert(kidx[kq] <= kidx[kp]);
            }
            if kq > kp + 1 {
                assert(kidx[kp] < kidx[kp + 1] && kidx[kp + 1] < kidx[kq]);
            }
        }
        assert(kp != hi) by {
            lemma_tool_message_not_user_text(m[o]);
            assert(km[hi].is_user_text_only());
        }
        assert(f[p + 1] == km[kp + 1]);
        assert(km[kp + 1] == m[o + 1]);
    }

    assert forall|p: int|
        0 <= p < f.len() && (#[trigger] f[p]).spec_is_tool_response() implies 0 < p && f[p
        - 1].spec_is_tool_call() && f[p - 1].spec_tool_id() == f[p].spec_tool_id() by {
        let kp = lo + p;
        let o = kidx[kp];
        assert(f[p] == km[kp]);
        assert(km[kp] == m[o]);
        lemma_tool_message_has_id(m[o]);
        assert(0 < o && m[o - 1].spec_is_tool_call() && m[o - 1].spec_tool_id() == m[
        o].spec_tool_id());
        assert(!rem(o));
        assert(!rem(o - 1)) by {
            if rem(o - 1) {
                lemma_tool_message_has_id(m[o - 1]);
                assert(rem(o));
            }
        }
        assert(kidx.contains(o - 1));
        let kq = choose|kq: int| 0 <= kq < kidx.len() && #[trigger] kidx[kq] == o - 1;
        assert(kq == kp - 1) by {
            if kq >= kp {
                assert(kidx[kq] >= kidx[kp]);
            }
            if kq < kp - 1 {
                assert(kidx[kq] < kidx[kp - 1] && kidx[kp - 1] < kidx[kp]);
            }
        }
        assert(kp != lo) by {
            lemma_tool_message_not_user_text(m[o]);
            assert(km[lo].is_user_text_only());
        }
        assert(f[p - 1] == km[kp - 1]);
        assert(km[kp - 1] == m[o - 1]);
    }
}

/// Messages sharing a tool id sit next to each other: an id names one
/// tool-call message and the tool-response message beside it, and appears
/// nowhere else. This is the shape the reply loop produces, since the
/// provider mints a fresh id for every request.
pub open spec fn tool_ids_adjacent(m: Seq<Message>) -> bool {
    forall|i: int, j: int|
        0 <= i < m.len() && 0 <= j < m.len() && (#[trigger] m[i].spec_tool_id()) is Some && m[
            i].spec_tool_id() == #[trigger] m[j].spec_tool_id() ==> -1 <= i - j <= 1
}

/// Strict alternation survives oldest-first truncation on conversations
/// whose tool ids are adjacent and unique: the removal set is then a prefix,
/// at most extended by the partner right next to it, so the survivors are a
/// contiguous slice of the input, and slices of an alternating conversation
/// alternate. (The middle-out strategy gives no such guarantee: removing an
/// odd-length window from inside a conversation can leave two messages of
/// the same role adjacent.)
/// With adjacent, unique tool ids, the oldest-first removal set is exactly
/// a range `[0, start)` with `start` at the cut or one past it, so the
/// survivors are a contiguous slice of the input.
proof fn lemma_oldest_removes_is_span(
    m: Seq<Message>,
    t: Seq<usize>,
    limit: int,
    rem: spec_fn(int) -> bool,
) -> (start: int)
    requires
        m.len() == t.len(),
        limit >= 0,
        tool_ids_adjacent(m),
        forall|i: int| #[trigger] rem(i) <==> oldest_removes(m, t, limit, i),
    ensures
        0 <= start <= m.len(),
        filter_range(m, rem, 0, m.len() as int) == m.subrange(start, m.len() as int),
{
    let n = m.len() as int;
    lemma_oldest_cut_char(t, limit);
    let cut = oldest_cut(t, limit);

    // Every removed index lies at or below the cut: a message is removed
    // either as part of the prefix or because it shares its tool id with a
    // prefix message, and shared ids sit at distance one.
    assert forall|i: int| 0 <= i < n && #[trigger] rem(i) implies i <= cut by {
        if i >= cut {
            let w = choose|w: int|
                0 <= w < cut && 0 <= w < m.len() && (#[trigger] m[w]).spec_tool_id() == m[
                    i].spec_tool_id();
            assert(m[w].spec_tool_id() is Some);
            assert(-1 <= w - i <= 1);
        }
    }
    let start: int = if cut < n && rem(cut) {
        cut + 1
    } else {
        cut
    };
    assert forall|i: int| 0 <= i < n implies ((#[trigger] rem(i)) <==> crate::truncate::span_rem(
        0,
        start,
    )(i)) by {
        if 0 <= i < cut {
            assert(oldest_removes(m, t, limit, i));
        }
    }
    lemma_filter_range_congruent(m, rem, crate::truncate::span_rem(0, start), 0, n);
    lemma_filter_range_split(m, crate::truncate::span_rem(0, start), 0, start, n);
    lemma_filter_range_all(m, crate::truncate::span_rem(0, start), 0, start);
    lemma_filter_range_none(m, crate::truncate::span_rem(0, start), start, n);
    assert(filter_range(m, rem, 0, n) =~= m.subrange(start, n));
    start
}

pub proof fn lemma_truncate_oldest_first_alternation(
    m: Seq<Message>,
    t: Seq<usize>,
    limit: int,
    rem: spec_fn(int) -> bool,
)
    requires
        m.len() == t.len(),
        limit >= 0,
        alternating(m),
        tool_ids_adjacent(m),
        forall|i: int| #[trigger] rem(i) <==> oldest_removes(m, t, limit, i),
    ensures
        alternating(spec_truncate(m, t, limit, rem).1),
{
    let n = m.len() as int;
    if !feasible(m, t, limit) || sum_tokens(t) <= limit {
        // The conversation is returned unchanged.
        return ;
    }
    let km = filter_range(m, rem, 0, n);
    if !has_user_text(km) {
        // The result is empty.
        assert(alternating(Seq::<Message>::empty()));
        return ;
    }
    let start = lemma_oldest_removes_is_span(m, t, limit, rem);
    assert(km == m.subrange(start, n));
    lemma_slice_of_alternating(m, t, limit, rem, start);
}

/// When the survivors of the removal set are a contiguous slice of an
/// alternating conversation, what truncation returns still alternates: the
/// head and tail fixup only take a further slice.
proof fn lemma_slice_of_alternating(
    m: Seq<Message>,
    t: Seq<usize>,
    limit: int,
    rem: spec_fn(int) -> bool,
    start: int,
)
    requires
        m.len() == t.len(),
        alternating(m),
        feasible(m, t, limit),
        sum_tokens(t) > limit,
        0 <= start <= m.len(),
        filter_range(m, rem, 0, m.len() as int) == m.subrange(start, m.len() as int),
        has_user_text(filter_range(m, rem, 0, m.len() as int)),
    ensures
        alternating(spec_truncate(m, t, limit, rem).1),
{
    let n = m.len() as int;
    let km = filter_range(m, rem, 0, n);
    let lo = first_ut_from(km, 0);
    let hi = last_ut(km);
    let f = spec_truncate(m, t, limit, rem).1;
    assert(f == km.subrange(lo, hi + 1));
    lemma_last_ut_props(km);
    lemma_first_ut_from_props(km, 0);
    assert(lo <= hi) by {
        if lo > hi {
            assert(!km[hi].is_user_text_only());
        }
    }
    assert forall|p: int| 0 <= p < f.len() - 1 implies (#[trigger] f[p]).role != f[p + 1].role by {
        assert(f[p] == km[lo + p]);
        assert(f[p + 1] == km[lo + p + 1]);
        assert(km[lo + p] == m[start + lo + p]);
        assert(km[lo + p + 1] == m[start + lo + p + 1]);
    }
}

/// For any tool id, the truncated conversation holds a tool-call message
/// with that id exactly when it holds a tool-response message with it:
/// both sides of a tool interaction are present, or both are absent.
pub proof fn lemma_truncate_tool_pairing_two_sided(
    m: Seq<Message>,
    t: Seq<usize>,
    limit: int,
    rem: spec_fn(int) -> bool,
    tid: Seq<char>,
)
    requires
        m.len() == t.len(),
        sum_tokens(t) > limit,
        spec_truncate(m, t, limit, rem).0 is Ok,
        pairs_adjacent(m),
        forall|i: int, j: int|
            0 <= i < m.len() && 0 <= j < m.len() && #[trigger] rem(i) && m[i].spec_tool_id()
                is Some && m[i].spec_tool_id() == m[j].spec_tool_id() ==> #[trigger] rem(j),
    ensures
        (exists|p: int|
            0 <= p < spec_truncate(m, t, limit, rem).1.len() && (#[trigger] spec_truncate(
                m,
                t,
                limit,
                rem,
            ).1[p]).spec_is_tool_call() && spec_truncate(m, t, limit, rem).1[p].spec_tool_id()
                == Some(tid)) <==> (exists|p: int|
            0 <= p < spec_truncate(m, t, limit, rem).1.len() && (#[trigger] spec_truncate(
                m,
                t,
                limit,
                rem,
            ).1[p]).spec_is_tool_response() && spec_truncate(m, t, limit, rem).1[p].spec_tool_id()
                == Some(tid)),
{
    lemma_truncate_tool_pairing(m, t, limit, rem);
    let f = spec_truncate(m, t, limit, rem).1;
    if exists|p: int|
        0 <= p < f.len() && (#[trigger] f[p]).spec_is_tool_call() && f[p].spec_tool_id() == Some(
            tid,
        ) {
        let p = choose|p: int|
            0 <= p < f.len() && (#[trigger] f[p]).spec_is_tool_call() && f[p].spec_tool_id()
                == Some(tid);
        assert(f[p + 1].spec_is_tool_response() && f[p + 1].spec_tool_id() == Some(tid));
    }
    if exists|p: int|
        0 <= p < f.len() && (#[trigger] f[p]).spec_is_tool_response() && f[p].spec_tool_id()
            == Some(tid) {
        let p = choose|p: int|
            0 <= p < f.len() && (#[trigger] f[p]).spec_is_tool_response() && f[p].spec_tool_id()
                == Some(tid);
        assert(f[p - 1].spec_is_tool_call() && f[p - 1].spec_tool_id() == Some(tid));
    }
}

/// A removal set that brings the kept token counts within the limit — as
/// every strategy's contract demands — never ends in a budget error: the
/// head and tail fixup only shrink the kept total further.
pub proof fn lemma_sufficient_removal_never_budget_error(
    m: Seq<Message>,
    t: Seq<usize>,
    limit: int,
    rem: spec_fn(int) -> bool,
)
    requires
        m.len() == t.len(),
        sum_tokens(filter_range(t, rem, 0, t.len() as int)) <= limit,
    ensures
        spec_truncate(m, t, limit, rem).0 != Err::<(), TruncationError>(
            TruncationError::BudgetExceeded,
        ),
{
    let n = t.len() as int;
    let km = filter_range(m, rem, 0, n);
    let kt = filter_range(t, rem, 0, n);
    if feasible(m, t, limit) && sum_tokens(t) > limit && has_user_text(km) {
        let lo = first_ut_from(km, 0);
        let hi = last_ut(km);
        lemma_last_ut_props(km);
        lemma_first_ut_from_props(km, 0);
        assert(lo <= hi) by {
            if lo > hi {
                assert(!km[hi].is_user_text_only());
            }
        }
        lemma_filter_range_len_eq(m, t, rem, 0, n);
        crate::filtering::lemma_sum_tokens_subrange_le(kt, lo, hi + 1);
    }
}

/// A single message whose token count alone exceeds the limit is
/// infeasible.
pub proof fn lemma_truncate_oversized_single_infeasible(
    m: Seq<Message>,
    t: Seq<usize>,
    limit: int,
    rem: spec_fn(int) -> bool,
)
    requires
        m.len() == 1,
        t.len() == 1,
        t[0] > limit,
    ensures
        spec_truncate(m, t, limit, rem).0 == Err::<(), TruncationError>(
            TruncationError::Infeasible,
        ),
{
}

} // verus!
