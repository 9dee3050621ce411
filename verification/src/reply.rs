//! The decision core of the agent reply loop. The loop itself is driven by a
//! caller that talks to the provider and dispatches tools; every decision —
//! which tools to offer, what to do with a completion outcome, how to pair
//! tool outputs back to their requests, and what to append to the working
//! conversation — is made here and verified.

use vstd::prelude::*;

use crate::budget::{lemma_sum_tokens_push, sum_tokens};
use crate::message::{Content, Message, Role, ToolCall};
use crate::truncate::{
    lemma_spec_truncate_congruent, lemma_spec_truncate_sum_le, middle_removes, oldest_removes,
    spec_truncate, strategy_rem, truncate_messages, MiddleOutTruncation, OldestFirstTruncation,
    TruncationError,
};

verus! {

/// A tool offered to the provider: a name, what it does, and its input
/// schema carried as JSON text.
#[derive(PartialEq, Debug)]
pub struct Tool {
    pub name: String,
    pub description: String,
    pub input_schema: String,
}

impl Tool {
    pub fn new(name: &str, description: &str, input_schema: &str) -> (t: Tool)
        ensures
            t.name@ == name@,
            t.description@ == description@,
            t.input_schema@ == input_schema@,
    {
        Tool {
            name: name.to_owned(),
            description: description.to_owned(),
            input_schema: input_schema.to_owned(),
        }
    }
}

/// The synthetic tool that reads one resource from an extension.
pub fn read_resource_tool() -> (t: Tool)
    ensures
        t.name@ == "platform__read_resource"@,
        t.description@
            == "Read a resource from an extension.\n\nResources allow extensions to share data that provide context to LLMs, such as\nfiles, database schemas, or application-specific information. This tool searches for the\nresource URI in the provided extension, and reads in the resource content. If no extension\nis provided, the tool will search all extensions for the resource.\n"@,
        t.input_schema@
            == "{\"type\":\"object\",\"required\":[\"uri\"],\"properties\":{\"uri\":{\"type\":\"string\",\"description\":\"Resource URI\"},\"extension_name\":{\"type\":\"string\",\"description\":\"Optional extension name\"}}}"@,
{
    Tool::new(
        "platform__read_resource",
        "Read a resource from an extension.\n\nResources allow extensions to share data that provide context to LLMs, such as\nfiles, database schemas, or application-specific information. This tool searches for the\nresource URI in the provided extension, and reads in the resource content. If no extension\nis provided, the tool will search all extensions for the resource.\n",
        "{\"type\":\"object\",\"required\":[\"uri\"],\"properties\":{\"uri\":{\"type\":\"string\",\"description\":\"Resource URI\"},\"extension_name\":{\"type\":\"string\",\"description\":\"Optional extension name\"}}}",
    )
}

/// The synthetic tool that lists the resources extensions offer.
pub fn list_resources_tool() -> (t: Tool)
    ensures
        t.name@ == "platform__list_resources"@,
        t.description@
            == "List resources from an extension(s).\n\nResources allow extensions to share data that provide context to LLMs, such as\nfiles, database schemas, or application-specific information. This tool lists resources\nin the provided extension, and returns a list for the user to browse. If no extension\nis provided, the tool will search all extensions for the resource.\n"@,
        t.input_schema@
            == "{\"type\":\"object\",\"properties\":{\"extension_name\":{\"type\":\"string\",\"description\":\"Optional extension name\"}}}"@,
{
    Tool::new(
        "platform__list_resources",
        "List resources from an extension(s).\n\nResources allow extensions to share data that provide context to LLMs, such as\nfiles, database schemas, or application-specific information. This tool lists resources\nin the provided extension, and returns a list for the user to browse. If no extension\nis provided, the tool will search all extensions for the resource.\n",
        "{\"type\":\"object\",\"properties\":{\"extension_name\":{\"type\":\"string\",\"description\":\"Optional extension name\"}}}",
    )
}

/// Appends the two synthetic resource tools when the extensions support
/// resources; otherwise leaves the tool list alone.
pub fn prepare_tools(tools: &mut Vec<Tool>, supports_resources: bool)
    ensures
        !supports_resources ==> final(tools)@ == old(tools)@,
        supports_resources ==> ({
            &&& final(tools)@.len() == old(tools)@.len() + 2
            &&& final(tools)@.subrange(0, old(tools)@.len() as int) == old(tools)@
            &&& final(tools)@[old(tools)@.len() as int].name@ == "platform__read_resource"@
            &&& final(tools)@[old(tools)@.len() as int + 1].name@ == "platform__list_resources"@
        }),
{
    if supports_resources {
        tools.push(read_resource_tool());
        tools.push(list_resources_tool());
        proof {
            assert(tools@.subrange(0, old(tools)@.len() as int) =~= old(tools)@);
        }
    }
}

/// One tool request found in an assistant message: its id and the parsed
/// call, or the parse failure.
#[derive(PartialEq, Debug)]
pub struct ToolRequestItem {
    pub id: String,
    pub call: Result<ToolCall, String>,
}

/// The tool requests of a content sequence, in order.
pub open spec fn spec_tool_requests(c: Seq<Content>) -> Seq<ToolRequestItem>
    decreases c.len(),
{
    if c.len() == 0 {
        Seq::empty()
    } else {
        (match c[0] {
            Content::ToolRequest { id, call } => seq![ToolRequestItem { id, call }],
            _ => Seq::empty(),
        }) + spec_tool_requests(c.drop_first())
    }
}

/// How many requests parsed into a dispatchable call.
pub open spec fn count_ok(reqs: Seq<ToolRequestItem>) -> int
    decreases reqs.len(),
{
    if reqs.len() == 0 {
        0
    } else {
        (if reqs[0].call is Ok {
            1int
        } else {
            0int
        }) + count_ok(reqs.drop_first())
    }
}

/// The dispatchable calls among the requests, in request order.
pub open spec fn spec_ok_calls(reqs: Seq<ToolRequestItem>) -> Seq<ToolCall>
    decreases reqs.len(),
{
    if reqs.len() == 0 {
        Seq::empty()
    } else {
        (match reqs[0].call {
            Ok(c) => seq![c],
            Err(_) => Seq::empty(),
        }) + spec_ok_calls(reqs.drop_first())
    }
}

fn clone_tool_call(call: &ToolCall) -> (c: ToolCall)
    ensures
        c == *call,
{
    ToolCall { name: call.name.clone(), arguments: call.arguments.clone() }
}

fn clone_call_result(call: &Result<ToolCall, String>) -> (c: Result<ToolCall, String>)
    ensures
        c == *call,
{
    match call {
        Ok(tc) => Ok(clone_tool_call(tc)),
        Err(e) => Err(e.clone()),
    }
}

/// The tool requests carried by an assistant message, in order.
#[verifier::loop_isolation(false)]
pub fn extract_tool_requests(message: &Message) -> (reqs: Vec<ToolRequestItem>)
    ensures
        reqs@ == spec_tool_requests(message.content@),
{
    let c = &message.content;
    let ghost cs = message.content@;
    let mut reqs: Vec<ToolRequestItem> = Vec::new();
    let mut i: usize = 0;
    proof {
        assert(cs.subrange(0, cs.len() as int) =~= cs);
    }
    while i < c.len()
        invariant
            0 <= i <= cs.len(),
            reqs@ + spec_tool_requests(cs.subrange(i as int, cs.len() as int))
                == spec_tool_requests(cs),
        decreases cs.len() - i,
    {
        proof {
            assert(cs.subrange(i as int, cs.len() as int).drop_first() =~= cs.subrange(
                i + 1,
                cs.len() as int,
            ));
        }
        let ghost reqs_old = reqs@;
        match &c[i] {
            Content::ToolRequest { id, call } => {
                let item = ToolRequestItem { id: id.clone(), call: clone_call_result(call) };
                reqs.push(item);
                proof {
                    assert(reqs@ + spec_tool_requests(cs.subrange(i + 1, cs.len() as int)) =~= (
                    reqs_old + spec_tool_requests(cs.subrange(i as int, cs.len() as int))));
                }
            },
            _ => {},
        }
        i = i + 1;
    }
    proof {
        assert(cs.subrange(cs.len() as int, cs.len() as int) =~= Seq::<Content>::empty());
        assert(reqs@ + Seq::<ToolRequestItem>::empty() =~= reqs@);
    }
    reqs
}

/// The dispatchable calls among the requests, in request order.
#[verifier::loop_isolation(false)]
pub fn ok_calls(requests: &Vec<ToolRequestItem>) -> (calls: Vec<ToolCall>)
    ensures
        calls@ == spec_ok_calls(requests@),
{
    let ghost rs = requests@;
    let mut calls: Vec<ToolCall> = Vec::new();
    let mut i: usize = 0;
    proof {
        assert(rs.subrange(0, rs.len() as int) =~= rs);
    }
    while i < requests.len()
        invariant
            0 <= i <= rs.len(),
            calls@ + spec_ok_calls(rs.subrange(i as int, rs.len() as int)) == spec_ok_calls(rs),
        decreases rs.len() - i,
    {
        proof {
            assert(rs.subrange(i as int, rs.len() as int).drop_first() =~= rs.subrange(
                i + 1,
                rs.len() as int,
            ));
        }
        let ghost calls_old = calls@;
        match &requests[i].call {
            Ok(tc) => {
                calls.push(clone_tool_call(tc));
                proof {
                    assert(calls@ + spec_ok_calls(rs.subrange(i + 1, rs.len() as int)) =~= (
                    calls_old + spec_ok_calls(rs.subrange(i as int, rs.len() as int))));
                }
            },
            Err(_) => {},
        }
        i = i + 1;
    }
    proof {
        assert(rs.subrange(rs.len() as int, rs.len() as int) =~= Seq::<ToolRequestItem>::empty());
        assert(calls@ + Seq::<ToolCall>::empty() =~= calls@);
    }
    calls
}

/// The content of the synthesized tool-response message: one tool response
/// per request, in request order; requests whose call parsed take the next
/// dispatch output, the rest carry their parse failure as an error result.
pub open spec fn spec_response_content(
    reqs: Seq<ToolRequestItem>,
    outs: Seq<Result<Vec<Content>, String>>,
) -> Seq<Content>
    decreases reqs.len(),
{
    if reqs.len() == 0 {
        Seq::empty()
    } else {
        match reqs[0].call {
            Ok(_) => seq![Content::ToolResponse { id: reqs[0].id, result: outs[0] }]
                + spec_response_content(reqs.drop_first(), outs.drop_first()),
            Err(e) => seq![Content::ToolResponse { id: reqs[0].id, result: Err(e) }]
                + spec_response_content(reqs.drop_first(), outs),
        }
    }
}

/// The synthesized content answers the requests one for one, in order, under
/// the requests' own ids.
pub proof fn lemma_response_content_ids(
    reqs: Seq<ToolRequestItem>,
    outs: Seq<Result<Vec<Content>, String>>,
)
    ensures
        spec_response_content(reqs, outs).len() == reqs.len(),
        forall|i: int|
            0 <= i < reqs.len() ==> (#[trigger] spec_response_content(reqs, outs)[i]
                matches Content::ToolResponse { id, result } && id == reqs[i].id),
    decreases reqs.len(),
{
    if reqs.len() > 0 {
        match reqs[0].call {
            Ok(_) => {
                lemma_response_content_ids(reqs.drop_first(), outs.drop_first());
            },
            Err(_) => {
                lemma_response_content_ids(reqs.drop_first(), outs);
            },
        }
        assert forall|i: int|
            0 <= i < reqs.len() implies (#[trigger] spec_response_content(reqs, outs)[i]
            matches Content::ToolResponse { id, result } && id == reqs[i].id) by {
            if i > 0 {
                assert(reqs.drop_first()[i - 1] == reqs[i]);
            }
        }
    }
}

pub proof fn lemma_count_ok_nonneg(reqs: Seq<ToolRequestItem>)
    ensures
        count_ok(reqs) >= 0,
    decreases reqs.len(),
{
    if reqs.len() > 0 {
        lemma_count_ok_nonneg(reqs.drop_first());
    }
}

/// Builds the single user message that answers one assistant turn's tool
/// requests: one tool response per request, in request order, regardless of
/// the order in which the dispatch outputs arrived; parse failures are
/// carried as error results.
#[verifier::loop_isolation(false)]
pub fn build_tool_response_message(
    requests: &Vec<ToolRequestItem>,
    outputs: Vec<Result<Vec<Content>, String>>,
) -> (m: Message)
    requires
        outputs@.len() == count_ok(requests@),
    ensures
        m.role == Role::User,
        m.content@ == spec_response_content(requests@, outputs@),
        m.content@.len() == requests@.len(),
        forall|i: int|
            0 <= i < requests@.len() ==> (#[trigger] m.content@[i]
                matches Content::ToolResponse { id, result } && id == requests@[i].id),
{
    let ghost rs = requests@;
    let ghost outs0 = outputs@;
    let mut outs = outputs;
    let mut content: Vec<Content> = Vec::new();
    let mut i: usize = 0;
    proof {
        assert(rs.subrange(0, rs.len() as int) =~= rs);
    }
    while i < requests.len()
        invariant
            0 <= i <= rs.len(),
            content@ + spec_response_content(rs.subrange(i as int, rs.len() as int), outs@)
                == spec_response_content(rs, outs0),
            outs@.len() == count_ok(rs.subrange(i as int, rs.len() as int)),
        decreases rs.len() - i,
    {
        proof {
            assert(rs.subrange(i as int, rs.len() as int).drop_first() =~= rs.subrange(
                i + 1,
                rs.len() as int,
            ));
            lemma_count_ok_nonneg(rs.subrange(i + 1, rs.len() as int));
        }
        let ghost content_old = content@;
        let ghost outs_old = outs@;
        match &requests[i].call {
            Ok(_) => {
                let out0 = outs.remove(0);
                let item = Content::ToolResponse { id: requests[i].id.clone(), result: out0 };
                content.push(item);
                proof {
                    assert(outs@ =~= outs_old.drop_first());
                    assert(content@ + spec_response_content(
                        rs.subrange(i + 1, rs.len() as int),
                        outs@,
                    ) =~= (content_old + spec_response_content(
                        rs.subrange(i as int, rs.len() as int),
                        outs_old,
                    )));
                }
            },
            Err(e) => {
                let item = Content::ToolResponse {
                    id: requests[i].id.clone(),
                    result: Err(e.clone()),
                };
                content.push(item);
                proof {
                    assert(content@ + spec_response_content(
                        rs.subrange(i + 1, rs.len() as int),
                        outs@,
                    ) =~= (content_old + spec_response_content(
                        rs.subrange(i as int, rs.len() as int),
                        outs_old,
                    )));
                }
            },
        }
        i = i + 1;
    }
    proof {
        assert(rs.subrange(rs.len() as int, rs.len() as int) =~= Seq::<ToolRequestItem>::empty());
        assert(content@ + Seq::<Content>::empty() =~= content@);
        lemma_response_content_ids(rs, outs0);
    }
    Message { role: Role::User, content }
}

/// Which truncation policy the reply loop was configured with.
#[derive(Clone, Copy, PartialEq, Eq, Structural, Debug)]
pub enum StrategyChoice {
    OldestFirst,
    MiddleOut,
}

/// The removal set of the configured policy.
pub open spec fn choice_removes(
    c: StrategyChoice,
    m: Seq<Message>,
    t: Seq<usize>,
    limit: int,
    i: int,
) -> bool {
    match c {
        StrategyChoice::OldestFirst => oldest_removes(m, t, limit, i),
        StrategyChoice::MiddleOut => middle_removes(m, t, limit, i),
    }
}

/// The removal set of the configured policy, as a predicate value.
pub open spec fn choice_rem(
    c: StrategyChoice,
    m: Seq<Message>,
    t: Seq<usize>,
    limit: int,
) -> spec_fn(int) -> bool {
    |i: int| choice_removes(c, m, t, limit, i)
}

/// Truncates the working conversation with the configured policy.
pub fn run_truncation(
    messages: &mut Vec<Message>,
    token_counts: &mut Vec<usize>,
    context_limit: usize,
    strategy: StrategyChoice,
) -> (result: Result<(), TruncationError>)
    requires
        sum_tokens(old(token_counts)@) <= usize::MAX,
    ensures
        ({
            let r = spec_truncate(
                old(messages)@,
                old(token_counts)@,
                context_limit as int,
                choice_rem(strategy, old(messages)@, old(token_counts)@, context_limit as int),
            );
            result == r.0 && final(messages)@ == r.1 && final(token_counts)@ == r.2
        }),
{
    let ghost m0 = messages@;
    let ghost t0 = token_counts@;
    let ghost lim = context_limit as int;
    match strategy {
        StrategyChoice::OldestFirst => {
            let result = truncate_messages(
                messages,
                token_counts,
                context_limit,
                &OldestFirstTruncation,
            );
            proof {
                lemma_spec_truncate_congruent(
                    m0,
                    t0,
                    lim,
                    strategy_rem(OldestFirstTruncation, m0, t0, lim),
                    choice_rem(strategy, m0, t0, lim),
                );
            }
            result
        },
        StrategyChoice::MiddleOut => {
            let result = truncate_messages(
                messages,
                token_counts,
                context_limit,
                &MiddleOutTruncation,
            );
            proof {
                lemma_spec_truncate_congruent(
                    m0,
                    t0,
                    lim,
                    strategy_rem(MiddleOutTruncation, m0, t0, lim),
                    choice_rem(strategy, m0, t0, lim),
                );
            }
            result
        },
    }
}

/// The reply loop's working state: the conversation so far, its parallel
/// token counts, the budget truncation aims for, and the configured policy.
pub struct ReplyState {
    pub messages: Vec<Message>,
    pub token_counts: Vec<usize>,
    pub context_limit: usize,
    pub strategy: StrategyChoice,
}

impl ReplyState {
    /// The two sequences stay parallel and their total stays representable.
    pub open spec fn wf(self) -> bool {
        self.messages@.len() == self.token_counts@.len() && sum_tokens(self.token_counts@)
            <= usize::MAX
    }

    pub fn new(
        messages: Vec<Message>,
        token_counts: Vec<usize>,
        context_limit: usize,
        strategy: StrategyChoice,
    ) -> (s: ReplyState)
        requires
            messages@.len() == token_counts@.len(),
            sum_tokens(token_counts@) <= usize::MAX,
        ensures
            s.messages == messages,
            s.token_counts == token_counts,
            s.context_limit == context_limit,
            s.strategy == strategy,
            s.wf(),
    {
        ReplyState { messages, token_counts, context_limit, strategy }
    }
}

/// What one provider call came back as: a completed assistant message, a
/// context-window overflow, or some other failure described as text.
#[derive(PartialEq, Debug)]
pub enum CompletionOutcome {
    Success(Message),
    ContextLengthExceeded(String),
    Other(String),
}

/// What the loop driver must do next.
#[derive(PartialEq, Debug)]
pub enum ReplyAction {
    /// Emit the assistant message and stop: it requested no tools.
    Complete,
    /// Emit the assistant message, dispatch these calls in parallel, then
    /// build and append the turn with `build_tool_response_message` and
    /// `append_turn`.
    Dispatch(Vec<ToolCall>),
    /// The conversation was truncated; resubmit it without emitting.
    Retry,
    /// Truncation failed; surface the error and stop.
    Abort(TruncationError),
    /// Another provider error; emit this synthesized user message.
    EmitError(Message),
}

/// Decides what the reply loop does with one completion outcome. A success
/// leaves the state alone: the caller appends the turn after dispatch. A
/// context-window overflow truncates the working conversation in place and
/// asks for a retry, or aborts when truncation failed. Any other failure is
/// turned into a user-visible error message.
pub fn reply_step(state: &mut ReplyState, outcome: &CompletionOutcome) -> (action: ReplyAction)
    requires
        old(state).wf(),
    ensures
        final(state).wf(),
        final(state).context_limit == old(state).context_limit,
        final(state).strategy == old(state).strategy,
        (*outcome matches CompletionOutcome::Success(response) ==> *final(state) == *old(state) && (
        if spec_tool_requests(response.content@).len() == 0 {
            action is Complete
        } else {
            action matches ReplyAction::Dispatch(calls) && calls@ == spec_ok_calls(
                spec_tool_requests(response.content@),
            )
        })),
        (*outcome matches CompletionOutcome::ContextLengthExceeded(_) ==> ({
            let r = spec_truncate(
                old(state).messages@,
                old(state).token_counts@,
                old(state).context_limit as int,
                choice_rem(
                    old(state).strategy,
                    old(state).messages@,
                    old(state).token_counts@,
                    old(state).context_limit as int,
                ),
            );
            final(state).messages@ == r.1 && final(state).token_counts@ == r.2 && (match r.0 {
                Ok(_) => action is Retry,
                Err(e) => action matches ReplyAction::Abort(e2) && e2 == e,
            })
        })),
        (*outcome matches CompletionOutcome::Other(desc) ==> *final(state) == *old(state) && (action
            matches ReplyAction::EmitError(msg) && msg.role == Role::User && msg.content@.len()
            == 1 && (msg.content@[0] matches Content::Text(txt) && txt@ == "Error: "@ + desc@))),
{
    match outcome {
        CompletionOutcome::Success(response) => {
            let reqs = extract_tool_requests(response);
            if reqs.len() == 0 {
                ReplyAction::Complete
            } else {
                ReplyAction::Dispatch(ok_calls(&reqs))
            }
        },
        CompletionOutcome::ContextLengthExceeded(_) => {
            let limit = state.context_limit;
            let strategy = state.strategy;
            let result = run_truncation(
                &mut state.messages,
                &mut state.token_counts,
                limit,
                strategy,
            );
            proof {
                lemma_spec_truncate_sum_le(
                    old(state).messages@,
                    old(state).token_counts@,
                    limit as int,
                    choice_rem(
                        old(state).strategy,
                        old(state).messages@,
                        old(state).token_counts@,
                        limit as int,
                    ),
                );
            }
            match result {
                Ok(_) => ReplyAction::Retry,
                Err(e) => ReplyAction::Abort(e),
            }
        },
        CompletionOutcome::Other(desc) => {
            let mut text = "Error: ".to_owned();
            text.append(desc.as_str());
            let m = Message::user().with_text(text.as_str());
            proof {
                assert(m.content@[0] == m.content@.last());
            }
            ReplyAction::EmitError(m)
        },
    }
}

/// Appends one completed turn — the assistant response and the synthesized
/// tool-response message — to the working conversation, with their token
/// counts.
pub fn append_turn(
    state: &mut ReplyState,
    response: Message,
    response_tokens: usize,
    tool_response: Message,
    tool_response_tokens: usize,
)
    requires
        old(state).wf(),
        sum_tokens(old(state).token_counts@) + response_tokens + tool_response_tokens
            <= usize::MAX,
    ensures
        final(state).wf(),
        final(state).messages@ == old(state).messages@.push(response).push(tool_response),
        final(state).token_counts@ == old(state).token_counts@.push(response_tokens).push(
            tool_response_tokens,
        ),
        final(state).context_limit == old(state).context_limit,
        final(state).strategy == old(state).strategy,
{
    proof {
        lemma_sum_tokens_push(state.token_counts@, response_tokens);
        lemma_sum_tokens_push(
            state.token_counts@.push(response_tokens),
            tool_response_tokens,
        );
    }
    state.messages.push(response);
    state.token_counts.push(response_tokens);
    state.messages.push(tool_response);
    state.token_counts.push(tool_response_tokens);
}

} // verus!
