//! Tests of the conversation truncator and its two strategies.

use goose::message::{Content, Message, ToolCall};
use goose::truncate::{
    truncate_messages, MiddleOutTruncation, OldestFirstTruncation, TruncationError,
};

fn user_text(content: &str, tokens: usize) -> (Message, usize) {
    (Message::user().with_text(content), tokens)
}

fn assistant_text(content: &str, tokens: usize) -> (Message, usize) {
    (Message::assistant().with_text(content), tokens)
}

fn assistant_tool_request(id: &str, tool_call: ToolCall, tokens: usize) -> (Message, usize) {
    (Message::assistant().with_tool_request(id, Ok(tool_call)), tokens)
}

fn user_tool_response(id: &str, result: Vec<Content>, tokens: usize) -> (Message, usize) {
    (Message::user().with_tool_response(id, Ok(result)), tokens)
}

fn example_call() -> ToolCall {
    ToolCall::new("example_tool", "{\"param\":\"value\"}")
}

#[test]
fn test_oldest_first_no_truncation() {
    let mut messages = vec![user_text("Hello!", 10).0, assistant_text("Hi there!", 10).0];
    let mut token_counts = vec![10, 10];
    let context_limit = 25; // Total tokens = 20 < 25

    let result = truncate_messages(
        &mut messages,
        &mut token_counts,
        context_limit,
        &OldestFirstTruncation,
    );

    assert!(result.is_ok());
    let expected = vec![user_text("Hello!", 10).0, assistant_text("Hi there!", 10).0];
    assert_eq!(messages, expected);
    assert_eq!(token_counts, vec![10, 10]);
}

#[test]
fn test_oldest_first_truncation() {
    let mut messages = vec![
        user_text("Hello!", 10).0,
        assistant_text("Hi there!", 10).0,
        user_text("How are you?", 10).0,
        assistant_text("I'm fine.", 10).0,
    ];
    let mut token_counts = vec![10, 10, 10, 10];
    let context_limit = 25;

    let result = truncate_messages(
        &mut messages,
        &mut token_counts,
        context_limit,
        &OldestFirstTruncation,
    );

    // The strategy drops the two oldest messages; the tail fixup then pops
    // the trailing assistant message so a user text message is last.
    assert!(result.is_ok());
    let expected = vec![user_text("How are you?", 10).0];
    assert_eq!(messages, expected);
    assert_eq!(token_counts, vec![10]);
}

#[test]
fn test_middle_out_truncation() {
    let mut messages = vec![
        user_text("Msg 1", 10).0,
        assistant_text("Msg 2", 10).0,
        user_text("Msg 3", 10).0,
        assistant_text("Msg 4", 10).0,
        user_text("Msg 5", 10).0,
    ];
    let mut token_counts = vec![10, 10, 10, 10, 10];
    let context_limit = 30;

    let result = truncate_messages(
        &mut messages,
        &mut token_counts,
        context_limit,
        &MiddleOutTruncation,
    );

    // The middle window is removed; the earliest and latest context stay.
    assert!(result.is_ok());
    let expected = vec![
        user_text("Msg 1", 10).0,
        assistant_text("Msg 2", 10).0,
        user_text("Msg 5", 10).0,
    ];
    assert_eq!(messages, expected);
    assert_eq!(token_counts, vec![10, 10, 10]);
    // The first message survives, the last is a user text message, and the
    // total fits.
    assert_eq!(messages[0], user_text("Msg 1", 10).0);
    let last = messages.last().unwrap();
    assert!(last.has_only_text_content());
    assert!(token_counts.iter().sum::<usize>() <= 30);
}

#[test]
fn test_truncation_with_tool_pairs() {
    let mut messages = vec![
        user_text("Hello!", 10).0,
        assistant_tool_request("tool1", example_call(), 10).0,
        user_tool_response("tool1", vec![Content::text("Result")], 10).0,
        assistant_text("How can I assist you?", 10).0,
    ];
    let mut token_counts = vec![10, 10, 10, 10];
    let context_limit = 25;

    let result = truncate_messages(
        &mut messages,
        &mut token_counts,
        context_limit,
        &OldestFirstTruncation,
    );

    // Dropping the opening turn takes the whole tool pair with it; only an
    // assistant message remains, the fixups empty the conversation, and no
    // user text message survives.
    assert_eq!(result, Err(TruncationError::Infeasible));
    assert!(messages.is_empty());
    assert!(token_counts.is_empty());
}

#[test]
fn test_truncation_only_tool_messages() {
    let tool_call1 = ToolCall::new("tool1", "{\"param\":\"value1\"}");
    let tool_call2 = ToolCall::new("tool2", "{\"param\":\"value2\"}");
    let mut messages = vec![
        assistant_tool_request("tool1", tool_call1, 10).0,
        user_tool_response("tool1", vec![Content::text("Result1")], 10).0,
        assistant_tool_request("tool2", tool_call2, 10).0,
        user_tool_response("tool2", vec![Content::text("Result2")], 10).0,
    ];
    let mut token_counts = vec![10, 10, 10, 10];
    let context_limit = 15;

    let result = truncate_messages(
        &mut messages,
        &mut token_counts,
        context_limit,
        &OldestFirstTruncation,
    );

    // No user text-only message exists at all, so no truncation can produce
    // a well-formed conversation; the input is left untouched.
    assert_eq!(result, Err(TruncationError::Infeasible));
    assert_eq!(messages.len(), 4);
    assert_eq!(token_counts, vec![10, 10, 10, 10]);
}

#[test]
fn test_truncate_last_message_non_user_text() {
    let mut messages = vec![
        user_text("Hello!", 10).0,
        assistant_text("Hi!", 10).0,
        assistant_text("How can I help you?", 10).0,
    ];
    let mut token_counts = vec![10, 10, 10];
    let context_limit = 20;

    let result = truncate_messages(
        &mut messages,
        &mut token_counts,
        context_limit,
        &OldestFirstTruncation,
    );

    // The only user text message is dropped by the strategy; the assistant
    // tail is then popped entirely and nothing well-formed remains.
    assert_eq!(result, Err(TruncationError::Infeasible));
    assert!(messages.is_empty());
    assert!(token_counts.is_empty());
}

#[test]
fn test_no_messages() {
    let mut messages: Vec<Message> = vec![];
    let mut token_counts: Vec<usize> = vec![];
    let context_limit = 10;

    let result = truncate_messages(
        &mut messages,
        &mut token_counts,
        context_limit,
        &OldestFirstTruncation,
    );

    // An empty conversation has no user text message to keep.
    assert_eq!(result, Err(TruncationError::Infeasible));
    assert!(messages.is_empty());
    assert!(token_counts.is_empty());
}

#[test]
fn test_context_limit_zero() {
    let mut messages = vec![user_text("Hello!", 10).0, assistant_text("Hi!", 10).0];
    let mut token_counts = vec![10, 10];
    let context_limit = 0;

    let result = truncate_messages(
        &mut messages,
        &mut token_counts,
        context_limit,
        &OldestFirstTruncation,
    );

    assert!(result.is_err());
    assert_eq!(result, Err(TruncationError::Infeasible));
}

#[test]
fn test_truncate_exact_context_limit() {
    let mut messages = vec![
        user_text("Hello!", 10).0,
        assistant_text("Hi there!", 10).0,
        user_text("How are you?", 10).0,
    ];
    let mut token_counts = vec![10, 10, 10];
    let context_limit = 30; // Exactly the total tokens

    let result = truncate_messages(
        &mut messages,
        &mut token_counts,
        context_limit,
        &OldestFirstTruncation,
    );

    assert!(result.is_ok());
    let expected = vec![
        user_text("Hello!", 10).0,
        assistant_text("Hi there!", 10).0,
        user_text("How are you?", 10).0,
    ];
    assert_eq!(messages, expected);
    assert_eq!(token_counts, vec![10, 10, 10]);
}

#[test]
fn test_last_message_is_user_text() {
    let mut messages = vec![
        user_text("Hello!", 10).0,
        assistant_text("Hi!", 10).0,
        assistant_text("How can I assist you?", 10).0,
    ];
    let mut token_counts = vec![10, 10, 10];
    let context_limit = 20;

    let result = truncate_messages(
        &mut messages,
        &mut token_counts,
        context_limit,
        &OldestFirstTruncation,
    );

    // As in the case above: once the user text message is dropped, the tail
    // fixup leaves nothing, which is infeasible.
    assert_eq!(result, Err(TruncationError::Infeasible));
    assert!(messages.is_empty());
}

#[test]
fn test_middle_out_truncation_with_tool_pairs() {
    let tool_call = ToolCall::new("tool_middle", "{\"param\":\"value\"}");
    let mut messages = vec![
        user_text("Msg 1", 10).0,
        assistant_text("Msg 2", 10).0,
        assistant_tool_request("tool_middle", tool_call, 10).0,
        user_tool_response("tool_middle", vec![Content::text("Result")], 10).0,
        assistant_text("Msg 4", 10).0,
        user_text("Msg 5", 10).0,
    ];
    let mut token_counts = vec![10, 10, 10, 10, 10, 10];
    let context_limit = 40; // Total tokens = 60, need to remove 20 tokens

    let result = truncate_messages(
        &mut messages,
        &mut token_counts,
        context_limit,
        &MiddleOutTruncation,
    );

    // The middle tool pair is removed whole.
    assert!(result.is_ok());
    let expected = vec![
        user_text("Msg 1", 10).0,
        assistant_text("Msg 2", 10).0,
        assistant_text("Msg 4", 10).0,
        user_text("Msg 5", 10).0,
    ];
    assert_eq!(messages, expected);
    assert_eq!(token_counts, vec![10, 10, 10, 10]);
}

#[test]
fn test_truncation_multiple_tool_pairs() {
    let tool_call1 = ToolCall::new("tool1", "{\"param\":\"value1\"}");
    let tool_call2 = ToolCall::new("tool2", "{\"param\":\"value2\"}");
    let mut messages = vec![
        user_text("Hello!", 10).0,
        assistant_tool_request("tool1", tool_call1, 10).0,
        user_tool_response("tool1", vec![Content::text("Result1")], 10).0,
        assistant_tool_request("tool2", tool_call2, 10).0,
        user_tool_response("tool2", vec![Content::text("Result2")], 10).0,
        assistant_text("How can I help?", 10).0,
    ];
    let mut token_counts = vec![10, 10, 10, 10, 10, 10];
    let context_limit = 20;

    let result = truncate_messages(
        &mut messages,
        &mut token_counts,
        context_limit,
        &OldestFirstTruncation,
    );

    // Both tool pairs go with the prefix; only an assistant message remains,
    // which the tail fixup pops, and nothing well-formed is left.
    assert_eq!(result, Err(TruncationError::Infeasible));
    assert!(messages.is_empty());
}

#[test]
fn test_truncate_tool_request_without_response() {
    let tool_call = ToolCall::new("tool1", "{\"param\":\"value\"}");
    let mut messages = vec![
        user_text("Hello!", 10).0,
        assistant_tool_request("tool1", tool_call, 10).0,
        assistant_text("How can I assist?", 10).0,
    ];
    let mut token_counts = vec![10, 10, 10];
    let context_limit = 15;

    let result = truncate_messages(
        &mut messages,
        &mut token_counts,
        context_limit,
        &OldestFirstTruncation,
    );

    // The unpaired tool request is removed with the prefix; the remaining
    // assistant message cannot end a well-formed conversation.
    assert_eq!(result, Err(TruncationError::Infeasible));
    assert!(messages.is_empty());
}

#[test]
fn test_truncate_preserve_tool_response_with_request() {
    let tool_call = ToolCall::new("tool1", "{\"param\":\"value\"}");
    let mut messages = vec![
        user_text("Hello!", 10).0,
        assistant_text("Hi there!", 10).0,
        assistant_tool_request("tool1", tool_call, 10).0,
        user_tool_response("tool1", vec![Content::text("Result")], 10).0,
        assistant_text("How can I help you?", 10).0,
    ];
    let mut token_counts = vec![10, 10, 10, 10, 10];
    let context_limit = 30; // Total tokens = 50, need to remove 20 tokens

    let result = truncate_messages(
        &mut messages,
        &mut token_counts,
        context_limit,
        &MiddleOutTruncation,
    );

    // The middle window takes the tool pair out together; the tail fixup
    // then trims back to the opening user message.
    assert!(result.is_ok());
    let expected = vec![user_text("Hello!", 10).0];
    assert_eq!(messages, expected);
    assert_eq!(token_counts, vec![10]);
}

#[test]
fn test_truncate_fail_due_to_large_last_message() {
    let mut messages = vec![
        user_text("Hello!", 10).0,
        assistant_text("Hi there!", 10).0,
        user_text(
            "This is a very long message that cannot be truncated further.",
            50,
        )
        .0,
    ];
    let mut token_counts = vec![10, 10, 50];
    let context_limit = 30; // The last message alone exceeds the limit

    let result = truncate_messages(
        &mut messages,
        &mut token_counts,
        context_limit,
        &OldestFirstTruncation,
    );

    assert!(result.is_err());
}

#[test]
fn test_shape_error_on_mismatched_lengths() {
    let mut messages = vec![user_text("Hello!", 10).0, assistant_text("Hi!", 10).0];
    let mut token_counts = vec![10];
    let result = truncate_messages(&mut messages, &mut token_counts, 25, &OldestFirstTruncation);
    assert_eq!(result, Err(TruncationError::Shape));
    // Nothing is touched on a shape error.
    assert_eq!(messages.len(), 2);
    assert_eq!(token_counts, vec![10]);
}

#[test]
fn test_zero_cost_message_fits_zero_limit() {
    // A user text message counted at zero tokens fits any limit, so a zero
    // limit is feasible and the conversation already fits: nothing changes.
    let mut messages = vec![user_text("", 0).0];
    let mut token_counts = vec![0];
    let result = truncate_messages(&mut messages, &mut token_counts, 0, &OldestFirstTruncation);
    assert!(result.is_ok());
    assert_eq!(messages, vec![user_text("", 0).0]);
    assert_eq!(token_counts, vec![0]);
}

#[test]
fn test_single_oversized_user_message_infeasible() {
    let mut messages = vec![user_text("far too big on its own", 40).0];
    let mut token_counts = vec![40];
    let result = truncate_messages(&mut messages, &mut token_counts, 30, &OldestFirstTruncation);
    assert_eq!(result, Err(TruncationError::Infeasible));
}

#[test]
fn test_lengths_stay_parallel_and_never_grow() {
    let mut messages = vec![
        user_text("a", 10).0,
        assistant_text("b", 10).0,
        user_text("c", 10).0,
        assistant_text("d", 10).0,
        user_text("e", 10).0,
    ];
    let mut token_counts = vec![10, 10, 10, 10, 10];
    let before = messages.len();
    let result = truncate_messages(&mut messages, &mut token_counts, 35, &OldestFirstTruncation);
    assert!(result.is_ok());
    assert_eq!(messages.len(), token_counts.len());
    assert!(messages.len() <= before);
}

#[test]
fn test_middle_out_falls_back_to_oldest_first() {
    // Removing the whole middle window still leaves 90 tokens against a
    // limit of 50, so the strategy falls back to dropping the oldest
    // messages first.
    let mut messages = vec![
        user_text("m1", 40).0,
        assistant_text("m2", 10).0,
        user_text("m3", 10).0,
        assistant_text("m4", 10).0,
        user_text("m5", 40).0,
    ];
    let mut token_counts = vec![40, 10, 10, 10, 40];
    let result = truncate_messages(&mut messages, &mut token_counts, 50, &MiddleOutTruncation);
    assert!(result.is_ok());
    assert_eq!(messages, vec![user_text("m5", 40).0]);
    assert_eq!(token_counts, vec![40]);
}

#[test]
fn test_oldest_first_keeps_alternation_and_pairs() {
    let tool_call = ToolCall::new("probe", "{}");
    let mut messages = vec![
        user_text("opening", 30).0,
        assistant_text("reply", 10).0,
        user_text("next", 10).0,
        assistant_tool_request("t", tool_call, 10).0,
        user_tool_response("t", vec![Content::text("out")], 10).0,
        assistant_text("done", 10).0,
        user_text("thanks", 10).0,
    ];
    let mut token_counts = vec![30, 10, 10, 10, 10, 10, 10];
    let result = truncate_messages(&mut messages, &mut token_counts, 60, &OldestFirstTruncation);
    assert!(result.is_ok());
    assert_eq!(messages.len(), 5);
    // Roles still strictly alternate and the tool pair survived whole.
    for i in 0..messages.len() - 1 {
        assert_ne!(messages[i].role, messages[i + 1].role);
    }
    assert!(messages.iter().any(|m| m.is_tool_call()));
    assert!(messages.iter().any(|m| m.is_tool_response()));
}

#[test]
fn test_idempotent_on_well_formed_conversation() {
    let build = || {
        vec![
            user_text("Hello!", 10).0,
            assistant_text("Hi there!", 10).0,
            user_text("Bye.", 10).0,
        ]
    };
    let mut messages = build();
    let mut token_counts = vec![10, 10, 10];
    let result = truncate_messages(&mut messages, &mut token_counts, 100, &MiddleOutTruncation);
    assert!(result.is_ok());
    assert_eq!(messages, build());
    assert_eq!(token_counts, vec![10, 10, 10]);
}
