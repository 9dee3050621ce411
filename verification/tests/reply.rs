//! Tests of the reply loop's decision core: tool preparation, request
//! extraction, outcome handling, and turn assembly.

use goose::message::{Content, Message, Role, ToolCall};
use goose::reply::{
    append_turn, build_tool_response_message, extract_tool_requests, list_resources_tool, ok_calls,
    prepare_tools, read_resource_tool, reply_step, CompletionOutcome, ReplyAction, ReplyState,
    StrategyChoice, Tool, ToolRequestItem,
};
use goose::truncate::TruncationError;

fn user_text(content: &str, tokens: usize) -> (Message, usize) {
    (Message::user().with_text(content), tokens)
}

fn assistant_text(content: &str, tokens: usize) -> (Message, usize) {
    (Message::assistant().with_text(content), tokens)
}

#[test]
fn test_synthetic_tool_schemas() {
    let read = read_resource_tool();
    assert_eq!(read.name, "platform__read_resource");
    assert!(read.input_schema.contains("\"required\":[\"uri\"]"));
    assert!(read.input_schema.contains("extension_name"));

    let list = list_resources_tool();
    assert_eq!(list.name, "platform__list_resources");
    assert!(!list.input_schema.contains("required"));
    assert!(list.input_schema.contains("extension_name"));
}

#[test]
fn test_prepare_tools_with_resources() {
    let mut tools = vec![Tool::new("echo", "Echoes the input.", "{}")];
    prepare_tools(&mut tools, true);
    assert_eq!(tools.len(), 3);
    assert_eq!(tools[0].name, "echo");
    assert_eq!(tools[1].name, "platform__read_resource");
    assert_eq!(tools[2].name, "platform__list_resources");
}

#[test]
fn test_prepare_tools_without_resources() {
    let mut tools = vec![Tool::new("echo", "Echoes the input.", "{}")];
    prepare_tools(&mut tools, false);
    assert_eq!(tools.len(), 1);
    assert_eq!(tools[0].name, "echo");
}

#[test]
fn test_extract_tool_requests_in_order() {
    let response = Message::assistant()
        .with_text("Working on it.")
        .with_tool_request("a", Ok(ToolCall::new("first", "{}")))
        .with_tool_request("b", Err("unparseable".to_string()))
        .with_tool_request("c", Ok(ToolCall::new("third", "{}")));
    let reqs = extract_tool_requests(&response);
    assert_eq!(reqs.len(), 3);
    assert_eq!(reqs[0].id, "a");
    assert_eq!(reqs[1].id, "b");
    assert_eq!(reqs[2].id, "c");
    assert!(reqs[0].call.is_ok());
    assert!(reqs[1].call.is_err());
    assert!(reqs[2].call.is_ok());

    let calls = ok_calls(&reqs);
    assert_eq!(calls.len(), 2);
    assert_eq!(calls[0].name, "first");
    assert_eq!(calls[1].name, "third");
}

#[test]
fn test_tool_outputs_pair_in_request_order() {
    // The assistant requested tools a, b, c; whatever order their dispatch
    // completed in, the synthesized message answers them in request order.
    let requests = vec![
        ToolRequestItem { id: "a".to_string(), call: Ok(ToolCall::new("one", "{}")) },
        ToolRequestItem { id: "b".to_string(), call: Ok(ToolCall::new("two", "{}")) },
        ToolRequestItem { id: "c".to_string(), call: Ok(ToolCall::new("three", "{}")) },
    ];
    let outputs = vec![
        Ok(vec![Content::text("result a")]),
        Ok(vec![Content::text("result b")]),
        Ok(vec![Content::text("result c")]),
    ];
    let m = build_tool_response_message(&requests, outputs);
    assert_eq!(m.role, Role::User);
    assert_eq!(m.content.len(), 3);
    let expected_ids = ["a", "b", "c"];
    let expected_texts = ["result a", "result b", "result c"];
    for i in 0..3 {
        match &m.content[i] {
            Content::ToolResponse { id, result } => {
                assert_eq!(id, expected_ids[i]);
                assert_eq!(result.as_ref().unwrap(), &vec![Content::text(expected_texts[i])]);
            }
            other => panic!("expected a tool response, got {:?}", other),
        }
    }
}

#[test]
fn test_tool_parse_failure_carried_as_error_result() {
    let requests = vec![
        ToolRequestItem { id: "good".to_string(), call: Ok(ToolCall::new("one", "{}")) },
        ToolRequestItem { id: "bad".to_string(), call: Err("no such tool".to_string()) },
    ];
    let outputs = vec![Ok(vec![Content::text("fine")])];
    let m = build_tool_response_message(&requests, outputs);
    assert_eq!(m.content.len(), 2);
    match &m.content[1] {
        Content::ToolResponse { id, result } => {
            assert_eq!(id, "bad");
            assert_eq!(result.as_ref().unwrap_err(), "no such tool");
        }
        other => panic!("expected a tool response, got {:?}", other),
    }
}

#[test]
fn test_reply_step_success_without_tools_completes() {
    let mut state = ReplyState::new(
        vec![user_text("hi", 5).0],
        vec![5],
        100,
        StrategyChoice::OldestFirst,
    );
    let outcome = CompletionOutcome::Success(assistant_text("hello!", 5).0);
    let action = reply_step(&mut state, &outcome);
    assert_eq!(action, ReplyAction::Complete);
    assert_eq!(state.messages.len(), 1);
}

#[test]
fn test_reply_step_success_with_tools_dispatches() {
    let mut state = ReplyState::new(
        vec![user_text("hi", 5).0],
        vec![5],
        100,
        StrategyChoice::OldestFirst,
    );
    let response = Message::assistant()
        .with_tool_request("t1", Ok(ToolCall::new("lookup", "{\"q\":\"x\"}")))
        .with_tool_request("t2", Err("garbled".to_string()));
    let outcome = CompletionOutcome::Success(response);
    let action = reply_step(&mut state, &outcome);
    match action {
        ReplyAction::Dispatch(calls) => {
            assert_eq!(calls.len(), 1);
            assert_eq!(calls[0].name, "lookup");
        }
        other => panic!("expected a dispatch, got {:?}", other),
    }
}

#[test]
fn test_reply_overflow_then_success() {
    // The provider first reports a context overflow; the loop truncates and
    // retries without emitting. The second call succeeds with no tool
    // requests, so the consumer sees exactly one message.
    let mut state = ReplyState::new(
        vec![
            user_text("old context", 10).0,
            assistant_text("old reply", 10).0,
            user_text("what now?", 10).0,
        ],
        vec![10, 10, 10],
        25,
        StrategyChoice::OldestFirst,
    );

    let overflow = CompletionOutcome::ContextLengthExceeded("prompt is too long".to_string());
    let action = reply_step(&mut state, &overflow);
    assert_eq!(action, ReplyAction::Retry);
    // The working conversation was truncated in place to fit.
    assert_eq!(state.messages, vec![user_text("what now?", 10).0]);
    assert_eq!(state.token_counts, vec![10]);

    let mut emitted: Vec<Message> = Vec::new();
    let success = CompletionOutcome::Success(assistant_text("here you go", 5).0);
    let action = reply_step(&mut state, &success);
    assert_eq!(action, ReplyAction::Complete);
    if let CompletionOutcome::Success(response) = success {
        emitted.push(response);
    }
    assert_eq!(emitted.len(), 1);
    assert_eq!(emitted[0], assistant_text("here you go", 5).0);
}

#[test]
fn test_reply_step_aborts_when_truncation_infeasible() {
    // Only an oversized user message: no truncation can help.
    let mut state = ReplyState::new(
        vec![user_text("an enormous message", 50).0],
        vec![50],
        30,
        StrategyChoice::OldestFirst,
    );
    let overflow = CompletionOutcome::ContextLengthExceeded("too long".to_string());
    let action = reply_step(&mut state, &overflow);
    assert_eq!(action, ReplyAction::Abort(TruncationError::Infeasible));
}

#[test]
fn test_reply_step_other_error_becomes_user_message() {
    let mut state = ReplyState::new(
        vec![user_text("hi", 5).0],
        vec![5],
        100,
        StrategyChoice::MiddleOut,
    );
    let outcome = CompletionOutcome::Other("rate limit exceeded".to_string());
    let action = reply_step(&mut state, &outcome);
    match action {
        ReplyAction::EmitError(m) => {
            assert_eq!(m.role, Role::User);
            assert_eq!(m.content.len(), 1);
            match &m.content[0] {
                Content::Text(t) => assert_eq!(t, "Error: rate limit exceeded"),
                other => panic!("expected text content, got {:?}", other),
            }
        }
        other => panic!("expected an error message, got {:?}", other),
    }
    // The state is untouched; the loop resubmits as before.
    assert_eq!(state.messages.len(), 1);
}

#[test]
fn test_append_turn_keeps_sequences_parallel() {
    let mut state = ReplyState::new(
        vec![user_text("hi", 5).0],
        vec![5],
        100,
        StrategyChoice::OldestFirst,
    );
    let response = Message::assistant().with_tool_request("t", Ok(ToolCall::new("f", "{}")));
    let requests = extract_tool_requests(&response);
    let outputs = vec![Ok(vec![Content::text("out")])];
    let tool_msg = build_tool_response_message(&requests, outputs);
    let expected_response = Message::assistant().with_tool_request("t", Ok(ToolCall::new("f", "{}")));
    append_turn(&mut state, response, 7, tool_msg, 9);
    assert_eq!(state.messages.len(), 3);
    assert_eq!(state.token_counts, vec![5, 7, 9]);
    assert_eq!(state.messages[1], expected_response);
    assert_eq!(state.messages[2].role, Role::User);
}

#[test]
fn test_alternation_preserved_after_middle_out() {
    // Eight strictly alternating messages; the middle is sacrificed and the
    // result still alternates and ends on a user message.
    let mut state = ReplyState::new(
        vec![
            user_text("m1", 10).0,
            assistant_text("m2", 10).0,
            user_text("m3", 20).0,
            assistant_text("m4", 20).0,
            user_text("m5", 20).0,
            assistant_text("m6", 20).0,
            user_text("m7", 10).0,
            assistant_text("m8", 10).0,
        ],
        vec![10, 10, 20, 20, 20, 20, 10, 10],
        50,
        StrategyChoice::MiddleOut,
    );
    let overflow = CompletionOutcome::ContextLengthExceeded("too long".to_string());
    let action = reply_step(&mut state, &overflow);
    assert_eq!(action, ReplyAction::Retry);
    assert!(state.token_counts.iter().sum::<usize>() <= 50);
    assert!(!state.messages.is_empty());
    for i in 0..state.messages.len() - 1 {
        assert_ne!(state.messages[i].role, state.messages[i + 1].role);
    }
    assert_eq!(state.messages.last().unwrap().role, Role::User);
}
