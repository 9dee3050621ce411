//! Tests of the message data model and the token budget.

use goose::budget::{fits_within, total_tokens};
use goose::message::{Content, Message, Role, ToolCall};

#[test]
fn test_builders_and_roles() {
    let m = Message::user().with_text("hello");
    assert_eq!(m.role, Role::User);
    assert_eq!(m.content.len(), 1);

    let m = Message::assistant().with_text("hi").with_text("there");
    assert_eq!(m.role, Role::Assistant);
    assert_eq!(m.content.len(), 2);
}

#[test]
fn test_text_only_and_tool_flags() {
    let text = Message::user().with_text("plain");
    assert!(text.has_only_text_content());
    assert!(!text.is_tool_call());
    assert!(!text.is_tool_response());

    let request = Message::assistant()
        .with_text("let me check")
        .with_tool_request("t9", Ok(ToolCall::new("check", "{}")));
    assert!(!request.has_only_text_content());
    assert!(request.is_tool_call());
    assert!(!request.is_tool_response());

    let response = Message::user().with_tool_response("t9", Ok(vec![Content::text("done")]));
    assert!(!response.has_only_text_content());
    assert!(response.is_tool_response());
    assert!(!response.is_tool_call());
}

#[test]
fn test_get_tool_id_returns_first() {
    let m = Message::assistant()
        .with_text("two calls")
        .with_tool_request("first", Ok(ToolCall::new("a", "{}")))
        .with_tool_request("second", Ok(ToolCall::new("b", "{}")));
    assert_eq!(m.get_tool_id(), Some("first".to_string()));

    let plain = Message::user().with_text("no tools here");
    assert_eq!(plain.get_tool_id(), None);
}

#[test]
fn test_as_concat_text_projects_text_items() {
    let m = Message::assistant()
        .with_text("alpha ")
        .with_tool_request("t", Ok(ToolCall::new("x", "{}")))
        .with_text("beta");
    assert_eq!(m.as_concat_text(), "alpha beta");

    let empty = Message::user();
    assert_eq!(empty.as_concat_text(), "");
}

#[test]
fn test_token_budget() {
    let counts = vec![10usize, 20, 30];
    assert_eq!(total_tokens(&counts), 60);
    assert!(fits_within(&counts, 60));
    assert!(!fits_within(&counts, 59));

    let empty: Vec<usize> = vec![];
    assert_eq!(total_tokens(&empty), 0);
    assert!(fits_within(&empty, 0));
}
