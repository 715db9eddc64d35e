use aether::agents::{parse_chat_choices, ChatMessage, ChatToolCall, LlmTurnOutcome};
use aether::refs::AetherError;

fn tool(id: Option<&str>, name: &str, args: &str) -> ChatToolCall {
    ChatToolCall { id: id.map(|s| s.to_string()), name: name.to_string(), arguments: args.to_string() }
}

fn failed(r: Result<LlmTurnOutcome, AetherError>) -> String {
    match r {
        Err(AetherError::OperationFailed(m)) => m,
        other => panic!("unexpected {:?}", other),
    }
}

#[test]
fn chat_without_choices_fails() {
    assert_eq!(failed(parse_chat_choices(&vec![])), "Chat completion: empty choices");
}

#[test]
fn chat_tool_calls_get_default_ids() {
    let msg = ChatMessage {
        content: Some("ignored".to_string()),
        tool_calls: Some(vec![tool(Some("abc"), "finalize_prompt", "{\"p\":1}"), tool(None, "display_cli_message", "{}")]),
    };
    match parse_chat_choices(&vec![msg]) {
        Ok(LlmTurnOutcome::ToolCalls(v)) => {
            assert_eq!(v.len(), 2);
            assert_eq!(v[0].id, "abc");
            assert_eq!(v[0].name, "finalize_prompt");
            assert_eq!(v[0].arguments, "{\"p\":1}");
            assert_eq!(v[1].id, "call_1");
            assert_eq!(v[1].name, "display_cli_message");
        },
        other => panic!("unexpected {:?}", other),
    }
}

#[test]
fn chat_tool_call_with_bad_arguments_fails() {
    let msg = ChatMessage { content: None, tool_calls: Some(vec![tool(None, "ok", "{}"), tool(None, "bad", "{nope")]) };
    let m = failed(parse_chat_choices(&vec![msg]));
    assert!(m.starts_with("Tool args parse (bad): "), "{}", m);
    assert!(m.len() > "Tool args parse (bad): ".len());
}

#[test]
fn chat_text_answer() {
    let msg = ChatMessage { content: Some("  hello ".to_string()), tool_calls: Some(vec![]) };
    match parse_chat_choices(&vec![msg]) {
        Ok(LlmTurnOutcome::Text(t)) => assert_eq!(t, "  hello "),
        other => panic!("unexpected {:?}", other),
    }
}

#[test]
fn chat_blank_answer_fails() {
    let msg = ChatMessage { content: Some(" \n\t".to_string()), tool_calls: None };
    assert_eq!(failed(parse_chat_choices(&vec![msg])), "Chat completion: no tool_calls and no content");
    let msg = ChatMessage { content: None, tool_calls: None };
    assert_eq!(failed(parse_chat_choices(&vec![msg])), "Chat completion: no tool_calls and no content");
}
