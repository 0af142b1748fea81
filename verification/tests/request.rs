use harness::json::{JsonValue, get, item, text};
use harness::request::chat_completions_request;
use harness::types::{Message, ModelRequest, ToolCall, ToolDefinition};

fn request(system_prompt: &str, tools: Vec<ToolDefinition>) -> ModelRequest {
    ModelRequest {
        system_prompt: system_prompt.into(),
        user_input: "hi".into(),
        history: vec![
            Message::User { content: "hi".into() },
            Message::Assistant {
                content: "".into(),
                tool_calls: vec![ToolCall::new("c1", "echo", "{\"x\":1}")],
            },
            Message::Tool {
                call_id: "c1".into(),
                name: "echo".into(),
                content: "out".into(),
                is_error: false,
            },
        ],
        tools,
    }
}

#[test]
fn request_body_puts_the_system_prompt_first() {
    let body = chat_completions_request(&request("be brief", vec![])).unwrap();
    let messages = get(Some(&body), "messages");
    assert_eq!(text(get(item(messages, 0), "role")), Some("system".into()));
    assert_eq!(text(get(item(messages, 0), "content")), Some("be brief".into()));
    assert_eq!(text(get(item(messages, 1), "role")), Some("user".into()));
    assert_eq!(text(get(item(messages, 2), "role")), Some("assistant".into()));
    let call = item(get(item(messages, 2), "tool_calls"), 0);
    assert_eq!(text(get(call, "id")), Some("c1".into()));
    assert_eq!(text(get(call, "type")), Some("function".into()));
    assert_eq!(text(get(get(call, "function"), "name")), Some("echo".into()));
    assert_eq!(text(get(get(call, "function"), "arguments")), Some("{\"x\":1}".into()));
    assert_eq!(text(get(item(messages, 3), "role")), Some("tool".into()));
    assert_eq!(text(get(item(messages, 3), "tool_call_id")), Some("c1".into()));
    assert_eq!(text(get(item(messages, 3), "content")), Some("out".into()));
    assert_eq!(item(messages, 4), None);
    assert_eq!(get(Some(&body), "stream"), Some(&JsonValue::Bool(true)));
}

#[test]
fn request_body_leaves_out_an_empty_system_prompt() {
    let body = chat_completions_request(&request("", vec![])).unwrap();
    let messages = get(Some(&body), "messages");
    assert_eq!(text(get(item(messages, 0), "role")), Some("user".into()));
    assert_eq!(text(get(item(messages, 0), "content")), Some("hi".into()));
    assert_eq!(item(messages, 3), None);
}

#[test]
fn request_body_carries_the_tool_schemas() {
    let tools = vec![ToolDefinition::new("echo", "Echo input", "{\"type\":\"object\"}")];
    let body = chat_completions_request(&request("", tools)).unwrap();
    let tool = item(get(Some(&body), "tools"), 0);
    assert_eq!(text(get(tool, "type")), Some("function".into()));
    assert_eq!(text(get(get(tool, "function"), "name")), Some("echo".into()));
    assert_eq!(
        text(get(get(get(tool, "function"), "parameters"), "type")),
        Some("object".into())
    );
}

#[test]
fn request_body_fails_on_a_schema_that_is_not_json() {
    let tools = vec![
        ToolDefinition::new("good", "Good", "{}"),
        ToolDefinition::new("broken", "Broken", "not-json"),
    ];
    assert!(chat_completions_request(&request("", tools)).is_err());
}
