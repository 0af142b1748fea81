//! The Chat Completions request body sent for a model request.
use vstd::prelude::*;

use crate::json::{JsonValue, is_text, json_parse, string_value};
use crate::schema::{is_function_schema, tool_definition_to_function_schema};
use crate::types::{
    Message, MessageView, ModelRequest, ModelRequestView, ToolCall, ToolCallView,
    ToolDefinitionView,
};

verus! {

/// Whether member `m` is `key` with the string `text`.
pub open spec fn is_text_member(m: (String, JsonValue), key: Seq<char>, text: Seq<char>) -> bool {
    m.0@ == key && is_text(m.1, text)
}

/// Whether `v` is the JSON of tool call `c`:
/// `{"function": {"arguments", "name"}, "id", "type": "function"}`.
pub open spec fn is_call_json(v: JsonValue, c: ToolCallView) -> bool {
    &&& v matches JsonValue::Object(ms)
    &&& ms@.len() == 3
    &&& ms@[0].0@ == "function"@
    &&& ms@[0].1 matches JsonValue::Object(f)
    &&& f@.len() == 2
    &&& is_text_member(f@[0], "arguments"@, c.arguments)
    &&& is_text_member(f@[1], "name"@, c.name)
    &&& is_text_member(ms@[1], "id"@, c.id)
    &&& is_text_member(ms@[2], "type"@, "function"@)
}

/// Whether `v` is the JSON of message `m`, by its role.
pub open spec fn is_message_json(v: JsonValue, m: MessageView) -> bool {
    &&& v matches JsonValue::Object(ms)
    &&& match m {
        MessageView::User { content } => {
            &&& ms@.len() == 2
            &&& is_text_member(ms@[0], "content"@, content)
            &&& is_text_member(ms@[1], "role"@, "user"@)
        },
        MessageView::Assistant { content, tool_calls } => {
            &&& ms@.len() == 3
            &&& is_text_member(ms@[0], "content"@, content)
            &&& is_text_member(ms@[1], "role"@, "assistant"@)
            &&& ms@[2].0@ == "tool_calls"@
            &&& ms@[2].1 matches JsonValue::Array(items)
            &&& items@.len() == tool_calls.len()
            &&& forall|i: int| 0 <= i < items@.len() ==> is_call_json(#[trigger] items@[i], tool_calls[i])
        },
        MessageView::Tool { call_id, content, .. } => {
            &&& ms@.len() == 3
            &&& is_text_member(ms@[0], "content"@, content)
            &&& is_text_member(ms@[1], "role"@, "tool"@)
            &&& is_text_member(ms@[2], "tool_call_id"@, call_id)
        },
    }
}

/// Whether `v` is the system message with `prompt`.
pub open spec fn is_system_json(v: JsonValue, prompt: Seq<char>) -> bool {
    &&& v matches JsonValue::Object(ms)
    &&& ms@.len() == 2
    &&& is_text_member(ms@[0], "content"@, prompt)
    &&& is_text_member(ms@[1], "role"@, "system"@)
}

/// Whether `tools` parse as JSON Schema, every one of them.
pub open spec fn schemas_parse(tools: Seq<ToolDefinitionView>) -> bool {
    forall|i: int| 0 <= i < tools.len() ==> (json_parse(#[trigger] tools[i].parameters_schema) is Some)
}

/// Whether `v` is the streaming Chat Completions body for request `q`:
/// `{"messages", "stream": true, "tools"}`, the messages being the system
/// prompt (when there is one) and then the history, the tools their
/// function schemas.
pub open spec fn is_request_json(v: JsonValue, q: ModelRequestView) -> bool {
    let offset: int = if q.system_prompt.len() > 0 { 1 } else { 0 };
    &&& v matches JsonValue::Object(ms)
    &&& ms@.len() == 3
    &&& ms@[0].0@ == "messages"@
    &&& ms@[0].1 matches JsonValue::Array(msgs)
    &&& msgs@.len() == offset + q.history.len()
    &&& (offset == 1 ==> is_system_json(msgs@[0], q.system_prompt))
    &&& forall|i: int|
        0 <= i < q.history.len() ==> is_message_json(#[trigger] msgs@[offset + i], q.history[i])
    &&& ms@[1].0@ == "stream"@
    &&& ms@[1].1 == JsonValue::Bool(true)
    &&& ms@[2].0@ == "tools"@
    &&& ms@[2].1 matches JsonValue::Array(ts)
    &&& ts@.len() == q.tools.len()
    &&& forall|i: int|
        0 <= i < ts@.len() ==> is_function_schema(
            #[trigger] ts@[i],
            q.tools[i].name,
            q.tools[i].description,
            json_parse(q.tools[i].parameters_schema)->Some_0,
        )
}

fn text_member(key: &str, text: &str) -> (r: (String, JsonValue))
    ensures
        is_text_member(r, key@, text@),
{
    (key.to_owned(), string_value(text))
}

fn call_json(c: &ToolCall) -> (r: JsonValue)
    ensures
        is_call_json(r, c@),
{
    let mut function: Vec<(String, JsonValue)> = Vec::new();
    function.push(text_member("arguments", c.arguments.as_str()));
    function.push(text_member("name", c.name.as_str()));
    let mut members: Vec<(String, JsonValue)> = Vec::new();
    members.push(("function".to_owned(), JsonValue::Object(function)));
    members.push(text_member("id", c.id.as_str()));
    members.push(text_member("type", "function"));
    proof {
        reveal_strlit("function");
    }
    JsonValue::Object(members)
}

fn message_json(m: &Message) -> (r: JsonValue)
    ensures
        is_message_json(r, m@),
{
    let mut members: Vec<(String, JsonValue)> = Vec::new();
    match m {
        Message::User { content } => {
            members.push(text_member("content", content.as_str()));
            members.push(text_member("role", "user"));
        },
        Message::Assistant { content, tool_calls } => {
            members.push(text_member("content", content.as_str()));
            members.push(text_member("role", "assistant"));
            let mut items: Vec<JsonValue> = Vec::new();
            let mut i: usize = 0;
            while i < tool_calls.len()
                invariant
                    i <= tool_calls@.len(),
                    items@.len() == i,
                    forall|k: int| 0 <= k < i ==> is_call_json(#[trigger] items@[k], tool_calls@[k]@),
                decreases tool_calls@.len() - i,
            {
                items.push(call_json(&tool_calls[i]));
                i = i + 1;
            }
            proof {
                assert forall|k: int| 0 <= k < items@.len() implies is_call_json(
                    #[trigger] items@[k],
                    tool_calls.deep_view()[k],
                ) by {
                    assert(tool_calls.deep_view()[k] == tool_calls@[k]@);
                }
            }
            members.push(("tool_calls".to_owned(), JsonValue::Array(items)));
            proof {
                reveal_strlit("tool_calls");
            }
        },
        Message::Tool { call_id, content, .. } => {
            members.push(text_member("content", content.as_str()));
            members.push(text_member("role", "tool"));
            members.push(text_member("tool_call_id", call_id.as_str()));
        },
    }
    JsonValue::Object(members)
}

/// The streaming Chat Completions body for `request`. Fails exactly when a
/// tool's parameter schema is not JSON, with the first such failure.
pub fn chat_completions_request(request: &ModelRequest) -> (r: Result<JsonValue, serde_json::Error>)
    ensures
        (r is Ok) == schemas_parse(request@.tools),
        r matches Ok(v) ==> is_request_json(v, request@),
{
    let ghost q = request@;
    let mut tools: Vec<JsonValue> = Vec::new();
    let mut i: usize = 0;
    while i < request.tools.len()
        invariant
            q == request@,
            i <= request.tools@.len(),
            tools@.len() == i,
            forall|k: int| 0 <= k < i ==> (json_parse(#[trigger] q.tools[k].parameters_schema) is Some),
            forall|k: int|
                0 <= k < i ==> is_function_schema(
                    #[trigger] tools@[k],
                    q.tools[k].name,
                    q.tools[k].description,
                    json_parse(q.tools[k].parameters_schema)->Some_0,
                ),
        decreases request.tools@.len() - i,
    {
        assert(q.tools[i as int] == request.tools@[i as int]@);
        match tool_definition_to_function_schema(&request.tools[i]) {
            Ok(v) => tools.push(v),
            Err(e) => {
                proof {
                    assert(json_parse(q.tools[i as int].parameters_schema) is None);
                    assert(!schemas_parse(q.tools));
                }
                return Err(e);
            },
        }
        i = i + 1;
    }
    let offset: usize = if request.system_prompt.as_str().unicode_len() > 0 {
        1
    } else {
        0
    };
    let mut messages: Vec<JsonValue> = Vec::new();
    if offset == 1 {
        let mut system: Vec<(String, JsonValue)> = Vec::new();
        system.push(text_member("content", request.system_prompt.as_str()));
        system.push(text_member("role", "system"));
        messages.push(JsonValue::Object(system));
    }
    let mut j: usize = 0;
    while j < request.history.len()
        invariant
            q == request@,
            offset as int == (if q.system_prompt.len() > 0 { 1int } else { 0int }),
            j <= request.history@.len(),
            messages@.len() == offset + j,
            offset == 1 ==> is_system_json(messages@[0], q.system_prompt),
            forall|k: int| 0 <= k < j ==> is_message_json(#[trigger] messages@[offset + k], q.history[k]),
        decreases request.history@.len() - j,
    {
        assert(q.history[j as int] == request.history@[j as int]@);
        messages.push(message_json(&request.history[j]));
        j = j + 1;
    }
    let mut members: Vec<(String, JsonValue)> = Vec::new();
    members.push(("messages".to_owned(), JsonValue::Array(messages)));
    members.push(("stream".to_owned(), JsonValue::Bool(true)));
    members.push(("tools".to_owned(), JsonValue::Array(tools)));
    proof {
        reveal_strlit("messages");
        reveal_strlit("stream");
        reveal_strlit("tools");
    }
    Ok(JsonValue::Object(members))
}

} // verus!
