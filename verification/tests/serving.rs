use harness::error::AgentError;
use harness::serving::{
    ChunkChoice, ChunkMessage, ChunkToolCall, ModelServeError, ModelServeWrapper, SinkDelta, SinkNotice,
    StreamChunk, StreamState, finish_completion, register_model_serve_callback,
    unregister_model_serve_callback,
};
use harness::types::ToolCall;

fn delta_chunk(message: ChunkMessage) -> StreamChunk {
    StreamChunk {
        choices: vec![ChunkChoice { delta: Some(message), message: ChunkMessage::default() }],
    }
}

#[test]
fn accumulates_reasoning_content_and_text_deltas() {
    let mut stream = StreamState::new();
    stream.on_chunk_json(
        r#"{"choices":[{"delta":{"reasoning_content":"先分析","content":"你好"}}]}"#,
    );
    stream.on_chunk_json(r#"{"choices":[{"delta":{"reasoning":"，再回答","content":"，世界"}}]}"#);

    let response = stream.into_response().unwrap();
    assert_eq!(response.reasoning, "先分析，再回答");
    assert_eq!(response.content, "你好，世界");
}

#[test]
fn accumulates_deltas_of_parsed_chunks() {
    let mut stream = StreamState::new();
    stream.on_chunk(Some(delta_chunk(ChunkMessage {
        reasoning_content: Some("先分析".into()),
        content: Some("你好".into()),
        ..ChunkMessage::default()
    })));
    stream.on_chunk(Some(delta_chunk(ChunkMessage {
        reasoning: Some("，再回答".into()),
        content: Some("，世界".into()),
        ..ChunkMessage::default()
    })));

    let response = stream.into_response().unwrap();
    assert_eq!(response.reasoning, "先分析，再回答");
    assert_eq!(response.content, "你好，世界");
}

#[test]
fn chunk_deltas_are_reported() {
    let mut stream = StreamState::new();
    let deltas = stream.on_chunk(Some(delta_chunk(ChunkMessage {
        reasoning_content: Some("r".into()),
        reasoning: Some("ignored".into()),
        content: Some("c".into()),
        ..ChunkMessage::default()
    })));
    assert_eq!(deltas.reasoning, "r");
    assert_eq!(deltas.content, "c");
}

#[test]
fn tool_call_fragments_are_joined_by_index() {
    let fragment = |index: Option<usize>, id: Option<&str>, name: Option<&str>, args: &str| {
        ChunkToolCall {
            index,
            id: id.map(String::from),
            name: name.map(String::from),
            arguments: Some(args.to_string()),
        }
    };
    let mut stream = StreamState::new();
    stream.on_chunk(Some(delta_chunk(ChunkMessage {
        tool_calls: Some(vec![fragment(Some(0), Some("call-1"), Some("echo"), "{\"te")]),
        ..ChunkMessage::default()
    })));
    stream.on_chunk(Some(delta_chunk(ChunkMessage {
        tool_calls: Some(vec![
            fragment(Some(0), None, None, "xt\":1}"),
            fragment(Some(2), Some("call-3"), Some("late"), "{}"),
        ]),
        ..ChunkMessage::default()
    })));
    let response = stream.into_response().unwrap();
    assert_eq!(
        response.tool_calls,
        vec![
            ToolCall::new("call-1", "echo", "{\"text\":1}"),
            ToolCall::new("", "", ""),
            ToolCall::new("call-3", "late", "{}"),
        ]
    );
}

#[test]
fn message_is_read_when_there_is_no_delta() {
    let mut stream = StreamState::new();
    stream.on_chunk(Some(StreamChunk {
        choices: vec![ChunkChoice {
            delta: None,
            message: ChunkMessage { content: Some("whole".into()), ..ChunkMessage::default() },
        }],
    }));
    assert_eq!(stream.into_response().unwrap().content, "whole");
}

#[test]
fn stream_errors_and_silence_fail_the_request() {
    let silent = StreamState::new();
    assert_eq!(
        silent.into_response(),
        Err(AgentError::Model("model returned no stream chunks".into()))
    );
    let mut broken = StreamState::new();
    broken.on_chunk(None);
    broken.on_chunk(Some(delta_chunk(ChunkMessage {
        content: Some("late".into()),
        ..ChunkMessage::default()
    })));
    assert_eq!(
        broken.into_response(),
        Err(AgentError::Model("invalid model stream chunk JSON".into()))
    );
}

#[test]
fn completion_outcome_and_sink_notice() {
    let mut stream = StreamState::new();
    stream.on_chunk(Some(delta_chunk(ChunkMessage {
        content: Some("answer".into()),
        ..ChunkMessage::default()
    })));
    let (response, notice) = finish_completion(Ok(()), &stream);
    assert_eq!(response.unwrap().content, "answer");
    assert!(matches!(notice, SinkNotice::Completed(ref t) if t == "answer"));

    let (response, notice) = finish_completion(Err(ModelServeError::RequestFailed), &stream);
    assert_eq!(
        response,
        Err(AgentError::Model("model request failed: RequestFailed".into()))
    );
    assert!(matches!(
        notice,
        SinkNotice::Failed(ref m) if m == "model error: model request failed: RequestFailed"
    ));
}

#[test]
fn registered_callback_is_required() {
    let mut slot: Option<u8> = None;
    assert_eq!(
        ModelServeWrapper::registered(&slot).err(),
        Some(AgentError::Model("model serve is not registered".into()))
    );
    register_model_serve_callback(&mut slot, 3);
    assert_eq!(*ModelServeWrapper::registered(&slot).unwrap().callback(), 3);
    unregister_model_serve_callback(&mut slot);
    assert!(slot.is_none());
}

#[test]
fn chunk_text_is_read_like_the_chunk_json() {
    let mut stream = StreamState::new();
    let deltas = stream.on_chunk_json(
        r#"{"choices":[{"message":{"content":"whole","tool_calls":[{"index":1,"id":"c","function":{"name":"echo","arguments":"{}"}}]}}]}"#,
    );
    assert_eq!(deltas.content, "whole");
    assert_eq!(deltas.reasoning, "");
    let response = stream.into_response().unwrap();
    assert_eq!(
        response.tool_calls,
        vec![ToolCall::new("", "", ""), ToolCall::new("c", "echo", "{}")]
    );
    let mut odd = StreamState::new();
    let deltas = odd.on_chunk_json(r#"{"choices":[{"delta":null,"message":{"content":"x"}}],"other":7}"#);
    assert_eq!(deltas.content, "");
    assert!(odd.into_response().is_ok());
    let mut broken = StreamState::new();
    broken.on_chunk_json("not json");
    assert_eq!(
        broken.into_response(),
        Err(AgentError::Model("invalid model stream chunk JSON".into()))
    );
}

#[test]
fn parsed_chunk_carries_the_selected_message() {
    assert!(harness::serving::parse_chunk("{").is_none());
    let chunk = harness::serving::parse_chunk(r#"{"choices":[]}"#).unwrap();
    let mut stream = StreamState::new();
    let deltas = stream.on_chunk(Some(chunk));
    assert_eq!(deltas.content, "");
}

#[test]
fn sink_hears_reasoning_before_text_and_nothing_empty() {
    let mut state = StreamState::new();
    let deltas = state.on_chunk_json(
        r#"{"choices":[{"delta":{"content":"Hi","reasoning_content":"think"}}]}"#,
    );
    assert_eq!(
        deltas.sink_deltas(),
        vec![SinkDelta::Reasoning("think".into()), SinkDelta::Text("Hi".into())]
    );
    let deltas = state.on_chunk_json(r#"{"choices":[{"delta":{"content":"!"}}]}"#);
    assert_eq!(deltas.sink_deltas(), vec![SinkDelta::Text("!".into())]);
    let deltas = state.on_chunk_json(r#"{"choices":[{"delta":{}}]}"#);
    assert_eq!(deltas.sink_deltas(), vec![]);
}
