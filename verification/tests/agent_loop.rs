use harness::agent_loop::{
    AgentEvent, AgentLoop, AgentLoopBuilder, LoopConfig, LoopState, ModelServe, Observer,
    ResponseOutcome, resolve_tool_results, validate_response,
};
use harness::error::AgentError;
use harness::tool::Tool;
use harness::types::{
    Message, ModelRequest, ModelResponse, TerminationReason, ToolCall, ToolDefinition, ToolOutput,
};

struct ScriptedModel {
    responses: Vec<ModelResponse>,
    requests: Vec<ModelRequest>,
}

impl ModelServe for ScriptedModel {
    fn complete(&mut self, request: ModelRequest) -> Result<ModelResponse, AgentError> {
        self.requests.push(request);
        Ok(if self.responses.is_empty() {
            ModelResponse::final_text("fallback")
        } else {
            self.responses.remove(0)
        })
    }
}

struct EchoTool;

impl Tool for EchoTool {
    fn definition(&self) -> ToolDefinition {
        ToolDefinition::new("echo", "Echo input", "text")
    }

    fn execute(&self, call: &ToolCall) -> Result<ToolOutput, AgentError> {
        Ok(ToolOutput::success(&call.arguments))
    }
}

#[test]
fn direct_answer_finishes_without_tool_execution() {
    let model = ScriptedModel {
        responses: vec![ModelResponse::final_text("answer")],
        requests: vec![],
    };
    let mut agent = AgentLoop::new(model).unwrap();
    let result = agent.run("question").unwrap();
    assert_eq!(result.output, "answer");
    assert_eq!(result.steps, 1);
    assert_eq!(result.termination, TerminationReason::Completed);
}

#[test]
fn tool_result_is_injected_into_next_model_request() {
    let model = ScriptedModel {
        responses: vec![
            ModelResponse::with_tool_calls("", vec![ToolCall::new("call-1", "echo", "hello")]),
            ModelResponse::final_text("done"),
        ],
        requests: vec![],
    };
    let mut agent = AgentLoopBuilder::new(model)
        .with_tool(EchoTool)
        .unwrap()
        .build()
        .unwrap();
    let result = agent.run("question").unwrap();
    assert_eq!(result.output, "done");
    assert!(matches!(result.history[2], Message::Tool { ref content, .. } if content == "hello"));
}

#[test]
fn exposes_sorted_tool_definitions_and_stops_at_limit() {
    struct EmptyModel;
    impl ModelServe for EmptyModel {
        fn complete(&mut self, _: ModelRequest) -> Result<ModelResponse, AgentError> {
            Ok(ModelResponse::with_tool_calls(
                "",
                vec![ToolCall::new("x", "echo", "x")],
            ))
        }
    }
    let mut agent = AgentLoopBuilder::new(EmptyModel)
        .with_tool(EchoTool)
        .unwrap()
        .with_config(LoopConfig {
            max_steps: 2,
            ..LoopConfig::default()
        })
        .build()
        .unwrap();
    let result = agent.run("question").unwrap();
    assert_eq!(result.termination, TerminationReason::MaxStepsReached);
    assert_eq!(result.steps, 2);
}

#[test]
fn validates_tool_calls_before_execution() {
    struct InvalidModel;
    impl ModelServe for InvalidModel {
        fn complete(&mut self, _: ModelRequest) -> Result<ModelResponse, AgentError> {
            Ok(ModelResponse::with_tool_calls(
                "",
                vec![ToolCall::new("", "echo", "x")],
            ))
        }
    }
    let mut agent = AgentLoop::new(InvalidModel).unwrap();
    assert!(matches!(agent.run("question"), Err(AgentError::InvalidAction(_))));
}

#[test]
fn next_request_carries_the_round_of_tool_results() {
    let model = ScriptedModel {
        responses: vec![
            ModelResponse::with_tool_calls("thinking", vec![ToolCall::new("call-1", "echo", "hi")]),
            ModelResponse::final_text("done"),
        ],
        requests: vec![],
    };
    let mut agent = AgentLoopBuilder::new(model)
        .with_tool(EchoTool)
        .unwrap()
        .with_config(LoopConfig {
            max_steps: 4,
            system_prompt: "be brief".to_string(),
        })
        .build()
        .unwrap();
    let run = agent.run("question").unwrap();
    assert_eq!(run.steps, 2);
    assert_eq!(
        run.history,
        vec![
            Message::User { content: "question".into() },
            Message::Assistant {
                content: "thinking".into(),
                tool_calls: vec![ToolCall::new("call-1", "echo", "hi")],
            },
            Message::Tool {
                call_id: "call-1".into(),
                name: "echo".into(),
                content: "hi".into(),
                is_error: false,
            },
        ]
    );
}

#[test]
fn unknown_tool_stops_the_run() {
    let model = ScriptedModel {
        responses: vec![ModelResponse::with_tool_calls(
            "",
            vec![ToolCall::new("1", "missing", "{}")],
        )],
        requests: vec![],
    };
    let mut agent = AgentLoop::new(model).unwrap();
    assert_eq!(agent.run("question").unwrap_err(), AgentError::UnknownTool("missing".into()));
}

#[test]
fn zero_step_limit_is_refused() {
    let model = ScriptedModel { responses: vec![], requests: vec![] };
    let built = AgentLoopBuilder::new(model)
        .with_config(LoopConfig { max_steps: 0, system_prompt: String::new() })
        .build();
    assert!(matches!(
        built,
        Err(AgentError::InvalidConfig("max_steps must be greater than zero"))
    ));
}

struct RecordingObserver {
    events: std::sync::Arc<std::sync::Mutex<Vec<AgentEvent>>>,
}

impl Observer for RecordingObserver {
    fn on_event(&mut self, event: AgentEvent) -> Result<(), AgentError> {
        self.events.lock().unwrap().push(event);
        Ok(())
    }
}

#[test]
fn observer_sees_the_run_in_order() {
    let events = std::sync::Arc::new(std::sync::Mutex::new(Vec::new()));
    let model = ScriptedModel {
        responses: vec![ModelResponse::final_text("answer")],
        requests: vec![],
    };
    let mut agent = AgentLoopBuilder::new(model)
        .with_observer(RecordingObserver { events: std::sync::Arc::clone(&events) })
        .build()
        .unwrap();
    let run = agent.run("question").unwrap();
    assert_eq!(run.output, "answer");
    assert_eq!(
        *events.lock().unwrap(),
        vec![
            AgentEvent::Started { user_input: "question".into() },
            AgentEvent::ModelRequested { step: 0 },
            AgentEvent::ModelResponded { step: 0, tool_calls: 0 },
            AgentEvent::Completed { step: 0, output: "answer".into() },
        ]
    );
}

#[test]
fn duplicate_tool_registration_is_refused() {
    let model = ScriptedModel { responses: vec![], requests: vec![] };
    let builder = AgentLoopBuilder::new(model).with_tool(EchoTool).unwrap();
    assert!(matches!(
        builder.with_tool(EchoTool),
        Err(AgentError::DuplicateTool(name)) if name == "echo"
    ));
}

#[test]
fn loop_state_runs_rounds_until_the_limit() {
    let mut state = LoopState::new("prompt".to_string(), "question", 1);
    let request = state.request(vec![]);
    assert_eq!(request.system_prompt, "prompt");
    assert_eq!(request.history, vec![Message::User { content: "question".into() }]);
    let outcome = state.take_response(ModelResponse::with_tool_calls(
        "",
        vec![ToolCall::new("a", "echo", "1"), ToolCall::new("b", "echo", "2")],
    ));
    assert!(matches!(outcome, ResponseOutcome::RunTools(ref calls) if calls.len() == 2));
    let run = state
        .complete_round(vec![ToolOutput::success("one"), ToolOutput::failure("two")])
        .unwrap();
    assert_eq!(run.termination, TerminationReason::MaxStepsReached);
    assert_eq!(run.steps, 1);
    assert_eq!(run.output, "");
    assert_eq!(run.history.len(), 4);
    assert_eq!(
        run.history[3],
        Message::Tool { call_id: "b".into(), name: "echo".into(), content: "two".into(), is_error: true }
    );
}

#[test]
fn blank_call_names_are_refused() {
    let response = ModelResponse::with_tool_calls("", vec![ToolCall::new("1", "  ", "{}")]);
    assert_eq!(
        validate_response(&response).unwrap_err().to_string(),
        "invalid model action: tool call id and name must not be empty"
    );
    let good = ModelResponse::with_tool_calls("", vec![ToolCall::new("1", "echo", "{}")]);
    assert!(validate_response(&good).is_ok());
}

#[test]
fn failed_tools_become_error_outputs_when_the_run_goes_on() {
    let results = vec![
        Ok(ToolOutput::success("fine")),
        Err(AgentError::UnknownTool("nope".into())),
    ];
    let outputs = resolve_tool_results(results, true).unwrap();
    assert_eq!(outputs[0], ToolOutput::success("fine"));
    assert_eq!(outputs[1], ToolOutput::failure("unknown tool: nope"));

    let results = vec![
        Ok(ToolOutput::success("fine")),
        Err(AgentError::UnknownTool("nope".into())),
        Err(AgentError::Cancelled),
    ];
    assert_eq!(
        resolve_tool_results(results, false).unwrap_err(),
        AgentError::UnknownTool("nope".into())
    );
}

#[test]
fn cancelled_run_stops_before_the_next_request() {
    let state = LoopState::new(String::new(), "question", 3);
    assert_eq!(state.check_cancelled(false), Ok(()));
    assert_eq!(state.check_cancelled(true), Err(AgentError::Cancelled));
    assert_eq!(state.request_unless_cancelled(vec![], true).unwrap_err(), AgentError::Cancelled);
    let request = state.request_unless_cancelled(vec![], false).unwrap();
    assert_eq!(request.user_input, "question");
}

#[test]
fn invalid_calls_end_the_run_before_any_response_event() {
    struct InvalidModel;
    impl ModelServe for InvalidModel {
        fn complete(&mut self, _: ModelRequest) -> Result<ModelResponse, AgentError> {
            Ok(ModelResponse::with_tool_calls("", vec![ToolCall::new("", "echo", "x")]))
        }
    }
    let events = std::sync::Arc::new(std::sync::Mutex::new(Vec::new()));
    let mut agent = AgentLoopBuilder::new(InvalidModel)
        .with_observer(RecordingObserver { events: std::sync::Arc::clone(&events) })
        .build()
        .unwrap();
    assert!(matches!(agent.run("question"), Err(AgentError::InvalidAction(_))));
    assert_eq!(
        *events.lock().unwrap(),
        vec![
            AgentEvent::Started { user_input: "question".into() },
            AgentEvent::ModelRequested { step: 0 },
        ]
    );
}

#[test]
fn each_request_carries_the_rounds_so_far() {
    let mut state = LoopState::new("prompt".to_string(), "question", 3);
    let first = state.take_response(ModelResponse::with_tool_calls(
        "looking",
        vec![ToolCall::new("a", "echo", "1")],
    ));
    assert!(matches!(first, ResponseOutcome::RunTools(_)));
    assert!(state.complete_round(vec![ToolOutput::success("one")]).is_none());
    let second = state.take_response(ModelResponse::with_tool_calls(
        "",
        vec![ToolCall::new("b", "echo", "2"), ToolCall::new("c", "echo", "3")],
    ));
    assert!(matches!(second, ResponseOutcome::RunTools(_)));
    assert!(state
        .complete_round(vec![ToolOutput::success("two"), ToolOutput::failure("three")])
        .is_none());
    assert_eq!(state.step(), 2);
    let request = state.request(vec![ToolDefinition::new("echo", "Echo input", "{}")]);
    assert_eq!(request.system_prompt, "prompt");
    assert_eq!(request.user_input, "question");
    assert_eq!(request.tools.len(), 1);
    assert_eq!(
        request.history,
        vec![
            Message::User { content: "question".into() },
            Message::Assistant {
                content: "looking".into(),
                tool_calls: vec![ToolCall::new("a", "echo", "1")],
            },
            Message::Tool { call_id: "a".into(), name: "echo".into(), content: "one".into(), is_error: false },
            Message::Assistant {
                content: "".into(),
                tool_calls: vec![ToolCall::new("b", "echo", "2"), ToolCall::new("c", "echo", "3")],
            },
            Message::Tool { call_id: "b".into(), name: "echo".into(), content: "two".into(), is_error: false },
            Message::Tool { call_id: "c".into(), name: "echo".into(), content: "three".into(), is_error: true },
        ]
    );
}
