use harness::agent_loop::{LoopState, ResponseOutcome, resolve_tool_results};
use harness::configuration::Configuration;
use harness::error::AgentError;
use harness::mcp::ToolExecutionError;
use harness::scheduler::{TaskDecision, ToolScheduler, tool_timeout_error};
use harness::tool::{Tool, ToolDispatch, ToolRegistry, finish_tool_result};
use harness::types::{AgentRun, Message, ModelResponse, ToolCall, ToolDefinition, ToolOutput};
use std::sync::{Arc, Mutex, mpsc};
use std::time::{Duration, Instant};

/// Blocks the current thread for `duration`.
fn pause(duration: Duration) {
    let (_keep, never) = mpsc::channel::<()>();
    let _ = never.recv_timeout(duration);
}

struct ConcurrencyState {
    active: usize,
    max_active: usize,
}

struct WaitingTool {
    name: &'static str,
    state: Arc<Mutex<ConcurrencyState>>,
}

impl Tool for WaitingTool {
    fn definition(&self) -> ToolDefinition {
        ToolDefinition::new(self.name, "Waits while recording concurrency", "{}")
    }

    fn execute(&self, _: &ToolCall) -> Result<ToolOutput, AgentError> {
        {
            let mut state = self.state.lock().unwrap();
            state.active += 1;
            state.max_active = state.max_active.max(state.active);
        }
        pause(Duration::from_millis(10));
        self.state.lock().unwrap().active -= 1;
        Ok(ToolOutput::success("done"))
    }
}

struct HangingTool;

impl Tool for HangingTool {
    fn definition(&self) -> ToolDefinition {
        ToolDefinition::new("hang", "Never completes", "{}")
    }

    fn execute(&self, _: &ToolCall) -> Result<ToolOutput, AgentError> {
        loop {
            pause(Duration::from_secs(3600));
        }
    }
}

struct FlakyTool {
    attempts: Arc<Mutex<usize>>,
}

impl Tool for FlakyTool {
    fn definition(&self) -> ToolDefinition {
        ToolDefinition::new("flaky", "Fails once", "{}").with_retryable(true)
    }

    fn execute(&self, _: &ToolCall) -> Result<ToolOutput, AgentError> {
        let mut attempts = self.attempts.lock().unwrap();
        *attempts += 1;
        if *attempts == 1 {
            Err(AgentError::ToolExecution {
                name: "flaky".into(),
                error: ToolExecutionError::NetworkUnreachable,
                message: "temporary failure".into(),
            })
        } else {
            Ok(ToolOutput::success("recovered"))
        }
    }
}

struct Echo;

impl Tool for Echo {
    fn definition(&self) -> ToolDefinition {
        ToolDefinition::new("echo", "Echo", "text")
    }

    fn execute(&self, call: &ToolCall) -> Result<ToolOutput, AgentError> {
        Ok(ToolOutput::success(&call.arguments))
    }
}

type Finished = (usize, Result<ToolOutput, AgentError>);

/// Starts call `index` on a thread of its own, with its deadline.
fn start(
    registry: &mut ToolRegistry,
    calls: &[ToolCall],
    index: usize,
    config: &Configuration,
    sender: &mpsc::Sender<Finished>,
    deadlines: &mut Vec<(usize, Instant)>,
    runtime: &tokio::runtime::Runtime,
) {
    let call = calls[index].clone();
    match registry.dispatch(&call) {
        ToolDispatch::Finished(result) => sender.send((index, result)).unwrap(),
        ToolDispatch::Local(position) => {
            let tool = registry.local_tool(position).unwrap();
            let sender = sender.clone();
            deadlines.push((index, Instant::now() + config.tool_execute_timeout));
            runtime.spawn_blocking(move || {
                let result = finish_tool_result(&call.name, tool.execute(&call));
                let _ = sender.send((index, result));
            });
        }
        ToolDispatch::Mcp(_) => unreachable!(),
    }
}

/// Runs the loop the way the asynchronous driver does: the started calls
/// run at the same time on blocking threads, each bounded by the timeout.
fn drive(
    responses: Vec<ModelResponse>,
    registry: &mut ToolRegistry,
    config: &Configuration,
) -> Result<AgentRun, AgentError> {
    let runtime = tokio::runtime::Builder::new_multi_thread().build().unwrap();
    let run = drive_on(responses, registry, config, &runtime);
    runtime.shutdown_background();
    run
}

fn drive_on(
    responses: Vec<ModelResponse>,
    registry: &mut ToolRegistry,
    config: &Configuration,
    runtime: &tokio::runtime::Runtime,
) -> Result<AgentRun, AgentError> {
    let mut responses = responses;
    config.validate(true)?;
    let mut state = LoopState::new(String::new(), "question", config.max_step);
    loop {
        let _request = state.request(registry.listed_tools());
        let calls = match state.take_response(responses.remove(0)) {
            ResponseOutcome::Finished(run) => return Ok(run),
            ResponseOutcome::Failed(e) => return Err(e),
            ResponseOutcome::RunTools(calls) => calls,
        };
        let retryable: Vec<bool> = calls.iter().map(|c| registry.call_is_retryable(c)).collect();
        let mut scheduler =
            ToolScheduler::new(retryable, config.max_concurrent_tools, config.max_tool_retries);
        let (sender, receiver) = mpsc::channel::<Finished>();
        let mut deadlines: Vec<(usize, Instant)> = Vec::new();
        for index in scheduler.start_ready() {
            start(registry, &calls, index, config, &sender, &mut deadlines, runtime);
        }
        while !scheduler.is_complete() {
            let earliest = deadlines.iter().min_by_key(|d| d.1).copied();
            let (index, result) = match earliest {
                None => receiver.recv().unwrap(),
                Some((late, deadline)) => {
                    match receiver.recv_timeout(deadline.saturating_duration_since(Instant::now())) {
                        Ok(finished) => finished,
                        Err(mpsc::RecvTimeoutError::Timeout) => (
                            late,
                            Err(tool_timeout_error(
                                &calls[late].name,
                                config.tool_execute_timeout.as_millis(),
                            )),
                        ),
                        Err(mpsc::RecvTimeoutError::Disconnected) => unreachable!(),
                    }
                }
            };
            if !scheduler.is_pending(index) {
                continue;
            }
            deadlines.retain(|d| d.0 != index);
            match scheduler.finish(index, result) {
                TaskDecision::Retry { index, multiplier } => {
                    pause(config.retry_backoff.saturating_mul(multiplier));
                    start(registry, &calls, index, config, &sender, &mut deadlines, runtime);
                }
                TaskDecision::Recorded => {
                    for index in scheduler.start_ready() {
                        start(registry, &calls, index, config, &sender, &mut deadlines, runtime);
                    }
                }
            }
        }
        let outputs =
            resolve_tool_results(scheduler.into_results(), config.continue_after_tool_error)?;
        if let Some(run) = state.complete_round(outputs) {
            return Ok(run);
        }
    }
}

fn run_waiting_tools(max_concurrent_tools: usize) -> usize {
    let state = Arc::new(Mutex::new(ConcurrencyState { active: 0, max_active: 0 }));
    let mut registry = ToolRegistry::new(2).unwrap();
    registry.register(WaitingTool { name: "first", state: Arc::clone(&state) }).unwrap();
    registry.register(WaitingTool { name: "second", state: Arc::clone(&state) }).unwrap();
    let config = Configuration { max_concurrent_tools, ..Configuration::default() };
    let run = drive(
        vec![
            ModelResponse::with_tool_calls(
                "",
                vec![ToolCall::new("1", "first", "{}"), ToolCall::new("2", "second", "{}")],
            ),
            ModelResponse::final_text("done"),
        ],
        &mut registry,
        &config,
    );
    assert_eq!(run.unwrap().output, "done");
    let max_active = state.lock().unwrap().max_active;
    max_active
}

#[test]
fn executes_tool_calls_concurrently() {
    assert!(run_waiting_tools(2) >= 2);
}

#[test]
fn respects_configured_tool_concurrency_limit() {
    assert_eq!(run_waiting_tools(1), 1);
}

#[test]
fn runs_tool_then_returns_model_answer() {
    let mut registry = ToolRegistry::new(1).unwrap();
    registry.register(Echo).unwrap();
    let run = drive(
        vec![
            ModelResponse::with_tool_calls("", vec![ToolCall::new("1", "echo", "hello")]),
            ModelResponse::final_text("done"),
        ],
        &mut registry,
        &Configuration::default(),
    );
    assert_eq!(run.unwrap().output, "done");
}

#[test]
fn returns_timeout_when_tool_does_not_complete() {
    let mut registry = ToolRegistry::new(1).unwrap();
    registry.register(HangingTool).unwrap();
    let config = Configuration {
        tool_execute_timeout: Duration::from_millis(5),
        ..Configuration::default()
    };
    let run = drive(
        vec![
            ModelResponse::with_tool_calls("", vec![ToolCall::new("1", "hang", "{}")]),
            ModelResponse::final_text("timeout explained"),
        ],
        &mut registry,
        &config,
    )
    .unwrap();
    assert_eq!(run.output, "timeout explained");
    assert!(run.history.iter().any(|message| matches!(
        message,
        Message::Tool { name, is_error: true, .. } if name == "hang"
    )));
    assert_eq!(
        run.history[2],
        Message::Tool {
            call_id: "1".into(),
            name: "hang".into(),
            content: "tool 'hang' failed with Timeout: timed out after 5 ms".into(),
            is_error: true,
        }
    );
}

#[test]
fn retries_retryable_tool_errors() {
    let attempts = Arc::new(Mutex::new(0));
    let mut registry = ToolRegistry::new(1).unwrap();
    registry.register(FlakyTool { attempts: Arc::clone(&attempts) }).unwrap();
    let config = Configuration {
        max_tool_retries: 1,
        retry_backoff: Duration::from_millis(1),
        ..Configuration::default()
    };
    let run = drive(
        vec![
            ModelResponse::with_tool_calls("", vec![ToolCall::new("1", "flaky", "{}")]),
            ModelResponse::final_text("done"),
        ],
        &mut registry,
        &config,
    )
    .unwrap();
    assert_eq!(run.output, "done");
    assert_eq!(*attempts.lock().unwrap(), 2);
}

#[test]
fn scheduler_starts_calls_in_order_up_to_the_limit() {
    let mut scheduler = ToolScheduler::new(vec![false, false, false, false, false], 2, 0);
    assert_eq!(scheduler.start_ready(), vec![0, 1]);
    assert_eq!(scheduler.in_flight(), 2);
    assert_eq!(scheduler.start_ready(), Vec::<usize>::new());
    assert!(matches!(scheduler.finish(1, Ok(ToolOutput::success("b"))), TaskDecision::Recorded));
    assert_eq!(scheduler.start_ready(), vec![2]);
    assert!(scheduler.is_pending(0));
    assert!(!scheduler.is_pending(1));
    assert!(!scheduler.is_complete());
}

#[test]
fn retry_backoff_doubles_with_each_attempt() {
    let transient = || {
        Err(AgentError::ToolExecution {
            name: "t".into(),
            error: ToolExecutionError::Timeout,
            message: String::new(),
        })
    };
    let mut scheduler = ToolScheduler::new(vec![true], 1, 3);
    assert_eq!(scheduler.start_ready(), vec![0]);
    let mut multipliers = Vec::new();
    for _ in 0..3 {
        match scheduler.finish(0, transient()) {
            TaskDecision::Retry { index, multiplier } => {
                assert_eq!(index, 0);
                multipliers.push(multiplier);
            }
            TaskDecision::Recorded => panic!("expected a retry"),
        }
    }
    assert_eq!(multipliers, vec![1, 2, 4]);
    assert!(matches!(scheduler.finish(0, transient()), TaskDecision::Recorded));
    assert!(scheduler.is_complete());
    let results = scheduler.into_results();
    assert!(results[0].is_err());
}

#[test]
fn permanent_failures_are_not_retried() {
    let mut scheduler = ToolScheduler::new(vec![true, false], 2, 3);
    scheduler.start_ready();
    let denied = Err(AgentError::ToolExecution {
        name: "t".into(),
        error: ToolExecutionError::PermissionDenied,
        message: String::new(),
    });
    assert!(matches!(scheduler.finish(0, denied), TaskDecision::Recorded));
    let timeout = Err(tool_timeout_error("u", 5));
    assert!(matches!(scheduler.finish(1, timeout), TaskDecision::Recorded));
    let results = scheduler.into_results();
    assert_eq!(
        results[1].as_ref().unwrap_err().to_string(),
        "tool 'u' failed with Timeout: timed out after 5 ms"
    );
}

#[test]
fn results_come_back_in_call_order() {
    let mut scheduler = ToolScheduler::new(vec![false, false, false], 3, 0);
    scheduler.start_ready();
    scheduler.finish(2, Ok(ToolOutput::success("c")));
    scheduler.finish(0, Ok(ToolOutput::success("a")));
    scheduler.finish(1, Ok(ToolOutput::success("b")));
    let contents: Vec<String> = scheduler
        .into_results()
        .into_iter()
        .map(|r| r.unwrap().content)
        .collect();
    assert_eq!(contents, vec!["a", "b", "c"]);
}
