use harness::configuration::Configuration;
use harness::error::AgentError;
use harness::mcp::ToolExecutionError;
use harness::serving::ModelServeError;
use harness::text::{is_blank, push_decimal, same_text, trim};
use std::time::Duration;

#[test]
fn agent_errors_render_like_display() {
    let cases = vec![
        (AgentError::InvalidConfig("x"), "invalid loop configuration: x"),
        (AgentError::InvalidAction("y".into()), "invalid model action: y"),
        (AgentError::DuplicateTool("t".into()), "tool already registered: t"),
        (AgentError::EmptyToolName, "tool name must not be empty"),
        (AgentError::UnknownTool("u".into()), "unknown tool: u"),
        (AgentError::Model("m".into()), "model error: m"),
        (AgentError::Cancelled, "agent loop cancelled by user"),
        (AgentError::Tool { name: "t".into(), message: "boom".into() }, "tool 't' failed: boom"),
        (
            AgentError::ToolExecution {
                name: "t".into(),
                error: ToolExecutionError::PermissionDenied,
                message: "no".into(),
            },
            "tool 't' failed with PermissionDenied: no",
        ),
        (AgentError::ToolProvider(ToolExecutionError::Unknown), "MCP provider failed: Unknown"),
    ];
    for (error, text) in cases {
        assert_eq!(error.to_string(), text);
    }
    assert_eq!(ModelServeError::Cancelled.to_string(), "Cancelled");
    assert_eq!(ToolExecutionError::ServerInternalError.to_string(), "ServerInternalError");
}

#[test]
fn only_transient_tool_failures_are_retryable() {
    let execution = |error| AgentError::ToolExecution {
        name: "t".into(),
        error,
        message: String::new(),
    };
    assert!(execution(ToolExecutionError::Timeout).is_retryable());
    assert!(execution(ToolExecutionError::NetworkUnreachable).is_retryable());
    assert!(execution(ToolExecutionError::ServerInternalError).is_retryable());
    assert!(!execution(ToolExecutionError::InvalidArguments).is_retryable());
    assert!(AgentError::ToolProvider(ToolExecutionError::Timeout).is_retryable());
    assert!(!AgentError::ToolProvider(ToolExecutionError::Cancelled).is_retryable());
    assert!(!AgentError::Model("m".into()).is_retryable());
    assert!(!AgentError::Tool { name: "t".into(), message: "m".into() }.is_retryable());
}

#[test]
fn default_configuration() {
    let config = Configuration::default();
    assert_eq!(config.max_step, 16);
    assert_eq!(config.num_tool_per_load, 8);
    assert_eq!(config.max_concurrent_tools, 4);
    assert_eq!(config.tool_execute_timeout, Duration::from_secs(30));
    assert_eq!(config.max_tool_retries, 2);
    assert_eq!(config.retry_backoff, Duration::from_secs(1));
    assert!(config.continue_after_tool_error);
    assert_eq!(config.validate(true), Ok(()));
}

#[test]
fn configuration_problems_in_order() {
    let base = Configuration::default();
    let check = |config: Configuration, initialized: bool| match config.validate(initialized) {
        Err(AgentError::InvalidConfig(message)) => message,
        other => panic!("unexpected {other:?}"),
    };
    assert_eq!(
        check(Configuration { max_step: 0, num_tool_per_load: 0, ..base }, false),
        "max_steps must be greater than zero"
    );
    assert_eq!(
        check(Configuration { num_tool_per_load: 0, ..base }, true),
        "num_tool_per_load must be greater than zero"
    );
    assert_eq!(
        check(Configuration { max_concurrent_tools: 0, ..base }, true),
        "max_concurrent_tools must be greater than zero"
    );
    assert_eq!(
        check(Configuration { tool_execute_timeout: Duration::ZERO, ..base }, true),
        "tool_execute_timeout must be greater than zero"
    );
    assert_eq!(
        check(Configuration { retry_backoff: Duration::ZERO, ..base }, true),
        "retry_backoff must be greater than zero when retries are enabled"
    );
    assert_eq!(
        Configuration { retry_backoff: Duration::ZERO, max_tool_retries: 0, ..base }.validate(true),
        Ok(())
    );
    assert_eq!(
        check(base, false),
        "tool executor must be initialized before running the agent loop"
    );
}

#[test]
fn text_helpers() {
    assert_eq!(trim("  a b \n"), "a b");
    assert_eq!(trim("\u{3000}全角\u{3000}"), "全角");
    assert!(is_blank(" \t\r\n"));
    assert!(is_blank(""));
    assert!(!is_blank(" x "));
    assert!(same_text("abc", "abc"));
    assert!(!same_text("abc", "abd"));
    let mut out = String::from("n=");
    push_decimal(&mut out, 7, 3);
    push_decimal(&mut out, 12345, 2);
    assert_eq!(out, "n=00712345");
}
