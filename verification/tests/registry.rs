use harness::error::AgentError;
use harness::mcp::{McpTool, McpToolSnapshot, ToolExecutionError, register_fetched_mcp_tools,
    unregister_tool_provider_from_registry, update_mcp_tools};
use harness::tool::{Tool, ToolDispatch, ToolExecutor, ToolRegistry, mcp_call_result};
use harness::types::{ToolCall, ToolDefinition, ToolOutput};

struct NamedTool(&'static str);

impl Tool for NamedTool {
    fn definition(&self) -> ToolDefinition {
        ToolDefinition::new(self.0, self.0, "{}")
    }

    fn execute(&self, _: &ToolCall) -> Result<ToolOutput, AgentError> {
        Ok(ToolOutput::success("ok"))
    }
}

fn names(tools: Vec<ToolDefinition>) -> Vec<String> {
    tools.into_iter().map(|tool| tool.name).collect()
}

fn mcp_tool(name: &str) -> McpTool {
    McpTool {
        name: name.to_string(),
        description: format!("{name} over MCP"),
        input_schema_json: "{}".to_string(),
        retryable: false,
    }
}

#[test]
fn load_more_tools_replaces_the_visible_page() {
    let mut registry: ToolRegistry = ToolRegistry::new(2).unwrap();
    for name in ["one", "two", "three", "four", "five"] {
        registry.register(NamedTool(name)).unwrap();
    }

    assert_eq!(names(registry.list_tools().unwrap()), vec!["one", "two", "load_more_tools"]);

    registry.execute(&ToolCall::new("1", "load_more_tools", "{}")).unwrap();
    assert_eq!(names(registry.list_tools().unwrap()), vec!["three", "four", "load_more_tools"]);

    registry.execute(&ToolCall::new("2", "load_more_tools", "{}")).unwrap();
    assert_eq!(names(registry.list_tools().unwrap()), vec!["five"]);
}

#[test]
fn load_more_tools_reports_what_it_loaded() {
    let mut registry: ToolRegistry = ToolRegistry::new(2).unwrap();
    for name in ["one", "two", "three"] {
        registry.register(NamedTool(name)).unwrap();
    }
    let first = registry.execute(&ToolCall::new("1", "load_more_tools", "{}")).unwrap();
    assert_eq!(first, ToolOutput::success("Loaded tools: one, two"));
    let second = registry.execute(&ToolCall::new("2", "load_more_tools", "{}")).unwrap();
    assert_eq!(second, ToolOutput::success("Loaded tools: three"));
    let third = registry.execute(&ToolCall::new("3", "load_more_tools", "{}")).unwrap();
    assert_eq!(third, ToolOutput::success("No more tools are available"));
    assert!(registry.list_tools().unwrap().is_empty());
}

#[test]
fn registration_checks_names() {
    let mut registry: ToolRegistry = ToolRegistry::default();
    assert_eq!(registry.register(NamedTool("   ")), Err(AgentError::EmptyToolName));
    registry.register(NamedTool(" padded ")).unwrap();
    assert_eq!(
        registry.register(NamedTool("padded")),
        Err(AgentError::DuplicateTool("padded".into()))
    );
    assert_eq!(
        registry.register(NamedTool("load_more_tools")),
        Err(AgentError::DuplicateTool("load_more_tools".into()))
    );
    assert_eq!(
        registry.execute(&ToolCall::new("1", "absent", "{}")),
        Err(AgentError::UnknownTool("absent".into()))
    );
}

#[test]
fn page_size_must_be_positive() {
    assert!(matches!(
        ToolRegistry::<harness::tool::NoMcpProvider>::new(0),
        Err(AgentError::InvalidConfig("num_tool_per_load must be greater than zero"))
    ));
    let mut registry: ToolRegistry = ToolRegistry::new(1).unwrap();
    assert!(registry.set_num_tool_per_load(0).is_err());
    for name in ["a", "b", "c"] {
        registry.register(NamedTool(name)).unwrap();
    }
    registry.set_num_tool_per_load(3).unwrap();
    assert_eq!(names(registry.list_tools().unwrap()), vec!["a", "b", "c"]);
}

#[test]
fn mcp_snapshot_replaces_only_mcp_tools() {
    let mut registry: ToolRegistry<u32> = ToolRegistry::new(8).unwrap();
    registry.register(NamedTool("local")).unwrap();
    registry.replace_mcp_tools(7, vec![mcp_tool("remote_a"), mcp_tool("remote_b")]).unwrap();
    assert_eq!(
        names(registry.list_tools().unwrap()),
        vec!["local", "remote_a", "remote_b"]
    );
    registry.replace_mcp_tools(9, vec![mcp_tool("remote_c")]).unwrap();
    assert_eq!(names(registry.list_tools().unwrap()), vec!["local", "remote_c"]);
    assert!(matches!(
        registry.dispatch(&ToolCall::new("1", "remote_c", "{}")),
        ToolDispatch::Mcp(9)
    ));
    assert!(matches!(
        registry.dispatch(&ToolCall::new("2", "local", "{}")),
        ToolDispatch::Local(0)
    ));
    registry.clear_mcp_tools().unwrap();
    assert_eq!(names(registry.list_tools().unwrap()), vec!["local"]);
}

#[test]
fn mcp_snapshot_with_refused_names_changes_nothing() {
    let mut registry: ToolRegistry<u32> = ToolRegistry::new(8).unwrap();
    registry.register(NamedTool("local")).unwrap();
    registry.replace_mcp_tools(1, vec![mcp_tool("remote")]).unwrap();
    assert_eq!(
        registry.replace_mcp_tools(1, vec![mcp_tool("fresh"), mcp_tool("local")]),
        Err(AgentError::DuplicateTool("local".into()))
    );
    assert_eq!(
        registry.replace_mcp_tools(1, vec![mcp_tool(" ")]),
        Err(AgentError::InvalidAction("invalid MCP tool name".into()))
    );
    assert_eq!(names(registry.list_tools().unwrap()), vec!["local", "remote"]);
}

#[test]
fn sync_applies_each_pushed_snapshot_once() {
    let mut registry: ToolRegistry<u32> = ToolRegistry::new(8).unwrap();
    let mut snapshot = McpToolSnapshot::new();
    update_mcp_tools(&mut snapshot, vec![mcp_tool("remote")]);
    assert_eq!(snapshot.version, 1);
    registry.sync_if_changed(snapshot.version, snapshot.tools.clone(), Some(3)).unwrap();
    assert_eq!(registry.mcp_snapshot_version(), 1);
    assert_eq!(names(registry.list_tools().unwrap()), vec!["remote"]);
    registry.sync_if_changed(snapshot.version, snapshot.tools.clone(), Some(3)).unwrap();
    assert_eq!(names(registry.list_tools().unwrap()), vec!["remote"]);
    update_mcp_tools(&mut snapshot, vec![mcp_tool("other")]);
    registry.sync_if_changed(snapshot.version, snapshot.tools.clone(), None).unwrap();
    assert!(registry.list_tools().unwrap().is_empty());
    assert_eq!(registry.mcp_snapshot_version(), 2);
}

#[test]
fn fetched_tools_are_registered_and_counted() {
    let mut registry: ToolRegistry<u32> = ToolRegistry::new(8).unwrap();
    let count = register_fetched_mcp_tools(
        &mut registry,
        Some((5, Ok(vec![mcp_tool("a"), mcp_tool("b")]))),
    );
    assert_eq!(count, Ok(2));
    assert_eq!(
        register_fetched_mcp_tools(&mut registry, Some((5, Err(ToolExecutionError::Timeout)))),
        Err(AgentError::ToolProvider(ToolExecutionError::Timeout))
    );
    assert_eq!(names(registry.list_tools().unwrap()), vec!["a", "b"]);
    assert_eq!(register_fetched_mcp_tools(&mut registry, None), Ok(0));
    assert!(registry.list_tools().unwrap().is_empty());
}

#[test]
fn unregistering_the_provider_clears_mcp_tools() {
    let mut registry: ToolRegistry<u32> = ToolRegistry::new(8).unwrap();
    registry.register(NamedTool("local")).unwrap();
    registry.replace_mcp_tools(1, vec![mcp_tool("remote")]).unwrap();
    let mut slot = Some(1u32);
    let mut snapshot = McpToolSnapshot::new();
    unregister_tool_provider_from_registry(&mut slot, &mut snapshot, &mut registry).unwrap();
    assert!(slot.is_none());
    assert_eq!(snapshot.version, 1);
    assert!(snapshot.tools.is_empty());
    assert_eq!(names(registry.list_tools().unwrap()), vec!["local"]);
}

#[test]
fn snapshot_version_wraps_around() {
    let mut snapshot = McpToolSnapshot { version: u64::MAX, tools: vec![] };
    update_mcp_tools(&mut snapshot, vec![]);
    assert_eq!(snapshot.version, 0);
}

#[test]
fn mcp_answers_become_tool_results() {
    assert_eq!(mcp_call_result("remote", Ok("42".into())), Ok(ToolOutput::success("42")));
    assert_eq!(
        mcp_call_result("remote", Err(ToolExecutionError::ResourceNotFound)),
        Err(AgentError::ToolExecution {
            name: "remote".into(),
            error: ToolExecutionError::ResourceNotFound,
            message: "ResourceNotFound".into(),
        })
    );
}

#[test]
fn retryable_follows_the_definition() {
    let mut registry: ToolRegistry<u32> = ToolRegistry::new(8).unwrap();
    let mut tool = mcp_tool("remote");
    tool.retryable = true;
    registry.replace_mcp_tools(1, vec![tool, mcp_tool("plain")]).unwrap();
    assert!(registry.is_retryable(&ToolCall::new("1", "remote", "{}")));
    assert!(!registry.is_retryable(&ToolCall::new("2", "plain", "{}")));
    assert!(!registry.is_retryable(&ToolCall::new("3", "absent", "{}")));
}

#[test]
fn initialization_and_refresh_record_their_outcome() {
    let mut registry: ToolRegistry<u32> = ToolRegistry::new(8).unwrap();
    assert!(!registry.is_initialized());
    assert!(registry.finish_initialization(Err(AgentError::Cancelled)).is_err());
    assert!(!registry.is_initialized());
    registry.finish_refresh(Ok(0), 4).unwrap();
    assert_eq!(registry.mcp_snapshot_version(), 4);
    registry.finish_initialization(Ok(())).unwrap();
    assert!(registry.is_initialized());
}

#[test]
fn clearing_mcp_tools_twice_is_clearing_once() {
    let mut registry: ToolRegistry<u32> = ToolRegistry::new(1).unwrap();
    registry.register(NamedTool("a")).unwrap();
    registry.replace_mcp_tools(1, vec![mcp_tool("m1"), mcp_tool("m2")]).unwrap();
    registry.register(NamedTool("b")).unwrap();
    assert!(matches!(
        registry.dispatch(&ToolCall::new("1", "load_more_tools", "{}")),
        ToolDispatch::Finished(Ok(_))
    ));
    assert_eq!(names(registry.list_tools().unwrap()), vec!["m1", "load_more_tools"]);
    registry.clear_mcp_tools().unwrap();
    let once = names(registry.list_tools().unwrap());
    registry.clear_mcp_tools().unwrap();
    assert_eq!(names(registry.list_tools().unwrap()), once);
    assert_eq!(once, vec!["b"]);
}

#[test]
fn clearing_after_a_replacement_forgets_the_replacement() {
    let mut replaced: ToolRegistry<u32> = ToolRegistry::new(8).unwrap();
    let mut untouched: ToolRegistry<u32> = ToolRegistry::new(8).unwrap();
    for registry in [&mut replaced, &mut untouched] {
        registry.register(NamedTool("x")).unwrap();
        registry.register(NamedTool("y")).unwrap();
    }
    replaced.replace_mcp_tools(2, vec![mcp_tool("m")]).unwrap();
    replaced.clear_mcp_tools().unwrap();
    untouched.clear_mcp_tools().unwrap();
    assert_eq!(names(replaced.list_tools().unwrap()), names(untouched.list_tools().unwrap()));
}

struct FailingTool;

impl Tool for FailingTool {
    fn definition(&self) -> ToolDefinition {
        ToolDefinition::new("failing", "Always fails", "{}")
    }

    fn execute(&self, _: &ToolCall) -> Result<ToolOutput, AgentError> {
        Err(AgentError::Model("backend down".into()))
    }
}

#[test]
fn tool_failures_are_attributed_to_the_tool() {
    let mut registry: ToolRegistry = ToolRegistry::new(4).unwrap();
    registry.register(FailingTool).unwrap();
    assert_eq!(
        registry.execute(&ToolCall::new("1", "failing", "{}")),
        Err(AgentError::Tool {
            name: "failing".into(),
            message: "model error: backend down".into(),
        })
    );
    let execution = AgentError::ToolExecution {
        name: "x".into(),
        error: ToolExecutionError::Timeout,
        message: "slow".into(),
    };
    assert_eq!(
        harness::tool::finish_tool_result("other", Err(execution.clone())),
        Err(execution)
    );
}
