//! MCP tools that the embedding layer aggregates, and the snapshot of them
//! that the harness keeps.
use vstd::prelude::*;

use crate::error::{AgentError, AgentErrorView};
use crate::tool::{RegistryView, ToolRegistry, first_mcp_problem};

verus! {

#[derive(Debug, Clone, Copy, PartialEq, Eq, Structural)]
pub enum ToolExecutionError {
    Timeout,
    PermissionDenied,
    NetworkUnreachable,
    InvalidArguments,
    ResourceNotFound,
    ServerInternalError,
    Cancelled,
    Unknown,
}

/// The name of a failure kind, as its `Display` renders it.
pub open spec fn error_name_view(e: ToolExecutionError) -> Seq<char> {
    match e {
        ToolExecutionError::Timeout => "Timeout"@,
        ToolExecutionError::PermissionDenied => "PermissionDenied"@,
        ToolExecutionError::NetworkUnreachable => "NetworkUnreachable"@,
        ToolExecutionError::InvalidArguments => "InvalidArguments"@,
        ToolExecutionError::ResourceNotFound => "ResourceNotFound"@,
        ToolExecutionError::ServerInternalError => "ServerInternalError"@,
        ToolExecutionError::Cancelled => "Cancelled"@,
        ToolExecutionError::Unknown => "Unknown"@,
    }
}

impl ToolExecutionError {
    /// The name of the failure kind, as its `Display` renders it.
    pub fn name(&self) -> (r: &'static str)
        ensures
            r@ == error_name_view(*self),
    {
        match self {
            ToolExecutionError::Timeout => "Timeout",
            ToolExecutionError::PermissionDenied => "PermissionDenied",
            ToolExecutionError::NetworkUnreachable => "NetworkUnreachable",
            ToolExecutionError::InvalidArguments => "InvalidArguments",
            ToolExecutionError::ResourceNotFound => "ResourceNotFound",
            ToolExecutionError::ServerInternalError => "ServerInternalError",
            ToolExecutionError::Cancelled => "Cancelled",
            ToolExecutionError::Unknown => "Unknown",
        }
    }

    /// Whether a retry may cure this kind of failure.
    pub fn is_transient(&self) -> (r: bool)
        ensures
            r == crate::error::is_transient(*self),
    {
        match self {
            ToolExecutionError::Timeout => true,
            ToolExecutionError::NetworkUnreachable => true,
            ToolExecutionError::ServerInternalError => true,
            _ => false,
        }
    }

    /// The failure's message, as its `Display` renders it.
    pub fn to_string(&self) -> (r: String)
        ensures
            r@ == error_name_view(*self),
    {
        self.name().to_owned()
    }
}

pub struct McpToolView {
    pub name: Seq<char>,
    pub description: Seq<char>,
    pub input_schema_json: Seq<char>,
    pub retryable: bool,
}

/// A tool that an MCP server offers, as the embedding layer reports it.
#[derive(Debug, Clone, PartialEq, Eq)]
pub struct McpTool {
    pub name: String,
    pub description: String,
    pub input_schema_json: String,
    pub retryable: bool,
}

impl View for McpTool {
    type V = McpToolView;

    open spec fn view(&self) -> McpToolView {
        McpToolView {
            name: self.name@,
            description: self.description@,
            input_schema_json: self.input_schema_json@,
            retryable: self.retryable,
        }
    }
}

impl DeepView for McpTool {
    type V = McpToolView;

    open spec fn deep_view(&self) -> McpToolView {
        self@
    }
}

/// The latest aggregate list of MCP tools pushed by the embedding layer,
/// with a version that changes on every push.
pub struct McpToolSnapshot {
    pub version: u64,
    pub tools: Vec<McpTool>,
}

impl McpToolSnapshot {
    /// The snapshot before anything was pushed.
    pub fn new() -> (r: Self)
        ensures
            r.version == 0,
            r.tools@.len() == 0,
    {
        McpToolSnapshot { version: 0, tools: Vec::new() }
    }
}

/// Records a newly pushed list of MCP tools; the version moves on by one,
/// wrapping around at the end of the `u64` range, so every push is seen as
/// a change.
pub fn update_mcp_tools(snapshot: &mut McpToolSnapshot, tools: Vec<McpTool>)
    ensures
        final(snapshot).version != old(snapshot).version,
        final(snapshot).version == (if old(snapshot).version == u64::MAX {
            0
        } else {
            old(snapshot).version + 1
        }),
        final(snapshot).tools == tools,
{
    snapshot.version = snapshot.version.wrapping_add(1);
    snapshot.tools = tools;
}

/// Makes `provider` the one that serves MCP tools.
pub fn store_tool_provider<P>(slot: &mut Option<P>, provider: P)
    ensures
        *final(slot) == Some(provider),
{
    *slot = Some(provider);
}

/// Forgets the MCP tool provider and pushes an empty tool list.
pub fn clear_tool_provider<P>(slot: &mut Option<P>, snapshot: &mut McpToolSnapshot)
    ensures
        final(slot).is_none(),
        final(snapshot).version == (if old(snapshot).version == u64::MAX {
            0
        } else {
            old(snapshot).version + 1
        }),
        final(snapshot).tools@.len() == 0,
{
    *slot = None;
    update_mcp_tools(snapshot, Vec::new());
}

/// Applies what the MCP provider listed: with no provider registered the
/// MCP tools are removed; a listing failure leaves the registry as it is;
/// otherwise the listed tools replace the MCP tools. Returns how many tools
/// were listed.
pub fn register_fetched_mcp_tools<P: Clone>(
    registry: &mut ToolRegistry<P>,
    fetched: Option<(P, Result<Vec<McpTool>, ToolExecutionError>)>,
) -> (r: Result<usize, AgentError>)
    requires
        old(registry)@.wf(),
    ensures
        final(registry)@.wf(),
        match fetched {
            None => r == Ok::<usize, AgentError>(0) && final(registry)@ == old(registry)@.without_mcp(),
            Some((_, Err(e))) => (r matches Err(x) && x@ == AgentErrorView::ToolProvider(e))
                && final(registry)@ == old(registry)@,
            Some((_, Ok(tools))) => {
                let (next, err) = old(registry)@.replace_mcp(tools.deep_view());
                &&& final(registry)@ == next
                &&& match err {
                    Some(e) => r matches Err(x) && x@ == e,
                    None => r == Ok::<usize, AgentError>(tools@.len() as usize),
                }
            },
        },
        fetched is None ==> final(registry).has_no_mcp_tools(),
        fetched matches Some((p, Ok(tools))) ==> (first_mcp_problem(
            old(registry)@.entries,
            tools.deep_view(),
        ) is None ==> final(registry).mcp_served_by(p)),
{
    match fetched {
        None => {
            let _ = registry.clear_mcp_tools();
            Ok(0)
        },
        Some((provider, listed)) => match listed {
            Err(e) => Err(AgentError::ToolProvider(e)),
            Ok(tools) => {
                let count = tools.len();
                match registry.replace_mcp_tools(provider, tools) {
                    Ok(()) => Ok(count),
                    Err(e) => Err(e),
                }
            },
        },
    }
}

/// Forgets the MCP tool provider, pushes an empty tool list and removes the
/// MCP tools from `registry`.
pub fn unregister_tool_provider_from_registry<P: Clone>(
    slot: &mut Option<P>,
    snapshot: &mut McpToolSnapshot,
    registry: &mut ToolRegistry<P>,
) -> (r: Result<(), AgentError>)
    requires
        old(registry)@.wf(),
    ensures
        (r is Ok),
        final(slot).is_none(),
        final(snapshot).version == (if old(snapshot).version == u64::MAX {
            0
        } else {
            old(snapshot).version + 1
        }),
        final(snapshot).tools@.len() == 0,
        final(registry)@ == old(registry)@.without_mcp(),
        final(registry)@.wf(),
{
    clear_tool_provider(slot, snapshot);
    registry.clear_mcp_tools()
}

} // verus!
