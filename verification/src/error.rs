//! Errors of the agent loop and of the tools it runs.
use vstd::prelude::*;

use crate::mcp::{ToolExecutionError, error_name_view};

verus! {

pub enum AgentErrorView {
    InvalidConfig(Seq<char>),
    InvalidAction(Seq<char>),
    DuplicateTool(Seq<char>),
    EmptyToolName,
    UnknownTool(Seq<char>),
    Model(Seq<char>),
    Cancelled,
    Tool { name: Seq<char>, message: Seq<char> },
    ToolExecution { name: Seq<char>, error: ToolExecutionError, message: Seq<char> },
    ToolProvider(ToolExecutionError),
}

#[derive(Debug, Clone, PartialEq, Eq)]
pub enum AgentError {
    InvalidConfig(&'static str),
    InvalidAction(String),
    DuplicateTool(String),
    EmptyToolName,
    UnknownTool(String),
    Model(String),
    Cancelled,
    Tool { name: String, message: String },
    ToolExecution { name: String, error: ToolExecutionError, message: String },
    ToolProvider(ToolExecutionError),
}

impl View for AgentError {
    type V = AgentErrorView;

    open spec fn view(&self) -> AgentErrorView {
        match self {
            AgentError::InvalidConfig(m) => AgentErrorView::InvalidConfig(m@),
            AgentError::InvalidAction(m) => AgentErrorView::InvalidAction(m@),
            AgentError::DuplicateTool(n) => AgentErrorView::DuplicateTool(n@),
            AgentError::EmptyToolName => AgentErrorView::EmptyToolName,
            AgentError::UnknownTool(n) => AgentErrorView::UnknownTool(n@),
            AgentError::Model(m) => AgentErrorView::Model(m@),
            AgentError::Cancelled => AgentErrorView::Cancelled,
            AgentError::Tool { name, message } => AgentErrorView::Tool {
                name: name@,
                message: message@,
            },
            AgentError::ToolExecution { name, error, message } => AgentErrorView::ToolExecution {
                name: name@,
                error: *error,
                message: message@,
            },
            AgentError::ToolProvider(e) => AgentErrorView::ToolProvider(*e),
        }
    }
}

/// The tool failures that a retry may cure.
pub open spec fn is_transient(e: ToolExecutionError) -> bool {
    ||| e == ToolExecutionError::Timeout
    ||| e == ToolExecutionError::NetworkUnreachable
    ||| e == ToolExecutionError::ServerInternalError
}

/// Only a timeout, an unreachable network and an internal server error are
/// worth a retry: a tool or provider failure of any other kind (permission
/// denied, invalid arguments, missing resource, cancellation, unknown) is
/// final, and no other error is retryable either.
pub proof fn law_only_transient_failures_are_retryable(e: AgentErrorView)
    ensures
        e.retryable() <==> match e {
            AgentErrorView::ToolExecution { error, .. } => error == ToolExecutionError::Timeout
                || error == ToolExecutionError::NetworkUnreachable || error
                == ToolExecutionError::ServerInternalError,
            AgentErrorView::ToolProvider(error) => error == ToolExecutionError::Timeout || error
                == ToolExecutionError::NetworkUnreachable || error
                == ToolExecutionError::ServerInternalError,
            _ => false,
        },
        (e matches AgentErrorView::ToolExecution { error, .. } && (error
            == ToolExecutionError::PermissionDenied || error == ToolExecutionError::InvalidArguments
            || error == ToolExecutionError::ResourceNotFound || error
            == ToolExecutionError::Cancelled || error == ToolExecutionError::Unknown))
            ==> !e.retryable(),
{
}

impl AgentErrorView {
    /// Whether retrying the failed tool call may succeed.
    pub open spec fn retryable(self) -> bool {
        match self {
            AgentErrorView::ToolExecution { error, .. } => is_transient(error),
            AgentErrorView::ToolProvider(e) => is_transient(e),
            _ => false,
        }
    }

    /// The text that describes the error to a user or to the model.
    pub open spec fn text(self) -> Seq<char> {
        match self {
            AgentErrorView::InvalidConfig(m) => "invalid loop configuration: "@ + m,
            AgentErrorView::InvalidAction(m) => "invalid model action: "@ + m,
            AgentErrorView::DuplicateTool(n) => "tool already registered: "@ + n,
            AgentErrorView::EmptyToolName => "tool name must not be empty"@,
            AgentErrorView::UnknownTool(n) => "unknown tool: "@ + n,
            AgentErrorView::Model(m) => "model error: "@ + m,
            AgentErrorView::Cancelled => "agent loop cancelled by user"@,
            AgentErrorView::Tool { name, message } => "tool '"@ + name + "' failed: "@ + message,
            AgentErrorView::ToolExecution { name, error, message } => "tool '"@ + name
                + "' failed with "@ + error_name_view(error) + ": "@ + message,
            AgentErrorView::ToolProvider(e) => "MCP provider failed: "@ + error_name_view(e),
        }
    }
}

impl AgentError {
    pub fn is_retryable(&self) -> (r: bool)
        ensures
            r == self@.retryable(),
    {
        match self {
            AgentError::ToolExecution { error, .. } => error.is_transient(),
            AgentError::ToolProvider(e) => e.is_transient(),
            _ => false,
        }
    }

    /// The error's message, as its `Display` renders it.
    pub fn to_string(&self) -> (r: String)
        ensures
            r@ == self@.text(),
    {
        let mut out = String::new();
        match self {
            AgentError::InvalidConfig(m) => {
                out.append("invalid loop configuration: ");
                out.append(m);
            },
            AgentError::InvalidAction(m) => {
                out.append("invalid model action: ");
                out.append(m.as_str());
            },
            AgentError::DuplicateTool(n) => {
                out.append("tool already registered: ");
                out.append(n.as_str());
            },
            AgentError::EmptyToolName => {
                out.append("tool name must not be empty");
            },
            AgentError::UnknownTool(n) => {
                out.append("unknown tool: ");
                out.append(n.as_str());
            },
            AgentError::Model(m) => {
                out.append("model error: ");
                out.append(m.as_str());
            },
            AgentError::Cancelled => {
                out.append("agent loop cancelled by user");
            },
            AgentError::Tool { name, message } => {
                out.append("tool '");
                out.append(name.as_str());
                out.append("' failed: ");
                out.append(message.as_str());
            },
            AgentError::ToolExecution { name, error, message } => {
                out.append("tool '");
                out.append(name.as_str());
                out.append("' failed with ");
                out.append(error.name());
                out.append(": ");
                out.append(message.as_str());
            },
            AgentError::ToolProvider(e) => {
                out.append("MCP provider failed: ");
                out.append(e.name());
            },
        }
        proof {
            assert(out@ =~= self@.text());
        }
        out
    }

    /// A copy that Verus knows to be equal to `self`.
    pub fn duplicate(&self) -> (r: Self)
        ensures
            r@ == self@,
    {
        match self {
            AgentError::InvalidConfig(m) => AgentError::InvalidConfig(m),
            AgentError::InvalidAction(m) => AgentError::InvalidAction(m.clone()),
            AgentError::DuplicateTool(n) => AgentError::DuplicateTool(n.clone()),
            AgentError::EmptyToolName => AgentError::EmptyToolName,
            AgentError::UnknownTool(n) => AgentError::UnknownTool(n.clone()),
            AgentError::Model(m) => AgentError::Model(m.clone()),
            AgentError::Cancelled => AgentError::Cancelled,
            AgentError::Tool { name, message } => AgentError::Tool {
                name: name.clone(),
                message: message.clone(),
            },
            AgentError::ToolExecution { name, error, message } => AgentError::ToolExecution {
                name: name.clone(),
                error: *error,
                message: message.clone(),
            },
            AgentError::ToolProvider(e) => AgentError::ToolProvider(*e),
        }
    }
}

} // verus!
