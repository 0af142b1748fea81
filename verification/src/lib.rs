//! Agent loop kernel: tool registry, loop decisions and prompt assembly.
//!
//! The state that the embedding application registers (the MCP tool
//! provider, the pushed MCP tool snapshot, the active cancellation token) is
//! owned by the caller and handed to the functions below.
use tokio_util::sync::CancellationToken;
use vstd::prelude::*;

pub mod agent_loop;
pub mod cancellation;
pub mod configuration;
pub mod context;
pub mod error;
pub mod json;
pub mod mcp;
pub mod request;
pub mod scheduler;
pub mod schema;
pub mod serving;
pub mod session;
pub mod text;
pub mod tool;
pub mod types;

verus! {

/// Makes `provider` the MCP tool provider.
pub fn register_tool_provider<P>(slot: &mut Option<P>, provider: P)
    ensures
        *final(slot) == Some(provider),
{
    mcp::store_tool_provider(slot, provider);
}

/// Forgets the MCP tool provider and pushes an empty MCP tool list.
pub fn unregister_tool_provider<P>(slot: &mut Option<P>, snapshot: &mut mcp::McpToolSnapshot)
    ensures
        final(slot).is_none(),
        final(snapshot).version == (if old(snapshot).version == u64::MAX {
            0
        } else {
            old(snapshot).version + 1
        }),
        final(snapshot).tools@.len() == 0,
{
    mcp::clear_tool_provider(slot, snapshot);
}

/// Cancels the currently running agent loop, if one exists.
pub fn cancel_agent_loop(active: &Option<CancellationToken>) {
    cancellation::cancel(active);
}

} // verus!
