# harness

An agent-loop kernel: it asks a model, runs the tools the model calls, feeds
their results back, and stops when the model answers without tools or the
step limit is reached.

`src/` is the library, verified with Verus:

- `agent_loop` — the loop's decisions (`LoopState`) and a synchronous
  `AgentLoop`; every finished run is a transcript of complete rounds.
- `scheduler` — concurrent tool calls of one step, with the concurrency
  limit, retries with exponential back-off, and results in call order.
- `tool` — the tool registry: registration, paging with `load_more_tools`,
  MCP snapshots, dispatch; the registry laws are proved here.
- `serving` — reading and accumulation of streamed Chat Completions chunks.
- `json` — JSON values as the harness reads them (parsed by serde_json).
- `request` — the streaming Chat Completions request body built from a
  model request.
- `context` — the system prompt, the Gregorian calendar and the
  document cache.
- `mcp`, `configuration`, `error`, `types`, `session`, `schema`, `text`,
  `cancellation` — the remaining values and checks.

`app/` holds what Verus does not see: the asynchronous driver (Tokio), which
runs application tools on blocking threads and MCP tools as tasks, each under
the tool timeout; the registered callbacks and their global slots; file
reading; turning the library's JSON values into text; and a small
demonstration `main`.
