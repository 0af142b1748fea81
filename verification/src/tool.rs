//! Tool discovery, paging and dispatch.
//!
//! The registry keeps the registered tools in registration order. The model
//! sees one page of them at a time, followed by the built-in
//! `load_more_tools` tool while more pages remain; calling that tool moves
//! to the next page instead of adding to the visible one.
use std::sync::Arc;

use vstd::prelude::*;

use crate::error::{AgentError, AgentErrorView};
use crate::mcp::{McpTool, McpToolView, ToolExecutionError};
use crate::text::{same_text, trim, trim_view};
use vstd::string::StrSliceExecFns;
use crate::types::{ToolCall, ToolDefinition, ToolDefinitionView, ToolOutput, ToolOutputView};

verus! {

/// A tool implemented by the embedding application.
pub trait Tool: Send + Sync {
    fn definition(&self) -> ToolDefinition;

    fn execute(&self, call: &ToolCall) -> Result<ToolOutput, AgentError>;
}

/// What a tool listing answered, by its views.
pub open spec fn listing_view(r: Result<Vec<ToolDefinition>, AgentError>) -> Result<
    Seq<ToolDefinitionView>,
    AgentErrorView,
> {
    match r {
        Ok(tools) => Ok(tools.deep_view()),
        Err(e) => Err(e@),
    }
}

/// Whether the first tool named `name` in `tools` is retryable; false when
/// no tool has that name.
pub open spec fn first_named_retryable(tools: Seq<ToolDefinitionView>, name: Seq<char>) -> bool
    decreases tools.len(),
{
    if tools.len() == 0 {
        false
    } else if tools[0].name == name {
        tools[0].retryable
    } else {
        first_named_retryable(tools.drop_first(), name)
    }
}

/// Whether a listing shows the tool `name` as retryable; a failed listing
/// shows nothing.
pub open spec fn listed_retryable(
    listing: Result<Seq<ToolDefinitionView>, AgentErrorView>,
    name: Seq<char>,
) -> bool {
    match listing {
        Ok(tools) => first_named_retryable(tools, name),
        Err(_) => false,
    }
}

/// Execution seam for policy, sandbox, retries and remote dispatch.
pub trait ToolExecutor {
    /// What `list_tools` answers for this executor.
    spec fn tool_listing(&self) -> Result<Seq<ToolDefinitionView>, AgentErrorView>;

    /// Whether the executor has loaded its tools; by default, always.
    fn is_initialized(&self) -> (r: bool)
        default_ensures
            r,
    {
        true
    }

    fn list_tools(&self) -> (r: Result<Vec<ToolDefinition>, AgentError>)
        ensures
            listing_view(r) == self.tool_listing(),
    ;

    /// Whether a failed call of this tool may be retried; by default, whether
    /// the first listed tool with the call's name is retryable.
    fn is_retryable(&self, call: &ToolCall) -> (r: bool)
        default_ensures
            r == listed_retryable(self.tool_listing(), call.name@),
    {
        let listed = self.list_tools();
        assert(listing_view(listed) == self.tool_listing());
        match listed {
            Ok(tools) => {
                let ghost views = tools.deep_view();
                assert(self.tool_listing() == Ok::<Seq<ToolDefinitionView>, AgentErrorView>(views));
                let mut i: usize = 0;
                assert(views.skip(0) =~= views);
                while i < tools.len()
                    invariant
                        i <= tools@.len(),
                        views == tools.deep_view(),
                        self.tool_listing() == Ok::<Seq<ToolDefinitionView>, AgentErrorView>(views),
                        first_named_retryable(views, call.name@) == first_named_retryable(
                            views.skip(i as int),
                            call.name@,
                        ),
                    decreases tools.len() - i,
                {
                    proof {
                        assert(views.skip(i as int)[0] == tools@[i as int]@);
                        assert(views.skip(i as int).drop_first() =~= views.skip(i + 1));
                    }
                    if same_text(tools[i].name.as_str(), call.name.as_str()) {
                        proof {
                            assert(views.skip(i as int)[0].name == call.name@);
                        }
                        return tools[i].retryable;
                    }
                    i = i + 1;
                }
                proof {
                    assert(views.skip(i as int).len() == 0);
                }
                false
            },
            Err(_) => false,
        }
    }
}

/// The provider type of a registry that holds no MCP tools. Nothing outside
/// this crate can make one, so such a registry never receives MCP tools.
#[derive(Debug, Clone, Copy, PartialEq, Eq)]
pub struct NoMcpProvider {
    unconstructible: (),
}

pub open spec fn load_more_tools_name() -> Seq<char> {
    "load_more_tools"@
}

/// The definition of the built-in paging tool.
pub open spec fn load_more_tools_definition() -> ToolDefinitionView {
    ToolDefinitionView {
        name: "load_more_tools"@,
        description: "Load the next page of registered tools"@,
        parameters_schema: "{num_tools?: integer}"@,
        retryable: false,
    }
}

fn builtin_definition() -> (r: ToolDefinition)
    ensures
        r@ == load_more_tools_definition(),
{
    ToolDefinition::new(
        "load_more_tools",
        "Load the next page of registered tools",
        "{num_tools?: integer}",
    )
}

/// How a registered tool is run.
pub enum ToolSource<P> {
    /// A tool of the embedding application, shared with the runs of it that
    /// are in flight.
    Local(Arc<Box<dyn Tool>>),
    /// A tool served by the MCP provider that was current when the tool
    /// snapshot was installed.
    Mcp(P),
}

/// A registered tool: its key (the trimmed name), its definition and its
/// source.
pub struct RegisteredTool<P> {
    key: String,
    definition: ToolDefinition,
    source: ToolSource<P>,
}

pub struct ToolEntryView {
    pub key: Seq<char>,
    pub definition: ToolDefinitionView,
    pub is_mcp: bool,
}

impl<P> DeepView for RegisteredTool<P> {
    type V = ToolEntryView;

    closed spec fn deep_view(&self) -> ToolEntryView {
        ToolEntryView {
            key: self.key@,
            definition: self.definition@,
            is_mcp: self.source is Mcp,
        }
    }
}

pub struct RegistryView {
    pub entries: Seq<ToolEntryView>,
    pub page_start: nat,
    pub num_tool_per_load: nat,
    pub mcp_snapshot_version: u64,
    pub initialized: bool,
}

/// What the caller has to do to complete a tool call.
pub enum ToolDispatch<P> {
    /// The registry answered the call itself.
    Finished(Result<ToolOutput, AgentError>),
    /// Run the application tool at this position with `run_local_tool`, then
    /// pass its result to `finish_tool_result`.
    Local(usize),
    /// Call the tool through this MCP provider, then pass the provider's
    /// answer to `mcp_call_result` and that to `finish_tool_result`.
    Mcp(P),
}

/// Whether a registered tool has key `name`.
pub open spec fn has_key(entries: Seq<ToolEntryView>, name: Seq<char>) -> bool {
    exists|i: int| 0 <= i < entries.len() && #[trigger] entries[i].key == name
}

/// Whether an application tool has key `name`.
pub open spec fn has_local_key(entries: Seq<ToolEntryView>, name: Seq<char>) -> bool {
    exists|i: int| 0 <= i < entries.len() && #[trigger] entries[i].key == name && !entries[i].is_mcp
}

/// The position of the first tool with key `name`.
pub open spec fn key_position(entries: Seq<ToolEntryView>, name: Seq<char>) -> int {
    choose|i: int|
        0 <= i < entries.len() && #[trigger] entries[i].key == name && forall|j: int|
            0 <= j < i ==> #[trigger] entries[j].key != name
}

proof fn lemma_first_key(entries: Seq<ToolEntryView>, name: Seq<char>, i: int)
    requires
        0 <= i < entries.len(),
        entries[i].key == name,
    ensures
        exists|k: int|
            0 <= k < entries.len() && #[trigger] entries[k].key == name && forall|j: int|
                0 <= j < k ==> #[trigger] entries[j].key != name,
    decreases i,
{
    if exists|j: int| 0 <= j < i && #[trigger] entries[j].key == name {
        let j = choose|j: int| 0 <= j < i && #[trigger] entries[j].key == name;
        lemma_first_key(entries, name, j);
    } else {
        assert(forall|j: int| 0 <= j < i ==> #[trigger] entries[j].key != name);
    }
}

/// The first position with key `name` is where that key is.
pub proof fn lemma_key_position(entries: Seq<ToolEntryView>, name: Seq<char>)
    requires
        has_key(entries, name),
    ensures
        0 <= key_position(entries, name) < entries.len(),
        entries[key_position(entries, name)].key == name,
        forall|j: int| 0 <= j < key_position(entries, name) ==> #[trigger] entries[j].key != name,
{
    let i = choose|i: int| 0 <= i < entries.len() && #[trigger] entries[i].key == name;
    lemma_first_key(entries, name, i);
}

/// The definition that answers to `name`: the built-in paging tool, or the
/// first registered tool with that key.
pub open spec fn lookup(entries: Seq<ToolEntryView>, name: Seq<char>) -> Option<ToolDefinitionView> {
    if name == load_more_tools_name() {
        Some(load_more_tools_definition())
    } else if has_key(entries, name) {
        Some(entries[key_position(entries, name)].definition)
    } else {
        None
    }
}

/// The outcome of registering `entry`: its key must be non-empty and new.
pub open spec fn insert_outcome(entries: Seq<ToolEntryView>, entry: ToolEntryView) -> Result<
    Seq<ToolEntryView>,
    AgentErrorView,
> {
    if entry.key.len() == 0 {
        Err(AgentErrorView::EmptyToolName)
    } else if entry.key == load_more_tools_name() || has_key(entries, entry.key) {
        Err(AgentErrorView::DuplicateTool(entry.key))
    } else {
        Ok(entries.push(entry))
    }
}

/// The entry that a tool with definition `d` gets.
pub open spec fn entry_for(d: ToolDefinitionView, is_mcp: bool) -> ToolEntryView {
    ToolEntryView { key: trim_view(d.name), definition: d, is_mcp }
}

/// The definition that an MCP tool is registered with.
pub open spec fn mcp_definition(t: McpToolView) -> ToolDefinitionView {
    ToolDefinitionView {
        name: t.name,
        description: t.description,
        parameters_schema: t.input_schema_json,
        retryable: t.retryable,
    }
}

/// The application tools, in order.
pub open spec fn local_entries(entries: Seq<ToolEntryView>) -> Seq<ToolEntryView>
    decreases entries.len(),
{
    if entries.len() == 0 {
        entries
    } else if entries.last().is_mcp {
        local_entries(entries.drop_last())
    } else {
        local_entries(entries.drop_last()).push(entries.last())
    }
}

/// Why an MCP tool name is refused, if it is.
pub open spec fn mcp_name_problem(entries: Seq<ToolEntryView>, name: Seq<char>) -> Option<
    AgentErrorView,
> {
    if name.len() == 0 || name == load_more_tools_name() {
        Some(AgentErrorView::InvalidAction("invalid MCP tool name"@))
    } else if has_local_key(entries, name) {
        Some(AgentErrorView::DuplicateTool(name))
    } else {
        None
    }
}

/// The first refused name of an MCP tool list, checked in order.
pub open spec fn first_mcp_problem(entries: Seq<ToolEntryView>, tools: Seq<McpToolView>) -> Option<
    AgentErrorView,
>
    decreases tools.len(),
{
    if tools.len() == 0 {
        None
    } else {
        match mcp_name_problem(entries, trim_view(tools[0].name)) {
            Some(e) => Some(e),
            None => first_mcp_problem(entries, tools.drop_first()),
        }
    }
}

/// Registers the MCP tools one after another; stops at the first that
/// cannot be registered, keeping those before it.
pub open spec fn insert_mcp_tools(entries: Seq<ToolEntryView>, tools: Seq<McpToolView>) -> (
    Seq<ToolEntryView>,
    Option<AgentErrorView>,
)
    decreases tools.len(),
{
    if tools.len() == 0 {
        (entries, None)
    } else {
        match insert_outcome(entries, entry_for(mcp_definition(tools[0]), true)) {
            Ok(next) => insert_mcp_tools(next, tools.drop_first()),
            Err(e) => (entries, Some(e)),
        }
    }
}

pub open spec fn min_nat(a: nat, b: nat) -> nat {
    if a <= b {
        a
    } else {
        b
    }
}

/// `parts` joined with `sep` between consecutive parts.
pub open spec fn join_view(parts: Seq<Seq<char>>, sep: Seq<char>) -> Seq<char>
    decreases parts.len(),
{
    if parts.len() == 0 {
        Seq::empty()
    } else if parts.len() == 1 {
        parts[0]
    } else {
        join_view(parts.drop_last(), sep) + sep + parts.last()
    }
}

/// The keys of `entries`.
pub open spec fn keys_of(entries: Seq<ToolEntryView>) -> Seq<Seq<char>> {
    entries.map_values(|e: ToolEntryView| e.key)
}

/// The output of `load_more_tools` when it moves past `shown`.
pub open spec fn load_more_text(shown: Seq<ToolEntryView>) -> Seq<char> {
    let names = join_view(keys_of(shown), ", "@);
    if names.len() == 0 {
        "No more tools are available"@
    } else {
        "Loaded tools: "@ + names
    }
}

impl RegistryView {
    /// Registry validity: positive page size, the page inside the list, and
    /// keys that are the trimmed names, non-empty, not the built-in tool's
    /// and pairwise distinct.
    pub open spec fn wf(self) -> bool {
        &&& self.num_tool_per_load > 0
        &&& self.page_start <= self.entries.len()
        &&& forall|i: int|
            0 <= i < self.entries.len() ==> {
                &&& #[trigger] self.entries[i].key == trim_view(self.entries[i].definition.name)
                &&& self.entries[i].key.len() > 0
                &&& self.entries[i].key != load_more_tools_name()
            }
        &&& forall|i: int, j: int|
            0 <= i < j < self.entries.len() ==> #[trigger] self.entries[i].key
                != #[trigger] self.entries[j].key
    }

    /// The first position of the visible page.
    pub open spec fn page_begin(self) -> nat {
        min_nat(self.page_start, self.entries.len())
    }

    /// The position after the visible page.
    pub open spec fn page_end(self) -> nat {
        min_nat(self.page_begin() + self.num_tool_per_load, self.entries.len())
    }

    /// The definitions that the model sees: the visible page, then the
    /// built-in paging tool if tools remain after the page.
    pub open spec fn listing(self) -> Seq<ToolDefinitionView> {
        let page = self.entries.subrange(self.page_begin() as int, self.page_end() as int).map_values(
            |e: ToolEntryView| e.definition,
        );
        if self.page_end() < self.entries.len() {
            page.push(load_more_tools_definition())
        } else {
            page
        }
    }

    /// The registry after `load_more_tools` ran.
    pub open spec fn after_load_more(self) -> RegistryView {
        RegistryView {
            page_start: min_nat(self.page_start + self.num_tool_per_load, self.entries.len()),
            ..self
        }
    }

    /// The tools that `load_more_tools` moves past.
    pub open spec fn load_more_range(self) -> Seq<ToolEntryView> {
        self.entries.subrange(
            self.page_start as int,
            min_nat(self.page_start + self.num_tool_per_load, self.entries.len()) as int,
        )
    }

    /// The registry with its MCP tools removed.
    pub open spec fn without_mcp(self) -> RegistryView {
        let kept = local_entries(self.entries);
        RegistryView { entries: kept, page_start: min_nat(self.page_start, kept.len()), ..self }
    }

    /// The registry after replacing its MCP tools with `tools`, and the
    /// error that stopped the replacement, if any.
    pub open spec fn replace_mcp(self, tools: Seq<McpToolView>) -> (RegistryView, Option<AgentErrorView>) {
        match first_mcp_problem(self.entries, tools) {
            Some(e) => (self, Some(e)),
            None => {
                let cleared = self.without_mcp();
                let (entries, err) = insert_mcp_tools(cleared.entries, tools);
                (RegistryView { entries, ..cleared }, err)
            },
        }
    }

    /// The registry after a sync with the pushed snapshot `version`/`tools`,
    /// when `provider_present` says whether a provider is registered.
    pub open spec fn synced(self, version: u64, tools: Seq<McpToolView>, provider_present: bool) -> (
        RegistryView,
        Option<AgentErrorView>,
    ) {
        if version == self.mcp_snapshot_version {
            (self, None)
        } else if !provider_present {
            (RegistryView { mcp_snapshot_version: version, ..self.without_mcp() }, None)
        } else {
            let (replaced, err) = self.replace_mcp(tools);
            match err {
                Some(e) => (replaced, Some(e)),
                None => (RegistryView { mcp_snapshot_version: version, ..replaced }, None),
            }
        }
    }
}

/// The tools offered to the model, in registration order, with the paging
/// state of `load_more_tools` and the version of the installed MCP snapshot.
pub struct ToolRegistry<P = NoMcpProvider> {
    entries: Vec<RegisteredTool<P>>,
    page_start: usize,
    num_tool_per_load: usize,
    mcp_snapshot_version: u64,
    initialized: bool,
}

impl<P> View for ToolRegistry<P> {
    type V = RegistryView;

    closed spec fn view(&self) -> RegistryView {
        RegistryView {
            entries: self.entries.deep_view(),
            page_start: self.page_start as nat,
            num_tool_per_load: self.num_tool_per_load as nat,
            mcp_snapshot_version: self.mcp_snapshot_version,
            initialized: self.initialized,
        }
    }
}

proof fn lemma_local_entries_push(entries: Seq<ToolEntryView>, e: ToolEntryView)
    ensures
        local_entries(entries.push(e)) == (if e.is_mcp {
            local_entries(entries)
        } else {
            local_entries(entries).push(e)
        }),
{
    assert(entries.push(e).drop_last() =~= entries);
}

proof fn lemma_local_entries_wf(entries: Seq<ToolEntryView>)
    ensures
        local_entries(entries).len() <= entries.len(),
        forall|i: int|
            0 <= i < local_entries(entries).len() ==> exists|j: int|
                0 <= j < entries.len() && #[trigger] local_entries(entries)[i] == entries[j]
                    && !entries[j].is_mcp,
        (forall|a: int, b: int|
            0 <= a < b < entries.len() ==> #[trigger] entries[a].key != #[trigger] entries[b].key)
            ==> (forall|i: int, j: int|
            0 <= i < j < local_entries(entries).len() ==> #[trigger] local_entries(entries)[i].key
                != #[trigger] local_entries(entries)[j].key),
    decreases entries.len(),
{
    if entries.len() > 0 {
        let prev = entries.drop_last();
        lemma_local_entries_wf(prev);
        let lp = local_entries(prev);
        let le = local_entries(entries);
        assert forall|i: int| 0 <= i < le.len() implies exists|j: int|
            0 <= j < entries.len() && #[trigger] le[i] == entries[j] && !entries[j].is_mcp by {
            if i < lp.len() {
                let j = choose|j: int| 0 <= j < prev.len() && #[trigger] lp[i] == prev[j] && !prev[j].is_mcp;
                assert(le[i] == entries[j]);
            } else {
                assert(le[i] == entries[entries.len() - 1]);
            }
        }
        if forall|a: int, b: int|
            0 <= a < b < entries.len() ==> #[trigger] entries[a].key != #[trigger] entries[b].key {
            assert forall|a: int, b: int| 0 <= a < b < prev.len() implies #[trigger] prev[a].key
                != #[trigger] prev[b].key by {
                assert(prev[a] == entries[a]);
                assert(prev[b] == entries[b]);
            }
            assert forall|i: int, j: int| 0 <= i < j < le.len() implies #[trigger] le[i].key
                != #[trigger] le[j].key by {
                if j < lp.len() {
                    assert(le[i] == lp[i]);
                    assert(le[j] == lp[j]);
                } else {
                    assert(le[i] == lp[i]);
                    let a = choose|a: int| 0 <= a < prev.len() && #[trigger] lp[i] == prev[a] && !prev[a].is_mcp;
                    assert(prev[a] == entries[a]);
                    assert(le[i] == entries[a]);
                    assert(le[j] == entries[entries.len() - 1]);
                }
            }
        }
    }
}

impl RegistryView {
    proof fn lemma_without_mcp_wf(self)
        requires
            self.wf(),
        ensures
            self.without_mcp().wf(),
    {
        lemma_local_entries_wf(self.entries);
        let kept = local_entries(self.entries);
        assert forall|i: int| 0 <= i < kept.len() implies {
            &&& #[trigger] kept[i].key == trim_view(kept[i].definition.name)
            &&& kept[i].key.len() > 0
            &&& kept[i].key != load_more_tools_name()
        } by {
            let j = choose|j: int| 0 <= j < self.entries.len() && #[trigger] kept[i] == self.entries[j] && !self.entries[j].is_mcp;
        }
    }
}

proof fn lemma_insert_outcome_wf(r: RegistryView, e: ToolEntryView)
    requires
        r.wf(),
        e.key == trim_view(e.definition.name),
        insert_outcome(r.entries, e) is Ok,
    ensures
        (RegistryView { entries: insert_outcome(r.entries, e)->Ok_0, ..r }).wf(),
{
    let next = r.entries.push(e);
    assert forall|i: int, j: int| 0 <= i < j < next.len() implies #[trigger] next[i].key
        != #[trigger] next[j].key by {
        if j == next.len() - 1 {
            assert(next[i] == r.entries[i]);
            if next[i].key == e.key {
                assert(has_key(r.entries, e.key));
            }
        }
    }
}

proof fn lemma_insert_mcp_tools_wf(r: RegistryView, tools: Seq<McpToolView>)
    requires
        r.wf(),
    ensures
        (RegistryView { entries: insert_mcp_tools(r.entries, tools).0, ..r }).wf(),
    decreases tools.len(),
{
    if tools.len() > 0 {
        let e = entry_for(mcp_definition(tools[0]), true);
        match insert_outcome(r.entries, e) {
            Ok(next) => {
                lemma_insert_outcome_wf(r, e);
                lemma_insert_mcp_tools_wf(RegistryView { entries: next, ..r }, tools.drop_first());
            },
            Err(_) => {},
        }
    }
}

/// Joining one more part appends the separator, then the part.
proof fn lemma_join_push(parts: Seq<Seq<char>>, sep: Seq<char>, p: Seq<char>)
    ensures
        join_view(parts.push(p), sep) == (if parts.len() == 0 {
            p
        } else {
            join_view(parts, sep) + sep + p
        }),
{
    assert(parts.push(p).drop_last() =~= parts);
}

impl<P> ToolRegistry<P> {
    /// A registry that shows `num_tool_per_load` tools per page.
    pub fn new(num_tool_per_load: usize) -> (r: Result<Self, AgentError>)
        ensures
            num_tool_per_load == 0 <==> (r is Err),
            (r matches Err(e) ==> e@ == AgentErrorView::InvalidConfig(
                "num_tool_per_load must be greater than zero"@,
            )),
            (r matches Ok(reg) ==> reg@.wf() && reg@ == (RegistryView {
                entries: Seq::empty(),
                page_start: 0,
                num_tool_per_load: num_tool_per_load as nat,
                mcp_snapshot_version: 0,
                initialized: false,
            })),
    {
        if num_tool_per_load == 0 {
            return Err(AgentError::InvalidConfig("num_tool_per_load must be greater than zero"));
        }
        let reg = ToolRegistry {
            entries: Vec::new(),
            page_start: 0,
            num_tool_per_load,
            mcp_snapshot_version: 0,
            initialized: false,
        };
        proof {
            assert(reg.entries.deep_view() =~= Seq::<ToolEntryView>::empty());
        }
        Ok(reg)
    }

    /// The position of the first tool with key `name`, if any.
    fn find_key(&self, name: &str) -> (r: Option<usize>)
        ensures
            (r is Some) <==> has_key(self@.entries, name@),
            (r matches Some(i) ==> i == key_position(self@.entries, name@) && i
                < self@.entries.len()),
    {
        let ghost entries = self@.entries;
        let mut i: usize = 0;
        while i < self.entries.len()
            invariant
                entries == self@.entries,
                entries.len() == self.entries@.len(),
                i <= self.entries@.len(),
                forall|j: int| 0 <= j < i ==> #[trigger] entries[j].key != name@,
            decreases self.entries@.len() - i,
        {
            assert(entries[i as int] == self.entries@[i as int].deep_view());
            if same_text(self.entries[i].key.as_str(), name) {
                proof {
                    assert(entries[i as int].key == name@);
                    let k = key_position(entries, name@);
                    assert(has_key(entries, name@));
                    if k != i {
                        if k < i {
                            assert(entries[k].key != name@);
                        } else {
                            assert(entries[i as int].key != name@);
                        }
                    }
                }
                return Some(i);
            }
            i = i + 1;
        }
        None
    }

    /// The definition that answers to `name`.
    fn definition(&self, name: &str) -> (r: Option<ToolDefinition>)
        ensures
            (r matches Some(d) ==> lookup(self@.entries, name@) == Some(d@)),
            (r is None ==> lookup(self@.entries, name@) is None),
    {
        if same_text(name, "load_more_tools") {
            return Some(builtin_definition());
        }
        match self.find_key(name) {
            Some(i) => {
                assert(self@.entries[i as int] == self.entries@[i as int].deep_view());
                Some(self.entries[i].definition.duplicate())
            },
            None => None,
        }
    }

    /// The MCP provider that serves the tool at `index`, when that tool is
    /// an MCP tool.
    pub closed spec fn provider_at(&self, index: int) -> Option<P> {
        match self.entries@[index].source {
            ToolSource::Mcp(p) => Some(p),
            ToolSource::Local(_) => None,
        }
    }

    /// Whether the registry holds no MCP tool.
    pub closed spec fn has_no_mcp_tools(&self) -> bool {
        forall|i: int| 0 <= i < self.entries@.len() ==> (#[trigger] self.entries@[i]).source is Local
    }

    /// The version of the MCP snapshot that the registry holds.
    pub fn mcp_snapshot_version(&self) -> (r: u64)
        ensures
            r == self@.mcp_snapshot_version,
    {
        self.mcp_snapshot_version
    }

    fn insert(&mut self, definition: ToolDefinition, source: ToolSource<P>) -> (r: Result<(), AgentError>)
        requires
            old(self)@.wf(),
        ensures
            final(self)@.wf(),
            ({
                let e = entry_for(definition@, source is Mcp);
                match insert_outcome(old(self)@.entries, e) {
                    Ok(entries) => r is Ok && final(self)@ == RegistryView { entries, ..old(self)@ },
                    Err(err) => r matches Err(x) && x@ == err && final(self)@ == old(self)@,
                }
            }),
            r is Ok ==> final(self).entries@.len() == old(self).entries@.len() + 1 && (forall|i: int|
                0 <= i < old(self).entries@.len() ==> final(self).entries@[i]
                == old(self).entries@[i]) && final(self).entries@.last().source == source,
            r is Err ==> final(self).entries@ == old(self).entries@,
    {
        let name = trim(definition.name.as_str()).to_owned();
        let ghost e = entry_for(definition@, source is Mcp);
        if name.as_str().unicode_len() == 0 {
            return Err(AgentError::EmptyToolName);
        }
        if same_text(name.as_str(), "load_more_tools") || self.find_key(name.as_str()).is_some() {
            return Err(AgentError::DuplicateTool(name));
        }
        let ghost before = self.entries@;
        let ghost before_deep = self.entries.deep_view();
        self.entries.push(RegisteredTool { key: name, definition, source });
        proof {
            assert(self.entries.deep_view() =~= before_deep.push(e)) by {
                assert forall|k: int| 0 <= k < before.len() implies self.entries.deep_view()[k]
                    == before_deep[k] by {
                    assert(self.entries@[k] == before[k]);
                }
            }
            lemma_insert_outcome_wf(old(self)@, e);
        }
        Ok(())
    }

    /// Registers an application tool under its trimmed name.
    pub fn register<T: Tool + 'static>(&mut self, tool: T) -> (r: Result<(), AgentError>)
        requires
            old(self)@.wf(),
        ensures
            final(self)@.wf(),
            exists|d: ToolDefinitionView|
                match #[trigger] insert_outcome(old(self)@.entries, entry_for(d, false)) {
                    Ok(entries) => r is Ok && final(self)@ == RegistryView {
                        entries,
                        ..old(self)@
                    },
                    Err(err) => r matches Err(x) && x@ == err && final(self)@ == old(self)@,
                },
    {
        let definition = tool.definition();
        let ghost d = definition@;
        let boxed: Box<dyn Tool> = Box::new(tool);
        let r = self.insert(definition, ToolSource::Local(Arc::new(boxed)));
        assert(insert_outcome(old(self)@.entries, entry_for(d, false)) is Ok
            || insert_outcome(old(self)@.entries, entry_for(d, false)) is Err);
        r
    }

    /// Removes the MCP tools, keeping the order of the others; the page is
    /// moved back inside the list if it fell off its end.
    pub fn clear_mcp_tools(&mut self) -> (r: Result<(), AgentError>)
        requires
            old(self)@.wf(),
        ensures
            (r is Ok),
            final(self)@ == old(self)@.without_mcp(),
            final(self)@.wf(),
            final(self).has_no_mcp_tools(),
    {
        let ghost original = self.entries@;
        let ghost original_deep = self.entries.deep_view();
        let mut rest: Vec<RegisteredTool<P>> = Vec::new();
        std::mem::swap(&mut rest, &mut self.entries);
        let mut kept: Vec<RegisteredTool<P>> = Vec::new();
        let mut taken: usize = 0;
        let total = rest.len();
        while taken < total
            invariant
                total == original.len(),
                taken <= total,
                rest@ == original.subrange(taken as int, total as int),
                kept.deep_view() == local_entries(original_deep.take(taken as int)),
                original_deep == Seq::new(original.len(), |i: int| original[i].deep_view()),
                forall|k: int| 0 <= k < kept@.len() ==> (#[trigger] kept@[k]).source is Local,
            decreases total - taken,
        {
            let item = rest.remove(0);
            let ghost before = kept@;
            let ghost before_deep = kept.deep_view();
            proof {
                assert(item == original[taken as int]);
                assert(original_deep.take(taken + 1) =~= original_deep.take(taken as int).push(
                    item.deep_view(),
                ));
                lemma_local_entries_push(original_deep.take(taken as int), item.deep_view());
            }
            match item.source {
                ToolSource::Mcp(_) => {},
                ToolSource::Local(_) => {
                    kept.push(item);
                    proof {
                        assert forall|k: int| 0 <= k < before.len() implies kept.deep_view()[k]
                            == before_deep[k] by {
                            assert(kept@[k] == before[k]);
                        }
                        assert(kept.deep_view() =~= before_deep.push(item.deep_view()));
                        assert forall|k: int| 0 <= k < kept@.len() implies (#[trigger] kept@[k]).source is Local by {
                            if k < before.len() {
                                assert(kept@[k] == before[k]);
                            }
                        }
                    }
                },
            }
            taken = taken + 1;
            proof {
                assert(rest@ =~= original.subrange(taken as int, total as int));
            }
        }
        proof {
            assert(original_deep.take(total as int) =~= original_deep);
            old(self)@.lemma_without_mcp_wf();
        }
        self.entries = kept;
        if self.page_start > self.entries.len() {
            self.page_start = self.entries.len();
        }
        Ok(())
    }

    /// Sets the page size; it must be positive.
    pub fn set_num_tool_per_load(&mut self, value: usize) -> (r: Result<(), AgentError>)
        requires
            old(self)@.wf(),
        ensures
            final(self)@.wf(),
            value == 0 <==> (r is Err),
            (r matches Err(e) ==> e@ == AgentErrorView::InvalidConfig(
                "num_tool_per_load must be greater than zero"@,
            ) && final(self)@ == old(self)@),
            (r is Ok ==> final(self)@ == (RegistryView {
                num_tool_per_load: value as nat,
                ..old(self)@
            })),
    {
        if value == 0 {
            return Err(AgentError::InvalidConfig("num_tool_per_load must be greater than zero"));
        }
        self.num_tool_per_load = value;
        Ok(())
    }

    /// The end of the page that starts at `start`.
    fn page_end_from(&self, start: usize) -> (r: usize)
        requires
            start <= self.entries@.len(),
        ensures
            r == min_nat((start + self.num_tool_per_load) as nat, self.entries@.len()),
    {
        let len = self.entries.len();
        if self.num_tool_per_load >= len - start {
            len
        } else {
            start + self.num_tool_per_load
        }
    }

    /// The tool list that the model sees.
    pub fn listed_tools(&self) -> (r: Vec<ToolDefinition>)
        ensures
            r.deep_view() == self@.listing(),
    {
        let ghost v = self@;
        let len = self.entries.len();
        let start = if self.page_start <= len {
            self.page_start
        } else {
            len
        };
        let end = self.page_end_from(start);
        let mut out: Vec<ToolDefinition> = Vec::new();
        let mut i: usize = start;
        let ghost page = v.entries.subrange(start as int, end as int).map_values(
            |e: ToolEntryView| e.definition,
        );
        while i < end
            invariant
                v == self@,
                start <= i <= end,
                end <= self.entries@.len(),
                v.entries.len() == self.entries@.len(),
                out@.len() == i - start,
                out.deep_view() == page.take(i - start),
                page == v.entries.subrange(start as int, end as int).map_values(
                    |e: ToolEntryView| e.definition,
                ),
            decreases end - i,
        {
            let ghost before = out@;
            let ghost before_deep = out.deep_view();
            let d = self.entries[i].definition.duplicate();
            out.push(d);
            proof {
                assert(v.entries[i as int] == self.entries@[i as int].deep_view());
                assert forall|k: int| 0 <= k < i + 1 - start implies #[trigger] out.deep_view()[k]
                    == page.take(i + 1 - start)[k] by {
                    if k < i - start {
                        assert(out@[k] == before[k]);
                        assert(before_deep[k] == before[k].deep_view());
                    }
                }
                assert(out.deep_view() =~= page.take(i + 1 - start));
            }
            i = i + 1;
        }
        proof {
            assert(page.take(end - start) =~= page);
        }
        if end < len {
            let ghost before = out@;
            let ghost before_deep = out.deep_view();
            out.push(builtin_definition());
            proof {
                assert forall|k: int| 0 <= k < before.len() implies #[trigger] out.deep_view()[k]
                    == before_deep[k] by {
                    assert(out@[k] == before[k]);
                }
                assert(out.deep_view() =~= page.push(load_more_tools_definition()));
            }
        }
        out
    }

    /// Moves to the next page and reports the tools moved past.
    fn load_more(&mut self) -> (r: ToolOutput)
        requires
            old(self)@.wf(),
        ensures
            final(self)@ == old(self)@.after_load_more(),
            final(self)@.wf(),
            r@ == (ToolOutputView {
                content: load_more_text(old(self)@.load_more_range()),
                is_error: false,
            }),
    {
        let ghost v = self@;
        let before = self.page_start;
        let page_end = self.page_end_from(before);
        let mut names = String::new();
        let mut i: usize = before;
        let ghost keys = keys_of(v.entries.subrange(before as int, page_end as int));
        while i < page_end
            invariant
                v == self@,
                before <= i <= page_end,
                page_end <= self.entries@.len(),
                v.entries.len() == self.entries@.len(),
                keys == keys_of(v.entries.subrange(before as int, page_end as int)),
                names@ == join_view(keys.take(i - before), ", "@),
            decreases page_end - i,
        {
            proof {
                assert(v.entries[i as int] == self.entries@[i as int].deep_view());
                assert(keys.take(i + 1 - before) =~= keys.take(i - before).push(keys[i - before]));
                lemma_join_push(keys.take(i - before), ", "@, keys[i - before]);
            }
            if i > before {
                names.append(", ");
            }
            names.append(self.entries[i].key.as_str());
            i = i + 1;
        }
        proof {
            assert(keys.take(page_end - before) =~= keys);
        }
        self.page_start = page_end;
        if names.as_str().unicode_len() == 0 {
            ToolOutput::success("No more tools are available")
        } else {
            let mut text = String::new();
            text.append("Loaded tools: ");
            text.append(names.as_str());
            ToolOutput::success(text.as_str())
        }
    }

    /// Runs the application tool at `index` on `call`. The tool is
    /// application code: nothing is known of what it returns.
    pub fn run_local_tool(&self, index: usize, call: &ToolCall) -> (r: Result<ToolOutput, AgentError>)
        requires
            index < self@.entries.len(),
            !self@.entries[index as int].is_mcp,
    {
        assert(self@.entries[index as int] == self.entries@[index as int].deep_view());
        match &self.entries[index].source {
            ToolSource::Local(tool) => tool.execute(call),
            ToolSource::Mcp(_) => Err(AgentError::UnknownTool(call.name.clone())),
        }
    }

    /// A handle to the application tool at `index`, for running it away
    /// from the registry (on another thread, under a timeout). The tool is
    /// application code: nothing is known of what it returns.
    pub fn local_tool(&self, index: usize) -> (r: Option<Arc<Box<dyn Tool>>>)
        requires
            index < self@.entries.len(),
            !self@.entries[index as int].is_mcp,
        ensures
            r is Some,
    {
        assert(self@.entries[index as int] == self.entries@[index as int].deep_view());
        match &self.entries[index].source {
            ToolSource::Local(tool) => Some(tool.clone()),
            ToolSource::Mcp(_) => None,
        }
    }

    /// Whether the definition answering to the call is retryable.
    pub fn call_is_retryable(&self, call: &ToolCall) -> (r: bool)
        ensures
            r == (lookup(self@.entries, call.name@) matches Some(d) && d.retryable),
    {
        match self.definition(call.name.as_str()) {
            Some(d) => d.retryable,
            None => false,
        }
    }
}

impl<P: Clone> ToolRegistry<P> {
    /// Whether every MCP tool of the registry is served by a clone of
    /// `provider`.
    pub closed spec fn mcp_served_by(&self, provider: P) -> bool {
        forall|i: int|
            0 <= i < self.entries@.len() && (#[trigger] self.entries@[i]).source is Mcp
                ==> vstd::pervasive::cloned(provider, self.entries@[i].source->Mcp_0)
    }

    /// Decides how to run `call`. The paging tool runs here; application
    /// and MCP tools are handed back to the caller.
    pub fn dispatch(&mut self, call: &ToolCall) -> (r: ToolDispatch<P>)
        requires
            old(self)@.wf(),
        ensures
            final(self)@.wf(),
            call.name@ == load_more_tools_name() ==> final(self)@ == old(self)@.after_load_more()
                && (r matches ToolDispatch::Finished(Ok(out)) && out@ == (ToolOutputView {
                content: load_more_text(old(self)@.load_more_range()),
                is_error: false,
            })),
            call.name@ != load_more_tools_name() ==> final(self)@ == old(self)@,
            call.name@ != load_more_tools_name() && !has_key(old(self)@.entries, call.name@) ==> (
            r matches ToolDispatch::Finished(Err(e)) && e@ == AgentErrorView::UnknownTool(
                call.name@,
            )),
            call.name@ != load_more_tools_name() && has_key(old(self)@.entries, call.name@) ==> (
            if old(self)@.entries[key_position(old(self)@.entries, call.name@)].is_mcp {
                r is Mcp
            } else {
                r == ToolDispatch::<P>::Local(key_position(old(self)@.entries, call.name@) as usize)
            }),
            (r matches ToolDispatch::Mcp(p) ==> old(self).provider_at(
                key_position(old(self)@.entries, call.name@),
            ) matches Some(q) && vstd::pervasive::cloned(q, p)),
            (r matches ToolDispatch::Local(i) ==> i < old(self)@.entries.len()
                && !old(self)@.entries[i as int].is_mcp && i == key_position(
                old(self)@.entries,
                call.name@,
            )),
    {
        if same_text(call.name.as_str(), "load_more_tools") {
            let out = self.load_more();
            return ToolDispatch::Finished(Ok(out));
        }
        match self.find_key(call.name.as_str()) {
            Some(i) => {
                proof {
                    lemma_key_position(self@.entries, call.name@);
                }
                assert(self@.entries[i as int] == self.entries@[i as int].deep_view());
                match &self.entries[i].source {
                    ToolSource::Local(_) => ToolDispatch::Local(i),
                    ToolSource::Mcp(provider) => ToolDispatch::Mcp(provider.clone()),
                }
            },
            None => ToolDispatch::Finished(Err(AgentError::UnknownTool(call.name.clone()))),
        }
    }

    /// Replaces all MCP tools with `tools`, served by `provider`. Names are
    /// checked first: an empty or reserved name, or the name of an
    /// application tool, refuses the whole list and changes nothing.
    pub fn replace_mcp_tools(&mut self, provider: P, tools: Vec<McpTool>) -> (r: Result<(), AgentError>)
        requires
            old(self)@.wf(),
        ensures
            final(self)@.wf(),
            ({
                let (next, err) = old(self)@.replace_mcp(tools.deep_view());
                &&& final(self)@ == next
                &&& match err {
                    Some(e) => r matches Err(x) && x@ == e,
                    None => r is Ok,
                }
            }),
            first_mcp_problem(old(self)@.entries, tools.deep_view()) is None
                ==> final(self).mcp_served_by(provider),
    {
        let ghost tv = tools.deep_view();
        // Check every name before changing anything.
        let mut i: usize = 0;
        assert(tv.skip(0) =~= tv);
        while i < tools.len()
            invariant
                i <= tools@.len(),
                tv == tools.deep_view(),
                self@ == old(self)@,
                old(self)@.wf(),
                first_mcp_problem(self@.entries, tv) == first_mcp_problem(
                    self@.entries,
                    tv.skip(i as int),
                ),
            decreases tools@.len() - i,
        {
            let name = trim(tools[i].name.as_str());
            proof {
                assert(tv.skip(i as int).drop_first() =~= tv.skip(i + 1));
                assert(tv.skip(i as int)[0] == tools@[i as int].deep_view());
                assert(first_mcp_problem(self@.entries, tv.skip(i as int)) == match mcp_name_problem(
                    self@.entries,
                    name@,
                ) {
                    Some(e) => Some(e),
                    None => first_mcp_problem(self@.entries, tv.skip(i + 1)),
                });
            }
            if name.unicode_len() == 0 || same_text(name, "load_more_tools") {
                return Err(AgentError::InvalidAction("invalid MCP tool name".to_owned()));
            }
            match self.find_key(name) {
                Some(k) => {
                    proof {
                        lemma_key_position(self@.entries, name@);
                    }
                    assert(self@.entries[k as int] == self.entries@[k as int].deep_view());
                    match &self.entries[k].source {
                        ToolSource::Local(_) => {
                            proof {
                                assert(has_local_key(self@.entries, name@));
                            }
                            return Err(AgentError::DuplicateTool(name.to_owned()));
                        },
                        ToolSource::Mcp(_) => {
                            proof {
                                assert(!has_local_key(self@.entries, name@)) by {
                                    if has_local_key(self@.entries, name@) {
                                        let j = choose|j: int|
                                            0 <= j < self@.entries.len()
                                                && #[trigger] self@.entries[j].key == name@
                                                && !self@.entries[j].is_mcp;
                                        assert(j != k);
                                    }
                                }
                            }
                        },
                    }
                },
                None => {},
            }
            i = i + 1;
        }
        proof {
            assert(tv.skip(tools@.len() as int) =~= Seq::<McpToolView>::empty());
        }
        let _ = self.clear_mcp_tools();
        let ghost cleared = self@;
        assert(self.mcp_served_by(provider));
        assert(first_mcp_problem(old(self)@.entries, tv) is None);
        let mut j: usize = 0;
        let mut rest = tools;
        let total: usize = rest.len();
        assert(tv.skip(0) =~= tv);
        while j < total
            invariant
                self@.wf(),
                j <= total,
                total == tv.len(),
                rest.deep_view() == tv.skip(j as int),
                rest@.len() == total - j,
                insert_mcp_tools(cleared.entries, tv) == insert_mcp_tools(
                    self@.entries,
                    tv.skip(j as int),
                ),
                self@ == (RegistryView { entries: self@.entries, ..cleared }),
                self.mcp_served_by(provider),
                first_mcp_problem(old(self)@.entries, tv) is None,
                cleared == old(self)@.without_mcp(),
                tv == tools.deep_view(),
            decreases total - j,
        {
            let tool = rest.remove(0);
            proof {
                assert(tv.skip(j as int)[0] == tool.deep_view());
                assert(tv.skip(j as int).drop_first() =~= tv.skip(j + 1));
            }
            let definition = ToolDefinition::new(
                tool.name.as_str(),
                tool.description.as_str(),
                tool.input_schema_json.as_str(),
            ).with_retryable(tool.retryable);
            let ghost before = self@.entries;
            proof {
                assert(definition@ == mcp_definition(tool.deep_view()));
                assert(insert_mcp_tools(before, tv.skip(j as int)) == match insert_outcome(
                    before,
                    entry_for(mcp_definition(tv.skip(j as int)[0]), true),
                ) {
                    Ok(next) => insert_mcp_tools(next, tv.skip(j as int).drop_first()),
                    Err(e) => (before, Some(e)),
                });
            }
            let served = provider.clone();
            assert(vstd::pervasive::cloned(provider, served));
            let ghost before_entries = self.entries@;
            let outcome = self.insert(definition, ToolSource::Mcp(served));
            proof {
                if outcome is Ok {
                    assert forall|i: int|
                        0 <= i < self.entries@.len() && (#[trigger] self.entries@[i]).source is Mcp
                        implies vstd::pervasive::cloned(provider, self.entries@[i].source->Mcp_0) by {
                        if i < before_entries.len() {
                            assert(self.entries@[i] == before_entries[i]);
                        }
                    }
                }
            }
            if outcome.is_err() {
                proof {
                    assert(first_mcp_problem(old(self)@.entries, tv) is None);
                    assert(cleared == old(self)@.without_mcp());
                    let e = insert_outcome(before, entry_for(mcp_definition(tv.skip(j as int)[0]), true))->Err_0;
                    assert(insert_mcp_tools(cleared.entries, tv) == (before, Some(e)));
                    assert(self@.entries == before);
                    assert(entry_for(definition@, true) == entry_for(mcp_definition(tv.skip(j as int)[0]), true));
                    assert(outcome matches Err(x) && x@ == e);
                    assert(self@ == (RegistryView { entries: insert_mcp_tools(cleared.entries, tv).0, ..cleared }));
                }
                return outcome;
            }
            j = j + 1;
            proof {
                assert(rest.deep_view() =~= tv.skip(j as int));
            }
        }
        proof {
            assert(tv.skip(total as int) =~= Seq::<McpToolView>::empty());
        }
        Ok(())
    }

    /// Installs the pushed MCP snapshot when its version differs from the
    /// one the registry holds; with no provider registered the MCP tools are
    /// removed instead.
    pub fn sync_if_changed(&mut self, version: u64, tools: Vec<McpTool>, provider: Option<P>) -> (r:
        Result<(), AgentError>)
        requires
            old(self)@.wf(),
        ensures
            final(self)@.wf(),
            ({
                let (next, err) = old(self)@.synced(version, tools.deep_view(), provider is Some);
                &&& final(self)@ == next
                &&& match err {
                    Some(e) => r matches Err(x) && x@ == e,
                    None => r is Ok,
                }
            }),
            version != old(self)@.mcp_snapshot_version ==> match provider {
                Some(p) => first_mcp_problem(old(self)@.entries, tools.deep_view()) is None
                    ==> final(self).mcp_served_by(p),
                None => final(self).has_no_mcp_tools(),
            },
    {
        if version == self.mcp_snapshot_version {
            return Ok(());
        }
        match provider {
            None => {
                let _ = self.clear_mcp_tools();
                self.mcp_snapshot_version = version;
                Ok(())
            },
            Some(p) => {
                let outcome = self.replace_mcp_tools(p, tools);
                match outcome {
                    Ok(()) => {
                        self.mcp_snapshot_version = version;
                        Ok(())
                    },
                    Err(e) => Err(e),
                }
            },
        }
    }

    /// Completes a refresh: on success the registry records the snapshot
    /// version it now reflects.
    pub fn finish_refresh(&mut self, registered: Result<usize, AgentError>, version: u64) -> (r: Result<
        (),
        AgentError,
    >)
        requires
            old(self)@.wf(),
        ensures
            final(self)@.wf(),
            match registered {
                Ok(_) => r is Ok && final(self)@ == RegistryView {
                    mcp_snapshot_version: version,
                    ..old(self)@
                },
                Err(e) => r == Err::<(), AgentError>(e) && final(self)@ == old(self)@,
            },
    {
        match registered {
            Ok(_) => {
                self.mcp_snapshot_version = version;
                Ok(())
            },
            Err(e) => Err(e),
        }
    }

    /// Completes the session's first tool load: a registry becomes
    /// initialized once its refresh succeeded.
    pub fn finish_initialization(&mut self, refreshed: Result<(), AgentError>) -> (r: Result<
        (),
        AgentError,
    >)
        requires
            old(self)@.wf(),
        ensures
            final(self)@.wf(),
            match refreshed {
                Ok(_) => r is Ok && final(self)@ == RegistryView {
                    initialized: true,
                    ..old(self)@
                },
                Err(e) => r == Err::<(), AgentError>(e) && final(self)@ == old(self)@,
            },
    {
        match refreshed {
            Ok(()) => {
                self.initialized = true;
                Ok(())
            },
            Err(e) => Err(e),
        }
    }
}

impl ToolRegistry<NoMcpProvider> {
    /// Runs `call`: the paging tool, or the application tool registered
    /// under the call's name.
    pub fn execute(&mut self, call: &ToolCall) -> (r: Result<ToolOutput, AgentError>)
        requires
            old(self)@.wf(),
        ensures
            final(self)@.wf(),
            call.name@ == load_more_tools_name() ==> final(self)@ == old(self)@.after_load_more()
                && (r matches Ok(out) && out@ == (ToolOutputView {
                content: load_more_text(old(self)@.load_more_range()),
                is_error: false,
            })),
            call.name@ != load_more_tools_name() ==> final(self)@ == old(self)@,
            call.name@ != load_more_tools_name() && !has_key(old(self)@.entries, call.name@) ==> (
            r matches Err(e) && e@ == AgentErrorView::UnknownTool(call.name@)),
            call.name@ != load_more_tools_name() && has_key(old(self)@.entries, call.name@)
                && !old(self)@.entries[key_position(old(self)@.entries, call.name@)].is_mcp ==> (
            r matches Err(e) ==> finished_tool_error(e@, call.name@)),
    {
        match self.dispatch(call) {
            ToolDispatch::Finished(r) => r,
            ToolDispatch::Local(i) => finish_tool_result(
                call.name.as_str(),
                self.run_local_tool(i, call),
            ),
            ToolDispatch::Mcp(_) => Err(AgentError::UnknownTool(call.name.clone())),
        }
    }
}

/// The errors a dispatched tool call can end with: the tool's own execution
/// error, or a failure attributed to the tool by name.
pub open spec fn finished_tool_error(e: AgentErrorView, name: Seq<char>) -> bool {
    ||| e is ToolExecution
    ||| e matches AgentErrorView::Tool { name: n, .. } && n == name
}

/// Attributes a failed tool run to the tool `name`, unless the failure
/// already says which tool execution failed.
pub fn finish_tool_result(name: &str, result: Result<ToolOutput, AgentError>) -> (r: Result<
    ToolOutput,
    AgentError,
>)
    ensures
        match result {
            Ok(o) => r == Ok::<ToolOutput, AgentError>(o),
            Err(e) => r matches Err(x) && (if e@ is ToolExecution {
                x@ == e@
            } else {
                x@ == AgentErrorView::Tool { name: name@, message: e@.text() }
            }),
        },
        r matches Err(x) ==> finished_tool_error(x@, name@),
{
    match result {
        Ok(o) => Ok(o),
        Err(e) => match e {
            AgentError::ToolExecution { .. } => Err(e),
            _ => {
                let message = e.to_string();
                Err(AgentError::Tool { name: name.to_owned(), message })
            },
        },
    }
}

/// Turns an MCP provider's answer to a call of tool `name` into a tool
/// result.
pub fn mcp_call_result(name: &str, answer: Result<String, ToolExecutionError>) -> (r: Result<
    ToolOutput,
    AgentError,
>)
    ensures
        match answer {
            Ok(text) => r matches Ok(o) && o@ == (ToolOutputView { content: text@, is_error: false }),
            Err(e) => r matches Err(x) && x@ == (AgentErrorView::ToolExecution {
                name: name@,
                error: e,
                message: crate::mcp::error_name_view(e),
            }),
        },
{
    match answer {
        Ok(text) => Ok(ToolOutput::success(text.as_str())),
        Err(error) => Err(
            AgentError::ToolExecution { name: name.to_owned(), message: error.to_string(), error },
        ),
    }
}

impl<P> Default for ToolRegistry<P> {
    /// A registry that shows eight tools per page.
    fn default() -> (r: Self)
        ensures
            r@.wf(),
            r@ == (RegistryView {
                entries: Seq::empty(),
                page_start: 0,
                num_tool_per_load: 8,
                mcp_snapshot_version: 0,
                initialized: false,
            }),
    {
        let reg = ToolRegistry {
            entries: Vec::new(),
            page_start: 0,
            num_tool_per_load: 8,
            mcp_snapshot_version: 0,
            initialized: false,
        };
        proof {
            assert(reg.entries.deep_view() =~= Seq::<ToolEntryView>::empty());
        }
        reg
    }
}

impl<P> ToolExecutor for ToolRegistry<P> {
    open spec fn tool_listing(&self) -> Result<Seq<ToolDefinitionView>, AgentErrorView> {
        Ok(self@.listing())
    }

    fn is_initialized(&self) -> (r: bool)
        ensures
            r == self@.initialized,
    {
        self.initialized
    }

    fn list_tools(&self) -> (r: Result<Vec<ToolDefinition>, AgentError>)
        ensures
            r matches Ok(tools) && tools.deep_view() == self@.listing(),
    {
        Ok(self.listed_tools())
    }

    fn is_retryable(&self, call: &ToolCall) -> (r: bool)
        ensures
            r == (lookup(self@.entries, call.name@) matches Some(d) && d.retryable),
    {
        self.call_is_retryable(call)
    }
}


/// The MCP tools, in order.
pub open spec fn mcp_entries(entries: Seq<ToolEntryView>) -> Seq<ToolEntryView>
    decreases entries.len(),
{
    if entries.len() == 0 {
        entries
    } else if entries.last().is_mcp {
        mcp_entries(entries.drop_last()).push(entries.last())
    } else {
        mcp_entries(entries.drop_last())
    }
}

/// The entries that the tools of an MCP snapshot are registered as.
pub open spec fn snapshot_entries(tools: Seq<McpToolView>) -> Seq<ToolEntryView> {
    tools.map_values(|t: McpToolView| entry_for(mcp_definition(t), true))
}

/// The registry after `k` calls of `load_more_tools`.
pub open spec fn after_load_more_times(r: RegistryView, k: nat) -> RegistryView
    decreases k,
{
    if k == 0 {
        r
    } else {
        after_load_more_times(r, (k - 1) as nat).after_load_more()
    }
}

proof fn lemma_local_entries_idempotent(entries: Seq<ToolEntryView>)
    ensures
        local_entries(local_entries(entries)) == local_entries(entries),
    decreases entries.len(),
{
    if entries.len() > 0 {
        let prev = entries.drop_last();
        lemma_local_entries_idempotent(prev);
        if !entries.last().is_mcp {
            lemma_local_entries_push(local_entries(prev), entries.last());
        }
    }
}

proof fn lemma_mcp_entries_push(entries: Seq<ToolEntryView>, e: ToolEntryView)
    ensures
        mcp_entries(entries.push(e)) == (if e.is_mcp {
            mcp_entries(entries).push(e)
        } else {
            mcp_entries(entries)
        }),
{
    assert(entries.push(e).drop_last() =~= entries);
}

proof fn lemma_no_mcp_in_local(entries: Seq<ToolEntryView>)
    ensures
        mcp_entries(local_entries(entries)) == Seq::<ToolEntryView>::empty(),
    decreases entries.len(),
{
    if entries.len() > 0 {
        let prev = entries.drop_last();
        lemma_no_mcp_in_local(prev);
        if !entries.last().is_mcp {
            lemma_mcp_entries_push(local_entries(prev), entries.last());
        }
    }
}

proof fn lemma_insert_mcp_tools_parts(entries: Seq<ToolEntryView>, tools: Seq<McpToolView>)
    ensures
        local_entries(insert_mcp_tools(entries, tools).0) == local_entries(entries),
        insert_mcp_tools(entries, tools).1 is None ==> mcp_entries(
            insert_mcp_tools(entries, tools).0,
        ) == mcp_entries(entries) + snapshot_entries(tools),
    decreases tools.len(),
{
    if tools.len() == 0 {
        assert(mcp_entries(entries) + snapshot_entries(tools) =~= mcp_entries(entries));
    } else {
        let e = entry_for(mcp_definition(tools[0]), true);
        match insert_outcome(entries, e) {
            Ok(next) => {
                lemma_local_entries_push(entries, e);
                lemma_mcp_entries_push(entries, e);
                lemma_insert_mcp_tools_parts(next, tools.drop_first());
                assert(mcp_entries(entries).push(e) + snapshot_entries(tools.drop_first())
                    =~= mcp_entries(entries) + snapshot_entries(tools));
            },
            Err(_) => {},
        }
    }
}

/// Calling `load_more_tools` moves the visible page to the tools right after
/// it: the new page begins where the old one ended, and the registry stays
/// valid.
pub proof fn law_load_more_shows_next_page(r: RegistryView)
    requires
        r.wf(),
    ensures
        r.after_load_more().wf(),
        r.after_load_more().page_begin() == r.page_end(),
        r.after_load_more().entries == r.entries,
        r.page_end() < r.entries.len() ==> r.after_load_more().page_begin() > r.page_begin(),
{
}

/// Starting from the first page, `k` calls of `load_more_tools` move past
/// exactly the first `k` pages: every tool is shown once, in registration
/// order, before the list runs out.
pub proof fn law_pages_cover_all_tools(r: RegistryView, k: nat)
    requires
        r.wf(),
        r.page_start == 0,
    ensures
        after_load_more_times(r, k).wf(),
        after_load_more_times(r, k).entries == r.entries,
        after_load_more_times(r, k).num_tool_per_load == r.num_tool_per_load,
        after_load_more_times(r, k).page_start == min_nat(
            k * r.num_tool_per_load,
            r.entries.len(),
        ),
    decreases k,
{
    let n = r.num_tool_per_load;
    if k == 0 {
        assert(k * n == 0) by (nonlinear_arith)
            requires
                k == 0,
        ;
    } else {
        law_pages_cover_all_tools(r, (k - 1) as nat);
        let prev = after_load_more_times(r, (k - 1) as nat);
        assert((k - 1) * n + n == k * n) by (nonlinear_arith);
        assert(after_load_more_times(r, k) == prev.after_load_more());
        assert(prev.page_start == min_nat(((k - 1) * n) as nat, r.entries.len()));
    }
}

/// Replacing the MCP tools never touches the application tools: they stay
/// the same tools in the same order, whether the replacement succeeds or
/// stops at a refused tool.
pub proof fn law_replace_mcp_keeps_local_tools(r: RegistryView, tools: Seq<McpToolView>)
    ensures
        local_entries(r.replace_mcp(tools).0.entries) == local_entries(r.entries),
{
    if first_mcp_problem(r.entries, tools) is None {
        let cleared = local_entries(r.entries);
        lemma_insert_mcp_tools_parts(cleared, tools);
        lemma_local_entries_idempotent(r.entries);
    }
}

/// A snapshot that is accepted replaces all MCP tools: afterwards the MCP
/// tools are exactly the snapshot's tools, in snapshot order.
pub proof fn law_replace_mcp_installs_snapshot(r: RegistryView, tools: Seq<McpToolView>)
    requires
        r.replace_mcp(tools).1 is None,
    ensures
        mcp_entries(r.replace_mcp(tools).0.entries) == snapshot_entries(tools),
{
    let cleared = local_entries(r.entries);
    lemma_insert_mcp_tools_parts(cleared, tools);
    lemma_no_mcp_in_local(r.entries);
    assert(Seq::<ToolEntryView>::empty() + snapshot_entries(tools) =~= snapshot_entries(tools));
}

/// After an accepted snapshot, the `i`-th MCP tool is the snapshot's `i`-th
/// tool: it is found by the tool's trimmed name and listed with exactly the
/// tool's name, description, input schema and retryable flag.
pub proof fn law_replace_mcp_lists_each_tool_as_given(r: RegistryView, tools: Seq<McpToolView>)
    requires
        r.replace_mcp(tools).1 is None,
    ensures
        mcp_entries(r.replace_mcp(tools).0.entries).len() == tools.len(),
        forall|i: int|
            0 <= i < tools.len() ==> {
                let e = #[trigger] mcp_entries(r.replace_mcp(tools).0.entries)[i];
                &&& e.is_mcp
                &&& e.key == trim_view(tools[i].name)
                &&& e.definition.name == tools[i].name
                &&& e.definition.description == tools[i].description
                &&& e.definition.parameters_schema == tools[i].input_schema_json
                &&& e.definition.retryable == tools[i].retryable
            },
{
    law_replace_mcp_installs_snapshot(r, tools);
}

/// Clearing the MCP tools twice is clearing them once.
pub proof fn law_clear_mcp_idempotent(r: RegistryView)
    ensures
        r.without_mcp().without_mcp() == r.without_mcp(),
{
    lemma_local_entries_idempotent(r.entries);
}

/// Whatever MCP snapshot was installed, clearing the MCP tools afterwards
/// gives the registry that clearing them before would have given.
pub proof fn law_clear_after_replace(r: RegistryView, tools: Seq<McpToolView>)
    ensures
        r.replace_mcp(tools).0.without_mcp() == r.without_mcp(),
{
    law_replace_mcp_keeps_local_tools(r, tools);
    lemma_local_entries_idempotent(r.entries);
}

proof fn lemma_has_local_key_local(entries: Seq<ToolEntryView>, name: Seq<char>)
    ensures
        has_local_key(entries, name) == has_local_key(local_entries(entries), name),
    decreases entries.len(),
{
    if entries.len() > 0 {
        let prev = entries.drop_last();
        let last = entries.last();
        lemma_has_local_key_local(prev, name);
        lemma_local_entries_push(prev, last);
        assert(entries == prev.push(last));
        let lp = local_entries(prev);
        if has_local_key(entries, name) {
            let i = choose|i: int|
                0 <= i < entries.len() && #[trigger] entries[i].key == name && !entries[i].is_mcp;
            if i < prev.len() {
                assert(prev[i] == entries[i]);
                assert(has_local_key(prev, name));
                let k = choose|k: int| 0 <= k < lp.len() && #[trigger] lp[k].key == name && !lp[k].is_mcp;
                if !last.is_mcp {
                    assert(lp.push(last)[k] == lp[k]);
                }
            } else {
                assert(local_entries(entries) == lp.push(last));
                assert(lp.push(last)[lp.len() as int] == last);
            }
        }
        if has_local_key(local_entries(entries), name) {
            let le = local_entries(entries);
            let k = choose|k: int| 0 <= k < le.len() && #[trigger] le[k].key == name && !le[k].is_mcp;
            if last.is_mcp || k < lp.len() {
                assert(le[k] == lp[k]);
                assert(has_local_key(lp, name));
                let i = choose|i: int|
                    0 <= i < prev.len() && #[trigger] prev[i].key == name && !prev[i].is_mcp;
                assert(entries[i] == prev[i]);
            } else {
                assert(le[k] == last);
                assert(entries[entries.len() - 1] == last);
            }
        }
    }
}

proof fn lemma_first_mcp_problem_local(e1: Seq<ToolEntryView>, e2: Seq<ToolEntryView>, tools: Seq<McpToolView>)
    requires
        local_entries(e1) == local_entries(e2),
    ensures
        first_mcp_problem(e1, tools) == first_mcp_problem(e2, tools),
    decreases tools.len(),
{
    if tools.len() > 0 {
        let name = trim_view(tools[0].name);
        lemma_has_local_key_local(e1, name);
        lemma_has_local_key_local(e2, name);
        lemma_first_mcp_problem_local(e1, e2, tools.drop_first());
    }
}

/// A pushed snapshot is applied once: syncing again with the same snapshot
/// gives the same registry and the same answer as the first sync, whether
/// that sync succeeded or failed.
pub proof fn law_sync_is_idempotent(
    r: RegistryView,
    version: u64,
    tools: Seq<McpToolView>,
    provider_present: bool,
)
    ensures
        r.synced(version, tools, provider_present).0.synced(version, tools, provider_present)
            == r.synced(version, tools, provider_present),
{
    let (s1, err) = r.synced(version, tools, provider_present);
    if version != r.mcp_snapshot_version && provider_present && err is Some {
        if first_mcp_problem(r.entries, tools) is None {
            law_replace_mcp_keeps_local_tools(r, tools);
            lemma_first_mcp_problem_local(s1.entries, r.entries, tools);
            law_clear_after_replace(r, tools);
        }
    }
}

/// Replacing the MCP tools with a snapshot twice is replacing them once,
/// whether the replacement succeeds or is refused.
pub proof fn law_replace_mcp_is_idempotent(r: RegistryView, tools: Seq<McpToolView>)
    ensures
        r.replace_mcp(tools).0.replace_mcp(tools) == r.replace_mcp(tools),
{
    if first_mcp_problem(r.entries, tools) is None {
        let s1 = r.replace_mcp(tools).0;
        law_replace_mcp_keeps_local_tools(r, tools);
        lemma_first_mcp_problem_local(s1.entries, r.entries, tools);
        law_clear_after_replace(r, tools);
    }
}

} // verus!
