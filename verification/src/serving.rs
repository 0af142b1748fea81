//! Model serving: the embedding application runs the model request and
//! streams Chat Completions chunks back; the harness accumulates them into a
//! model response.
use vstd::prelude::*;

use crate::error::{AgentError, AgentErrorView};
use crate::json::{JsonValue, at_index, at_key, deref_opt, get, item, items, items_of, json_parse, parse_json_value, text, text_of, unsigned, unsigned_of};
use crate::types::{ModelResponse, ModelResponseView, ToolCall, ToolCallView};

verus! {

#[derive(Debug, Clone, Copy, PartialEq, Eq, Structural)]
pub enum ModelServeError {
    RequestFailed,
    Cancelled,
    Unknown,
}

pub open spec fn serve_error_name_view(e: ModelServeError) -> Seq<char> {
    match e {
        ModelServeError::RequestFailed => "RequestFailed"@,
        ModelServeError::Cancelled => "Cancelled"@,
        ModelServeError::Unknown => "Unknown"@,
    }
}

impl ModelServeError {
    /// The error's message, as its `Display` renders it.
    pub fn to_string(&self) -> (r: String)
        ensures
            r@ == serve_error_name_view(*self),
    {
        match self {
            ModelServeError::RequestFailed => "RequestFailed".to_owned(),
            ModelServeError::Cancelled => "Cancelled".to_owned(),
            ModelServeError::Unknown => "Unknown".to_owned(),
        }
    }
}

/// Receives provider-neutral Chat Completions stream chunks.
pub trait ModelStreamCallback {
    fn on_chunk(&self, chunk_json: String);
}

/// Receives user-visible events of a model request.
pub trait AgentEventSink {
    fn on_reasoning_delta(&self, text: String);

    fn on_text_delta(&self, text: String);

    fn on_completed(&self, final_text: String);

    fn on_error(&self, error_json: String);
}

/// One tool-call fragment of a stream chunk: the fields that are strings
/// (or, for `index`, an unsigned number) in the chunk's JSON.
#[derive(Debug, Clone, PartialEq, Eq, Default)]
pub struct ChunkToolCall {
    pub index: Option<usize>,
    pub id: Option<String>,
    pub name: Option<String>,
    pub arguments: Option<String>,
}

/// The message or delta object of a chunk choice: each field is present when
/// the JSON holds a value of the expected kind under that key.
#[derive(Debug, Clone, PartialEq, Eq, Default)]
pub struct ChunkMessage {
    pub content: Option<String>,
    pub reasoning_content: Option<String>,
    pub reasoning: Option<String>,
    pub tool_calls: Option<Vec<ChunkToolCall>>,
}

/// A choice of a chunk: `delta` is present when the choice has a `delta`
/// key, whatever its value; `message` is read from the `message` key.
#[derive(Debug, Clone, PartialEq, Eq, Default)]
pub struct ChunkChoice {
    pub delta: Option<ChunkMessage>,
    pub message: ChunkMessage,
}

/// A parsed stream chunk: its `choices` array.
#[derive(Debug, Clone, PartialEq, Eq, Default)]
pub struct StreamChunk {
    pub choices: Vec<ChunkChoice>,
}

pub struct ChunkToolCallView {
    pub index: Option<nat>,
    pub id: Option<Seq<char>>,
    pub name: Option<Seq<char>>,
    pub arguments: Option<Seq<char>>,
}

pub open spec fn opt_text(s: Option<String>) -> Option<Seq<char>> {
    match s {
        Some(t) => Some(t@),
        None => None,
    }
}

impl DeepView for ChunkToolCall {
    type V = ChunkToolCallView;

    open spec fn deep_view(&self) -> ChunkToolCallView {
        ChunkToolCallView {
            index: match self.index {
                Some(i) => Some(i as nat),
                None => None,
            },
            id: opt_text(self.id),
            name: opt_text(self.name),
            arguments: opt_text(self.arguments),
        }
    }
}

pub struct ChunkMessageView {
    pub content: Option<Seq<char>>,
    pub reasoning_content: Option<Seq<char>>,
    pub reasoning: Option<Seq<char>>,
    pub tool_calls: Option<Seq<ChunkToolCallView>>,
}

impl DeepView for ChunkMessage {
    type V = ChunkMessageView;

    open spec fn deep_view(&self) -> ChunkMessageView {
        ChunkMessageView {
            content: opt_text(self.content),
            reasoning_content: opt_text(self.reasoning_content),
            reasoning: opt_text(self.reasoning),
            tool_calls: match self.tool_calls {
                Some(fs) => Some(fs.deep_view()),
                None => None,
            },
        }
    }
}

/// The tool-call fragment that the JSON object `f` of a `tool_calls` array
/// holds: its `index` when that is an unsigned integer, and the strings
/// `id`, `function.name` and `function.arguments`.
pub open spec fn json_fragment(f: JsonValue) -> ChunkToolCallView {
    ChunkToolCallView {
        index: match unsigned_of(at_key(Some(f), "index"@)) {
            Some(n) => Some((n as usize) as nat),
            None => None,
        },
        id: text_of(at_key(Some(f), "id"@)),
        name: text_of(at_key(at_key(Some(f), "function"@), "name"@)),
        arguments: text_of(at_key(at_key(Some(f), "function"@), "arguments"@)),
    }
}

/// The message object that a chunk's JSON `m` holds, read field by field;
/// a field that is missing or of another kind reads as absent.
pub open spec fn json_message_fields(m: Option<JsonValue>) -> ChunkMessageView {
    ChunkMessageView {
        content: text_of(at_key(m, "content"@)),
        reasoning_content: text_of(at_key(m, "reasoning_content"@)),
        reasoning: text_of(at_key(m, "reasoning"@)),
        tool_calls: match items_of(at_key(m, "tool_calls"@)) {
            Some(fs) => Some(fs.map_values(|f: JsonValue| json_fragment(f))),
            None => None,
        },
    }
}

/// The message that the chunk JSON `v` contributes: in the first element
/// of `choices`, the `delta` member when there is one (whatever its value),
/// otherwise the `message` member.
pub open spec fn json_chunk_message(v: JsonValue) -> ChunkMessageView {
    let choice = at_index(at_key(Some(v), "choices"@), 0);
    match at_key(choice, "delta"@) {
        Some(d) => json_message_fields(Some(d)),
        None => json_message_fields(at_key(choice, "message"@)),
    }
}

/// The text of an optional field, empty when absent.
pub open spec fn text_or_empty(s: Option<Seq<char>>) -> Seq<char> {
    match s {
        Some(t) => t,
        None => Seq::empty(),
    }
}

/// The message that a chunk contributes: the first choice's delta when the
/// choice has one, otherwise its message; an absent choice contributes
/// nothing.
pub open spec fn chunk_message(chunk: StreamChunk) -> ChunkMessage {
    if chunk.choices@.len() == 0 {
        ChunkMessage { content: None, reasoning_content: None, reasoning: None, tool_calls: None }
    } else {
        match chunk.choices@[0].delta {
            Some(d) => d,
            None => chunk.choices@[0].message,
        }
    }
}

/// The content text that a message adds.
pub open spec fn content_delta(m: ChunkMessage) -> Seq<char> {
    text_or_empty(opt_text(m.content))
}

/// The reasoning text that a message adds: `reasoning_content`, or else
/// `reasoning`.
pub open spec fn reasoning_delta(m: ChunkMessage) -> Seq<char> {
    match m.reasoning_content {
        Some(t) => t@,
        None => text_or_empty(opt_text(m.reasoning)),
    }
}

pub open spec fn empty_call() -> ToolCallView {
    ToolCallView { id: Seq::empty(), name: Seq::empty(), arguments: Seq::empty() }
}

/// The partial tool calls after one fragment: the fragment names its slot
/// (the next new slot when it names none), missing slots up to it are
/// created empty, and its texts are appended to the slot's.
pub open spec fn apply_tool_fragment(calls: Seq<ToolCallView>, f: ChunkToolCallView) -> Seq<
    ToolCallView,
> {
    let index: int = match f.index {
        Some(i) => i as int,
        None => calls.len() as int,
    };
    let padded = if index < calls.len() {
        calls
    } else {
        calls + Seq::new((index + 1 - calls.len()) as nat, |_i: int| empty_call())
    };
    padded.update(
        index,
        ToolCallView {
            id: padded[index].id + text_or_empty(f.id),
            name: padded[index].name + text_or_empty(f.name),
            arguments: padded[index].arguments + text_or_empty(f.arguments),
        },
    )
}

/// The partial tool calls after the fragments `fs`, applied in order.
pub open spec fn apply_tool_fragments(calls: Seq<ToolCallView>, fs: Seq<ChunkToolCallView>) -> Seq<
    ToolCallView,
>
    decreases fs.len(),
{
    if fs.len() == 0 {
        calls
    } else {
        apply_tool_fragments(apply_tool_fragment(calls, fs[0]), fs.drop_first())
    }
}

/// The text a chunk added, for the user-visible event sink.
pub struct ChunkDeltas {
    pub reasoning: String,
    pub content: String,
}

/// What the user-visible event sink is told of a chunk.
#[derive(Debug, PartialEq, Eq)]
pub enum SinkDelta {
    Reasoning(String),
    Text(String),
}

impl ChunkDeltas {
    /// The sink notices for these deltas, in order: the reasoning, then the
    /// content, each only when it is not empty.
    pub fn sink_deltas(self) -> (r: Vec<SinkDelta>)
        ensures
            r@ == (if self.reasoning@.len() > 0 {
                seq![SinkDelta::Reasoning(self.reasoning)]
            } else {
                Seq::empty()
            }) + (if self.content@.len() > 0 {
                seq![SinkDelta::Text(self.content)]
            } else {
                Seq::empty()
            }),
    {
        let ghost old_self = self;
        let ChunkDeltas { reasoning, content } = self;
        let mut out: Vec<SinkDelta> = Vec::new();
        if reasoning.as_str().unicode_len() > 0 {
            out.push(SinkDelta::Reasoning(reasoning));
        }
        if content.as_str().unicode_len() > 0 {
            out.push(SinkDelta::Text(content));
        }
        proof {
            let a: Seq<SinkDelta> = if old_self.reasoning@.len() > 0 {
                seq![SinkDelta::Reasoning(old_self.reasoning)]
            } else {
                Seq::empty()
            };
            let b: Seq<SinkDelta> = if old_self.content@.len() > 0 {
                seq![SinkDelta::Text(old_self.content)]
            } else {
                Seq::empty()
            };
            assert(out@ =~= a + b);
        }
        out
    }
}

/// The model response accumulated from the stream so far.
pub struct StreamState {
    reasoning: String,
    content: String,
    tool_calls: Vec<ToolCall>,
    error: Option<String>,
    received: bool,
}

pub struct StreamStateView {
    pub reasoning: Seq<char>,
    pub content: Seq<char>,
    pub tool_calls: Seq<ToolCallView>,
    pub error: Option<Seq<char>>,
    pub received: bool,
}

impl View for StreamState {
    type V = StreamStateView;

    closed spec fn view(&self) -> StreamStateView {
        StreamStateView {
            reasoning: self.reasoning@,
            content: self.content@,
            tool_calls: self.tool_calls.deep_view(),
            error: opt_text(self.error),
            received: self.received,
        }
    }
}

impl StreamStateView {
    /// The stream after `chunk`; `None` stands for a chunk that is not JSON.
    pub open spec fn after(self, chunk: Option<StreamChunk>) -> StreamStateView {
        match chunk {
            None => StreamStateView { error: Some("invalid model stream chunk JSON"@), ..self },
            Some(c) => {
                let m = chunk_message(c);
                StreamStateView {
                    received: true,
                    content: self.content + content_delta(m),
                    reasoning: self.reasoning + reasoning_delta(m),
                    tool_calls: match m.tool_calls {
                        Some(fs) => apply_tool_fragments(self.tool_calls, fs.deep_view()),
                        None => self.tool_calls,
                    },
                    ..self
                }
            },
        }
    }

    /// The stream after a chunk that parsed and contributes the message `m`.
    pub open spec fn after_message(self, m: ChunkMessageView) -> StreamStateView {
        StreamStateView {
            received: true,
            content: self.content + text_or_empty(m.content),
            reasoning: self.reasoning + match m.reasoning_content {
                Some(t) => t,
                None => text_or_empty(m.reasoning),
            },
            tool_calls: match m.tool_calls {
                Some(fs) => apply_tool_fragments(self.tool_calls, fs),
                None => self.tool_calls,
            },
            ..self
        }
    }

    /// The stream after a chunk whose text parsed as `parsed`; `None` stands
    /// for text that is not JSON.
    pub open spec fn after_json(self, parsed: Option<JsonValue>) -> StreamStateView {
        match parsed {
            None => StreamStateView { error: Some("invalid model stream chunk JSON"@), ..self },
            Some(v) => self.after_message(json_chunk_message(v)),
        }
    }

    /// The response the stream stands for, or why it stands for none.
    pub open spec fn response(self) -> Result<ModelResponseView, AgentErrorView> {
        match self.error {
            Some(e) => Err(AgentErrorView::Model(e)),
            None => if !self.received {
                Err(AgentErrorView::Model("model returned no stream chunks"@))
            } else {
                Ok(
                    ModelResponseView {
                        reasoning: self.reasoning,
                        content: self.content,
                        tool_calls: self.tool_calls,
                    },
                )
            },
        }
    }
}

/// The stream before any chunk.
pub open spec fn fresh_stream() -> StreamStateView {
    StreamStateView {
        reasoning: Seq::empty(),
        content: Seq::empty(),
        tool_calls: Seq::empty(),
        error: None,
        received: false,
    }
}

/// The stream after the chunks `chunks`, taken in order.
pub open spec fn after_chunks(s: StreamStateView, chunks: Seq<Option<StreamChunk>>) -> StreamStateView
    decreases chunks.len(),
{
    if chunks.len() == 0 {
        s
    } else {
        after_chunks(s.after(chunks[0]), chunks.drop_first())
    }
}

/// The content texts of `chunks`, concatenated in order.
pub open spec fn all_content(chunks: Seq<Option<StreamChunk>>) -> Seq<char>
    decreases chunks.len(),
{
    if chunks.len() == 0 {
        Seq::empty()
    } else {
        (match chunks[0] {
            Some(c) => content_delta(chunk_message(c)),
            None => Seq::empty(),
        }) + all_content(chunks.drop_first())
    }
}

/// The reasoning texts of `chunks`, concatenated in order.
pub open spec fn all_reasoning(chunks: Seq<Option<StreamChunk>>) -> Seq<char>
    decreases chunks.len(),
{
    if chunks.len() == 0 {
        Seq::empty()
    } else {
        (match chunks[0] {
            Some(c) => reasoning_delta(chunk_message(c)),
            None => Seq::empty(),
        }) + all_reasoning(chunks.drop_first())
    }
}

proof fn lemma_after_chunks(s: StreamStateView, chunks: Seq<Option<StreamChunk>>)
    ensures
        after_chunks(s, chunks).content == s.content + all_content(chunks),
        after_chunks(s, chunks).reasoning == s.reasoning + all_reasoning(chunks),
        (forall|i: int| 0 <= i < chunks.len() ==> #[trigger] chunks[i] is Some) ==> after_chunks(
            s,
            chunks,
        ).error == s.error,
        (exists|i: int| 0 <= i < chunks.len() && #[trigger] chunks[i] is None) ==> after_chunks(
            s,
            chunks,
        ).error == Some("invalid model stream chunk JSON"@),
        s.error is Some ==> after_chunks(s, chunks).error is Some,
        s.error == Some("invalid model stream chunk JSON"@) ==> after_chunks(s, chunks).error == Some(
            "invalid model stream chunk JSON"@,
        ),
        (s.received || exists|i: int| 0 <= i < chunks.len() && #[trigger] chunks[i] is Some)
            ==> after_chunks(s, chunks).received,
    decreases chunks.len(),
{
    if chunks.len() == 0 {
        assert(s.content + Seq::<char>::empty() =~= s.content);
        assert(s.reasoning + Seq::<char>::empty() =~= s.reasoning);
    } else {
        let rest = chunks.drop_first();
        let next = s.after(chunks[0]);
        lemma_after_chunks(next, rest);
        assert(next.content + all_content(rest) =~= s.content + all_content(chunks));
        assert(next.reasoning + all_reasoning(rest) =~= s.reasoning + all_reasoning(chunks));
        if forall|i: int| 0 <= i < chunks.len() ==> #[trigger] chunks[i] is Some {
            assert forall|i: int| 0 <= i < rest.len() implies #[trigger] rest[i] is Some by {
                assert(rest[i] == chunks[i + 1]);
            }
            assert(chunks[0] is Some);
        }
        if exists|i: int| 0 <= i < chunks.len() && #[trigger] chunks[i] is None {
            let i = choose|i: int| 0 <= i < chunks.len() && #[trigger] chunks[i] is None;
            if i > 0 {
                assert(rest[i - 1] is None);
            }
        }
        if exists|i: int| 0 <= i < chunks.len() && #[trigger] chunks[i] is Some {
            let i = choose|i: int| 0 <= i < chunks.len() && #[trigger] chunks[i] is Some;
            if i > 0 {
                assert(rest[i - 1] is Some);
            }
        }
    }
}

/// A stream whose chunks all parse answers with the concatenation of their
/// reasoning texts and of their content texts, in chunk order.
pub proof fn law_stream_concatenates_deltas(chunks: Seq<Option<StreamChunk>>)
    requires
        chunks.len() > 0,
        forall|i: int| 0 <= i < chunks.len() ==> #[trigger] chunks[i] is Some,
    ensures
        after_chunks(fresh_stream(), chunks).response() matches Ok(r) && r.content == all_content(
            chunks,
        ) && r.reasoning == all_reasoning(chunks),
{
    lemma_after_chunks(fresh_stream(), chunks);
    assert(chunks[0] is Some);
    assert(Seq::<char>::empty() + all_content(chunks) =~= all_content(chunks));
    assert(Seq::<char>::empty() + all_reasoning(chunks) =~= all_reasoning(chunks));
}

/// A single chunk that is not JSON fails the whole request with the
/// invalid-chunk error, whatever arrives before or after it.
pub proof fn law_invalid_chunk_fails_stream(s: StreamStateView, chunks: Seq<Option<StreamChunk>>)
    requires
        exists|i: int| 0 <= i < chunks.len() && #[trigger] chunks[i] is None,
    ensures
        after_chunks(s, chunks).response() == Err::<ModelResponseView, AgentErrorView>(
            AgentErrorView::Model("invalid model stream chunk JSON"@),
        ),
{
    lemma_after_chunks(s, chunks);
}

/// A tool-call fragment that names no slot opens a new tool call after the
/// existing ones, holding the fragment's id, name and arguments; the
/// earlier calls are unchanged.
pub proof fn law_unindexed_fragment_opens_a_call(calls: Seq<ToolCallView>, f: ChunkToolCallView)
    requires
        f.index is None,
    ensures
        apply_tool_fragment(calls, f) == calls.push(
            ToolCallView {
                id: text_or_empty(f.id),
                name: text_or_empty(f.name),
                arguments: text_or_empty(f.arguments),
            },
        ),
{
    assert(Seq::<char>::empty() + text_or_empty(f.id) =~= text_or_empty(f.id));
    assert(Seq::<char>::empty() + text_or_empty(f.name) =~= text_or_empty(f.name));
    assert(Seq::<char>::empty() + text_or_empty(f.arguments) =~= text_or_empty(f.arguments));
    assert(apply_tool_fragment(calls, f) =~= calls.push(
        ToolCallView {
            id: text_or_empty(f.id),
            name: text_or_empty(f.name),
            arguments: text_or_empty(f.arguments),
        },
    ));
}

/// A tool-call fragment that names an existing slot extends that call:
/// its id, name and arguments texts are appended to the call's, and every
/// other call, and the number of calls, stay as they were.
pub proof fn law_indexed_fragment_extends_its_call(calls: Seq<ToolCallView>, f: ChunkToolCallView)
    requires
        f.index matches Some(i) && i < calls.len(),
    ensures
        ({
            let i = f.index->Some_0 as int;
            apply_tool_fragment(calls, f) == calls.update(
                i,
                ToolCallView {
                    id: calls[i].id + text_or_empty(f.id),
                    name: calls[i].name + text_or_empty(f.name),
                    arguments: calls[i].arguments + text_or_empty(f.arguments),
                },
            )
        }),
{
}

/// A tool-call fragment that names a slot past the existing calls opens
/// that slot: the calls between are opened empty, the named one holds the
/// fragment's id, name and arguments, and the earlier calls are unchanged.
pub proof fn law_fragment_past_the_end_opens_its_slot(calls: Seq<ToolCallView>, f: ChunkToolCallView)
    requires
        f.index matches Some(i) && i >= calls.len(),
    ensures
        ({
            let i = f.index->Some_0 as int;
            let r = apply_tool_fragment(calls, f);
            &&& r.len() == i + 1
            &&& r.take(calls.len() as int) == calls
            &&& forall|j: int| calls.len() <= j < i ==> #[trigger] r[j] == empty_call()
            &&& r[i] == (ToolCallView {
                id: text_or_empty(f.id),
                name: text_or_empty(f.name),
                arguments: text_or_empty(f.arguments),
            })
        }),
{
    let i = f.index->Some_0 as int;
    let r = apply_tool_fragment(calls, f);
    assert(r.take(calls.len() as int) =~= calls);
    assert(Seq::<char>::empty() + text_or_empty(f.id) =~= text_or_empty(f.id));
    assert(Seq::<char>::empty() + text_or_empty(f.name) =~= text_or_empty(f.name));
    assert(Seq::<char>::empty() + text_or_empty(f.arguments) =~= text_or_empty(f.arguments));
}

/// The tool calls of a message whose fragments name no slots, as in a
/// complete (non-delta) message, are appended one per fragment, in order,
/// after the calls already accumulated.
pub proof fn law_unindexed_fragments_append_calls(calls: Seq<ToolCallView>, fs: Seq<ChunkToolCallView>)
    requires
        forall|i: int| 0 <= i < fs.len() ==> (#[trigger] fs[i]).index is None,
    ensures
        apply_tool_fragments(calls, fs) == calls + fs.map_values(
            |f: ChunkToolCallView|
                ToolCallView {
                    id: text_or_empty(f.id),
                    name: text_or_empty(f.name),
                    arguments: text_or_empty(f.arguments),
                },
        ),
    decreases fs.len(),
{
    let g = |f: ChunkToolCallView|
        ToolCallView {
            id: text_or_empty(f.id),
            name: text_or_empty(f.name),
            arguments: text_or_empty(f.arguments),
        };
    if fs.len() == 0 {
        assert(calls + fs.map_values(g) =~= calls);
    } else {
        assert(fs[0].index is None);
        law_unindexed_fragment_opens_a_call(calls, fs[0]);
        let rest = fs.drop_first();
        assert forall|i: int| 0 <= i < rest.len() implies (#[trigger] rest[i]).index is None by {
            assert(rest[i] == fs[i + 1]);
        }
        law_unindexed_fragments_append_calls(calls.push(g(fs[0])), rest);
        assert(calls.push(g(fs[0])) + rest.map_values(g) =~= calls + fs.map_values(g));
    }
}

/// A chunk whose message lists tool calls without indexes adds one tool
/// call per entry, in order, to the calls the stream already holds, so
/// the response answers with all of them.
pub proof fn law_message_calls_without_index_are_added(s: StreamStateView, m: ChunkMessageView)
    requires
        m.tool_calls matches Some(fs) && forall|i: int|
            0 <= i < fs.len() ==> (#[trigger] fs[i]).index is None,
    ensures
        s.after_message(m).tool_calls == s.tool_calls + m.tool_calls->Some_0.map_values(
            |f: ChunkToolCallView|
                ToolCallView {
                    id: text_or_empty(f.id),
                    name: text_or_empty(f.name),
                    arguments: text_or_empty(f.arguments),
                },
        ),
        s.error is None ==> (s.after_message(m).response() matches Ok(r) && r.tool_calls
            == s.after_message(m).tool_calls),
{
    law_unindexed_fragments_append_calls(s.tool_calls, m.tool_calls->Some_0);
}

fn opt_str_dup(s: &Option<String>) -> (r: Option<String>)
    ensures
        opt_text(r) == opt_text(*s),
{
    match s {
        Some(t) => Some(t.clone()),
        None => None,
    }
}

fn empty_tool_call() -> (r: ToolCall)
    ensures
        r@ == empty_call(),
{
    ToolCall { id: String::new(), name: String::new(), arguments: String::new() }
}

impl StreamState {
    /// A stream that has received nothing yet.
    pub fn new() -> (r: Self)
        ensures
            r@ == (StreamStateView {
                reasoning: Seq::empty(),
                content: Seq::empty(),
                tool_calls: Seq::empty(),
                error: None,
                received: false,
            }),
    {
        let r = StreamState {
            reasoning: String::new(),
            content: String::new(),
            tool_calls: Vec::new(),
            error: None,
            received: false,
        };
        proof {
            assert(r.tool_calls.deep_view() =~= Seq::<ToolCallView>::empty());
        }
        r
    }

    fn apply_fragment(&mut self, f: &ChunkToolCall)
        ensures
            final(self)@ == (StreamStateView {
                tool_calls: apply_tool_fragment(old(self)@.tool_calls, f.deep_view()),
                ..old(self)@
            }),
    {
        let ghost start = self@;
        let index = match f.index {
            Some(i) => i,
            None => self.tool_calls.len(),
        };
        let ghost padded = if (index as int) < start.tool_calls.len() {
            start.tool_calls
        } else {
            start.tool_calls + Seq::new(
                (index + 1 - start.tool_calls.len()) as nat,
                |_i: int| empty_call(),
            )
        };
        let ghost base_len = start.tool_calls.len();
        while self.tool_calls.len() <= index
            invariant
                base_len == start.tool_calls.len(),
                self@ == (StreamStateView { tool_calls: self@.tool_calls, ..start }),
                self@.tool_calls.len() >= base_len,
                self@.tool_calls.len() <= index + 1 || self@.tool_calls.len() == base_len,
                self@.tool_calls == start.tool_calls + Seq::new(
                    (self@.tool_calls.len() - base_len) as nat,
                    |_i: int| empty_call(),
                ),
            decreases index + 1 - self.tool_calls@.len(),
        {
            let ghost before = self.tool_calls@;
            let ghost before_deep = self.tool_calls.deep_view();
            self.tool_calls.push(empty_tool_call());
            proof {
                assert forall|k: int| 0 <= k < before.len() implies self.tool_calls.deep_view()[k]
                    == before_deep[k] by {
                    assert(self.tool_calls@[k] == before[k]);
                }
                let target = start.tool_calls + Seq::new(
                    (self@.tool_calls.len() - base_len) as nat,
                    |_i: int| empty_call(),
                );
                assert(before_deep == start.tool_calls + Seq::new(
                    (before.len() - base_len) as nat,
                    |_i: int| empty_call(),
                ));
                assert forall|k: int| 0 <= k < target.len() implies #[trigger] self.tool_calls.deep_view()[k]
                    == target[k] by {
                    if k < before.len() {
                        if k < base_len {
                            assert(before_deep[k] == start.tool_calls[k]);
                        } else {
                            assert(before_deep[k] == empty_call());
                        }
                    } else {
                        assert(self.tool_calls@[k]@ == empty_call());
                    }
                }
                assert(self.tool_calls.deep_view() =~= target);
            }
        }
        proof {
            assert(self@.tool_calls =~= padded);
        }
        let ghost before = self.tool_calls@;
        let ghost before_deep = self.tool_calls.deep_view();
        let mut id = String::new();
        id.append(self.tool_calls[index].id.as_str());
        if let Some(t) = &f.id {
            id.append(t.as_str());
        }
        let mut name = String::new();
        name.append(self.tool_calls[index].name.as_str());
        if let Some(t) = &f.name {
            name.append(t.as_str());
        }
        let mut arguments = String::new();
        arguments.append(self.tool_calls[index].arguments.as_str());
        if let Some(t) = &f.arguments {
            arguments.append(t.as_str());
        }
        proof {
            assert(before_deep[index as int] == before[index as int]@);
        }
        self.tool_calls.set(index, ToolCall { id, name, arguments });
        proof {
            assert forall|k: int| 0 <= k < before.len() && k != index implies self.tool_calls.deep_view()[k]
                == before_deep[k] by {
                assert(self.tool_calls@[k] == before[k]);
            }
            assert(self.tool_calls.deep_view() =~= apply_tool_fragment(start.tool_calls, f.deep_view()));
        }
    }

    /// Takes the next chunk, `None` for one that is not JSON, and returns
    /// the reasoning and content text it added.
    pub fn on_chunk(&mut self, chunk: Option<StreamChunk>) -> (r: ChunkDeltas)
        ensures
            final(self)@ == old(self)@.after(chunk),
            match chunk {
                Some(c) => r.reasoning@ == reasoning_delta(chunk_message(c)) && r.content@
                    == content_delta(chunk_message(c)),
                None => r.reasoning@.len() == 0 && r.content@.len() == 0,
            },
    {
        let chunk = match chunk {
            None => {
                self.error = Some("invalid model stream chunk JSON".to_owned());
                return ChunkDeltas { reasoning: String::new(), content: String::new() };
            },
            Some(c) => c,
        };
        let ghost m = chunk_message(chunk);
        self.received = true;
        let empty = ChunkMessage {
            content: None,
            reasoning_content: None,
            reasoning: None,
            tool_calls: None,
        };
        let message: &ChunkMessage = if chunk.choices.len() == 0 {
            &empty
        } else {
            match &chunk.choices[0].delta {
                Some(d) => d,
                None => &chunk.choices[0].message,
            }
        };
        assert(*message == m);
        let content = match &message.content {
            Some(t) => t.clone(),
            None => String::new(),
        };
        let reasoning = match &message.reasoning_content {
            Some(t) => t.clone(),
            None => match &message.reasoning {
                Some(t) => t.clone(),
                None => String::new(),
            },
        };
        self.content.append(content.as_str());
        self.reasoning.append(reasoning.as_str());
        let ghost mid = self@;
        match &message.tool_calls {
            Some(fs) => {
                let mut i: usize = 0;
                let ghost fv = fs.deep_view();
                assert(fv.skip(0) =~= fv);
                while i < fs.len()
                    invariant
                        i <= fs@.len(),
                        fv == fs.deep_view(),
                        self@ == (StreamStateView { tool_calls: self@.tool_calls, ..mid }),
                        apply_tool_fragments(mid.tool_calls, fv) == apply_tool_fragments(
                            self@.tool_calls,
                            fv.skip(i as int),
                        ),
                    decreases fs@.len() - i,
                {
                    proof {
                        assert(fv.skip(i as int)[0] == fs@[i as int].deep_view());
                        assert(fv.skip(i as int).drop_first() =~= fv.skip(i + 1));
                    }
                    self.apply_fragment(&fs[i]);
                    i = i + 1;
                }
                proof {
                    assert(fv.skip(i as int) =~= Seq::<ChunkToolCallView>::empty());
                }
            },
            None => {},
        }
        ChunkDeltas { reasoning, content }
    }

    /// Takes the next chunk as its JSON text and returns the reasoning and
    /// content text it added; text that is not JSON marks the stream as
    /// failed.
    pub fn on_chunk_json(&mut self, chunk_json: &str) -> (r: ChunkDeltas)
        ensures
            final(self)@ == old(self)@.after_json(json_parse(chunk_json@)),
            match json_parse(chunk_json@) {
                Some(v) => {
                    let m = json_chunk_message(v);
                    &&& r.content@ == text_or_empty(m.content)
                    &&& r.reasoning@ == match m.reasoning_content {
                        Some(t) => t,
                        None => text_or_empty(m.reasoning),
                    }
                },
                None => r.reasoning@.len() == 0 && r.content@.len() == 0,
            },
    {
        let chunk = parse_chunk(chunk_json);
        proof {
            if chunk is Some {
                let m = chunk_message(chunk->Some_0);
                assert(old(self)@.after(chunk) == old(self)@.after_message(m.deep_view()));
            }
        }
        self.on_chunk(chunk)
    }

    /// The accumulated response: the first stream error if there was one,
    /// an error if nothing was received, and otherwise the response.
    pub fn into_response(&self) -> (r: Result<ModelResponse, AgentError>)
        ensures
            match self@.response() {
                Ok(v) => r matches Ok(x) && x@ == v,
                Err(e) => r matches Err(x) && x@ == e,
            },
    {
        if let Some(e) = &self.error {
            return Err(AgentError::Model(e.clone()));
        }
        if !self.received {
            return Err(AgentError::Model("model returned no stream chunks".to_owned()));
        }
        let mut calls: Vec<ToolCall> = Vec::new();
        let mut i: usize = 0;
        while i < self.tool_calls.len()
            invariant
                i <= self.tool_calls@.len(),
                calls@.len() == i,
                calls.deep_view() == self.tool_calls.deep_view().take(i as int),
            decreases self.tool_calls@.len() - i,
        {
            let ghost before = calls@;
            let ghost before_deep = calls.deep_view();
            let c = &self.tool_calls[i];
            calls.push(ToolCall::new(c.id.as_str(), c.name.as_str(), c.arguments.as_str()));
            proof {
                assert forall|k: int| 0 <= k < i + 1 implies #[trigger] calls.deep_view()[k]
                    == self.tool_calls.deep_view().take(i + 1)[k] by {
                    if k < i {
                        assert(calls@[k] == before[k]);
                        assert(before_deep[k] == before[k].deep_view());
                    }
                }
                assert(calls.deep_view() =~= self.tool_calls.deep_view().take(i + 1));
            }
            i = i + 1;
        }
        proof {
            assert(self.tool_calls.deep_view().take(i as int) =~= self.tool_calls.deep_view());
        }
        Ok(ModelResponse {
            reasoning: self.reasoning.clone(),
            content: self.content.clone(),
            tool_calls: calls,
        })
    }
}

fn fragment_of(f: &JsonValue) -> (r: ChunkToolCall)
    ensures
        r.deep_view() == json_fragment(*f),
{
    let function = get(Some(f), "function");
    let index = match unsigned(get(Some(f), "index")) {
        Some(n) => Some(n as usize),
        None => None,
    };
    ChunkToolCall {
        index,
        id: text(get(Some(f), "id")),
        name: text(get(function, "name")),
        arguments: text(get(function, "arguments")),
    }
}

fn message_of(m: Option<&JsonValue>) -> (r: ChunkMessage)
    ensures
        r.deep_view() == json_message_fields(deref_opt(m)),
{
    let tool_calls = match items(get(m, "tool_calls")) {
        Some(fs) => {
            let ghost fv = fs@;
            let mut out: Vec<ChunkToolCall> = Vec::new();
            let mut i: usize = 0;
            while i < fs.len()
                invariant
                    i <= fv.len(),
                    fv == fs@,
                    out@.len() == i,
                    forall|k: int| 0 <= k < i ==> #[trigger] out@[k].deep_view() == json_fragment(fv[k]),
                decreases fv.len() - i,
            {
                out.push(fragment_of(&fs[i]));
                i = i + 1;
            }
            proof {
                assert(out.deep_view() =~= fv.map_values(|f: JsonValue| json_fragment(f)));
            }
            Some(out)
        },
        None => None,
    };
    ChunkMessage {
        content: text(get(m, "content")),
        reasoning_content: text(get(m, "reasoning_content")),
        reasoning: text(get(m, "reasoning")),
        tool_calls,
    }
}

/// Reads a stream chunk's text: `None` when it is not JSON; otherwise a
/// chunk whose contributed message is the one the JSON holds.
pub fn parse_chunk(chunk_json: &str) -> (r: Option<StreamChunk>)
    ensures
        match json_parse(chunk_json@) {
            None => r is None,
            Some(v) => r matches Some(c) && chunk_message(c).deep_view() == json_chunk_message(v),
        },
{
    let parsed = match parse_json_value(chunk_json) {
        Ok(v) => v,
        Err(_) => return None,
    };
    let choice = item(get(Some(&parsed), "choices"), 0);
    let message = match get(choice, "delta") {
        Some(d) => message_of(Some(d)),
        None => message_of(get(choice, "message")),
    };
    let empty = ChunkMessage { content: None, reasoning_content: None, reasoning: None, tool_calls: None };
    let mut choices: Vec<ChunkChoice> = Vec::new();
    choices.push(ChunkChoice { delta: Some(message), message: empty });
    Some(StreamChunk { choices })
}

/// What to tell the event sink when a model request ends.
pub enum SinkNotice {
    /// The request succeeded with this final text.
    Completed(String),
    /// The request failed with this message.
    Failed(String),
}

/// Ends a model request: `provider_result` is what the provider's
/// completion returned, `stream` what it streamed.
pub fn finish_completion(provider_result: Result<(), ModelServeError>, stream: &StreamState) -> (r: (
    Result<ModelResponse, AgentError>,
    SinkNotice,
))
    ensures
        match provider_result {
            Err(e) => {
                let err = AgentErrorView::Model("model request failed: "@ + serve_error_name_view(e));
                &&& r.0 matches Err(x) && x@ == err
                &&& r.1 matches SinkNotice::Failed(m) && m@ == err.text()
            },
            Ok(()) => match stream@.response() {
                Ok(v) => (r.0 matches Ok(x) && x@ == v) && (r.1 matches SinkNotice::Completed(t)
                    && t@ == v.content),
                Err(e) => (r.0 matches Err(x) && x@ == e) && (r.1 matches SinkNotice::Failed(m)
                    && m@ == e.text()),
            },
        },
{
    match provider_result {
        Err(e) => {
            let mut message = String::new();
            message.append("model request failed: ");
            message.append(e.to_string().as_str());
            let error = AgentError::Model(message);
            let text = error.to_string();
            (Err(error), SinkNotice::Failed(text))
        },
        Ok(()) => match stream.into_response() {
            Ok(response) => {
                let text = response.content.clone();
                (Ok(response), SinkNotice::Completed(text))
            },
            Err(error) => {
                let text = error.to_string();
                (Err(error), SinkNotice::Failed(text))
            },
        },
    }
}

/// Harness-side adapter around the model serve callback `C` of the
/// embedding application.
pub struct ModelServeWrapper<C> {
    provider: C,
}

impl<C> ModelServeWrapper<C> {
    pub fn new(provider: C) -> (r: Self)
        ensures
            r.provider() == provider,
    {
        ModelServeWrapper { provider }
    }

    pub closed spec fn provider(&self) -> C {
        self.provider
    }

    /// The callback that serves requests.
    pub fn callback(&self) -> (r: &C)
        ensures
            *r == self.provider(),
    {
        &self.provider
    }
}

impl<C: Clone> ModelServeWrapper<C> {
    /// An adapter around the registered callback in `slot`.
    pub fn registered(slot: &Option<C>) -> (r: Result<Self, AgentError>)
        ensures
            slot.is_some() <==> (r is Ok),
            r matches Err(e) ==> e@ == AgentErrorView::Model("model serve is not registered"@),
            r matches Ok(w) ==> vstd::pervasive::cloned(slot->Some_0, w.provider()),
    {
        match slot {
            Some(provider) => Ok(ModelServeWrapper::new(provider.clone())),
            None => Err(AgentError::Model("model serve is not registered".to_owned())),
        }
    }
}

/// Registers the callback that serves model requests.
pub fn register_model_serve_callback<C>(slot: &mut Option<C>, provider: C)
    ensures
        *final(slot) == Some(provider),
{
    *slot = Some(provider);
}

pub fn unregister_model_serve_callback<C>(slot: &mut Option<C>)
    ensures
        final(slot).is_none(),
{
    *slot = None;
}

/// Registers the sink of user-visible events.
pub fn register_agent_event_sink<S>(slot: &mut Option<S>, sink: S)
    ensures
        *final(slot) == Some(sink),
{
    *slot = Some(sink);
}

pub fn unregister_agent_event_sink<S>(slot: &mut Option<S>)
    ensures
        final(slot).is_none(),
{
    *slot = None;
}

} // verus!
