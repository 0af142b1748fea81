//! The values exchanged between the agent loop, the model and the tools.
use vstd::prelude::*;

verus! {

/// What a tool definition says, as plain text.
pub struct ToolDefinitionView {
    pub name: Seq<char>,
    pub description: Seq<char>,
    pub parameters_schema: Seq<char>,
    pub retryable: bool,
}

#[derive(Debug, Clone, PartialEq, Eq)]
pub struct ToolDefinition {
    pub name: String,
    pub description: String,
    /// Provider-neutral JSON Schema encoded as a string at the core boundary.
    pub parameters_schema: String,
    pub retryable: bool,
}

impl View for ToolDefinition {
    type V = ToolDefinitionView;

    open spec fn view(&self) -> ToolDefinitionView {
        ToolDefinitionView {
            name: self.name@,
            description: self.description@,
            parameters_schema: self.parameters_schema@,
            retryable: self.retryable,
        }
    }
}

impl DeepView for ToolDefinition {
    type V = ToolDefinitionView;

    open spec fn deep_view(&self) -> ToolDefinitionView {
        self@
    }
}

impl ToolDefinition {
    /// A definition that is not retryable.
    pub fn new(name: &str, description: &str, parameters_schema: &str) -> (r: Self)
        ensures
            r@ == (ToolDefinitionView {
                name: name@,
                description: description@,
                parameters_schema: parameters_schema@,
                retryable: false,
            }),
    {
        ToolDefinition {
            name: name.to_owned(),
            description: description.to_owned(),
            parameters_schema: parameters_schema.to_owned(),
            retryable: false,
        }
    }

    pub fn with_retryable(self, retryable: bool) -> (r: Self)
        ensures
            r@ == (ToolDefinitionView { retryable, ..self@ }),
    {
        let mut this = self;
        this.retryable = retryable;
        this
    }

    /// A copy that Verus knows to be equal to `self`.
    pub fn duplicate(&self) -> (r: Self)
        ensures
            r@ == self@,
    {
        ToolDefinition {
            name: self.name.clone(),
            description: self.description.clone(),
            parameters_schema: self.parameters_schema.clone(),
            retryable: self.retryable,
        }
    }
}

pub struct ToolCallView {
    pub id: Seq<char>,
    pub name: Seq<char>,
    pub arguments: Seq<char>,
}

#[derive(Debug, Clone, PartialEq, Eq)]
pub struct ToolCall {
    pub id: String,
    pub name: String,
    pub arguments: String,
}

impl View for ToolCall {
    type V = ToolCallView;

    open spec fn view(&self) -> ToolCallView {
        ToolCallView { id: self.id@, name: self.name@, arguments: self.arguments@ }
    }
}

impl DeepView for ToolCall {
    type V = ToolCallView;

    open spec fn deep_view(&self) -> ToolCallView {
        self@
    }
}

impl ToolCall {
    pub fn new(id: &str, name: &str, arguments: &str) -> (r: Self)
        ensures
            r@ == (ToolCallView { id: id@, name: name@, arguments: arguments@ }),
    {
        ToolCall { id: id.to_owned(), name: name.to_owned(), arguments: arguments.to_owned() }
    }

    pub fn duplicate(&self) -> (r: Self)
        ensures
            r@ == self@,
    {
        ToolCall {
            id: self.id.clone(),
            name: self.name.clone(),
            arguments: self.arguments.clone(),
        }
    }
}

/// A copy of a list of tool calls that Verus knows to be equal to it.
pub fn duplicate_tool_calls(calls: &Vec<ToolCall>) -> (r: Vec<ToolCall>)
    ensures
        r.deep_view() == calls.deep_view(),
{
    let mut out: Vec<ToolCall> = Vec::new();
    let mut i: usize = 0;
    while i < calls.len()
        invariant
            i <= calls.len(),
            out@.len() == i,
            out.deep_view() == calls.deep_view().take(i as int),
        decreases calls.len() - i,
    {
        let ghost before = out@;
        let ghost before_deep = out.deep_view();
        let item = calls[i].duplicate();
        out.push(item);
        proof {
            assert forall|k: int| 0 <= k < i + 1 implies #[trigger] out.deep_view()[k]
                == calls.deep_view()[k] by {
                if k < i {
                    assert(out@[k] == before[k]);
                    assert(before_deep[k] == before[k].deep_view());
                }
            }
        }
        i = i + 1;
        proof {
            assert(out.deep_view() =~= calls.deep_view().take(i as int));
        }
    }
    proof {
        assert(calls.deep_view().take(i as int) =~= calls.deep_view());
    }
    out
}

pub enum MessageView {
    User { content: Seq<char> },
    Assistant { content: Seq<char>, tool_calls: Seq<ToolCallView> },
    Tool { call_id: Seq<char>, name: Seq<char>, content: Seq<char>, is_error: bool },
}

#[derive(Debug, Clone, PartialEq, Eq)]
pub enum Message {
    User { content: String },
    Assistant { content: String, tool_calls: Vec<ToolCall> },
    Tool { call_id: String, name: String, content: String, is_error: bool },
}

impl View for Message {
    type V = MessageView;

    open spec fn view(&self) -> MessageView {
        match self {
            Message::User { content } => MessageView::User { content: content@ },
            Message::Assistant { content, tool_calls } => MessageView::Assistant {
                content: content@,
                tool_calls: tool_calls.deep_view(),
            },
            Message::Tool { call_id, name, content, is_error } => MessageView::Tool {
                call_id: call_id@,
                name: name@,
                content: content@,
                is_error: *is_error,
            },
        }
    }
}

impl DeepView for Message {
    type V = MessageView;

    open spec fn deep_view(&self) -> MessageView {
        self@
    }
}

impl Message {
    pub fn duplicate(&self) -> (r: Self)
        ensures
            r@ == self@,
    {
        match self {
            Message::User { content } => Message::User { content: content.clone() },
            Message::Assistant { content, tool_calls } => Message::Assistant {
                content: content.clone(),
                tool_calls: duplicate_tool_calls(tool_calls),
            },
            Message::Tool { call_id, name, content, is_error } => Message::Tool {
                call_id: call_id.clone(),
                name: name.clone(),
                content: content.clone(),
                is_error: *is_error,
            },
        }
    }
}

/// A copy of a conversation history that Verus knows to be equal to it.
pub fn duplicate_messages(messages: &Vec<Message>) -> (r: Vec<Message>)
    ensures
        r.deep_view() == messages.deep_view(),
{
    let mut out: Vec<Message> = Vec::new();
    let mut i: usize = 0;
    while i < messages.len()
        invariant
            i <= messages.len(),
            out@.len() == i,
            out.deep_view() == messages.deep_view().take(i as int),
        decreases messages.len() - i,
    {
        let ghost before = out@;
        let ghost before_deep = out.deep_view();
        let item = messages[i].duplicate();
        out.push(item);
        proof {
            assert forall|k: int| 0 <= k < i + 1 implies #[trigger] out.deep_view()[k]
                == messages.deep_view()[k] by {
                if k < i {
                    assert(out@[k] == before[k]);
                    assert(before_deep[k] == before[k].deep_view());
                }
            }
        }
        i = i + 1;
        proof {
            assert(out.deep_view() =~= messages.deep_view().take(i as int));
        }
    }
    proof {
        assert(messages.deep_view().take(i as int) =~= messages.deep_view());
    }
    out
}

pub struct ModelRequestView {
    pub system_prompt: Seq<char>,
    pub user_input: Seq<char>,
    pub history: Seq<MessageView>,
    pub tools: Seq<ToolDefinitionView>,
}

#[derive(Debug, Clone, PartialEq, Eq)]
pub struct ModelRequest {
    pub system_prompt: String,
    pub user_input: String,
    pub history: Vec<Message>,
    pub tools: Vec<ToolDefinition>,
}

impl View for ModelRequest {
    type V = ModelRequestView;

    open spec fn view(&self) -> ModelRequestView {
        ModelRequestView {
            system_prompt: self.system_prompt@,
            user_input: self.user_input@,
            history: self.history.deep_view(),
            tools: self.tools.deep_view(),
        }
    }
}

pub struct ModelResponseView {
    pub reasoning: Seq<char>,
    pub content: Seq<char>,
    pub tool_calls: Seq<ToolCallView>,
}

#[derive(Debug, Clone, PartialEq, Eq)]
pub struct ModelResponse {
    /// Reasoning text that the model streamed before its answer.
    pub reasoning: String,
    pub content: String,
    pub tool_calls: Vec<ToolCall>,
}

impl View for ModelResponse {
    type V = ModelResponseView;

    open spec fn view(&self) -> ModelResponseView {
        ModelResponseView {
            reasoning: self.reasoning@,
            content: self.content@,
            tool_calls: self.tool_calls.deep_view(),
        }
    }
}

impl ModelResponse {
    /// An answer with no tool calls.
    pub fn final_text(content: &str) -> (r: Self)
        ensures
            r@ == (ModelResponseView {
                reasoning: Seq::empty(),
                content: content@,
                tool_calls: Seq::empty(),
            }),
    {
        let r = ModelResponse {
            reasoning: String::new(),
            content: content.to_owned(),
            tool_calls: Vec::new(),
        };
        proof {
            assert(r.tool_calls.deep_view() =~= Seq::<ToolCallView>::empty());
        }
        r
    }

    pub fn with_tool_calls(content: &str, tool_calls: Vec<ToolCall>) -> (r: Self)
        ensures
            r@ == (ModelResponseView {
                reasoning: Seq::empty(),
                content: content@,
                tool_calls: tool_calls.deep_view(),
            }),
    {
        ModelResponse { reasoning: String::new(), content: content.to_owned(), tool_calls }
    }
}

pub struct ToolOutputView {
    pub content: Seq<char>,
    pub is_error: bool,
}

#[derive(Debug, Clone, PartialEq, Eq)]
pub struct ToolOutput {
    pub content: String,
    pub is_error: bool,
}

impl View for ToolOutput {
    type V = ToolOutputView;

    open spec fn view(&self) -> ToolOutputView {
        ToolOutputView { content: self.content@, is_error: self.is_error }
    }
}

impl ToolOutput {
    pub fn success(content: &str) -> (r: Self)
        ensures
            r@ == (ToolOutputView { content: content@, is_error: false }),
    {
        ToolOutput { content: content.to_owned(), is_error: false }
    }

    pub fn failure(content: &str) -> (r: Self)
        ensures
            r@ == (ToolOutputView { content: content@, is_error: true }),
    {
        ToolOutput { content: content.to_owned(), is_error: true }
    }
}

#[derive(Debug, Clone, Copy, PartialEq, Eq, Structural)]
pub enum TerminationReason {
    Completed,
    MaxStepsReached,
}

pub struct AgentRunView {
    pub output: Seq<char>,
    pub history: Seq<MessageView>,
    pub steps: nat,
    pub termination: TerminationReason,
}

#[derive(Debug, Clone, PartialEq, Eq)]
pub struct AgentRun {
    pub output: String,
    pub history: Vec<Message>,
    pub steps: usize,
    pub termination: TerminationReason,
}

impl View for AgentRun {
    type V = AgentRunView;

    open spec fn view(&self) -> AgentRunView {
        AgentRunView {
            output: self.output@,
            history: self.history.deep_view(),
            steps: self.steps as nat,
            termination: self.termination,
        }
    }
}

} // verus!
