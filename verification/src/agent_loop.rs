//! The tool-use loop: ask the model, run the tools it calls, feed their
//! results back, until the model answers without tools or the step limit is
//! reached.
//!
//! `LoopState` holds the decisions of one run and is shared by the
//! synchronous `AgentLoop` below and by asynchronous drivers.
use vstd::prelude::*;

use crate::error::{AgentError, AgentErrorView};
use crate::text::{is_blank, is_blank_view};
use crate::tool::{RegistryView, Tool, ToolEntryView, ToolRegistry, entry_for, insert_outcome};
use crate::types::{
    AgentRun, AgentRunView, Message, MessageView, ModelRequest, ModelRequestView, ModelResponse,
    ModelResponseView,
    TerminationReason, ToolCall, ToolCallView, ToolDefinition, ToolDefinitionView, ToolOutput, ToolOutputView,
    duplicate_messages, duplicate_tool_calls,
};

verus! {

/// A tool call that the loop accepts: its id and name are not blank.
pub open spec fn call_is_valid(c: ToolCallView) -> bool {
    !is_blank_view(c.id) && !is_blank_view(c.name)
}

pub open spec fn calls_are_valid(calls: Seq<ToolCallView>) -> bool {
    forall|i: int| 0 <= i < calls.len() ==> call_is_valid(#[trigger] calls[i])
}

/// The message that reports `out` as the result of `call`.
pub open spec fn tool_message(call: ToolCallView, out: ToolOutputView) -> MessageView {
    MessageView::Tool {
        call_id: call.id,
        name: call.name,
        content: out.content,
        is_error: out.is_error,
    }
}

/// One round: the model's message with its tool calls, followed by one tool
/// message per call, in the order of the calls.
pub open spec fn round_messages(
    content: Seq<char>,
    calls: Seq<ToolCallView>,
    outputs: Seq<ToolOutputView>,
) -> Seq<MessageView> {
    seq![MessageView::Assistant { content, tool_calls: calls }] + Seq::new(
        calls.len(),
        |i: int| tool_message(calls[i], outputs[i]),
    )
}

/// Whether the tool messages after the assistant message at the front of
/// `h` answer `calls` one by one, in order.
pub open spec fn answers_calls(h: Seq<MessageView>, calls: Seq<ToolCallView>) -> bool {
    forall|i: int|
        0 <= i < calls.len() ==> (#[trigger] h[1 + i] matches MessageView::Tool {
            call_id,
            name,
            ..
        } && call_id == calls[i].id && name == calls[i].name)
}

/// The number of complete rounds that `h` consists of, if it consists of
/// rounds: each an assistant message with at least one valid tool call,
/// followed by the answers to those calls in order.
pub open spec fn round_count(h: Seq<MessageView>) -> Option<nat>
    decreases h.len(),
{
    if h.len() == 0 {
        Some(0)
    } else {
        match h[0] {
            MessageView::Assistant { tool_calls, .. } => {
                if tool_calls.len() >= 1 && 1 + tool_calls.len() <= h.len() && calls_are_valid(
                    tool_calls,
                ) && answers_calls(h, tool_calls) {
                    match round_count(h.skip(1 + tool_calls.len() as int)) {
                        Some(k) => Some(k + 1),
                        None => None,
                    }
                } else {
                    None
                }
            },
            _ => None,
        }
    }
}

/// A run's transcript: the user's input, then `rounds` complete rounds.
pub open spec fn transcript(h: Seq<MessageView>, user_input: Seq<char>, rounds: nat) -> bool {
    &&& h.len() >= 1
    &&& h[0] == MessageView::User { content: user_input }
    &&& round_count(h.skip(1)) == Some(rounds)
}

/// What a finished run satisfies: a transcript of `steps - 1` rounds when the
/// model answered, of `max_steps` rounds and an empty output when the step
/// limit stopped it; never more steps than the limit.
pub open spec fn run_is_sound(run: AgentRunView, user_input: Seq<char>, max_steps: nat) -> bool {
    &&& 1 <= run.steps <= max_steps
    &&& match run.termination {
        TerminationReason::Completed => transcript(run.history, user_input, (run.steps - 1) as nat),
        TerminationReason::MaxStepsReached => {
            &&& run.steps == max_steps
            &&& run.output.len() == 0
            &&& transcript(run.history, user_input, max_steps)
        },
    }
}

proof fn lemma_round_count_append(h: Seq<MessageView>, r: Seq<MessageView>, k: nat)
    requires
        round_count(h) == Some(k),
        round_count(r) == Some(1nat),
    ensures
        round_count(h + r) == Some(k + 1),
    decreases h.len(),
{
    if h.len() == 0 {
        assert(h + r =~= r);
    } else {
        let calls = h[0]->Assistant_tool_calls;
        let n: int = 1 + calls.len() as int;
        let rest = h.skip(n);
        assert((h + r)[0] == h[0]);
        assert forall|i: int| 0 <= i < calls.len() implies #[trigger] (h + r)[1 + i] == h[1 + i] by {}
        assert((h + r).skip(n) =~= rest + r);
        let kr = round_count(rest)->Some_0;
        lemma_round_count_append(rest, r, kr);
    }
}

proof fn lemma_one_round(content: Seq<char>, calls: Seq<ToolCallView>, outputs: Seq<ToolOutputView>)
    requires
        calls.len() >= 1,
        outputs.len() == calls.len(),
        calls_are_valid(calls),
    ensures
        round_count(round_messages(content, calls, outputs)) == Some(1nat),
{
    let r = round_messages(content, calls, outputs);
    assert(r.len() == 1 + calls.len());
    assert(r[0] == MessageView::Assistant { content, tool_calls: calls });
    assert forall|i: int| 0 <= i < calls.len() implies (#[trigger] r[1 + i] matches MessageView::Tool {
        call_id,
        name,
        ..
    } && call_id == calls[i].id && name == calls[i].name) by {
        assert(r[1 + i] == tool_message(calls[i], outputs[i]));
    }
    assert(answers_calls(r, calls));
    assert(r.skip(1 + calls.len() as int) =~= Seq::<MessageView>::empty());
    assert(round_count(Seq::<MessageView>::empty()) == Some(0nat));
}

/// One round of a run: the model's message, the tool calls it made and
/// the outputs reported for them.
pub struct RoundView {
    pub content: Seq<char>,
    pub calls: Seq<ToolCallView>,
    pub outputs: Seq<ToolOutputView>,
}

/// A round that the loop completes: at least one valid call, and one output
/// per call.
pub open spec fn round_is_complete(r: RoundView) -> bool {
    r.calls.len() >= 1 && r.outputs.len() == r.calls.len() && calls_are_valid(r.calls)
}

/// The messages of `rounds`, one round after another.
pub open spec fn rounds_history(rounds: Seq<RoundView>) -> Seq<MessageView>
    decreases rounds.len(),
{
    if rounds.len() == 0 {
        Seq::empty()
    } else {
        rounds_history(rounds.drop_last()) + round_messages(
            rounds.last().content,
            rounds.last().calls,
            rounds.last().outputs,
        )
    }
}

/// The output that a tool message reports.
pub open spec fn output_of(m: MessageView) -> ToolOutputView {
    match m {
        MessageView::Tool { content, is_error, .. } => ToolOutputView { content, is_error },
        _ => ToolOutputView { content: Seq::empty(), is_error: false },
    }
}

/// The rounds that `h` consists of, read front to back.
pub open spec fn rounds_of(h: Seq<MessageView>) -> Seq<RoundView>
    decreases h.len(),
{
    if h.len() == 0 {
        Seq::empty()
    } else {
        match h[0] {
            MessageView::Assistant { content, tool_calls } => {
                if tool_calls.len() >= 1 && 1 + tool_calls.len() <= h.len() {
                    seq![
                        RoundView {
                            content,
                            calls: tool_calls,
                            outputs: Seq::new(tool_calls.len(), |i: int| output_of(h[1 + i])),
                        },
                    ] + rounds_of(h.skip(1 + tool_calls.len() as int))
                } else {
                    Seq::empty()
                }
            },
            _ => Seq::empty(),
        }
    }
}

proof fn lemma_rounds_history_front(r: RoundView, rest: Seq<RoundView>)
    ensures
        rounds_history(seq![r] + rest) == round_messages(r.content, r.calls, r.outputs)
            + rounds_history(rest),
    decreases rest.len(),
{
    if rest.len() == 0 {
        let one = seq![r] + rest;
        assert(one.drop_last() =~= Seq::<RoundView>::empty());
        assert(one.last() == r);
        assert(rounds_history(one.drop_last()) == Seq::<MessageView>::empty());
        assert(rounds_history(rest) == Seq::<MessageView>::empty());
        let rm = round_messages(r.content, r.calls, r.outputs);
        assert(rounds_history(one) == rounds_history(one.drop_last()) + rm);
        assert(Seq::<MessageView>::empty() + rm =~= rm + Seq::<MessageView>::empty());
    } else {
        let all = seq![r] + rest;
        assert(all.drop_last() =~= seq![r] + rest.drop_last());
        assert(all.last() == rest.last());
        lemma_rounds_history_front(r, rest.drop_last());
        let rm = round_messages(r.content, r.calls, r.outputs);
        let lm = round_messages(rest.last().content, rest.last().calls, rest.last().outputs);
        assert(rounds_history(all) == rounds_history(all.drop_last()) + lm);
        assert(rounds_history(rest) == rounds_history(rest.drop_last()) + lm);
        assert(rm + rounds_history(rest.drop_last()) + lm =~= rm + (rounds_history(rest.drop_last())
            + lm));
    }
}

proof fn lemma_rounds_of(h: Seq<MessageView>, k: nat)
    requires
        round_count(h) == Some(k),
    ensures
        rounds_of(h).len() == k,
        forall|i: int| 0 <= i < k ==> round_is_complete(#[trigger] rounds_of(h)[i]),
        rounds_history(rounds_of(h)) == h,
    decreases h.len(),
{
    if h.len() == 0 {
    } else {
        let calls = h[0]->Assistant_tool_calls;
        let content = h[0]->Assistant_content;
        let n: int = 1 + calls.len() as int;
        let rest = h.skip(n);
        let kr = round_count(rest)->Some_0;
        lemma_rounds_of(rest, kr);
        let r = RoundView {
            content,
            calls,
            outputs: Seq::new(calls.len(), |i: int| output_of(h[1 + i])),
        };
        assert(rounds_of(h) == seq![r] + rounds_of(rest));
        lemma_rounds_history_front(r, rounds_of(rest));
        let rm = round_messages(content, calls, r.outputs);
        assert forall|i: int| 0 <= i < calls.len() implies #[trigger] rm[1 + i] == h[1 + i] by {
            assert(h[1 + i] matches MessageView::Tool { call_id, name, .. } && call_id == calls[i].id
                && name == calls[i].name);
        }
        assert(rm[0] == h[0]);
        assert(rm =~= h.take(n));
        assert(h.take(n) + rest =~= h);
        assert forall|i: int| 0 <= i < k implies round_is_complete(#[trigger] rounds_of(h)[i]) by {
            if i > 0 {
                assert(rounds_of(h)[i] == rounds_of(rest)[i - 1]);
            }
        }
    }
}

/// A finished run's history is the user's input followed by its rounds,
/// each the model's message with its calls and then one tool message per
/// call, in call order: one round per step that ran tools.
pub proof fn law_run_history_is_rounds(run: AgentRunView, user_input: Seq<char>, max_steps: nat)
    requires
        run_is_sound(run, user_input, max_steps),
    ensures
        ({
            let rounds = rounds_of(run.history.skip(1));
            &&& run.history == seq![MessageView::User { content: user_input }] + rounds_history(rounds)
            &&& forall|i: int| 0 <= i < rounds.len() ==> round_is_complete(#[trigger] rounds[i])
            &&& rounds.len() == (match run.termination {
                TerminationReason::Completed => (run.steps - 1) as nat,
                TerminationReason::MaxStepsReached => max_steps,
            })
        }),
{
    let h = run.history;
    let k = round_count(h.skip(1))->Some_0;
    lemma_rounds_of(h.skip(1), k);
    assert(seq![MessageView::User { content: user_input }] + h.skip(1) =~= h);
}

/// The state of one run of the loop.
pub struct LoopState {
    system_prompt: String,
    user_input: String,
    history: Vec<Message>,
    step: usize,
    max_steps: usize,
    pending_content: String,
    pending_calls: Vec<ToolCall>,
}

pub struct LoopStateView {
    pub system_prompt: Seq<char>,
    pub user_input: Seq<char>,
    pub history: Seq<MessageView>,
    pub step: nat,
    pub max_steps: nat,
    pub pending_content: Seq<char>,
    pub pending_calls: Seq<ToolCallView>,
}

impl View for LoopState {
    type V = LoopStateView;

    closed spec fn view(&self) -> LoopStateView {
        LoopStateView {
            system_prompt: self.system_prompt@,
            user_input: self.user_input@,
            history: self.history.deep_view(),
            step: self.step as nat,
            max_steps: self.max_steps as nat,
            pending_content: self.pending_content@,
            pending_calls: self.pending_calls.deep_view(),
        }
    }
}

impl LoopStateView {
    /// Run validity: the history is the input and one round per completed
    /// step, and the step count is below the limit.
    pub open spec fn wf(self) -> bool {
        &&& self.step < self.max_steps
        &&& transcript(self.history, self.user_input, self.step)
    }

    /// The outcome of a model response in this state.
    pub open spec fn respond(self, response: ModelResponseView) -> ResponseOutcomeView {
        if response.tool_calls.len() == 0 {
            ResponseOutcomeView::Finished(
                AgentRunView {
                    output: response.content,
                    history: self.history,
                    steps: self.step + 1,
                    termination: TerminationReason::Completed,
                },
            )
        } else if !calls_are_valid(response.tool_calls) {
            ResponseOutcomeView::Failed(
                AgentErrorView::InvalidAction("tool call id and name must not be empty"@),
            )
        } else {
            ResponseOutcomeView::RunTools(response.tool_calls)
        }
    }
}

pub enum ResponseOutcomeView {
    Finished(AgentRunView),
    Failed(AgentErrorView),
    RunTools(Seq<ToolCallView>),
}

/// What follows a model response.
pub enum ResponseOutcome {
    /// The model answered without tools: the run is over.
    Finished(AgentRun),
    /// The response was refused.
    Failed(AgentError),
    /// Run these calls, then report their outputs to `complete_round`.
    RunTools(Vec<ToolCall>),
}

impl ResponseOutcome {
    pub open spec fn view_of(self) -> ResponseOutcomeView {
        match self {
            ResponseOutcome::Finished(run) => ResponseOutcomeView::Finished(run@),
            ResponseOutcome::Failed(e) => ResponseOutcomeView::Failed(e@),
            ResponseOutcome::RunTools(calls) => ResponseOutcomeView::RunTools(calls.deep_view()),
        }
    }
}

/// Checks that every tool call has a non-blank id and name.
pub fn validate_response(response: &ModelResponse) -> (r: Result<(), AgentError>)
    ensures
        calls_are_valid(response@.tool_calls) <==> (r is Ok),
        r matches Err(e) ==> e@ == AgentErrorView::InvalidAction(
            "tool call id and name must not be empty"@,
        ),
{
    let mut i: usize = 0;
    while i < response.tool_calls.len()
        invariant
            i <= response.tool_calls@.len(),
            forall|k: int| 0 <= k < i ==> call_is_valid(#[trigger] response@.tool_calls[k]),
        decreases response.tool_calls@.len() - i,
    {
        let call = &response.tool_calls[i];
        assert(response@.tool_calls[i as int] == call@);
        if is_blank(call.id.as_str()) || is_blank(call.name.as_str()) {
            return Err(AgentError::InvalidAction("tool call id and name must not be empty".to_owned()));
        }
        i = i + 1;
    }
    Ok(())
}

/// The outputs that the tool results stand for when the run goes on: a
/// failure becomes an error output carrying its message when
/// `continue_after_tool_error` is set, and otherwise ends the run with the
/// first failure.
pub open spec fn resolved_outputs(
    results: Seq<Result<ToolOutputView, AgentErrorView>>,
    continue_after_tool_error: bool,
) -> Result<Seq<ToolOutputView>, AgentErrorView>
    decreases results.len(),
{
    if results.len() == 0 {
        Ok(Seq::empty())
    } else {
        let first = match results[0] {
            Ok(o) => Ok(o),
            Err(e) => if continue_after_tool_error {
                Ok(ToolOutputView { content: e.text(), is_error: true })
            } else {
                Err(e)
            },
        };
        match first {
            Err(e) => Err(e),
            Ok(o) => match resolved_outputs(results.drop_first(), continue_after_tool_error) {
                Ok(rest) => Ok(seq![o] + rest),
                Err(e) => Err(e),
            },
        }
    }
}

/// When the run goes on after tool errors, resolving never fails: there is
/// one output per result, in order, each successful output kept as it is
/// and each failure turned into an error output carrying the failure's
/// text, whatever the other results are.
pub proof fn law_continuing_reports_every_result(results: Seq<Result<ToolOutputView, AgentErrorView>>)
    ensures
        resolved_outputs(results, true) == Ok::<Seq<ToolOutputView>, AgentErrorView>(
            Seq::new(
                results.len(),
                |i: int|
                    match results[i] {
                        Ok(o) => o,
                        Err(e) => ToolOutputView { content: e.text(), is_error: true },
                    },
            ),
        ),
    decreases results.len(),
{
    let f = |i: int|
        match results[i] {
            Ok(o) => o,
            Err(e) => ToolOutputView { content: e.text(), is_error: true },
        };
    if results.len() == 0 {
        assert(Seq::new(0, f) =~= Seq::<ToolOutputView>::empty());
    } else {
        let rest = results.drop_first();
        law_continuing_reports_every_result(rest);
        let g = |i: int|
            match rest[i] {
                Ok(o) => o,
                Err(e) => ToolOutputView { content: e.text(), is_error: true },
            };
        assert(seq![f(0)] + Seq::new(rest.len(), g) =~= Seq::new(results.len(), f));
    }
}

/// When the run stops at tool errors, resolving fails with the first
/// failure in call order, whatever follows it.
pub proof fn law_stopping_reports_the_first_failure(
    results: Seq<Result<ToolOutputView, AgentErrorView>>,
    i: int,
)
    requires
        0 <= i < results.len(),
        results[i] is Err,
        forall|j: int| 0 <= j < i ==> #[trigger] results[j] is Ok,
    ensures
        resolved_outputs(results, false) == Err::<Seq<ToolOutputView>, AgentErrorView>(
            results[i]->Err_0,
        ),
    decreases i,
{
    if i > 0 {
        let rest = results.drop_first();
        assert(results[0] is Ok);
        assert forall|j: int| 0 <= j < i - 1 implies #[trigger] rest[j] is Ok by {
            assert(rest[j] == results[j + 1]);
        }
        assert(rest[i - 1] == results[i]);
        law_stopping_reports_the_first_failure(rest, i - 1);
    }
}

/// Results that all succeeded resolve to their outputs, in order, whether
/// or not the run goes on after tool errors.
pub proof fn law_successes_are_reported_as_they_are(
    results: Seq<Result<ToolOutputView, AgentErrorView>>,
    continue_after_tool_error: bool,
)
    requires
        forall|j: int| 0 <= j < results.len() ==> #[trigger] results[j] is Ok,
    ensures
        resolved_outputs(results, continue_after_tool_error) == Ok::<
            Seq<ToolOutputView>,
            AgentErrorView,
        >(Seq::new(results.len(), |i: int| results[i]->Ok_0)),
    decreases results.len(),
{
    if results.len() == 0 {
        assert(Seq::new(0, |i: int| results[i]->Ok_0) =~= Seq::<ToolOutputView>::empty());
    } else {
        let rest = results.drop_first();
        assert(results[0] is Ok);
        assert forall|j: int| 0 <= j < rest.len() implies #[trigger] rest[j] is Ok by {
            assert(rest[j] == results[j + 1]);
        }
        law_successes_are_reported_as_they_are(rest, continue_after_tool_error);
        assert(seq![results[0]->Ok_0] + Seq::new(rest.len(), |i: int| rest[i]->Ok_0) =~= Seq::new(
            results.len(),
            |i: int| results[i]->Ok_0,
        ));
    }
}

/// Resolves the results of one round's tool calls into the outputs that are
/// reported to the model.
pub fn resolve_tool_results(
    results: Vec<Result<ToolOutput, AgentError>>,
    continue_after_tool_error: bool,
) -> (r: Result<Vec<ToolOutput>, AgentError>)
    ensures
        match resolved_outputs(
            results@.map_values(|x: Result<ToolOutput, AgentError>| crate::scheduler::result_view(x)),
            continue_after_tool_error,
        ) {
            Ok(outs) => r matches Ok(v) && v@.map_values(|o: ToolOutput| o@) == outs,
            Err(e) => r matches Err(x) && x@ == e,
        },
{
    let ghost rv = results@.map_values(
        |x: Result<ToolOutput, AgentError>| crate::scheduler::result_view(x),
    );
    let mut rest = results;
    let n = rest.len();
    let mut out: Vec<ToolOutput> = Vec::new();
    let mut i: usize = 0;
    assert(rv.skip(0) =~= rv);
    while i < n
        invariant
            i <= n,
            n == rv.len(),
            rest@.len() == n - i,
            rv == results@.map_values(|x: Result<ToolOutput, AgentError>| crate::scheduler::result_view(x)),
            forall|k: int|
                0 <= k < rest@.len() ==> crate::scheduler::result_view(#[trigger] rest@[k]) == rv[i
                    + k],
            resolved_outputs(rv, continue_after_tool_error) == match resolved_outputs(
                rv.skip(i as int),
                continue_after_tool_error,
            ) {
                Ok(tail) => Ok(out@.map_values(|o: ToolOutput| o@) + tail),
                Err(e) => Err(e),
            },
        decreases n - i,
    {
        let item = rest.remove(0);
        proof {
            assert(rv.skip(i as int)[0] == crate::scheduler::result_view(item));
            assert(rv.skip(i as int).drop_first() =~= rv.skip(i + 1));
        }
        let ghost before = out@.map_values(|o: ToolOutput| o@);
        let output = match item {
            Ok(o) => o,
            Err(e) => {
                if continue_after_tool_error {
                    ToolOutput::failure(e.to_string().as_str())
                } else {
                    proof {
                        assert(resolved_outputs(rv.skip(i as int), continue_after_tool_error)
                            == Err::<Seq<ToolOutputView>, AgentErrorView>(e@));
                    }
                    return Err(e);
                }
            },
        };
        out.push(output);
        proof {
            assert(out@.map_values(|o: ToolOutput| o@) =~= before.push(output@));
            assert forall|k: int| 0 <= k < rest@.len() implies crate::scheduler::result_view(
                #[trigger] rest@[k],
            ) == rv[i + 1 + k] by {}
            match resolved_outputs(rv.skip(i + 1), continue_after_tool_error) {
                Ok(tail) => {
                    assert(before + (seq![output@] + tail) =~= before.push(output@) + tail);
                },
                Err(_) => {},
            }
        }
        i = i + 1;
    }
    proof {
        assert(rv.skip(n as int) =~= Seq::<Result<ToolOutputView, AgentErrorView>>::empty());
        assert(out@.map_values(|o: ToolOutput| o@) + Seq::<ToolOutputView>::empty() =~= out@.map_values(
            |o: ToolOutput| o@,
        ));
    }
    Ok(out)
}

impl LoopState {
    /// A run for `user_input` that may take up to `max_steps` steps.
    pub fn new(system_prompt: String, user_input: &str, max_steps: usize) -> (r: Self)
        requires
            max_steps > 0,
        ensures
            r@.wf(),
            r@.system_prompt == system_prompt@,
            r@.user_input == user_input@,
            r@.history == seq![MessageView::User { content: user_input@ }],
            r@.step == 0,
            r@.max_steps == max_steps,
    {
        let mut history: Vec<Message> = Vec::new();
        history.push(Message::User { content: user_input.to_owned() });
        let r = LoopState {
            system_prompt,
            user_input: user_input.to_owned(),
            history,
            step: 0,
            max_steps,
            pending_content: String::new(),
            pending_calls: Vec::new(),
        };
        proof {
            assert(r@.history =~= seq![MessageView::User { content: user_input@ }]);
            assert(r@.history.skip(1) =~= Seq::<MessageView>::empty());
        }
        r
    }

    /// The number of completed steps.
    pub fn step(&self) -> (r: usize)
        ensures
            r == self@.step,
    {
        self.step
    }

    /// The model request of the current step, offering `tools`.
    pub fn request(&self, tools: Vec<ToolDefinition>) -> (r: ModelRequest)
        ensures
            r@ == (ModelRequestView {
                system_prompt: self@.system_prompt,
                user_input: self@.user_input,
                history: self@.history,
                tools: tools.deep_view(),
            }),
    {
        ModelRequest {
            system_prompt: self.system_prompt.clone(),
            user_input: self.user_input.clone(),
            history: duplicate_messages(&self.history),
            tools,
        }
    }

    /// Stops the run when it was cancelled: `cancelled` says whether the
    /// run's cancellation token was cancelled. A cancelled run ends with
    /// `Cancelled` before any further model request or tool call.
    pub fn check_cancelled(&self, cancelled: bool) -> (r: Result<(), AgentError>)
        ensures
            cancelled <==> (r is Err),
            r matches Err(e) ==> e@ == AgentErrorView::Cancelled,
    {
        if cancelled {
            Err(AgentError::Cancelled)
        } else {
            Ok(())
        }
    }

    /// The model request of the current step, offering `tools`, unless the
    /// run was cancelled.
    pub fn request_unless_cancelled(&self, tools: Vec<ToolDefinition>, cancelled: bool) -> (r: Result<
        ModelRequest,
        AgentError,
    >)
        ensures
            cancelled ==> (r matches Err(e) && e@ == AgentErrorView::Cancelled),
            !cancelled ==> (r matches Ok(q) && q@ == (ModelRequestView {
                system_prompt: self@.system_prompt,
                user_input: self@.user_input,
                history: self@.history,
                tools: tools.deep_view(),
            })),
    {
        self.check_cancelled(cancelled)?;
        Ok(self.request(tools))
    }

    /// Takes the model's response of the current step: a response without
    /// tool calls finishes the run, one with a blank call id or name is
    /// refused, and the calls of any other are to be run.
    pub fn take_response(&mut self, response: ModelResponse) -> (r: ResponseOutcome)
        requires
            old(self)@.wf(),
        ensures
            r.view_of() == old(self)@.respond(response@),
            r is RunTools ==> final(self)@ == old(self)@.awaiting_tools(response@),
            r is RunTools ==> final(self)@ == (LoopStateView {
                pending_content: response@.content,
                pending_calls: response@.tool_calls,
                ..old(self)@
            }),
            !(r is RunTools) ==> final(self)@ == old(self)@,
            final(self)@.wf(),
            r matches ResponseOutcome::Finished(run) ==> run_is_sound(
                run@,
                old(self)@.user_input,
                old(self)@.max_steps,
            ),
    {
        if response.tool_calls.len() == 0 {
            let run = AgentRun {
                output: response.content,
                history: duplicate_messages(&self.history),
                steps: self.step + 1,
                termination: TerminationReason::Completed,
            };
            return ResponseOutcome::Finished(run);
        }
        match validate_response(&response) {
            Err(e) => ResponseOutcome::Failed(e),
            Ok(()) => {
                let calls = duplicate_tool_calls(&response.tool_calls);
                self.pending_content = response.content;
                self.pending_calls = response.tool_calls;
                ResponseOutcome::RunTools(calls)
            },
        }
    }

    /// Records the outputs of the pending calls, one per call in call order,
    /// and ends the step. When that was the last allowed step the run stops
    /// with the step limit reached.
    pub fn complete_round(&mut self, outputs: Vec<ToolOutput>) -> (r: Option<AgentRun>)
        requires
            old(self)@.wf(),
            old(self)@.pending_calls.len() >= 1,
            calls_are_valid(old(self)@.pending_calls),
            outputs@.len() == old(self)@.pending_calls.len(),
        ensures
            ({
                let o = old(self)@;
                let history = o.history + round_messages(
                    o.pending_content,
                    o.pending_calls,
                    outputs@.map_values(|x: ToolOutput| x@),
                );
                if o.step + 1 == o.max_steps {
                    r matches Some(run) && run@ == (AgentRunView {
                        output: Seq::empty(),
                        history,
                        steps: o.max_steps,
                        termination: TerminationReason::MaxStepsReached,
                    })
                } else {
                    &&& r is None
                    &&& final(self)@ == o.after_round(outputs@.map_values(|x: ToolOutput| x@))
                    &&& final(self)@ == (LoopStateView {
                        history,
                        step: o.step + 1,
                        pending_content: Seq::empty(),
                        pending_calls: Seq::empty(),
                        ..o
                    })
                    &&& final(self)@.wf()
                }
            }),
            r matches Some(run) ==> run_is_sound(run@, old(self)@.user_input, old(self)@.max_steps),
    {
        let ghost o = self@;
        let ghost ov = outputs@.map_values(|x: ToolOutput| x@);
        let ghost round = round_messages(o.pending_content, o.pending_calls, ov);
        let ghost start = self.history@;
        let ghost start_deep = self.history.deep_view();
        let mut content = String::new();
        std::mem::swap(&mut content, &mut self.pending_content);
        let mut calls: Vec<ToolCall> = Vec::new();
        std::mem::swap(&mut calls, &mut self.pending_calls);
        let assistant = Message::Assistant { content, tool_calls: duplicate_tool_calls(&calls) };
        self.history.push(assistant);
        proof {
            assert forall|k: int| 0 <= k < start.len() implies self.history.deep_view()[k]
                == start_deep[k] by {
                assert(self.history@[k] == start[k]);
            }
            assert(self.history.deep_view() =~= o.history + round.take(1));
            assert(self.pending_calls.deep_view() =~= Seq::<ToolCallView>::empty());
            assert(self@ == (LoopStateView {
                history: self@.history,
                pending_content: Seq::empty(),
                pending_calls: Seq::empty(),
                ..o
            }));
        }
        let mut i: usize = 0;
        while i < calls.len()
            invariant
                i <= calls@.len(),
                calls.deep_view() == o.pending_calls,
                outputs@.len() == calls@.len(),
                ov == outputs@.map_values(|x: ToolOutput| x@),
                round == round_messages(o.pending_content, o.pending_calls, ov),
                self.history.deep_view() == o.history + round.take(1 + i),
                self@ == (LoopStateView {
                    history: self@.history,
                    pending_content: Seq::empty(),
                    pending_calls: Seq::empty(),
                    ..o
                }),
            decreases calls@.len() - i,
        {
            let ghost before = self.history@;
            let ghost before_deep = self.history.deep_view();
            let call = &calls[i];
            let output = &outputs[i];
            let message = Message::Tool {
                call_id: call.id.clone(),
                name: call.name.clone(),
                content: output.content.clone(),
                is_error: output.is_error,
            };
            self.history.push(message);
            proof {
                assert(o.pending_calls[i as int] == call@);
                assert(ov[i as int] == output@);
                assert(round[1 + i] == tool_message(o.pending_calls[i as int], ov[i as int]));
                assert forall|k: int| 0 <= k < before.len() implies self.history.deep_view()[k]
                    == before_deep[k] by {
                    assert(self.history@[k] == before[k]);
                }
                assert(self.history@.len() == before.len() + 1);
                assert(self.history@[before.len() as int] == message);
                assert(self.history.deep_view()[before.len() as int] == round[1 + i]);
                assert(round.len() == 1 + o.pending_calls.len());
                let target = o.history + round.take(1 + i + 1);
                let prev = o.history + round.take(1 + i);
                assert(before_deep == prev);
                assert(before_deep.len() == before.len());
                assert(prev.len() == o.history.len() + 1 + i);
                assert(target.len() == prev.len() + 1);
                assert(self.history.deep_view().len() == target.len());
                assert forall|k: int| 0 <= k < target.len() implies #[trigger] self.history.deep_view()[k]
                    == target[k] by {
                    if k < before.len() {
                        assert(before_deep[k] == prev[k]);
                        if k < o.history.len() {
                            assert(target[k] == o.history[k]);
                            assert(prev[k] == o.history[k]);
                        } else {
                            assert(target[k] == round[k - o.history.len()]);
                            assert(prev[k] == round[k - o.history.len()]);
                        }
                    } else {
                        assert(k == before.len());
                        assert(target[k] == round[1 + i]);
                    }
                }
                assert(self.history.deep_view() =~= target);
            }
            i = i + 1;
        }
        proof {
            assert(round.take(1 + i) =~= round);
            lemma_one_round(o.pending_content, o.pending_calls, ov);
            assert(o.history.skip(1) + round =~= (o.history + round).skip(1));
            lemma_round_count_append(o.history.skip(1), round, o.step);
        }
        self.step = self.step + 1;
        if self.step == self.max_steps {
            let run = AgentRun {
                output: String::new(),
                history: duplicate_messages(&self.history),
                steps: self.max_steps,
                termination: TerminationReason::MaxStepsReached,
            };
            return Some(run);
        }
        None
    }
}

/// The events a run reports to its observer.
#[derive(Debug, Clone, PartialEq, Eq)]
pub enum AgentEvent {
    Started { user_input: String },
    ModelRequested { step: usize },
    ModelResponded { step: usize, tool_calls: usize },
    Completed { step: usize, output: String },
    ToolStarted { step: usize, call: ToolCall },
    ToolCompleted { step: usize, call: ToolCall, output: ToolOutput },
    MaxStepsReached { max_steps: usize },
}

pub enum AgentEventView {
    Started { user_input: Seq<char> },
    ModelRequested { step: nat },
    ModelResponded { step: nat, tool_calls: nat },
    Completed { step: nat, output: Seq<char> },
    ToolStarted { step: nat, call: ToolCallView },
    ToolCompleted { step: nat, call: ToolCallView, output: ToolOutputView },
    MaxStepsReached { max_steps: nat },
}

impl View for AgentEvent {
    type V = AgentEventView;

    open spec fn view(&self) -> AgentEventView {
        match self {
            AgentEvent::Started { user_input } => AgentEventView::Started { user_input: user_input@ },
            AgentEvent::ModelRequested { step } => AgentEventView::ModelRequested { step: *step as nat },
            AgentEvent::ModelResponded { step, tool_calls } => AgentEventView::ModelResponded {
                step: *step as nat,
                tool_calls: *tool_calls as nat,
            },
            AgentEvent::Completed { step, output } => AgentEventView::Completed {
                step: *step as nat,
                output: output@,
            },
            AgentEvent::ToolStarted { step, call } => AgentEventView::ToolStarted {
                step: *step as nat,
                call: call@,
            },
            AgentEvent::ToolCompleted { step, call, output } => AgentEventView::ToolCompleted {
                step: *step as nat,
                call: call@,
                output: output@,
            },
            AgentEvent::MaxStepsReached { max_steps } => AgentEventView::MaxStepsReached {
                max_steps: *max_steps as nat,
            },
        }
    }
}

/// The events of the first `n` calls of a round in step `step`: each call
/// is announced, then reported with its output.
pub open spec fn call_events(
    step: nat,
    calls: Seq<ToolCallView>,
    outputs: Seq<ToolOutputView>,
    n: nat,
) -> Seq<AgentEventView>
    decreases n,
{
    if n == 0 {
        Seq::empty()
    } else {
        call_events(step, calls, outputs, (n - 1) as nat) + seq![
            AgentEventView::ToolStarted { step, call: calls[n - 1] },
            AgentEventView::ToolCompleted { step, call: calls[n - 1], output: outputs[n - 1] },
        ]
    }
}

/// The events of a round in step `step`: the request, the response with
/// its number of calls, then the events of each call.
pub open spec fn round_events(step: nat, r: RoundView) -> Seq<AgentEventView> {
    seq![
        AgentEventView::ModelRequested { step },
        AgentEventView::ModelResponded { step, tool_calls: r.calls.len() },
    ] + call_events(step, r.calls, r.outputs, r.calls.len())
}

/// The events of `rounds`, step after step from step 0.
pub open spec fn rounds_events(rounds: Seq<RoundView>) -> Seq<AgentEventView>
    decreases rounds.len(),
{
    if rounds.len() == 0 {
        Seq::empty()
    } else {
        rounds_events(rounds.drop_last()) + round_events((rounds.len() - 1) as nat, rounds.last())
    }
}

/// The rounds that the model's tool-calling responses `responses` and the
/// tool outputs `outputs` make, in order: each response takes as many
/// outputs as it made calls.
pub open spec fn trace_rounds(responses: Seq<ModelResponseView>, outputs: Seq<ToolOutputView>) -> Seq<
    RoundView,
>
    decreases responses.len(),
{
    if responses.len() == 0 {
        Seq::empty()
    } else {
        let last = responses.last();
        let k = outputs.len() - last.tool_calls.len();
        trace_rounds(responses.drop_last(), outputs.take(k)).push(
            RoundView { content: last.content, calls: last.tool_calls, outputs: outputs.skip(k) },
        )
    }
}

impl LoopStateView {
    /// The state after a response whose calls are to be run.
    pub open spec fn awaiting_tools(self, response: ModelResponseView) -> LoopStateView {
        LoopStateView {
            pending_content: response.content,
            pending_calls: response.tool_calls,
            ..self
        }
    }

    /// The state after the pending calls reported `outputs`.
    pub open spec fn after_round(self, outputs: Seq<ToolOutputView>) -> LoopStateView {
        LoopStateView {
            history: self.history + round_messages(self.pending_content, self.pending_calls, outputs),
            step: self.step + 1,
            pending_content: Seq::empty(),
            pending_calls: Seq::empty(),
            ..self
        }
    }
}

/// The state after the tool-calling responses `responses` and the tool
/// outputs `outputs`, each response taking as many outputs as it made
/// calls, as `take_response` and `complete_round` leave it.
pub open spec fn after_steps(
    s: LoopStateView,
    responses: Seq<ModelResponseView>,
    outputs: Seq<ToolOutputView>,
) -> LoopStateView
    decreases responses.len(),
{
    if responses.len() == 0 {
        s
    } else {
        let k = outputs.len() - responses.last().tool_calls.len();
        after_steps(s, responses.drop_last(), outputs.take(k)).awaiting_tools(
            responses.last(),
        ).after_round(outputs.skip(k))
    }
}

/// Whatever the model answers and the tools give, a run's history is the
/// user's input followed by one round per step, in the model's call order:
/// each response's message with its calls, then one tool message per call
/// carrying that call's output. Each step advances the step count by one.
pub proof fn law_history_follows_responses(
    s: LoopStateView,
    responses: Seq<ModelResponseView>,
    outputs: Seq<ToolOutputView>,
)
    requires
        s.history == seq![MessageView::User { content: s.user_input }],
        s.step == 0,
    ensures
        after_steps(s, responses, outputs).history == seq![MessageView::User { content: s.user_input }]
            + rounds_history(trace_rounds(responses, outputs)),
        after_steps(s, responses, outputs).step == responses.len(),
        after_steps(s, responses, outputs).user_input == s.user_input,
    decreases responses.len(),
{
    if responses.len() == 0 {
        assert(s.history =~= seq![MessageView::User { content: s.user_input }] + Seq::empty());
    } else {
        let k = outputs.len() - responses.last().tool_calls.len();
        law_history_follows_responses(s, responses.drop_last(), outputs.take(k));
        let rounds = trace_rounds(responses, outputs);
        assert(rounds.drop_last() =~= trace_rounds(responses.drop_last(), outputs.take(k)));
    }
}

/// The rounds of tool-calling responses `responses`, with `outputs` their
/// calls' outputs, form a transcript of one round per response.
proof fn lemma_rounds_are_transcript(responses: Seq<ModelResponseView>, outputs: Seq<ToolOutputView>)
    requires
        all_ran_tools(responses),
        calls_total(responses) == outputs.len(),
    ensures
        round_count(rounds_history(trace_rounds(responses, outputs))) == Some(responses.len()),
    decreases responses.len(),
{
    if responses.len() == 0 {
        assert(round_count(Seq::<MessageView>::empty()) == Some(0nat));
    } else {
        let last = responses.last();
        let k = outputs.len() - last.tool_calls.len();
        assert(all_ran_tools(responses.drop_last())) by {
            assert forall|i: int| 0 <= i < responses.drop_last().len() implies (
            #[trigger] responses.drop_last()[i]).tool_calls.len() >= 1 && calls_are_valid(
                responses.drop_last()[i].tool_calls,
            ) by {
                assert(responses.drop_last()[i] == responses[i]);
            }
        }
        assert(last == responses[responses.len() - 1]);
        lemma_rounds_are_transcript(responses.drop_last(), outputs.take(k));
        lemma_one_round(last.content, last.tool_calls, outputs.skip(k));
        let rounds = trace_rounds(responses, outputs);
        assert(rounds.drop_last() =~= trace_rounds(responses.drop_last(), outputs.take(k)));
        lemma_round_count_append(
            rounds_history(rounds.drop_last()),
            round_messages(last.content, last.tool_calls, outputs.skip(k)),
            (responses.len() - 1) as nat,
        );
    }
}

/// A run asks the model only in a valid state, one whose completed steps are
/// fewer than the limit, so it makes at most `max_steps` requests. The
/// request that follows the tool-calling responses `responses`, whose calls
/// gave `outputs`, is made in such a state when there are fewer of them than
/// the limit, and carries the run's prompt and input and a history of the
/// input and then one round per response, in the model's call order.
pub proof fn law_requests_follow_the_rounds(
    s: LoopStateView,
    responses: Seq<ModelResponseView>,
    outputs: Seq<ToolOutputView>,
)
    requires
        s.wf(),
        s.history == seq![MessageView::User { content: s.user_input }],
        s.step == 0,
        all_ran_tools(responses),
        calls_total(responses) == outputs.len(),
        responses.len() < s.max_steps,
    ensures
        after_steps(s, responses, outputs).wf(),
        after_steps(s, responses, outputs).step == responses.len(),
        after_steps(s, responses, outputs).system_prompt == s.system_prompt,
        after_steps(s, responses, outputs).user_input == s.user_input,
        after_steps(s, responses, outputs).max_steps == s.max_steps,
        after_steps(s, responses, outputs).history == seq![MessageView::User { content: s.user_input }]
            + rounds_history(trace_rounds(responses, outputs)),
    decreases responses.len(),
{
    law_history_follows_responses(s, responses, outputs);
    if responses.len() > 0 {
        let k = outputs.len() - responses.last().tool_calls.len();
        assert(all_ran_tools(responses.drop_last())) by {
            assert forall|i: int| 0 <= i < responses.drop_last().len() implies (
            #[trigger] responses.drop_last()[i]).tool_calls.len() >= 1 && calls_are_valid(
                responses.drop_last()[i].tool_calls,
            ) by {
                assert(responses.drop_last()[i] == responses[i]);
            }
        }
        law_requests_follow_the_rounds(s, responses.drop_last(), outputs.take(k));
    }
    lemma_rounds_are_transcript(responses, outputs);
    let h = after_steps(s, responses, outputs).history;
    assert(h.skip(1) =~= rounds_history(trace_rounds(responses, outputs)));
}

/// The number of tool calls that `responses` made in all.
pub open spec fn calls_total(responses: Seq<ModelResponseView>) -> nat
    decreases responses.len(),
{
    if responses.len() == 0 {
        0
    } else {
        calls_total(responses.drop_last()) + responses.last().tool_calls.len()
    }
}

/// Whether every response of `responses` made valid tool calls.
pub open spec fn all_ran_tools(responses: Seq<ModelResponseView>) -> bool {
    forall|i: int|
        0 <= i < responses.len() ==> (#[trigger] responses[i]).tool_calls.len() >= 1
            && calls_are_valid(responses[i].tool_calls)
}

/// The events of step `step` whose response is `response` and whose calls
/// have given `outputs` so far: the request, then, for an answer, its
/// response and the answer; for valid calls, the response, each finished
/// call, and the call that is running; for invalid calls, nothing more.
pub open spec fn step_events(
    step: nat,
    response: ModelResponseView,
    outputs: Seq<ToolOutputView>,
) -> Seq<AgentEventView> {
    seq![AgentEventView::ModelRequested { step }] + if response.tool_calls.len() == 0 {
        seq![
            AgentEventView::ModelResponded { step, tool_calls: 0 },
            AgentEventView::Completed { step, output: response.content },
        ]
    } else if !calls_are_valid(response.tool_calls) {
        Seq::empty()
    } else {
        seq![AgentEventView::ModelResponded { step, tool_calls: response.tool_calls.len() }]
            + call_events(step, response.tool_calls, outputs, outputs.len()) + if outputs.len()
            < response.tool_calls.len() {
            seq![AgentEventView::ToolStarted { step, call: response.tool_calls[outputs.len() as int] }]
        } else {
            Seq::empty()
        }
    }
}

/// The events that a run on `user_input` tells its observer about the
/// responses `responses` and the tool outputs `outputs` it got before it
/// failed: the start, the completed rounds, and then either the next
/// request (or the step limit, when reached) or the events of the step that
/// failed. A failed run has told its observer a prefix of these.
pub open spec fn failed_run_events(
    user_input: Seq<char>,
    responses: Seq<ModelResponseView>,
    outputs: Seq<ToolOutputView>,
    max_steps: nat,
) -> Seq<AgentEventView> {
    if all_ran_tools(responses) && calls_total(responses) == outputs.len() {
        seq![AgentEventView::Started { user_input }] + rounds_events(trace_rounds(responses, outputs))
            + if responses.len() >= max_steps {
            seq![AgentEventView::MaxStepsReached { max_steps }]
        } else {
            seq![AgentEventView::ModelRequested { step: responses.len() }]
        }
    } else {
        let done = responses.drop_last();
        let t = calls_total(done) as int;
        seq![AgentEventView::Started { user_input }] + rounds_events(
            trace_rounds(done, outputs.take(t)),
        ) + step_events(done.len(), responses.last(), outputs.skip(t))
    }
}

proof fn lemma_prefix_of_concat(a: Seq<AgentEventView>, rest: Seq<AgentEventView>)
    ensures
        a.is_prefix_of(a + rest),
{
    assert(a =~= (a + rest).subrange(0, a.len() as int));
}

/// The events of a successful run on `user_input` with the rounds
/// `rounds`: the start, every round, and then either the final request and
/// answer or the step limit.
pub open spec fn run_events(
    user_input: Seq<char>,
    rounds: Seq<RoundView>,
    run: AgentRunView,
    max_steps: nat,
) -> Seq<AgentEventView> {
    seq![AgentEventView::Started { user_input }] + rounds_events(rounds) + match run.termination {
        TerminationReason::Completed => seq![
            AgentEventView::ModelRequested { step: rounds.len() },
            AgentEventView::ModelResponded { step: rounds.len(), tool_calls: 0 },
            AgentEventView::Completed { step: rounds.len(), output: run.output },
        ],
        TerminationReason::MaxStepsReached => seq![AgentEventView::MaxStepsReached { max_steps }],
    }
}

/// Receives the events of a run; an error stops the run.
pub trait Observer {
    fn on_event(&mut self, event: AgentEvent) -> Result<(), AgentError>;
}

/// An observer that ignores every event.
pub struct NoopObserver;

impl Observer for NoopObserver {
    fn on_event(&mut self, _event: AgentEvent) -> (r: Result<(), AgentError>)
        ensures
            r is Ok,
    {
        Ok(())
    }
}

/// A model that completes requests synchronously.
pub trait ModelServe {
    fn complete(&mut self, request: ModelRequest) -> Result<ModelResponse, AgentError>;
}

/// Loop policy of `AgentLoop`.
#[derive(Debug, Clone, PartialEq, Eq)]
pub struct LoopConfig {
    pub max_steps: usize,
    pub system_prompt: String,
}

impl Default for LoopConfig {
    fn default() -> (r: Self)
        ensures
            r.max_steps == 16,
            r.system_prompt@.len() == 0,
    {
        LoopConfig { max_steps: 16, system_prompt: String::new() }
    }
}

pub struct AgentLoop<M, O = NoopObserver> {
    model: M,
    registry: ToolRegistry,
    observer: O,
    config: LoopConfig,
    /// The events that the observer accepted so far.
    delivered: Ghost<Seq<AgentEventView>>,
    /// The responses that the model gave so far.
    responses: Ghost<Seq<ModelResponseView>>,
    /// The outputs that the registry's tools gave so far.
    tool_outputs: Ghost<Seq<ToolOutputView>>,
}

pub struct AgentLoopBuilder<M, O = NoopObserver> {
    model: M,
    registry: ToolRegistry,
    observer: O,
    config: LoopConfig,
}

impl<M, O> AgentLoopBuilder<M, O> {
    /// Builder validity: its registry is valid.
    pub closed spec fn wf(&self) -> bool {
        self.registry@.wf()
    }

    /// The registry of the loop being built.
    pub closed spec fn registry_view(&self) -> RegistryView {
        self.registry@
    }

    /// The model of the loop being built.
    pub closed spec fn model(&self) -> M {
        self.model
    }

    /// The observer of the loop being built.
    pub closed spec fn observer(&self) -> O {
        self.observer
    }

    pub closed spec fn loop_config(&self) -> LoopConfig {
        self.config
    }
}

impl<M, O> AgentLoop<M, O> {
    /// Loop validity: a valid registry and a positive step limit.
    pub closed spec fn wf(&self) -> bool {
        self.registry@.wf() && self.config.max_steps > 0
    }

    pub closed spec fn loop_config(&self) -> LoopConfig {
        self.config
    }

    /// The loop's registry.
    pub closed spec fn registry_view(&self) -> RegistryView {
        self.registry@
    }

    /// The loop's model.
    pub closed spec fn model(&self) -> M {
        self.model
    }

    /// The loop's observer.
    pub closed spec fn observer(&self) -> O {
        self.observer
    }

    /// The events that the observer accepted so far, in order.
    pub closed spec fn delivered_events(&self) -> Seq<AgentEventView> {
        self.delivered@
    }

    /// The responses that the model gave so far, in order.
    pub closed spec fn model_responses(&self) -> Seq<ModelResponseView> {
        self.responses@
    }

    /// The outputs that the registered tools gave so far, in order.
    pub closed spec fn tool_outputs(&self) -> Seq<ToolOutputView> {
        self.tool_outputs@
    }
}

impl<M> AgentLoopBuilder<M> {
    /// A builder with no tools, no observer and the default policy.
    pub fn new(model: M) -> (r: Self)
        ensures
            r.wf(),
            r.loop_config().max_steps == 16,
            r.loop_config().system_prompt@.len() == 0,
            r.model() == model,
            r.observer() == NoopObserver,
            r.registry_view() == (RegistryView {
                entries: Seq::empty(),
                page_start: 0,
                num_tool_per_load: 8,
                mcp_snapshot_version: 0,
                initialized: false,
            }),
    {
        AgentLoopBuilder {
            model,
            registry: ToolRegistry::default(),
            observer: NoopObserver,
            config: LoopConfig::default(),
        }
    }
}

impl<M, O> AgentLoopBuilder<M, O> {
    /// Registers an application tool.
    pub fn with_tool<T: Tool + 'static>(self, tool: T) -> (r: Result<Self, AgentError>)
        requires
            self.wf(),
        ensures
            r matches Ok(b) ==> b.wf() && b.loop_config() == self.loop_config() && b.model()
                == self.model() && b.observer() == self.observer(),
            exists|d: ToolDefinitionView|
                match #[trigger] insert_outcome(self.registry_view().entries, entry_for(d, false)) {
                    Ok(entries) => r matches Ok(b) && b.registry_view() == (RegistryView {
                        entries,
                        ..self.registry_view()
                    }),
                    Err(e) => r matches Err(x) && x@ == e,
                },
    {
        let mut this = self;
        let ghost before = this.registry@;
        assert(before == self.registry_view());
        let registered = this.registry.register(tool);
        let ghost d = choose|d: ToolDefinitionView|
            match #[trigger] insert_outcome(before.entries, entry_for(d, false)) {
                Ok(entries) => registered is Ok && this.registry@ == RegistryView { entries, ..before },
                Err(err) => registered matches Err(x) && x@ == err && this.registry@ == before,
            };
        match registered {
            Ok(()) => {
                assert(insert_outcome(before.entries, entry_for(d, false)) is Ok);
                Ok(this)
            },
            Err(e) => {
                assert(insert_outcome(before.entries, entry_for(d, false)) is Err);
                Err(e)
            },
        }
    }

    pub fn with_observer<NO>(self, observer: NO) -> (r: AgentLoopBuilder<M, NO>)
        requires
            self.wf(),
        ensures
            r.wf(),
            r.loop_config() == self.loop_config(),
            r.registry_view() == self.registry_view(),
            r.model() == self.model(),
            r.observer() == observer,
    {
        AgentLoopBuilder {
            model: self.model,
            registry: self.registry,
            observer,
            config: self.config,
        }
    }

    pub fn with_config(self, config: LoopConfig) -> (r: Self)
        requires
            self.wf(),
        ensures
            r.wf(),
            r.loop_config() == config,
            r.registry_view() == self.registry_view(),
            r.model() == self.model(),
            r.observer() == self.observer(),
    {
        let mut this = self;
        this.config = config;
        this
    }

    /// The loop; its step limit must be positive.
    pub fn build(self) -> (r: Result<AgentLoop<M, O>, AgentError>)
        requires
            self.wf(),
        ensures
            self.loop_config().max_steps == 0 <==> (r is Err),
            r matches Err(e) ==> e@ == AgentErrorView::InvalidConfig(
                "max_steps must be greater than zero"@,
            ),
            r matches Ok(l) ==> l.wf() && l.loop_config() == self.loop_config()
                && l.registry_view() == self.registry_view() && l.model() == self.model()
                && l.observer() == self.observer() && l.delivered_events().len() == 0
                && l.model_responses().len() == 0 && l.tool_outputs().len() == 0,
    {
        if self.config.max_steps == 0 {
            return Err(AgentError::InvalidConfig("max_steps must be greater than zero"));
        }
        Ok(AgentLoop {
            model: self.model,
            registry: self.registry,
            observer: self.observer,
            config: self.config,
            delivered: Ghost(Seq::empty()),
            responses: Ghost(Seq::empty()),
            tool_outputs: Ghost(Seq::empty()),
        })
    }
}

impl<M: ModelServe> AgentLoop<M> {
    /// A loop with no tools, no observer and the default policy.
    pub fn new(model: M) -> (r: Result<Self, AgentError>)
        ensures
            r matches Ok(l) && l.wf() && l.loop_config().max_steps == 16,
    {
        AgentLoopBuilder::new(model).build()
    }
}

proof fn lemma_call_events_prefix(
    step: nat,
    calls: Seq<ToolCallView>,
    a: Seq<ToolOutputView>,
    b: Seq<ToolOutputView>,
    n: nat,
)
    requires
        forall|k: int| 0 <= k < n ==> a[k] == b[k],
    ensures
        call_events(step, calls, a, n) == call_events(step, calls, b, n),
    decreases n,
{
    if n > 0 {
        lemma_call_events_prefix(step, calls, a, b, (n - 1) as nat);
    }
}

proof fn lemma_split_concat<T>(a: Seq<T>, b: Seq<T>)
    ensures
        (a + b).skip(a.len() as int) == b,
        (a + b).take(a.len() as int) == a,
{
    assert((a + b).skip(a.len() as int) =~= b);
    assert((a + b).take(a.len() as int) =~= a);
}

proof fn lemma_failed_told(
    base: Seq<AgentEventView>,
    told: Seq<AgentEventView>,
    stream: Seq<AgentEventView>,
    extra: Seq<AgentEventView>,
)
    requires
        stream == told + extra,
    ensures
        (base + told).skip(base.len() as int).is_prefix_of(stream),
        (base + told).take(base.len() as int) == base,
{
    lemma_split_concat(base, told);
    lemma_prefix_of_concat(told, extra);
}

proof fn lemma_all_ran_tools_push(rs: Seq<ModelResponseView>, r: ModelResponseView)
    requires
        all_ran_tools(rs),
        r.tool_calls.len() >= 1,
        calls_are_valid(r.tool_calls),
    ensures
        all_ran_tools(rs.push(r)),
        calls_total(rs.push(r)) == calls_total(rs) + r.tool_calls.len(),
{
    assert(rs.push(r).drop_last() =~= rs);
    assert forall|i: int| 0 <= i < rs.push(r).len() implies (#[trigger] rs.push(r)[i]).tool_calls.len()
        >= 1 && calls_are_valid(rs.push(r)[i].tool_calls) by {
        if i < rs.len() {
            assert(rs.push(r)[i] == rs[i]);
        }
    }
}

impl<M, O: Observer> AgentLoop<M, O> {
    /// Hands `event` to the observer; an accepted event is recorded as
    /// delivered.
    fn notify(&mut self, event: AgentEvent) -> (r: Result<(), AgentError>)
        ensures
            final(self).model == old(self).model,
            final(self).registry == old(self).registry,
            final(self).config == old(self).config,
            final(self).responses == old(self).responses,
            final(self).tool_outputs == old(self).tool_outputs,
            r is Ok ==> final(self).delivered@ == old(self).delivered@.push(event@),
            r is Err ==> final(self).delivered == old(self).delivered,
    {
        let ghost v = event@;
        let r = self.observer.on_event(event);
        if r.is_ok() {
            proof {
                self.delivered@ = self.delivered@.push(v);
            }
        }
        r
    }
}

impl<M: ModelServe, O: Observer> AgentLoop<M, O> {
    /// Asks the model; an answer is recorded among the responses.
    fn ask_model(&mut self, request: ModelRequest) -> (r: Result<ModelResponse, AgentError>)
        ensures
            final(self).registry == old(self).registry,
            final(self).config == old(self).config,
            final(self).delivered == old(self).delivered,
            final(self).tool_outputs == old(self).tool_outputs,
            r matches Ok(resp) ==> final(self).responses@ == old(self).responses@.push(resp@),
            r is Err ==> final(self).responses == old(self).responses,
    {
        let r = self.model.complete(request);
        match r {
            Ok(resp) => {
                proof {
                    self.responses@ = self.responses@.push(resp@);
                }
                Ok(resp)
            },
            Err(e) => Err(e),
        }
    }

    /// Runs a tool call through the registry; an output is recorded among
    /// the tool outputs.
    fn run_tool(&mut self, call: &ToolCall) -> (r: Result<ToolOutput, AgentError>)
        requires
            old(self).wf(),
        ensures
            final(self).wf(),
            final(self).config == old(self).config,
            final(self).delivered == old(self).delivered,
            final(self).responses == old(self).responses,
            r matches Ok(o) ==> final(self).tool_outputs@ == old(self).tool_outputs@.push(o@),
            r is Err ==> final(self).tool_outputs == old(self).tool_outputs,
    {
        let r = self.registry.execute(call);
        match r {
            Ok(o) => {
                proof {
                    self.tool_outputs@ = self.tool_outputs@.push(o@);
                }
                Ok(o)
            },
            Err(e) => Err(e),
        }
    }

    /// Runs the loop on `user_input`. Whatever the model and the tools
    /// answer, a successful run is sound: its history is the input followed
    /// by complete rounds with every tool result after its call, in order,
    /// and it took at most `max_steps` steps. Those rounds are exactly the
    /// model's responses of this run and the outputs its tools gave, and the
    /// observer is told of them as they come: the start, each request and
    /// response, each call and its output, and the end. A failed run has
    /// told the observer a prefix of that account, and a response with a
    /// blank call id or name ends it as an invalid action.
    #[verifier::spinoff_prover]
    #[verifier::rlimit(100)]
    pub fn run(&mut self, user_input: &str) -> (r: Result<AgentRun, AgentError>)
        requires
            old(self).wf(),
        ensures
            final(self).wf(),
            final(self).loop_config() == old(self).loop_config(),
            final(self).model_responses().take(old(self).model_responses().len() as int)
                == old(self).model_responses(),
            final(self).tool_outputs().take(old(self).tool_outputs().len() as int)
                == old(self).tool_outputs(),
            final(self).delivered_events().take(old(self).delivered_events().len() as int)
                == old(self).delivered_events(),
            r matches Ok(run) ==> run_is_sound(run@, user_input@, old(self).loop_config().max_steps as nat),
            r matches Ok(run) ==> ({
                let responses = final(self).model_responses().skip(
                    old(self).model_responses().len() as int,
                );
                let outputs = final(self).tool_outputs().skip(old(self).tool_outputs().len() as int);
                let max_steps = old(self).loop_config().max_steps as nat;
                let rounds = match run@.termination {
                    TerminationReason::Completed => trace_rounds(responses.drop_last(), outputs),
                    TerminationReason::MaxStepsReached => trace_rounds(responses, outputs),
                };
                &&& run@.history == seq![MessageView::User { content: user_input@ }] + rounds_history(
                    rounds,
                )
                &&& final(self).delivered_events() == old(self).delivered_events() + run_events(
                    user_input@,
                    rounds,
                    run@,
                    max_steps,
                )
                &&& match run@.termination {
                    TerminationReason::Completed => {
                        &&& responses.len() == run@.steps
                        &&& responses.last().tool_calls.len() == 0
                        &&& run@.output == responses.last().content
                    },
                    TerminationReason::MaxStepsReached => responses.len() == max_steps,
                }
            }),
            r is Err ==> final(self).delivered_events().skip(
                old(self).delivered_events().len() as int,
            ).is_prefix_of(
                failed_run_events(
                    user_input@,
                    final(self).model_responses().skip(old(self).model_responses().len() as int),
                    final(self).tool_outputs().skip(old(self).tool_outputs().len() as int),
                    old(self).loop_config().max_steps as nat,
                ),
            ),
            r matches Err(e) ==> ({
                let responses = final(self).model_responses().skip(
                    old(self).model_responses().len() as int,
                );
                responses.len() > 0 && responses.last().tool_calls.len() > 0 && !calls_are_valid(
                    responses.last().tool_calls,
                ) ==> e@ == AgentErrorView::InvalidAction("tool call id and name must not be empty"@)
            }),
    {
        let ghost base = self.delivered@;
        let ghost r0 = self.responses@;
        let ghost o0 = self.tool_outputs@;
        let ghost mx = self.config.max_steps as nat;
        let ghost started = seq![AgentEventView::Started { user_input: user_input@ }];
        let mut state = LoopState::new(self.config.system_prompt.clone(), user_input, self.config.max_steps);
        let ghost mut rs: Seq<ModelResponseView> = Seq::empty();
        let ghost mut outs: Seq<ToolOutputView> = Seq::empty();
        let ghost mut rounds: Seq<RoundView> = Seq::empty();
        proof {
            lemma_split_concat(r0, rs);
            lemma_split_concat(o0, outs);
            assert(r0 + rs =~= r0);
            assert(o0 + outs =~= o0);
        }
        match self.notify(AgentEvent::Started { user_input: user_input.to_owned() }) {
            Ok(()) => {},
            Err(e) => {
                proof {
                    lemma_failed_told(
                        base,
                        Seq::empty(),
                        failed_run_events(user_input@, rs, outs, mx),
                        failed_run_events(user_input@, rs, outs, mx),
                    );
                    assert(base + Seq::<AgentEventView>::empty() =~= base);
                }
                return Err(e);
            },
        }
        proof {
            assert(state@.history =~= seq![MessageView::User { content: user_input@ }]
                + rounds_history(rounds));
            assert(self.delivered@ =~= base + started + rounds_events(rounds));
        }
        loop
            invariant
                self.wf(),
                self.config == old(self).config,
                mx == self.config.max_steps as nat,
                state@.wf(),
                state@.user_input == user_input@,
                state@.max_steps == self.config.max_steps,
                rounds.len() == state@.step,
                rs.len() == state@.step,
                rounds == trace_rounds(rs, outs),
                all_ran_tools(rs),
                calls_total(rs) == outs.len(),
                state@.history == seq![MessageView::User { content: user_input@ }] + rounds_history(
                    rounds,
                ),
                base == old(self).delivered@,
                r0 == old(self).responses@,
                o0 == old(self).tool_outputs@,
                started == seq![AgentEventView::Started { user_input: user_input@ }],
                self.responses@ == r0 + rs,
                self.tool_outputs@ == o0 + outs,
                self.delivered@ == base + (started + rounds_events(rounds)),
            decreases self.config.max_steps - state@.step,
        {
            proof {
                lemma_split_concat(r0, rs);
                lemma_split_concat(o0, outs);
            }
            let ghost done_events = started + rounds_events(rounds);
            let step = state.step();
            match self.notify(AgentEvent::ModelRequested { step }) {
                Ok(()) => {},
                Err(e) => {
                    proof {
                        lemma_failed_told(
                            base,
                            done_events,
                            failed_run_events(user_input@, rs, outs, mx),
                            seq![AgentEventView::ModelRequested { step: rs.len() }],
                        );
                    }
                    return Err(e);
                },
            }
            let ghost asked = done_events + seq![AgentEventView::ModelRequested { step: step as nat }];
            proof {
                assert(self.delivered@ =~= base + asked);
            }
            let request = state.request(self.registry.listed_tools());
            let response = match self.ask_model(request) {
                Ok(response) => response,
                Err(e) => {
                    proof {
                        lemma_failed_told(
                            base,
                            asked,
                            failed_run_events(user_input@, rs, outs, mx),
                            Seq::empty(),
                        );
                        assert(asked + Seq::<AgentEventView>::empty() =~= asked);
                    }
                    return Err(e);
                },
            };
            let ghost rv = response@;
            let ghost rs_before = rs;
            proof {
                rs = rs.push(rv);
                assert(self.responses@ =~= r0 + rs);
                lemma_split_concat(r0, rs);
                assert(rs.drop_last() =~= rs_before);
                assert(rs.last() == rv);
                assert(outs.take(outs.len() as int) =~= outs);
                assert(outs.skip(outs.len() as int) =~= Seq::<ToolOutputView>::empty());
            }
            let tool_count = response.tool_calls.len();
            let content = response.content.clone();
            match state.take_response(response) {
                ResponseOutcome::Finished(run) => {
                    proof {
                        assert(!all_ran_tools(rs)) by {
                            assert(rs[rs.len() - 1] == rv);
                        }
                        assert(failed_run_events(user_input@, rs, outs, mx) =~= asked + seq![
                            AgentEventView::ModelResponded { step: step as nat, tool_calls: 0 },
                            AgentEventView::Completed { step: step as nat, output: rv.content },
                        ]);
                    }
                    match self.notify(AgentEvent::ModelResponded { step, tool_calls: 0 }) {
                        Ok(()) => {},
                        Err(e) => {
                            proof {
                                lemma_failed_told(
                                    base,
                                    asked,
                                    failed_run_events(user_input@, rs, outs, mx),
                                    seq![
                                        AgentEventView::ModelResponded { step: step as nat, tool_calls: 0 },
                                        AgentEventView::Completed { step: step as nat, output: rv.content },
                                    ],
                                );
                            }
                            return Err(e);
                        },
                    }
                    let ghost responded = asked + seq![
                        AgentEventView::ModelResponded { step: step as nat, tool_calls: 0 },
                    ];
                    proof {
                        assert(self.delivered@ =~= base + responded);
                    }
                    match self.notify(AgentEvent::Completed { step, output: content }) {
                        Ok(()) => {},
                        Err(e) => {
                            proof {
                                assert(failed_run_events(user_input@, rs, outs, mx) =~= responded
                                    + seq![AgentEventView::Completed { step: step as nat, output: rv.content }]);
                                lemma_failed_told(
                                    base,
                                    responded,
                                    failed_run_events(user_input@, rs, outs, mx),
                                    seq![AgentEventView::Completed { step: step as nat, output: rv.content }],
                                );
                            }
                            return Err(e);
                        },
                    }
                    proof {
                        assert(trace_rounds(rs.drop_last(), outs) == rounds);
                        assert(self.delivered@ =~= base + run_events(
                            user_input@,
                            rounds,
                            run@,
                            self.config.max_steps as nat,
                        ));
                        lemma_split_concat(base, run_events(user_input@, rounds, run@, mx));
                    }
                    return Ok(run);
                },
                ResponseOutcome::Failed(e) => {
                    proof {
                        assert(!all_ran_tools(rs)) by {
                            assert(rs[rs.len() - 1] == rv);
                        }
                        assert(failed_run_events(user_input@, rs, outs, mx) =~= asked);
                        lemma_failed_told(
                            base,
                            asked,
                            failed_run_events(user_input@, rs, outs, mx),
                            Seq::empty(),
                        );
                        assert(asked + Seq::<AgentEventView>::empty() =~= asked);
                    }
                    return Err(e);
                },
                ResponseOutcome::RunTools(calls) => {
                    let ghost cv = calls.deep_view();
                    proof {
                        assert(rv.tool_calls == cv);
                        lemma_all_ran_tools_push(rs_before, rv);
                        assert(call_events(step as nat, cv, Seq::empty(), 0) =~= Seq::<AgentEventView>::empty());
                        assert(failed_run_events(user_input@, rs, outs, mx) =~= asked + (seq![
                            AgentEventView::ModelResponded { step: step as nat, tool_calls: cv.len() },
                        ] + seq![AgentEventView::ToolStarted { step: step as nat, call: cv[0] }]));
                    }
                    match self.notify(AgentEvent::ModelResponded { step, tool_calls: tool_count }) {
                        Ok(()) => {},
                        Err(e) => {
                            proof {
                                lemma_failed_told(
                                    base,
                                    asked,
                                    failed_run_events(user_input@, rs, outs, mx),
                                    seq![
                                        AgentEventView::ModelResponded { step: step as nat, tool_calls: cv.len() },
                                    ] + seq![AgentEventView::ToolStarted { step: step as nat, call: cv[0] }],
                                );
                            }
                            return Err(e);
                        },
                    }
                    let ghost mid = asked + seq![
                        AgentEventView::ModelResponded { step: step as nat, tool_calls: cv.len() },
                    ];
                    proof {
                        assert(self.delivered@ =~= base + mid);
                    }
                    let ghost st = state@;
                    let ghost mid_outs = self.tool_outputs@;
                    proof {
                        assert(self.tool_outputs@ =~= mid_outs + Seq::<ToolOutput>::empty().map_values(
                            |o: ToolOutput| o@,
                        ));
                        assert(call_events(step as nat, cv, Seq::<ToolOutputView>::empty(), 0)
                            =~= Seq::<AgentEventView>::empty());
                        assert(mid + Seq::<AgentEventView>::empty() =~= mid);
                    }
                    let mut outputs: Vec<ToolOutput> = Vec::new();
                    let mut i: usize = 0;
                    while i < calls.len()
                        invariant
                            self.wf(),
                            self.config == old(self).config,
                            mx == self.config.max_steps as nat,
                            i <= calls@.len(),
                            outputs@.len() == i,
                            cv == calls.deep_view(),
                            cv.len() >= 1,
                            calls_are_valid(cv),
                            rv.tool_calls == cv,
                            state@ == st,
                            self.responses@ == r0 + rs,
                            mid_outs == o0 + outs,
                            r0 == old(self).responses@,
                            o0 == old(self).tool_outputs@,
                            base == old(self).delivered@,
                            rs == rs_before.push(rv),
                            all_ran_tools(rs),
                            calls_total(rs) == outs.len() + cv.len(),
                            rounds == trace_rounds(rs_before, outs),
                            rs.len() <= mx,
                            step == rs_before.len(),
                            rounds.len() == step,
                            mid == started + rounds_events(rounds) + seq![
                                AgentEventView::ModelRequested { step: step as nat },
                                AgentEventView::ModelResponded { step: step as nat, tool_calls: cv.len() },
                            ],
                            started == seq![AgentEventView::Started { user_input: user_input@ }],
                            self.tool_outputs@ == mid_outs + outputs@.map_values(|o: ToolOutput| o@),
                            self.delivered@ == base + (mid + call_events(
                                step as nat,
                                cv,
                                outputs@.map_values(|o: ToolOutput| o@),
                                i as nat,
                            )),
                        decreases calls@.len() - i,
                    {
                        let call = &calls[i];
                        let ghost outs_i = outputs@.map_values(|o: ToolOutput| o@);
                        let ghost told_i = mid + call_events(step as nat, cv, outs_i, i as nat);
                        let ghost all_i = outs + outs_i;
                        proof {
                            lemma_split_concat(r0, rs);
                            assert(self.tool_outputs@ =~= o0 + all_i);
                            lemma_split_concat(o0, all_i);
                            assert(all_i.len() == outs.len() + i);
                            assert(all_i.take(outs.len() as int) =~= outs);
                            assert(all_i.skip(outs.len() as int) =~= outs_i);
                            assert(rs.drop_last() =~= rs_before);
                            assert(rs.last() == rv);
                            assert(calls_total(rs_before) == outs.len());
                            assert(failed_run_events(user_input@, rs, all_i, mx) =~= told_i + seq![
                                AgentEventView::ToolStarted { step: step as nat, call: cv[i as int] },
                            ]);
                        }
                        match self.notify(AgentEvent::ToolStarted { step, call: call.duplicate() }) {
                            Ok(()) => {},
                            Err(e) => {
                                proof {
                                    lemma_failed_told(
                                        base,
                                        told_i,
                                        failed_run_events(user_input@, rs, all_i, mx),
                                        seq![AgentEventView::ToolStarted { step: step as nat, call: cv[i as int] }],
                                    );
                                }
                                return Err(e);
                            },
                        }
                        let ghost told_s = told_i + seq![
                            AgentEventView::ToolStarted { step: step as nat, call: cv[i as int] },
                        ];
                        proof {
                            assert(cv[i as int] == call@);
                            assert(self.delivered@ =~= base + told_s);
                        }
                        let output = match self.run_tool(call) {
                            Ok(o) => o,
                            Err(e) => {
                                proof {
                                    lemma_failed_told(
                                        base,
                                        told_s,
                                        failed_run_events(user_input@, rs, all_i, mx),
                                        Seq::empty(),
                                    );
                                    assert(told_s + Seq::<AgentEventView>::empty() =~= told_s);
                                }
                                return Err(e);
                            },
                        };
                        let ghost ov = output@;
                        let ghost outs2 = outs_i.push(ov);
                        let ghost all2 = outs + outs2;
                        proof {
                            assert(self.tool_outputs@ =~= o0 + all2);
                            lemma_split_concat(o0, all2);
                            assert forall|k: int| 0 <= k < i implies outs_i[k] == outs2[k] by {}
                            lemma_call_events_prefix(step as nat, cv, outs_i, outs2, i as nat);
                            let tc = seq![
                                AgentEventView::ToolCompleted { step: step as nat, call: cv[i as int], output: ov },
                            ];
                            assert(call_events(step as nat, cv, outs2, (i + 1) as nat) =~= call_events(
                                step as nat,
                                cv,
                                outs_i,
                                i as nat,
                            ) + seq![
                                AgentEventView::ToolStarted { step: step as nat, call: cv[i as int] },
                            ] + tc);
                            if i + 1 < cv.len() {
                                assert(all2.take(outs.len() as int) =~= outs);
                                assert(all2.skip(outs.len() as int) =~= outs2);
                                assert(failed_run_events(user_input@, rs, all2, mx) =~= told_s + (tc
                                    + seq![AgentEventView::ToolStarted { step: step as nat, call: cv[i + 1] }]));
                                lemma_failed_told(
                                    base,
                                    told_s,
                                    failed_run_events(user_input@, rs, all2, mx),
                                    tc + seq![AgentEventView::ToolStarted { step: step as nat, call: cv[i + 1] }],
                                );
                            } else {
                                let k = all2.len() - rv.tool_calls.len();
                                assert(k == outs.len());
                                assert(all2.take(k) =~= outs);
                                assert(all2.skip(k) =~= outs2);
                                let nr = RoundView { content: rv.content, calls: cv, outputs: outs2 };
                                assert(trace_rounds(rs, all2) == trace_rounds(rs_before, outs).push(nr));
                                assert(trace_rounds(rs, all2).drop_last() =~= rounds);
                                assert(rounds_events(trace_rounds(rs, all2)) == rounds_events(rounds)
                                    + round_events(step as nat, nr));
                                let tail = if rs.len() >= mx {
                                    seq![AgentEventView::MaxStepsReached { max_steps: mx }]
                                } else {
                                    seq![AgentEventView::ModelRequested { step: rs.len() }]
                                };
                                assert(failed_run_events(user_input@, rs, all2, mx) =~= told_s + (tc
                                    + tail));
                                lemma_failed_told(
                                    base,
                                    told_s,
                                    failed_run_events(user_input@, rs, all2, mx),
                                    tc + tail,
                                );
                            }
                        }
                        match self.notify(
                            AgentEvent::ToolCompleted {
                                step,
                                call: call.duplicate(),
                                output: ToolOutput {
                                    content: output.content.clone(),
                                    is_error: output.is_error,
                                },
                            },
                        ) {
                            Ok(()) => {},
                            Err(e) => {
                                return Err(e);
                            },
                        }
                        outputs.push(output);
                        proof {
                            let o2 = outputs@.map_values(|o: ToolOutput| o@);
                            assert(o2 =~= outs2);
                            assert(self.tool_outputs@ =~= mid_outs + o2);
                            assert(self.delivered@ =~= base + (mid + call_events(
                                step as nat,
                                cv,
                                o2,
                                (i + 1) as nat,
                            )));
                        }
                        i = i + 1;
                    }
                    let ghost ovs = outputs@.map_values(|o: ToolOutput| o@);
                    let ghost new_round = RoundView {
                        content: state@.pending_content,
                        calls: cv,
                        outputs: ovs,
                    };
                    let ghost next_rounds = rounds.push(new_round);
                    let ghost next_outs = outs + ovs;
                    proof {
                        assert(next_rounds.drop_last() =~= rounds);
                        assert(rounds_history(next_rounds) == rounds_history(rounds) + round_messages(
                            new_round.content,
                            new_round.calls,
                            new_round.outputs,
                        ));
                        assert(rounds_events(next_rounds) == rounds_events(rounds) + round_events(
                            step as nat,
                            new_round,
                        ));
                        assert(self.delivered@ =~= base + (started + rounds_events(next_rounds)));
                        assert(rv.content == state@.pending_content);
                        let k = next_outs.len() - rv.tool_calls.len();
                        assert(k == outs.len());
                        assert(next_outs.take(k) =~= outs);
                        assert(next_outs.skip(k) =~= ovs);
                        assert(rs.last() == rv);
                        assert(rs.drop_last() =~= rs_before);
                        assert(trace_rounds(rs, next_outs) == trace_rounds(rs.drop_last(), outs).push(
                            new_round,
                        ));
                        assert(self.tool_outputs@ =~= o0 + next_outs);
                    }
                    let ghost round_msgs = round_messages(
                        new_round.content,
                        new_round.calls,
                        new_round.outputs,
                    );
                    proof {
                        assert(state@.pending_calls == cv);
                        assert(seq![MessageView::User { content: user_input@ }] + rounds_history(
                            next_rounds,
                        ) =~= state@.history + round_msgs);
                    }
                    let finished = state.complete_round(outputs);
                    proof {
                        rounds = next_rounds;
                        outs = next_outs;
                        lemma_split_concat(o0, outs);
                        lemma_split_concat(r0, rs);
                    }
                    match finished {
                        Some(run) => {
                            proof {
                                assert(rs.len() == mx);
                                assert(failed_run_events(user_input@, rs, outs, mx) =~= (started
                                    + rounds_events(rounds)) + seq![
                                    AgentEventView::MaxStepsReached { max_steps: mx },
                                ]);
                            }
                            match self.notify(
                                AgentEvent::MaxStepsReached { max_steps: self.config.max_steps },
                            ) {
                                Ok(()) => {},
                                Err(e) => {
                                    proof {
                                        lemma_failed_told(
                                            base,
                                            started + rounds_events(rounds),
                                            failed_run_events(user_input@, rs, outs, mx),
                                            seq![AgentEventView::MaxStepsReached { max_steps: mx }],
                                        );
                                    }
                                    return Err(e);
                                },
                            }
                            proof {
                                assert(run@.history.skip(1) =~= rounds_history(rounds));
                                assert(self.delivered@ =~= base + run_events(
                                    user_input@,
                                    rounds,
                                    run@,
                                    self.config.max_steps as nat,
                                ));
                                lemma_split_concat(base, run_events(user_input@, rounds, run@, mx));
                            }
                            return Ok(run);
                        },
                        None => {},
                    }
                },
            }
        }
    }
}

} // verus!
