//! Scheduling of the tool calls of one model step.
//!
//! All calls of a step run concurrently, at most `max_concurrent_tools` at a
//! time, and are started in the order the model returned them. A call whose
//! failure is transient is retried, up to `max_tool_retries` times, after an
//! exponentially growing back-off. The results come back in call order.
//!
//! The scheduler only decides; the caller starts the calls it names, waits
//! for one of them to finish and reports the result back.
use vstd::prelude::*;
use vstd::arithmetic::power2::pow2;

use crate::error::{AgentError, AgentErrorView};
use crate::mcp::ToolExecutionError;
use crate::text::{decimal_view, push_decimal};
use crate::types::{ToolOutput, ToolOutputView};

verus! {

pub open spec fn result_view(r: Result<ToolOutput, AgentError>) -> Result<
    ToolOutputView,
    AgentErrorView,
> {
    match r {
        Ok(o) => Ok(o@),
        Err(e) => Err(e@),
    }
}

/// The factor by which the back-off grows before retry number `attempt + 1`:
/// `2^attempt`, or `u32::MAX` once the shift would leave a `u32` (the attempt
/// count taken modulo `2^32`).
pub open spec fn backoff_multiplier(attempt: nat) -> nat {
    let t = attempt % 0x1_0000_0000;
    if t < 32 {
        pow2(t)
    } else {
        u32::MAX as nat
    }
}

/// The number of results recorded among the first `k` calls.
pub open spec fn recorded_before(results: Seq<Option<Result<ToolOutputView, AgentErrorView>>>, k: int) -> nat
    decreases k,
{
    if k <= 0 {
        0
    } else {
        recorded_before(results, k - 1) + (if results[k - 1] is Some {
            1nat
        } else {
            0nat
        })
    }
}

pub struct SchedulerView {
    pub retryable: Seq<bool>,
    pub attempts: Seq<nat>,
    pub results: Seq<Option<Result<ToolOutputView, AgentErrorView>>>,
    pub next_to_start: nat,
    pub completed: nat,
    pub in_flight: nat,
    pub max_concurrent_tools: nat,
    pub max_tool_retries: nat,
}

impl SchedulerView {
    pub open spec fn count(self) -> nat {
        self.retryable.len()
    }

    /// Scheduler validity. Every started call is either running or has its
    /// result recorded; never more than `max_concurrent_tools` run at once;
    /// no call is retried more than `max_tool_retries` times.
    pub open spec fn wf(self) -> bool {
        &&& self.attempts.len() == self.count()
        &&& self.results.len() == self.count()
        &&& self.max_concurrent_tools > 0
        &&& self.completed <= self.next_to_start <= self.count()
        &&& self.in_flight == self.next_to_start - self.completed
        &&& self.in_flight <= self.max_concurrent_tools
        &&& self.completed == recorded_before(self.results, self.count() as int)
        &&& forall|i: int|
            0 <= i < self.count() ==> (#[trigger] self.results[i] is Some ==> i
                < self.next_to_start)
        &&& forall|i: int|
            0 <= i < self.count() ==> #[trigger] self.attempts[i] <= self.max_tool_retries
    }

    /// Whether call `i` was started and its result is still awaited.
    pub open spec fn pending(self, i: int) -> bool {
        0 <= i < self.next_to_start && self.results[i] is None
    }

    pub open spec fn is_complete(self) -> bool {
        self.completed == self.count()
    }
}

/// What to do with a call that just finished.
pub enum TaskDecision {
    /// Wait the back-off times `multiplier`, then start the call again.
    Retry { index: usize, multiplier: u32 },
    /// The result was recorded.
    Recorded,
}

pub struct ToolScheduler {
    retryable: Vec<bool>,
    attempts: Vec<usize>,
    results: Vec<Option<Result<ToolOutput, AgentError>>>,
    next_to_start: usize,
    completed: usize,
    in_flight: usize,
    max_concurrent_tools: usize,
    max_tool_retries: usize,
}

impl View for ToolScheduler {
    type V = SchedulerView;

    closed spec fn view(&self) -> SchedulerView {
        SchedulerView {
            retryable: self.retryable@,
            attempts: self.attempts@.map_values(|a: usize| a as nat),
            results: self.results@.map_values(
                |r: Option<Result<ToolOutput, AgentError>>| match r {
                    Some(x) => Some(result_view(x)),
                    None => None,
                },
            ),
            next_to_start: self.next_to_start as nat,
            completed: self.completed as nat,
            in_flight: self.in_flight as nat,
            max_concurrent_tools: self.max_concurrent_tools as nat,
            max_tool_retries: self.max_tool_retries as nat,
        }
    }
}

proof fn lemma_recorded_before_set(a: SchedulerView, b: SchedulerView, idx: int, k: int)
    requires
        0 <= idx < a.results.len(),
        0 <= k <= a.results.len(),
        a.results.len() == b.results.len(),
        a.results[idx] is None,
        b.results[idx] is Some,
        forall|i: int|
            0 <= i < a.results.len() && i != idx ==> (#[trigger] a.results[i] is Some) == (
            b.results[i] is Some),
    ensures
        recorded_before(b.results, k) == recorded_before(a.results, k) + (if idx < k {
            1nat
        } else {
            0nat
        }),
    decreases k,
{
    if k > 0 {
        lemma_recorded_before_set(a, b, idx, k - 1);
    }
}

proof fn lemma_recorded_before_bound(a: SchedulerView, k: int)
    requires
        0 <= k <= a.results.len(),
    ensures
        recorded_before(a.results, k) <= k,
    decreases k,
{
    if k > 0 {
        lemma_recorded_before_bound(a, k - 1);
    }
}

/// When all of the first `k` calls count as recorded, each of them has its
/// result.
proof fn lemma_all_recorded(a: SchedulerView, k: int)
    requires
        0 <= k <= a.results.len(),
        recorded_before(a.results, k) == k,
    ensures
        forall|i: int| 0 <= i < k ==> #[trigger] a.results[i] is Some,
    decreases k,
{
    if k > 0 {
        lemma_recorded_before_bound(a, k - 1);
        lemma_all_recorded(a, k - 1);
    }
}

/// The attempts that call `i` may still make: none once its result is
/// recorded, otherwise the first try or retry in flight plus the retries
/// left.
pub open spec fn attempts_left(v: SchedulerView, i: int) -> nat {
    if v.results[i] is Some {
        0
    } else {
        (v.max_tool_retries + 1 - v.attempts[i]) as nat
    }
}

/// The attempts that the first `k` calls may still make.
pub open spec fn work_left_before(v: SchedulerView, k: int) -> nat
    decreases k,
{
    if k <= 0 {
        0
    } else {
        work_left_before(v, k - 1) + attempts_left(v, k - 1)
    }
}

/// The attempts that the calls of the step may still make.
pub open spec fn work_left(v: SchedulerView) -> nat {
    work_left_before(v, v.count() as int)
}

proof fn lemma_work_left_update(a: SchedulerView, b: SchedulerView, idx: int, k: int)
    requires
        0 <= idx < a.count(),
        0 <= k <= a.count(),
        b.count() == a.count(),
        b.max_tool_retries == a.max_tool_retries,
        attempts_left(b, idx) < attempts_left(a, idx),
        forall|i: int| 0 <= i < a.count() && i != idx ==> attempts_left(b, i) == attempts_left(a, i),
    ensures
        idx < k ==> work_left_before(b, k) < work_left_before(a, k),
        k <= idx ==> work_left_before(b, k) == work_left_before(a, k),
    decreases k,
{
    if k > 0 {
        lemma_work_left_update(a, b, idx, k - 1);
    }
}

/// Every finished attempt uses up work: a retry spends one of the call's
/// retries and a recorded result ends the call. As the work left is a
/// natural number, only finitely many attempts finish before every call of
/// the step has its result.
pub proof fn law_finish_uses_up_work(
    a: SchedulerView,
    index: int,
    result: Result<ToolOutputView, AgentErrorView>,
)
    requires
        a.wf(),
        a.pending(index),
    ensures
        a.attempts[index] < a.max_tool_retries ==> work_left(
            SchedulerView { attempts: a.attempts.update(index, a.attempts[index] + 1), ..a },
        ) < work_left(a),
        work_left(
            SchedulerView {
                results: a.results.update(index, Some(result)),
                completed: a.completed + 1,
                in_flight: (a.in_flight - 1) as nat,
                ..a
            },
        ) < work_left(a),
{
    let n = a.count() as int;
    if a.attempts[index] < a.max_tool_retries {
        let b = SchedulerView { attempts: a.attempts.update(index, a.attempts[index] + 1), ..a };
        assert forall|i: int| 0 <= i < n && i != index implies attempts_left(b, i) == attempts_left(
            a,
            i,
        ) by {
            assert(b.attempts[i] == a.attempts[i]);
        }
        lemma_work_left_update(a, b, index, n);
    }
    let c = SchedulerView {
        results: a.results.update(index, Some(result)),
        completed: a.completed + 1,
        in_flight: (a.in_flight - 1) as nat,
        ..a
    };
    assert forall|i: int| 0 <= i < n && i != index implies attempts_left(c, i) == attempts_left(
        a,
        i,
    ) by {
        assert(c.results[i] == a.results[i]);
    }
    lemma_work_left_update(a, c, index, n);
}

impl ToolScheduler {
    /// A scheduler for calls whose tools are retryable as `retryable` says.
    pub fn new(retryable: Vec<bool>, max_concurrent_tools: usize, max_tool_retries: usize) -> (r:
        Self)
        requires
            max_concurrent_tools > 0,
        ensures
            r@.wf(),
            r@.retryable == retryable@,
            r@.next_to_start == 0,
            r@.in_flight == 0,
            r@.completed == 0,
            r@.max_concurrent_tools == max_concurrent_tools,
            r@.max_tool_retries == max_tool_retries,
            forall|i: int| 0 <= i < r@.count() ==> #[trigger] r@.attempts[i] == 0,
            forall|i: int| 0 <= i < r@.count() ==> #[trigger] r@.results[i] is None,
    {
        let n = retryable.len();
        let mut attempts: Vec<usize> = Vec::new();
        let mut results: Vec<Option<Result<ToolOutput, AgentError>>> = Vec::new();
        let mut i: usize = 0;
        while i < n
            invariant
                i <= n,
                attempts@.len() == i,
                results@.len() == i,
                forall|k: int| 0 <= k < i ==> #[trigger] attempts@[k] == 0,
                forall|k: int| 0 <= k < i ==> #[trigger] results@[k] is None,
            decreases n - i,
        {
            attempts.push(0);
            results.push(None);
            i = i + 1;
        }
        let r = ToolScheduler {
            retryable,
            attempts,
            results,
            next_to_start: 0,
            completed: 0,
            in_flight: 0,
            max_concurrent_tools,
            max_tool_retries,
        };
        proof {
            lemma_zero_recorded(r@, n as int);
        }
        r
    }

    /// Whether call `index` was started and its result is still awaited.
    pub fn is_pending(&self, index: usize) -> (r: bool)
        requires
            self@.wf(),
        ensures
            r == self@.pending(index as int),
    {
        if index < self.next_to_start {
            assert(self@.results[index as int] is None <==> self.results@[index as int] is None);
            self.results[index].is_none()
        } else {
            false
        }
    }

    pub fn is_complete(&self) -> (r: bool)
        requires
            self@.wf(),
        ensures
            r == self@.is_complete(),
    {
        self.completed == self.retryable.len()
    }

    /// The number of calls running now.
    pub fn in_flight(&self) -> (r: usize)
        ensures
            r == self@.in_flight,
    {
        self.in_flight
    }

    /// Starts as many not yet started calls, in order, as the concurrency
    /// limit allows, and returns their positions.
    pub fn start_ready(&mut self) -> (started: Vec<usize>)
        requires
            old(self)@.wf(),
        ensures
            final(self)@.wf(),
            ({
                let o = old(self)@;
                let room = (o.max_concurrent_tools - o.in_flight) as nat;
                let last = if o.next_to_start + room <= o.count() {
                    o.next_to_start + room
                } else {
                    o.count()
                };
                &&& final(self)@ == (SchedulerView {
                    next_to_start: last,
                    in_flight: (o.in_flight + (last - o.next_to_start)) as nat,
                    ..o
                })
                &&& started@.len() == last - o.next_to_start
                &&& forall|k: int|
                    0 <= k < started@.len() ==> #[trigger] started@[k] == o.next_to_start + k
            }),
            final(self)@.in_flight == final(self)@.max_concurrent_tools || final(self)@.next_to_start
                == final(self)@.count(),
            !final(self)@.is_complete() ==> final(self)@.in_flight > 0,
    {
        let mut started: Vec<usize> = Vec::new();
        let ghost o = self@;
        while self.in_flight < self.max_concurrent_tools && self.next_to_start < self.retryable.len()
            invariant
                self@.wf(),
                self@ == (SchedulerView {
                    next_to_start: self@.next_to_start,
                    in_flight: self@.in_flight,
                    ..o
                }),
                self@.in_flight == o.in_flight + (self@.next_to_start - o.next_to_start),
                o.next_to_start <= self@.next_to_start,
                started@.len() == self@.next_to_start - o.next_to_start,
                forall|k: int|
                    0 <= k < started@.len() ==> #[trigger] started@[k] == o.next_to_start + k,
            decreases self.retryable@.len() - self.next_to_start,
        {
            started.push(self.next_to_start);
            self.next_to_start = self.next_to_start + 1;
            self.in_flight = self.in_flight + 1;
        }
        started
    }

    /// Handles the end of call `index` with `result`: a transient failure of
    /// a retryable tool with retries left is retried; anything else is
    /// recorded.
    pub fn finish(&mut self, index: usize, result: Result<ToolOutput, AgentError>) -> (decision:
        TaskDecision)
        requires
            old(self)@.wf(),
            old(self)@.pending(index as int),
        ensures
            final(self)@.wf(),
            ({
                let o = old(self)@;
                let retry = o.attempts[index as int] < o.max_tool_retries && o.retryable[index as int]
                    && (result matches Err(e) && e@.retryable());
                if retry {
                    &&& decision == (TaskDecision::Retry {
                        index,
                        multiplier: backoff_multiplier(o.attempts[index as int]) as u32,
                    })
                    &&& final(self)@ == (SchedulerView {
                        attempts: o.attempts.update(index as int, o.attempts[index as int] + 1),
                        ..o
                    })
                } else {
                    &&& decision is Recorded
                    &&& final(self)@ == (SchedulerView {
                        results: o.results.update(index as int, Some(result_view(result))),
                        completed: o.completed + 1,
                        in_flight: (o.in_flight - 1) as nat,
                        ..o
                    })
                }
            }),
    {
        let ghost o = self@;
        let attempt = self.attempts[index];
        let transient = match &result {
            Err(e) => e.is_retryable(),
            Ok(_) => false,
        };
        if attempt < self.max_tool_retries && self.retryable[index] && transient {
            let multiplier = compute_multiplier(attempt);
            self.attempts.set(index, attempt + 1);
            proof {
                assert(self@.attempts =~= o.attempts.update(index as int, o.attempts[index as int] + 1));
                assert(self@ == (SchedulerView {
                    attempts: o.attempts.update(index as int, o.attempts[index as int] + 1),
                    ..o
                }));
            }
            return TaskDecision::Retry { index, multiplier };
        }
        proof {
            lemma_recorded_before_strict(o, index as int, o.next_to_start as int);
            lemma_recorded_before_tail(o, o.next_to_start as int, o.count() as int);
            assert(o.results[index as int] is None);
        }
        self.results.set(index, Some(result));
        self.completed = self.completed + 1;
        self.in_flight = self.in_flight - 1;
        proof {
            assert(self@.results =~= o.results.update(index as int, Some(result_view(result))));
            lemma_recorded_before_set(o, self@, index as int, o.count() as int);
            lemma_recorded_before_bound(o, o.count() as int);
        }
        TaskDecision::Recorded
    }

    /// The recorded results, in call order.
    pub fn into_results(self) -> (r: Vec<Result<ToolOutput, AgentError>>)
        requires
            self@.wf(),
            self@.is_complete(),
        ensures
            r@.len() == self@.count(),
            forall|i: int|
                0 <= i < r@.len() ==> Some(result_view(#[trigger] r@[i])) == self@.results[i],
    {
        let ghost v = self@;
        proof {
            lemma_all_recorded(v, v.count() as int);
        }
        let mut rest = self.results;
        let n = rest.len();
        proof {
            assert forall|k: int| 0 <= k < rest@.len() implies #[trigger] rest@[k] is Some && Some(
                result_view(rest@[k]->Some_0),
            ) == v.results[k] by {
                assert(v.results[k] is Some);
            }
        }
        let mut out: Vec<Result<ToolOutput, AgentError>> = Vec::new();
        let mut i: usize = 0;
        while i < n
            invariant
                n == v.count(),
                i <= n,
                rest@.len() == n - i,
                out@.len() == i,
                forall|k: int| 0 <= k < rest@.len() ==> #[trigger] rest@[k] is Some,
                forall|k: int|
                    0 <= k < rest@.len() ==> Some(result_view(rest@[k]->Some_0)) == v.results[i
                        + k],
                forall|k: int| 0 <= k < i ==> Some(result_view(#[trigger] out@[k])) == v.results[k],
                forall|k: int| 0 <= k < n ==> #[trigger] v.results[k] is Some,
            decreases n - i,
        {
            proof {
                assert(rest@[0] is Some);
            }
            let item = rest.remove(0);
            let value = match item {
                Some(x) => x,
                None => Err(AgentError::Model("tool result missing".to_owned())),
            };
            out.push(value);
            i = i + 1;
        }
        out
    }
}

proof fn lemma_recorded_before_strict(a: SchedulerView, idx: int, k: int)
    requires
        0 <= idx < k <= a.results.len(),
        a.results[idx] is None,
    ensures
        recorded_before(a.results, k) + 1 <= k,
    decreases k,
{
    lemma_recorded_before_bound(a, k - 1);
    if idx < k - 1 {
        lemma_recorded_before_strict(a, idx, k - 1);
    }
}

proof fn lemma_recorded_before_tail(a: SchedulerView, m: int, k: int)
    requires
        0 <= m <= k <= a.results.len(),
        forall|i: int| m <= i < a.results.len() ==> #[trigger] a.results[i] is None,
    ensures
        recorded_before(a.results, k) == recorded_before(a.results, m),
    decreases k,
{
    if k > m {
        lemma_recorded_before_tail(a, m, k - 1);
    }
}

proof fn lemma_zero_recorded(a: SchedulerView, k: int)
    requires
        0 <= k <= a.results.len(),
        forall|i: int| 0 <= i < a.results.len() ==> #[trigger] a.results[i] is None,
    ensures
        recorded_before(a.results, k) == 0,
    decreases k,
{
    if k > 0 {
        lemma_zero_recorded(a, k - 1);
    }
}

fn compute_multiplier(attempt: usize) -> (r: u32)
    ensures
        r == backoff_multiplier(attempt as nat),
{
    let t: u64 = (attempt as u64) % 0x1_0000_0000u64;
    if t >= 32 {
        return u32::MAX;
    }
    let mut m: u32 = 1;
    let mut k: u64 = 0;
    proof {
        vstd::arithmetic::power2::lemma2_to64();
    }
    while k < t
        invariant
            k <= t < 32,
            m == pow2(k as nat),
        decreases t - k,
    {
        proof {
            vstd::arithmetic::power2::lemma_pow2_unfold((k + 1) as nat);
            vstd::arithmetic::power2::lemma_pow2_strictly_increases(k as nat, 31);
            vstd::arithmetic::power2::lemma2_to64();
        }
        m = m * 2;
        k = k + 1;
    }
    m
}

/// The error of a tool call that did not finish within `timeout_millis`.
pub fn tool_timeout_error(name: &str, timeout_millis: u128) -> (r: AgentError)
    ensures
        r@ == (AgentErrorView::ToolExecution {
            name: name@,
            error: ToolExecutionError::Timeout,
            message: "timed out after "@ + decimal_view(timeout_millis as nat) + " ms"@,
        }),
{
    let mut message = String::new();
    message.append("timed out after ");
    push_decimal(&mut message, timeout_millis, 0);
    message.append(" ms");
    proof {
        assert(message@ =~= "timed out after "@ + decimal_view(timeout_millis as nat) + " ms"@);
    }
    AgentError::ToolExecution { name: name.to_owned(), error: ToolExecutionError::Timeout, message }
}

} // verus!
