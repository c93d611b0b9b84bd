//! All-or-nothing evaluation: the first test case that is not accepted decides.

use vstd::prelude::*;

use crate::judging::{
    fill_outcome, fill_up, outcome_known, to_outcome, EvalOutcome, OnSubmissionOutput,
    TestCaseRow, TestCaseVerdict,
};
use crate::text::concat;
use crate::verdict::Verdict;
use crate::judging;

verus! {

/// What waiting for the next result brought.
pub enum PollEvent<S> {
    Result(TestCaseVerdict<S>),
    Timeout,
    Failed,
}

/// What is to be done after an event: the outcomes from `recorded_from` on are
/// new; the rest of the batch may have to be cancelled.
#[derive(Debug, Clone, Copy, PartialEq, Eq, Structural)]
pub struct EvalStep {
    pub recorded_from: usize,
    pub cancel_all: bool,
    pub finished: bool,
}

/// The evaluation of a submission, result by result.
pub struct ShortCircuitEval<S> {
    pub ids: Vec<i32>,
    pub zero: S,
    pub outcomes: Vec<EvalOutcome<S>>,
    pub collected: usize,
    pub compile_failed: bool,
    pub short_circuited: bool,
    pub running: bool,
    pub finished: bool,
}

/// The result of the evaluation.
pub struct EvalResult<S> {
    pub outcomes: Vec<EvalOutcome<S>>,
    pub is_compile_error: bool,
    /// Whether every test case was evaluated and accepted.
    pub is_accepted: bool,
}

/// All outcomes are accepted.
pub open spec fn all_accepted<S>(outcomes: Seq<EvalOutcome<S>>) -> bool {
    forall|i: int| 0 <= i < outcomes.len() ==> (#[trigger] outcomes[i]).verdict is Accepted
}

/// A result that says again that a recorded case was not judged.
pub open spec fn late<S>(outcomes: Seq<EvalOutcome<S>>, v: TestCaseVerdict<S>) -> bool {
    v.verdict.not_judged() && judging::has_outcome(outcomes, v.test_case_id)
}

impl<S> ShortCircuitEval<S> {
    pub open spec fn wf(self) -> bool {
        &&& self.finished || (self.collected < self.ids@.len() && !self.compile_failed
            && !self.short_circuited && all_accepted(self.outcomes@))
        &&& self.collected <= self.ids@.len()
        &&& (self.compile_failed ==> self.short_circuited)
        &&& (!self.short_circuited ==> all_accepted(self.outcomes@))
    }

    /// The same evaluation with these outcomes and flags.
    pub open spec fn progressed(
        self,
        before: Self,
        collected: int,
        compile_failed: bool,
        short_circuited: bool,
        finished: bool,
    ) -> bool {
        &&& self.ids == before.ids
        &&& self.zero == before.zero
        &&& self.running == before.running
        &&& self.collected == collected
        &&& self.compile_failed == compile_failed
        &&& self.short_circuited == short_circuited
        &&& self.finished == finished
    }

    /// Whether the submission is to be marked as running before this event is
    /// taken in: at the first result that shows it compiled.
    pub open spec fn needs_running(self, event: PollEvent<S>) -> bool {
        !self.running && (event matches PollEvent::Result(v) && !(v.verdict is CompileError)
            && !late(self.outcomes@, v))
    }
}

/// What one event does to an evaluation.
pub open spec fn step_is<S>(
    before: ShortCircuitEval<S>,
    after: ShortCircuitEval<S>,
    event: PollEvent<S>,
    step: EvalStep,
) -> bool {
    let n = before.outcomes@.len();
    &&& step.recorded_from == n
    &&& step.finished == after.finished
    &&& match event {
        PollEvent::Result(v) => if late(before.outcomes@, v) {
            &&& after.outcomes@ == before.outcomes@
            &&& after.progressed(before, before.collected as int, false, false, false)
            &&& !step.cancel_all
        } else if v.verdict is Accepted {
            &&& after.outcomes@ == before.outcomes@.push(judging::outcome_of(v))
            &&& after.progressed(
                before,
                before.collected + 1,
                false,
                false,
                before.collected + 1 == before.ids@.len(),
            )
            &&& !step.cancel_all
        } else {
            &&& judging::filled_up(
                after.outcomes@,
                before.outcomes@.push(judging::outcome_of(v)),
                before.ids@,
                Verdict::Skipped,
                before.zero,
                "SKIPPED_SHORT_CIRCUIT"@,
            )
            &&& after.progressed(
                before,
                if v.verdict is CompileError {
                    before.collected as int
                } else {
                    before.collected + 1
                },
                v.verdict is CompileError,
                true,
                true,
            )
            &&& step.cancel_all
        },
        _ => {
            &&& judging::filled_up(
                after.outcomes@,
                before.outcomes@,
                before.ids@,
                Verdict::SystemError,
                before.zero,
                "EVALUATION_TIMEOUT"@,
            )
            &&& after.progressed(before, before.collected as int, false, true, true)
            &&& step.cancel_all
        },
    }
}

/// A batch that could not be started: every case is a system error.
pub open spec fn start_failure<S>(
    outcomes: Seq<EvalOutcome<S>>,
    ids: Seq<i32>,
    zero: S,
    error: Seq<char>,
) -> bool {
    &&& outcomes.len() == ids.len()
    &&& forall|i: int|
        0 <= i < ids.len() ==> judging::filled(
            #[trigger] outcomes[i],
            ids[i],
            Verdict::SystemError,
            zero,
            "BATCH_START_FAILED: "@ + error,
        )
}

/// The outcomes of a batch that could not be started.
pub fn start_failed<S: Copy>(ids: &Vec<i32>, zero: S, error: &str) -> (r: Vec<EvalOutcome<S>>)
    ensures
        start_failure(r@, ids@, zero, error@),
{
    let message = concat("BATCH_START_FAILED: ", error);
    let mut out: Vec<EvalOutcome<S>> = Vec::new();
    let mut i: usize = 0;
    while i < ids.len()
        invariant
            i <= ids@.len(),
            message@ == "BATCH_START_FAILED: "@ + error@,
            out@.len() == i,
            forall|k: int|
                0 <= k < i ==> judging::filled(
                    #[trigger] out@[k],
                    ids@[k],
                    Verdict::SystemError,
                    zero,
                    message@,
                ),
        decreases ids@.len() - i,
    {
        out.push(fill_outcome(ids[i], Verdict::SystemError, zero, message.as_str()));
        i += 1;
    }
    out
}

/// The ids of the cases.
pub fn ids_of_cases<S>(cases: &Vec<TestCaseRow<S>>) -> (r: Vec<i32>)
    ensures
        r@ == judging::case_ids(cases@),
{
    let mut out: Vec<i32> = Vec::new();
    let mut i: usize = 0;
    while i < cases.len()
        invariant
            i <= cases@.len(),
            out@ == judging::case_ids(cases@).take(i as int),
        decreases cases@.len() - i,
    {
        out.push(cases[i].id);
        assert(out@ =~= judging::case_ids(cases@).take(i as int + 1));
        i += 1;
    }
    assert(judging::case_ids(cases@).take(i as int) =~= judging::case_ids(cases@));
    out
}

impl<S: Copy> ShortCircuitEval<S> {
    /// A batch that has been started.
    pub fn new(ids: Vec<i32>, zero: S) -> (r: Self)
        ensures
            r.wf(),
            r.ids == ids,
            r.zero == zero,
            r.outcomes@.len() == 0,
            r.collected == 0,
            !r.compile_failed,
            !r.short_circuited,
            !r.running,
            r.finished == (ids@.len() == 0),
    {
        let finished = ids.len() == 0;
        ShortCircuitEval {
            ids,
            zero,
            outcomes: Vec::new(),
            collected: 0,
            compile_failed: false,
            short_circuited: false,
            running: false,
            finished,
        }
    }

    /// Whether the submission has to be marked as running first.
    pub fn must_mark_running(&self, event: &PollEvent<S>) -> (r: bool)
        ensures
            r == self.needs_running(*event),
    {
        if self.running {
            return false;
        }
        match event {
            PollEvent::Result(v) => v.verdict != Verdict::CompileError
                && !(v.verdict.is_skipped_or_cancelled() && outcome_known(
                &self.outcomes,
                v.test_case_id,
            )),
            _ => false,
        }
    }

    pub fn mark_running(&mut self)
        requires
            old(self).wf(),
        ensures
            final(self).wf(),
            *final(self) == (ShortCircuitEval { running: true, ..*old(self) }),
    {
        self.running = true;
    }

    /// Takes in an event.
    pub fn on_event(&mut self, event: PollEvent<S>) -> (step: EvalStep)
        requires
            old(self).wf(),
            !old(self).finished,
            !old(self).needs_running(event),
        ensures
            final(self).wf(),
            step_is(*old(self), *final(self), event, step),
    {
        let recorded_from: usize = self.outcomes.len();
        let total: usize = self.ids.len();
        match event {
            PollEvent::Result(v) => {
                if v.verdict.is_skipped_or_cancelled() && outcome_known(
                    &self.outcomes,
                    v.test_case_id,
                ) {
                    return EvalStep { recorded_from, cancel_all: false, finished: false };
                }
                let verdict = v.verdict;
                let outcome = to_outcome(v);
                let ghost before = self.outcomes@;
                self.outcomes.push(outcome);
                if verdict == Verdict::Accepted {
                    self.collected += 1;
                    if self.collected == total {
                        self.finished = true;
                    }
                    return EvalStep { recorded_from, cancel_all: false, finished: self.finished };
                }
                if verdict == Verdict::CompileError {
                    self.compile_failed = true;
                } else {
                    self.collected += 1;
                }
                fill_up(
                    &mut self.outcomes,
                    &self.ids,
                    Verdict::Skipped,
                    self.zero,
                    "SKIPPED_SHORT_CIRCUIT",
                );
                self.short_circuited = true;
                self.finished = true;
                EvalStep { recorded_from, cancel_all: true, finished: true }
            },
            _ => {
                fill_up(
                    &mut self.outcomes,
                    &self.ids,
                    Verdict::SystemError,
                    self.zero,
                    "EVALUATION_TIMEOUT",
                );
                self.short_circuited = true;
                self.finished = true;
                EvalStep { recorded_from, cancel_all: true, finished: true }
            },
        }
    }

    /// The result of a finished evaluation.
    pub fn into_result(self) -> (r: EvalResult<S>)
        requires
            self.wf(),
            self.finished,
        ensures
            r.outcomes == self.outcomes,
            r.is_compile_error == self.compile_failed,
            r.is_accepted == (!self.short_circuited && all_accepted(self.outcomes@)),
    {
        EvalResult {
            outcomes: self.outcomes,
            is_compile_error: self.compile_failed,
            is_accepted: !self.short_circuited,
        }
    }
}

// ---------------------------------------------------------------------------
// Laws
// ---------------------------------------------------------------------------

/// Every recorded outcome is of a known case, and no case has two.
pub open spec fn clean<S>(e: ShortCircuitEval<S>) -> bool {
    &&& e.collected == e.outcomes@.len()
    &&& forall|i: int|
        0 <= i < e.outcomes@.len() ==> e.ids@.contains((#[trigger] e.outcomes@[i]).test_case_id)
    &&& forall|i: int, j: int|
        0 <= i < j < e.outcomes@.len() ==> (#[trigger] e.outcomes@[i]).test_case_id != (
        #[trigger] e.outcomes@[j]).test_case_id
}

/// Accepted results of known cases, none twice, keep the record clean.
pub proof fn accepted_results_keep_the_record_clean<S>(
    before: ShortCircuitEval<S>,
    after: ShortCircuitEval<S>,
    v: TestCaseVerdict<S>,
    step: EvalStep,
)
    requires
        clean(before),
        step_is(before, after, PollEvent::Result(v), step),
        v.verdict is Accepted,
        before.ids@.contains(v.test_case_id),
        !judging::has_outcome(before.outcomes@, v.test_case_id),
    ensures
        clean(after),
{
    let o = judging::outcome_of(v);
    assert forall|i: int, j: int| 0 <= i < j < after.outcomes@.len() implies (
    #[trigger] after.outcomes@[i]).test_case_id != (#[trigger] after.outcomes@[j]).test_case_id by {
        assert(after.outcomes@[i] == before.outcomes@[i]);
        if j < before.outcomes@.len() {
            assert(after.outcomes@[j] == before.outcomes@[j]);
        } else {
            assert(before.outcomes@[i].test_case_id != v.test_case_id);
        }
    }
    assert forall|i: int| 0 <= i < after.outcomes@.len() implies after.ids@.contains(
        (#[trigger] after.outcomes@[i]).test_case_id,
    ) by {
        if i < before.outcomes@.len() {
            assert(after.outcomes@[i] == before.outcomes@[i]);
        }
    }
}

/// An accepted submission was accepted on every one of its cases.
pub proof fn accepted_means_every_case_passed<S>(e: ShortCircuitEval<S>, i: int)
    requires
        e.wf(),
        e.finished,
        !e.short_circuited,
        clean(e),
        e.collected == e.ids@.len(),
        e.ids@.no_duplicates(),
        0 <= i < e.ids@.len(),
    ensures
        exists|k: int|
            0 <= k < e.outcomes@.len() && (#[trigger] e.outcomes@[k]).test_case_id == e.ids@[i]
                && e.outcomes@[k].verdict is Accepted,
{
    let recorded = e.outcomes@.map_values(|o: EvalOutcome<S>| o.test_case_id);
    assert(recorded.no_duplicates()) by {
        assert forall|a: int, b: int|
            0 <= a < recorded.len() && 0 <= b < recorded.len() && a != b implies recorded[a]
            != recorded[b] by {
            if a < b {
                assert(e.outcomes@[a].test_case_id != e.outcomes@[b].test_case_id);
            } else {
                assert(e.outcomes@[b].test_case_id != e.outcomes@[a].test_case_id);
            }
        }
    }
    recorded.unique_seq_to_set();
    e.ids@.unique_seq_to_set();
    let r = recorded.to_set();
    let all = e.ids@.to_set();
    assert(r.subset_of(all)) by {
        assert forall|x: i32| r.contains(x) implies all.contains(x) by {
            let k = choose|k: int| 0 <= k < recorded.len() && recorded[k] == x;
            assert(e.ids@.contains(e.outcomes@[k].test_case_id));
        }
    }
    vstd::set_lib::lemma_subset_equality(r, all);
    assert(all.contains(e.ids@[i]));
    assert(recorded.contains(e.ids@[i]));
    let k = choose|k: int| 0 <= k < recorded.len() && recorded[k] == e.ids@[i];
    assert(e.outcomes@[k].test_case_id == e.ids@[i]);
}

/// After a failure, a compile error or a timeout every case has an outcome,
/// and the submission is not accepted.
pub proof fn short_circuit_leaves_no_case_out<S>(
    before: ShortCircuitEval<S>,
    after: ShortCircuitEval<S>,
    event: PollEvent<S>,
    step: EvalStep,
    i: int,
)
    requires
        step_is(before, after, event, step),
        step.cancel_all,
        0 <= i < before.ids@.len(),
    ensures
        after.finished,
        after.short_circuited,
        judging::has_outcome(after.outcomes@, before.ids@[i]),
{
    match event {
        PollEvent::Result(v) => {
            crate::judging::filling_leaves_no_gap(
                after.outcomes@,
                before.outcomes@.push(judging::outcome_of(v)),
                before.ids@,
                Verdict::Skipped,
                before.zero,
                "SKIPPED_SHORT_CIRCUIT"@,
                i,
            );
        },
        _ => {
            crate::judging::filling_leaves_no_gap(
                after.outcomes@,
                before.outcomes@,
                before.ids@,
                Verdict::SystemError,
                before.zero,
                "EVALUATION_TIMEOUT"@,
                i,
            );
        },
    }
}

/// A compile error never marks the submission as running.
pub proof fn compile_errors_do_not_run<S>(e: ShortCircuitEval<S>, v: TestCaseVerdict<S>)
    requires
        v.verdict is CompileError,
    ensures
        !e.needs_running(PollEvent::Result(v)),
{
}

// ---------------------------------------------------------------------------
// The policy
// ---------------------------------------------------------------------------

/// What follows after a recorded outcome.
#[derive(Debug, Clone, Copy, PartialEq, Eq, Structural)]
pub enum JudgeStep {
    Continue,
    /// Skip the rest and finish.
    ShortCircuit,
}

/// The first outcome that is not accepted ends the evaluation.
pub fn next_step(last: Option<Verdict>) -> (r: JudgeStep)
    ensures
        r == (match last {
            Some(v) => if v is Accepted {
                JudgeStep::Continue
            } else {
                JudgeStep::ShortCircuit
            },
            None => JudgeStep::Continue,
        }),
{
    match last {
        Some(v) => if v == Verdict::Accepted {
            JudgeStep::Continue
        } else {
            JudgeStep::ShortCircuit
        },
        None => JudgeStep::Continue,
    }
}

/// The points of a case: one if it was accepted, else none.
pub fn case_points(verdict: Verdict) -> (r: u8)
    ensures
        r == (if verdict is Accepted {
            1u8
        } else {
            0u8
        }),
{
    if verdict == Verdict::Accepted {
        1
    } else {
        0
    }
}

pub open spec fn any_compile_error<S>(outcomes: Seq<EvalOutcome<S>>) -> bool {
    exists|i: int| 0 <= i < outcomes.len() && (#[trigger] outcomes[i]).verdict is CompileError
}

/// What the outcomes of a finished evaluation come to.
pub fn finalize<S>(outcomes: Vec<EvalOutcome<S>>) -> (r: EvalResult<S>)
    ensures
        r.outcomes == outcomes,
        r.is_compile_error == any_compile_error(outcomes@),
        r.is_accepted == all_accepted(outcomes@),
{
    let mut compile_failed = false;
    let mut accepted = true;
    let mut i: usize = 0;
    while i < outcomes.len()
        invariant
            i <= outcomes@.len(),
            compile_failed == (exists|k: int|
                0 <= k < i && (#[trigger] outcomes@[k]).verdict is CompileError),
            accepted == (forall|k: int|
                0 <= k < i ==> (#[trigger] outcomes@[k]).verdict is Accepted),
        decreases outcomes@.len() - i,
    {
        if outcomes[i].verdict == Verdict::CompileError {
            compile_failed = true;
        }
        if outcomes[i].verdict != Verdict::Accepted {
            accepted = false;
        }
        i += 1;
    }
    EvalResult {
        is_compile_error: compile_failed,
        is_accepted: !compile_failed && accepted,
        outcomes,
    }
}

/// How judging ended.
pub enum JudgeEnd {
    Done,
    /// A newer judgement has taken over.
    Stale,
    Failed(String),
}

/// What is answered to the host. A judgement that was overtaken is no failure.
pub fn submission_output(end: JudgeEnd) -> (r: OnSubmissionOutput)
    ensures
        match end {
            JudgeEnd::Failed(text) => !r.success && r.error_message == Some(text),
            _ => r.success && r.error_message is None,
        },
{
    match end {
        JudgeEnd::Failed(text) => OnSubmissionOutput { success: false, error_message: Some(text) },
        _ => OnSubmissionOutput { success: true, error_message: None },
    }
}

} // verus!
