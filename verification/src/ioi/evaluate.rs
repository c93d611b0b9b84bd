//! Evaluation with subtasks: a failed group drops its remaining cases.

use vstd::prelude::*;

use crate::ioi::config::SubtaskDef;
use crate::ioi::short_circuit::SubtaskShortCircuit;
use crate::judging::{
    fill_each, fill_outcome, to_outcome, EvalOutcome, RawClass, TestCaseRow, TestCaseVerdict,
};
use crate::icpc::evaluate::{ids_of_cases, PollEvent};
use crate::verdict::Verdict;
use crate::judging;

verus! {

/// What is to be done after an event. The outcomes from `recorded_from` on are
/// new. Where `cancel` names cases, they are to be cancelled, and the answer
/// to that handed back.
#[derive(Debug, Clone, PartialEq, Eq)]
pub struct GroupStep {
    pub recorded_from: usize,
    pub cancel: Vec<i32>,
    pub cancel_all: bool,
    pub finished: bool,
}

/// The evaluation of a submission, result by result.
pub struct GroupEval<S> {
    pub ids: Vec<i32>,
    pub zero: S,
    pub outcomes: Vec<EvalOutcome<S>>,
    pub collected: usize,
    pub running: bool,
    pub finished: bool,
    pub tracker: SubtaskShortCircuit,
    /// Cases whose cancellation has been asked for and not answered.
    pub pending: Vec<i32>,
}

/// The ids of the outcomes.
pub open spec fn outcome_ids<S>(outcomes: Seq<EvalOutcome<S>>) -> Seq<i32> {
    outcomes.map_values(|o: EvalOutcome<S>| o.test_case_id)
}

pub fn ids_of_outcomes<S>(outcomes: &Vec<EvalOutcome<S>>) -> (r: Vec<i32>)
    ensures
        r@ == outcome_ids(outcomes@),
{
    let mut out: Vec<i32> = Vec::new();
    let mut i: usize = 0;
    while i < outcomes.len()
        invariant
            i <= outcomes@.len(),
            out@ == outcome_ids(outcomes@).take(i as int),
        decreases outcomes@.len() - i,
    {
        out.push(outcomes[i].test_case_id);
        assert(out@ =~= outcome_ids(outcomes@).take(i as int + 1));
        i += 1;
    }
    assert(outcome_ids(outcomes@).take(i as int) =~= outcome_ids(outcomes@));
    out
}

pub open spec fn all_in(ids: Seq<i32>, others: Seq<i32>) -> bool {
    forall|k: int| 0 <= k < ids.len() ==> others.contains(#[trigger] ids[k])
}

pub open spec fn none_in(ids: Seq<i32>, others: Seq<i32>) -> bool {
    forall|k: int| 0 <= k < ids.len() ==> !others.contains(#[trigger] ids[k])
}

/// The tracker after a result, and the cases that it drops.
pub open spec fn follows(
    before: SubtaskShortCircuit,
    after: SubtaskShortCircuit,
    id: i32,
    class: RawClass,
    recorded: Seq<i32>,
    dropped: Seq<i32>,
) -> bool {
    &&& after.wf()
    &&& after.methods == before.methods
    &&& after.members == before.members
    &&& after.samples == before.samples
    &&& after.order == before.order
    &&& after.gone@ == before.gone@.push(id)
    &&& after.failed@ == before.failed_after(id, class)
    &&& dropped == (if before.settles(id, class) {
        after.released(after.order@, after.failed@, id, recorded)
    } else {
        seq![]
    })
}

impl<S> GroupEval<S> {
    pub open spec fn wf(self) -> bool {
        &&& self.tracker.wf()
        &&& self.collected <= self.outcomes@.len()
        &&& (self.finished ==> self.pending@.len() == 0)
        &&& (!self.finished ==> self.collected < self.ids@.len() || self.pending@.len() > 0)
    }

    /// Nothing has come in yet.
    pub open spec fn fresh(self) -> bool {
        &&& self.outcomes@.len() == 0
        &&& self.collected == 0
        &&& !self.running
        &&& self.finished == (self.ids@.len() == 0)
        &&& self.pending@.len() == 0
        &&& self.tracker.order@ == self.ids@
    }

    /// The cases are distinct, none has two outcomes, nothing else has one, and
    /// those to be cancelled have none yet; at the end every case has one.
    pub open spec fn orderly(self) -> bool {
        let known = outcome_ids(self.outcomes@);
        &&& self.ids@.no_duplicates()
        &&& self.tracker.order@ == self.ids@
        &&& known.no_duplicates()
        &&& all_in(known, self.ids@)
        &&& self.pending@.no_duplicates()
        &&& all_in(self.pending@, self.ids@)
        &&& none_in(self.pending@, known)
        &&& (!self.finished ==> self.collected == self.outcomes@.len())
        &&& (self.finished ==> self.pending@.len() == 0 && all_in(self.ids@, known))
    }

    /// Whether an event is one that a batch gives: a result is of one of the
    /// cases, and not of one that has its outcome.
    pub open spec fn expects(self, event: PollEvent<S>) -> bool {
        event matches PollEvent::Result(v) ==> self.ids@.contains(v.test_case_id)
            && !judging::has_outcome(self.outcomes@, v.test_case_id)
    }

    /// Whether the submission is to be marked as running before this event is
    /// taken in: at the first result that shows it compiled.
    pub open spec fn needs_running(self, event: PollEvent<S>) -> bool {
        !self.running && (event matches PollEvent::Result(v) && !(v.verdict is CompileError))
    }

    /// Whether another case may be started before this result is taken in.
    pub open spec fn refills(self, v: TestCaseVerdict<S>) -> bool {
        &&& !(v.verdict is CompileError)
        &&& !self.tracker.settles(v.test_case_id, v.score.class) || self.tracker.released(
            self.tracker.order@,
            self.tracker.failed_after(v.test_case_id, v.score.class),
            v.test_case_id,
            seq![],
        ).len() == 0
    }
}

/// What one event does to an evaluation.
pub open spec fn group_step_is<S>(
    before: GroupEval<S>,
    after: GroupEval<S>,
    event: PollEvent<S>,
    step: GroupStep,
) -> bool {
    &&& step.recorded_from == before.outcomes@.len()
    &&& step.finished == after.finished
    &&& step.cancel@ == after.pending@
    &&& after.ids == before.ids
    &&& after.zero == before.zero
    &&& after.running == before.running
    &&& match event {
        PollEvent::Result(v) => if v.verdict is CompileError {
            &&& judging::filled_each(
                after.outcomes@,
                before.outcomes@.push(judging::outcome_of(v)),
                before.ids@,
                Verdict::Skipped,
                before.zero,
                "SKIPPED_SHORT_CIRCUIT"@,
            )
            &&& after.collected == before.collected
            &&& after.tracker == before.tracker
            &&& after.pending@.len() == 0
            &&& after.finished
            &&& step.cancel_all
        } else {
            &&& after.outcomes@ == before.outcomes@.push(judging::outcome_of(v))
            &&& after.collected == before.collected + 1
            &&& follows(
                before.tracker,
                after.tracker,
                v.test_case_id,
                v.score.class,
                outcome_ids(after.outcomes@),
                after.pending@,
            )
            &&& after.finished == (after.pending@.len() == 0 && after.collected
                >= before.ids@.len())
            &&& !step.cancel_all
        },
        _ => {
            &&& judging::filled_each(
                after.outcomes@,
                before.outcomes@,
                before.ids@,
                Verdict::SystemError,
                before.zero,
                "EVALUATION_TIMEOUT"@,
            )
            &&& after.collected == before.collected
            &&& after.tracker == before.tracker
            &&& after.pending@.len() == 0
            &&& after.finished
            &&& step.cancel_all
        },
    }
}

/// What the answer to a cancellation does: where all cases were cancelled they
/// are recorded as skipped; else they are left to run.
pub open spec fn cancel_step_is<S>(
    before: GroupEval<S>,
    after: GroupEval<S>,
    cancelled: Option<usize>,
    step: GroupStep,
) -> bool {
    let n = before.outcomes@.len();
    let asked = before.pending@;
    &&& step.recorded_from == n
    &&& step.finished == after.finished
    &&& step.cancel@.len() == 0
    &&& !step.cancel_all
    &&& after.ids == before.ids
    &&& after.zero == before.zero
    &&& after.running == before.running
    &&& after.pending@.len() == 0
    &&& after.finished == (after.collected >= before.ids@.len())
    &&& if cancelled is Some && cancelled->0 == asked.len() {
        &&& after.outcomes@.len() == n + asked.len()
        &&& after.outcomes@.take(n as int) == before.outcomes@
        &&& forall|k: int|
            0 <= k < asked.len() ==> judging::filled(
                #[trigger] after.outcomes@[n + k],
                asked[k],
                Verdict::Skipped,
                before.zero,
                "SKIPPED_SHORT_CIRCUIT"@,
            )
        &&& after.collected == before.collected + asked.len()
        &&& after.tracker.gone@ == before.tracker.gone@ + asked
        &&& after.tracker.methods == before.tracker.methods
        &&& after.tracker.members == before.tracker.members
        &&& after.tracker.failed == before.tracker.failed
        &&& after.tracker.samples == before.tracker.samples
        &&& after.tracker.order == before.tracker.order
    } else {
        &&& after.outcomes@ == before.outcomes@
        &&& after.collected == before.collected
        &&& after.tracker == before.tracker
    }
}

impl<S: Copy> GroupEval<S> {
    /// A batch that has been started.
    pub fn new(
        subtask_defs: &Vec<SubtaskDef<S>>,
        test_cases: &Vec<TestCaseRow<S>>,
        zero: S,
    ) -> (r: Self)
        ensures
            r.wf(),
            r.ids@ == judging::case_ids(test_cases@),
            r.zero == zero,
            r.fresh(),
            r.tracker.starts(subtask_defs@, test_cases@),
    {
        let ids = ids_of_cases(test_cases);
        let finished = ids.len() == 0;
        GroupEval {
            ids,
            zero,
            outcomes: Vec::new(),
            collected: 0,
            running: false,
            finished,
            tracker: SubtaskShortCircuit::new(subtask_defs, test_cases),
            pending: Vec::new(),
        }
    }

    /// Whether the submission has to be marked as running first.
    pub fn must_mark_running(&self, event: &PollEvent<S>) -> (r: bool)
        ensures
            r == self.needs_running(*event),
    {
        if self.running {
            return false;
        }
        match event {
            PollEvent::Result(v) => v.verdict != Verdict::CompileError,
            _ => false,
        }
    }

    /// Whether another case may be started before this result is taken in.
    pub fn should_refill(&self, v: &TestCaseVerdict<S>) -> (r: bool)
        requires
            self.wf(),
        ensures
            r == self.refills(*v),
    {
        v.verdict != Verdict::CompileError && self.tracker.should_refill_after(
            v.test_case_id,
            v.score.class,
        )
    }

    pub fn mark_running(&mut self)
        requires
            old(self).wf(),
        ensures
            final(self).wf(),
            *final(self) == (GroupEval { running: true, ..*old(self) }),
    {
        self.running = true;
    }

    /// Takes in an event.
    pub fn on_event(&mut self, event: PollEvent<S>) -> (step: GroupStep)
        requires
            old(self).wf(),
            !old(self).finished,
            old(self).pending@.len() == 0,
            !old(self).needs_running(event),
        ensures
            final(self).wf(),
            group_step_is(*old(self), *final(self), event, step),
    {
        let recorded_from: usize = self.outcomes.len();
        match event {
            PollEvent::Result(v) => {
                let verdict = v.verdict;
                let id: i32 = v.test_case_id;
                let class = v.score.class;
                let outcome = to_outcome(v);
                self.outcomes.push(outcome);
                if verdict == Verdict::CompileError {
                    fill_each(
                        &mut self.outcomes,
                        &self.ids,
                        Verdict::Skipped,
                        self.zero,
                        "SKIPPED_SHORT_CIRCUIT",
                    );
                    self.finished = true;
                    let step = GroupStep {
                        recorded_from,
                        cancel: Vec::new(),
                        cancel_all: true,
                        finished: true,
                    };
                    assert(step.cancel@ =~= self.pending@);
                    return step;
                }
                let recorded = ids_of_outcomes(&self.outcomes);
                let total: usize = self.outcomes.len();
                assert(self.collected < total);
                self.collected += 1;
                let dropped = self.tracker.cancellable_after(id, class, &recorded);
                let cancel = copy_ids(&dropped);
                self.pending = dropped;
                self.finished = self.pending.len() == 0 && self.collected >= self.ids.len();
                GroupStep { recorded_from, cancel, cancel_all: false, finished: self.finished }
            },
            _ => {
                fill_each(
                    &mut self.outcomes,
                    &self.ids,
                    Verdict::SystemError,
                    self.zero,
                    "EVALUATION_TIMEOUT",
                );
                self.finished = true;
                let step = GroupStep {
                    recorded_from,
                    cancel: Vec::new(),
                    cancel_all: true,
                    finished: true,
                };
                assert(step.cancel@ =~= self.pending@);
                step
            },
        }
    }

    /// Takes in the answer to a cancellation: how many cases were cancelled, or
    /// `None` where it failed.
    pub fn on_cancelled(&mut self, cancelled: Option<usize>) -> (step: GroupStep)
        requires
            old(self).wf(),
            !old(self).finished,
            old(self).pending@.len() > 0,
        ensures
            final(self).wf(),
            cancel_step_is(*old(self), *final(self), cancelled, step),
    {
        let recorded_from: usize = self.outcomes.len();
        let ghost before = self.outcomes@;
        let ghost start = *self;
        let mut asked: Vec<i32> = Vec::new();
        std::mem::swap(&mut asked, &mut self.pending);
        let all = match cancelled {
            Some(n) => n == asked.len(),
            None => false,
        };
        if all {
            self.tracker.mark_cancelled(&asked);
            let mut i: usize = 0;
            while i < asked.len()
                invariant
                    i <= asked@.len(),
                    before == start.outcomes@,
                    start.collected <= before.len(),
                    self.outcomes@.len() == before.len() + i,
                    self.outcomes@.take(before.len() as int) =~= before,
                    forall|k: int|
                        0 <= k < i ==> judging::filled(
                            #[trigger] self.outcomes@[before.len() + k],
                            asked@[k],
                            Verdict::Skipped,
                            start.zero,
                            "SKIPPED_SHORT_CIRCUIT"@,
                        ),
                    self.collected == start.collected + i,
                    self.ids == start.ids,
                    self.zero == start.zero,
                    self.running == start.running,
                    self.finished == start.finished,
                    self.pending@.len() == 0,
                    self.tracker.wf(),
                    self.tracker.gone@ == start.tracker.gone@ + asked@,
                    self.tracker.methods == start.tracker.methods,
                    self.tracker.members == start.tracker.members,
                    self.tracker.failed == start.tracker.failed,
                    self.tracker.samples == start.tracker.samples,
                    self.tracker.order == start.tracker.order,
                decreases asked@.len() - i,
            {
                let ghost o0 = self.outcomes@;
                let skipped = fill_outcome(
                    asked[i],
                    Verdict::Skipped,
                    self.zero,
                    "SKIPPED_SHORT_CIRCUIT",
                );
                self.outcomes.push(skipped);
                let total: usize = self.outcomes.len();
                assert(self.collected < total);
                self.collected += 1;
                proof {
                    assert forall|k: int| 0 <= k < i + 1 implies judging::filled(
                        #[trigger] self.outcomes@[before.len() + k],
                        asked@[k],
                        Verdict::Skipped,
                        start.zero,
                        "SKIPPED_SHORT_CIRCUIT"@,
                    ) by {
                        if k < i {
                            assert(self.outcomes@[before.len() + k] == o0[before.len() + k]);
                        }
                    }
                }
                i += 1;
            }
        }
        self.finished = self.collected >= self.ids.len();
        GroupStep {
            recorded_from,
            cancel: Vec::new(),
            cancel_all: false,
            finished: self.finished,
        }
    }
}

fn copy_ids(ids: &Vec<i32>) -> (r: Vec<i32>)
    ensures
        r@ == ids@,
{
    let mut out: Vec<i32> = Vec::new();
    let mut i: usize = 0;
    while i < ids.len()
        invariant
            i <= ids@.len(),
            out@ == ids@.take(i as int),
        decreases ids@.len() - i,
    {
        out.push(ids[i]);
        assert(out@ =~= ids@.take(i as int + 1));
        i += 1;
    }
    assert(ids@.take(i as int) =~= ids@);
    out
}

/// The tracker after a result whose dropped cases are cancelled at once.
pub open spec fn drops(
    before: SubtaskShortCircuit,
    after: SubtaskShortCircuit,
    id: i32,
    class: RawClass,
    recorded: Seq<i32>,
    dropped: Seq<i32>,
) -> bool {
    exists|mid: SubtaskShortCircuit|
        {
            &&& #[trigger] follows(before, mid, id, class, recorded, dropped)
            &&& after.methods == mid.methods
            &&& after.members == mid.members
            &&& after.failed == mid.failed
            &&& after.samples == mid.samples
            &&& after.order == mid.order
            &&& after.gone@ == mid.gone@ + dropped
        }
}

/// What follows after a recorded outcome.
#[derive(Debug, Clone, PartialEq, Eq)]
pub enum GroupJudgeStep {
    Continue,
    Cancel(Vec<i32>),
}

/// Takes in the last outcome; the cases that it drops are cancelled at once.
pub fn next_step<S>(
    tracker: &mut SubtaskShortCircuit,
    outcomes: &Vec<EvalOutcome<S>>,
    last: Option<usize>,
) -> (r: GroupJudgeStep)
    requires
        old(tracker).wf(),
        last matches Some(i) ==> i < outcomes@.len(),
    ensures
        final(tracker).wf(),
        match last {
            None => r is Continue && *final(tracker) == *old(tracker),
            Some(i) => {
                let o = outcomes@[i as int];
                let dropped = match r {
                    GroupJudgeStep::Continue => Seq::<i32>::empty(),
                    GroupJudgeStep::Cancel(ids) => ids@,
                };
                &&& (r is Continue <==> dropped.len() == 0)
                &&& drops(
                    *old(tracker),
                    *final(tracker),
                    o.test_case_id,
                    o.raw_score.class,
                    outcome_ids(outcomes@),
                    dropped,
                )
            },
        },
{
    let i: usize = match last {
        None => {
            return GroupJudgeStep::Continue;
        },
        Some(i) => i,
    };
    let recorded = ids_of_outcomes(outcomes);
    let id: i32 = outcomes[i].test_case_id;
    let class = outcomes[i].raw_score.class;
    let dropped = tracker.cancellable_after(id, class, &recorded);
    let ghost mid = *tracker;
    assert(follows(*old(tracker), mid, id, class, outcome_ids(outcomes@), dropped@));
    if dropped.len() == 0 {
        assert(dropped@ =~= Seq::<i32>::empty());
        assert(tracker.gone@ =~= mid.gone@ + dropped@);
        assert(drops(*old(tracker), *tracker, id, class, outcome_ids(outcomes@), dropped@));
        return GroupJudgeStep::Continue;
    }
    tracker.mark_cancelled(&dropped);
    assert(drops(*old(tracker), *tracker, id, class, outcome_ids(outcomes@), dropped@));
    GroupJudgeStep::Cancel(dropped)
}

/// After a compile error or a timeout every case has an outcome.
pub proof fn an_abandoned_evaluation_leaves_no_case_out<S>(
    before: GroupEval<S>,
    after: GroupEval<S>,
    event: PollEvent<S>,
    step: GroupStep,
    i: int,
)
    requires
        group_step_is(before, after, event, step),
        step.cancel_all,
        0 <= i < before.ids@.len(),
    ensures
        after.finished,
        judging::has_outcome(after.outcomes@, before.ids@[i]),
{
    match event {
        PollEvent::Result(v) => {
            crate::judging::filling_each_leaves_no_gap(
                after.outcomes@,
                before.outcomes@.push(judging::outcome_of(v)),
                before.ids@,
                Verdict::Skipped,
                before.zero,
                "SKIPPED_SHORT_CIRCUIT"@,
                i,
            );
        },
        _ => {
            crate::judging::filling_each_leaves_no_gap(
                after.outcomes@,
                before.outcomes@,
                before.ids@,
                Verdict::SystemError,
                before.zero,
                "EVALUATION_TIMEOUT"@,
                i,
            );
        },
    }
}

/// One move of an evaluation: it is marked as running, takes in an event, or
/// takes in the answer to a cancellation.
pub open spec fn moves<S>(before: GroupEval<S>, after: GroupEval<S>) -> bool {
    ||| after == (GroupEval { running: true, ..before })
    ||| exists|event: PollEvent<S>, step: GroupStep|
        {
            &&& !before.finished
            &&& before.pending@.len() == 0
            &&& before.expects(event)
            &&& #[trigger] group_step_is(before, after, event, step)
        }
    ||| exists|cancelled: Option<usize>, step: GroupStep|
        {
            &&& !before.finished
            &&& before.pending@.len() > 0
            &&& #[trigger] cancel_step_is(before, after, cancelled, step)
        }
}

/// An evaluation of distinct cases that gets each result at most once has, when
/// it is finished, exactly one outcome for each case. Until then no case has
/// two. `states` are the evaluation at the start and after each move.
pub proof fn finished_evaluations_are_complete<S>(states: Seq<GroupEval<S>>, i: int)
    requires
        states.len() > 0,
        states[0].fresh(),
        states[0].ids@.no_duplicates(),
        forall|k: int|
            0 <= k < states.len() - 1 ==> moves(#[trigger] states[k], states[k + 1]),
        0 <= i < states.len(),
    ensures
        states[i].ids == states[0].ids,
        states[i].orderly(),
        outcome_ids(states[i].outcomes@).no_duplicates(),
        states[i].finished ==> {
            &&& states[i].outcomes@.len() == states[0].ids@.len()
            &&& forall|j: int|
                0 <= j < states[0].ids@.len() ==> judging::has_outcome(
                    states[i].outcomes@,
                    #[trigger] states[0].ids@[j],
                )
        },
    decreases i,
{
    let e = states[i];
    if i == 0 {
        assert(outcome_ids(e.outcomes@) =~= Seq::<i32>::empty());
        assert(e.pending@ =~= Seq::<i32>::empty());
    } else {
        let before = states[i - 1];
        finished_evaluations_are_complete(states, i - 1);
        assert(moves(before, e));
        if e == (GroupEval { running: true, ..before }) {
        } else if before.pending@.len() == 0 {
            let (event, step) = choose|event: PollEvent<S>, step: GroupStep|
                {
                    &&& !before.finished
                    &&& before.pending@.len() == 0
                    &&& before.expects(event)
                    &&& #[trigger] group_step_is(before, e, event, step)
                };
            events_keep_order(before, e, event, step);
        } else {
            let (cancelled, step) = choose|cancelled: Option<usize>, step: GroupStep|
                {
                    &&& !before.finished
                    &&& before.pending@.len() > 0
                    &&& #[trigger] cancel_step_is(before, e, cancelled, step)
                };
            cancellations_keep_order(before, e, cancelled, step);
        }
    }
    if e.finished {
        let known = outcome_ids(e.outcomes@);
        lemma_no_more_than(known, e.ids@);
        lemma_no_more_than(e.ids@, known);
        assert forall|j: int| 0 <= j < e.ids@.len() implies judging::has_outcome(
            e.outcomes@,
            #[trigger] e.ids@[j],
        ) by {
            lemma_known_ids(e.outcomes@, e.ids@[j]);
        }
    }
}

proof fn lemma_known_ids<S>(outcomes: Seq<EvalOutcome<S>>, id: i32)
    ensures
        outcome_ids(outcomes).contains(id) <==> judging::has_outcome(outcomes, id),
{
    let known = outcome_ids(outcomes);
    if known.contains(id) {
        let k = choose|k: int| 0 <= k < known.len() && known[k] == id;
        assert(outcomes[k].test_case_id == id);
    }
    if judging::has_outcome(outcomes, id) {
        let k = choose|k: int| 0 <= k < outcomes.len() && (#[trigger] outcomes[k]).test_case_id
            == id;
        assert(known[k] == id);
    }
}

proof fn lemma_no_more_than(a: Seq<i32>, b: Seq<i32>)
    requires
        a.no_duplicates(),
        all_in(a, b),
    ensures
        a.len() <= b.len(),
{
    a.unique_seq_to_set();
    b.lemma_cardinality_of_set();
    assert forall|x: i32| #[trigger] a.to_set().contains(x) implies b.to_set().contains(x) by {
        let k = choose|k: int| 0 <= k < a.len() && a[k] == x;
        assert(b.contains(a[k]));
    }
    vstd::set_lib::lemma_len_subset(a.to_set(), b.to_set());
}

proof fn lemma_all_there(a: Seq<i32>, b: Seq<i32>)
    requires
        a.no_duplicates(),
        all_in(a, b),
        a.len() >= b.len(),
    ensures
        all_in(b, a),
{
    a.unique_seq_to_set();
    b.lemma_cardinality_of_set();
    assert forall|x: i32| #[trigger] a.to_set().contains(x) implies b.to_set().contains(x) by {
        let k = choose|k: int| 0 <= k < a.len() && a[k] == x;
        assert(b.contains(a[k]));
    }
    vstd::set_lib::lemma_len_subset(a.to_set(), b.to_set());
    vstd::set_lib::lemma_subset_equality(a.to_set(), b.to_set());
    assert forall|k: int| 0 <= k < b.len() implies a.contains(#[trigger] b[k]) by {
        assert(b.to_set().contains(b[k]));
        assert(a.to_set().contains(b[k]));
    }
}

proof fn lemma_released_once(
    sc: SubtaskShortCircuit,
    order: Seq<i32>,
    failed: Seq<bool>,
    trigger: i32,
    recorded: Seq<i32>,
)
    requires
        order.no_duplicates(),
    ensures
        sc.released(order, failed, trigger, recorded).no_duplicates(),
        all_in(sc.released(order, failed, trigger, recorded), order),
        none_in(sc.released(order, failed, trigger, recorded), recorded),
    decreases order.len(),
{
    let all = sc.released(order, failed, trigger, recorded);
    if order.len() > 0 {
        let front = order.drop_last();
        let rest = sc.released(front, failed, trigger, recorded);
        assert(front.no_duplicates()) by {
            assert forall|a: int, b: int| 0 <= a < front.len() && 0 <= b < front.len() && a
                != b implies front[a] != front[b] by {
                assert(front[a] == order[a] && front[b] == order[b]);
            }
        }
        lemma_released_once(sc, front, failed, trigger, recorded);
        assert forall|k: int| 0 <= k < rest.len() implies order.contains(#[trigger] rest[k])
            && rest[k] != order.last() by {
            assert(front.contains(rest[k]));
            let j = choose|j: int| 0 <= j < front.len() && front[j] == rest[k];
            assert(order[j] == rest[k]);
            assert(order[j] != order[order.len() - 1]);
        }
        assert forall|k: int| 0 <= k < all.len() implies order.contains(#[trigger] all[k])
            && !recorded.contains(all[k]) by {
            if k < rest.len() {
                assert(all[k] == rest[k]);
            } else {
                assert(all[k] == order[order.len() - 1]);
            }
        }
    }
}

proof fn lemma_lacking_once<S>(ids: Seq<i32>, outcomes: Seq<EvalOutcome<S>>)
    requires
        ids.no_duplicates(),
    ensures
        judging::lacking(ids, outcomes).no_duplicates(),
        all_in(judging::lacking(ids, outcomes), ids),
        none_in(judging::lacking(ids, outcomes), outcome_ids(outcomes)),
    decreases ids.len(),
{
    let all = judging::lacking(ids, outcomes);
    let known = outcome_ids(outcomes);
    if ids.len() > 0 {
        let front = ids.drop_last();
        let rest = judging::lacking(front, outcomes);
        assert(front.no_duplicates()) by {
            assert forall|a: int, b: int| 0 <= a < front.len() && 0 <= b < front.len() && a
                != b implies front[a] != front[b] by {
                assert(front[a] == ids[a] && front[b] == ids[b]);
            }
        }
        lemma_lacking_once(front, outcomes);
        lemma_known_ids(outcomes, ids.last());
        assert forall|k: int| 0 <= k < rest.len() implies ids.contains(#[trigger] rest[k])
            && rest[k] != ids.last() by {
            assert(front.contains(rest[k]));
            let j = choose|j: int| 0 <= j < front.len() && front[j] == rest[k];
            assert(ids[j] == rest[k]);
            assert(ids[j] != ids[ids.len() - 1]);
        }
        assert forall|k: int| 0 <= k < all.len() implies ids.contains(#[trigger] all[k])
            && !known.contains(all[k]) by {
            if k < rest.len() {
                assert(all[k] == rest[k]);
            } else {
                assert(all[k] == ids[ids.len() - 1]);
            }
        }
    }
}

proof fn lemma_joined_once(a: Seq<i32>, b: Seq<i32>, ids: Seq<i32>)
    requires
        a.no_duplicates(),
        b.no_duplicates(),
        none_in(b, a),
        all_in(a, ids),
        all_in(b, ids),
    ensures
        (a + b).no_duplicates(),
        all_in(a + b, ids),
{
    let all = a + b;
    assert forall|i: int, j: int| 0 <= i < all.len() && 0 <= j < all.len() && i
        != j implies all[i] != all[j] by {
        if i < a.len() && j >= a.len() {
            assert(all[i] == a[i] && all[j] == b[j - a.len()]);
            assert(a.contains(a[i]));
        } else if j < a.len() && i >= a.len() {
            assert(all[j] == a[j] && all[i] == b[i - a.len()]);
            assert(a.contains(a[j]));
        } else if i >= a.len() {
            assert(all[i] == b[i - a.len()] && all[j] == b[j - a.len()]);
        }
    }
    assert forall|k: int| 0 <= k < all.len() implies ids.contains(#[trigger] all[k]) by {
        if k < a.len() {
            assert(all[k] == a[k]);
        } else {
            assert(all[k] == b[k - a.len()]);
        }
    }
}

/// The ids of outcomes that have been followed by more.
proof fn lemma_followed_ids<S>(
    after: Seq<EvalOutcome<S>>,
    before: Seq<EvalOutcome<S>>,
    gaps: Seq<i32>,
    verdict: Verdict,
    zero: S,
    message: Seq<char>,
)
    requires
        judging::followed_by(after, before, gaps, verdict, zero, message),
    ensures
        outcome_ids(after) == outcome_ids(before) + gaps,
{
    let n = before.len() as int;
    assert forall|k: int| 0 <= k < after.len() implies outcome_ids(after)[k] == (outcome_ids(
        before,
    ) + gaps)[k] by {
        if k < n {
            assert(after.take(n)[k] == after[k]);
        } else {
            assert(judging::filled(after[n + (k - n)], gaps[k - n], verdict, zero, message));
        }
    }
    assert(outcome_ids(after) =~= outcome_ids(before) + gaps);
}

/// Filling every case leaves no case out and gives none a second outcome.
proof fn lemma_filled_in_order<S>(
    after: GroupEval<S>,
    before: Seq<EvalOutcome<S>>,
    verdict: Verdict,
    message: Seq<char>,
)
    requires
        after.ids@.no_duplicates(),
        outcome_ids(before).no_duplicates(),
        all_in(outcome_ids(before), after.ids@),
        judging::filled_each(after.outcomes@, before, after.ids@, verdict, after.zero, message),
    ensures
        outcome_ids(after.outcomes@).no_duplicates(),
        all_in(outcome_ids(after.outcomes@), after.ids@),
        all_in(after.ids@, outcome_ids(after.outcomes@)),
{
    let ids = after.ids@;
    let gaps = judging::lacking(ids, before);
    lemma_lacking_once(ids, before);
    lemma_followed_ids(after.outcomes@, before, gaps, verdict, after.zero, message);
    lemma_joined_once(outcome_ids(before), gaps, ids);
    assert forall|k: int| 0 <= k < ids.len() implies outcome_ids(after.outcomes@).contains(
        #[trigger] ids[k],
    ) by {
        crate::judging::filling_each_leaves_no_gap(
            after.outcomes@,
            before,
            ids,
            verdict,
            after.zero,
            message,
            k,
        );
        lemma_known_ids(after.outcomes@, ids[k]);
    }
}

/// An expected event keeps an evaluation in order.
pub proof fn events_keep_order<S>(
    before: GroupEval<S>,
    after: GroupEval<S>,
    event: PollEvent<S>,
    step: GroupStep,
)
    requires
        before.orderly(),
        !before.finished,
        before.pending@.len() == 0,
        before.expects(event),
        group_step_is(before, after, event, step),
    ensures
        after.orderly(),
{
    let ids = before.ids@;
    let known = outcome_ids(before.outcomes@);
    match event {
        PollEvent::Result(v) => {
            let id = v.test_case_id;
            let recorded = before.outcomes@.push(judging::outcome_of(v));
            let one = seq![id];
            lemma_known_ids(before.outcomes@, id);
            assert(outcome_ids(recorded) =~= known + one);
            lemma_joined_once(known, one, ids);
            if v.verdict is CompileError {
                lemma_filled_in_order(after, recorded, Verdict::Skipped, "SKIPPED_SHORT_CIRCUIT"@);
                assert(after.pending@ =~= Seq::<i32>::empty());
            } else {
                let all = outcome_ids(after.outcomes@);
                lemma_released_once(
                    after.tracker,
                    after.tracker.order@,
                    after.tracker.failed@,
                    id,
                    all,
                );
                if after.finished {
                    lemma_all_there(all, ids);
                }
            }
        },
        _ => {
            lemma_filled_in_order(
                after,
                before.outcomes@,
                Verdict::SystemError,
                "EVALUATION_TIMEOUT"@,
            );
            assert(after.pending@ =~= Seq::<i32>::empty());
        },
    }
}

/// The answer to a cancellation keeps an evaluation in order.
pub proof fn cancellations_keep_order<S>(
    before: GroupEval<S>,
    after: GroupEval<S>,
    cancelled: Option<usize>,
    step: GroupStep,
)
    requires
        before.orderly(),
        !before.finished,
        cancel_step_is(before, after, cancelled, step),
    ensures
        after.orderly(),
{
    let ids = before.ids@;
    let known = outcome_ids(before.outcomes@);
    let asked = before.pending@;
    assert(after.pending@ =~= Seq::<i32>::empty());
    if cancelled is Some && cancelled->0 == asked.len() {
        lemma_followed_ids(
            after.outcomes@,
            before.outcomes@,
            asked,
            Verdict::Skipped,
            before.zero,
            "SKIPPED_SHORT_CIRCUIT"@,
        );
        lemma_joined_once(known, asked, ids);
    }
    if after.finished {
        lemma_all_there(outcome_ids(after.outcomes@), ids);
    }
}

/// A sample is never cancelled, nor a case that some subtask still needs.
pub proof fn only_needless_cases_are_cancelled<S>(
    before: GroupEval<S>,
    after: GroupEval<S>,
    v: TestCaseVerdict<S>,
    step: GroupStep,
    i: int,
)
    requires
        group_step_is(before, after, PollEvent::Result(v), step),
        0 <= i < step.cancel@.len(),
    ensures
        !before.tracker.samples@.contains(step.cancel@[i]),
        !judging::has_outcome(after.outcomes@, step.cancel@[i]),
        forall|k: int| #[trigger]
            before.tracker.needed_by(k, step.cancel@[i]) ==> after.tracker.failed@[k] && !(
            before.tracker.methods@[k] is Sum),
{
    let id = step.cancel@[i];
    let recorded = outcome_ids(after.outcomes@);
    crate::ioi::short_circuit::dropped_cases_are_not_needed(
        after.tracker,
        after.tracker.order@,
        after.tracker.failed@,
        v.test_case_id,
        recorded,
        i,
    );
    if judging::has_outcome(after.outcomes@, id) {
        let j = choose|j: int|
            0 <= j < after.outcomes@.len() && (#[trigger] after.outcomes@[j]).test_case_id == id;
        assert(recorded[j] == id);
    }
    assert forall|k: int| #[trigger] before.tracker.needed_by(k, id) implies
        after.tracker.failed@[k] && !(before.tracker.methods@[k] is Sum) by {
        assert(after.tracker.needed_by(k, id));
    }
}

} // verus!
