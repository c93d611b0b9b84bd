//! What the judging promises: what becomes of results, of cases that have none,
//! and of evaluations that end early.

use vstd::prelude::*;

use crate::icpc::evaluate;
use crate::icpc::evaluate::{EvalResult, EvalStep, JudgeEnd, JudgeStep, PollEvent, ShortCircuitEval};
use crate::icpc::persist;
use crate::icpc::visibility;
use crate::icpc::visibility::{ContestFacts, SubmissionFreezeRow};
use crate::ids;
use crate::ioi::evaluate::{GroupEval, GroupStep};
use crate::ioi::feedback;
use crate::ioi::feedback::{ContestView, SubmissionVisibilityRow};
use crate::judging;
use crate::judging::{
    EvalOutcome, JudgementRef, OnSubmissionInput, OnSubmissionOutput, StartEvaluateBatchInput, Raw, RawClass, StartEvaluateCaseInput,
    SubmissionStatus, SubmissionUpdate, TestCaseResultRow, TestCaseRow, TestCaseVerdict,
};
use crate::verdict::Verdict;
use crate::text;
use crate::visibility::{QueryResource, VisibilityQueryInput, WireDecision};

verus! {

// ---------------------------------------------------------------------------
// Outcomes
// ---------------------------------------------------------------------------

/// A time or a memory use is kept as it is where it can be stored; what is below
/// zero counts as zero, and what is too large as the largest.
pub proof fn measures_are_kept_in_range(v: i64)
    ensures
        judging::clamped(None) is None,
        judging::clamped(Some(v)) is Some,
        0 <= v <= i32::MAX ==> judging::clamped(Some(v))->0 == v,
        v < 0 ==> judging::clamped(Some(v))->0 == 0,
        v > i32::MAX ==> judging::clamped(Some(v))->0 == i32::MAX,
{
}

/// An outcome tells what the judge found: the case, the verdict, the score, the
/// time, the memory and the texts.
pub proof fn an_outcome_tells_what_was_found<S>(o: EvalOutcome<S>, v: TestCaseVerdict<S>)
    requires
        o == judging::outcome_of(v),
    ensures
        o.test_case_id == v.test_case_id,
        o.verdict == v.verdict,
        o.raw_score == v.score,
        o.message == v.message,
        o.stdout == v.stdout,
        o.stderr == v.stderr,
        v.time_used_ms is None <==> o.time_used is None,
        v.memory_used_kb is None <==> o.memory_used is None,
        v.time_used_ms is Some && 0 <= v.time_used_ms->0 <= i32::MAX ==> o.time_used->0
            == v.time_used_ms->0,
        v.memory_used_kb is Some && 0 <= v.memory_used_kb->0 <= i32::MAX ==> o.memory_used->0
            == v.memory_used_kb->0,
{
}

/// The list has an outcome for the case with this id.
pub open spec fn told<S>(outcomes: Seq<EvalOutcome<S>>, id: i32) -> bool {
    exists|i: int| 0 <= i < outcomes.len() && (#[trigger] outcomes[i]).test_case_id == id
}

/// The cases without an outcome are those of the list that have none: all of
/// them, no other, and each once.
pub proof fn these_cases_are_missing<S>(ids: Seq<i32>, outcomes: Seq<EvalOutcome<S>>)
    ensures
        forall|id: i32| #[trigger]
            judging::missing(ids, outcomes).contains(id) <==> ids.contains(id) && !told(
                outcomes,
                id,
            ),
        judging::missing(ids, outcomes).no_duplicates(),
        forall|id: i32| #[trigger]
            judging::lacking(ids, outcomes).contains(id) <==> ids.contains(id) && !told(
                outcomes,
                id,
            ),
    decreases ids.len(),
{
    if ids.len() > 0 {
        let rest = ids.drop_last();
        these_cases_are_missing(rest, outcomes);
        let last = ids.last();
        let m = judging::missing(ids, outcomes);
        let l = judging::lacking(ids, outcomes);
        assert(ids =~= rest.push(last));
        assert forall|id: i32| ids.contains(id) <==> rest.contains(id) || id == last by {
            lemma_pushed(rest, last, id);
        }
        assert forall|id: i32| #[trigger] m.contains(id) <==> ids.contains(id) && !told(
            outcomes,
            id,
        ) by {
            lemma_pushed(judging::missing(rest, outcomes), last, id);
        }
        assert forall|id: i32| #[trigger] l.contains(id) <==> ids.contains(id) && !told(
            outcomes,
            id,
        ) by {
            lemma_pushed(judging::lacking(rest, outcomes), last, id);
        }
    } else {
        assert(judging::missing(ids, outcomes) =~= Seq::<i32>::empty());
        assert(judging::lacking(ids, outcomes) =~= Seq::<i32>::empty());
    }
}

proof fn lemma_pushed(s: Seq<i32>, last: i32, x: i32)
    ensures
        s.push(last).contains(x) <==> s.contains(x) || x == last,
{
    let more = s.push(last);
    if s.contains(x) {
        let i = choose|i: int| 0 <= i < s.len() && s[i] == x;
        assert(more[i] == x);
    }
    if more.contains(x) && x != last {
        let i = choose|i: int| 0 <= i < more.len() && more[i] == x;
        assert(s[i] == x);
    }
    assert(more[s.len() as int] == last);
}

/// Filling up keeps every outcome that there is, in its place, and adds one for
/// each case without any: with the verdict given, no points, no time and no
/// memory.
pub proof fn filling_up_keeps_what_is_there<S>(
    after: Seq<EvalOutcome<S>>,
    before: Seq<EvalOutcome<S>>,
    ids: Seq<i32>,
    verdict: Verdict,
    zero: S,
    message: Seq<char>,
    i: int,
)
    requires
        judging::filled_up(after, before, ids, verdict, zero, message) || judging::filled_each(
            after,
            before,
            ids,
            verdict,
            zero,
            message,
        ),
        0 <= i < after.len(),
    ensures
        before.len() <= after.len(),
        i < before.len() ==> after[i] == before[i],
        i >= before.len() ==> {
            &&& ids.contains(after[i].test_case_id)
            &&& !told(before, after[i].test_case_id)
            &&& after[i].verdict == verdict
            &&& after[i].raw_score.value == zero
            &&& after[i].raw_score.class == RawClass::Zero
            &&& after[i].time_used is None
            &&& after[i].memory_used is None
            &&& after[i].message is Some && after[i].message->0@ == message
            &&& after[i].stdout is None
            &&& after[i].stderr is None
        },
{
    these_cases_are_missing(ids, before);
    let m = judging::missing(ids, before);
    let l = judging::lacking(ids, before);
    if i < before.len() {
        assert(after.take(before.len() as int)[i] == before[i]);
    } else {
        let k = i - before.len();
        assert(after[before.len() + k] == after[i]);
        if judging::filled_up(after, before, ids, verdict, zero, message) {
            assert(judging::filled(after[before.len() + k], m[k], verdict, zero, message));
            assert(m.contains(m[k]));
        } else {
            assert(judging::filled(after[before.len() + k], l[k], verdict, zero, message));
            assert(l.contains(l[k]));
        }
    }
}

/// A stored row tells what the outcome tells, for the judgement it is of. A case
/// of the problem is named by its id, a custom one by its place among the runs.
pub proof fn a_stored_row_tells_the_outcome<S>(
    row: TestCaseResultRow<S>,
    at: JudgementRef,
    o: EvalOutcome<S>,
    cases: Seq<TestCaseRow<S>>,
)
    requires
        judging::row_is(row, at, o, cases),
    ensures
        row.submission_id == at.submission_id,
        row.judgement_id == at.judgement_id,
        row.judge_epoch == at.judge_epoch,
        row.verdict == o.verdict,
        row.raw_score == o.raw_score,
        row.time_used == o.time_used,
        row.memory_used == o.memory_used,
        row.message is Some <==> o.message is Some,
        row.stdout is Some <==> o.stdout is Some,
        row.stderr is Some <==> o.stderr is Some,
        ({
            let case = judging::case_at(cases, o.test_case_id);
            &&& case is Some ==> row.weight == Some(case->0.score)
            &&& case is None ==> row.weight is None
            &&& case is Some && case->0.is_custom ==> row.test_case_id is None && row.run_index
                == Some(o.test_case_id)
            &&& case is None || !case->0.is_custom ==> row.run_index is None && row.test_case_id
                == Some(o.test_case_id)
        }),
{
}

/// A worker gets the case with its files, and the sources, the language and the
/// limits of the submission.
pub proof fn a_worker_gets_the_case_and_the_limits<S>(
    c: StartEvaluateCaseInput,
    req: OnSubmissionInput<S>,
    tc: TestCaseRow<S>,
)
    requires
        judging::case_input_is(c, req, tc),
    ensures
        c.test_case_id == tc.id,
        c.input == tc.input,
        c.expected_output == tc.expected_output,
        c.is_custom == tc.is_custom,
        c.problem_id == req.problem_id,
        c.contest_id == req.contest_id,
        c.time_limit_ms == req.time_limit_ms,
        c.memory_limit_kb == req.memory_limit_kb,
        c.solution_language == req.language,
        c.target_worker_id == req.target_worker_id,
        c.solution_source@.len() == req.files@.len(),
        forall|i: int|
            0 <= i < req.files@.len() ==> #[trigger] c.solution_source@[i] == req.files@[i],
{
}

// ---------------------------------------------------------------------------
// All or nothing
// ---------------------------------------------------------------------------

/// The first result that is not accepted ends the evaluation: it is recorded, the
/// cases without a result are skipped, the running ones are cancelled, and the
/// submission is not accepted. It is a compilation error exactly where the result
/// is one.
pub proof fn the_first_failure_ends_the_evaluation<S>(
    before: ShortCircuitEval<S>,
    after: ShortCircuitEval<S>,
    v: TestCaseVerdict<S>,
    step: EvalStep,
    i: int,
)
    requires
        evaluate::step_is(before, after, PollEvent::Result(v), step),
        v.verdict != Verdict::Accepted,
        v.verdict != Verdict::Skipped,
        v.verdict != Verdict::Cancelled,
    ensures
        after.finished && step.finished && step.cancel_all,
        after.short_circuited,
        after.compile_failed <==> v.verdict == Verdict::CompileError,
        after.outcomes@.len() > before.outcomes@.len(),
        after.outcomes@[before.outcomes@.len() as int].test_case_id == v.test_case_id,
        after.outcomes@[before.outcomes@.len() as int].verdict == v.verdict,
        before.outcomes@.len() < i < after.outcomes@.len() ==> after.outcomes@[i].verdict
            == Verdict::Skipped,
        0 <= i < before.outcomes@.len() ==> after.outcomes@[i] == before.outcomes@[i],
        0 <= i < before.ids@.len() ==> told(after.outcomes@, before.ids@[i]),
        step.recorded_from == before.outcomes@.len(),
{
    let n = before.outcomes@.len() as int;
    let grown = before.outcomes@.push(judging::outcome_of(v));
    assert(grown[n] == judging::outcome_of(v));
    filling_up_keeps_what_is_there(
        after.outcomes@,
        grown,
        before.ids@,
        Verdict::Skipped,
        before.zero,
        "SKIPPED_SHORT_CIRCUIT"@,
        n,
    );
    if 0 <= i < after.outcomes@.len() {
        filling_up_keeps_what_is_there(
            after.outcomes@,
            grown,
            before.ids@,
            Verdict::Skipped,
            before.zero,
            "SKIPPED_SHORT_CIRCUIT"@,
            i,
        );
        if i < n {
            assert(grown[i] == before.outcomes@[i]);
        }
    }
    if 0 <= i < before.ids@.len() {
        judging::filling_leaves_no_gap(
            after.outcomes@,
            grown,
            before.ids@,
            Verdict::Skipped,
            before.zero,
            "SKIPPED_SHORT_CIRCUIT"@,
            i,
        );
    }
}

/// An accepted result is recorded and the evaluation goes on, until every case
/// has its result.
pub proof fn an_accepted_result_goes_on<S>(
    before: ShortCircuitEval<S>,
    after: ShortCircuitEval<S>,
    v: TestCaseVerdict<S>,
    step: EvalStep,
)
    requires
        evaluate::step_is(before, after, PollEvent::Result(v), step),
        v.verdict == Verdict::Accepted,
    ensures
        after.outcomes@.len() == before.outcomes@.len() + 1,
        after.outcomes@.drop_last() == before.outcomes@,
        after.outcomes@.last().test_case_id == v.test_case_id,
        after.outcomes@.last().verdict == Verdict::Accepted,
        after.collected == before.collected + 1,
        after.finished <==> before.collected + 1 == before.ids@.len(),
        !after.short_circuited && !after.compile_failed && !step.cancel_all,
{
    assert(after.outcomes@.drop_last() =~= before.outcomes@);
}

/// Where no result comes the cases without one are errors of the system, and the
/// submission is not accepted.
pub proof fn silence_is_an_error_of_the_system<S>(
    before: ShortCircuitEval<S>,
    after: ShortCircuitEval<S>,
    event: PollEvent<S>,
    step: EvalStep,
    i: int,
)
    requires
        evaluate::step_is(before, after, event, step),
        !(event is Result),
    ensures
        after.finished && step.cancel_all,
        after.short_circuited && !after.compile_failed,
        0 <= i < before.outcomes@.len() ==> after.outcomes@[i] == before.outcomes@[i],
        before.outcomes@.len() <= i < after.outcomes@.len() ==> after.outcomes@[i].verdict
            == Verdict::SystemError,
        0 <= i < before.ids@.len() ==> told(after.outcomes@, before.ids@[i]),
{
    if 0 <= i < after.outcomes@.len() {
        filling_up_keeps_what_is_there(
            after.outcomes@,
            before.outcomes@,
            before.ids@,
            Verdict::SystemError,
            before.zero,
            "EVALUATION_TIMEOUT"@,
            i,
        );
    } else if i < before.outcomes@.len() {
        assert(after.outcomes@.len() >= before.outcomes@.len());
    }
    if 0 <= i < before.ids@.len() {
        judging::filling_leaves_no_gap(
            after.outcomes@,
            before.outcomes@,
            before.ids@,
            Verdict::SystemError,
            before.zero,
            "EVALUATION_TIMEOUT"@,
            i,
        );
    }
}

/// A problem without cases cannot be judged in a contest: that is an error of the
/// system, and says so. Outside of one the submission is accepted. Either way it
/// has no points.
pub proof fn nothing_to_judge_is_no_success_in_a_contest(
    u: SubmissionUpdate<u8>,
    at: JudgementRef,
    in_contest: bool,
)
    requires
        persist::empty_update(u, at, in_contest),
    ensures
        u.submission_id == at.submission_id && u.judgement_id == at.judgement_id && u.judge_epoch
            == at.judge_epoch,
        u.status == Some(SubmissionStatus::Judged),
        u.score == Some(0u8),
        in_contest ==> u.verdict == Some(Some(Verdict::SystemError)),
        u.time_used == Some(None::<i32>) && u.memory_used == Some(None::<i32>),
        in_contest ==> u.error_code is Some && u.error_code->0 is Some && u.error_code->0->0@
            == "NO_TEST_CASES"@,
        in_contest ==> u.error_message is Some && u.error_message->0 is Some
            && u.error_message->0->0@ == "Problem has no test cases; cannot be judged"@,
        !in_contest ==> u.verdict == Some(Some(Verdict::Accepted)),
        !in_contest ==> u.error_code is None && u.error_message is None,
{
}

// ---------------------------------------------------------------------------
// Subtasks
// ---------------------------------------------------------------------------

/// A compilation error ends the evaluation of subtasks too: it is recorded, and
/// the cases without a result are skipped.
pub proof fn a_compilation_error_ends_the_evaluation<S>(
    before: GroupEval<S>,
    after: GroupEval<S>,
    v: TestCaseVerdict<S>,
    step: GroupStep,
    i: int,
)
    requires
        crate::ioi::evaluate::group_step_is(before, after, PollEvent::Result(v), step),
        v.verdict == Verdict::CompileError,
    ensures
        after.finished && step.finished && step.cancel_all && step.cancel@.len() == 0,
        after.outcomes@.len() > before.outcomes@.len(),
        after.outcomes@[before.outcomes@.len() as int].test_case_id == v.test_case_id,
        after.outcomes@[before.outcomes@.len() as int].verdict == Verdict::CompileError,
        before.outcomes@.len() < i < after.outcomes@.len() ==> after.outcomes@[i].verdict
            == Verdict::Skipped,
        0 <= i < before.ids@.len() ==> told(after.outcomes@, before.ids@[i]),
{
    let n = before.outcomes@.len() as int;
    let grown = before.outcomes@.push(judging::outcome_of(v));
    assert(grown[n] == judging::outcome_of(v));
    filling_up_keeps_what_is_there(
        after.outcomes@,
        grown,
        before.ids@,
        Verdict::Skipped,
        before.zero,
        "SKIPPED_SHORT_CIRCUIT"@,
        n,
    );
    if n < i < after.outcomes@.len() {
        filling_up_keeps_what_is_there(
            after.outcomes@,
            grown,
            before.ids@,
            Verdict::Skipped,
            before.zero,
            "SKIPPED_SHORT_CIRCUIT"@,
            i,
        );
    }
    if 0 <= i < before.ids@.len() {
        judging::filling_each_leaves_no_gap(
            after.outcomes@,
            grown,
            before.ids@,
            Verdict::Skipped,
            before.zero,
            "SKIPPED_SHORT_CIRCUIT"@,
            i,
        );
    }
}

/// Every other result is recorded, also a rejection: the other subtasks may still
/// score. The evaluation is done when every case has a result and none is to be
/// cancelled.
pub proof fn other_results_are_recorded<S>(
    before: GroupEval<S>,
    after: GroupEval<S>,
    v: TestCaseVerdict<S>,
    step: GroupStep,
)
    requires
        crate::ioi::evaluate::group_step_is(before, after, PollEvent::Result(v), step),
        v.verdict != Verdict::CompileError,
    ensures
        after.outcomes@.len() == before.outcomes@.len() + 1,
        after.outcomes@.drop_last() == before.outcomes@,
        after.outcomes@.last().test_case_id == v.test_case_id,
        after.outcomes@.last().verdict == v.verdict,
        after.outcomes@.last().raw_score == v.score,
        !step.cancel_all,
        after.finished <==> step.cancel@.len() == 0 && before.collected + 1 >= before.ids@.len(),
{
    assert(after.outcomes@.drop_last() =~= before.outcomes@);
}

// ---------------------------------------------------------------------------
// Whose results are shown
// ---------------------------------------------------------------------------

proof fn lemma_phases_differ()
    ensures
        "before"@ != "during"@,
        "before"@ != "after"@,
        "during"@ != "after"@,
{
    reveal_strlit("before");
    reveal_strlit("during");
    reveal_strlit("after");
    assert("before"@[0] == 'b');
    assert("during"@[0] == 'd');
    assert("after"@[0] == 'a');
}

/// The results of others are hidden until the contest is over where standings
/// are not public; and those of the last minutes are hidden while the board is
/// frozen. After the contest, with the board revealed or no freeze, all are
/// shown.
pub proof fn others_are_hidden_as_the_board_is(
    public_standings: bool,
    freeze_minutes: int,
    phase: Seq<char>,
    revealed: bool,
    duration_ms: int,
    now_elapsed_ms: int,
    submission_elapsed_ms: int,
)
    ensures
        ({
            let hidden = visibility::hides(
                public_standings,
                freeze_minutes,
                phase,
                revealed,
                duration_ms,
                now_elapsed_ms,
                submission_elapsed_ms,
            );
            let frozen = freeze_minutes > 0 && !revealed && now_elapsed_ms >= 0 && duration_ms
                - now_elapsed_ms <= freeze_minutes * 60_000;
            let last = submission_elapsed_ms >= 0 && duration_ms - submission_elapsed_ms
                <= freeze_minutes * 60_000;
            &&& phase == "before"@ ==> (hidden <==> !public_standings)
            &&& phase == "during"@ ==> (hidden <==> !public_standings || (frozen && last))
            &&& phase == "after"@ ==> (hidden <==> frozen && last)
        }),
{
    lemma_phases_differ();
}

/// Everything that tells the outcome is blanked.
pub proof fn hidden_results_tell_no_outcome()
    ensures
        ({
            let f = visibility::result_fields();
            &&& f.contains("verdict"@) && f.contains("score"@) && f.contains("time_used"@)
                && f.contains("memory_used"@)
            &&& f.contains("result.verdict"@) && f.contains("result.score"@) && f.contains(
                "result.time_used"@,
            ) && f.contains("result.memory_used"@)
            &&& f.contains("result.compile_output"@) && f.contains("result.error_message"@)
                && f.contains("result.test_case_results"@)
            &&& f.len() == 11
        }),
{
    let f = visibility::result_fields();
    assert(f[0] == "verdict"@ && f[1] == "score"@ && f[2] == "time_used"@ && f[3]
        == "memory_used"@);
    assert(f[4] == "result.verdict"@ && f[5] == "result.score"@ && f[6] == "result.time_used"@
        && f[7] == "result.memory_used"@);
    assert(f[8] == "result.compile_output"@ && f[9] == "result.error_message"@ && f[10]
        == "result.test_case_results"@);
}

/// Whose results are withheld: those of an ICPC contest from everybody but who
/// submitted, as the settings of the contest say; and those of a submission of
/// which nothing is known from everybody.
pub proof fn results_are_withheld_by_the_settings(
    resource: QueryResource,
    rows: Seq<SubmissionFreezeRow>,
    facts: Seq<ContestFacts>,
    viewer: Option<i32>,
    contest_id: i32,
)
    requires
        resource.contest_id == Some(contest_id),
    ensures
        ({
            let id = crate::visibility::submission_of(resource);
            let hidden = visibility::withheld(resource, rows, facts, viewer);
            let f = visibility::facts_of(facts, contest_id);
            &&& id is None ==> !hidden
            &&& id is Some && visibility::row_of(rows, id->0) is None ==> hidden
            &&& id is Some && visibility::row_of(rows, id->0) is Some ==> {
                let row = visibility::row_of(rows, id->0)->0;
                let icpc = row.contest_type is Some && row.contest_type->0@ == "icpc"@;
                hidden <==> icpc && viewer != Some(row.user_id) && visibility::hides(
                    f.config.public_standings,
                    f.config.freeze_minutes as int,
                    row.phase@,
                    f.revealed,
                    row.duration_ms as int,
                    row.now_elapsed_ms as int,
                    row.submission_elapsed_ms as int,
                )
            }
        }),
{
}

/// A submission is found by its id and a contest by its own: the last entry that
/// has it. A contest that nothing is known of has no freeze and no public
/// standings.
pub proof fn what_is_known_is_found(
    rows: Seq<SubmissionFreezeRow>,
    row: SubmissionFreezeRow,
    facts: Seq<ContestFacts>,
    fact: ContestFacts,
    id: i32,
)
    ensures
        visibility::row_of(Seq::<SubmissionFreezeRow>::empty(), id) is None,
        visibility::row_of(rows.push(row), id) == (if row.submission_id == id {
            Some(row)
        } else {
            visibility::row_of(rows, id)
        }),
        visibility::facts_of(facts.push(fact), id) == (if fact.contest_id == id {
            fact
        } else {
            visibility::facts_of(facts, id)
        }),
        ({
            let none = visibility::facts_of(Seq::<ContestFacts>::empty(), id);
            &&& !none.config.public_standings
            &&& none.config.freeze_minutes == 0
            &&& !none.revealed
        }),
{
    assert(rows.push(row).drop_last() =~= rows);
    assert(rows.push(row).last() == row);
    assert(facts.push(fact).drop_last() =~= facts);
    assert(facts.push(fact).last() == fact);
}

/// Who may see everything is shown everything. From the others the withheld results
/// are blanked, and nothing else is.
pub proof fn decisions_blank_what_is_withheld(
    decisions: Seq<WireDecision>,
    req: VisibilityQueryInput,
    view_all: Seq<char>,
    rows: Seq<SubmissionFreezeRow>,
    facts: Seq<ContestFacts>,
    i: int,
)
    requires
        visibility::decisions_are(decisions, req, view_all, rows, facts),
        0 <= i < req.resources@.len(),
    ensures
        decisions.len() == req.resources@.len(),
        text::views(req.subject.permissions@).contains(view_all) ==> decisions[i] is Allow,
        ({
            let hidden = !text::views(req.subject.permissions@).contains(view_all)
                && visibility::withheld(req.resources@[i], rows, facts, req.subject.user_id);
            &&& hidden ==> decisions[i] is Redact && text::views(decisions[i]->fields@)
                == visibility::result_fields()
            &&& !hidden ==> decisions[i] is Allow
        }),
{
    assert(crate::visibility::blanks(
        decisions[i],
        if !text::views(req.subject.permissions@).contains(view_all) && visibility::withheld(
            req.resources@[i],
            rows,
            facts,
            req.subject.user_id,
        ) {
            Some(visibility::result_fields())
        } else {
            None
        },
    ));
}

/// The same of feedback, with what the level of the contest blanks.
pub proof fn decisions_blank_what_the_level_hides(
    decisions: Seq<WireDecision>,
    req: VisibilityQueryInput,
    view_all: Seq<char>,
    rows: Seq<SubmissionVisibilityRow>,
    contests: Seq<ContestView>,
    i: int,
)
    requires
        feedback::decisions_are(decisions, req, view_all, rows, contests),
        0 <= i < req.resources@.len(),
    ensures
        decisions.len() == req.resources@.len(),
        text::views(req.subject.permissions@).contains(view_all) ==> decisions[i] is Allow,
        !text::views(req.subject.permissions@).contains(view_all) ==> {
            let hidden = feedback::blanked(
                req.resources@[i],
                rows,
                contests,
                req.subject.user_id,
            );
            &&& hidden is None ==> decisions[i] is Allow
            &&& hidden is Some ==> decisions[i] is Redact && text::views(decisions[i]->fields@)
                == hidden->0
        },
{
    assert(crate::visibility::blanks(
        decisions[i],
        if text::views(req.subject.permissions@).contains(view_all) {
            None
        } else {
            feedback::blanked(req.resources@[i], rows, contests, req.subject.user_id)
        },
    ));
}

/// What is asked about is a submission of a contest, by its number.
pub proof fn submissions_are_named_by_number(r: QueryResource)
    ensures
        r.kind@ != "submission"@ ==> crate::visibility::submission_of(r) is None,
        r.contest_id is None ==> crate::visibility::submission_of(r) is None,
        r.kind@ == "submission"@ && r.contest_id is Some ==> {
            let n = text::bounded_value(r.id@, i32::MIN as int, i32::MAX as int);
            &&& n is Some ==> crate::visibility::submission_of(r) is Some
                && crate::visibility::submission_of(r)->0 == n->0
            &&& n is None ==> crate::visibility::submission_of(r) is None
        },
{
    text::bounds_are_kept(r.id@, i32::MIN as int, i32::MAX as int);
}

/// A batch that does not start leaves an error of the system for every case, with
/// the reason.
pub proof fn a_batch_that_fails_tells_every_case<S>(
    outcomes: Seq<EvalOutcome<S>>,
    ids: Seq<i32>,
    zero: S,
    error: Seq<char>,
    i: int,
)
    requires
        evaluate::start_failure(outcomes, ids, zero, error),
        0 <= i < ids.len(),
    ensures
        outcomes.len() == ids.len(),
        outcomes[i].test_case_id == ids[i],
        outcomes[i].verdict == Verdict::SystemError,
        outcomes[i].raw_score.class == RawClass::Zero,
        outcomes[i].message is Some && outcomes[i].message->0@ == "BATCH_START_FAILED: "@ + error,
{
    assert(judging::filled(
        outcomes[i],
        ids[i],
        Verdict::SystemError,
        zero,
        "BATCH_START_FAILED: "@ + error,
    ));
}

/// Every outcome is stored, each in a row of its own and in their order.
pub proof fn every_outcome_is_stored<S>(
    rows: Seq<TestCaseResultRow<S>>,
    at: JudgementRef,
    outcomes: Seq<EvalOutcome<S>>,
    cases: Seq<TestCaseRow<S>>,
    i: int,
)
    requires
        judging::rows_store(rows, at, outcomes, cases),
        0 <= i < outcomes.len(),
    ensures
        rows.len() == outcomes.len(),
        judging::row_is(rows[i], at, outcomes[i], cases),
        rows[i].verdict == outcomes[i].verdict,
        rows[i].judgement_id == at.judgement_id,
{
}

/// Ids in increasing order are each named once.
pub proof fn increasing_ids_are_named_once(v: Seq<i32>)
    requires
        ids::increasing(v),
    ensures
        v.no_duplicates(),
        forall|i: int, j: int| 0 <= i < j < v.len() ==> #[trigger] v[i] < #[trigger] v[j],
{
}

/// The evaluation goes on as long as the last verdict accepts, and no further.
pub proof fn judging_goes_on_while_accepted(last: Option<Verdict>, r: JudgeStep)
    requires
        call_ensures(evaluate::next_step, (last,), r),
    ensures
        last is None ==> r is Continue,
        last == Some(Verdict::Accepted) ==> r is Continue,
        last is Some && last->0 != Verdict::Accepted ==> r is ShortCircuit,
{
}

/// An accepted case is worth one point, any other none.
pub proof fn only_accepted_cases_are_worth_a_point(verdict: Verdict, r: u8)
    requires
        call_ensures(evaluate::case_points, (verdict,), r),
    ensures
        verdict == Verdict::Accepted ==> r == 1,
        verdict != Verdict::Accepted ==> r == 0,
{
}

/// A submission is accepted where none of its cases is rejected, and failed to compile
/// where one of them says so; nothing is lost of what was found.
pub proof fn one_rejected_case_rejects_all<S>(
    outcomes: Vec<EvalOutcome<S>>,
    r: EvalResult<S>,
    i: int,
)
    requires
        call_ensures(evaluate::finalize::<S>, (outcomes,), r),
        0 <= i < outcomes@.len(),
    ensures
        r.outcomes@ == outcomes@,
        outcomes@[i].verdict != Verdict::Accepted ==> !r.is_accepted,
        outcomes@[i].verdict == Verdict::CompileError ==> r.is_compile_error,
        (forall|j: int|
            0 <= j < outcomes@.len() && j != i ==> (#[trigger] outcomes@[j]).verdict
                == Verdict::Accepted) ==> {
            &&& r.is_accepted <==> outcomes@[i].verdict == Verdict::Accepted
            &&& r.is_compile_error <==> outcomes@[i].verdict == Verdict::CompileError
        },
{
    let all = outcomes@;
    if forall|j: int| 0 <= j < all.len() && j != i ==> (#[trigger] all[j]).verdict
        == Verdict::Accepted {
        if r.is_compile_error {
            let j = choose|j: int| 0 <= j < all.len() && (#[trigger] all[j]).verdict is CompileError;
            assert(j == i);
        }
    }
}

/// An evaluation that was cut short accepts nothing, and one that was not accepts where
/// no outcome was rejected.
pub proof fn what_was_cut_short_is_not_accepted<S: Copy>(e: ShortCircuitEval<S>, r: EvalResult<S>)
    requires
        call_ensures(ShortCircuitEval::<S>::into_result, (e,), r),
    ensures
        r.outcomes@ == e.outcomes@,
        e.short_circuited ==> !r.is_accepted,
        !e.short_circuited ==> (r.is_accepted <==> forall|i: int|
            0 <= i < e.outcomes@.len() ==> (#[trigger] e.outcomes@[i]).verdict
                == Verdict::Accepted),
        r.is_compile_error <==> e.compile_failed,
{
}

/// Of every resource that is asked about, in order, the submission that it names.
pub proof fn every_resource_is_asked_about(resources: Seq<QueryResource>, i: int)
    requires
        0 <= i < resources.len(),
    ensures
        crate::visibility::submissions_of(resources).len() == resources.len(),
        crate::visibility::submissions_of(resources)[i] is Some ==> {
            &&& resources[i].kind@ == "submission"@
            &&& resources[i].contest_id is Some
        },
        crate::visibility::submissions_of(resources)[i] == crate::visibility::submission_of(
            resources[i],
        ),
{
}

/// A contest submission scores one where it was accepted and something of it was
/// judged, else nothing.
pub proof fn accepted_submissions_score_one<S>(
    at: JudgementRef,
    eval: &EvalResult<S>,
    severity: &Vec<u32>,
    r: SubmissionUpdate<u8>,
    i: int,
)
    requires
        call_ensures(persist::persist_and_track::<S>, (at, eval, severity), r),
        0 <= i < eval.outcomes@.len(),
        !eval.outcomes@[i].verdict.not_judged(),
    ensures
        r.submission_id == at.submission_id && r.judgement_id == at.judgement_id && r.judge_epoch
            == at.judge_epoch,
        eval.is_accepted ==> r.score == Some(1u8),
        !eval.is_accepted ==> r.score == Some(0u8),
{
}

/// Where no outcome says anything of the submission, nothing is scored.
pub proof fn nothing_judged_scores_nothing<S>(
    at: JudgementRef,
    eval: &EvalResult<S>,
    severity: &Vec<u32>,
    r: SubmissionUpdate<u8>,
)
    requires
        call_ensures(persist::persist_and_track::<S>, (at, eval, severity), r),
        forall|i: int|
            0 <= i < eval.outcomes@.len() ==> (#[trigger] eval.outcomes@[i]).verdict.not_judged(),
    ensures
        r.score == Some(0u8),
{
}

/// A contest submission is evaluated where its problem has a case, and finished at once
/// where it has none.
pub proof fn submissions_with_cases_are_evaluated<S>(
    req: &OnSubmissionInput<S>,
    r: persist::JudgePlan,
)
    requires
        call_ensures(persist::plan_judge::<S>, (req,), r),
    ensures
        r is Evaluate <==> req.test_cases@.len() > 0,
        r matches persist::JudgePlan::Finish(u) ==> {
            &&& u.submission_id == req.submission_id
            &&& u.judgement_id == req.judgement_id
            &&& u.judge_epoch == req.judge_epoch
            &&& u.verdict == Some(
                Some(
                    if req.contest_id is Some {
                        Verdict::SystemError
                    } else {
                        Verdict::Accepted
                    },
                ),
            )
        },
{
}

/// A judgement that failed says why, and any other is a success.
pub proof fn only_failed_judgements_are_no_success(end: JudgeEnd, r: OnSubmissionOutput)
    requires
        call_ensures(evaluate::submission_output, (end,), r),
    ensures
        r.success <==> !(end is Failed),
        r.error_message is Some <==> end is Failed,
        end is Failed ==> r.error_message->0 == end->Failed_0,
{
}

/// Every case is handed to a worker, in order, of the type of the problem.
pub proof fn every_case_is_handed_out<S>(
    req: &OnSubmissionInput<S>,
    test_cases: &Vec<TestCaseRow<S>>,
    r: StartEvaluateBatchInput,
    i: int,
)
    requires
        call_ensures(judging::build_batch_input::<S>, (req, test_cases), r),
        0 <= i < test_cases@.len(),
    ensures
        r.problem_type == req.problem_type,
        r.test_cases@.len() == test_cases@.len(),
        judging::case_input_is(r.test_cases@[i], *req, test_cases@[i]),
{
}

/// A submission of another contestant is hidden by the phase of the contest, by whether
/// its standings are public, and by its freeze.
pub proof fn other_submissions_are_hidden_in_the_freeze(
    public_standings: bool,
    freeze_minutes: i32,
    phase: &str,
    revealed: bool,
    duration_ms: i64,
    now_elapsed_ms: i64,
    submission_elapsed_ms: i64,
    r: bool,
)
    requires
        call_ensures(
            visibility::must_hide_other_submission,
            (
                public_standings,
                freeze_minutes,
                phase,
                revealed,
                duration_ms,
                now_elapsed_ms,
                submission_elapsed_ms,
            ),
            r,
        ),
    ensures
        ({
            let frozen = freeze_minutes > 0 && !revealed && now_elapsed_ms >= 0 && duration_ms
                - now_elapsed_ms <= freeze_minutes * 60_000;
            let last = submission_elapsed_ms >= 0 && duration_ms - submission_elapsed_ms
                <= freeze_minutes * 60_000;
            &&& phase@ == "before"@ ==> (r <==> !public_standings)
            &&& phase@ == "during"@ ==> (r <==> !public_standings || (frozen && last))
            &&& phase@ == "after"@ ==> (r <==> frozen && last)
        }),
{
    others_are_hidden_as_the_board_is(
        public_standings,
        freeze_minutes as int,
        phase@,
        revealed,
        duration_ms as int,
        now_elapsed_ms as int,
        submission_elapsed_ms as int,
    );
}

} // verus!
