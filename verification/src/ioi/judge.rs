//! What is done with a submission, and what its outcomes come to.

use vstd::prelude::*;

use crate::ids::has_id;
use crate::ioi::config::{resolve_tc_label, ContestConfig, SubtaskDef, TaskConfig};
use crate::ioi::persist::persist_results;
use crate::ioi::subtasks::{
    compute_scoring_test_case_ids, score_all_subtasks, SubtaskPoints, Units,
};
use crate::judging::{
    copy_case, find_case, EvalOutcome, JudgementRef, OnSubmissionInput, OnSubmissionOutput, Raw,
    SubmissionStatus, SubmissionUpdate, TestCaseRow,
};
use crate::text::decimal_i64;
use crate::textmap::TextMap;
use crate::verdict::Verdict;
use crate::ioi::subtasks;
use crate::judging;
use crate::summary;

verus! {

/// A submission with what is known of its task.
pub struct JudgeContext<S> {
    pub contest_config: ContestConfig,
    pub task_config: TaskConfig<S>,
    pub submission_id: i32,
    pub problem_id: i32,
    pub contest_id: i32,
    pub test_cases: Vec<TestCaseRow<S>>,
    pub subtask_defs: Vec<SubtaskDef<S>>,
}

/// What came of judging. Without scores where another judgement took over.
pub struct JudgeResult<S> {
    pub output: OnSubmissionOutput,
    pub submission_score: Option<S>,
    pub subtask_scores: Option<Vec<S>>,
}

/// What is to be done with a submission.
pub enum JudgePlan<S> {
    /// Nothing is to be evaluated: this is written, after the results of an
    /// earlier judgement have been removed where `discard_results` says so.
    Finish { update: SubmissionUpdate<S>, discard_results: bool, result: JudgeResult<S> },
    /// These cases are to be evaluated.
    Evaluate(Vec<TestCaseRow<S>>),
}

/// The cases with one of these ids, in order.
pub open spec fn with_ids<S>(cases: Seq<TestCaseRow<S>>, ids: Seq<i32>) -> Seq<TestCaseRow<S>>
    decreases cases.len(),
{
    if cases.len() == 0 {
        seq![]
    } else {
        let rest = with_ids(cases.drop_last(), ids);
        if ids.contains(cases.last().id) {
            rest.push(cases.last())
        } else {
            rest
        }
    }
}

/// The cases that are evaluated.
pub open spec fn evaluated<S>(ctx: JudgeContext<S>) -> Seq<TestCaseRow<S>> {
    with_ids(ctx.test_cases@, subtasks::counting_ids(ctx.subtask_defs@, ctx.test_cases@))
}

/// Accepted without points.
pub open spec fn nothing_to_judge<S>(u: SubmissionUpdate<S>, at: JudgementRef, zero: S) -> bool {
    &&& u.submission_id == at.submission_id
    &&& u.judgement_id == at.judgement_id
    &&& u.judge_epoch == at.judge_epoch
    &&& u.status == Some(SubmissionStatus::Judged)
    &&& u.verdict == Some(Some(Verdict::Accepted))
    &&& u.score == Some(zero)
    &&& u.time_used == Some(None::<i32>)
    &&& u.memory_used == Some(None::<i32>)
    &&& u.compile_output is None
    &&& u.error_code is None
    &&& u.error_message is None
}

fn accept_without_points<S>(at: JudgementRef, zero: S) -> (r: SubmissionUpdate<S>)
    ensures
        nothing_to_judge(r, at, zero),
{
    SubmissionUpdate {
        submission_id: at.submission_id,
        judgement_id: at.judgement_id,
        judge_epoch: at.judge_epoch,
        status: Some(SubmissionStatus::Judged),
        verdict: Some(Some(Verdict::Accepted)),
        score: Some(zero),
        time_used: Some(None),
        memory_used: Some(None),
        compile_output: None,
        error_code: None,
        error_message: None,
    }
}

/// The judgement of a submission.
pub open spec fn judgement_of<S>(req: OnSubmissionInput<S>, ctx: JudgeContext<S>) -> JudgementRef {
    JudgementRef {
        submission_id: ctx.submission_id,
        judgement_id: req.judgement_id,
        judge_epoch: req.judge_epoch,
    }
}

/// Decides what to do with a submission.
pub fn judge_with_context<S: Copy>(
    req: &OnSubmissionInput<S>,
    ctx: &JudgeContext<S>,
    zero: S,
) -> (r: JudgePlan<S>)
    ensures
        match r {
            JudgePlan::Evaluate(cases) => cases@ == evaluated(*ctx) && cases@.len() > 0,
            JudgePlan::Finish { update, discard_results, result } => {
                &&& evaluated(*ctx).len() == 0
                &&& nothing_to_judge(update, judgement_of(*req, *ctx), zero)
                &&& discard_results == (ctx.test_cases@.len() > 0)
                &&& result.output.success
                &&& result.output.error_message is None
                &&& result.submission_score == Some(zero)
                &&& result.subtask_scores matches Some(scores) && scores@ == Seq::new(
                    if ctx.test_cases@.len() == 0 {
                        0
                    } else {
                        ctx.subtask_defs@.len()
                    },
                    |i: int| zero,
                )
            },
        },
{
    let at = JudgementRef {
        submission_id: ctx.submission_id,
        judgement_id: req.judgement_id,
        judge_epoch: req.judge_epoch,
    };
    let ids = compute_scoring_test_case_ids(&ctx.subtask_defs, &ctx.test_cases);
    let mut cases: Vec<TestCaseRow<S>> = Vec::new();
    let mut i: usize = 0;
    assert(ctx.test_cases@.take(0) =~= Seq::<TestCaseRow<S>>::empty());
    while i < ctx.test_cases.len()
        invariant
            i <= ctx.test_cases@.len(),
            cases@ == with_ids(ctx.test_cases@.take(i as int), ids@),
        decreases ctx.test_cases@.len() - i,
    {
        proof {
            assert(ctx.test_cases@.take(i as int + 1).drop_last() =~= ctx.test_cases@.take(
                i as int,
            ));
            assert(ctx.test_cases@.take(i as int + 1).last() == ctx.test_cases@[i as int]);
        }
        if has_id(&ids, ctx.test_cases[i].id) {
            cases.push(copy_case(&ctx.test_cases[i]));
        }
        i += 1;
    }
    assert(ctx.test_cases@.take(i as int) =~= ctx.test_cases@);
    if cases.len() > 0 {
        return JudgePlan::Evaluate(cases);
    }
    let mut scores: Vec<S> = Vec::new();
    let discard_results = ctx.test_cases.len() > 0;
    if discard_results {
        let mut k: usize = 0;
        while k < ctx.subtask_defs.len()
            invariant
                k <= ctx.subtask_defs@.len(),
                scores@ == Seq::new(k as nat, |i: int| zero),
            decreases ctx.subtask_defs@.len() - k,
        {
            scores.push(zero);
            assert(scores@ =~= Seq::new((k + 1) as nat, |i: int| zero));
            k += 1;
        }
    }
    assert(scores@ =~= Seq::new(
        if ctx.test_cases@.len() == 0 {
            0
        } else {
            ctx.subtask_defs@.len()
        },
        |i: int| zero,
    ));
    JudgePlan::Finish {
        update: accept_without_points(at, zero),
        discard_results,
        result: JudgeResult {
            output: OnSubmissionOutput { success: true, error_message: None },
            submission_score: Some(zero),
            subtask_scores: Some(scores),
        },
    }
}

/// The scores of the judged cases, under their names. A later outcome of a
/// case takes the place of an earlier one.
pub open spec fn keyed_scores<S>(
    outcomes: Seq<EvalOutcome<S>>,
    cases: Seq<TestCaseRow<S>>,
) -> Map<Seq<char>, Raw<S>>
    decreases outcomes.len(),
{
    if outcomes.len() == 0 {
        Map::empty()
    } else {
        let rest = keyed_scores(outcomes.drop_last(), cases);
        let o = outcomes.last();
        match judging::case_at(cases, o.test_case_id) {
            Some(tc) => if o.verdict.not_judged() {
                rest
            } else {
                subtasks::under_keys(rest, tc, o.raw_score)
            },
            None => rest,
        }
    }
}

/// The scores of the judged cases, under their names.
pub fn scores_of_outcomes<S: Copy>(
    outcomes: &Vec<EvalOutcome<S>>,
    cases: &Vec<TestCaseRow<S>>,
) -> (r: TextMap<Raw<S>>)
    ensures
        r@ == keyed_scores(outcomes@, cases@),
{
    let mut out: TextMap<Raw<S>> = TextMap::new();
    let mut i: usize = 0;
    assert(outcomes@.take(0) =~= Seq::<EvalOutcome<S>>::empty());
    while i < outcomes.len()
        invariant
            i <= outcomes@.len(),
            out@ == keyed_scores(outcomes@.take(i as int), cases@),
        decreases outcomes@.len() - i,
    {
        proof {
            assert(outcomes@.take(i as int + 1).drop_last() =~= outcomes@.take(i as int));
            assert(outcomes@.take(i as int + 1).last() == outcomes@[i as int]);
        }
        let o = &outcomes[i];
        if !o.verdict.is_skipped_or_cancelled() {
            match find_case(cases, o.test_case_id) {
                Some(c) => {
                    out.insert(resolve_tc_label(&cases[c]).as_str(), o.raw_score);
                    out.insert(decimal_i64(cases[c].id as i64).as_str(), o.raw_score);
                },
                None => {},
            }
        }
        i += 1;
    }
    assert(outcomes@.take(i as int) =~= outcomes@);
    out
}

/// A total over these values, as `total` puts it into a number.
pub open spec fn totals_to<S, T: Fn(Vec<S>) -> S>(values: Seq<S>, r: S, total: T) -> bool {
    exists|v: Vec<S>| v@ == values && #[trigger] call_ensures(total, (v,), r)
}

/// Scores an evaluated submission: its subtasks, their total, and what is
/// written about it.
pub fn conclude_judgement<S: Copy, F: Fn(SubtaskPoints<S>) -> S, T: Fn(Vec<S>) -> S>(
    req: &OnSubmissionInput<S>,
    ctx: &JudgeContext<S>,
    outcomes: &Vec<EvalOutcome<S>>,
    units: Units<S>,
    points: &F,
    total: &T,
    severity: &Vec<u32>,
) -> (r: (SubmissionUpdate<S>, JudgeResult<S>))
    requires
        severity@.len() == outcomes@.len(),
        forall|p: SubtaskPoints<S>| #[trigger] call_requires(*points, (p,)),
        forall|v: Vec<S>| #[trigger] call_requires(*total, (v,)),
    ensures
        r.1.output.success,
        r.1.output.error_message is None,
        r.1.subtask_scores matches Some(scores) && subtasks::all_scored_as(
            scores@,
            ctx.subtask_defs@,
            ctx.test_cases@,
            keyed_scores(outcomes@, ctx.test_cases@),
            units,
            *points,
        ) && (r.1.submission_score matches Some(score) && totals_to(scores@, score, *total)
            && summary::terminal_update(
            r.0,
            judgement_of(*req, *ctx),
            outcomes@,
            severity@,
            if summary::any_judged(outcomes@) {
                score
            } else {
                units.zero
            },
        )),
{
    let tc_scores = scores_of_outcomes(outcomes, &ctx.test_cases);
    let results = score_all_subtasks(&ctx.subtask_defs, &ctx.test_cases, &tc_scores, units, points);
    let mut scores: Vec<S> = Vec::new();
    let mut copy: Vec<S> = Vec::new();
    let mut i: usize = 0;
    while i < results.len()
        invariant
            i <= results@.len(),
            scores@.len() == i,
            copy@ == scores@,
            forall|k: int| 0 <= k < i ==> #[trigger] scores@[k] == results@[k].score,
        decreases results@.len() - i,
    {
        scores.push(results[i].score);
        copy.push(results[i].score);
        i += 1;
    }
    assert(subtasks::all_scored_as(
        scores@,
        ctx.subtask_defs@,
        ctx.test_cases@,
        keyed_scores(outcomes@, ctx.test_cases@),
        units,
        *points,
    )) by {
        assert forall|k: int| 0 <= k < ctx.subtask_defs@.len() implies subtasks::scored_as(
            #[trigger] scores@[k],
            ctx.subtask_defs@[k],
            subtasks::weights_of(ctx.test_cases@),
            subtasks::by_all_keys(ctx.test_cases@, keyed_scores(outcomes@, ctx.test_cases@)),
            units,
            *points,
        ) by {
            assert(subtasks::result_is(
                results@[k],
                ctx.subtask_defs@[k],
                subtasks::weights_of(ctx.test_cases@),
                subtasks::by_all_keys(ctx.test_cases@, tc_scores@),
                units,
                *points,
            ));
        }
    }
    let ghost summed = copy;
    let score = total(copy);
    assert(summed@ == scores@ && call_ensures(*total, (summed,), score));
    assert(totals_to(scores@, score, *total));
    let at = JudgementRef {
        submission_id: ctx.submission_id,
        judgement_id: req.judgement_id,
        judge_epoch: req.judge_epoch,
    };
    let update = persist_results(at, outcomes, score, units.zero, severity);
    (
        update,
        JudgeResult {
            output: OnSubmissionOutput { success: true, error_message: None },
            submission_score: Some(score),
            subtask_scores: Some(scores),
        },
    )
}

/// The result of a judgement that another one has overtaken: no failure, and
/// no scores.
pub fn overtaken<S>() -> (r: JudgeResult<S>)
    ensures
        r.output.success,
        r.output.error_message is None,
        r.submission_score is None,
        r.subtask_scores is None,
{
    JudgeResult {
        output: OnSubmissionOutput { success: true, error_message: None },
        submission_score: None,
        subtask_scores: None,
    }
}

/// What is answered to a submission outside of any contest.
pub fn contest_required() -> (r: OnSubmissionOutput)
    ensures
        !r.success,
        r.error_message matches Some(m) && m@ == "IOI plugin requires contest_id"@,
{
    OnSubmissionOutput {
        success: false,
        error_message: Some("IOI plugin requires contest_id".to_owned()),
    }
}

/// A case that was skipped or cancelled scores nothing under any name, unless
/// it was judged as well.
pub proof fn unjudged_cases_have_no_score<S>(
    outcomes: Seq<EvalOutcome<S>>,
    cases: Seq<TestCaseRow<S>>,
)
    requires
        forall|i: int| 0 <= i < outcomes.len() ==> (#[trigger] outcomes[i]).verdict.not_judged(),
    ensures
        keyed_scores(outcomes, cases) == Map::<Seq<char>, Raw<S>>::empty(),
    decreases outcomes.len(),
{
    if outcomes.len() > 0 {
        assert forall|i: int| 0 <= i < outcomes.drop_last().len() implies (
        #[trigger] outcomes.drop_last()[i]).verdict.not_judged() by {
            assert(outcomes.drop_last()[i] == outcomes[i]);
        }
        unjudged_cases_have_no_score(outcomes.drop_last(), cases);
        assert(outcomes[outcomes.len() - 1].verdict.not_judged());
    }
}

} // verus!
