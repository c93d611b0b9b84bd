//! What is written about a judged submission.

use vstd::prelude::*;

use crate::icpc::evaluate::EvalResult;
use crate::judging::{JudgementRef, OnSubmissionInput, SubmissionStatus, SubmissionUpdate};
use crate::summary::final_update;
use crate::verdict::Verdict;
use crate::summary;

verus! {

/// The update that ends the judgement of an evaluated submission: one point if
/// it was accepted and judged at all.
pub fn persist_and_track<S>(at: JudgementRef, eval: &EvalResult<S>, severity: &Vec<u32>) -> (r:
    SubmissionUpdate<u8>)
    requires
        severity@.len() == eval.outcomes@.len(),
    ensures
        summary::terminal_update(
            r,
            at,
            eval.outcomes@,
            severity@,
            if eval.is_accepted && summary::any_judged(eval.outcomes@) {
                1u8
            } else {
                0u8
            },
        ),
{
    let score: u8 = if eval.is_accepted {
        1
    } else {
        0
    };
    final_update(at, &eval.outcomes, severity, score, 0)
}

/// What is to be done with a submission.
pub enum JudgePlan {
    Evaluate,
    Finish(SubmissionUpdate<u8>),
}

/// A submission to a problem without test cases: in a contest a system error,
/// so that it never counts as solved; else accepted without points.
pub open spec fn empty_update(u: SubmissionUpdate<u8>, at: JudgementRef, in_contest: bool) -> bool {
    &&& u.submission_id == at.submission_id
    &&& u.judgement_id == at.judgement_id
    &&& u.judge_epoch == at.judge_epoch
    &&& u.status == Some(SubmissionStatus::Judged)
    &&& u.verdict == Some(
        Some(
            if in_contest {
                Verdict::SystemError
            } else {
                Verdict::Accepted
            },
        ),
    )
    &&& u.score == Some(0u8)
    &&& u.time_used == Some(None::<i32>)
    &&& u.memory_used == Some(None::<i32>)
    &&& u.compile_output is None
    &&& if in_contest {
        &&& u.error_code matches Some(Some(c)) && c@ == "NO_TEST_CASES"@
        &&& u.error_message matches Some(Some(m)) && m@
            == "Problem has no test cases; cannot be judged"@
    } else {
        u.error_code is None && u.error_message is None
    }
}

/// Decides what to do with a submission.
pub fn plan_judge<S>(req: &OnSubmissionInput<S>) -> (r: JudgePlan)
    ensures
        if req.test_cases@.len() > 0 {
            r is Evaluate
        } else {
            r matches JudgePlan::Finish(u) && empty_update(
                u,
                (JudgementRef {
                    submission_id: req.submission_id,
                    judgement_id: req.judgement_id,
                    judge_epoch: req.judge_epoch,
                }),
                req.contest_id is Some,
            )
        },
{
    if req.test_cases.len() > 0 {
        return JudgePlan::Evaluate;
    }
    let in_contest = req.contest_id.is_some();
    let (error_code, error_message) = if in_contest {
        (
            Some(Some("NO_TEST_CASES".to_owned())),
            Some(Some("Problem has no test cases; cannot be judged".to_owned())),
        )
    } else {
        (None, None)
    };
    JudgePlan::Finish(
        SubmissionUpdate {
            submission_id: req.submission_id,
            judgement_id: req.judgement_id,
            judge_epoch: req.judge_epoch,
            status: Some(SubmissionStatus::Judged),
            verdict: Some(
                Some(
                    if in_contest {
                        Verdict::SystemError
                    } else {
                        Verdict::Accepted
                    },
                ),
            ),
            score: Some(0),
            time_used: Some(None),
            memory_used: Some(None),
            compile_output: None,
            error_code,
            error_message,
        },
    )
}

} // verus!
