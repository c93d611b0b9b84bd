//! What is written about a judged submission.

use vstd::prelude::*;

use crate::judging::{EvalOutcome, JudgementRef, SubmissionUpdate};
use crate::summary::final_update;
use crate::summary;

verus! {

/// The update that ends the judgement of an evaluated submission: with the
/// score of its subtasks, and none where no case was judged.
pub fn persist_results<S>(
    at: JudgementRef,
    outcomes: &Vec<EvalOutcome<S>>,
    submission_score: S,
    zero: S,
    severity: &Vec<u32>,
) -> (r: SubmissionUpdate<S>)
    requires
        severity@.len() == outcomes@.len(),
    ensures
        summary::terminal_update(
            r,
            at,
            outcomes@,
            severity@,
            if summary::any_judged(outcomes@) {
                submission_score
            } else {
                zero
            },
        ),
{
    final_update(at, outcomes, severity, submission_score, zero)
}

} // verus!
