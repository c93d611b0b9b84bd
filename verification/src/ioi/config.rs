//! Settings of a contest and of its tasks.

use vstd::prelude::*;

use crate::judging::TestCaseRow;
use crate::text::decimal_i64;
use crate::text;

verus! {

/// How the score of a task comes from those of its submissions.
#[derive(Debug, Clone, Copy, PartialEq, Eq, Structural)]
pub enum ScoringMode {
    MaxSubmission,
    SumBestSubtask,
    BestTokenedOrLast,
}

/// How much a contestant is shown of a judged submission.
#[derive(Debug, Clone, Copy, PartialEq, Eq, Structural)]
pub enum FeedbackLevel {
    Full,
    SubtaskScores,
    TotalOnly,
    Nothing,
}

#[derive(Debug, Clone, Copy, PartialEq, Eq, Structural)]
pub enum ScoreboardVisibility {
    AdminsOnly,
    AllContestViewers,
}

/// What decides between equal scores.
#[derive(Debug, Clone, Copy, PartialEq, Eq, Structural)]
pub enum ScoreboardTiebreaker {
    EqualRank,
    SumScoreTime,
    MaxScoreTime,
}

#[derive(Debug, Clone, Copy, PartialEq, Eq, Structural)]
pub enum TokenMode {
    /// No tokens are needed.
    Off,
    FixedBudget,
    Regenerating,
}

/// How the points of a subtask come from its test cases.
#[derive(Debug, Clone, Copy, PartialEq, Eq, Structural)]
pub enum SubtaskScoringMethod {
    /// All points if every case scores in full, else none.
    GroupMin,
    /// The weighted mean of the cases' scores.
    Sum,
    /// The product of the cases' scores.
    GroupMul,
}

#[derive(Debug, Clone, Copy, PartialEq, Eq, Structural)]
pub struct TokenConfig {
    pub mode: TokenMode,
    pub initial: u32,
    pub max: u32,
    pub regen_interval_min: u32,
}

impl Default for TokenConfig {
    fn default() -> (r: Self)
        ensures
            r == (TokenConfig {
                mode: TokenMode::Off,
                initial: 0,
                max: 0,
                regen_interval_min: 0,
            }),
    {
        TokenConfig { mode: TokenMode::Off, initial: 0, max: 0, regen_interval_min: 0 }
    }
}

#[derive(Debug, Clone, Copy, PartialEq, Eq, Structural)]
pub struct ContestConfig {
    pub scoring_mode: ScoringMode,
    pub feedback_level: FeedbackLevel,
    pub scoreboard_visibility: ScoreboardVisibility,
    pub scoreboard_tiebreaker: ScoreboardTiebreaker,
    pub tokens: TokenConfig,
}

/// The settings of a contest that has none of its own.
pub open spec fn default_settings() -> ContestConfig {
    ContestConfig {
        scoring_mode: ScoringMode::MaxSubmission,
        feedback_level: FeedbackLevel::Full,
        scoreboard_visibility: ScoreboardVisibility::AdminsOnly,
        scoreboard_tiebreaker: ScoreboardTiebreaker::MaxScoreTime,
        tokens: TokenConfig {
            mode: TokenMode::Off,
            initial: 0,
            max: 0,
            regen_interval_min: 0,
        },
    }
}

impl Default for ContestConfig {
    fn default() -> (r: Self)
        ensures
            r == default_settings(),
    {
        ContestConfig {
            scoring_mode: ScoringMode::MaxSubmission,
            feedback_level: FeedbackLevel::Full,
            scoreboard_visibility: ScoreboardVisibility::AdminsOnly,
            scoreboard_tiebreaker: ScoreboardTiebreaker::MaxScoreTime,
            tokens: TokenConfig {
                mode: TokenMode::Off,
                initial: 0,
                max: 0,
                regen_interval_min: 0,
            },
        }
    }
}

/// A subtask. Its test cases are named by their labels or ids.
#[derive(Debug, Clone, PartialEq, Eq)]
pub struct SubtaskDef<S> {
    pub name: String,
    pub scoring_method: SubtaskScoringMethod,
    pub max_score: S,
    pub test_cases: Vec<String>,
}

#[derive(Debug, Clone, PartialEq, Eq)]
pub struct TaskConfig<S> {
    pub subtasks: Vec<SubtaskDef<S>>,
}

/// The label of a test case: its own where it has one, else its id.
pub open spec fn label_of<S>(tc: TestCaseRow<S>) -> Seq<char> {
    match tc.label {
        Some(l) => if l@.len() > 0 {
            l@
        } else {
            text::decimal_int(tc.id as int)
        },
        None => text::decimal_int(tc.id as int),
    }
}

pub fn resolve_tc_label<S>(tc: &TestCaseRow<S>) -> (r: String)
    ensures
        r@ == label_of(*tc),
{
    match &tc.label {
        Some(l) => if l.as_str().is_empty() {
            decimal_i64(tc.id as i64)
        } else {
            l.clone()
        },
        None => decimal_i64(tc.id as i64),
    }
}

} // verus!
