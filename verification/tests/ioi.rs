//! The IOI contest.

use std::cmp::Ordering;
use std::collections::VecDeque;

use broccoli_plugins::checkers::types::{JudgeFile, SourceFile};
use broccoli_plugins::icpc::evaluate::{start_failed, PollEvent};
use broccoli_plugins::ioi::config::{
    resolve_tc_label, ContestConfig, FeedbackLevel, ScoreboardTiebreaker, ScoreboardVisibility,
    ScoringMode, SubtaskDef, SubtaskScoringMethod, TaskConfig, TokenConfig, TokenMode,
};
use broccoli_plugins::ioi::evaluate::{next_step, GroupEval, GroupJudgeStep};
use broccoli_plugins::ioi::feedback::{
    contests_needed, decide_visibility_decisions, mask_for_level, none_level_mask_fields,
    per_test_case_mask_fields, viewer_token_keys, visibility_rows_query, ContestView,
    SubmissionVisibilityRow,
};
use broccoli_plugins::ioi::judge::{
    conclude_judgement, contest_required, judge_with_context, overtaken, scores_of_outcomes,
    JudgeContext, JudgePlan, JudgeResult,
};
use broccoli_plugins::ioi::persist::persist_results;
use broccoli_plugins::ioi::score::{
    group_by_submission, normalized_raw_score, official_best, official_tokened_or_last,
    plan_official_score, rate_task_rows, score_submission_subtask_details, sum_best_subtask_score,
    OfficialPlan, SubmissionScores, SubtaskScoreDetail, TcMaxScore, TcResultRow,
};
use broccoli_plugins::ioi::scoreboard::{
    best_tokened_or_last_cell, best_tokened_or_last_cells, board_results_query,
    combined_score_time_seconds, compare_scoreboard_entries, full_scoreboard_visible_for_phase,
    last_submission_query, max_submission_cells, max_submission_query, rate_board_rows,
    scoreboard_entries_tied, sum_best_subtask_cell, sum_best_subtask_cells, token_keys,
    tokened_submission_query, tokened_submissions, MaxSubmissionScoreboardRow, ScoreboardCell,
    ScoreboardSubmissionRow, ScoreboardTcScoreRow, TaskSetup,
};
use broccoli_plugins::ioi::scoring::{
    score_best_tokened_or_last, score_max_submission, score_sum_best_subtask,
};
use broccoli_plugins::ioi::short_circuit::SubtaskShortCircuit;
use broccoli_plugins::ioi::subtasks::{
    build_default_subtasks, compute_scoring_test_case_ids, effective_subtasks, score_subtask,
    SubtaskPoints, SubtaskResult, Units,
};
use broccoli_plugins::ioi::tokens::{available_tokens, is_tokened, token_key, TokenState};
use broccoli_plugins::judging::{
    build_batch_input, record_outcomes, to_outcome, EvalOutcome, JudgementRef, OnSubmissionInput,
    Points, Raw, RawClass, RowBuffer, SubmissionStatus, SubmissionUpdate, TestCaseResultRow,
    TestCaseRow, TestCaseVerdict,
};
use broccoli_plugins::sql::{Query, SqlValue};
use broccoli_plugins::summary::still_current;
use broccoli_plugins::textmap::TextMap;
use broccoli_plugins::verdict::Verdict;
use broccoli_plugins::visibility::{
    QueryContext, QueryResource, QuerySubject, VisibilityQueryInput, WireDecision,
};

const VIEW_ALL: &str = "submission:view_all";

const UNITS: Units<f64> = Units {
    zero: 0.0,
    one: 1.0,
};

fn round_score(score: f64) -> f64 {
    (score * 100.0).round() / 100.0
}

/// Hundredths of a point.
fn cents(score: f64) -> i64 {
    (score * 100.0).round() as i64
}

/// The points of a subtask.
fn points(p: SubtaskPoints<f64>) -> f64 {
    round_score(match p {
        SubtaskPoints::Nothing => 0.0,
        SubtaskPoints::Full { max } => max,
        SubtaskPoints::Mean { max, parts } => {
            let weight: f64 = parts.iter().map(|(w, _)| w).sum();
            let sum: f64 = parts.iter().map(|(w, s)| w * s).sum();
            if weight > 0.0 {
                max * sum / weight
            } else {
                0.0
            }
        }
        SubtaskPoints::Product { max, factors } => max * factors.iter().product::<f64>(),
    })
}

fn cent_points(p: SubtaskPoints<f64>) -> i64 {
    cents(points(p))
}

fn total(scores: Vec<f64>) -> f64 {
    round_score(scores.iter().sum())
}

fn raw(value: f64) -> Raw<f64> {
    Raw {
        value,
        class: if value <= 0.0 {
            RawClass::Zero
        } else if value >= 1.0 {
            RawClass::Full
        } else {
            RawClass::Partial
        },
    }
}

fn ratio(score: f64, max: f64) -> Raw<f64> {
    raw((score / max).clamp(0.0, 1.0))
}

fn weight(value: f64) -> Points<f64> {
    Points {
        value,
        positive: value > 0.0,
    }
}

fn case(id: i32, score: f64, is_sample: bool, label: Option<&str>) -> TestCaseRow<f64> {
    TestCaseRow {
        id,
        score: weight(score),
        is_sample,
        position: id,
        description: None,
        label: label.map(String::from),
        input: JudgeFile::Missing,
        expected_output: JudgeFile::Missing,
        is_custom: false,
    }
}

fn make_def(
    method: SubtaskScoringMethod,
    max_score: f64,
    labels: Vec<&str>,
) -> SubtaskDef<f64> {
    SubtaskDef {
        name: "Test".into(),
        scoring_method: method,
        max_score,
        test_cases: labels.into_iter().map(String::from).collect(),
    }
}

fn scores(pairs: &[(&str, f64)]) -> TextMap<Raw<f64>> {
    let mut map = TextMap::new();
    for (k, v) in pairs {
        map.insert(k, raw(*v));
    }
    map
}

fn scored(
    def: &SubtaskDef<f64>,
    cases: Vec<TestCaseRow<f64>>,
    s: &TextMap<Raw<f64>>,
) -> SubtaskResult<f64, f64> {
    score_subtask(def, &cases, s, UNITS, &points)
}

// --- scoring --------------------------------------------------------------

#[test]
fn max_new_higher() {
    assert_eq!(score_max_submission(cents(80.0), cents(50.0)), cents(80.0));
}

#[test]
fn max_historical_higher() {
    assert_eq!(score_max_submission(cents(30.0), cents(70.0)), cents(70.0));
}

#[test]
fn max_equal() {
    assert_eq!(score_max_submission(cents(50.0), cents(50.0)), cents(50.0));
}

fn table(rows: &[&[f64]]) -> Vec<Vec<i64>> {
    rows.iter()
        .map(|r| r.iter().map(|s| cents(*s)).collect())
        .collect()
}

#[test]
fn sum_best_first_submission() {
    let scores = table(&[&[10.0, 20.0, 30.0]]);
    assert_eq!(score_sum_best_subtask(&scores), cents(60.0) as i128);
}

#[test]
fn sum_best_improves_one() {
    let scores = table(&[
        &[10.0, 20.0, 30.0], // sub 1
        &[10.0, 50.0, 10.0], // sub 2: subtask 1 same, subtask 2 better, subtask 3 worse
    ]);
    // best per subtask: [10, 50, 30] = 90
    assert_eq!(score_sum_best_subtask(&scores), cents(90.0) as i128);
}

#[test]
fn sum_best_no_submissions() {
    assert_eq!(score_sum_best_subtask(&vec![]), 0);
}

#[test]
fn sum_best_no_improvement() {
    let scores = table(&[
        &[30.0, 30.0],
        &[20.0, 20.0], // worse on both
    ]);
    assert_eq!(score_sum_best_subtask(&scores), cents(60.0) as i128);
}

#[test]
fn tokened_better() {
    assert_eq!(
        score_best_tokened_or_last(cents(80.0), cents(50.0)),
        cents(80.0)
    );
}

#[test]
fn last_better() {
    assert_eq!(
        score_best_tokened_or_last(cents(30.0), cents(70.0)),
        cents(70.0)
    );
}

#[test]
fn no_tokened_subs() {
    // If no tokened submissions, tokened_best is 0
    assert_eq!(score_best_tokened_or_last(0, cents(45.0)), cents(45.0));
}

// --- tokens ---------------------------------------------------------------

fn fixed_config(initial: u32) -> TokenConfig {
    TokenConfig {
        mode: TokenMode::FixedBudget,
        initial,
        max: initial,
        regen_interval_min: 30,
    }
}

fn regen_config(initial: u32, max: u32, interval: u32) -> TokenConfig {
    TokenConfig {
        mode: TokenMode::Regenerating,
        initial,
        max,
        regen_interval_min: interval,
    }
}

#[test]
fn none_unlimited() {
    let config = TokenConfig {
        mode: TokenMode::Off,
        ..Default::default()
    };
    let state = TokenState::default();
    assert_eq!(available_tokens(&config, &state, 0), u32::MAX);
}

#[test]
fn fixed_initial() {
    let config = fixed_config(5);
    let state = TokenState {
        used: 2,
        ..Default::default()
    };
    assert_eq!(available_tokens(&config, &state, 0), 3);
}

#[test]
fn fixed_exhausted() {
    let config = fixed_config(3);
    let state = TokenState {
        used: 3,
        ..Default::default()
    };
    assert_eq!(available_tokens(&config, &state, 0), 0);
}

#[test]
fn regen_initial() {
    let config = regen_config(2, 10, 30);
    let state = TokenState::default();
    assert_eq!(available_tokens(&config, &state, 0), 2);
}

#[test]
fn regen_after_interval() {
    let config = regen_config(2, 10, 30);
    let state = TokenState::default();
    // After 60 minutes: 2 + 60/30 = 4
    assert_eq!(available_tokens(&config, &state, 60), 4);
}

#[test]
fn regen_capped() {
    let config = regen_config(2, 5, 30);
    let state = TokenState::default();
    // After 300 min: 2 + 10 = 12, capped at 5
    assert_eq!(available_tokens(&config, &state, 300), 5);
}

#[test]
fn regen_with_used() {
    let config = regen_config(2, 10, 30);
    let state = TokenState {
        used: 3,
        ..Default::default()
    };
    // After 60 min: min(2 + 2, 10) - 3 = 1
    assert_eq!(available_tokens(&config, &state, 60), 1);
}

#[test]
fn tokens_are_kept_by_contest_and_user() {
    assert_eq!(token_key(10, 2), "tokens:10:2");
    let state = TokenState {
        used: 1,
        tokened_submission_ids: vec![7],
    };
    assert!(is_tokened(&state, 7));
    assert!(!is_tokened(&state, 8));
    // No interval counts as one minute.
    assert_eq!(
        available_tokens(&regen_config(0, 9, 0), &TokenState::default(), 5),
        5
    );
}

// --- subtasks -------------------------------------------------------------

#[test]
fn group_min_all_pass() {
    let def = make_def(SubtaskScoringMethod::GroupMin, 30.0, vec!["1", "2", "3"]);
    let s = scores(&[("1", 1.0), ("2", 1.0), ("3", 1.0)]);
    assert_eq!(scored(&def, vec![], &s).score, 30.0);
}

#[test]
fn group_min_one_fail() {
    let def = make_def(SubtaskScoringMethod::GroupMin, 30.0, vec!["1", "2", "3"]);
    let s = scores(&[("1", 1.0), ("2", 0.5), ("3", 1.0)]);
    assert_eq!(scored(&def, vec![], &s).score, 0.0);
}

#[test]
fn group_min_empty() {
    let def = make_def(SubtaskScoringMethod::GroupMin, 30.0, vec![]);
    assert_eq!(scored(&def, vec![], &scores(&[])).score, 0.0);
}

#[test]
fn sum_proportional() {
    let def = make_def(SubtaskScoringMethod::Sum, 100.0, vec!["1", "2"]);
    let s = scores(&[("1", 1.0), ("2", 1.0)]);
    assert_eq!(scored(&def, vec![], &s).score, 100.0);
}

#[test]
fn sum_partial_scores() {
    let def = make_def(SubtaskScoringMethod::Sum, 100.0, vec!["1", "2"]);
    let s = scores(&[("1", 0.5), ("2", 0.5)]);
    assert_eq!(scored(&def, vec![], &s).score, 50.0);
}

#[test]
fn subtask_member_referenced_by_numeric_id_scores_via_label_keyed_map() {
    // tc id=42 has an explicit label "big_01"; the score map is keyed by
    // label. A subtask that references the member by its numeric id must
    // still resolve it.
    let tc = case(42, 30.0, false, Some("big_01"));
    let s = scores(&[("big_01", 1.0)]);

    let group_min = make_def(SubtaskScoringMethod::GroupMin, 30.0, vec!["42"]);
    assert_eq!(scored(&group_min, vec![tc.clone()], &s).score, 30.0);

    let sum = make_def(SubtaskScoringMethod::Sum, 100.0, vec!["42"]);
    assert_eq!(scored(&sum, vec![tc], &s).score, 100.0);
}

#[test]
fn sum_all_zero() {
    let def = make_def(SubtaskScoringMethod::Sum, 100.0, vec!["1", "2"]);
    let s = scores(&[("1", 0.0), ("2", 0.0)]);
    assert_eq!(scored(&def, vec![], &s).score, 0.0);
}

#[test]
fn sum_empty() {
    let def = make_def(SubtaskScoringMethod::Sum, 100.0, vec![]);
    assert_eq!(scored(&def, vec![], &scores(&[])).score, 0.0);
}

#[test]
fn group_mul_all_perfect() {
    let def = make_def(SubtaskScoringMethod::GroupMul, 50.0, vec!["1", "2"]);
    let s = scores(&[("1", 1.0), ("2", 1.0)]);
    assert_eq!(scored(&def, vec![], &s).score, 50.0);
}

#[test]
fn group_mul_one_half() {
    let def = make_def(SubtaskScoringMethod::GroupMul, 50.0, vec!["1", "2"]);
    let s = scores(&[("1", 1.0), ("2", 0.5)]);
    assert_eq!(scored(&def, vec![], &s).score, 25.0);
}

#[test]
fn group_mul_one_zero() {
    let def = make_def(SubtaskScoringMethod::GroupMul, 50.0, vec!["1", "2"]);
    let s = scores(&[("1", 1.0), ("2", 0.0)]);
    assert_eq!(scored(&def, vec![], &s).score, 0.0);
}

#[test]
fn missing_tc_treated_as_zero() {
    let def = make_def(SubtaskScoringMethod::Sum, 100.0, vec!["1", "2", "3"]);
    let s = scores(&[("1", 1.0)]); // 2 and 3 missing
                                   // 100 * (1.0 + 0.0 + 0.0) / 3 = 33.33
    assert_eq!(scored(&def, vec![], &s).score, 33.33);
}

#[test]
fn build_default_subtasks_creates_single_sum_group() {
    let test_cases = vec![
        case(1, 30.0, false, Some("tc_1")),
        case(2, 70.0, false, Some("tc_2")),
    ];
    let defs = build_default_subtasks(&test_cases, &total);
    assert_eq!(defs.len(), 1);
    assert_eq!(defs[0].max_score, 100.0);
    assert_eq!(defs[0].scoring_method, SubtaskScoringMethod::Sum);
    assert_eq!(defs[0].test_cases, vec!["tc_1", "tc_2"]);
}

#[test]
fn build_default_subtasks_fallback_to_id() {
    let test_cases = vec![case(1, 50.0, false, None), case(2, 50.0, false, None)];
    let defs = build_default_subtasks(&test_cases, &total);
    assert_eq!(defs[0].test_cases, vec!["1", "2"]);
}

#[test]
fn build_default_subtasks_ignores_samples_and_zero_point_cases() {
    let test_cases = vec![
        case(1, 0.0, true, Some("sample_01")),
        case(2, 0.0, false, Some("zero_01")),
        case(3, 100.0, false, Some("tc_01")),
    ];

    let defs = build_default_subtasks(&test_cases, &total);
    assert_eq!(defs.len(), 1);
    assert_eq!(defs[0].max_score, 100.0);
    assert_eq!(defs[0].test_cases, vec!["tc_01"]);
}

#[test]
fn build_default_subtasks_empty() {
    let defs = build_default_subtasks(&vec![], &total);
    assert!(defs.is_empty());
}

#[test]
fn compute_scoring_test_case_ids_keeps_nested_subtask_members() {
    let test_cases = vec![
        case(1, 0.0, true, Some("sample")),
        case(2, 0.0, false, Some("group_a_zero")),
        case(3, 20.0, false, Some("group_a_scored")),
        case(4, 0.0, false, Some("unused_zero")),
    ];
    let defs = vec![make_def(
        SubtaskScoringMethod::GroupMin,
        20.0,
        vec!["group_a_zero", "group_a_scored"],
    )];

    let ids = compute_scoring_test_case_ids(&defs, &test_cases);

    assert_eq!(ids, vec![1, 2, 3]);
}

#[test]
fn compute_scoring_test_case_ids_deduplicates_overlapping_subtasks_by_test_case_order() {
    let test_cases = vec![
        case(1, 0.0, false, Some("shared")),
        case(2, 0.0, false, Some("only_b")),
        case(3, 0.0, false, Some("unused")),
    ];
    let defs = vec![
        make_def(SubtaskScoringMethod::GroupMin, 10.0, vec!["shared"]),
        make_def(
            SubtaskScoringMethod::GroupMin,
            10.0,
            vec!["shared", "only_b"],
        ),
    ];

    let ids = compute_scoring_test_case_ids(&defs, &test_cases);

    assert_eq!(ids, vec![1, 2]);
}

#[test]
fn compute_scoring_test_case_ids_without_subtasks_keeps_only_samples_and_positive_scores() {
    let test_cases = vec![
        case(1, 0.0, true, Some("sample")),
        case(2, 10.0, false, Some("scored")),
        case(3, 0.0, false, Some("unused_zero")),
    ];

    let ids = compute_scoring_test_case_ids(&vec![], &test_cases);

    assert_eq!(ids, vec![1, 2]);
}

#[test]
fn compute_scoring_test_case_ids_keeps_labeled_zero_score_member_referenced_by_id() {
    let test_cases = vec![
        case(1, 0.0, false, Some("unused")),
        case(2, 0.0, false, Some("named_zero")),
    ];
    let defs = vec![make_def(SubtaskScoringMethod::GroupMin, 10.0, vec!["2"])];

    let ids = compute_scoring_test_case_ids(&defs, &test_cases);

    assert_eq!(ids, vec![2]);
}

#[test]
fn configured_subtasks_take_precedence() {
    let cases = vec![case(1, 30.0, false, Some("")), case(2, 70.0, false, Some("b"))];
    assert_eq!(resolve_tc_label(&cases[0]), "1");
    let own = vec![make_def(SubtaskScoringMethod::Sum, 5.0, vec!["b"])];
    assert_eq!(effective_subtasks(own.clone(), &cases, &total), own);
    let default = effective_subtasks(vec![], &cases, &total);
    assert_eq!(default[0].name, "All Tests");
    assert_eq!(default[0].test_cases, vec!["1", "b"]);
}

// --- evaluation -----------------------------------------------------------

fn test_case(id: i32) -> TestCaseRow<f64> {
    case(id, 10.0, false, None)
}

fn test_submission(test_cases: Vec<TestCaseRow<f64>>) -> OnSubmissionInput<f64> {
    OnSubmissionInput {
        submission_id: 1,
        judgement_id: 1,
        fire_after_judging: true,
        user_id: 1,
        problem_id: 10,
        contest_id: Some(1),
        files: vec![SourceFile {
            filename: "sol.cpp".into(),
            content: "int main(){}".into(),
        }],
        language: "cpp".into(),
        time_limit_ms: 1000,
        memory_limit_kb: 262144,
        problem_type: "standard".into(),
        test_cases,
        judge_epoch: 0,
        target_worker_id: None,
    }
}

fn verdict_of(id: i32, verdict: Verdict, score: f64) -> TestCaseVerdict<f64> {
    TestCaseVerdict {
        test_case_id: id,
        verdict,
        score: raw(score),
        time_used_ms: Some(10),
        memory_used_kb: Some(256),
        message: None,
        stdout: None,
        stderr: None,
    }
}

fn accepted(id: i32) -> PollEvent<f64> {
    PollEvent::Result(verdict_of(id, Verdict::Accepted, 1.0))
}

fn partial(id: i32, score: f64) -> PollEvent<f64> {
    PollEvent::Result(verdict_of(id, Verdict::Accepted, score))
}

fn wrong_answer(id: i32) -> PollEvent<f64> {
    PollEvent::Result(verdict_of(id, Verdict::WrongAnswer, 0.0))
}

fn compile_failure(id: i32) -> PollEvent<f64> {
    PollEvent::Result(verdict_of(id, Verdict::CompileError, 0.0))
}

fn severity(v: Verdict) -> u32 {
    match v {
        Verdict::Accepted => 0,
        Verdict::Skipped => 1,
        Verdict::Cancelled => 2,
        Verdict::WrongAnswer => 3,
        Verdict::TimeLimitExceeded => 4,
        Verdict::MemoryLimitExceeded => 5,
        Verdict::RuntimeError => 6,
        Verdict::CompileError => 7,
        Verdict::SystemError => 8,
    }
}

fn severities(outcomes: &Vec<EvalOutcome<f64>>) -> Vec<u32> {
    outcomes.iter().map(|o| severity(o.verdict)).collect()
}

/// A host that runs up to four cases at a time and remembers what it was told.
struct Worker {
    events: VecDeque<PollEvent<f64>>,
    start_error: Option<String>,
    stale: bool,
    statuses: Vec<SubmissionStatus>,
    batches: Vec<Vec<i32>>,
    active: Vec<i32>,
    cancels: Vec<Vec<i32>>,
    rows: Vec<TestCaseResultRow<f64>>,
    inserts: usize,
    cancelled: bool,
}

impl Worker {
    fn new(events: Vec<PollEvent<f64>>) -> Self {
        Worker {
            events: events.into(),
            start_error: None,
            stale: false,
            statuses: vec![],
            batches: vec![],
            active: vec![],
            cancels: vec![],
            rows: vec![],
            inserts: 0,
            cancelled: false,
        }
    }

    fn update(&mut self, status: SubmissionStatus) -> Result<(), String> {
        if !still_current(if self.stale { 0 } else { 1 }) {
            self.cancelled = true;
            return Err("stale epoch".into());
        }
        self.statuses.push(status);
        Ok(())
    }

    fn start(&mut self, ids: Vec<i32>) {
        if !ids.is_empty() {
            self.active.extend(&ids);
            self.batches.push(ids);
        }
    }

    /// Cancels cases, batch by batch.
    fn cancel(&mut self, ids: &[i32]) {
        for batch in self.batches.clone() {
            let mine: Vec<i32> = batch
                .iter()
                .copied()
                .filter(|id| ids.contains(id) && self.active.contains(id))
                .collect();
            if !mine.is_empty() {
                self.active.retain(|id| !mine.contains(id));
                self.cancels.push(mine);
            }
        }
    }

    fn insert(&mut self, batches: Vec<Vec<TestCaseResultRow<f64>>>) {
        for rows in batches {
            self.inserts += 1;
            self.rows.extend(rows);
        }
    }

    fn evaluate(
        &mut self,
        req: &OnSubmissionInput<f64>,
        cases: &Vec<TestCaseRow<f64>>,
        subtasks: &Vec<SubtaskDef<f64>>,
    ) -> Result<Vec<EvalOutcome<f64>>, String> {
        let at = JudgementRef {
            submission_id: req.submission_id,
            judgement_id: req.judgement_id,
            judge_epoch: req.judge_epoch,
        };
        let mut buffer = RowBuffer::new();
        let mut eval = GroupEval::new(subtasks, cases, 0.0);
        if let Some(error) = &self.start_error {
            let outcomes = start_failed(&eval.ids, 0.0, error);
            let rows = record_outcomes(&mut buffer, at, &outcomes, 0, cases, true);
            self.insert(rows);
            return Ok(outcomes);
        }
        let batch = build_batch_input(req, cases);
        let mut queue: VecDeque<i32> = batch.test_cases.iter().map(|c| c.test_case_id).collect();
        let first = (0..4).filter_map(|_| queue.pop_front()).collect();
        self.start(first);
        self.update(SubmissionStatus::Compiling)?;
        while !eval.finished {
            let event = self.events.pop_front().unwrap();
            if let PollEvent::Result(v) = &event {
                self.active.retain(|id| *id != v.test_case_id);
                if eval.should_refill(v) {
                    let next = queue.pop_front().into_iter().collect();
                    self.start(next);
                }
            }
            if eval.must_mark_running(&event) {
                self.update(SubmissionStatus::Running)?;
                eval.mark_running();
            }
            let step = eval.on_event(event);
            let rows = record_outcomes(
                &mut buffer,
                at,
                &eval.outcomes,
                step.recorded_from,
                cases,
                step.finished,
            );
            self.insert(rows);
            if step.cancel_all {
                self.cancelled = true;
            }
            if !step.cancel.is_empty() {
                self.cancel(&step.cancel);
                queue.retain(|id| !step.cancel.contains(id));
                let step = eval.on_cancelled(Some(step.cancel.len()));
                let rows = record_outcomes(
                    &mut buffer,
                    at,
                    &eval.outcomes,
                    step.recorded_from,
                    cases,
                    step.finished,
                );
                self.insert(rows);
                while self.active.len() < 4 && !queue.is_empty() {
                    let next = queue.pop_front().into_iter().collect();
                    self.start(next);
                }
            }
        }
        Ok(eval.outcomes)
    }
}

fn skipped(outcomes: &[EvalOutcome<f64>]) -> Vec<i32> {
    outcomes
        .iter()
        .filter(|o| o.verdict == Verdict::Skipped)
        .map(|o| o.test_case_id)
        .collect()
}

fn subtask(method: SubtaskScoringMethod, ids: std::ops::RangeInclusive<i32>) -> SubtaskDef<f64> {
    SubtaskDef {
        name: "All".into(),
        scoring_method: method,
        max_score: 100.0,
        test_cases: ids.map(|id| id.to_string()).collect(),
    }
}

#[test]
fn starts_four_case_initial_window_for_ten_test_cases() {
    let tcs = (1..=10).map(test_case).collect::<Vec<_>>();
    let req = test_submission(tcs.clone());
    let mut host = Worker::new((1..=10).map(accepted).collect());

    let outcomes = host.evaluate(&req, &tcs, &vec![]).unwrap();

    assert_eq!(outcomes.len(), 10);
    assert_eq!(
        host.batches,
        vec![
            vec![1, 2, 3, 4],
            vec![5],
            vec![6],
            vec![7],
            vec![8],
            vec![9],
            vec![10],
        ]
    );
    assert_eq!(host.statuses.len(), 2);
    assert_eq!(host.statuses[0], SubmissionStatus::Compiling);
    assert_eq!(host.statuses[1], SubmissionStatus::Running);
}

#[test]
fn evaluate_batch_stale_epoch_cancels_active_windowed_evaluation() {
    let tcs = (1..=10).map(test_case).collect::<Vec<_>>();
    let req = test_submission(tcs.clone());
    let mut host = Worker::new(vec![]);
    host.stale = true;

    assert!(host.evaluate(&req, &tcs, &vec![]).is_err());
    assert_eq!(host.batches, vec![vec![1, 2, 3, 4]]);
    assert!(host.cancelled);
    let result: JudgeResult<f64> = overtaken();
    assert!(result.output.success);
    assert_eq!(result.submission_score, None);
}

#[test]
fn compile_error_does_not_refill_but_fills_remaining_cases() {
    let tcs = (1..=10).map(test_case).collect::<Vec<_>>();
    let req = test_submission(tcs.clone());
    let mut host = Worker::new(vec![compile_failure(1)]);

    let outcomes = host.evaluate(&req, &tcs, &vec![]).unwrap();

    assert_eq!(outcomes.len(), 10);
    assert_eq!(outcomes[0].verdict, Verdict::CompileError);
    assert!(outcomes[1..].iter().all(|o| o.verdict == Verdict::Skipped));
    assert_eq!(host.batches, vec![vec![1, 2, 3, 4]]);
    assert_eq!(host.rows.len(), 10);
    assert!(host.cancelled);
    assert_eq!(host.statuses.len(), 1);
    assert_eq!(host.statuses[0], SubmissionStatus::Compiling);
}

#[test]
fn group_min_short_circuits_remaining_exclusive_cases() {
    let tcs = (1..=10).map(test_case).collect::<Vec<_>>();
    let req = test_submission(tcs.clone());
    let subtasks = vec![subtask(SubtaskScoringMethod::GroupMin, 1..=10)];
    let mut host = Worker::new(vec![accepted(1), accepted(2), partial(3, 0.5)]);

    let outcomes = host.evaluate(&req, &tcs, &subtasks).unwrap();

    assert_eq!(skipped(&outcomes), vec![4, 5, 6, 7, 8, 9, 10]);
    assert_eq!(host.cancels, vec![vec![4], vec![5], vec![6]]);
    assert_eq!(host.batches, vec![vec![1, 2, 3, 4], vec![5], vec![6]]);
}

#[test]
fn sum_subtask_does_not_short_circuit_on_partial_score() {
    let tcs = (1..=5).map(test_case).collect::<Vec<_>>();
    let req = test_submission(tcs.clone());
    let subtasks = vec![subtask(SubtaskScoringMethod::Sum, 1..=5)];
    let mut host = Worker::new(vec![
        accepted(1),
        partial(2, 0.0),
        accepted(3),
        accepted(4),
        accepted(5),
    ]);

    let outcomes = host.evaluate(&req, &tcs, &subtasks).unwrap();

    assert_eq!(outcomes.len(), 5);
    assert!(outcomes.iter().all(|o| o.verdict != Verdict::Skipped));
    assert!(host.cancels.is_empty());
}

#[test]
fn overlapping_subtasks_cancel_only_cases_not_needed_by_active_subtasks() {
    let tcs = (1..=5).map(test_case).collect::<Vec<_>>();
    let req = test_submission(tcs.clone());
    let subtasks = vec![
        subtask(SubtaskScoringMethod::GroupMin, 1..=2),
        subtask(SubtaskScoringMethod::GroupMin, 1..=5),
    ];
    let mut host = Worker::new(vec![accepted(1), accepted(2), wrong_answer(3)]);

    let outcomes = host.evaluate(&req, &tcs, &subtasks).unwrap();

    assert_eq!(skipped(&outcomes), vec![4, 5]);
    assert_eq!(host.cancels, vec![vec![4], vec![5]]);
}

fn nested() -> (Vec<TestCaseRow<f64>>, Vec<SubtaskDef<f64>>) {
    (
        vec![
            case(1, 50.0, false, Some("parent_fail")),
            case(2, 0.0, false, Some("child_zero")),
            case(3, 50.0, false, Some("child_score")),
        ],
        vec![
            SubtaskDef {
                name: "Parent".into(),
                scoring_method: SubtaskScoringMethod::GroupMin,
                max_score: 50.0,
                test_cases: vec![
                    "parent_fail".into(),
                    "child_zero".into(),
                    "child_score".into(),
                ],
            },
            SubtaskDef {
                name: "NestedChild".into(),
                scoring_method: SubtaskScoringMethod::GroupMin,
                max_score: 50.0,
                test_cases: vec!["child_zero".into(), "child_score".into()],
            },
        ],
    )
}

#[test]
fn nested_subtask_zero_score_sibling_stays_active_after_parent_failure() {
    let (tcs, subtasks) = nested();
    let req = test_submission(tcs.clone());
    let mut host = Worker::new(vec![wrong_answer(1), accepted(2), accepted(3)]);

    let outcomes = host.evaluate(&req, &tcs, &subtasks).unwrap();

    assert!(
        skipped(&outcomes).is_empty(),
        "nested child cases must not be skipped while NestedChild remains active"
    );
    assert!(
        outcomes
            .iter()
            .any(|o| o.test_case_id == 2 && o.verdict == Verdict::Accepted),
        "zero-score nested sibling must still be judged"
    );
    assert!(
        outcomes
            .iter()
            .any(|o| o.test_case_id == 3 && o.verdict == Verdict::Accepted),
        "scored nested sibling must still be judged"
    );
    assert!(
        host.cancels.is_empty(),
        "parent failure must not cancel cases still needed by the nested child subtask"
    );
}

/// Takes in results one by one; gives the cases that each of them cancels.
fn drive(
    tcs: &Vec<TestCaseRow<f64>>,
    subtasks: &Vec<SubtaskDef<f64>>,
    events: Vec<TestCaseVerdict<f64>>,
) -> (Vec<Vec<i32>>, Vec<EvalOutcome<f64>>) {
    let mut tracker = SubtaskShortCircuit::new(subtasks, tcs);
    let mut outcomes: Vec<EvalOutcome<f64>> = vec![];
    let mut dropped = vec![];
    for v in events {
        outcomes.push(to_outcome(v));
        let last = outcomes.len() - 1;
        match next_step(&mut tracker, &outcomes, Some(last)) {
            GroupJudgeStep::Continue => dropped.push(vec![]),
            GroupJudgeStep::Cancel(ids) => {
                tracker.mark_cancelled(&ids);
                for id in &ids {
                    outcomes.push(to_outcome(verdict_of(*id, Verdict::Skipped, 0.0)));
                }
                dropped.push(ids);
            }
        }
    }
    (dropped, outcomes)
}

#[test]
fn detached_nested_subtask_zero_score_sibling_stays_active_after_parent_failure() {
    let (tcs, subtasks) = nested();
    let (dropped, outcomes) = drive(
        &tcs,
        &subtasks,
        vec![
            verdict_of(1, Verdict::WrongAnswer, 0.0),
            verdict_of(2, Verdict::Accepted, 1.0),
            verdict_of(3, Verdict::Accepted, 1.0),
        ],
    );
    assert!(
        dropped[0].is_empty(),
        "parent failure must not cancel nested child members"
    );
    assert!(
        dropped[1].is_empty(),
        "zero-score nested sibling completion must not cancel the scored sibling"
    );
    assert!(dropped[2].is_empty());
    assert_eq!(outcomes.len(), 3);
    assert!(outcomes
        .iter()
        .any(|o| o.test_case_id == 2 && o.verdict == Verdict::Accepted));
    assert!(outcomes
        .iter()
        .any(|o| o.test_case_id == 3 && o.verdict == Verdict::Accepted));
    assert!(outcomes.iter().all(|o| o.verdict != Verdict::Skipped));
}

/// Two disjoint subtasks: a wrong answer on the first one's first case cancels
/// the rest of that subtask and nothing else.
#[test]
fn detached_disjoint_subtask_failure_keeps_refilling_other_subtask() {
    let tcs = (1..=10).map(test_case).collect::<Vec<_>>();
    let subtasks = vec![
        subtask(SubtaskScoringMethod::GroupMin, 1..=8),
        subtask(SubtaskScoringMethod::GroupMin, 9..=10),
    ];
    let (dropped, outcomes) = drive(
        &tcs,
        &subtasks,
        vec![
            verdict_of(1, Verdict::WrongAnswer, 0.0),
            verdict_of(9, Verdict::Accepted, 1.0),
            verdict_of(10, Verdict::Accepted, 1.0),
        ],
    );
    assert_eq!(dropped[0], vec![2, 3, 4, 5, 6, 7, 8]);
    assert!(dropped[1].is_empty());
    assert!(dropped[2].is_empty());
    assert_eq!(outcomes.len(), 10);
    assert!(outcomes.iter().all(|o| o.verdict != Verdict::SystemError));
    for id in 9..=10 {
        assert!(
            outcomes
                .iter()
                .any(|o| o.test_case_id == id && o.verdict == Verdict::Accepted),
            "subtask B case {id} must still be judged after subtask A failed"
        );
    }
    for id in 2..=8 {
        assert!(
            outcomes
                .iter()
                .any(|o| o.test_case_id == id && o.verdict == Verdict::Skipped),
            "subtask A case {id} must be skipped via short-circuit"
        );
    }
}

#[test]
fn group_mul_short_circuits_on_zero_score() {
    let tcs = (1..=6).map(test_case).collect::<Vec<_>>();
    let req = test_submission(tcs.clone());
    let subtasks = vec![subtask(SubtaskScoringMethod::GroupMul, 1..=6)];
    let mut host = Worker::new(vec![accepted(1), partial(2, 0.0)]);

    let outcomes = host.evaluate(&req, &tcs, &subtasks).unwrap();

    assert_eq!(skipped(&outcomes), vec![3, 4, 5, 6]);
    assert_eq!(host.batches, vec![vec![1, 2, 3, 4], vec![5]]);
}

#[test]
fn sample_outside_failed_subtask_continues_judging() {
    let mut tcs = (1..=6).map(test_case).collect::<Vec<_>>();
    tcs[5] = case(6, 0.0, true, None);
    let req = test_submission(tcs.clone());
    let subtasks = vec![subtask(SubtaskScoringMethod::GroupMin, 1..=5)];
    let mut host = Worker::new(vec![wrong_answer(1), accepted(6)]);

    let outcomes = host.evaluate(&req, &tcs, &subtasks).unwrap();

    assert_eq!(skipped(&outcomes), vec![2, 3, 4, 5]);
    assert!(outcomes
        .iter()
        .any(|o| o.test_case_id == 6 && o.verdict == Verdict::Accepted));
    assert_eq!(host.batches, vec![vec![1, 2, 3, 4], vec![6]]);
}

#[test]
fn sample_inside_failed_subtask_continues_judging() {
    let mut tcs = (1..=5).map(test_case).collect::<Vec<_>>();
    tcs[4] = case(5, 0.0, true, None);
    let req = test_submission(tcs.clone());
    let subtasks = vec![subtask(SubtaskScoringMethod::GroupMin, 1..=5)];
    let mut host = Worker::new(vec![wrong_answer(1), accepted(5)]);

    let outcomes = host.evaluate(&req, &tcs, &subtasks).unwrap();

    assert_eq!(skipped(&outcomes), vec![2, 3, 4]);
    assert!(outcomes
        .iter()
        .any(|o| o.test_case_id == 5 && o.verdict == Verdict::Accepted));
    assert_eq!(host.cancels, vec![vec![2, 3, 4]]);
}

#[test]
fn evaluate_batch_bulk_inserts_batch_accepted_results() {
    let tcs: Vec<TestCaseRow<f64>> = (1..=20).map(test_case).collect();
    let req = test_submission(tcs.clone());
    let mut host = Worker::new((1..=20).map(accepted).collect());

    let outcomes = host.evaluate(&req, &tcs, &vec![]).unwrap();

    assert_eq!(outcomes.len(), 20);
    assert_eq!(host.rows.len(), 20);
    let calls = host.inserts;
    assert!(
        calls <= 3,
        "expected ≤3 bulk INSERTs for 20 testcases, got {calls}"
    );
    assert!(
        calls >= 2,
        "expected ≥2 bulk INSERTs (threshold = 8), got {calls}"
    );
}

#[test]
fn cancellations_that_fall_short_are_awaited() {
    let tcs = (1..=3).map(test_case).collect::<Vec<_>>();
    let subtasks = vec![subtask(SubtaskScoringMethod::GroupMin, 1..=3)];
    let mut eval = GroupEval::new(&subtasks, &tcs, 0.0);
    eval.mark_running();
    let step = eval.on_event(wrong_answer(1));
    assert_eq!(step.cancel, vec![2, 3]);
    let step = eval.on_cancelled(Some(1));
    assert!(!step.finished);
    assert!(skipped(&eval.outcomes).is_empty());
}

// --- judging --------------------------------------------------------------

fn default_ctx(test_cases: Vec<TestCaseRow<f64>>) -> JudgeContext<f64> {
    let subtask_defs = if test_cases.is_empty() {
        vec![]
    } else {
        build_default_subtasks(&test_cases, &total)
    };
    JudgeContext {
        contest_config: ContestConfig::default(),
        task_config: TaskConfig { subtasks: vec![] },
        submission_id: 1,
        problem_id: 10,
        contest_id: 1,
        test_cases,
        subtask_defs,
    }
}

fn explicit_subtask_ctx(
    test_cases: Vec<TestCaseRow<f64>>,
    subtask_defs: Vec<SubtaskDef<f64>>,
) -> JudgeContext<f64> {
    JudgeContext {
        task_config: TaskConfig {
            subtasks: subtask_defs.clone(),
        },
        subtask_defs,
        ..default_ctx(test_cases)
    }
}

/// Judges a submission; gives the result and the final update.
fn judge(host: &mut Worker, ctx: &JudgeContext<f64>) -> (JudgeResult<f64>, SubmissionUpdate<f64>) {
    let req = test_submission(vec![]);
    match judge_with_context(&req, ctx, 0.0) {
        JudgePlan::Finish { update, result, .. } => (result, update),
        JudgePlan::Evaluate(cases) => {
            let outcomes = host.evaluate(&req, &cases, &ctx.subtask_defs).unwrap();
            let grave = severities(&outcomes);
            let (update, result) =
                conclude_judgement(&req, ctx, &outcomes, UNITS, &points, &total, &grave);
            (result, update)
        }
    }
}

#[test]
fn all_accepted_flat_scoring() {
    let mut host = Worker::new(vec![accepted(1), accepted(2)]);
    let ctx = default_ctx(vec![
        case(1, 50.0, false, Some("1")),
        case(2, 50.0, false, Some("2")),
    ]);
    let (result, sub) = judge(&mut host, &ctx);

    assert!(result.output.success);
    assert_eq!(result.submission_score, Some(100.0));
    assert_eq!(result.subtask_scores, Some(vec![100.0]));

    // Compiling + Running, then the terminal update
    assert_eq!(host.statuses.len(), 2);
    assert_eq!(host.statuses[0], SubmissionStatus::Compiling);
    assert_eq!(host.statuses[1], SubmissionStatus::Running);

    assert_eq!(sub.score, Some(100.0));
    assert_eq!(sub.verdict, Some(Some(Verdict::Accepted)));
}

#[test]
fn no_config_sample_does_not_contribute_to_score() {
    let mut host = Worker::new(vec![accepted(1), wrong_answer(2)]);
    let ctx = default_ctx(vec![
        case(1, 0.0, true, Some("sample_01")),
        case(2, 100.0, false, Some("tc_01")),
    ]);
    let (result, sub) = judge(&mut host, &ctx);

    assert_eq!(result.submission_score, Some(0.0));
    assert_eq!(sub.score, Some(0.0));
}

#[test]
fn judge_filters_zero_score_cases_unless_sample_or_subtask_member() {
    let mut host = Worker::new(vec![accepted(1), accepted(2), accepted(3)]);
    let ctx = explicit_subtask_ctx(
        vec![
            case(1, 0.0, true, Some("sample")),
            case(2, 0.0, false, Some("subtask_zero")),
            case(3, 100.0, false, Some("scored")),
            case(4, 0.0, false, Some("unused_zero")),
        ],
        vec![SubtaskDef {
            name: "Scoring".into(),
            scoring_method: SubtaskScoringMethod::Sum,
            max_score: 100.0,
            test_cases: vec!["subtask_zero".into(), "scored".into()],
        }],
    );

    let (result, _) = judge(&mut host, &ctx);

    assert_eq!(result.submission_score, Some(100.0));
    assert_eq!(host.batches.len(), 1);
    assert_eq!(host.batches[0], vec![1, 2, 3]);
    assert_eq!(host.rows.len(), 3);
}

#[test]
fn judge_scores_labeled_test_case_referenced_by_numeric_id() {
    let mut host = Worker::new(vec![accepted(7)]);
    let ctx = explicit_subtask_ctx(
        vec![case(7, 100.0, false, Some("named_case"))],
        vec![SubtaskDef {
            name: "By ID".into(),
            scoring_method: SubtaskScoringMethod::GroupMin,
            max_score: 100.0,
            test_cases: vec!["7".into()],
        }],
    );

    let (result, _) = judge(&mut host, &ctx);

    assert_eq!(result.submission_score, Some(100.0));
    assert_eq!(result.subtask_scores, Some(vec![100.0]));
}

#[test]
fn no_config_default_scoring_uses_test_case_scores_as_weights() {
    let mut host = Worker::new(vec![accepted(1), wrong_answer(2)]);
    let ctx = default_ctx(vec![
        case(1, 10.0, false, Some("small")),
        case(2, 90.0, false, Some("large")),
    ]);
    let (result, sub) = judge(&mut host, &ctx);

    assert_eq!(result.submission_score, Some(10.0));
    assert_eq!(result.subtask_scores, Some(vec![10.0]));
    assert_eq!(sub.score, Some(10.0));
}

#[test]
fn partial_with_subtasks() {
    let mut host = Worker::new(vec![accepted(1), accepted(2), wrong_answer(3)]);
    // Two subtasks: GroupMin for first 2 TCs, GroupMin for TC 3
    let ctx = explicit_subtask_ctx(
        vec![
            case(1, 30.0, false, Some("1")),
            case(2, 30.0, false, Some("2")),
            case(3, 40.0, false, Some("3")),
        ],
        vec![
            SubtaskDef {
                name: "Subtask 1".into(),
                scoring_method: SubtaskScoringMethod::GroupMin,
                max_score: 60.0,
                test_cases: vec!["1".into(), "2".into()],
            },
            SubtaskDef {
                name: "Subtask 2".into(),
                scoring_method: SubtaskScoringMethod::GroupMin,
                max_score: 40.0,
                test_cases: vec!["3".into()],
            },
        ],
    );

    let (result, _) = judge(&mut host, &ctx);

    // Subtask 1: all pass (1.0, 1.0) -> 60.0
    // Subtask 2: WA (score 0) -> 0.0
    assert_eq!(result.submission_score, Some(60.0));
    assert_eq!(result.subtask_scores, Some(vec![60.0, 0.0]));
}

#[test]
fn judge_compile_error() {
    let mut host = Worker::new(vec![compile_failure(1)]);
    let ctx = default_ctx(vec![
        case(1, 100.0, false, Some("1")),
        case(2, 100.0, false, Some("2")),
        case(3, 100.0, false, Some("3")),
    ]);
    let (result, sub) = judge(&mut host, &ctx);

    assert!(result.output.success);
    // Compile-error-only runs never enter Running; they stay in Compiling
    // until the terminal CompilationError update.
    assert_eq!(host.statuses.len(), 1);
    assert_eq!(host.statuses[0], SubmissionStatus::Compiling);

    assert_eq!(sub.status, Some(SubmissionStatus::CompilationError));
    assert_eq!(sub.verdict, Some(None));

    let results = &host.rows;
    assert_eq!(results.len(), 3);
    assert_eq!(results[0].test_case_id, Some(1));
    assert_eq!(results[0].verdict, Verdict::CompileError);
    assert_eq!(results[1].test_case_id, Some(2));
    assert_eq!(results[1].verdict, Verdict::Skipped);
    assert_eq!(results[1].message.as_deref(), Some("SKIPPED_SHORT_CIRCUIT"));
    assert_eq!(results[2].test_case_id, Some(3));
    assert_eq!(results[2].verdict, Verdict::Skipped);
    assert_eq!(results[2].message.as_deref(), Some("SKIPPED_SHORT_CIRCUIT"));
}

#[test]
fn judge_test_case_result_text_replaces_nul_bytes() {
    let mut host = Worker::new(vec![PollEvent::Result(TestCaseVerdict {
        test_case_id: 1,
        verdict: Verdict::WrongAnswer,
        score: raw(0.0),
        time_used_ms: Some(10),
        memory_used_kb: Some(256),
        message: Some("bad\0message".into()),
        stdout: Some("out\0put".into()),
        stderr: Some("err\0or".into()),
    })]);
    let ctx = default_ctx(vec![case(1, 100.0, false, Some("1"))]);
    judge(&mut host, &ctx);

    let rows = &host.rows;
    assert_eq!(rows.len(), 1);
    assert_eq!(rows[0].message.as_deref(), Some("bad\u{FFFD}message"));
    assert_eq!(rows[0].stdout.as_deref(), Some("out\u{FFFD}put"));
    assert_eq!(rows[0].stderr.as_deref(), Some("err\u{FFFD}or"));
}

#[test]
fn judge_polling_error_fills_system_error() {
    let mut host = Worker::new(vec![accepted(1), PollEvent::Failed]);
    let ctx = default_ctx(vec![
        case(1, 50.0, false, Some("1")),
        case(2, 50.0, false, Some("2")),
    ]);
    let (result, sub) = judge(&mut host, &ctx);

    assert!(result.output.success);
    assert_eq!(sub.verdict, Some(Some(Verdict::SystemError)));
    assert!(host.cancelled);
    // TC results: 1 Accepted + 1 SystemError (timeout fill)
    assert_eq!(host.rows.len(), 2);
}

#[test]
fn empty_test_cases() {
    let mut host = Worker::new(vec![]);
    let ctx = default_ctx(vec![]);
    let (result, sub) = judge(&mut host, &ctx);

    assert_eq!(result.submission_score, Some(0.0));
    assert_eq!(result.subtask_scores, Some(vec![]));
    // No evaluation -> only the terminal update, no Running
    assert!(host.statuses.is_empty());
    assert_eq!(sub.verdict, Some(Some(Verdict::Accepted)));
    assert_eq!(sub.score, Some(0.0));
}

#[test]
fn group_min_subtask_one_fail() {
    let mut host = Worker::new(vec![accepted(1), partial(2, 0.8)]);
    let ctx = explicit_subtask_ctx(
        vec![
            case(1, 50.0, false, Some("1")),
            case(2, 50.0, false, Some("2")),
        ],
        vec![subtask(SubtaskScoringMethod::GroupMin, 1..=2)],
    );

    let (result, _) = judge(&mut host, &ctx);
    // GroupMin: TC 2 has score 0.8, not 1.0 -> subtask = 0
    assert_eq!(result.submission_score, Some(0.0));
}

#[test]
fn group_mul_subtask() {
    let mut host = Worker::new(vec![partial(1, 0.8), partial(2, 0.5)]);
    let ctx = explicit_subtask_ctx(
        vec![
            case(1, 50.0, false, Some("1")),
            case(2, 50.0, false, Some("2")),
        ],
        vec![subtask(SubtaskScoringMethod::GroupMul, 1..=2)],
    );

    let (result, _) = judge(&mut host, &ctx);
    // GroupMul: 100 * 0.8 * 0.5 = 40.0
    assert_eq!(result.submission_score, Some(40.0));
}

#[test]
fn explicit_sum_subtask_uses_test_case_scores_as_weights() {
    let mut host = Worker::new(vec![accepted(1), wrong_answer(2)]);
    let ctx = explicit_subtask_ctx(
        vec![
            case(1, 10.0, false, Some("small")),
            case(2, 90.0, false, Some("large")),
        ],
        vec![SubtaskDef {
            name: "Weighted".into(),
            scoring_method: SubtaskScoringMethod::Sum,
            max_score: 100.0,
            test_cases: vec!["small".into(), "large".into()],
        }],
    );

    let (result, _) = judge(&mut host, &ctx);

    assert_eq!(result.submission_score, Some(10.0));
    assert_eq!(result.subtask_scores, Some(vec![10.0]));
}

#[test]
fn start_batch_failure() {
    let mut host = Worker::new(vec![]);
    host.start_error = Some("HostCall(\"worker down\")".into());
    let ctx = default_ctx(vec![case(1, 100.0, false, Some("1"))]);
    let (result, sub) = judge(&mut host, &ctx);

    assert!(result.output.success);
    // Batch never started -> only the terminal update, no Running
    assert!(host.statuses.is_empty());
    assert_eq!(sub.verdict, Some(Some(Verdict::SystemError)));
    assert_eq!(sub.score, Some(0.0));
    // SystemError rows inserted for all TCs
    assert_eq!(host.rows.len(), 1);
}

#[test]
fn sum_scoring_partial() {
    let mut host = Worker::new(vec![partial(1, 0.5), accepted(2)]);
    let ctx = explicit_subtask_ctx(
        vec![
            case(1, 30.0, false, Some("1")),
            case(2, 70.0, false, Some("2")),
        ],
        vec![subtask(SubtaskScoringMethod::Sum, 1..=2)],
    );

    let (result, _) = judge(&mut host, &ctx);
    // Sum weights by testcase score: 100 * ((0.5 * 30) + (1.0 * 70)) / 100 = 85.0
    assert_eq!(result.submission_score, Some(85.0));
}

#[test]
fn unjudged_cases_score_nothing() {
    let cases = vec![case(1, 10.0, false, Some("a")), case(2, 10.0, false, Some("b"))];
    let outcomes = vec![
        to_outcome(verdict_of(1, Verdict::Accepted, 1.0)),
        to_outcome(verdict_of(2, Verdict::Skipped, 1.0)),
    ];
    let map = scores_of_outcomes(&outcomes, &cases);
    assert_eq!(map.get("a").map(|r| r.value), Some(1.0));
    assert_eq!(map.get("1").map(|r| r.value), Some(1.0));
    assert!(map.get("b").is_none());
    let refused = contest_required();
    assert!(!refused.success);
    assert_eq!(
        refused.error_message.as_deref(),
        Some("IOI plugin requires contest_id")
    );
}

// --- the final update -----------------------------------------------------

fn outcome(test_case_id: i32, verdict: Verdict) -> EvalOutcome<f64> {
    EvalOutcome {
        test_case_id,
        verdict,
        raw_score: raw(0.0),
        time_used: Some(100),
        memory_used: Some(1024),
        message: None,
        stdout: None,
        stderr: None,
    }
}

fn persisted(outcomes: &Vec<EvalOutcome<f64>>, score: f64) -> SubmissionUpdate<f64> {
    persist_results(
        JudgementRef {
            submission_id: 1,
            judgement_id: 1,
            judge_epoch: 1,
        },
        outcomes,
        round_score(score),
        0.0,
        &severities(outcomes),
    )
}

#[test]
fn only_skipped_or_cancelled_is_system_error_not_accepted() {
    // Every outcome cancelled/skipped => the submission was never actually
    // judged. It must not finalize as a silent Accepted solve, and the score
    // the caller passed is discarded (a never-evaluated submission scores 0).
    let outcomes = vec![outcome(1, Verdict::Cancelled), outcome(2, Verdict::Skipped)];
    let update = persisted(&outcomes, 42.0);
    assert_eq!(update.status, Some(SubmissionStatus::Judged));
    assert_eq!(update.verdict, Some(Some(Verdict::SystemError)));
    assert_eq!(update.score, Some(0.0));
}

#[test]
fn real_outcomes_aggregate_by_severity_and_keep_score() {
    // A mix with at least one real outcome aggregates by severity (WA
    // outranks AC) and passes the caller's score through untouched.
    let outcomes = vec![
        outcome(1, Verdict::Accepted),
        outcome(2, Verdict::WrongAnswer),
        outcome(3, Verdict::Skipped),
    ];
    let update = persisted(&outcomes, 57.0);
    assert_eq!(update.status, Some(SubmissionStatus::Judged));
    assert_eq!(update.verdict, Some(Some(Verdict::WrongAnswer)));
    assert_eq!(update.score, Some(round_score(57.0)));
    assert_eq!(update.time_used, Some(Some(100)));
    assert_eq!(update.memory_used, Some(Some(1024)));
}

// --- scores from what is stored -------------------------------------------

fn of_submission(submission_id: i32, elapsed: i64, s: TextMap<Raw<f64>>) -> SubmissionScores<f64> {
    SubmissionScores {
        user_id: 1,
        problem_id: 10,
        submission_id,
        elapsed_seconds: elapsed,
        scores: s,
    }
}

#[test]
fn sum_best_subtask_takes_the_best_per_subtask_across_submissions_not_the_best_submission() {
    // Two subtasks, two submissions, each submission winning a different
    // subtask. The whole point of sum-best-subtask scoring is that a
    // contestant banks their best result on EACH subtask independently:
    // 100 + 100 = 200. Taking the best single submission's total would
    // give 100, and summing everything would give 200 only by accident,
    // so the asymmetric split below distinguishes all three.
    let test_cases = vec![
        case(11, 100.0, false, Some("a")),
        case(12, 100.0, false, Some("b")),
    ];
    let subtasks = vec![
        make_def(SubtaskScoringMethod::Sum, 100.0, vec!["a"]),
        make_def(SubtaskScoringMethod::Sum, 100.0, vec!["b"]),
    ];

    // Submission 1 aces subtask X and fails Y; submission 2 is the mirror.
    let first = || of_submission(1, 0, scores(&[("a", 1.0), ("b", 0.0)]));
    let second = || of_submission(2, 0, scores(&[("a", 0.0), ("b", 1.0)]));

    let sum = sum_best_subtask_score(
        &subtasks,
        &test_cases,
        &vec![first(), second()],
        UNITS,
        &cent_points,
    );

    assert_eq!(
        sum,
        cents(200.0) as i128,
        "each subtask's best result across submissions is banked independently"
    );

    // A single submission alone can only earn its own subtask.
    assert_eq!(
        sum_best_subtask_score(&subtasks, &test_cases, &vec![first()], UNITS, &cent_points),
        cents(100.0) as i128
    );
}

fn result_row(test_case_id: i32, score: f64, verdict: Verdict) -> TcResultRow<f64> {
    TcResultRow {
        submission_id: 1,
        test_case_id,
        score,
        verdict,
    }
}

fn details(
    test_cases: &Vec<TestCaseRow<f64>>,
    subtasks: &Vec<SubtaskDef<f64>>,
    rows: &Vec<TcResultRow<f64>>,
) -> Vec<SubtaskScoreDetail<f64, f64>> {
    score_submission_subtask_details(test_cases, subtasks, rows, UNITS, &points, &ratio)
}

#[test]
fn subtask_detail_scores_are_derived_from_current_test_case_results() {
    let test_cases = vec![
        case(11, 50.0, false, Some("a")),
        case(12, 50.0, false, Some("b")),
    ];
    let subtasks = vec![SubtaskDef {
        name: "Current".into(),
        scoring_method: SubtaskScoringMethod::Sum,
        max_score: 100.0,
        test_cases: vec!["a".into(), "b".into()],
    }];
    let current_rows = vec![
        result_row(11, 50.0, Verdict::Accepted),
        result_row(12, 0.0, Verdict::WrongAnswer),
    ];

    let scores = details(&test_cases, &subtasks, &current_rows);

    assert_eq!(scores.len(), 1);
    assert_eq!(scores[0].name, "Current");
    assert_eq!(scores[0].score, 50.0);
    assert_eq!(scores[0].max_score, 100.0);
}

#[test]
fn default_subtask_detail_scores_use_test_case_weights() {
    let test_cases = vec![
        case(11, 10.0, false, Some("small")),
        case(12, 90.0, false, Some("large")),
    ];
    let subtasks = build_default_subtasks(&test_cases, &total);
    let current_rows = vec![
        result_row(11, 10.0, Verdict::Accepted),
        result_row(12, 0.0, Verdict::WrongAnswer),
    ];

    let scores = details(&test_cases, &subtasks, &current_rows);

    assert_eq!(scores.len(), 1);
    assert_eq!(scores[0].name, "All Tests");
    assert_eq!(scores[0].score, 10.0);
    assert_eq!(scores[0].max_score, 100.0);
}

/// A fully passing subtask whose member test cases carry no points must score
/// its full maximum: the verdict, not the stored score, is what counts.
#[test]
fn zero_point_group_min_member_full_pass_scores_full_on_recompute() {
    let test_cases = vec![
        case(11, 0.0, false, Some("m1")),
        case(12, 0.0, false, Some("m2")),
    ];
    let subtasks = vec![SubtaskDef {
        name: "S".into(),
        scoring_method: SubtaskScoringMethod::GroupMin,
        max_score: 30.0,
        test_cases: vec!["m1".into(), "m2".into()],
    }];
    // Both members passed (Accepted), persisted score 0 because point value 0.
    let current_rows = vec![
        result_row(11, 0.0, Verdict::Accepted),
        result_row(12, 0.0, Verdict::Accepted),
    ];

    let scores = details(&test_cases, &subtasks, &current_rows);
    assert_eq!(scores.len(), 1);
    assert_eq!(
        scores[0].score, 30.0,
        "fully-passing zero-point GroupMin subtask must score its full max, not 0"
    );

    // And a FAILED member (not Accepted) must still zero the GroupMin subtask.
    let failed_rows = vec![
        result_row(11, 0.0, Verdict::Accepted),
        result_row(12, 0.0, Verdict::WrongAnswer),
    ];
    let failed = details(&test_cases, &subtasks, &failed_rows);
    assert_eq!(failed[0].score, 0.0, "a failed member must zero GroupMin");
}

#[test]
fn stored_scores_are_taken_back_to_raw_ones() {
    let r = normalized_raw_score(Verdict::WrongAnswer, 25.0, weight(50.0), UNITS, &ratio);
    assert_eq!(r.value, 0.5);
    assert_eq!(r.class, RawClass::Partial);
    let r = normalized_raw_score(Verdict::WrongAnswer, 25.0, weight(0.0), UNITS, &ratio);
    assert_eq!(r.class, RawClass::Zero);
    let r = normalized_raw_score(Verdict::Accepted, 0.0, weight(0.0), UNITS, &ratio);
    assert_eq!(r.class, RawClass::Full);
}

#[test]
fn results_are_grouped_by_submission() {
    let cases = vec![
        case(11, 50.0, false, Some("a")),
        case(12, 50.0, false, Some("b")),
    ];
    let mut rows = vec![
        result_row(11, 50.0, Verdict::Accepted),
        result_row(12, 25.0, Verdict::WrongAnswer),
        result_row(11, 0.0, Verdict::WrongAnswer),
    ];
    rows[2].submission_id = 2;
    let maxes = vec![
        TcMaxScore {
            test_case_id: 11,
            max_score: weight(50.0),
        },
        TcMaxScore {
            test_case_id: 12,
            max_score: weight(50.0),
        },
    ];
    let groups = group_by_submission(&rate_task_rows(
        1, 10, &rows, &cases, &maxes, UNITS, &ratio,
    ));
    assert_eq!(groups.len(), 2);
    assert_eq!(groups[0].scores.get("a").map(|r| r.value), Some(1.0));
    assert_eq!(groups[0].scores.get("b").map(|r| r.value), Some(0.5));
    assert_eq!(groups[1].submission_id, 2);
    assert_eq!(groups[1].scores.get("a").map(|r| r.value), Some(0.0));
}

#[test]
fn official_scores_follow_the_mode() {
    let state = TokenState {
        used: 2,
        tokened_submission_ids: vec![4, 5],
    };
    match plan_official_score(ScoringMode::MaxSubmission, &state, 1, 10, 3) {
        OfficialPlan::Best(q) => assert!(q.sql.contains("MAX(sj.score)")),
        _ => panic!("one query is enough"),
    }
    assert!(matches!(
        plan_official_score(ScoringMode::SumBestSubtask, &state, 1, 10, 3),
        OfficialPlan::SumOfBest { .. }
    ));
    match plan_official_score(ScoringMode::BestTokenedOrLast, &state, 1, 10, 3) {
        OfficialPlan::TokenedOrLast { tokened, .. } => {
            let q = tokened.unwrap();
            assert!(q.args.contains(&SqlValue::Int(4)));
            assert!(q.args.contains(&SqlValue::Int(5)));
        }
        _ => panic!("two queries are needed"),
    }
    match plan_official_score(
        ScoringMode::BestTokenedOrLast,
        &TokenState::default(),
        1,
        10,
        3,
    ) {
        OfficialPlan::TokenedOrLast { tokened, .. } => assert!(tokened.is_none()),
        _ => panic!("two queries are needed"),
    }
    assert_eq!(official_best(None), 0);
    assert_eq!(official_best(Some(5)), 5);
    assert_eq!(official_tokened_or_last(Some(3), Some(7)), 7);
    assert_eq!(official_tokened_or_last(None, None), 0);
}

// --- the scoreboard -------------------------------------------------------

#[test]
fn admins_can_view_full_scoreboard_in_any_phase() {
    for phase in ["before", "during", "after"] {
        assert!(full_scoreboard_visible_for_phase(
            phase,
            true,
            ScoreboardVisibility::AdminsOnly,
        ));
    }
}

#[test]
fn combined_score_time_collapses_to_zero_under_equal_rank() {
    // EqualRank deliberately discards timing entirely, so every contestant
    // ties on the tiebreaker and ranking falls back to score alone.
    assert_eq!(
        combined_score_time_seconds(ScoreboardTiebreaker::EqualRank, &vec![10, 20, 30]),
        0
    );
}

#[test]
fn combined_score_time_sums_or_maxes_according_to_the_tiebreaker() {
    let times = vec![10, 40, 25];
    assert_eq!(
        combined_score_time_seconds(ScoreboardTiebreaker::SumScoreTime, &times),
        75,
        "SumScoreTime must add every problem's score-time"
    );
    assert_eq!(
        combined_score_time_seconds(ScoreboardTiebreaker::MaxScoreTime, &times),
        40,
        "MaxScoreTime must take the single slowest, not the total"
    );
}

#[test]
fn combined_score_time_of_no_solves_is_zero_for_every_tiebreaker() {
    // A contestant who has solved nothing has no score-times at all.
    // `MaxScoreTime` is the interesting one: anything other than 0 here would
    // rank a no-solve contestant against solvers on a fabricated time.
    for tiebreaker in [
        ScoreboardTiebreaker::EqualRank,
        ScoreboardTiebreaker::SumScoreTime,
        ScoreboardTiebreaker::MaxScoreTime,
    ] {
        assert_eq!(combined_score_time_seconds(tiebreaker, &vec![]), 0);
    }
}

#[test]
fn phase_after_reveals_full_scoreboard_even_without_view_all_or_all_contest_viewers() {
    assert!(full_scoreboard_visible_for_phase(
        "after",
        false,
        ScoreboardVisibility::AdminsOnly,
    ));
}

#[test]
fn phase_before_and_during_stay_hidden_without_view_all_or_all_contest_viewers() {
    for phase in ["before", "during"] {
        assert!(!full_scoreboard_visible_for_phase(
            phase,
            false,
            ScoreboardVisibility::AdminsOnly,
        ));
    }
    assert!(full_scoreboard_visible_for_phase(
        "during",
        false,
        ScoreboardVisibility::AllContestViewers,
    ));
}

#[test]
fn equal_rank_tiebreaker_ignores_score_time() {
    assert_eq!(
        compare_scoreboard_entries(
            cents(100.0) as i128,
            600,
            "slow",
            cents(100.0) as i128,
            60,
            "fast",
            ScoreboardTiebreaker::EqualRank
        ),
        Ordering::Greater
    );
    assert!(scoreboard_entries_tied(
        cents(100.0) as i128,
        600,
        cents(100.0) as i128,
        60,
        ScoreboardTiebreaker::EqualRank
    ));
}

#[test]
fn time_tiebreakers_rank_faster_total_first() {
    assert_eq!(
        compare_scoreboard_entries(
            cents(100.0) as i128,
            60,
            "fast",
            cents(100.0) as i128,
            600,
            "slow",
            ScoreboardTiebreaker::MaxScoreTime
        ),
        Ordering::Less
    );
    assert!(!scoreboard_entries_tied(
        cents(100.0) as i128,
        60,
        cents(100.0) as i128,
        600,
        ScoreboardTiebreaker::MaxScoreTime
    ));
    assert_eq!(
        compare_scoreboard_entries(1, 9, "a", 2, 1, "b", ScoreboardTiebreaker::SumScoreTime),
        Ordering::Greater
    );
    assert_eq!(
        compare_scoreboard_entries(1, 9, "a", 1, 9, "a", ScoreboardTiebreaker::SumScoreTime),
        Ordering::Equal
    );
}

fn board_row(user_id: i32, score: i64, elapsed_seconds: i64) -> ScoreboardSubmissionRow {
    ScoreboardSubmissionRow {
        user_id,
        problem_id: 10,
        score,
        elapsed_seconds,
    }
}

#[test]
fn cells_take_the_better_of_token_and_last() {
    let last = vec![board_row(1, 500, 90)];
    let tokened = vec![board_row(1, 700, 40), board_row(1, 700, 20), board_row(2, 1, 1)];
    assert_eq!(
        best_tokened_or_last_cell(&last, &tokened, 1, 10),
        ScoreboardCell {
            score: 700,
            score_time_seconds: 20,
        }
    );
    assert_eq!(
        best_tokened_or_last_cell(&last, &vec![], 1, 10),
        ScoreboardCell {
            score: 500,
            score_time_seconds: 90,
        }
    );
    let cells = best_tokened_or_last_cells(&vec![1, 3], &vec![10], &last, &tokened);
    assert_eq!(cells.get(&(3, 10)).map(|c| c.score), Some(0));
    assert_eq!(cells.get(&(1, 10)).map(|c| c.score), Some(700));
    assert!(cells.get(&(2, 10)).is_none());
    let best = max_submission_cells(&vec![MaxSubmissionScoreboardRow {
        user_id: 1,
        problem_id: 10,
        score: 900,
        score_time_seconds: 33,
    }]);
    assert_eq!(
        best.get(&(1, 10)),
        Some(&ScoreboardCell {
            score: 900,
            score_time_seconds: 33,
        })
    );
}

#[test]
fn best_subtasks_are_complete_at_their_last_gain() {
    let cell = sum_best_subtask_cell(&vec![10, 50, 90], &vec![vec![5, 0], vec![5, 7], vec![4, 7]]);
    assert_eq!(
        cell,
        ScoreboardCell {
            score: 12,
            score_time_seconds: 50,
        }
    );
    assert_eq!(
        sum_best_subtask_cell(&vec![], &vec![]),
        ScoreboardCell {
            score: 0,
            score_time_seconds: 0,
        }
    );
}

#[test]
fn boards_agree_with_the_tasks() {
    let cases = vec![
        case(11, 100.0, false, Some("a")),
        case(12, 100.0, false, Some("b")),
    ];
    let defs = vec![
        make_def(SubtaskScoringMethod::Sum, 100.0, vec!["a"]),
        make_def(SubtaskScoringMethod::Sum, 100.0, vec!["b"]),
    ];
    let tasks = vec![TaskSetup {
        problem_id: 10,
        test_cases: cases.clone(),
        subtask_defs: defs.clone(),
    }];
    let row = |submission_id, test_case_id, score, verdict, elapsed_seconds| ScoreboardTcScoreRow {
        user_id: 1,
        problem_id: 10,
        submission_id,
        test_case_id,
        score,
        verdict,
        elapsed_seconds,
    };
    let rows = vec![
        row(1, 11, 100.0, Verdict::Accepted, 60),
        row(1, 12, 0.0, Verdict::WrongAnswer, 60),
        row(2, 11, 0.0, Verdict::WrongAnswer, 90),
        row(2, 12, 100.0, Verdict::Accepted, 90),
        row(2, 99, 100.0, Verdict::Accepted, 95),
    ];
    let groups = group_by_submission(&rate_board_rows(&rows, &tasks, UNITS, &ratio));
    let cells =
        sum_best_subtask_cells(&vec![1], &vec![10, 20], &tasks, &groups, UNITS, &cent_points);
    let cell = cells.get(&(1, 10)).unwrap();
    assert_eq!(cell.score, 20000);
    assert_eq!(cell.score_time_seconds, 90);
    assert_eq!(
        sum_best_subtask_score(&defs, &cases, &groups, UNITS, &cent_points),
        20000
    );
    assert!(cells.get(&(1, 20)).is_none());
}

#[test]
fn boards_are_read_in_one_query() {
    assert!(max_submission_query(1, &vec![], &vec![10]).is_none());
    assert!(last_submission_query(1, &vec![2], &vec![]).is_none());
    assert!(tokened_submission_query(1, &vec![2], &vec![10], &vec![]).is_none());
    let q: Query = max_submission_query(1, &vec![2, 3], &vec![10]).unwrap();
    assert!(q.args.contains(&SqlValue::Decimal("0.000000001".into())));
    let q = tokened_submission_query(1, &vec![2], &vec![10], &vec![7]).unwrap();
    assert_eq!(q.args.last(), Some(&SqlValue::Int(7)));
    assert!(board_results_query(1, &vec![2], &vec![10]).is_some());
    assert_eq!(token_keys(1, &vec![2, 3]), vec!["tokens:1:2", "tokens:1:3"]);
    let states = vec![
        TokenState {
            used: 2,
            tokened_submission_ids: vec![9, 4],
        },
        TokenState {
            used: 1,
            tokened_submission_ids: vec![4],
        },
    ];
    assert_eq!(tokened_submissions(&states), vec![4, 9]);
}

// --- feedback -------------------------------------------------------------

#[test]
fn per_test_case_mask_covers_every_field_the_old_code_wrote_or_blanked() {
    let fields = per_test_case_mask_fields();
    for f in [
        "result.test_case_results.*.verdict",
        "result.test_case_results.*.score",
        "result.test_case_results.*.time_used",
        "result.test_case_results.*.memory_used",
        "result.test_case_results.*.input",
        "result.test_case_results.*.expected_output",
        "result.test_case_results.*.stdout",
        "result.test_case_results.*.stderr",
        "result.test_case_results.*.checker_output",
    ] {
        assert!(fields.contains(&f.to_string()), "missing field {f}");
    }
    assert_eq!(fields.len(), 9, "no other fields");
}

#[test]
fn none_level_mask_covers_every_field_the_old_code_blanked_on_either_shape() {
    let fields = none_level_mask_fields();
    for f in [
        "verdict",
        "score",
        "time_used",
        "memory_used",
        "result.verdict",
        "result.score",
        "result.time_used",
        "result.memory_used",
        "result.compile_output",
        "result.error_message",
        "result.test_case_results",
    ] {
        assert!(fields.contains(&f.to_string()), "missing field {f}");
    }
    assert_eq!(fields.len(), 11, "no other fields");
}

fn sorted(mut fields: Vec<String>) -> Vec<String> {
    fields.sort();
    fields
}

/// The decision blanks exactly these fields.
fn redacts(decision: &WireDecision, fields: Vec<String>) {
    match decision {
        WireDecision::Redact { fields: got } => assert_eq!(sorted(got.clone()), sorted(fields)),
        other => panic!("expected Redact, got {other:?}"),
    }
}

#[test]
fn mask_for_full_is_allow_not_an_empty_redact() {
    assert!(matches!(
        mask_for_level(FeedbackLevel::Full),
        WireDecision::Allow {}
    ));
}

#[test]
fn mask_for_subtask_scores_and_total_only_are_byte_identical() {
    // The two levels produce exactly the same redaction; the difference
    // between them lives entirely in the `/subtask-scores` route.
    let a = mask_for_level(FeedbackLevel::SubtaskScores);
    let b = mask_for_level(FeedbackLevel::TotalOnly);
    match (a, b) {
        (WireDecision::Redact { fields: fa }, WireDecision::Redact { fields: fb }) => {
            assert_eq!(sorted(fa), sorted(fb));
        }
        other => panic!("expected both to be Redact, got {other:?}"),
    }
}

#[test]
fn mask_for_none_is_redact_with_the_none_level_fields() {
    redacts(
        &mask_for_level(FeedbackLevel::Nothing),
        none_level_mask_fields(),
    );
}

fn subject(user_id: Option<i32>) -> QuerySubject {
    QuerySubject {
        user_id,
        authenticated: user_id.is_some(),
        permissions: Vec::new(),
    }
}

fn submission_resource(id: i32, contest_id: i32) -> QueryResource {
    QueryResource {
        kind: "submission".to_string(),
        id: id.to_string(),
        contest_id: Some(contest_id),
        problem_id: None,
    }
}

fn row(submission_id: i32, user_id: i32, contest_type: &str) -> SubmissionVisibilityRow {
    SubmissionVisibilityRow {
        submission_id,
        user_id,
        contest_type: Some(contest_type.to_string()),
        phase: "during".to_string(),
    }
}

fn contest(level: FeedbackLevel, visibility: ScoreboardVisibility) -> Vec<ContestView> {
    vec![ContestView {
        contest_id: 10,
        config: ContestConfig {
            feedback_level: level,
            scoreboard_visibility: visibility,
            ..ContestConfig::default()
        },
        tokens: None,
    }]
}

fn query(subject: QuerySubject, resources: Vec<QueryResource>) -> VisibilityQueryInput {
    VisibilityQueryInput {
        subject,
        action: "view".to_string(),
        context: QueryContext {
            contest_id: Some(10),
        },
        resources,
    }
}

/// The decisions, and the queries that were asked.
fn decide(
    req: &VisibilityQueryInput,
    rows: Vec<SubmissionVisibilityRow>,
    contests: Vec<ContestView>,
) -> (Vec<WireDecision>, Vec<Query>) {
    let asked = visibility_rows_query(req, VIEW_ALL);
    let rows = if asked.is_some() { rows } else { vec![] };
    (
        decide_visibility_decisions(req, VIEW_ALL, &rows, &contests),
        asked.into_iter().collect(),
    )
}

/// The decision on submission 7 of user 2, during contest 10.
fn decide_for(viewer: i32, level: FeedbackLevel, visibility: ScoreboardVisibility) -> WireDecision {
    let req = query(subject(Some(viewer)), vec![submission_resource(7, 10)]);
    let (decisions, _) = decide(&req, vec![row(7, 2, "ioi")], contest(level, visibility));
    decisions.into_iter().next().unwrap()
}

#[test]
fn feedback_decide_visibility_admin_bypass_allows_everything_without_querying() {
    let mut sub = subject(Some(99));
    sub.permissions.push(VIEW_ALL.to_string());
    let req = query(
        sub,
        vec![submission_resource(7, 10), submission_resource(8, 10)],
    );
    let (decisions, queries) = decide(&req, vec![], vec![]);
    assert_eq!(decisions.len(), 2);
    assert!(decisions
        .iter()
        .all(|d| matches!(d, WireDecision::Allow {})));
    assert!(queries.is_empty());
}

#[test]
fn feedback_decide_visibility_allows_non_submission_resources_and_contest_less_resources_without_querying(
) {
    let mut req = query(
        subject(Some(99)),
        vec![
            QueryResource {
                kind: "contest".to_string(),
                id: "10".to_string(),
                contest_id: Some(10),
                problem_id: None,
            },
            QueryResource {
                kind: "submission".to_string(),
                id: "7".to_string(),
                contest_id: None, // standalone submission, no contest.
                problem_id: None,
            },
        ],
    );
    req.context.contest_id = None;
    let (decisions, queries) = decide(&req, vec![], vec![]);
    assert_eq!(decisions.len(), 2);
    assert!(decisions
        .iter()
        .all(|d| matches!(d, WireDecision::Allow {})));
    assert!(
        queries.is_empty(),
        "must not query the database when nothing needs it"
    );
}

#[test]
fn decide_visibility_allows_a_submission_from_a_non_ioi_contest() {
    let req = query(subject(Some(99)), vec![submission_resource(7, 10)]);
    let (decisions, _) = decide(&req, vec![row(7, 2, "icpc")], vec![]);
    assert!(matches!(decisions[0], WireDecision::Allow {}));
}

#[test]
fn feedback_decide_visibility_fails_hidden_on_contest_submission_mismatch() {
    // No row at all for the submission id: fail hidden rather than leak.
    let req = query(subject(Some(99)), vec![submission_resource(7, 10)]);
    let (decisions, _) = decide(&req, vec![], vec![]);
    redacts(&decisions[0], none_level_mask_fields());
}

#[test]
fn decide_visibility_fails_hidden_even_for_a_viewer_who_would_be_the_owner_when_the_row_is_missing()
{
    // Without a row there is nothing to compare the viewer against, so this
    // can only over-hide (Redact), never leak (Allow).
    let req = query(
        subject(Some(2)), // would be the owner, if a row existed.
        vec![submission_resource(7, 10)],
    );
    let (decisions, _) = decide(&req, vec![], vec![]);
    assert!(
        matches!(decisions[0], WireDecision::Redact { .. }),
        "a missing row must fail hidden even for a viewer who would otherwise be the owner, got {:?}",
        decisions[0]
    );
}

#[test]
fn decide_visibility_allows_the_owner_at_full_feedback() {
    let decision = decide_for(2, FeedbackLevel::Full, ScoreboardVisibility::AdminsOnly);
    assert!(matches!(decision, WireDecision::Allow {}));
}

#[test]
fn decide_visibility_redacts_the_owner_at_subtask_scores_with_the_per_test_case_mask() {
    let decision = decide_for(
        2,
        FeedbackLevel::SubtaskScores,
        ScoreboardVisibility::AdminsOnly,
    );
    redacts(&decision, per_test_case_mask_fields());
}

#[test]
fn decide_visibility_redacts_the_owner_at_total_only_with_the_per_test_case_mask() {
    let decision = decide_for(
        2,
        FeedbackLevel::TotalOnly,
        ScoreboardVisibility::AdminsOnly,
    );
    redacts(&decision, per_test_case_mask_fields());
}

#[test]
fn decide_visibility_redacts_the_owner_at_none_with_the_none_level_mask() {
    // The OWNER must still be narrowed at this level.
    let decision = decide_for(2, FeedbackLevel::Nothing, ScoreboardVisibility::AdminsOnly);
    redacts(&decision, none_level_mask_fields());
}

fn with_token(ids: Vec<i32>) -> Vec<ContestView> {
    let mut view = contest(FeedbackLevel::Nothing, ScoreboardVisibility::AdminsOnly);
    view[0].tokens = Some(TokenState {
        used: 1,
        tokened_submission_ids: ids,
    });
    view
}

#[test]
fn decide_visibility_tokened_owner_bypasses_feedback_level() {
    let req = query(subject(Some(2)), vec![submission_resource(7, 10)]);
    assert_eq!(viewer_token_keys(Some(2), &vec![10]), vec!["tokens:10:2"]);
    let (decisions, _) = decide(&req, vec![row(7, 2, "ioi")], with_token(vec![7]));
    assert!(matches!(decisions[0], WireDecision::Allow {}));
}

#[test]
fn decide_visibility_untokened_submission_is_unaffected_by_a_token_on_another_submission() {
    let req = query(subject(Some(2)), vec![submission_resource(7, 10)]);
    let (decisions, _) = decide(&req, vec![row(7, 2, "ioi")], with_token(vec![999]));
    assert!(matches!(decisions[0], WireDecision::Redact { .. }));
}

#[test]
fn decide_visibility_redacts_a_peer_to_none_level_when_the_scoreboard_is_hidden_in_this_phase() {
    // Even though the feedback is full, a peer must not see another
    // contestant's results while the scoreboard itself withholds them.
    let decision = decide_for(99, FeedbackLevel::Full, ScoreboardVisibility::AdminsOnly);
    redacts(&decision, none_level_mask_fields());
}

#[test]
fn decide_visibility_allows_a_peer_the_configured_level_once_the_scoreboard_is_visible() {
    let decision = decide_for(
        99,
        FeedbackLevel::Full,
        ScoreboardVisibility::AllContestViewers,
    );
    assert!(matches!(decision, WireDecision::Allow {}));
}

#[test]
fn decide_visibility_redacts_a_peer_per_feedback_level_once_the_scoreboard_is_visible() {
    // The scoreboard being visible does not itself grant full feedback;
    // the configured feedback_level still applies to peers too.
    let decision = decide_for(
        99,
        FeedbackLevel::SubtaskScores,
        ScoreboardVisibility::AllContestViewers,
    );
    redacts(&decision, per_test_case_mask_fields());
}

#[test]
fn feedback_decide_visibility_issues_exactly_one_batched_query_for_the_whole_batch() {
    // A batch of MANY submissions must cost ONE query, not one query per
    // submission.
    let req = query(
        subject(Some(2)), // owns submission 7, peer to 8 and 9.
        vec![
            submission_resource(7, 10),
            submission_resource(8, 10),
            submission_resource(9, 10),
        ],
    );
    let rows = vec![row(7, 2, "ioi"), row(8, 3, "ioi"), row(9, 4, "ioi")];
    assert_eq!(contests_needed(&req.resources, &rows), vec![10]);
    let (decisions, queries) = decide(
        &req,
        rows,
        contest(FeedbackLevel::Nothing, ScoreboardVisibility::AdminsOnly),
    );
    assert_eq!(decisions.len(), 3);
    assert_eq!(
        queries.len(),
        1,
        "must issue exactly one query for the whole batch, got: {queries:?}"
    );
    assert!(
        queries[0].sql.contains("IN ("),
        "must be a single IN(...) batch query: {}",
        queries[0].sql
    );
    for decision in &decisions {
        redacts(decision, none_level_mask_fields());
    }
}

// --- the order of submissions ---------------------------------------------

#[test]
fn the_order_of_submissions_does_not_matter() {
    let a = table(&[&[10.0, 20.0], &[5.0, 50.0, 30.0], &[40.0]]);
    let b = table(&[&[40.0], &[10.0, 20.0], &[5.0, 50.0, 30.0]]);
    assert_eq!(score_sum_best_subtask(&a), cents(120.0) as i128);
    assert_eq!(score_sum_best_subtask(&b), cents(120.0) as i128);
}

#[test]
fn a_further_submission_never_costs() {
    let mut scores = table(&[&[10.0, 20.0]]);
    let mut last = score_sum_best_subtask(&scores);
    assert_eq!(last, cents(30.0) as i128);
    for more in table(&[&[0.0, 0.0, 0.0], &[15.0], &[-3.0, -3.0, -3.0, -3.0], &[1.0, 1.0, 7.0]]) {
        scores.push(more);
        let next = score_sum_best_subtask(&scores);
        assert!(next >= last);
        last = next;
    }
    assert_eq!(last, cents(42.0) as i128);
}

// --- every case once ------------------------------------------------------

#[test]
fn an_abandoned_evaluation_fills_repeated_cases_each() {
    let tcs = vec![test_case(7), test_case(8), test_case(7)];
    let mut eval = GroupEval::new(&vec![], &tcs, 0.0);
    let step = eval.on_event(PollEvent::Timeout);
    assert!(step.finished && step.cancel_all);
    let ids: Vec<i32> = eval.outcomes.iter().map(|o| o.test_case_id).collect();
    assert_eq!(ids, vec![7, 8, 7]);
    // A case that has its outcome is not filled again, however often it occurs.
    let mut eval = GroupEval::new(&vec![], &tcs, 0.0);
    eval.mark_running();
    eval.on_event(wrong_answer(7));
    eval.on_event(PollEvent::Timeout);
    let ids: Vec<i32> = eval.outcomes.iter().map(|o| o.test_case_id).collect();
    assert_eq!(ids, vec![7, 8]);
}

#[test]
fn a_finished_evaluation_has_one_outcome_per_case() {
    let tcs = (1..=5).map(test_case).collect::<Vec<_>>();
    let subtasks = vec![
        subtask(SubtaskScoringMethod::GroupMin, 1..=3),
        subtask(SubtaskScoringMethod::Sum, 4..=5),
    ];
    let mut eval = GroupEval::new(&subtasks, &tcs, 0.0);
    eval.mark_running();
    let step = eval.on_event(wrong_answer(2));
    assert_eq!(step.cancel, vec![1, 3]);
    assert!(!eval.on_cancelled(Some(2)).finished);
    assert!(!eval.on_event(wrong_answer(5)).finished);
    assert!(eval.on_event(wrong_answer(4)).finished);
    let mut ids: Vec<i32> = eval.outcomes.iter().map(|o| o.test_case_id).collect();
    ids.sort();
    assert_eq!(ids, vec![1, 2, 3, 4, 5]);
}
