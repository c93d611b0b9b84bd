//! The ICPC contest.

use std::collections::VecDeque;

use broccoli_plugins::checkers::types::JudgeFile;
use broccoli_plugins::icpc::board::{
    build_board, current_submissions_sql, decide_reveal, freeze_possible, is_revealed,
    participants_query, problem_labels, standings_scope, submissions_query, ContestProblem,
    Participant, Scope, Viewing,
};
use broccoli_plugins::icpc::config::{
    freeze_view, freeze_window_open, freeze_window_start_ms, ContestConfig, ProblemState,
};
use broccoli_plugins::icpc::evaluate::{
    case_points, finalize, ids_of_cases, next_step, start_failed, submission_output, EvalResult,
    JudgeEnd, JudgeStep, PollEvent, ShortCircuitEval,
};
use broccoli_plugins::icpc::persist::{persist_and_track, plan_judge, JudgePlan};
use broccoli_plugins::icpc::routes::{
    handle_standings, reveal_key, standings_reads, Standings, StandingsRequest,
};
use broccoli_plugins::icpc::standings::{
    compute_first_solvers, compute_pending, compute_problem_states, counts_as_live,
    is_penalty_attempt, StandingsSubmission,
};
use broccoli_plugins::icpc::visibility::{
    contests_needed, decide_visibility_decisions, freeze_rows_query, hidden_result_mask_fields,
    must_hide_other_submission, ContestFacts, SubmissionFreezeRow,
};
use broccoli_plugins::judging::{
    build_batch_input, record_outcomes, to_outcome, EvalOutcome, JudgementRef, OnSubmissionInput,
    Points, Raw, RawClass, RowBuffer, SubmissionStatus, SubmissionUpdate, TestCaseResultRow,
    TestCaseRow, TestCaseVerdict,
};
use broccoli_plugins::sql::{Query, SqlValue};
use broccoli_plugins::summary::still_current;
use broccoli_plugins::verdict::Verdict;
use broccoli_plugins::visibility::{
    QueryContext, QueryResource, QuerySubject, VisibilityQueryInput, WireDecision,
};

const VIEW_ALL: &str = "submission:view_all";

// duration 300min, freeze 60min -> freeze window opens at 240min elapsed.
const DUR: i64 = 300 * 60_000;
const FREEZE_START: i64 = 240 * 60_000;

#[test]
fn freeze_off_before_contest_or_when_zero() {
    let before = freeze_view(60, "before", false, false, DUR, 0);
    assert!(!before.frozen && !before.can_reveal && before.freeze_start_ms == i64::MAX);
    let zero = freeze_view(0, "during", false, false, DUR, 290 * 60_000);
    assert!(!zero.frozen && !zero.can_reveal && zero.freeze_start_ms == i64::MAX);
}

#[test]
fn contestant_frozen_only_inside_window() {
    // before the window opens: not frozen, and no split (freeze_start = MAX).
    let before = freeze_view(60, "during", false, false, DUR, 200 * 60_000);
    assert!(!before.frozen, "before the window: live");
    assert_eq!(before.freeze_start_ms, i64::MAX, "no split before the window");
    // inside the window: frozen, split at the window start.
    let inside = freeze_view(60, "during", false, false, DUR, 250 * 60_000);
    assert!(inside.frozen, "inside the window: frozen");
    assert_eq!(inside.freeze_start_ms, FREEZE_START);
}

#[test]
fn contestant_frozen_through_after_until_revealed() {
    let now = 400 * 60_000; // past end
    let unrevealed = freeze_view(60, "after", false, false, DUR, now);
    assert!(unrevealed.frozen);
    assert_eq!(unrevealed.freeze_start_ms, FREEZE_START);
    let revealed = freeze_view(60, "after", false, true, DUR, now);
    assert!(!revealed.frozen && revealed.freeze_start_ms == i64::MAX);
}

#[test]
fn organizer_reveal_only_while_window_open() {
    // Footgun guard: an organizer CANNOT reveal before the freeze window opens.
    let before_window = freeze_view(60, "during", true, false, DUR, 100 * 60_000);
    assert!(!before_window.frozen, "organizer never frozen");
    assert!(!before_window.can_reveal, "no reveal before the window opens");
    assert_eq!(before_window.freeze_start_ms, i64::MAX, "organizer never split");
    // once the window is open (and after end), reveal is offered until revealed.
    assert!(freeze_view(60, "during", true, false, DUR, 250 * 60_000).can_reveal);
    assert!(freeze_view(60, "after", true, false, DUR, 400 * 60_000).can_reveal);
    assert!(!freeze_view(60, "after", true, true, DUR, 400 * 60_000).can_reveal);
}

#[test]
fn freeze_window_open_helper_matrix() {
    assert!(!freeze_window_open(60, "before", false, DUR, 0));
    assert!(!freeze_window_open(60, "during", false, DUR, 200 * 60_000)); // pre-window
    assert!(freeze_window_open(60, "during", false, DUR, 250 * 60_000)); // in window
    assert!(freeze_window_open(60, "after", false, DUR, 400 * 60_000)); // after
    assert!(!freeze_window_open(60, "after", true, DUR, 400 * 60_000)); // revealed
    assert!(!freeze_window_open(0, "during", false, DUR, 290 * 60_000)); // disabled
}

#[test]
fn penalty_minutes_unsolved() {
    let state = ProblemState {
        attempts: 5,
        solved: false,
        solve_time_ms: None,
    };
    assert_eq!(state.penalty_minutes(20), 0);
}

#[test]
fn penalty_minutes_solved() {
    let state = ProblemState {
        attempts: 2,
        solved: true,
        solve_time_ms: Some(45 * 60_000), // 45 minutes
    };
    // 45 + 2*20 = 85
    assert_eq!(state.penalty_minutes(20), 85);
}

#[test]
fn penalty_minutes_solved_no_wrong_attempts() {
    let state = ProblemState {
        attempts: 0,
        solved: true,
        solve_time_ms: Some(30 * 60_000),
    };
    assert_eq!(state.penalty_minutes(20), 30);
}

#[test]
fn penalty_minutes_sub_minute() {
    let state = ProblemState {
        attempts: 0,
        solved: true,
        solve_time_ms: Some(30_000), // 30 seconds
    };
    // 0 minutes (truncated) + 0 penalties = 0
    assert_eq!(state.penalty_minutes(20), 0);
}

#[test]
fn current_wrong_judgement_overrides_stale_solved_storage_shape() {
    let states = compute_problem_states(
        &[StandingsSubmission {
            submission_id: 1,
            user_id: 1,
            problem_id: 100,
            verdict: Some(Verdict::WrongAnswer),
            status: "Judged".into(),
            elapsed_ms: 10 * 60_000,
        }],
        false,
    );

    let state = states.get(&(1, 100)).expect("state should exist");
    assert!(!state.solved);
    assert_eq!(state.attempts, 1);
    assert_eq!(state.solve_time_ms, None);
}

#[test]
fn accepted_penalty_uses_submission_elapsed_time_and_prior_attempts() {
    let states = compute_problem_states(
        &[
            StandingsSubmission {
                submission_id: 1,
                user_id: 1,
                problem_id: 100,
                verdict: Some(Verdict::WrongAnswer),
                status: "Judged".into(),
                elapsed_ms: 3 * 60_000,
            },
            StandingsSubmission {
                submission_id: 2,
                user_id: 1,
                problem_id: 100,
                verdict: Some(Verdict::Accepted),
                status: "Judged".into(),
                elapsed_ms: 10 * 60_000,
            },
            StandingsSubmission {
                submission_id: 3,
                user_id: 1,
                problem_id: 100,
                verdict: Some(Verdict::WrongAnswer),
                status: "Judged".into(),
                elapsed_ms: 20 * 60_000,
            },
        ],
        false,
    );

    let state = states.get(&(1, 100)).expect("state should exist");
    assert!(state.solved);
    assert_eq!(state.attempts, 1);
    assert_eq!(state.solve_time_ms, Some(10 * 60_000));
}

#[test]
fn compile_errors_follow_contest_counting_config() {
    let row = StandingsSubmission {
        submission_id: 1,
        user_id: 1,
        problem_id: 100,
        verdict: None,
        status: "CompilationError".into(),
        elapsed_ms: 60_000,
    };

    let ignored = compute_problem_states(std::slice::from_ref(&row), false);
    assert_eq!(ignored.get(&(1, 100)).unwrap().attempts, 0);

    let counted = compute_problem_states(&[row], true);
    assert_eq!(counted.get(&(1, 100)).unwrap().attempts, 1);
}

#[test]
fn pending_counts_only_unsolved_and_ignores_system_error() {
    // pre-freeze: user 1 already solved problem 100.
    let pre = compute_problem_states(
        &[StandingsSubmission {
            submission_id: 1,
            user_id: 1,
            problem_id: 100,
            verdict: Some(Verdict::Accepted),
            status: "Judged".into(),
            elapsed_ms: 5 * 60_000,
        }],
        false,
    );
    // during freeze: one sub on the solved 100 (ignored), and on unsolved 200 a
    // WA (counts) + a SystemError (ignored).
    let freeze = vec![
        StandingsSubmission {
            submission_id: 2,
            user_id: 1,
            problem_id: 100,
            verdict: Some(Verdict::WrongAnswer),
            status: "Judged".into(),
            elapsed_ms: 290 * 60_000,
        },
        StandingsSubmission {
            submission_id: 3,
            user_id: 1,
            problem_id: 200,
            verdict: Some(Verdict::WrongAnswer),
            status: "Judged".into(),
            elapsed_ms: 291 * 60_000,
        },
        StandingsSubmission {
            submission_id: 4,
            user_id: 1,
            problem_id: 200,
            verdict: Some(Verdict::SystemError),
            status: "SystemError".into(),
            elapsed_ms: 292 * 60_000,
        },
    ];
    let pending = compute_pending(&freeze, &pre);
    assert_eq!(pending.get(&(1, 100)), None, "solved problem: no pending");
    assert_eq!(
        pending.get(&(1, 200)),
        Some(&1),
        "one pending (WA counts, SystemError ignored)"
    );
}

#[test]
fn own_submissions_are_never_frozen() {
    let freeze_start = 240 * 60_000;
    let during = |uid: i32| StandingsSubmission {
        submission_id: uid,
        user_id: uid,
        problem_id: 1,
        verdict: Some(Verdict::Accepted),
        status: "Judged".into(),
        elapsed_ms: 250 * 60_000, // inside the freeze window
    };
    // Viewer = user 7: their own during-freeze submission stays live...
    assert!(counts_as_live(&during(7), freeze_start, Some(7)));
    // ...but another team's during-freeze submission is frozen.
    assert!(!counts_as_live(&during(8), freeze_start, Some(7)));
    // A pre-freeze submission is live for everyone.
    let pre = StandingsSubmission {
        elapsed_ms: 100 * 60_000,
        ..during(8)
    };
    assert!(counts_as_live(&pre, freeze_start, Some(7)));
    // Anonymous / organizer viewer: no self-exception.
    assert!(!counts_as_live(&during(7), freeze_start, None));
}

#[test]
fn first_solver_is_the_globally_earliest_accepted() {
    // Two teams solved problem 100; user 8 solved it earlier than user 7.
    let states = compute_problem_states(
        &[
            StandingsSubmission {
                submission_id: 1,
                user_id: 7,
                problem_id: 100,
                verdict: Some(Verdict::Accepted),
                status: "Judged".into(),
                elapsed_ms: 30 * 60_000,
            },
            StandingsSubmission {
                submission_id: 2,
                user_id: 8,
                problem_id: 100,
                verdict: Some(Verdict::Accepted),
                status: "Judged".into(),
                elapsed_ms: 10 * 60_000,
            },
            // user 7 also solved problem 200 (only solver) -> first there.
            StandingsSubmission {
                submission_id: 3,
                user_id: 7,
                problem_id: 200,
                verdict: Some(Verdict::Accepted),
                status: "Judged".into(),
                elapsed_ms: 40 * 60_000,
            },
        ],
        false,
    );

    let first = compute_first_solvers(&states, false);
    assert_eq!(first.get(&100), Some(&8), "user 8 solved 100 first");
    assert_eq!(
        first.get(&200),
        Some(&7),
        "user 7 is the only solver of 200"
    );
}

#[test]
fn restricted_view_never_flags_a_first_solve() {
    // The private-standings restricted view loaded only the viewer's (user 7)
    // own submissions. Even though user 7 solved problem 100, first-solve is a
    // global property that someone else may already own - so the restricted
    // path must NOT crown the viewer. Suppressed entirely -> empty map.
    let states = compute_problem_states(
        &[StandingsSubmission {
            submission_id: 1,
            user_id: 7,
            problem_id: 100,
            verdict: Some(Verdict::Accepted),
            status: "Judged".into(),
            elapsed_ms: 30 * 60_000,
        }],
        false,
    );

    let first = compute_first_solvers(&states, true);
    assert!(
        first.is_empty(),
        "restricted view must not flag any first solve, got {first:?}"
    );
}

// --- evaluation -----------------------------------------------------------

fn test_case(id: i32) -> TestCaseRow<f64> {
    TestCaseRow {
        id,
        score: Points {
            value: 10.0,
            positive: true,
        },
        is_sample: false,
        position: id,
        description: None,
        label: None,
        input: JudgeFile::Missing,
        expected_output: JudgeFile::Missing,
        is_custom: false,
    }
}

fn test_submission(test_cases: Vec<TestCaseRow<f64>>) -> OnSubmissionInput<f64> {
    OnSubmissionInput {
        submission_id: 1,
        judgement_id: 1,
        fire_after_judging: true,
        user_id: 1,
        problem_id: 1,
        contest_id: Some(1),
        files: vec![],
        language: "cpp".into(),
        time_limit_ms: 1000,
        memory_limit_kb: 262144,
        problem_type: "standard".into(),
        test_cases,
        judge_epoch: 1,
        target_worker_id: None,
    }
}

fn raw(value: f64) -> Raw<f64> {
    Raw {
        value,
        class: if value <= 0.0 {
            RawClass::Zero
        } else if value >= 1.0 {
            RawClass::Full
        } else {
            RawClass::Partial
        },
    }
}

fn verdict_of(id: i32, verdict: Verdict) -> TestCaseVerdict<f64> {
    TestCaseVerdict {
        test_case_id: id,
        verdict,
        score: raw(if verdict == Verdict::Accepted { 1.0 } else { 0.0 }),
        time_used_ms: Some(10),
        memory_used_kb: Some(256),
        message: None,
        stdout: None,
        stderr: None,
    }
}

fn accepted(id: i32) -> PollEvent<f64> {
    PollEvent::Result(verdict_of(id, Verdict::Accepted))
}

fn wrong_answer(id: i32) -> PollEvent<f64> {
    PollEvent::Result(verdict_of(id, Verdict::WrongAnswer))
}

fn compile_failure(id: i32) -> PollEvent<f64> {
    PollEvent::Result(verdict_of(id, Verdict::CompileError))
}

/// How grave a verdict is.
fn severity(v: Verdict) -> u32 {
    match v {
        Verdict::Accepted => 0,
        Verdict::Skipped => 1,
        Verdict::Cancelled => 2,
        Verdict::WrongAnswer => 3,
        Verdict::TimeLimitExceeded => 4,
        Verdict::MemoryLimitExceeded => 5,
        Verdict::RuntimeError => 6,
        Verdict::CompileError => 7,
        Verdict::SystemError => 8,
    }
}

/// A host that runs one case at a time and remembers what it was told.
struct Worker {
    events: VecDeque<PollEvent<f64>>,
    stale: bool,
    updates: Vec<SubmissionStatus>,
    batches: Vec<Vec<i32>>,
    rows: Vec<TestCaseResultRow<f64>>,
    inserts: usize,
    cancelled: bool,
}

impl Worker {
    fn new(events: Vec<PollEvent<f64>>) -> Self {
        Worker {
            events: events.into(),
            stale: false,
            updates: vec![],
            batches: vec![],
            rows: vec![],
            inserts: 0,
            cancelled: false,
        }
    }

    fn update(&mut self, status: SubmissionStatus) -> Result<(), String> {
        if !still_current(if self.stale { 0 } else { 1 }) {
            self.cancelled = true;
            return Err("stale epoch".into());
        }
        self.updates.push(status);
        Ok(())
    }

    fn evaluate(
        &mut self,
        req: &OnSubmissionInput<f64>,
        cases: &Vec<TestCaseRow<f64>>,
    ) -> Result<EvalResult<f64>, String> {
        let at = JudgementRef {
            submission_id: req.submission_id,
            judgement_id: req.judgement_id,
            judge_epoch: req.judge_epoch,
        };
        let batch = build_batch_input(req, cases);
        let mut queue: VecDeque<i32> = batch.test_cases.iter().map(|c| c.test_case_id).collect();
        let mut eval = ShortCircuitEval::new(ids_of_cases(cases), 0.0);
        let mut buffer = RowBuffer::new();
        self.batches.extend(queue.pop_front().map(|id| vec![id]));
        self.update(SubmissionStatus::Compiling)?;
        while !eval.finished {
            let event = self.events.pop_front().unwrap();
            let plain = matches!(event, PollEvent::Result(_));
            if eval.must_mark_running(&event) {
                self.update(SubmissionStatus::Running)?;
                eval.mark_running();
            }
            let step = eval.on_event(event);
            for rows in record_outcomes(
                &mut buffer,
                at,
                &eval.outcomes,
                step.recorded_from,
                cases,
                step.finished,
            ) {
                self.inserts += 1;
                self.rows.extend(rows);
            }
            if step.cancel_all {
                self.cancelled = true;
            } else if plain && !step.finished && eval.outcomes.len() > step.recorded_from {
                self.batches.extend(queue.pop_front().map(|id| vec![id]));
            }
        }
        Ok(eval.into_result())
    }

    fn row_verdict(&self, id: i32) -> Verdict {
        self.rows
            .iter()
            .find(|r| r.test_case_id == Some(id))
            .unwrap_or_else(|| panic!("no row for test case {id}"))
            .verdict
    }
}

fn persist(eval: &EvalResult<f64>) -> SubmissionUpdate<u8> {
    let grave: Vec<u32> = eval.outcomes.iter().map(|o| severity(o.verdict)).collect();
    persist_and_track(
        JudgementRef {
            submission_id: 1,
            judgement_id: 1,
            judge_epoch: 1,
        },
        eval,
        &grave,
    )
}

#[test]
fn all_accepted() {
    let tcs = vec![test_case(1), test_case(2)];
    let req = test_submission(tcs.clone());
    let mut host = Worker::new(vec![accepted(1), accepted(2)]);

    let result = host.evaluate(&req, &tcs).unwrap();

    assert!(result.is_accepted);
    assert!(!result.is_compile_error);
    assert_eq!(result.outcomes.len(), 2);
    assert!(result
        .outcomes
        .iter()
        .all(|o| o.verdict == Verdict::Accepted));
    assert!(!host.cancelled);
    assert_eq!(host.updates.len(), 2);
    assert_eq!(host.updates[0], SubmissionStatus::Compiling);
    assert_eq!(host.updates[1], SubmissionStatus::Running);
}

#[test]
fn starts_single_case_initial_window_and_refills_after_result() {
    let tcs = vec![test_case(1), test_case(2)];
    let req = test_submission(tcs.clone());
    let mut host = Worker::new(vec![accepted(1), accepted(2)]);

    let result = host.evaluate(&req, &tcs).unwrap();

    assert!(result.is_accepted);
    assert_eq!(host.batches, vec![vec![1], vec![2]]);
}

#[test]
fn evaluate_stale_epoch_cancels_active_windowed_evaluation() {
    let tcs = vec![test_case(1), test_case(2)];
    let req = test_submission(tcs.clone());
    let mut host = Worker::new(vec![]);
    host.stale = true;

    assert!(host.evaluate(&req, &tcs).is_err());
    assert_eq!(host.batches, vec![vec![1]]);
    assert!(host.cancelled);
    let out = submission_output(JudgeEnd::Stale);
    assert!(out.success);
    assert!(out.error_message.is_none());
}

#[test]
fn short_circuits_on_wrong_answer_and_fills_skipped() {
    let tcs = vec![test_case(1), test_case(2), test_case(3)];
    let req = test_submission(tcs.clone());
    // TC 3 never evaluated - batch cancelled after WA
    let mut host = Worker::new(vec![accepted(1), wrong_answer(2)]);

    let result = host.evaluate(&req, &tcs).unwrap();

    assert!(!result.is_accepted);
    assert!(!result.is_compile_error);
    assert_eq!(result.outcomes.len(), 3);
    assert_eq!(result.outcomes[0].verdict, Verdict::Accepted);
    assert_eq!(result.outcomes[1].verdict, Verdict::WrongAnswer);
    assert_eq!(result.outcomes[2].verdict, Verdict::Skipped);
    assert_eq!(host.batches, vec![vec![1], vec![2]]);
}

#[test]
fn compile_error_fills_skipped_not_system_error() {
    let tcs = vec![test_case(1), test_case(2)];
    let req = test_submission(tcs.clone());
    // TC 2 never evaluated
    let mut host = Worker::new(vec![compile_failure(1)]);

    let result = host.evaluate(&req, &tcs).unwrap();

    assert!(!result.is_accepted);
    assert!(result.is_compile_error);
    assert_eq!(result.outcomes.len(), 2);
    assert_eq!(result.outcomes[0].verdict, Verdict::CompileError);
    // CE fills remaining with Skipped (not SystemError)
    assert_eq!(result.outcomes[1].verdict, Verdict::Skipped);
    assert_eq!(host.batches, vec![vec![1]]);
    assert_eq!(host.updates.len(), 1);
    assert_eq!(host.updates[0], SubmissionStatus::Compiling);
}

#[test]
fn evaluate_test_case_result_text_replaces_nul_bytes() {
    let tcs = vec![test_case(1)];
    let req = test_submission(tcs.clone());
    let mut host = Worker::new(vec![PollEvent::Result(TestCaseVerdict {
        test_case_id: 1,
        verdict: Verdict::WrongAnswer,
        score: raw(0.0),
        time_used_ms: Some(10),
        memory_used_kb: Some(256),
        message: Some("bad\0message".into()),
        stdout: Some("out\0put".into()),
        stderr: Some("err\0or".into()),
    })]);

    host.evaluate(&req, &tcs).unwrap();

    let rows = &host.rows;
    assert_eq!(rows.len(), 1);
    assert_eq!(rows[0].message.as_deref(), Some("bad\u{FFFD}message"));
    assert_eq!(rows[0].stdout.as_deref(), Some("out\u{FFFD}put"));
    assert_eq!(rows[0].stderr.as_deref(), Some("err\u{FFFD}or"));
}

#[test]
fn evaluate_polling_error_fills_system_error() {
    let tcs = vec![test_case(1), test_case(2)];
    let req = test_submission(tcs.clone());
    let mut host = Worker::new(vec![PollEvent::Failed]);

    let result = host.evaluate(&req, &tcs).unwrap();

    assert!(!result.is_accepted);
    assert!(!result.is_compile_error);
    assert_eq!(result.outcomes.len(), 2);
    assert_eq!(result.outcomes[0].verdict, Verdict::SystemError);
    assert_eq!(result.outcomes[1].verdict, Verdict::SystemError);
}

#[test]
fn ignores_late_cancelled_for_already_recorded_test_case() {
    let tcs = vec![test_case(1), test_case(2)];
    let req = test_submission(tcs.clone());
    let mut host = Worker::new(vec![
        accepted(1),
        PollEvent::Result(TestCaseVerdict {
            test_case_id: 1,
            verdict: Verdict::Cancelled,
            score: raw(0.0),
            time_used_ms: None,
            memory_used_kb: None,
            message: Some("Cancelled by host".into()),
            stdout: None,
            stderr: None,
        }),
        accepted(2),
    ]);

    let result = host.evaluate(&req, &tcs).unwrap();

    assert!(result.is_accepted);
    assert_eq!(result.outcomes.len(), 2);

    let rows = &host.rows;
    assert_eq!(rows.len(), 2);
    assert_eq!(rows[0].test_case_id, Some(1));
    assert_eq!(rows[0].verdict, Verdict::Accepted);
    assert_eq!(rows[1].test_case_id, Some(2));
    assert_eq!(rows[1].verdict, Verdict::Accepted);
}

/// Twenty accepted test cases take fewer than twenty inserts: two full chunks
/// of eight and one tail of four.
#[test]
fn evaluate_bulk_inserts_batch_accepted_results() {
    let tcs: Vec<TestCaseRow<f64>> = (1..=20).map(test_case).collect();
    let req = test_submission(tcs.clone());
    let mut host = Worker::new((1..=20).map(accepted).collect());

    let result = host.evaluate(&req, &tcs).unwrap();

    assert!(result.is_accepted);
    assert_eq!(host.rows.len(), 20);
    // 20 / 8 = 2 full chunks + 1 tail = 3 INSERTs total.
    let calls = host.inserts;
    assert!(
        calls <= 3,
        "expected ≤3 bulk INSERTs for 20 testcases, got {calls}"
    );
    assert!(
        calls >= 2,
        "expected ≥2 bulk INSERTs (threshold = 8), got {calls}"
    );
}

#[test]
fn bulk_inserts_short_circuit_uses_at_most_two_calls() {
    let tcs: Vec<TestCaseRow<f64>> = (1..=15).map(test_case).collect();
    let req = test_submission(tcs.clone());
    let mut host = Worker::new(vec![accepted(1), wrong_answer(2)]);

    let result = host.evaluate(&req, &tcs).unwrap();

    assert!(!result.is_accepted);
    assert_eq!(host.rows.len(), 15);
    let calls = host.inserts;
    assert!(
        calls <= 2,
        "expected ≤2 bulk INSERTs for short-circuit + fill, got {calls}"
    );
}

#[test]
fn timeouts_end_the_evaluation() {
    let tcs = vec![test_case(1), test_case(2)];
    let req = test_submission(tcs.clone());
    let mut host = Worker::new(vec![accepted(1), PollEvent::Timeout]);
    let result = host.evaluate(&req, &tcs).unwrap();
    assert!(!result.is_accepted);
    assert_eq!(result.outcomes[0].verdict, Verdict::Accepted);
    assert_ne!(result.outcomes[1].verdict, Verdict::Accepted);
    let failed = start_failed(&vec![1, 2], 0.0, "no worker");
    assert_eq!(failed.len(), 2);
    assert_eq!(failed[0].verdict, Verdict::SystemError);
    assert_eq!(
        failed[1].message.as_deref(),
        Some("BATCH_START_FAILED: no worker")
    );
    let out = submission_output(JudgeEnd::Failed("x".into()));
    assert!(!out.success);
    assert_eq!(out.error_message.as_deref(), Some("x"));
}

// --- results that come in one by one --------------------------------------

#[test]
fn all_accepted_finishes_and_scores_one() {
    let tcs = vec![test_case(1), test_case(2)];
    let req = test_submission(tcs.clone());
    assert_eq!(next_step(Some(Verdict::Accepted)), JudgeStep::Continue);
    let mut host = Worker::new(vec![accepted(1), accepted(2)]);
    let result = host.evaluate(&req, &tcs).unwrap();

    assert_eq!(host.rows.len(), 2);
    let update = persist(&finalize(result.outcomes));
    assert_eq!(update.verdict, Some(Some(Verdict::Accepted)));
    assert_eq!(update.score, Some(1));
}

#[test]
fn wrong_answer_short_circuits_and_fills_skipped() {
    let tcs = vec![test_case(1), test_case(2), test_case(3)];
    let req = test_submission(tcs.clone());
    assert_eq!(next_step(Some(Verdict::WrongAnswer)), JudgeStep::ShortCircuit);
    let mut host = Worker::new(vec![accepted(1), wrong_answer(2)]);
    let result = host.evaluate(&req, &tcs).unwrap();

    assert_eq!(host.rows.len(), 3);
    assert_eq!(host.row_verdict(1), Verdict::Accepted);
    assert_eq!(host.row_verdict(2), Verdict::WrongAnswer);
    assert_eq!(host.row_verdict(3), Verdict::Skipped);
    let update = persist(&finalize(result.outcomes));
    assert_eq!(update.verdict, Some(Some(Verdict::WrongAnswer)));
    assert_eq!(update.score, Some(0));
}

#[test]
fn compile_error_fills_skipped_without_marking_running() {
    let tcs = vec![test_case(1), test_case(2)];
    let req = test_submission(tcs.clone());
    let mut host = Worker::new(vec![compile_failure(1)]);
    let result = host.evaluate(&req, &tcs).unwrap();

    assert_eq!(host.row_verdict(1), Verdict::CompileError);
    assert_eq!(host.row_verdict(2), Verdict::Skipped);
    let update = persist(&finalize(result.outcomes));
    assert_eq!(update.status, Some(SubmissionStatus::CompilationError));
    assert!(
        host.updates.iter().all(|u| *u != SubmissionStatus::Running),
        "a compile error must never flip the submission to Running"
    );
}

#[test]
fn late_cancelled_for_recorded_case_is_ignored_not_double_inserted() {
    let tcs = vec![test_case(1), test_case(2)];
    let req = test_submission(tcs.clone());
    let cancelled = TestCaseVerdict {
        test_case_id: 1,
        verdict: Verdict::Cancelled,
        score: raw(0.0),
        time_used_ms: None,
        memory_used_kb: None,
        message: Some("late cancel".into()),
        stdout: None,
        stderr: None,
    };
    let mut host = Worker::new(vec![
        accepted(1),
        PollEvent::Result(cancelled),
        accepted(2),
    ]);
    host.evaluate(&req, &tcs).unwrap();

    assert_eq!(
        host.rows.len(),
        2,
        "late cancelled must not double-insert case 1"
    );
    assert!(host.rows.iter().all(|r| r.verdict == Verdict::Accepted));
}

// --- the final update -----------------------------------------------------

fn eval_result(
    outcomes: Vec<(i32, Verdict)>,
    is_compile_error: bool,
    is_accepted: bool,
) -> EvalResult<f64> {
    let outcomes: Vec<EvalOutcome<f64>> = outcomes
        .into_iter()
        .map(|(id, v)| to_outcome(verdict_of(id, v)))
        .collect();
    EvalResult {
        outcomes,
        is_compile_error,
        is_accepted,
    }
}

#[test]
fn accepted_sets_score_1() {
    let update = persist(&eval_result(vec![(1, Verdict::Accepted)], false, true));
    assert_eq!(update.score, Some(1));
    assert_eq!(update.verdict, Some(Some(Verdict::Accepted)));
}

#[test]
fn wrong_answer_sets_score_0() {
    let update = persist(&eval_result(vec![(1, Verdict::WrongAnswer)], false, false));
    assert_eq!(update.score, Some(0));
}

#[test]
fn compile_error_sets_compilation_error_without_verdict() {
    let update = persist(&eval_result(vec![(1, Verdict::CompileError)], true, false));
    assert_eq!(update.status, Some(SubmissionStatus::CompilationError));
    assert_eq!(update.verdict, Some(None));
    assert_eq!(update.score, Some(0));
}

#[test]
fn only_cancelled_or_skipped_is_system_error_not_accepted() {
    // A submission whose every outcome was cancelled/skipped (host-side
    // cancellation, worker restart) was never actually judged. Even if the
    // upstream evaluator mislabels it accepted, it must not become a solve.
    let update = persist(&eval_result(
        vec![(1, Verdict::Cancelled), (2, Verdict::Skipped)],
        false,
        true,
    ));
    assert_eq!(update.verdict, Some(Some(Verdict::SystemError)));
    assert_eq!(update.score, Some(0));
}

#[test]
fn problems_without_cases_are_never_solved() {
    let mut req = test_submission(vec![]);
    match plan_judge(&req) {
        JudgePlan::Finish(u) => {
            assert_eq!(u.verdict, Some(Some(Verdict::SystemError)));
            assert_eq!(u.score, Some(0));
            assert_eq!(u.error_code, Some(Some("NO_TEST_CASES".to_string())));
        }
        JudgePlan::Evaluate => panic!("nothing to evaluate"),
    }
    req.contest_id = None;
    match plan_judge(&req) {
        JudgePlan::Finish(u) => {
            assert_eq!(u.verdict, Some(Some(Verdict::Accepted)));
            assert_eq!(u.score, Some(0));
            assert_eq!(u.error_code, None);
        }
        JudgePlan::Evaluate => panic!("nothing to evaluate"),
    }
    assert!(matches!(
        plan_judge(&test_submission(vec![test_case(1)])),
        JudgePlan::Evaluate
    ));
    assert_eq!(case_points(Verdict::Accepted), 1);
    assert_eq!(case_points(Verdict::WrongAnswer), 0);
}

const NOW_IN_WINDOW: i64 = 250 * 60_000;
const PRE_FREEZE_SUB: i64 = 100 * 60_000;
const IN_FREEZE_SUB: i64 = 245 * 60_000;

#[test]
fn private_standings_hide_other_teams_during_contest_only() {
    // during the contest: hidden regardless of the freeze.
    assert!(must_hide_other_submission(
        false,
        0,
        "during",
        false,
        DUR,
        PRE_FREEZE_SUB,
        50 * 60_000
    ));
    assert!(must_hide_other_submission(
        false, 0, "before", false, DUR, 0, 0
    ));
    // after the contest the standings open up (no freeze configured).
    assert!(!must_hide_other_submission(
        false,
        0,
        "after",
        false,
        DUR,
        400 * 60_000,
        50 * 60_000
    ));
}

#[test]
fn public_standings_show_pre_freeze_verdicts() {
    assert!(!must_hide_other_submission(
        true,
        60,
        "during",
        false,
        DUR,
        NOW_IN_WINDOW,
        PRE_FREEZE_SUB
    ));
}

#[test]
fn freeze_hides_in_window_submissions_until_revealed() {
    // in the window, not revealed: hidden, through the 'after' phase.
    assert!(must_hide_other_submission(
        true,
        60,
        "during",
        false,
        DUR,
        NOW_IN_WINDOW,
        IN_FREEZE_SUB
    ));
    assert!(must_hide_other_submission(
        true,
        60,
        "after",
        false,
        DUR,
        400 * 60_000,
        IN_FREEZE_SUB
    ));
    // revealed: visible again.
    assert!(!must_hide_other_submission(
        true,
        60,
        "after",
        true,
        DUR,
        400 * 60_000,
        IN_FREEZE_SUB
    ));
    // before the window opens nothing is frozen.
    assert!(!must_hide_other_submission(
        true,
        60,
        "during",
        false,
        DUR,
        100 * 60_000,
        PRE_FREEZE_SUB
    ));
}

#[test]
fn hidden_result_mask_covers_every_list_shape_field_hide_used_to_blank() {
    // Old `hide_submission_result` list-item branch: verdict, score,
    // time_used, memory_used, and nothing else (status was deliberately
    // left alone so the pending '?' cell still renders).
    let fields = hidden_result_mask_fields();
    for f in ["verdict", "score", "time_used", "memory_used"] {
        assert!(
            fields.contains(&f.to_string()),
            "missing list-shape field {f}"
        );
    }
    assert!(
        !fields.iter().any(|f| f == "status"),
        "status must stay visible"
    );
}

#[test]
fn hidden_result_mask_covers_every_detail_shape_field_hide_used_to_blank() {
    // Old `hide_submission_result` detail branch: the same four, plus
    // compile_output/error_message/test_case_results, all nested under
    // `result`.
    let fields = hidden_result_mask_fields();
    for f in [
        "result.verdict",
        "result.score",
        "result.time_used",
        "result.memory_used",
        "result.compile_output",
        "result.error_message",
        "result.test_case_results",
    ] {
        assert!(
            fields.contains(&f.to_string()),
            "missing detail-shape field {f}"
        );
    }
}

// --- visibility -----------------------------------------------------------

fn subject(user_id: Option<i32>) -> QuerySubject {
    QuerySubject {
        user_id,
        authenticated: user_id.is_some(),
        permissions: Vec::new(),
    }
}

fn submission_resource(id: i32, contest_id: i32) -> QueryResource {
    QueryResource {
        kind: "submission".to_string(),
        id: id.to_string(),
        contest_id: Some(contest_id),
        problem_id: None,
    }
}

fn freeze_row(
    submission_id: i32,
    user_id: i32,
    contest_type: &str,
    submission_elapsed_ms: i64,
) -> SubmissionFreezeRow {
    SubmissionFreezeRow {
        submission_id,
        user_id,
        contest_type: Some(contest_type.to_string()),
        phase: "during".to_string(),
        duration_ms: DUR,
        now_elapsed_ms: NOW_IN_WINDOW,
        submission_elapsed_ms,
    }
}

fn facts() -> Vec<ContestFacts> {
    vec![ContestFacts {
        contest_id: 10,
        config: ContestConfig {
            public_standings: true,
            freeze_minutes: 60,
            ..ContestConfig::default()
        },
        revealed: false,
    }]
}

fn query(subject: QuerySubject, resources: Vec<QueryResource>) -> VisibilityQueryInput {
    VisibilityQueryInput {
        subject,
        action: "view".to_string(),
        context: QueryContext {
            contest_id: Some(10),
        },
        resources,
    }
}

/// The decisions, and the queries that were asked.
fn decide(
    req: &VisibilityQueryInput,
    rows: Vec<SubmissionFreezeRow>,
    facts: Vec<ContestFacts>,
) -> (Vec<WireDecision>, Vec<Query>) {
    let asked = freeze_rows_query(req, VIEW_ALL);
    let rows = if asked.is_some() { rows } else { vec![] };
    (
        decide_visibility_decisions(req, VIEW_ALL, &rows, &facts),
        asked.into_iter().collect(),
    )
}

#[test]
fn decide_visibility_redacts_the_exact_hide_submission_result_field_set_for_a_frozen_peer_submission(
) {
    // viewer is NOT the submission owner (2).
    let req = query(subject(Some(99)), vec![submission_resource(7, 10)]);
    let (decisions, _) = decide(&req, vec![freeze_row(7, 2, "icpc", IN_FREEZE_SUB)], facts());
    assert_eq!(decisions.len(), 1);
    match &decisions[0] {
        WireDecision::Redact { fields } => {
            let mut got = fields.clone();
            got.sort();
            let mut want = hidden_result_mask_fields();
            want.sort();
            assert_eq!(got, want);
        }
        other => panic!("expected Redact, got {other:?}"),
    }
}

#[test]
fn decide_visibility_allows_the_owner_even_while_frozen() {
    // viewer IS the submission owner.
    let req = query(subject(Some(2)), vec![submission_resource(7, 10)]);
    let (decisions, _) = decide(&req, vec![freeze_row(7, 2, "icpc", IN_FREEZE_SUB)], facts());
    assert!(matches!(decisions[0], WireDecision::Allow {}));
}

#[test]
fn decide_visibility_allows_a_submission_from_a_non_icpc_contest() {
    // Every visibility plugin is queried for every resource regardless of
    // contest type - ICPC must default to Allow rather than incorrectly
    // hiding another contest type's submissions.
    let req = query(subject(Some(99)), vec![submission_resource(7, 10)]);
    let (decisions, _) = decide(&req, vec![freeze_row(7, 2, "ioi", IN_FREEZE_SUB)], vec![]);
    assert!(matches!(decisions[0], WireDecision::Allow {}));
}

#[test]
fn lib_decide_visibility_allows_non_submission_resources_and_contest_less_resources_without_querying(
) {
    let mut req = query(
        subject(Some(99)),
        vec![
            QueryResource {
                kind: "contest".to_string(),
                id: "10".to_string(),
                contest_id: Some(10),
                problem_id: None,
            },
            QueryResource {
                kind: "submission".to_string(),
                id: "7".to_string(),
                contest_id: None, // standalone submission, no contest.
                problem_id: None,
            },
        ],
    );
    req.context.contest_id = None;
    let (decisions, queries) = decide(&req, vec![], vec![]);
    assert_eq!(decisions.len(), 2);
    assert!(decisions
        .iter()
        .all(|d| matches!(d, WireDecision::Allow {})));
    assert!(
        queries.is_empty(),
        "must not query the database when nothing needs it"
    );
}

#[test]
fn lib_decide_visibility_admin_bypass_allows_everything_without_querying() {
    let mut sub = subject(Some(99));
    sub.permissions.push(VIEW_ALL.to_string());
    let req = query(
        sub,
        vec![submission_resource(7, 10), submission_resource(8, 10)],
    );
    let (decisions, queries) = decide(&req, vec![], vec![]);
    assert_eq!(decisions.len(), 2);
    assert!(decisions
        .iter()
        .all(|d| matches!(d, WireDecision::Allow {})));
    assert!(queries.is_empty());
}

#[test]
fn lib_decide_visibility_issues_exactly_one_batched_query_for_the_whole_batch() {
    // A batch of MANY submissions must cost ONE query, not one query per
    // submission.
    let req = query(
        subject(Some(99)),
        vec![
            submission_resource(7, 10),
            submission_resource(8, 10),
            submission_resource(9, 10),
        ],
    );
    let rows = vec![
        freeze_row(7, 2, "icpc", IN_FREEZE_SUB),
        freeze_row(8, 3, "icpc", PRE_FREEZE_SUB),
        freeze_row(9, 4, "icpc", PRE_FREEZE_SUB),
    ];
    assert_eq!(contests_needed(&req.resources, &rows), vec![10]);
    let (decisions, queries) = decide(&req, rows, facts());
    assert_eq!(decisions.len(), 3);
    assert_eq!(
        queries.len(),
        1,
        "must issue exactly one query for the whole batch, got: {queries:?}"
    );
    assert!(
        queries[0].sql.contains("IN ("),
        "must be a single IN(...) batch query: {}",
        queries[0].sql
    );
    assert!(queries[0].sql.ends_with("IN ($1,$2,$3)"));
    assert!(matches!(decisions[0], WireDecision::Redact { .. }));
    assert!(matches!(decisions[1], WireDecision::Allow {}));
}

#[test]
fn lib_decide_visibility_fails_hidden_on_contest_submission_mismatch() {
    // No row at all for the submission id: fail hidden rather than leak.
    let req = query(subject(Some(99)), vec![submission_resource(7, 10)]);
    let (decisions, _) = decide(&req, vec![], vec![]);
    assert!(matches!(decisions[0], WireDecision::Redact { .. }));
}

#[test]
fn current_submission_query_can_be_restricted_to_visible_user_and_contest_problems() {
    let sql = current_submissions_sql("$1", " AND s.user_id = $2");

    assert!(
        sql.contains("JOIN contest_problem cp"),
        "query should join contest_problem to avoid scanning unrelated problem rows: {sql}"
    );
    assert!(
        sql.contains("AND s.user_id = $2"),
        "query should be restrictable to the visible contestant row: {sql}"
    );
}

// --- the board ------------------------------------------------------------

fn sub(id: i32, user: i32, problem: i32, verdict: Verdict, minutes: i64) -> StandingsSubmission {
    StandingsSubmission {
        submission_id: id,
        user_id: user,
        problem_id: problem,
        verdict: Some(verdict),
        status: "Judged".into(),
        elapsed_ms: minutes * 60_000,
    }
}

fn participant(user_id: i32, username: &str) -> Participant {
    Participant {
        user_id,
        username: username.into(),
    }
}

fn problems() -> Vec<ContestProblem> {
    vec![
        ContestProblem {
            problem_id: 100,
            label: None,
        },
        ContestProblem {
            problem_id: 200,
            label: Some("X".into()),
        },
    ]
}

fn live(now_minutes: i64) -> Viewing {
    Viewing {
        can_view_all: false,
        revealed: false,
        duration_ms: DUR,
        now_elapsed_ms: now_minutes * 60_000,
        own_user_id: Some(1),
        restricted: false,
    }
}

#[test]
fn boards_rank_by_solves_then_penalty() {
    let board = build_board(
        &ContestConfig::default(),
        "during",
        live(100),
        &problems(),
        &vec![
            participant(1, "ann"),
            participant(2, "bob"),
            participant(3, "cyd"),
            participant(4, "dan"),
        ],
        vec![
            sub(1, 1, 100, Verdict::WrongAnswer, 5),
            sub(2, 1, 100, Verdict::Accepted, 20),
            sub(3, 2, 100, Verdict::Accepted, 30),
            sub(4, 2, 200, Verdict::Accepted, 90),
            sub(5, 3, 100, Verdict::Accepted, 40),
        ],
    );
    assert!(!board.frozen);
    assert_eq!(board.labels, vec!["A", "X"]);
    let order: Vec<(i32, usize, usize, i128)> = board
        .rows
        .iter()
        .map(|r| (r.user_id, r.rank, r.solved, r.penalty))
        .collect();
    // ann needs 20 minutes and a penalty of 20: as much as cyd.
    assert_eq!(
        order,
        vec![(2, 1, 2, 120), (1, 2, 1, 40), (3, 2, 1, 40), (4, 4, 0, 0)]
    );
    let cell = board.rows[1].problems.get("A").unwrap();
    assert_eq!(cell.attempts, 1);
    assert_eq!(cell.time, Some(20));
    assert_eq!(cell.penalty, Some(40));
    assert_eq!(cell.first_solve, Some(true));
    assert!(board.rows[3].problems.get("A").is_none());
}

#[test]
fn frozen_boards_show_pending_marks() {
    let config = ContestConfig {
        freeze_minutes: 60,
        ..ContestConfig::default()
    };
    let board = build_board(
        &config,
        "during",
        live(250),
        &problems(),
        &vec![participant(1, "ann"), participant(2, "bob")],
        vec![
            sub(1, 1, 100, Verdict::Accepted, 245),
            sub(2, 2, 100, Verdict::Accepted, 245),
        ],
    );
    assert!(board.frozen);
    assert_eq!(board.rows[0].user_id, 1);
    assert_eq!(board.rows[0].solved, 1);
    assert_eq!(board.rows[1].solved, 0);
    let cell = board.rows[1].problems.get("A").unwrap();
    assert!(!cell.solved);
    assert_eq!(cell.pending, Some(1));
}

#[test]
fn labels_go_on_after_z() {
    let problems: Vec<ContestProblem> = (0..28)
        .map(|i| ContestProblem {
            problem_id: i,
            label: if i == 1 { Some("".into()) } else { None },
        })
        .collect();
    let labels = problem_labels(&problems);
    assert_eq!(labels[0], "A");
    assert_eq!(labels[1], "B");
    assert_eq!(labels[25], "Z");
    assert_eq!(labels[26], "AA");
    assert_eq!(labels[27], "AB");
}

#[test]
fn private_boards_show_the_own_row() {
    assert_eq!(standings_scope("during", false, false, Some(3)), Scope::Own(3));
    assert_eq!(standings_scope("during", false, false, None), Scope::Nobody);
    assert_eq!(standings_scope("during", true, false, Some(3)), Scope::All);
    assert_eq!(standings_scope("before", false, true, Some(3)), Scope::All);
    assert_eq!(standings_scope("after", false, false, Some(3)), Scope::All);
    let q = submissions_query(7, Some(3));
    assert_eq!(q.args, vec![SqlValue::Int(7), SqlValue::Int(3)]);
    assert!(q.sql.ends_with("s.contest_id = $1 AND s.user_id = $2"));
    let q = participants_query(7, Some(3));
    assert_eq!(q.args, vec![SqlValue::Int(3), SqlValue::Int(7)]);
}

#[test]
fn boards_are_revealed_by_organizers_in_time() {
    assert!(freeze_possible(60, false, "during"));
    assert!(!freeze_possible(60, true, "during"));
    assert!(!freeze_possible(60, false, "before"));
    assert!(is_revealed(&Some("1".into())));
    assert!(!is_revealed(&Some("0".into())));
    assert!(!is_revealed(&None));
    let inside = Some((DUR, NOW_IN_WINDOW));
    assert!(decide_reveal(true, 60, "during", inside).is_ok());
    assert_eq!(decide_reveal(false, 60, "during", inside).unwrap_err().status, 403);
    assert_eq!(
        decide_reveal(true, 60, "during", Some((DUR, 0)))
            .unwrap_err()
            .status,
        409
    );
    assert_eq!(decide_reveal(true, 0, "after", None).unwrap_err().status, 409);
    assert_eq!(freeze_window_start_ms(60, DUR), FREEZE_START);
    assert_eq!(freeze_window_start_ms(600, DUR), 0);
}

#[test]
fn penalties_count_what_was_judged_wrong() {
    assert!(is_penalty_attempt(&sub(1, 1, 1, Verdict::WrongAnswer, 1), false));
    assert!(!is_penalty_attempt(&sub(1, 1, 1, Verdict::Accepted, 1), false));
    assert!(!is_penalty_attempt(&sub(1, 1, 1, Verdict::SystemError, 1), false));
    assert!(!is_penalty_attempt(&sub(1, 1, 1, Verdict::CompileError, 1), false));
    assert!(is_penalty_attempt(&sub(1, 1, 1, Verdict::CompileError, 1), true));
    assert_eq!(ContestConfig::default().penalty_minutes, 20);
}

fn standings_request(user_id: Option<i32>, flag: Option<&str>) -> StandingsRequest {
    StandingsRequest {
        phase: "during".into(),
        can_view_all: false,
        user_id,
        reveal_flag: flag.map(String::from),
        times: (DUR, 250 * 60_000),
    }
}

#[test]
fn strangers_get_no_rows_of_private_standings() {
    let config = ContestConfig {
        public_standings: false,
        ..ContestConfig::default()
    };
    let answer = handle_standings(
        &standings_request(None, None),
        &config,
        &problems(),
        &vec![],
        vec![],
    );
    match answer {
        Standings::Empty { labels } => assert_eq!(labels, vec!["A", "X"]),
        Standings::Board { .. } => panic!("no board is shown"),
    }
    assert_eq!(reveal_key(7), "reveal:7");
}

#[test]
fn revealed_standings_are_live() {
    let config = ContestConfig {
        public_standings: true,
        freeze_minutes: 60,
        ..ContestConfig::default()
    };
    let answer = |req: StandingsRequest| {
        match handle_standings(
            &req,
            &config,
            &problems(),
            &vec![participant(1, "ann"), participant(2, "bob")],
            vec![sub(1, 2, 100, Verdict::Accepted, 245)],
        ) {
            Standings::Board { revealed, board } => (revealed, board),
            Standings::Empty { .. } => panic!("a board is shown"),
        }
    };
    let (revealed, board) = answer(standings_request(Some(1), None));
    assert!(!revealed && board.frozen && !board.can_reveal);
    assert_eq!(board.rows[0].solved, 0);
    let (revealed, board) = answer(standings_request(Some(1), Some("1")));
    assert!(revealed && !board.frozen);
    assert_eq!(board.rows[0].user_id, 2);
    assert_eq!(board.rows[0].solved, 1);
    let (_, board) = answer(StandingsRequest {
        can_view_all: true,
        ..standings_request(Some(9), None)
    });
    assert!(!board.frozen && board.can_reveal);
    assert_eq!(board.rows[0].solved, 1);
}

#[test]
fn own_standings_crown_nobody() {
    let config = ContestConfig {
        public_standings: false,
        ..ContestConfig::default()
    };
    let answer = handle_standings(
        &standings_request(Some(1), None),
        &config,
        &problems(),
        &vec![participant(1, "ann")],
        vec![sub(1, 1, 100, Verdict::Accepted, 5)],
    );
    match answer {
        Standings::Board { board, .. } => {
            assert_eq!(board.rows[0].problems.get("A").unwrap().first_solve, None);
        }
        Standings::Empty { .. } => panic!("the own row is shown"),
    }
}

#[test]
fn private_standings_read_the_viewer_alone() {
    let private = ContestConfig {
        public_standings: false,
        ..ContestConfig::default()
    };
    let public = ContestConfig {
        public_standings: true,
        ..ContestConfig::default()
    };
    assert!(standings_reads(&standings_request(None, None), &private, 7).is_none());
    let n = |v| SqlValue::Int(v);
    let (people, subs) = standings_reads(&standings_request(Some(3), None), &private, 7).unwrap();
    assert!(people.sql.contains("cu.contest_id = $2 AND cu.user_id = $1"));
    assert_eq!(people.args, vec![n(3), n(7)]);
    assert!(subs.sql.ends_with("s.contest_id = $1 AND s.user_id = $2"));
    assert_eq!(subs.args, vec![n(7), n(3)]);
    for user in [None, Some(3)] {
        let (people, subs) = standings_reads(&standings_request(user, None), &public, 7).unwrap();
        assert!(!people.sql.contains("cu.user_id = $"));
        assert_eq!(people.args, vec![n(7)]);
        assert!(!subs.sql.contains("s.user_id = $"));
        assert_eq!(subs.args, vec![n(7)]);
    }
}

#[test]
fn private_standings_show_one_contestant() {
    let config = ContestConfig {
        public_standings: false,
        ..ContestConfig::default()
    };
    let answer = handle_standings(
        &standings_request(Some(1), None),
        &config,
        &problems(),
        &vec![participant(1, "ann")],
        vec![
            sub(1, 1, 100, Verdict::Accepted, 5),
            sub(2, 1, 200, Verdict::WrongAnswer, 6),
        ],
    );
    let Standings::Board { board, .. } = answer else {
        panic!("the own row is shown");
    };
    assert_eq!(board.rows.len(), 1);
    assert_eq!(board.rows[0].user_id, 1);
    for label in ["A", "X"] {
        let cell = board.rows[0].problems.get(label);
        assert_eq!(cell.unwrap().first_solve, None);
    }
}
