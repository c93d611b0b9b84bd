//! What the scoreboard and the feedback promise: in what order contestants stand,
//! what their cells show, and what is blanked for whom.

use vstd::prelude::*;

use crate::ioi::config;
use crate::ioi::config::{FeedbackLevel, ScoreboardTiebreaker, ScoreboardVisibility};
use crate::ioi::feedback;
use crate::ioi::feedback::{ContestView, SubmissionVisibilityRow};
use crate::ioi::laws;
use crate::ioi::score::SubmissionScores;
use crate::ioi::scoreboard;
use crate::ioi::scoreboard::{BoardKey, MaxSubmissionScoreboardRow, ScoreboardCell, ScoreboardSubmissionRow, ScoreboardTcScoreRow, TaskSetup};
use crate::ioi::scoring;
use crate::ioi::subtasks;
use crate::ioi::tokens;
use crate::ioi::subtasks::{SubtaskPoints, Units};
use crate::judging;
use crate::pairs::PairMap;
use crate::text;
use crate::visibility;
use crate::visibility::QueryResource;

verus! {

// ---------------------------------------------------------------------------
// Who sees the board
// ---------------------------------------------------------------------------

proof fn lemma_phases_differ()
    ensures
        "before"@ != "during"@,
        "before"@ != "after"@,
        "during"@ != "after"@,
{
    reveal_strlit("before");
    reveal_strlit("during");
    reveal_strlit("after");
    assert("before"@[0] == 'b');
    assert("during"@[0] == 'd');
    assert("after"@[0] == 'a');
}

/// Who may see everything sees the board at any time. The others see it after the
/// contest, and during the contest where it is open to all; before, never.
pub proof fn the_board_opens_with_the_contest(
    phase: Seq<char>,
    can_view_all: bool,
    visibility: ScoreboardVisibility,
)
    ensures
        can_view_all ==> scoreboard::board_shown(phase, can_view_all, visibility),
        phase == "after"@ ==> scoreboard::board_shown(phase, can_view_all, visibility),
        phase == "during"@ && !can_view_all ==> (scoreboard::board_shown(
            phase,
            can_view_all,
            visibility,
        ) <==> visibility == ScoreboardVisibility::AllContestViewers),
        phase == "before"@ && !can_view_all ==> !scoreboard::board_shown(
            phase,
            can_view_all,
            visibility,
        ),
{
    lemma_phases_differ();
}

// ---------------------------------------------------------------------------
// The order of the rows
// ---------------------------------------------------------------------------

/// The higher score stands first. Between equal scores the sooner one does, but
/// where times do not count; and then the names decide.
pub proof fn the_higher_score_stands_first(
    a: BoardKey,
    b: BoardKey,
    tiebreaker: ScoreboardTiebreaker,
)
    ensures
        a.score > b.score ==> scoreboard::stands_before(a, b, tiebreaker)
            && !scoreboard::stands_before(b, a, tiebreaker),
        a.score == b.score && a.time < b.time && tiebreaker != ScoreboardTiebreaker::EqualRank
            ==> scoreboard::stands_before(a, b, tiebreaker) && !scoreboard::stands_before(
            b,
            a,
            tiebreaker,
        ),
        a.score == b.score && tiebreaker == ScoreboardTiebreaker::EqualRank ==> {
            &&& scoreboard::tied(a, b, tiebreaker)
            &&& scoreboard::stands_before(a, b, tiebreaker) <==> text::text_before(
                a.username,
                b.username,
            )
        },
        a.score == b.score && a.time == b.time ==> {
            &&& scoreboard::tied(a, b, tiebreaker)
            &&& scoreboard::stands_before(a, b, tiebreaker) <==> text::text_before(
                a.username,
                b.username,
            )
        },
        a.score != b.score ==> !scoreboard::tied(a, b, tiebreaker),
        a.time != b.time && tiebreaker != ScoreboardTiebreaker::EqualRank ==> !scoreboard::tied(
            a,
            b,
            tiebreaker,
        ),
{
}

/// What decides between equal scores: the times of the tasks together, the last
/// of them, or nothing.
pub proof fn times_are_summed_or_the_last_counts(times: Seq<i64>)
    ensures
        scoreboard::combined_time(ScoreboardTiebreaker::EqualRank, times) == 0,
        scoreboard::combined_time(ScoreboardTiebreaker::SumScoreTime, times) == laws::together(
            times.map_values(|t: i64| t as int),
        ),
        ({
            let last = scoreboard::combined_time(ScoreboardTiebreaker::MaxScoreTime, times);
            &&& times.len() == 0 ==> last == 0
            &&& forall|i: int| 0 <= i < times.len() ==> #[trigger] times[i] <= last
            &&& times.len() > 0 ==> exists|i: int|
                0 <= i < times.len() && #[trigger] times[i] == last
        }),
{
    lemma_time_sum(times);
    lemma_time_max(times);
}

proof fn lemma_together_add(a: Seq<int>, b: Seq<int>)
    ensures
        laws::together(a + b) == laws::together(a) + laws::together(b),
    decreases a.len(),
{
    if a.len() == 0 {
        assert(a + b =~= b);
    } else {
        assert((a + b).drop_first() =~= a.drop_first() + b);
        lemma_together_add(a.drop_first(), b);
        assert((a + b)[0] == a[0]);
    }
}

proof fn lemma_time_sum(times: Seq<i64>)
    ensures
        scoreboard::time_sum(times) == laws::together(times.map_values(|t: i64| t as int)),
    decreases times.len(),
{
    let numbers = times.map_values(|t: i64| t as int);
    if times.len() > 0 {
        lemma_time_sum(times.drop_last());
        let front = times.drop_last().map_values(|t: i64| t as int);
        let last = seq![times.last() as int];
        assert(numbers =~= front + last);
        lemma_together_add(front, last);
        assert(last.drop_first() =~= Seq::<int>::empty());
        assert(laws::together(last.drop_first()) == 0);
        assert(laws::together(last) == times.last() as int);
    } else {
        assert(numbers =~= Seq::<int>::empty());
    }
}

proof fn lemma_time_max(times: Seq<i64>)
    ensures
        forall|i: int| 0 <= i < times.len() ==> #[trigger] times[i] <= scoreboard::time_max(times),
        times.len() > 0 ==> exists|i: int|
            0 <= i < times.len() && #[trigger] times[i] == scoreboard::time_max(times),
    decreases times.len(),
{
    if times.len() == 1 {
        assert(times[0] == scoreboard::time_max(times));
    } else if times.len() > 1 {
        let rest = times.drop_last();
        lemma_time_max(rest);
        assert forall|i: int| 0 <= i < times.len() implies #[trigger] times[i]
            <= scoreboard::time_max(times) by {
            if i < rest.len() {
                assert(rest[i] == times[i]);
            }
        }
        let i = choose|i: int|
            0 <= i < rest.len() && #[trigger] rest[i] == scoreboard::time_max(rest);
        assert(times[i] == rest[i]);
        assert(times[times.len() - 1] == times.last());
    }
}

// ---------------------------------------------------------------------------
// Cells
// ---------------------------------------------------------------------------

/// One more row fills its own cell, with its score and time, and leaves the
/// others as they are.
pub proof fn a_row_fills_its_cell(
    rows: Seq<MaxSubmissionScoreboardRow>,
    row: MaxSubmissionScoreboardRow,
    user: i32,
    problem: i32,
)
    ensures
        ({
            let before = scoreboard::max_cells(rows);
            let after = scoreboard::max_cells(rows.push(row));
            let own = user == row.user_id && problem == row.problem_id;
            &&& own ==> {
                &&& after.contains_key((user, problem))
                &&& after[(user, problem)].score == row.score
                &&& after[(user, problem)].score_time_seconds == row.score_time_seconds
            }
            &&& !own ==> (after.contains_key((user, problem)) <==> before.contains_key(
                (user, problem),
            ))
            &&& !own && before.contains_key((user, problem)) ==> after[(user, problem)]
                == before[(user, problem)]
        }),
{
    assert(rows.push(row).drop_last() =~= rows);
    assert(rows.push(row).last() == row);
}

/// The rows of a cell are those of its contestant and task, in their order.
pub proof fn a_cell_takes_its_own_rows(
    rows: Seq<ScoreboardSubmissionRow>,
    row: ScoreboardSubmissionRow,
    user: i32,
    problem: i32,
)
    ensures
        scoreboard::cell_rows(Seq::<ScoreboardSubmissionRow>::empty(), user, problem).len() == 0,
        scoreboard::cell_rows(rows.push(row), user, problem) == (if row.user_id == user
            && row.problem_id == problem {
            scoreboard::cell_rows(rows, user, problem).push(row)
        } else {
            scoreboard::cell_rows(rows, user, problem)
        }),
{
    assert(rows.push(row).drop_last() =~= rows);
    assert(rows.push(row).last() == row);
}

/// The same of gathered submissions.
pub proof fn a_cell_takes_its_own_submissions<S>(
    groups: Seq<SubmissionScores<S>>,
    group: SubmissionScores<S>,
    user: i32,
    problem: i32,
)
    ensures
        scoreboard::cell_groups(Seq::<SubmissionScores<S>>::empty(), user, problem).len() == 0,
        scoreboard::cell_groups(groups.push(group), user, problem) == (if group.user_id == user
            && group.problem_id == problem {
            scoreboard::cell_groups(groups, user, problem).push(group)
        } else {
            scoreboard::cell_groups(groups, user, problem)
        }),
{
    assert(groups.push(group).drop_last() =~= groups);
    assert(groups.push(group).last() == group);
}

/// Results of tasks and cases that are not known are left out, the others stay in
/// their order.
pub proof fn only_known_results_count<S>(
    rows: Seq<ScoreboardTcScoreRow<S>>,
    row: ScoreboardTcScoreRow<S>,
    tasks: Seq<TaskSetup<S>>,
)
    ensures
        scoreboard::known_rows(Seq::<ScoreboardTcScoreRow<S>>::empty(), tasks).len() == 0,
        ({
            let task = scoreboard::task_at(tasks, row.problem_id);
            let known = task is Some && judging::case_at(
                task->0.test_cases@,
                row.test_case_id,
            ) is Some;
            scoreboard::known_rows(rows.push(row), tasks) == (if known {
                scoreboard::known_rows(rows, tasks).push(row)
            } else {
                scoreboard::known_rows(rows, tasks)
            })
        }),
{
    assert(rows.push(row).drop_last() =~= rows);
    assert(rows.push(row).last() == row);
}

/// A task is found by its id: the last one that has it.
pub proof fn a_task_is_found_by_its_id<S>(tasks: Seq<TaskSetup<S>>, task: TaskSetup<S>, id: i32)
    ensures
        scoreboard::task_at(Seq::<TaskSetup<S>>::empty(), id) is None,
        task.problem_id == id ==> scoreboard::task_at(tasks.push(task), id) == Some(task),
        task.problem_id != id ==> scoreboard::task_at(tasks.push(task), id)
            == scoreboard::task_at(tasks, id),
{
    assert(tasks.push(task).drop_last() =~= tasks);
    assert(tasks.push(task).last() == task);
}

proof fn lemma_best_row(rows: Seq<ScoreboardSubmissionRow>)
    ensures
        rows.len() == 0 ==> scoreboard::best_row(rows) == 0,
        forall|i: int|
            0 <= i < rows.len() ==> (#[trigger] rows[i]).score <= scoreboard::best_row(rows),
        rows.len() > 0 ==> exists|i: int|
            0 <= i < rows.len() && (#[trigger] rows[i]).score == scoreboard::best_row(rows),
    decreases rows.len(),
{
    if rows.len() == 1 {
        assert(rows[0].score == scoreboard::best_row(rows));
    } else if rows.len() > 1 {
        let rest = rows.drop_last();
        lemma_best_row(rest);
        assert forall|i: int| 0 <= i < rows.len() implies (#[trigger] rows[i]).score
            <= scoreboard::best_row(rows) by {
            if i < rest.len() {
                assert(rest[i] == rows[i]);
            }
        }
        let i = choose|i: int|
            0 <= i < rest.len() && (#[trigger] rest[i]).score == scoreboard::best_row(rest);
        assert(rows[i] == rest[i]);
        assert(rows[rows.len() - 1] == rows.last());
    }
}

proof fn lemma_reached_at(rows: Seq<ScoreboardSubmissionRow>, score: int)
    ensures
        forall|i: int|
            0 <= i < rows.len() && (#[trigger] rows[i]).score >= score ==> scoreboard::reached_at(
                rows,
                score,
            ) is Some && scoreboard::reached_at(rows, score)->0 <= rows[i].elapsed_seconds,
        scoreboard::reached_at(rows, score) is Some ==> exists|i: int|
            0 <= i < rows.len() && (#[trigger] rows[i]).score >= score && rows[i].elapsed_seconds
                == scoreboard::reached_at(rows, score)->0,
    decreases rows.len(),
{
    if rows.len() > 0 {
        let rest = rows.drop_last();
        lemma_reached_at(rest, score);
        let all = scoreboard::reached_at(rows, score);
        assert forall|i: int| 0 <= i < rows.len() && (#[trigger] rows[i]).score >= score implies all
            is Some && all->0 <= rows[i].elapsed_seconds by {
            if i < rest.len() {
                assert(rest[i] == rows[i]);
            }
        }
        if all is Some {
            if rows.last().score >= score && all->0 == rows.last().elapsed_seconds {
                assert(rows[rows.len() - 1].score >= score);
            } else {
                let i = choose|i: int|
                    0 <= i < rest.len() && (#[trigger] rest[i]).score >= score
                        && rest[i].elapsed_seconds == scoreboard::reached_at(rest, score)->0;
                assert(rows[i] == rest[i]);
            }
        }
    }
}

/// The submission counts for the cell: it has a token, or it is the last.
pub open spec fn counts_for_cell(
    last: Seq<ScoreboardSubmissionRow>,
    tokened: Seq<ScoreboardSubmissionRow>,
    row: ScoreboardSubmissionRow,
) -> bool {
    tokened.contains(row) || (last.len() > 0 && row == last.last())
}

/// A cell shows the best of the submissions with a token and the last one, zero
/// where there is none, and the time at which that score was first reached.
pub proof fn a_cell_shows_the_best_tokened_or_last(
    cell: ScoreboardCell,
    last: Seq<ScoreboardSubmissionRow>,
    tokened: Seq<ScoreboardSubmissionRow>,
    row: ScoreboardSubmissionRow,
)
    requires
        cell == scoreboard::tokened_cell(last, tokened),
    ensures
        counts_for_cell(last, tokened, row) ==> row.score <= cell.score,
        cell.score > 0 ==> exists|r: ScoreboardSubmissionRow| #[trigger]
            counts_for_cell(last, tokened, r) && r.score == cell.score && r.elapsed_seconds
                == cell.score_time_seconds,
        cell.score > 0 && counts_for_cell(last, tokened, row) && row.score == cell.score
            ==> cell.score_time_seconds <= row.elapsed_seconds,
        cell.score <= 0 ==> cell.score_time_seconds == 0,
        last.len() == 0 && tokened.len() == 0 ==> cell.score == 0,
{
    let last_row = if last.len() == 0 {
        seq![]
    } else {
        seq![last.last()]
    };
    let all = tokened + last_row;
    lemma_best_row(tokened);
    lemma_best_row(last_row);
    lemma_reached_at(all, cell.score as int);
    assert(i64::MIN <= scoreboard::best_row(tokened) <= i64::MAX) by {
        if tokened.len() > 0 {
            let i = choose|i: int|
                0 <= i < tokened.len() && (#[trigger] tokened[i]).score == scoreboard::best_row(
                    tokened,
                );
        }
    }
    assert(i64::MIN <= scoreboard::best_row(last_row) <= i64::MAX) by {
        if last_row.len() > 0 {
            assert(last_row[0].score <= scoreboard::best_row(last_row));
        }
    }
    assert(cell.score == scoring::max_of(
        scoreboard::best_row(tokened),
        scoreboard::best_row(last_row),
    ));
    assert forall|r: ScoreboardSubmissionRow| counts_for_cell(last, tokened, r) implies r.score
        <= cell.score && exists|i: int| 0 <= i < all.len() && #[trigger] all[i] == r by {
        if tokened.contains(r) {
            let i = choose|i: int| 0 <= i < tokened.len() && tokened[i] == r;
            assert(all[i] == r);
        } else {
            assert(last_row[0] == r);
            assert(all[tokened.len() as int] == r);
        }
    }
    assert forall|i: int| 0 <= i < all.len() implies counts_for_cell(
        last,
        tokened,
        #[trigger] all[i],
    ) by {
        if i < tokened.len() {
            assert(tokened[i] == all[i]);
        }
    }
    if cell.score > 0 {
        if tokened.len() > 0 && scoreboard::best_row(tokened) == cell.score {
            let i = choose|i: int|
                0 <= i < tokened.len() && (#[trigger] tokened[i]).score == scoreboard::best_row(
                    tokened,
                );
            assert(all[i] == tokened[i]);
        } else {
            let i = choose|i: int|
                0 <= i < last_row.len() && (#[trigger] last_row[i]).score == scoreboard::best_row(
                    last_row,
                );
            assert(all[tokened.len() + i] == last_row[i]);
        }
        assert(scoreboard::reached_at(all, cell.score as int) is Some);
        let i = choose|i: int|
            0 <= i < all.len() && (#[trigger] all[i]).score >= cell.score
                && all[i].elapsed_seconds == scoreboard::reached_at(all, cell.score as int)->0;
        assert(counts_for_cell(last, tokened, all[i]));
    }
    if cell.score > 0 && counts_for_cell(last, tokened, row) && row.score == cell.score {
        let i = choose|i: int| 0 <= i < all.len() && #[trigger] all[i] == row;
        assert(all[i].score >= cell.score);
    }
}

/// The submission has the best score of the subtask.
pub open spec fn has_the_best(table: Seq<Vec<i64>>, i: int, subtask: int) -> bool {
    &&& 0 <= i < table.len()
    &&& 0 <= subtask < table[i]@.len()
    &&& table[i]@[subtask] > 0
    &&& forall|j: int|
        0 <= j < table.len() && subtask < (#[trigger] table[j])@.len() ==> table[j]@[subtask]
            <= table[i]@[subtask]
}

/// It is the first submission that has it.
pub open spec fn first_with_the_best(
    elapsed: Seq<i64>,
    table: Seq<Vec<i64>>,
    i: int,
    subtask: int,
) -> bool {
    &&& has_the_best(table, i, subtask)
    &&& forall|j: int| #[trigger] has_the_best(table, j, subtask) ==> elapsed[i] <= elapsed[j]
}

proof fn lemma_first_with(
    elapsed: Seq<i64>,
    table: Seq<Vec<i64>>,
    subtask: int,
    score: int,
    n: int,
)
    requires
        0 <= n <= table.len(),
    ensures
        ({
            let first = scoreboard::first_with(elapsed, table, subtask, score, n);
            &&& forall|i: int|
                0 <= i < n && 0 <= subtask < (#[trigger] table[i])@.len() && table[i]@[subtask]
                    == score ==> first is Some && first->0 <= elapsed[i]
            &&& first is Some ==> exists|i: int|
                0 <= i < n && 0 <= subtask < (#[trigger] table[i])@.len() && table[i]@[subtask]
                    == score && elapsed[i] == first->0
        }),
    decreases n,
{
    if n > 0 {
        lemma_first_with(elapsed, table, subtask, score, n - 1);
        let first = scoreboard::first_with(elapsed, table, subtask, score, n);
        let rest = scoreboard::first_with(elapsed, table, subtask, score, n - 1);
        let t = table[n - 1];
        if first is Some && first != rest {
            assert(table[n - 1]@[subtask] == score && elapsed[n - 1] == first->0);
        }
    }
}

/// When a subtask reached its best: a submission with the best score was made
/// then, and none sooner.
proof fn lemma_subtask_time(elapsed: Seq<i64>, table: Seq<Vec<i64>>, subtask: int)
    requires
        subtask >= 0,
    ensures
        ({
            let t = scoreboard::subtask_time(elapsed, table, subtask);
            &&& forall|i: int| #[trigger]
                has_the_best(table, i, subtask) ==> t is Some && t->0 <= elapsed[i]
            &&& t is Some ==> exists|i: int| #[trigger]
                has_the_best(table, i, subtask) && elapsed[i] == t->0
        }),
{
    let best = scoring::best_at(table, subtask);
    laws::the_best_of_a_subtask_counts(table, subtask);
    lemma_first_with(elapsed, table, subtask, best, table.len() as int);
    let t = scoreboard::subtask_time(elapsed, table, subtask);
    assert forall|i: int| #[trigger] has_the_best(table, i, subtask) implies t is Some && t->0
        <= elapsed[i] by {
        assert(table[i]@[subtask] <= best);
        assert(best > 0);
        let j = choose|j: int|
            0 <= j < table.len() && subtask < (#[trigger] table[j])@.len() && table[j]@[subtask]
                == best;
        assert(table[j]@[subtask] <= table[i]@[subtask]);
        assert(table[i]@[subtask] == best);
    }
    if t is Some {
        let i = choose|i: int|
            0 <= i < table.len() && 0 <= subtask < (#[trigger] table[i])@.len()
                && table[i]@[subtask] == best && elapsed[i] == t->0;
        assert(has_the_best(table, i, subtask));
    }
}

proof fn lemma_completed_at(elapsed: Seq<i64>, table: Seq<Vec<i64>>, n: nat)
    ensures
        ({
            let done = scoreboard::completed_at(elapsed, table, n);
            &&& forall|k: int|
                0 <= k < n && (#[trigger] scoreboard::subtask_time(elapsed, table, k)) is Some
                    ==> done is Some && scoreboard::subtask_time(elapsed, table, k)->0 <= done->0
            &&& done is Some ==> exists|k: int|
                0 <= k < n && #[trigger] scoreboard::subtask_time(elapsed, table, k) == done
        }),
    decreases n,
{
    if n > 0 {
        lemma_completed_at(elapsed, table, (n - 1) as nat);
        let done = scoreboard::completed_at(elapsed, table, n);
        let rest = scoreboard::completed_at(elapsed, table, (n - 1) as nat);
        let last = scoreboard::subtask_time(elapsed, table, n - 1);
        assert(done == rest || done == last);
    }
}

/// The time of a task is that at which its score was complete: by then every
/// subtask with points had its best submission, and at that time one of them got
/// its first. A task without points has no time.
pub proof fn a_task_is_timed_by_its_last_subtask(
    cell: ScoreboardCell,
    elapsed: Seq<i64>,
    table: Seq<Vec<i64>>,
    i: int,
    k: int,
)
    requires
        elapsed.len() == table.len(),
        cell == scoreboard::sum_best_cell(elapsed, table),
        0 < scoring::best_sum(table) <= i128::MAX,
        has_the_best(table, i, k),
    ensures
        exists|j: int| #[trigger]
            has_the_best(table, j, k) && elapsed[j] <= cell.score_time_seconds,
        exists|j: int, m: int| #[trigger]
            first_with_the_best(elapsed, table, j, m) && elapsed[j] == cell.score_time_seconds,
{
    let n = scoring::widest(table);
    laws::every_subtask_is_seen(table);
    lemma_completed_at(elapsed, table, n);
    lemma_subtask_time(elapsed, table, k);
    assert(table[i]@.len() <= n);
    let done = scoreboard::completed_at(elapsed, table, n);
    assert(scoreboard::subtask_time(elapsed, table, k) is Some);
    let j = choose|j: int| #[trigger]
        has_the_best(table, j, k) && elapsed[j] == scoreboard::subtask_time(elapsed, table, k)->0;
    assert(has_the_best(table, j, k) && elapsed[j] <= cell.score_time_seconds);
    let m = choose|m: int|
        0 <= m < n && #[trigger] scoreboard::subtask_time(elapsed, table, m) == done;
    lemma_subtask_time(elapsed, table, m);
    let first = choose|j: int| #[trigger]
        has_the_best(table, j, m) && elapsed[j] == scoreboard::subtask_time(elapsed, table, m)->0;
    assert(first_with_the_best(elapsed, table, first, m) && elapsed[first]
        == cell.score_time_seconds);
}

/// Without points a cell tells no time.
pub proof fn no_points_no_time(elapsed: Seq<i64>, table: Seq<Vec<i64>>)
    requires
        scoring::best_sum(table) <= 0,
    ensures
        scoreboard::sum_best_cell(elapsed, table).score_time_seconds == 0,
{
}

// ---------------------------------------------------------------------------
// Feedback
// ---------------------------------------------------------------------------

/// What tells the outcome of a submission is all blanked where nothing is shown:
/// its verdict, score, time and memory, wherever they stand, the output of the
/// compiler, the error, and the results of its cases.
pub proof fn nothing_means_no_outcome()
    ensures
        ({
            let f = feedback::outcome_fields();
            &&& f.contains("verdict"@) && f.contains("score"@) && f.contains("time_used"@)
                && f.contains("memory_used"@)
            &&& f.contains("result.verdict"@) && f.contains("result.score"@) && f.contains(
                "result.time_used"@,
            ) && f.contains("result.memory_used"@)
            &&& f.contains("result.compile_output"@) && f.contains("result.error_message"@)
                && f.contains("result.test_case_results"@)
            &&& f.len() == 11
        }),
{
    let f = feedback::outcome_fields();
    assert(f[0] == "verdict"@ && f[1] == "score"@ && f[2] == "time_used"@ && f[3]
        == "memory_used"@);
    assert(f[4] == "result.verdict"@ && f[5] == "result.score"@ && f[6] == "result.time_used"@
        && f[7] == "result.memory_used"@);
    assert(f[8] == "result.compile_output"@ && f[9] == "result.error_message"@ && f[10]
        == "result.test_case_results"@);
}

/// Where only scores are shown, what tells of a single case is all blanked: its
/// verdict, score, time and memory, its files and outputs, and what the checker
/// said.
pub proof fn scores_only_means_no_case()
    ensures
        ({
            let f = feedback::case_fields();
            &&& f.contains("result.test_case_results.*.verdict"@) && f.contains(
                "result.test_case_results.*.score"@,
            ) && f.contains("result.test_case_results.*.time_used"@) && f.contains(
                "result.test_case_results.*.memory_used"@,
            )
            &&& f.contains("result.test_case_results.*.input"@) && f.contains(
                "result.test_case_results.*.expected_output"@,
            ) && f.contains("result.test_case_results.*.stdout"@) && f.contains(
                "result.test_case_results.*.stderr"@,
            )
            &&& f.contains("result.test_case_results.*.checker_output"@)
            &&& f.len() == 9
        }),
{
    let f = feedback::case_fields();
    assert(f[0] == "result.test_case_results.*.verdict"@ && f[1]
        == "result.test_case_results.*.score"@ && f[2] == "result.test_case_results.*.time_used"@
        && f[3] == "result.test_case_results.*.memory_used"@);
    assert(f[4] == "result.test_case_results.*.input"@ && f[5]
        == "result.test_case_results.*.expected_output"@ && f[6]
        == "result.test_case_results.*.stdout"@ && f[7] == "result.test_case_results.*.stderr"@
        && f[8] == "result.test_case_results.*.checker_output"@);
}

/// What a contestant sees of the own submission, by the level of the contest: all
/// with full feedback or a token; no single case where scores are shown; nothing
/// of the outcome else.
pub proof fn the_level_decides_what_is_shown(
    resource: QueryResource,
    rows: Seq<SubmissionVisibilityRow>,
    contests: Seq<ContestView>,
    id: i32,
    row: SubmissionVisibilityRow,
    contest_id: i32,
    view: ContestView,
)
    requires
        visibility::submission_of(resource) == Some(id),
        feedback::row_of(rows, id) == Some(row),
        row.contest_type is Some && row.contest_type->0@ == "ioi"@,
        resource.contest_id == Some(contest_id),
        feedback::view_of(contests, contest_id) == Some(view),
    ensures
        ({
            let tokened = view.tokens is Some && view.tokens->0.tokened_submission_ids@.contains(id);
            let shown = feedback::blanked(resource, rows, contests, Some(row.user_id));
            &&& tokened || view.config.feedback_level == FeedbackLevel::Full ==> shown is None
            &&& !tokened && (view.config.feedback_level == FeedbackLevel::SubtaskScores
                || view.config.feedback_level == FeedbackLevel::TotalOnly) ==> shown == Some(
                feedback::case_fields(),
            )
            &&& !tokened && view.config.feedback_level == FeedbackLevel::Nothing ==> shown == Some(
                feedback::outcome_fields(),
            )
        }),
{
}

/// What others see of a submission: nothing of its outcome before the contest,
/// nor during it where the board is closed; and as much as the level shows, token
/// or no, once the board is open.
pub proof fn others_see_what_the_board_shows(
    resource: QueryResource,
    rows: Seq<SubmissionVisibilityRow>,
    contests: Seq<ContestView>,
    id: i32,
    row: SubmissionVisibilityRow,
    contest_id: i32,
    view: ContestView,
    viewer: Option<i32>,
)
    requires
        visibility::submission_of(resource) == Some(id),
        feedback::row_of(rows, id) == Some(row),
        row.contest_type is Some && row.contest_type->0@ == "ioi"@,
        resource.contest_id == Some(contest_id),
        feedback::view_of(contests, contest_id) == Some(view),
        viewer != Some(row.user_id),
    ensures
        ({
            let shown = feedback::blanked(resource, rows, contests, viewer);
            let open = row.phase@ == "after"@ || (row.phase@ == "during"@
                && view.config.scoreboard_visibility == ScoreboardVisibility::AllContestViewers);
            &&& !open ==> shown == Some(feedback::outcome_fields())
            &&& open ==> match view.config.feedback_level {
                FeedbackLevel::Full => shown is None,
                FeedbackLevel::SubtaskScores => shown == Some(feedback::case_fields()),
                FeedbackLevel::TotalOnly => shown == Some(feedback::case_fields()),
                FeedbackLevel::Nothing => shown == Some(feedback::outcome_fields()),
            }
        }),
{
}

/// A submission of which nothing is known shows nothing; one of another kind of
/// contest, and what is no submission, is not touched.
pub proof fn unknown_submissions_show_nothing(
    resource: QueryResource,
    rows: Seq<SubmissionVisibilityRow>,
    contests: Seq<ContestView>,
    viewer: Option<i32>,
)
    ensures
        ({
            let id = visibility::submission_of(resource);
            let shown = feedback::blanked(resource, rows, contests, viewer);
            &&& id is None ==> shown is None
            &&& id is Some && feedback::row_of(rows, id->0) is None ==> shown == Some(
                feedback::outcome_fields(),
            )
            &&& id is Some && feedback::row_of(rows, id->0) is Some && !(feedback::row_of(
                rows,
                id->0,
            )->0.contest_type is Some && feedback::row_of(rows, id->0)->0.contest_type->0@
                == "ioi"@) ==> shown is None
        }),
{
}

/// A contest that nothing is known of has full feedback, and a board for its
/// organizers.
pub proof fn unknown_contests_have_default_settings(contests: Seq<ContestView>, contest_id: i32)
    requires
        forall|i: int|
            0 <= i < contests.len() ==> (#[trigger] contests[i]).contest_id != contest_id,
    ensures
        feedback::view_of(contests, contest_id) is None,
        feedback::config_in(contests, contest_id).feedback_level == FeedbackLevel::Full,
        feedback::config_in(contests, contest_id).scoreboard_visibility
            == ScoreboardVisibility::AdminsOnly,
    decreases contests.len(),
{
    if contests.len() > 0 {
        let rest = contests.drop_last();
        assert(contests[contests.len() - 1].contest_id != contest_id);
        assert forall|i: int| 0 <= i < rest.len() implies (#[trigger] rest[i]).contest_id
            != contest_id by {
            assert(rest[i] == contests[i]);
        }
        unknown_contests_have_default_settings(rest, contest_id);
    }
}

/// A contest is found by its id, and a submission by its own: the last entry that
/// has it.
pub proof fn what_is_known_is_found(
    rows: Seq<SubmissionVisibilityRow>,
    row: SubmissionVisibilityRow,
    contests: Seq<ContestView>,
    view: ContestView,
    id: i32,
)
    ensures
        feedback::row_of(Seq::<SubmissionVisibilityRow>::empty(), id) is None,
        feedback::row_of(rows.push(row), id) == (if row.submission_id == id {
            Some(row)
        } else {
            feedback::row_of(rows, id)
        }),
        feedback::view_of(contests.push(view), id) == (if view.contest_id == id {
            Some(view)
        } else {
            feedback::view_of(contests, id)
        }),
{
    assert(rows.push(row).drop_last() =~= rows);
    assert(rows.push(row).last() == row);
    assert(contests.push(view).drop_last() =~= contests);
    assert(contests.push(view).last() == view);
}

/// Rows are compared by their score first: the higher one comes before, whoever asks.
pub proof fn comparing_puts_the_higher_score_first(
    a_score: i128,
    a_time: i128,
    a_username: &str,
    b_score: i128,
    b_time: i128,
    b_username: &str,
    tiebreaker: ScoreboardTiebreaker,
    r: std::cmp::Ordering,
)
    requires
        call_ensures(
            scoreboard::compare_scoreboard_entries,
            (a_score, a_time, a_username, b_score, b_time, b_username, tiebreaker),
            r,
        ),
    ensures
        a_score > b_score ==> r is Less,
        a_score < b_score ==> r is Greater,
        a_score == b_score && tiebreaker != ScoreboardTiebreaker::EqualRank && a_time < b_time
            ==> r is Less,
        a_score == b_score && tiebreaker != ScoreboardTiebreaker::EqualRank && a_time > b_time
            ==> r is Greater,
        a_score == b_score && (tiebreaker == ScoreboardTiebreaker::EqualRank || a_time == b_time)
            ==> (r is Less <==> text::text_before(a_username@, b_username@)),
        a_score == b_score && (tiebreaker == ScoreboardTiebreaker::EqualRank || a_time == b_time)
            && a_username@ == b_username@ ==> r is Equal,
{
    text::text_order_is_total(a_username@, b_username@);
}

/// A cell for every contestant and task, filled from their own rows.
pub proof fn every_contestant_has_a_cell_for_each_task(
    user_ids: &Vec<i32>,
    problem_ids: &Vec<i32>,
    last: &Vec<ScoreboardSubmissionRow>,
    tokened: &Vec<ScoreboardSubmissionRow>,
    r: PairMap<ScoreboardCell>,
    user: i32,
    task: i32,
)
    requires
        call_ensures(
            scoreboard::best_tokened_or_last_cells,
            (user_ids, problem_ids, last, tokened),
            r,
        ),
    ensures
        r@.contains_key((user, task)) <==> user_ids@.contains(user) && problem_ids@.contains(task),
        r@.contains_key((user, task)) ==> r@[(user, task)] == scoreboard::tokened_cell(
            scoreboard::cell_rows(last@, user, task),
            scoreboard::cell_rows(tokened@, user, task),
        ),
{
}

/// A cell that sums up the best of each subtask: there is a table with a row for each of
/// the contestant's submissions to the task, and its best scores and their times stand in
/// the cell.
pub proof fn a_cell_sums_up_the_best_of_each_subtask<S: Copy, F: Fn(SubtaskPoints<S>) -> i64>(
    user_ids: &Vec<i32>,
    problem_ids: &Vec<i32>,
    tasks: &Vec<TaskSetup<S>>,
    groups: &Vec<SubmissionScores<S>>,
    units: Units<S>,
    points: &F,
    r: PairMap<ScoreboardCell>,
    user: i32,
    task: i32,
)
    requires
        call_ensures(
            scoreboard::sum_best_subtask_cells::<S, F>,
            (user_ids, problem_ids, tasks, groups, units, points),
            r,
        ),
    ensures
        r@.contains_key((user, task)) <==> user_ids@.contains(user) && problem_ids@.contains(task)
            && scoreboard::task_at(tasks@, task) is Some,
        r@.contains_key((user, task)) ==> exists|table: Seq<Vec<i64>>, times: Seq<i64>|
            {
                let own = scoreboard::cell_groups(groups@, user, task);
                let setup = scoreboard::task_at(tasks@, task)->0;
                &&& r@[(user, task)] == #[trigger] scoreboard::sum_best_cell(times, table)
                &&& table.len() == own.len() && times.len() == own.len()
                &&& forall|i: int|
                    0 <= i < own.len() ==> #[trigger] times[i] == own[i].elapsed_seconds
                &&& forall|i: int, k: int|
                    0 <= i < own.len() && 0 <= k < setup.subtask_defs@.len() ==> {
                        &&& table[i]@.len() == setup.subtask_defs@.len()
                        &&& subtasks::scored_as(
                            #[trigger] table[i]@[k],
                            setup.subtask_defs@[k],
                            subtasks::weights_of(setup.test_cases@),
                            subtasks::by_all_keys(setup.test_cases@, own[i].scores@),
                            units,
                            *points,
                        )
                    }
            },
{
    if r@.contains_key((user, task)) {
        let own = scoreboard::cell_groups(groups@, user, task);
        let setup = scoreboard::task_at(tasks@, task)->0;
        let table = choose|table: Seq<Vec<i64>>| #[trigger]
            scoreboard::scored_table(table, setup, own, units, *points) && r@[(user, task)]
                == scoreboard::sum_best_cell(scoreboard::times_of(own), table);
        let times = scoreboard::times_of(own);
        assert(r@[(user, task)] == scoreboard::sum_best_cell(times, table));
    }
}

/// Two rows share their rank where their scores are the same, and their times where times
/// count.
pub proof fn equal_rows_share_their_rank(
    a_score: i128,
    a_time: i128,
    b_score: i128,
    b_time: i128,
    tiebreaker: ScoreboardTiebreaker,
    r: bool,
)
    requires
        call_ensures(
            scoreboard::scoreboard_entries_tied,
            (a_score, a_time, b_score, b_time, tiebreaker),
            r,
        ),
    ensures
        r <==> a_score == b_score && (tiebreaker == ScoreboardTiebreaker::EqualRank || a_time
            == b_time),
{
}

/// A token is kept for every contestant of the board, in order.
pub proof fn every_contestant_on_the_board_has_a_key(
    contest_id: i32,
    user_ids: &Vec<i32>,
    r: Vec<String>,
    i: int,
)
    requires
        call_ensures(scoreboard::token_keys, (contest_id, user_ids), r),
        0 <= i < user_ids@.len(),
    ensures
        text::views(r@).len() == user_ids@.len(),
        text::views(r@)[i] == tokens::token_key_of(contest_id, user_ids@[i]),
{
}

/// The board is shown to who sees everything, to all after the contest, and during it where
/// it is open to all.
pub proof fn the_board_is_shown_in_its_time(
    phase: &str,
    can_view_all: bool,
    visibility: ScoreboardVisibility,
    r: bool,
)
    requires
        call_ensures(
            scoreboard::full_scoreboard_visible_for_phase,
            (phase, can_view_all, visibility),
            r,
        ),
    ensures
        can_view_all || phase@ == "after"@ ==> r,
        phase@ == "during"@ && !can_view_all ==> (r <==> visibility
            == ScoreboardVisibility::AllContestViewers),
        phase@ == "before"@ && !can_view_all ==> !r,
{
    the_board_opens_with_the_contest(phase@, can_view_all, visibility);
}

} // verus!
