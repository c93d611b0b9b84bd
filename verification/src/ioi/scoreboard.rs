//! The scoreboard. Scores are in hundredths of a point.

use vstd::prelude::*;

use std::cmp::Ordering;

use crate::ids::insert_sorted;
use crate::ioi::config::{
    resolve_tc_label, ScoreboardTiebreaker, ScoreboardVisibility, SubtaskDef,
};
use crate::ioi::score::{normalized_raw_score, subtask_row, RatedRow, SubmissionScores};
use crate::ioi::scoring::{best_score_at, score_best_tokened_or_last, score_sum_best_subtask};
use crate::ioi::subtasks::{SubtaskPoints, Units};
use crate::ioi::tokens::{token_key, TokenState};
use crate::judging::{find_case, Raw, TestCaseRow};
use crate::pairs::PairMap;
use crate::sql::{bind_ids, Params, Query, SqlValue, SqlView};
use crate::text::{str_eq, text_less};
use crate::verdict::Verdict;
use crate::ids;
use crate::ioi::config;
use crate::ioi::score;
use crate::ioi::subtasks;
use crate::ioi::scoring;
use crate::ioi::tokens;
use crate::judging;
use crate::sql;
use crate::text;

verus! {

/// Whether the whole scoreboard is shown: to those who may see everything, to
/// all after the contest, and during it where the contest says so.
pub open spec fn board_shown(
    phase: Seq<char>,
    can_view_all: bool,
    visibility: ScoreboardVisibility,
) -> bool {
    ||| can_view_all
    ||| phase == "after"@
    ||| phase == "during"@ && visibility is AllContestViewers
}

pub fn full_scoreboard_visible_for_phase(
    phase: &str,
    can_view_all: bool,
    scoreboard_visibility: ScoreboardVisibility,
) -> (r: bool)
    ensures
        r == board_shown(phase@, can_view_all, scoreboard_visibility),
{
    can_view_all || str_eq(phase, "after") || (str_eq(phase, "during") && scoreboard_visibility
        == ScoreboardVisibility::AllContestViewers)
}

// ---------------------------------------------------------------------------
// Times and order
// ---------------------------------------------------------------------------

pub open spec fn time_sum(times: Seq<i64>) -> int
    decreases times.len(),
{
    if times.len() == 0 {
        0
    } else {
        time_sum(times.drop_last()) + times.last()
    }
}

/// The latest of the times; zero where there is none.
pub open spec fn time_max(times: Seq<i64>) -> int
    decreases times.len(),
{
    if times.len() == 0 {
        0
    } else if times.len() == 1 {
        times[0] as int
    } else {
        scoring::max_of(time_max(times.drop_last()), times.last() as int)
    }
}

/// A contestant's time: nothing where times do not count, else all of them
/// together or the latest.
pub open spec fn combined_time(tiebreaker: ScoreboardTiebreaker, times: Seq<i64>) -> int {
    match tiebreaker {
        ScoreboardTiebreaker::EqualRank => 0,
        ScoreboardTiebreaker::SumScoreTime => time_sum(times),
        ScoreboardTiebreaker::MaxScoreTime => time_max(times),
    }
}

pub fn combined_score_time_seconds(tiebreaker: ScoreboardTiebreaker, times: &Vec<i64>) -> (r: i128)
    ensures
        r == combined_time(tiebreaker, times@),
{
    match tiebreaker {
        ScoreboardTiebreaker::EqualRank => 0,
        ScoreboardTiebreaker::SumScoreTime => {
            let mut sum: i128 = 0;
            let mut i: usize = 0;
            assert(times@.take(0) =~= Seq::<i64>::empty());
            while i < times.len()
                invariant
                    i <= times@.len(),
                    sum == time_sum(times@.take(i as int)),
                    i * i64::MIN <= sum <= i * i64::MAX,
                decreases times@.len() - i,
            {
                assert(times@.take(i as int + 1).drop_last() =~= times@.take(i as int));
                assert(times@.take(i as int + 1).last() == times@[i as int]);
                assert((i + 1) * i64::MAX == i * i64::MAX + i64::MAX) by (nonlinear_arith);
                assert((i + 1) * i64::MIN == i * i64::MIN + i64::MIN) by (nonlinear_arith);
                assert((i + 1) * i64::MAX <= 0x1_0000_0000_0000_0000 * 0x7fff_ffff_ffff_ffff)
                    by (nonlinear_arith)
                    requires
                        i + 1 <= 0x1_0000_0000_0000_0000,
                ;
                assert((i + 1) * i64::MIN >= 0x1_0000_0000_0000_0000 * (-0x8000_0000_0000_0000))
                    by (nonlinear_arith)
                    requires
                        i + 1 <= 0x1_0000_0000_0000_0000,
                ;
                sum = sum + times[i] as i128;
                i += 1;
            }
            assert(times@.take(i as int) =~= times@);
            sum
        },
        ScoreboardTiebreaker::MaxScoreTime => {
            if times.len() == 0 {
                return 0;
            }
            let mut max: i64 = times[0];
            let mut i: usize = 1;
            assert(times@.take(1) =~= seq![times@[0]]);
            while i < times.len()
                invariant
                    1 <= i <= times@.len(),
                    max == time_max(times@.take(i as int)),
                decreases times@.len() - i,
            {
                assert(times@.take(i as int + 1).drop_last() =~= times@.take(i as int));
                assert(times@.take(i as int + 1).last() == times@[i as int]);
                if times[i] > max {
                    max = times[i];
                }
                i += 1;
            }
            assert(times@.take(i as int) =~= times@);
            max as i128
        },
    }
}

/// A contestant on the scoreboard, as the order sees it.
pub struct BoardKey {
    pub score: int,
    pub time: int,
    pub username: Seq<char>,
}

/// Whether times decide between equal scores.
pub open spec fn timed(tiebreaker: ScoreboardTiebreaker) -> bool {
    !(tiebreaker is EqualRank)
}

/// Higher scores come first; of equal scores the earlier time, where times
/// count; of equal ones the name.
pub open spec fn stands_before(a: BoardKey, b: BoardKey, tiebreaker: ScoreboardTiebreaker) -> bool {
    ||| a.score > b.score
    ||| a.score == b.score && timed(tiebreaker) && a.time < b.time
    ||| a.score == b.score && (timed(tiebreaker) ==> a.time == b.time) && text::text_before(
        a.username,
        b.username,
    )
}

pub fn compare_scoreboard_entries(
    a_score: i128,
    a_time: i128,
    a_username: &str,
    b_score: i128,
    b_time: i128,
    b_username: &str,
    tiebreaker: ScoreboardTiebreaker,
) -> (r: Ordering)
    ensures
        ({
            let a = board_key(a_score, a_time, a_username);
            let b = board_key(b_score, b_time, b_username);
            r == (if stands_before(a, b, tiebreaker) {
                Ordering::Less
            } else if stands_before(b, a, tiebreaker) {
                Ordering::Greater
            } else {
                Ordering::Equal
            })
        }),
{
    proof {
        crate::text::text_order_is_total(a_username@, b_username@);
    }
    if a_score > b_score {
        return Ordering::Less;
    }
    if a_score < b_score {
        return Ordering::Greater;
    }
    if tiebreaker != ScoreboardTiebreaker::EqualRank {
        if a_time < b_time {
            return Ordering::Less;
        }
        if a_time > b_time {
            return Ordering::Greater;
        }
    }
    if text_less(a_username, b_username) {
        Ordering::Less
    } else if text_less(b_username, a_username) {
        Ordering::Greater
    } else {
        Ordering::Equal
    }
}

pub open spec fn board_key(score: i128, time: i128, username: &str) -> BoardKey {
    BoardKey { score: score as int, time: time as int, username: username@ }
}

/// Contestants share a rank where neither score nor counting time tells them
/// apart.
pub open spec fn tied(a: BoardKey, b: BoardKey, tiebreaker: ScoreboardTiebreaker) -> bool {
    a.score == b.score && (timed(tiebreaker) ==> a.time == b.time)
}

pub fn scoreboard_entries_tied(
    a_score: i128,
    a_time: i128,
    b_score: i128,
    b_time: i128,
    tiebreaker: ScoreboardTiebreaker,
) -> (r: bool)
    ensures
        r == (a_score == b_score && (timed(tiebreaker) ==> a_time == b_time)),
{
    a_score == b_score && (tiebreaker == ScoreboardTiebreaker::EqualRank || a_time == b_time)
}

/// The order of the scoreboard: never both ways, and one way unless the two
/// are tied and bear the same name.
pub proof fn board_order_is_total(a: BoardKey, b: BoardKey, tiebreaker: ScoreboardTiebreaker)
    ensures
        !(stands_before(a, b, tiebreaker) && stands_before(b, a, tiebreaker)),
        stands_before(a, b, tiebreaker) || stands_before(b, a, tiebreaker) || (tied(
            a,
            b,
            tiebreaker,
        ) && a.username == b.username),
{
    crate::text::text_order_is_total(a.username, b.username);
}

/// The order of the scoreboard is transitive.
pub proof fn board_order_is_transitive(
    a: BoardKey,
    b: BoardKey,
    c: BoardKey,
    tiebreaker: ScoreboardTiebreaker,
)
    requires
        stands_before(a, b, tiebreaker),
        stands_before(b, c, tiebreaker),
    ensures
        stands_before(a, c, tiebreaker),
{
    if text::text_before(a.username, b.username) && text::text_before(b.username, c.username) {
        crate::text::text_order_is_transitive(a.username, b.username, c.username);
    }
}

/// Whoever stands before two tied contestants with another score or time
/// stands before both.
pub proof fn ties_rank_alike(
    a: BoardKey,
    b: BoardKey,
    c: BoardKey,
    tiebreaker: ScoreboardTiebreaker,
)
    requires
        tied(b, c, tiebreaker),
        !tied(a, b, tiebreaker),
    ensures
        stands_before(a, b, tiebreaker) == stands_before(a, c, tiebreaker),
{
}

// ---------------------------------------------------------------------------
// Cells
// ---------------------------------------------------------------------------

/// A contestant's score on a problem, and the time at which it was reached.
#[derive(Debug, Clone, Copy, PartialEq, Eq, Structural)]
pub struct ScoreboardCell {
    pub score: i128,
    pub score_time_seconds: i64,
}

#[derive(Debug, Clone, Copy, PartialEq, Eq, Structural)]
pub struct MaxSubmissionScoreboardRow {
    pub user_id: i32,
    pub problem_id: i32,
    pub score: i64,
    pub score_time_seconds: i64,
}

#[derive(Debug, Clone, Copy, PartialEq, Eq, Structural)]
pub struct ScoreboardSubmissionRow {
    pub user_id: i32,
    pub problem_id: i32,
    pub score: i64,
    pub elapsed_seconds: i64,
}

/// The cells of these rows. A later row of a cell takes the earlier one's
/// place.
pub open spec fn max_cells(rows: Seq<MaxSubmissionScoreboardRow>) -> Map<
    (i32, i32),
    ScoreboardCell,
>
    decreases rows.len(),
{
    if rows.len() == 0 {
        Map::empty()
    } else {
        max_cells(rows.drop_last()).insert(
            (rows.last().user_id, rows.last().problem_id),
            ScoreboardCell {
                score: rows.last().score as i128,
                score_time_seconds: rows.last().score_time_seconds,
            },
        )
    }
}

pub fn max_submission_cells(rows: &Vec<MaxSubmissionScoreboardRow>) -> (r: PairMap<ScoreboardCell>)
    ensures
        r@ == max_cells(rows@),
{
    let mut cells: PairMap<ScoreboardCell> = PairMap::new();
    let mut i: usize = 0;
    assert(rows@.take(0) =~= Seq::<MaxSubmissionScoreboardRow>::empty());
    while i < rows.len()
        invariant
            i <= rows@.len(),
            cells@ == max_cells(rows@.take(i as int)),
        decreases rows@.len() - i,
    {
        assert(rows@.take(i as int + 1).drop_last() =~= rows@.take(i as int));
        assert(rows@.take(i as int + 1).last() == rows@[i as int]);
        let row = rows[i];
        cells.insert(
            (row.user_id, row.problem_id),
            ScoreboardCell {
                score: row.score as i128,
                score_time_seconds: row.score_time_seconds,
            },
        );
        i += 1;
    }
    assert(rows@.take(i as int) =~= rows@);
    cells
}

/// The rows of one cell, in order.
pub open spec fn cell_rows(
    rows: Seq<ScoreboardSubmissionRow>,
    user_id: i32,
    problem_id: i32,
) -> Seq<ScoreboardSubmissionRow>
    decreases rows.len(),
{
    if rows.len() == 0 {
        seq![]
    } else {
        let rest = cell_rows(rows.drop_last(), user_id, problem_id);
        if rows.last().user_id == user_id && rows.last().problem_id == problem_id {
            rest.push(rows.last())
        } else {
            rest
        }
    }
}

fn rows_of_cell(
    rows: &Vec<ScoreboardSubmissionRow>,
    user_id: i32,
    problem_id: i32,
) -> (r: Vec<ScoreboardSubmissionRow>)
    ensures
        r@ == cell_rows(rows@, user_id, problem_id),
{
    let mut out: Vec<ScoreboardSubmissionRow> = Vec::new();
    let mut i: usize = 0;
    assert(rows@.take(0) =~= Seq::<ScoreboardSubmissionRow>::empty());
    while i < rows.len()
        invariant
            i <= rows@.len(),
            out@ == cell_rows(rows@.take(i as int), user_id, problem_id),
        decreases rows@.len() - i,
    {
        assert(rows@.take(i as int + 1).drop_last() =~= rows@.take(i as int));
        assert(rows@.take(i as int + 1).last() == rows@[i as int]);
        if rows[i].user_id == user_id && rows[i].problem_id == problem_id {
            out.push(rows[i]);
        }
        i += 1;
    }
    assert(rows@.take(i as int) =~= rows@);
    out
}

/// The best score of some rows; zero where there are none.
pub open spec fn best_row(rows: Seq<ScoreboardSubmissionRow>) -> int
    decreases rows.len(),
{
    if rows.len() == 0 {
        0
    } else if rows.len() == 1 {
        rows[0].score as int
    } else {
        scoring::max_of(best_row(rows.drop_last()), rows.last().score as int)
    }
}

/// The earliest time of the rows that reach a score.
pub open spec fn reached_at(rows: Seq<ScoreboardSubmissionRow>, score: int) -> Option<i64>
    decreases rows.len(),
{
    if rows.len() == 0 {
        None
    } else {
        let rest = reached_at(rows.drop_last(), score);
        if rows.last().score >= score {
            match rest {
                Some(t) => if t <= rows.last().elapsed_seconds {
                    rest
                } else {
                    Some(rows.last().elapsed_seconds)
                },
                None => Some(rows.last().elapsed_seconds),
            }
        } else {
            rest
        }
    }
}

/// The cell of a contestant who counts the best submission with a token, or
/// the last one: the better of the two, and when it was first reached.
pub open spec fn tokened_cell(
    last: Seq<ScoreboardSubmissionRow>,
    tokened: Seq<ScoreboardSubmissionRow>,
) -> ScoreboardCell {
    let last_row = if last.len() == 0 {
        seq![]
    } else {
        seq![last.last()]
    };
    let score = scoring::max_of(best_row(tokened), best_row(last_row));
    ScoreboardCell {
        score: score as i128,
        score_time_seconds: if score > 0 {
            match reached_at(tokened + last_row, score) {
                Some(t) => t,
                None => 0i64,
            }
        } else {
            0i64
        },
    }
}

fn find_best(rows: &Vec<ScoreboardSubmissionRow>) -> (r: i64)
    ensures
        r == best_row(rows@),
{
    if rows.len() == 0 {
        return 0;
    }
    let mut best: i64 = rows[0].score;
    let mut i: usize = 1;
    assert(rows@.take(1) =~= seq![rows@[0]]);
    while i < rows.len()
        invariant
            1 <= i <= rows@.len(),
            best == best_row(rows@.take(i as int)),
        decreases rows@.len() - i,
    {
        assert(rows@.take(i as int + 1).drop_last() =~= rows@.take(i as int));
        assert(rows@.take(i as int + 1).last() == rows@[i as int]);
        if rows[i].score > best {
            best = rows[i].score;
        }
        i += 1;
    }
    assert(rows@.take(i as int) =~= rows@);
    best
}

fn find_reached(rows: &Vec<ScoreboardSubmissionRow>, score: i64) -> (r: Option<i64>)
    ensures
        r == reached_at(rows@, score as int),
{
    let mut at: Option<i64> = None;
    let mut i: usize = 0;
    assert(rows@.take(0) =~= Seq::<ScoreboardSubmissionRow>::empty());
    while i < rows.len()
        invariant
            i <= rows@.len(),
            at == reached_at(rows@.take(i as int), score as int),
        decreases rows@.len() - i,
    {
        assert(rows@.take(i as int + 1).drop_last() =~= rows@.take(i as int));
        assert(rows@.take(i as int + 1).last() == rows@[i as int]);
        if rows[i].score >= score {
            let t: i64 = rows[i].elapsed_seconds;
            at = match at {
                Some(u) => if u <= t {
                    Some(u)
                } else {
                    Some(t)
                },
                None => Some(t),
            };
        }
        i += 1;
    }
    assert(rows@.take(i as int) =~= rows@);
    at
}

/// The cell of one contestant and problem.
pub fn best_tokened_or_last_cell(
    last: &Vec<ScoreboardSubmissionRow>,
    tokened: &Vec<ScoreboardSubmissionRow>,
    user_id: i32,
    problem_id: i32,
) -> (r: ScoreboardCell)
    ensures
        r == tokened_cell(
            cell_rows(last@, user_id, problem_id),
            cell_rows(tokened@, user_id, problem_id),
        ),
{
    let of_last = rows_of_cell(last, user_id, problem_id);
    let mut all = rows_of_cell(tokened, user_id, problem_id);
    let ghost with_token = all@;
    let tokened_best: i64 = find_best(&all);
    let mut last_row: Vec<ScoreboardSubmissionRow> = Vec::new();
    if of_last.len() > 0 {
        last_row.push(of_last[of_last.len() - 1]);
        all.push(of_last[of_last.len() - 1]);
        assert(last_row@ =~= seq![of_last@.last()]);
        assert(all@ =~= with_token + seq![of_last@.last()]);
    } else {
        assert(last_row@ =~= Seq::<ScoreboardSubmissionRow>::empty());
        assert(all@ =~= with_token + Seq::<ScoreboardSubmissionRow>::empty());
    }
    let last_score: i64 = find_best(&last_row);
    let score: i64 = score_best_tokened_or_last(tokened_best, last_score);
    let score_time_seconds: i64 = if score > 0 {
        match find_reached(&all, score) {
            Some(t) => t,
            None => 0,
        }
    } else {
        0
    };
    ScoreboardCell { score: score as i128, score_time_seconds }
}

/// The cells of all contestants and problems.
pub fn best_tokened_or_last_cells(
    user_ids: &Vec<i32>,
    problem_ids: &Vec<i32>,
    last: &Vec<ScoreboardSubmissionRow>,
    tokened: &Vec<ScoreboardSubmissionRow>,
) -> (r: PairMap<ScoreboardCell>)
    ensures
        forall|u: i32, p: i32| #[trigger]
            r@.contains_key((u, p)) <==> user_ids@.contains(u) && problem_ids@.contains(p),
        forall|u: i32, p: i32| #[trigger]
            r@.contains_key((u, p)) ==> r@[(u, p)] == tokened_cell(
                cell_rows(last@, u, p),
                cell_rows(tokened@, u, p),
            ),
{
    let mut cells: PairMap<ScoreboardCell> = PairMap::new();
    let mut i: usize = 0;
    while i < user_ids.len()
        invariant
            i <= user_ids@.len(),
            forall|u: i32, p: i32| #[trigger]
                cells@.contains_key((u, p)) <==> user_ids@.take(i as int).contains(u)
                    && problem_ids@.contains(p),
            forall|u: i32, p: i32| #[trigger]
                cells@.contains_key((u, p)) ==> cells@[(u, p)] == tokened_cell(
                    cell_rows(last@, u, p),
                    cell_rows(tokened@, u, p),
                ),
        decreases user_ids@.len() - i,
    {
        let user_id: i32 = user_ids[i];
        let ghost start = cells@;
        let mut k: usize = 0;
        while k < problem_ids.len()
            invariant
                i < user_ids@.len(),
                user_id == user_ids@[i as int],
                k <= problem_ids@.len(),
                forall|u: i32, p: i32| #[trigger]
                    cells@.contains_key((u, p)) <==> start.contains_key((u, p)) || (u == user_id
                        && problem_ids@.take(k as int).contains(p)),
                forall|u: i32, p: i32| #[trigger]
                    cells@.contains_key((u, p)) ==> cells@[(u, p)] == tokened_cell(
                        cell_rows(last@, u, p),
                        cell_rows(tokened@, u, p),
                    ),
            decreases problem_ids@.len() - k,
        {
            let problem_id: i32 = problem_ids[k];
            let cell = best_tokened_or_last_cell(last, tokened, user_id, problem_id);
            let ghost before = cells@;
            cells.insert((user_id, problem_id), cell);
            proof {
                assert forall|u: i32, p: i32| #[trigger] cells@.contains_key((u, p)) <==> (
                start.contains_key((u, p)) || (u == user_id && problem_ids@.take(
                    k as int + 1,
                ).contains(p))) by {
                    lemma_take_contains(problem_ids@, k as int, p);
                    assert(before.contains_key((u, p)) <==> start.contains_key((u, p)) || (u
                        == user_id && problem_ids@.take(k as int).contains(p)));
                }
                assert forall|u: i32, p: i32| #[trigger]
                    cells@.contains_key((u, p)) implies cells@[(u, p)] == tokened_cell(
                    cell_rows(last@, u, p),
                    cell_rows(tokened@, u, p),
                ) by {
                    if !(u == user_id && p == problem_id) {
                        assert(before.contains_key((u, p)));
                    }
                }
            }
            k += 1;
        }
        proof {
            assert(problem_ids@.take(k as int) =~= problem_ids@);
            assert forall|u: i32, p: i32| #[trigger] cells@.contains_key((u, p)) <==> (
            user_ids@.take(i as int + 1).contains(u) && problem_ids@.contains(p)) by {
                lemma_take_contains(user_ids@, i as int, u);
                assert(start.contains_key((u, p)) <==> user_ids@.take(i as int).contains(u)
                    && problem_ids@.contains(p));
            }
        }
        i += 1;
    }
    assert(user_ids@.take(i as int) =~= user_ids@);
    cells
}

proof fn lemma_take_contains(s: Seq<i32>, k: int, x: i32)
    requires
        0 <= k < s.len(),
    ensures
        s.take(k + 1).contains(x) <==> s.take(k).contains(x) || s[k] == x,
{
    if s.take(k).contains(x) {
        let j = choose|j: int| 0 <= j < k && s.take(k)[j] == x;
        assert(s.take(k + 1)[j] == x);
    }
    assert(s.take(k + 1)[k] == s[k]);
    if s.take(k + 1).contains(x) && s[k] != x {
        let t = s.take(k + 1);
        let j = choose|j: int| 0 <= j < t.len() && t[j] == x;
        assert(s.take(k)[j] == x);
    }
}

// ---------------------------------------------------------------------------
// Cells that add up the best subtasks
// ---------------------------------------------------------------------------

/// The earliest of the first `n` submissions with this score on a subtask.
pub open spec fn first_with(
    elapsed: Seq<i64>,
    table: Seq<Vec<i64>>,
    subtask: int,
    score: int,
    n: int,
) -> Option<i64>
    decreases n,
{
    if n <= 0 {
        None
    } else {
        let rest = first_with(elapsed, table, subtask, score, n - 1);
        if 0 <= subtask < table[n - 1]@.len() && table[n - 1]@[subtask] == score {
            match rest {
                Some(t) => if t <= elapsed[n - 1] {
                    rest
                } else {
                    Some(elapsed[n - 1])
                },
                None => Some(elapsed[n - 1]),
            }
        } else {
            rest
        }
    }
}

/// When the best score of a subtask was first reached; never for no points.
pub open spec fn subtask_time(elapsed: Seq<i64>, table: Seq<Vec<i64>>, subtask: int) -> Option<
    i64,
> {
    if scoring::best_at(table, subtask) > 0 {
        first_with(elapsed, table, subtask, scoring::best_at(table, subtask), table.len() as int)
    } else {
        None
    }
}

/// The last of the times at which the first `n` subtasks reached their best.
pub open spec fn completed_at(elapsed: Seq<i64>, table: Seq<Vec<i64>>, n: nat) -> Option<i64>
    decreases n,
{
    if n == 0 {
        None
    } else {
        let rest = completed_at(elapsed, table, (n - 1) as nat);
        match (rest, subtask_time(elapsed, table, n - 1)) {
            (Some(a), Some(b)) => if a >= b {
                Some(a)
            } else {
                Some(b)
            },
            (None, b) => b,
            (a, None) => a,
        }
    }
}

/// The cell of a contestant with these submissions: the best of each subtask
/// together, and when the last of them was reached.
pub open spec fn sum_best_cell(elapsed: Seq<i64>, table: Seq<Vec<i64>>) -> ScoreboardCell {
    let score = scoring::best_sum(table);
    ScoreboardCell {
        score: score as i128,
        score_time_seconds: if score > 0 {
            match completed_at(elapsed, table, scoring::widest(table)) {
                Some(t) => t,
                None => 0i64,
            }
        } else {
            0i64
        },
    }
}

fn find_subtask_time(elapsed: &Vec<i64>, table: &Vec<Vec<i64>>, subtask: usize) -> (r: Option<i64>)
    requires
        elapsed@.len() == table@.len(),
    ensures
        r == subtask_time(elapsed@, table@, subtask as int),
{
    let best: i64 = best_score_at(table, subtask);
    if best <= 0 {
        return None;
    }
    let mut at: Option<i64> = None;
    let mut n: usize = 0;
    while n < table.len()
        invariant
            n <= table@.len() == elapsed@.len(),
            at == first_with(elapsed@, table@, subtask as int, best as int, n as int),
        decreases table@.len() - n,
    {
        if subtask < table[n].len() && table[n][subtask] == best {
            let t: i64 = elapsed[n];
            at = match at {
                Some(u) => if u <= t {
                    Some(u)
                } else {
                    Some(t)
                },
                None => Some(t),
            };
        }
        n += 1;
    }
    at
}

fn find_width(table: &Vec<Vec<i64>>) -> (r: usize)
    ensures
        r == scoring::widest(table@),
{
    let mut width: usize = 0;
    let mut i: usize = 0;
    assert(table@.take(0) =~= Seq::<Vec<i64>>::empty());
    while i < table.len()
        invariant
            i <= table@.len(),
            width == scoring::widest(table@.take(i as int)),
        decreases table@.len() - i,
    {
        assert(table@.take(i as int + 1).drop_last() =~= table@.take(i as int));
        assert(table@.take(i as int + 1).last() == table@[i as int]);
        if table[i].len() > width {
            width = table[i].len();
        }
        i += 1;
    }
    assert(table@.take(i as int) =~= table@);
    width
}

/// The cell of a contestant whose submissions were made at these times and
/// scored these subtasks.
pub fn sum_best_subtask_cell(elapsed: &Vec<i64>, table: &Vec<Vec<i64>>) -> (r: ScoreboardCell)
    requires
        elapsed@.len() == table@.len(),
    ensures
        r == sum_best_cell(elapsed@, table@),
{
    let score: i128 = score_sum_best_subtask(table);
    let width: usize = find_width(table);
    let mut at: Option<i64> = None;
    let mut k: usize = 0;
    while k < width
        invariant
            k <= width,
            elapsed@.len() == table@.len(),
            at == completed_at(elapsed@, table@, k as nat),
        decreases width - k,
    {
        let here = find_subtask_time(elapsed, table, k);
        at = match (at, here) {
            (Some(a), Some(b)) => if a >= b {
                Some(a)
            } else {
                Some(b)
            },
            (None, b) => b,
            (a, None) => a,
        };
        k += 1;
    }
    ScoreboardCell {
        score,
        score_time_seconds: if score > 0 {
            match at {
                Some(t) => t,
                None => 0,
            }
        } else {
            0
        },
    }
}

/// A task with its cases and subtasks.
pub struct TaskSetup<S> {
    pub problem_id: i32,
    pub test_cases: Vec<TestCaseRow<S>>,
    pub subtask_defs: Vec<SubtaskDef<S>>,
}

/// The task of a problem: the last one of its id.
pub open spec fn task_at<S>(tasks: Seq<TaskSetup<S>>, problem_id: i32) -> Option<TaskSetup<S>>
    decreases tasks.len(),
{
    if tasks.len() == 0 {
        None
    } else if tasks.last().problem_id == problem_id {
        Some(tasks.last())
    } else {
        task_at(tasks.drop_last(), problem_id)
    }
}

fn find_task<S>(tasks: &Vec<TaskSetup<S>>, problem_id: i32) -> (r: Option<usize>)
    ensures
        match r {
            Some(i) => i < tasks@.len() && task_at(tasks@, problem_id) == Some(tasks@[i as int]),
            None => task_at(tasks@, problem_id) is None,
        },
{
    let mut n: usize = tasks.len();
    assert(tasks@.take(n as int) =~= tasks@);
    while n > 0
        invariant
            n <= tasks@.len(),
            task_at(tasks@.take(n as int), problem_id) == task_at(tasks@, problem_id),
        decreases n,
    {
        assert(tasks@.take(n as int).last() == tasks@[n as int - 1]);
        if tasks[n - 1].problem_id == problem_id {
            return Some(n - 1);
        }
        assert(tasks@.take(n as int).drop_last() =~= tasks@.take(n as int - 1));
        n -= 1;
    }
    None
}

/// A stored result of one case of a submission.
#[derive(Debug, Clone, Copy, PartialEq, Eq)]
pub struct ScoreboardTcScoreRow<S> {
    pub user_id: i32,
    pub problem_id: i32,
    pub submission_id: i32,
    pub test_case_id: i32,
    pub score: S,
    pub verdict: Verdict,
    pub elapsed_seconds: i64,
}

/// The case that a stored result is of.
pub open spec fn case_of_row<S>(
    row: ScoreboardTcScoreRow<S>,
    tasks: Seq<TaskSetup<S>>,
) -> Option<TestCaseRow<S>> {
    match task_at(tasks, row.problem_id) {
        Some(task) => judging::case_at(task.test_cases@, row.test_case_id),
        None => None,
    }
}

/// The results of known cases, in order.
pub open spec fn known_rows<S>(
    rows: Seq<ScoreboardTcScoreRow<S>>,
    tasks: Seq<TaskSetup<S>>,
) -> Seq<ScoreboardTcScoreRow<S>>
    decreases rows.len(),
{
    if rows.len() == 0 {
        seq![]
    } else {
        let rest = known_rows(rows.drop_last(), tasks);
        if case_of_row(rows.last(), tasks) is Some {
            rest.push(rows.last())
        } else {
            rest
        }
    }
}

/// The raw score of a stored result.
pub open spec fn rated_as<S, G: Fn(S, S) -> Raw<S>>(
    r: RatedRow<S>,
    row: ScoreboardTcScoreRow<S>,
    tasks: Seq<TaskSetup<S>>,
    units: Units<S>,
    ratio: G,
) -> bool {
    &&& r.key() == (row.user_id, row.problem_id, row.submission_id)
    &&& r.elapsed_seconds == row.elapsed_seconds
    &&& case_of_row(row, tasks) matches Some(tc) && r.label@ == config::label_of(tc)
        && score::normalized(
        r.raw,
        row.verdict,
        row.score,
        tc.score,
        units,
        ratio,
    )
}

/// The raw scores of the stored results. Those of unknown cases do not count.
pub fn rate_board_rows<S: Copy, G: Fn(S, S) -> Raw<S>>(
    rows: &Vec<ScoreboardTcScoreRow<S>>,
    tasks: &Vec<TaskSetup<S>>,
    units: Units<S>,
    ratio: &G,
) -> (r: Vec<RatedRow<S>>)
    requires
        forall|a: S, b: S| #[trigger] call_requires(*ratio, (a, b)),
    ensures
        r@.len() == known_rows(rows@, tasks@).len(),
        forall|i: int|
            0 <= i < r@.len() ==> rated_as(
                #[trigger] r@[i],
                known_rows(rows@, tasks@)[i],
                tasks@,
                units,
                *ratio,
            ),
{
    let mut out: Vec<RatedRow<S>> = Vec::new();
    let mut i: usize = 0;
    assert(rows@.take(0) =~= Seq::<ScoreboardTcScoreRow<S>>::empty());
    while i < rows.len()
        invariant
            i <= rows@.len(),
            forall|a: S, b: S| #[trigger] call_requires(*ratio, (a, b)),
            out@.len() == known_rows(rows@.take(i as int), tasks@).len(),
            forall|k: int|
                0 <= k < out@.len() ==> rated_as(
                    #[trigger] out@[k],
                    known_rows(rows@.take(i as int), tasks@)[k],
                    tasks@,
                    units,
                    *ratio,
                ),
        decreases rows@.len() - i,
    {
        let ghost before = out@;
        let ghost known = known_rows(rows@.take(i as int), tasks@);
        let row = rows[i];
        proof {
            assert(rows@.take(i as int + 1).drop_last() =~= rows@.take(i as int));
            assert(rows@.take(i as int + 1).last() == row);
        }
        match find_task(tasks, row.problem_id) {
            Some(t) => {
                match find_case(&tasks[t].test_cases, row.test_case_id) {
                    Some(c) => {
                        let tc = &tasks[t].test_cases[c];
                        let raw = normalized_raw_score(
                            row.verdict,
                            row.score,
                            tc.score,
                            units,
                            ratio,
                        );
                        let rated = RatedRow {
                            user_id: row.user_id,
                            problem_id: row.problem_id,
                            submission_id: row.submission_id,
                            elapsed_seconds: row.elapsed_seconds,
                            label: resolve_tc_label(tc),
                            raw,
                        };
                        assert(rated_as(rated, row, tasks@, units, *ratio));
                        out.push(rated);
                    },
                    None => {},
                }
            },
            None => {},
        }
        proof {
            let now = known_rows(rows@.take(i as int + 1), tasks@);
            assert forall|k: int| 0 <= k < out@.len() implies rated_as(
                #[trigger] out@[k],
                now[k],
                tasks@,
                units,
                *ratio,
            ) by {
                if k < before.len() {
                    assert(out@[k] == before[k]);
                    assert(now[k] == known[k]);
                }
            }
        }
        i += 1;
    }
    assert(rows@.take(i as int) =~= rows@);
    out
}

/// The submissions of one cell, in order.
pub open spec fn cell_groups<S>(
    groups: Seq<SubmissionScores<S>>,
    user_id: i32,
    problem_id: i32,
) -> Seq<SubmissionScores<S>>
    decreases groups.len(),
{
    if groups.len() == 0 {
        seq![]
    } else {
        let rest = cell_groups(groups.drop_last(), user_id, problem_id);
        if groups.last().user_id == user_id && groups.last().problem_id == problem_id {
            rest.push(groups.last())
        } else {
            rest
        }
    }
}

pub open spec fn times_of<S>(groups: Seq<SubmissionScores<S>>) -> Seq<i64> {
    groups.map_values(|g: SubmissionScores<S>| g.elapsed_seconds)
}

/// The cell of one contestant and problem.
pub open spec fn cell_is<S, F: Fn(SubtaskPoints<S>) -> i64>(
    cell: ScoreboardCell,
    task: TaskSetup<S>,
    groups: Seq<SubmissionScores<S>>,
    units: Units<S>,
    points: F,
) -> bool {
    exists|table: Seq<Vec<i64>>| #[trigger]
        scored_table(table, task, groups, units, points) && cell == sum_best_cell(
            times_of(groups),
            table,
        )
}

/// The subtask scores of submissions to a task.
pub open spec fn scored_table<S, F: Fn(SubtaskPoints<S>) -> i64>(
    table: Seq<Vec<i64>>,
    task: TaskSetup<S>,
    groups: Seq<SubmissionScores<S>>,
    units: Units<S>,
    points: F,
) -> bool {
    &&& table.len() == groups.len()
    &&& forall|i: int|
        0 <= i < table.len() ==> subtasks::all_scored_as(
            (#[trigger] table[i])@,
            task.subtask_defs@,
            task.test_cases@,
            groups[i].scores@,
            units,
            points,
        )
}

/// The cell of one contestant and problem, from all submissions.
pub fn sum_best_cell_of<S: Copy, F: Fn(SubtaskPoints<S>) -> i64>(
    task: &TaskSetup<S>,
    groups: &Vec<SubmissionScores<S>>,
    user_id: i32,
    problem_id: i32,
    units: Units<S>,
    points: &F,
) -> (r: ScoreboardCell)
    requires
        forall|p: SubtaskPoints<S>| #[trigger] call_requires(*points, (p,)),
    ensures
        cell_is(r, *task, cell_groups(groups@, user_id, problem_id), units, *points),
{
    let mut elapsed: Vec<i64> = Vec::new();
    let mut table: Vec<Vec<i64>> = Vec::new();
    let mut i: usize = 0;
    assert(groups@.take(0) =~= Seq::<SubmissionScores<S>>::empty());
    assert(elapsed@ =~= times_of(cell_groups(groups@.take(0), user_id, problem_id)));
    while i < groups.len()
        invariant
            i <= groups@.len(),
            forall|p: SubtaskPoints<S>| #[trigger] call_requires(*points, (p,)),
            elapsed@ == times_of(cell_groups(groups@.take(i as int), user_id, problem_id)),
            scored_table(
                table@,
                *task,
                cell_groups(groups@.take(i as int), user_id, problem_id),
                units,
                *points,
            ),
        decreases groups@.len() - i,
    {
        let ghost part = cell_groups(groups@.take(i as int), user_id, problem_id);
        let ghost table0 = table@;
        proof {
            assert(groups@.take(i as int + 1).drop_last() =~= groups@.take(i as int));
            assert(groups@.take(i as int + 1).last() == groups@[i as int]);
        }
        if groups[i].user_id == user_id && groups[i].problem_id == problem_id {
            let row = subtask_row(
                &task.subtask_defs,
                &task.test_cases,
                &groups[i].scores,
                units,
                points,
            );
            elapsed.push(groups[i].elapsed_seconds);
            table.push(row);
            proof {
                let now = part.push(groups@[i as int]);
                assert(elapsed@ =~= times_of(now));
                assert forall|k: int| 0 <= k < table@.len() implies subtasks::all_scored_as(
                    (#[trigger] table@[k])@,
                    task.subtask_defs@,
                    task.test_cases@,
                    now[k].scores@,
                    units,
                    *points,
                ) by {
                    if k < table0.len() {
                        assert(table@[k] == table0[k]);
                        assert(now[k] == part[k]);
                    }
                }
            }
        }
        i += 1;
    }
    assert(groups@.take(i as int) =~= groups@);
    let cell = sum_best_subtask_cell(&elapsed, &table);
    assert(scored_table(
        table@,
        *task,
        cell_groups(groups@, user_id, problem_id),
        units,
        *points,
    ));
    cell
}

/// The cells of all contestants and of all problems with a known task.
pub fn sum_best_subtask_cells<S: Copy, F: Fn(SubtaskPoints<S>) -> i64>(
    user_ids: &Vec<i32>,
    problem_ids: &Vec<i32>,
    tasks: &Vec<TaskSetup<S>>,
    groups: &Vec<SubmissionScores<S>>,
    units: Units<S>,
    points: &F,
) -> (r: PairMap<ScoreboardCell>)
    requires
        forall|p: SubtaskPoints<S>| #[trigger] call_requires(*points, (p,)),
    ensures
        forall|u: i32, p: i32| #[trigger]
            r@.contains_key((u, p)) <==> user_ids@.contains(u) && problem_ids@.contains(p)
                && task_at(tasks@, p) is Some,
        forall|u: i32, p: i32| #[trigger]
            r@.contains_key((u, p)) ==> cell_is(
                r@[(u, p)],
                task_at(tasks@, p)->0,
                cell_groups(groups@, u, p),
                units,
                *points,
            ),
{
    let mut cells: PairMap<ScoreboardCell> = PairMap::new();
    let mut i: usize = 0;
    while i < user_ids.len()
        invariant
            i <= user_ids@.len(),
            forall|p: SubtaskPoints<S>| #[trigger] call_requires(*points, (p,)),
            forall|u: i32, p: i32| #[trigger]
                cells@.contains_key((u, p)) <==> user_ids@.take(i as int).contains(u)
                    && problem_ids@.contains(p) && task_at(tasks@, p) is Some,
            forall|u: i32, p: i32| #[trigger]
                cells@.contains_key((u, p)) ==> cell_is(
                    cells@[(u, p)],
                    task_at(tasks@, p)->0,
                    cell_groups(groups@, u, p),
                    units,
                    *points,
                ),
        decreases user_ids@.len() - i,
    {
        let user_id: i32 = user_ids[i];
        let ghost start = cells@;
        let mut k: usize = 0;
        while k < problem_ids.len()
            invariant
                i < user_ids@.len(),
                user_id == user_ids@[i as int],
                k <= problem_ids@.len(),
                forall|p: SubtaskPoints<S>| #[trigger] call_requires(*points, (p,)),
                forall|u: i32, p: i32| #[trigger]
                    cells@.contains_key((u, p)) <==> start.contains_key((u, p)) || (u == user_id
                        && problem_ids@.take(k as int).contains(p) && task_at(tasks@, p) is Some),
                forall|u: i32, p: i32| #[trigger]
                    cells@.contains_key((u, p)) ==> cell_is(
                        cells@[(u, p)],
                        task_at(tasks@, p)->0,
                        cell_groups(groups@, u, p),
                        units,
                        *points,
                    ),
            decreases problem_ids@.len() - k,
        {
            let problem_id: i32 = problem_ids[k];
            let ghost before = cells@;
            match find_task(tasks, problem_id) {
                Some(t) => {
                    let cell = sum_best_cell_of(
                        &tasks[t],
                        groups,
                        user_id,
                        problem_id,
                        units,
                        points,
                    );
                    cells.insert((user_id, problem_id), cell);
                },
                None => {},
            }
            proof {
                assert forall|u: i32, p: i32| #[trigger] cells@.contains_key((u, p)) <==> (
                start.contains_key((u, p)) || (u == user_id && problem_ids@.take(
                    k as int + 1,
                ).contains(p) && task_at(tasks@, p) is Some)) by {
                    lemma_take_contains(problem_ids@, k as int, p);
                    assert(before.contains_key((u, p)) <==> start.contains_key((u, p)) || (u
                        == user_id && problem_ids@.take(k as int).contains(p) && task_at(
                        tasks@,
                        p,
                    ) is Some));
                }
                assert forall|u: i32, p: i32| #[trigger]
                    cells@.contains_key((u, p)) implies cell_is(
                    cells@[(u, p)],
                    task_at(tasks@, p)->0,
                    cell_groups(groups@, u, p),
                    units,
                    *points,
                ) by {
                    if !(u == user_id && p == problem_id) {
                        assert(before.contains_key((u, p)));
                    }
                }
            }
            k += 1;
        }
        proof {
            assert(problem_ids@.take(k as int) =~= problem_ids@);
            assert forall|u: i32, p: i32| #[trigger] cells@.contains_key((u, p)) <==> (
            user_ids@.take(i as int + 1).contains(u) && problem_ids@.contains(p) && task_at(
                tasks@,
                p,
            ) is Some) by {
                lemma_take_contains(user_ids@, i as int, u);
                assert(start.contains_key((u, p)) <==> user_ids@.take(i as int).contains(u)
                    && problem_ids@.contains(p) && task_at(tasks@, p) is Some);
            }
        }
        i += 1;
    }
    assert(user_ids@.take(i as int) =~= user_ids@);
    cells
}

// ---------------------------------------------------------------------------
// Queries
// ---------------------------------------------------------------------------

/// The values that pick the submissions of these contestants to these problems.
pub open spec fn board_args(contest_id: i32, user_ids: Seq<i32>, problem_ids: Seq<i32>) -> Seq<
    SqlView,
> {
    seq![SqlView::Int(contest_id as int)] + sql::int_views(user_ids) + sql::int_views(problem_ids)
}

/// The condition that picks them.
pub open spec fn board_filter(users: nat, problems: nat) -> Seq<char> {
    "WHERE s.contest_id = "@ + sql::placeholder(1) + " AND s.user_id IN ("@ + sql::placeholders(
        1,
        users,
    ) + ") AND s.problem_id IN ("@ + sql::placeholders(1 + users, problems) + ")"@
}

fn bind_board(
    p: &mut Params,
    head: &str,
    contest_id: i32,
    user_ids: &Vec<i32>,
    problem_ids: &Vec<i32>,
) -> (r: String)
    requires
        old(p).values().len() == 0,
    ensures
        final(p).values() == board_args(contest_id, user_ids@, problem_ids@),
        r@ == head@ + board_filter(user_ids@.len(), problem_ids@.len()),
{
    let contest = p.bind_int(contest_id as i64);
    let users = bind_ids(p, user_ids);
    let problems = bind_ids(p, problem_ids);
    let mut sql = head.to_owned();
    sql.append("WHERE s.contest_id = ");
    sql.append(contest.as_str());
    sql.append(" AND s.user_id IN (");
    sql.append(users.as_str());
    sql.append(") AND s.problem_id IN (");
    sql.append(problems.as_str());
    sql.append(")");
    assert(p.values() =~= board_args(contest_id, user_ids@, problem_ids@));
    assert(sql@ =~= head@ + board_filter(user_ids@.len(), problem_ids@.len()));
    sql
}

pub open spec fn max_head() -> Seq<char> {
    "WITH scored AS ( SELECT s.user_id, s.problem_id, sj.score as score, GREATEST(EXTRACT(EPOCH FROM (s.created_at - c.start_time))::bigint, 0) as elapsed_seconds FROM submission s JOIN contest c ON c.id = s.contest_id JOIN submission_judgement sj ON sj.submission_id = s.id AND sj.is_current = TRUE AND sj.judge_epoch = s.judge_epoch "@
}

pub open spec fn max_tail(margin: Seq<char>) -> Seq<char> {
    " AND sj.score IS NOT NULL ), maxes AS ( SELECT user_id, problem_id, MAX(score) as score FROM scored GROUP BY user_id, problem_id ) SELECT m.user_id, m.problem_id, m.score, COALESCE(MIN(s.elapsed_seconds) FILTER (WHERE m.score > 0.0 AND s.score >= m.score - "@
        + margin
        + "), 0) as score_time_seconds FROM maxes m JOIN scored s ON s.user_id = m.user_id AND s.problem_id = m.problem_id GROUP BY m.user_id, m.problem_id, m.score"@
}

/// The query for the best submission of each cell, and when it was made; none
/// where there is nobody or nothing to ask about.
pub fn max_submission_query(
    contest_id: i32,
    user_ids: &Vec<i32>,
    problem_ids: &Vec<i32>,
) -> (r: Option<Query>)
    ensures
        match r {
            None => user_ids@.len() == 0 || problem_ids@.len() == 0,
            Some(q) => user_ids@.len() > 0 && problem_ids@.len() > 0 && sql::query_is(
                q,
                max_head() + board_filter(user_ids@.len(), problem_ids@.len()) + max_tail(
                    sql::placeholder(user_ids@.len() + problem_ids@.len() + 2),
                ),
                board_args(contest_id, user_ids@, problem_ids@).push(
                    SqlView::Decimal("0.000000001"@),
                ),
            ),
        },
{
    if user_ids.len() == 0 || problem_ids.len() == 0 {
        return None;
    }
    let mut p = Params::new();
    let mut sql = bind_board(
        &mut p,
        "WITH scored AS ( SELECT s.user_id, s.problem_id, sj.score as score, GREATEST(EXTRACT(EPOCH FROM (s.created_at - c.start_time))::bigint, 0) as elapsed_seconds FROM submission s JOIN contest c ON c.id = s.contest_id JOIN submission_judgement sj ON sj.submission_id = s.id AND sj.is_current = TRUE AND sj.judge_epoch = s.judge_epoch ",
        contest_id,
        user_ids,
        problem_ids,
    );
    let ghost start = sql@;
    let margin = p.bind(SqlValue::Decimal("0.000000001".to_owned()));
    sql.append(
        " AND sj.score IS NOT NULL ), maxes AS ( SELECT user_id, problem_id, MAX(score) as score FROM scored GROUP BY user_id, problem_id ) SELECT m.user_id, m.problem_id, m.score, COALESCE(MIN(s.elapsed_seconds) FILTER (WHERE m.score > 0.0 AND s.score >= m.score - ",
    );
    sql.append(margin.as_str());
    sql.append(
        "), 0) as score_time_seconds FROM maxes m JOIN scored s ON s.user_id = m.user_id AND s.problem_id = m.problem_id GROUP BY m.user_id, m.problem_id, m.score",
    );
    assert(sql@ =~= start + max_tail(margin@));
    Some(Query { sql, args: p.args })
}

pub open spec fn last_head() -> Seq<char> {
    "SELECT DISTINCT ON (s.user_id, s.problem_id) s.user_id, s.problem_id, COALESCE(sj.score, 0.0) as score, GREATEST(EXTRACT(EPOCH FROM (s.created_at - c.start_time))::bigint, 0) as elapsed_seconds FROM submission s JOIN contest c ON c.id = s.contest_id JOIN submission_judgement sj ON sj.submission_id = s.id AND sj.is_current = TRUE AND sj.is_finalized = TRUE AND sj.judge_epoch = s.judge_epoch "@
}

/// The query for the last judged submission of each cell.
pub fn last_submission_query(
    contest_id: i32,
    user_ids: &Vec<i32>,
    problem_ids: &Vec<i32>,
) -> (r: Option<Query>)
    ensures
        match r {
            None => user_ids@.len() == 0 || problem_ids@.len() == 0,
            Some(q) => user_ids@.len() > 0 && problem_ids@.len() > 0 && sql::query_is(
                q,
                last_head() + board_filter(user_ids@.len(), problem_ids@.len())
                    + " ORDER BY s.user_id, s.problem_id, s.created_at DESC, s.id DESC"@,
                board_args(contest_id, user_ids@, problem_ids@),
            ),
        },
{
    if user_ids.len() == 0 || problem_ids.len() == 0 {
        return None;
    }
    let mut p = Params::new();
    let mut sql = bind_board(
        &mut p,
        "SELECT DISTINCT ON (s.user_id, s.problem_id) s.user_id, s.problem_id, COALESCE(sj.score, 0.0) as score, GREATEST(EXTRACT(EPOCH FROM (s.created_at - c.start_time))::bigint, 0) as elapsed_seconds FROM submission s JOIN contest c ON c.id = s.contest_id JOIN submission_judgement sj ON sj.submission_id = s.id AND sj.is_current = TRUE AND sj.is_finalized = TRUE AND sj.judge_epoch = s.judge_epoch ",
        contest_id,
        user_ids,
        problem_ids,
    );
    sql.append(" ORDER BY s.user_id, s.problem_id, s.created_at DESC, s.id DESC");
    Some(Query { sql, args: p.args })
}

pub open spec fn tokened_head() -> Seq<char> {
    "SELECT s.user_id, s.problem_id, COALESCE(sj.score, 0.0) as score, GREATEST(EXTRACT(EPOCH FROM (s.created_at - c.start_time))::bigint, 0) as elapsed_seconds FROM submission s JOIN contest c ON c.id = s.contest_id JOIN submission_judgement sj ON sj.submission_id = s.id AND sj.is_current = TRUE AND sj.is_finalized = TRUE AND sj.judge_epoch = s.judge_epoch "@
}

/// The query for the submissions with a token; none where there are none.
pub fn tokened_submission_query(
    contest_id: i32,
    user_ids: &Vec<i32>,
    problem_ids: &Vec<i32>,
    tokened: &Vec<i32>,
) -> (r: Option<Query>)
    ensures
        match r {
            None => user_ids@.len() == 0 || problem_ids@.len() == 0 || tokened@.len() == 0,
            Some(q) => user_ids@.len() > 0 && problem_ids@.len() > 0 && tokened@.len() > 0
                && sql::query_is(
                q,
                tokened_head() + board_filter(user_ids@.len(), problem_ids@.len())
                    + " AND s.id IN ("@ + sql::placeholders(
                    1 + user_ids@.len() + problem_ids@.len(),
                    tokened@.len(),
                ) + ")"@,
                board_args(contest_id, user_ids@, problem_ids@) + sql::int_views(tokened@),
            ),
        },
{
    if user_ids.len() == 0 || problem_ids.len() == 0 || tokened.len() == 0 {
        return None;
    }
    let mut p = Params::new();
    let mut sql = bind_board(
        &mut p,
        "SELECT s.user_id, s.problem_id, COALESCE(sj.score, 0.0) as score, GREATEST(EXTRACT(EPOCH FROM (s.created_at - c.start_time))::bigint, 0) as elapsed_seconds FROM submission s JOIN contest c ON c.id = s.contest_id JOIN submission_judgement sj ON sj.submission_id = s.id AND sj.is_current = TRUE AND sj.is_finalized = TRUE AND sj.judge_epoch = s.judge_epoch ",
        contest_id,
        user_ids,
        problem_ids,
    );
    let ids = bind_ids(&mut p, tokened);
    sql.append(" AND s.id IN (");
    sql.append(ids.as_str());
    sql.append(")");
    Some(Query { sql, args: p.args })
}

pub open spec fn results_head() -> Seq<char> {
    "SELECT s.user_id, s.problem_id, s.id as submission_id, tcr.test_case_id, tcr.score, tcr.verdict, GREATEST(EXTRACT(EPOCH FROM (s.created_at - c.start_time))::bigint, 0) as elapsed_seconds FROM submission s JOIN contest c ON c.id = s.contest_id JOIN test_case_result tcr ON tcr.submission_id = s.id JOIN submission_judgement sj ON sj.id = tcr.judgement_id AND sj.submission_id = tcr.submission_id AND sj.judge_epoch = tcr.judge_epoch "@
}

/// The query for the stored results of all submissions.
pub fn board_results_query(
    contest_id: i32,
    user_ids: &Vec<i32>,
    problem_ids: &Vec<i32>,
) -> (r: Option<Query>)
    ensures
        match r {
            None => user_ids@.len() == 0 || problem_ids@.len() == 0,
            Some(q) => user_ids@.len() > 0 && problem_ids@.len() > 0 && sql::query_is(
                q,
                results_head() + board_filter(user_ids@.len(), problem_ids@.len())
                    + " AND tcr.test_case_id IS NOT NULL AND sj.is_current = TRUE AND sj.is_finalized = TRUE ORDER BY s.created_at ASC"@,
                board_args(contest_id, user_ids@, problem_ids@),
            ),
        },
{
    if user_ids.len() == 0 || problem_ids.len() == 0 {
        return None;
    }
    let mut p = Params::new();
    let mut sql = bind_board(
        &mut p,
        "SELECT s.user_id, s.problem_id, s.id as submission_id, tcr.test_case_id, tcr.score, tcr.verdict, GREATEST(EXTRACT(EPOCH FROM (s.created_at - c.start_time))::bigint, 0) as elapsed_seconds FROM submission s JOIN contest c ON c.id = s.contest_id JOIN test_case_result tcr ON tcr.submission_id = s.id JOIN submission_judgement sj ON sj.id = tcr.judgement_id AND sj.submission_id = tcr.submission_id AND sj.judge_epoch = tcr.judge_epoch ",
        contest_id,
        user_ids,
        problem_ids,
    );
    sql.append(
        " AND tcr.test_case_id IS NOT NULL AND sj.is_current = TRUE AND sj.is_finalized = TRUE ORDER BY s.created_at ASC",
    );
    Some(Query { sql, args: p.args })
}

/// Where the tokens of these contestants are stored.
pub fn token_keys(contest_id: i32, user_ids: &Vec<i32>) -> (r: Vec<String>)
    ensures
        text::views(r@) == user_ids@.map_values(|u: i32| tokens::token_key_of(contest_id, u)),
{
    let mut out: Vec<String> = Vec::new();
    let mut i: usize = 0;
    let ghost all = user_ids@.map_values(|u: i32| tokens::token_key_of(contest_id, u));
    assert(text::views(out@) =~= all.take(0));
    while i < user_ids.len()
        invariant
            i <= user_ids@.len(),
            all == user_ids@.map_values(|u: i32| tokens::token_key_of(contest_id, u)),
            text::views(out@) == all.take(i as int),
        decreases user_ids@.len() - i,
    {
        let ghost before = out@;
        let key = token_key(contest_id, user_ids[i]);
        let ghost k = key;
        out.push(key);
        proof {
            text::lemma_views_push(before, k);
            assert(all.take(i as int + 1) =~= all.take(i as int).push(all[i as int]));
        }
        i += 1;
    }
    assert(all.take(i as int) =~= all);
    out
}

/// The submissions with a token of all contestants, sorted, each once.
pub fn tokened_submissions(states: &Vec<TokenState>) -> (r: Vec<i32>)
    ensures
        ids::increasing(r@),
        forall|x: i32| #[trigger]
            r@.contains(x) <==> exists|i: int|
                0 <= i < states@.len() && (
                #[trigger] states@[i]).tokened_submission_ids@.contains(x),
{
    let mut out: Vec<i32> = Vec::new();
    let mut i: usize = 0;
    while i < states.len()
        invariant
            i <= states@.len(),
            ids::increasing(out@),
            forall|x: i32| #[trigger]
                out@.contains(x) <==> exists|j: int|
                    0 <= j < i && (#[trigger] states@[j]).tokened_submission_ids@.contains(x),
        decreases states@.len() - i,
    {
        let ghost start = out@;
        let ghost mine = states@[i as int].tokened_submission_ids@;
        let list = &states[i].tokened_submission_ids;
        let mut k: usize = 0;
        while k < list.len()
            invariant
                k <= list@.len(),
                list@ == mine,
                ids::increasing(out@),
                forall|x: i32| #[trigger]
                    out@.contains(x) <==> start.contains(x) || mine.take(k as int).contains(x),
            decreases list@.len() - k,
        {
            let ghost before = out@;
            insert_sorted(&mut out, list[k]);
            proof {
                assert forall|x: i32| #[trigger] out@.contains(x) <==> (start.contains(x)
                    || mine.take(k as int + 1).contains(x)) by {
                    lemma_take_contains(mine, k as int, x);
                    assert(before.contains(x) <==> start.contains(x) || mine.take(
                        k as int,
                    ).contains(x));
                }
            }
            k += 1;
        }
        proof {
            assert(mine.take(k as int) =~= mine);
            assert forall|x: i32| #[trigger] out@.contains(x) <==> exists|j: int|
                0 <= j < i + 1 && (#[trigger] states@[j]).tokened_submission_ids@.contains(x) by {
                assert(start.contains(x) <==> exists|j: int|
                    0 <= j < i && (#[trigger] states@[j]).tokened_submission_ids@.contains(x));
                if mine.contains(x) {
                    assert(states@[i as int].tokened_submission_ids@.contains(x));
                }
            }
        }
        i += 1;
    }
    out
}

// ---------------------------------------------------------------------------
// Laws
// ---------------------------------------------------------------------------

/// A contestant without submissions has neither points nor a time.
pub proof fn no_submissions_no_points()
    ensures
        sum_best_cell(seq![], seq![]) == (ScoreboardCell { score: 0, score_time_seconds: 0 }),
        tokened_cell(seq![], seq![]) == (ScoreboardCell { score: 0, score_time_seconds: 0 }),
{
    assert(scoring::widest(Seq::<Vec<i64>>::empty()) == 0);
    assert(scoring::sum_of_best(Seq::<Vec<i64>>::empty(), 0) == 0);
}

/// The score of a cell is that of the task itself: both add up the best of
/// each subtask.
pub proof fn board_and_task_agree(elapsed: Seq<i64>, table: Seq<Vec<i64>>)
    requires
        i128::MIN <= scoring::best_sum(table) <= i128::MAX,
    ensures
        sum_best_cell(elapsed, table).score == scoring::best_sum(table),
{
}

/// The score is at least that of the last submission and that of every one with
/// a token.
pub proof fn the_better_counts(
    last: Seq<ScoreboardSubmissionRow>,
    tokened: Seq<ScoreboardSubmissionRow>,
)
    requires
        last.len() > 0,
    ensures
        tokened_cell(last, tokened).score >= last.last().score,
        forall|i: int|
            0 <= i < tokened.len() ==> tokened_cell(last, tokened).score >= (
            #[trigger] tokened[i]).score,
{
    let one = seq![last.last()];
    assert(one.len() == 1 && one[0] == last.last());
    lemma_best_row_bounds(tokened);
    lemma_best_row_bounds(one);
}

proof fn lemma_best_row_bounds(rows: Seq<ScoreboardSubmissionRow>)
    ensures
        i64::MIN <= best_row(rows) <= i64::MAX,
        forall|i: int| 0 <= i < rows.len() ==> best_row(rows) >= (#[trigger] rows[i]).score,
    decreases rows.len(),
{
    if rows.len() > 0 {
        let rest = rows.drop_last();
        lemma_best_row_bounds(rest);
        assert forall|i: int| 0 <= i < rows.len() implies best_row(rows) >= (
        #[trigger] rows[i]).score by {
            if i < rest.len() {
                assert(rest[i] == rows[i]);
            }
        }
    }
}

} // verus!
