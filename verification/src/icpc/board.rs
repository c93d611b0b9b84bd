//! The scoreboard.

use std::collections::HashMap;

use vstd::prelude::*;

use crate::http::HttpError;
use crate::icpc::config::{
    freeze_view, freeze_window_open, ContestConfig, ProblemState,
};
use crate::pairs::PairMap;
use crate::icpc::standings::{
    compute_first_solvers, compute_pending, compute_problem_states, counts_as_live,
    StandingsSubmission,
};
use crate::letters::letters;
use crate::sql::{Params, Query, SqlView};
use crate::text::{str_eq, text_less};
use crate::textmap::TextMap;
use crate::http;
use crate::icpc::config;
use crate::icpc::standings;
use crate::letters;
use crate::sql;
use crate::text;

verus! {

// ---------------------------------------------------------------------------
// Labels
// ---------------------------------------------------------------------------

/// A problem of a contest, in the contest's order.
#[derive(Debug, Clone, PartialEq, Eq)]
pub struct ContestProblem {
    pub problem_id: i32,
    pub label: Option<String>,
}

/// The label of a problem: its own, else the letters of its position.
pub open spec fn label_of(p: ContestProblem, position: nat) -> Seq<char> {
    match p.label {
        Some(l) => if l@.len() > 0 {
            l@
        } else {
            letters::letters_of(position)
        },
        None => letters::letters_of(position),
    }
}

pub open spec fn labels_of(problems: Seq<ContestProblem>) -> Seq<Seq<char>> {
    Seq::new(problems.len(), |i: int| label_of(problems[i], i as nat))
}

pub fn problem_labels(problems: &Vec<ContestProblem>) -> (r: Vec<String>)
    ensures
        text::views(r@) == labels_of(problems@),
{
    let mut out: Vec<String> = Vec::new();
    let mut i: usize = 0;
    while i < problems.len()
        invariant
            i <= problems@.len(),
            text::views(out@) == labels_of(problems@).take(i as int),
        decreases problems@.len() - i,
    {
        let label = match &problems[i].label {
            Some(l) => if l.as_str().is_empty() {
                letters(i as u64)
            } else {
                l.clone()
            },
            None => letters(i as u64),
        };
        proof {
            text::lemma_views_push(out@, label);
            assert(labels_of(problems@).take(i as int + 1) =~= labels_of(problems@).take(
                i as int,
            ).push(label@));
        }
        out.push(label);
        i += 1;
    }
    assert(labels_of(problems@).take(i as int) =~= labels_of(problems@));
    out
}

// ---------------------------------------------------------------------------
// Whose rows
// ---------------------------------------------------------------------------

/// The rows that a viewer gets.
#[derive(Debug, Clone, Copy, PartialEq, Eq, Structural)]
pub enum Scope {
    /// Every row.
    All,
    /// The row of this contestant alone.
    Own(i32),
    /// No row at all.
    Nobody,
}

/// Until the contest ends a contestant sees only the own row, unless the
/// standings are public.
pub open spec fn scope_of(
    phase: Seq<char>,
    can_view_all: bool,
    public_standings: bool,
    user_id: Option<i32>,
) -> Scope {
    if (phase == "before"@ || phase == "during"@) && !can_view_all && !public_standings {
        match user_id {
            Some(id) => Scope::Own(id),
            None => Scope::Nobody,
        }
    } else {
        Scope::All
    }
}

pub fn standings_scope(
    phase: &str,
    can_view_all: bool,
    public_standings: bool,
    user_id: Option<i32>,
) -> (r: Scope)
    ensures
        r == scope_of(phase@, can_view_all, public_standings, user_id),
{
    if (str_eq(phase, "before") || str_eq(phase, "during")) && !can_view_all && !public_standings {
        match user_id {
            Some(id) => Scope::Own(id),
            None => Scope::Nobody,
        }
    } else {
        Scope::All
    }
}

/// Whether the contest's times matter to the freeze.
pub fn freeze_possible(freeze_minutes: i32, revealed: bool, phase: &str) -> (r: bool)
    ensures
        r == (freeze_minutes > 0 && !revealed && config::freezing_phase(phase@)),
{
    freeze_minutes > 0 && !revealed && (str_eq(phase, "during") || str_eq(phase, "after"))
}

/// Whether the stored flag says that the board has been revealed. Whatever
/// else was read, or nothing, leaves the board frozen.
pub fn is_revealed(flag: &Option<String>) -> (r: bool)
    ensures
        r == (flag matches Some(f) && f@ == "1"@),
{
    match flag {
        Some(f) => str_eq(f.as_str(), "1"),
        None => false,
    }
}

/// Whether a request to reveal the board is granted: to organizers, once the
/// window has opened. `times` are the contest's duration and the time elapsed.
pub fn decide_reveal(
    can_manage: bool,
    freeze_minutes: i32,
    phase: &str,
    times: Option<(i64, i64)>,
) -> (r: Result<(), HttpError>)
    requires
        times matches Some(t) ==> config::window_fits(freeze_minutes as int, t.0 as int),
    ensures
        if !can_manage {
            r matches Err(e) && http::error_is(
                e,
                403,
                "Revealing the scoreboard requires contest:manage"@,
            )
        } else if (times matches Some(t) && config::window_open(
            freeze_minutes as int,
            phase@,
            false,
            t.0 as int,
            t.1 as int,
        )) {
            r is Ok
        } else {
            r matches Err(e) && http::error_is(
                e,
                409,
                "The scoreboard freeze window has not opened yet; nothing to reveal"@,
            )
        },
{
    if !can_manage {
        return Err(HttpError::new(403, "Revealing the scoreboard requires contest:manage"));
    }
    let open = match times {
        Some((duration_ms, now_elapsed_ms)) => freeze_window_open(
            freeze_minutes,
            phase,
            false,
            duration_ms,
            now_elapsed_ms,
        ),
        None => false,
    };
    if open {
        Ok(())
    } else {
        Err(
            HttpError::new(
                409,
                "The scoreboard freeze window has not opened yet; nothing to reveal",
            ),
        )
    }
}

// ---------------------------------------------------------------------------
// Queries
// ---------------------------------------------------------------------------

pub open spec fn current_submissions_text(contest: Seq<char>, user_filter: Seq<char>) -> Seq<char> {
    "SELECT s.id AS submission_id, s.user_id, s.problem_id, sj.status::text AS status, sj.verdict"@
        + "::text AS verdict, EXTRACT(EPOCH FROM (s.created_at - c.start_time)) * 1000 AS elapsed_ms FROM submission s JOIN submission_judgement sj ON sj.submission_id = s.id AND sj.is_current = TRUE AND sj.is_finalized = TRUE JOIN contest c ON c.id = s.contest_id JOIN contest_problem cp ON cp.contest_id = s.contest_id AND cp.problem_id = s.problem_id WHERE s.contest_id = "@
        + contest + user_filter
}

pub fn current_submissions_sql(contest_id_placeholder: &str, user_filter: &str) -> (r: String)
    ensures
        r@ == current_submissions_text(contest_id_placeholder@, user_filter@),
{
    let mut out = "SELECT s.id AS submission_id, s.user_id, s.problem_id, sj.status::text AS status, sj.verdict".to_owned();
    out.append("::text AS verdict, EXTRACT(EPOCH FROM (s.created_at - c.start_time)) * 1000 AS elapsed_ms FROM submission s JOIN submission_judgement sj ON sj.submission_id = s.id AND sj.is_current = TRUE AND sj.is_finalized = TRUE JOIN contest c ON c.id = s.contest_id JOIN contest_problem cp ON cp.contest_id = s.contest_id AND cp.problem_id = s.problem_id WHERE s.contest_id = ");
    out.append(contest_id_placeholder);
    out.append(user_filter);
    out
}

/// The query for the finalized submissions of a contest, or of one contestant
/// in it.
pub open spec fn submissions_query_is(q: Query, contest_id: i32, only_user: Option<i32>) -> bool {
    match only_user {
        None => sql::query_is(
            q,
            current_submissions_text(sql::placeholder(1), ""@),
            seq![SqlView::Int(contest_id as int)],
        ),
        Some(uid) => sql::query_is(
            q,
            current_submissions_text(sql::placeholder(1), " AND s.user_id = "@ + sql::placeholder(2)),
            seq![SqlView::Int(contest_id as int), SqlView::Int(uid as int)],
        ),
    }
}

/// The finalized submissions that a viewer's board is made from.
pub fn submissions_query(contest_id: i32, only_user: Option<i32>) -> (q: Query)
    ensures
        submissions_query_is(q, contest_id, only_user),
{
    let mut p = Params::new();
    let contest = p.bind_int(contest_id as i64);
    let mut filter = "".to_owned();
    match only_user {
        Some(uid) => {
            let ph = p.bind_int(uid as i64);
            filter = " AND s.user_id = ".to_owned();
            filter.append(ph.as_str());
        },
        None => {},
    }
    let sql = current_submissions_sql(contest.as_str(), filter.as_str());
    proof {
        match only_user {
            Some(uid) => {
                assert(p.values() =~= seq![
                    SqlView::Int(contest_id as int),
                    SqlView::Int(uid as int),
                ]);
            },
            None => {
                assert(p.values() =~= seq![SqlView::Int(contest_id as int)]);
            },
        }
    }
    Query { sql, args: p.args }
}

pub open spec fn participants_text(contest: Seq<char>, user_filter: Seq<char>) -> Seq<char> {
    "SELECT cu.user_id, u.username FROM contest_user cu JOIN \"user\" u ON u.id = cu.user_id WHERE cu.contest_id = "@
        + contest + user_filter + " ORDER BY cu.registered_at ASC"@
}

/// The query for the contestants of a contest, or for one of them. The filter's
/// value is bound before the contest's.
pub open spec fn participants_query_is(q: Query, contest_id: i32, only_user: Option<i32>) -> bool {
    match only_user {
        None => sql::query_is(
            q,
            participants_text(sql::placeholder(1), ""@),
            seq![SqlView::Int(contest_id as int)],
        ),
        Some(uid) => sql::query_is(
            q,
            participants_text(sql::placeholder(2), " AND cu.user_id = "@ + sql::placeholder(1)),
            seq![SqlView::Int(uid as int), SqlView::Int(contest_id as int)],
        ),
    }
}

/// The contestants whose rows a viewer gets.
pub fn participants_query(contest_id: i32, only_user: Option<i32>) -> (q: Query)
    ensures
        participants_query_is(q, contest_id, only_user),
{
    let mut p = Params::new();
    let mut filter = "".to_owned();
    match only_user {
        Some(uid) => {
            let ph = p.bind_int(uid as i64);
            filter = " AND cu.user_id = ".to_owned();
            filter.append(ph.as_str());
        },
        None => {},
    }
    let contest = p.bind_int(contest_id as i64);
    let mut sql = "SELECT cu.user_id, u.username FROM contest_user cu JOIN \"user\" u ON u.id = cu.user_id WHERE cu.contest_id = ".to_owned();
    sql.append(contest.as_str());
    sql.append(filter.as_str());
    sql.append(" ORDER BY cu.registered_at ASC");
    proof {
        match only_user {
            Some(uid) => {
                assert(p.values() =~= seq![
                    SqlView::Int(uid as int),
                    SqlView::Int(contest_id as int),
                ]);
            },
            None => {
                assert(p.values() =~= seq![SqlView::Int(contest_id as int)]);
            },
        }
    }
    Query { sql, args: p.args }
}

/// A query with the contest as its one parameter, at the given place.
pub open spec fn contest_query_is(q: Query, before: Seq<char>, after: Seq<char>, contest_id: i32) -> bool {
    sql::query_is(q, before + sql::placeholder(1) + after, seq![SqlView::Int(contest_id as int)])
}

fn contest_query(before: &str, after: &str, contest_id: i32) -> (q: Query)
    ensures
        contest_query_is(q, before@, after@, contest_id),
{
    let mut p = Params::new();
    let ph = p.bind_int(contest_id as i64);
    let mut sql = before.to_owned();
    sql.append(ph.as_str());
    sql.append(after);
    assert(p.values() =~= seq![SqlView::Int(contest_id as int)]);
    Query { sql, args: p.args }
}

/// The problems of a contest, in order.
pub fn problems_query(contest_id: i32) -> (q: Query)
    ensures
        contest_query_is(
            q,
            "SELECT problem_id, label FROM contest_problem WHERE contest_id = "@,
            " ORDER BY position"@,
            contest_id,
        ),
{
    contest_query(
        "SELECT problem_id, label FROM contest_problem WHERE contest_id = ",
        " ORDER BY position",
        contest_id,
    )
}

/// How long a contest lasts and how much of it has passed.
pub fn times_query(contest_id: i32) -> (q: Query)
    ensures
        contest_query_is(
            q,
            "SELECT EXTRACT(EPOCH FROM (end_time - start_time)) * 1000 AS duration_ms, EXTRACT(EPOCH FROM (NOW() - start_time)) * 1000 AS now_elapsed_ms FROM contest WHERE id = "@,
            ""@,
            contest_id,
        ),
{
    contest_query(
        "SELECT EXTRACT(EPOCH FROM (end_time - start_time)) * 1000 AS duration_ms, EXTRACT(EPOCH FROM (NOW() - start_time)) * 1000 AS now_elapsed_ms FROM contest WHERE id = ",
        "",
        contest_id,
    )
}

// ---------------------------------------------------------------------------
// Cells
// ---------------------------------------------------------------------------

/// What the board shows of a contestant on a problem.
#[derive(Debug, Clone, Copy, PartialEq, Eq, Structural)]
pub struct ProblemCell {
    pub attempts: i32,
    pub solved: bool,
    pub time: Option<i64>,
    pub penalty: Option<i64>,
    pub first_solve: Option<bool>,
    /// Submissions during the freeze on a problem that is not solved.
    pub pending: Option<i32>,
}

/// All that a contestant's row is computed from.
pub struct RowModel {
    pub ids: Seq<i32>,
    pub labels: Seq<Seq<char>>,
    pub states: Map<(i32, i32), ProblemState>,
    pub pending: Map<(i32, i32), i32>,
    pub first: Map<i32, i32>,
    pub penalty_minutes: int,
}

impl RowModel {
    pub open spec fn wf(self) -> bool {
        self.ids.len() == self.labels.len()
    }

    pub open spec fn state(self, user: i32, i: int) -> ProblemState {
        let key = (user, self.ids[i]);
        if self.states.contains_key(key) {
            self.states[key]
        } else {
            ProblemState { attempts: 0, solved: false, solve_time_ms: None }
        }
    }

    pub open spec fn pending_of(self, user: i32, i: int) -> Option<i32> {
        let key = (user, self.ids[i]);
        if self.pending.contains_key(key) {
            Some(self.pending[key])
        } else {
            None
        }
    }

    /// The cell of problem `i`; none where there is nothing to show.
    pub open spec fn cell(self, user: i32, i: int) -> Option<ProblemCell> {
        let s = self.state(user, i);
        if s.solved {
            Some(
                ProblemCell {
                    attempts: s.attempts,
                    solved: true,
                    time: Some(s.solve_minutes() as i64),
                    penalty: Some(s.penalty_spec(self.penalty_minutes) as i64),
                    first_solve: None,
                    pending: None,
                },
            )
        } else if s.attempts > 0 || self.pending_of(user, i) is Some {
            Some(
                ProblemCell {
                    attempts: s.attempts,
                    solved: false,
                    time: None,
                    penalty: None,
                    first_solve: None,
                    pending: self.pending_of(user, i),
                },
            )
        } else {
            None
        }
    }

    /// The cells of the first `n` problems.
    pub open spec fn cells(self, user: i32, n: int) -> Map<Seq<char>, ProblemCell>
        decreases n,
    {
        if n <= 0 {
            Map::empty()
        } else {
            match self.cell(user, n - 1) {
                Some(c) => self.cells(user, n - 1).insert(self.labels[n - 1], c),
                None => self.cells(user, n - 1),
            }
        }
    }

    pub open spec fn is_first(self, user: i32, i: int) -> bool {
        self.first.contains_key(self.ids[i]) && self.first[self.ids[i]] == user
    }

    /// The cells, with the first solves among the first `n` problems marked.
    pub open spec fn marked(self, user: i32, n: int) -> Map<Seq<char>, ProblemCell>
        decreases n,
    {
        if n <= 0 {
            self.cells(user, self.ids.len() as int)
        } else {
            let m = self.marked(user, n - 1);
            let label = self.labels[n - 1];
            if m.contains_key(label) && m[label].solved && self.is_first(user, n - 1) {
                m.insert(label, ProblemCell { first_solve: Some(true), ..m[label] })
            } else {
                m
            }
        }
    }

    /// How many of the first `n` problems are solved.
    pub open spec fn solved(self, user: i32, n: int) -> nat
        decreases n,
    {
        if n <= 0 {
            0
        } else if self.state(user, n - 1).solved {
            self.solved(user, n - 1) + 1
        } else {
            self.solved(user, n - 1)
        }
    }

    /// The penalty over the first `n` problems.
    pub open spec fn penalty(self, user: i32, n: int) -> int
        decreases n,
    {
        if n <= 0 {
            0
        } else {
            self.penalty(user, n - 1) + self.state(user, n - 1).penalty_spec(
                self.penalty_minutes,
            )
        }
    }
}

/// What the rows are computed from.
pub struct RowSource<'a> {
    pub problem_ids: &'a Vec<i32>,
    pub labels: &'a Vec<String>,
    pub states: &'a PairMap<ProblemState>,
    pub pending: &'a PairMap<i32>,
    pub first: &'a HashMap<i32, i32>,
    pub penalty_minutes: i32,
}

impl<'a> View for RowSource<'a> {
    type V = RowModel;

    open spec fn view(&self) -> RowModel {
        RowModel {
            ids: self.problem_ids@,
            labels: text::views(self.labels@),
            states: self.states@,
            pending: self.pending@,
            first: self.first@,
            penalty_minutes: self.penalty_minutes as int,
        }
    }
}

/// With one label per problem, a solved problem's cell shows just that
/// problem, marked exactly where the contestant was first.
pub proof fn cells_show_their_problem(src: RowModel, user: i32, i: int)
    requires
        src.wf(),
        0 <= i < src.ids.len(),
        forall|a: int, b: int|
            0 <= a < b < src.labels.len() ==> (#[trigger] src.labels[a]) != (
            #[trigger] src.labels[b]),
    ensures
        ({
            let m = src.marked(user, src.ids.len() as int);
            let label = src.labels[i];
            match src.cell(user, i) {
                None => !m.contains_key(label),
                Some(c) => m.contains_key(label) && m[label] == (ProblemCell {
                    first_solve: if c.solved && src.is_first(user, i) {
                        Some(true)
                    } else {
                        None
                    },
                    ..c
                }),
            }
        }),
{
    let n = src.ids.len() as int;
    lemma_cell_at(src, user, i, n);
    lemma_mark_at(src, user, i, n);
}

proof fn lemma_cell_at(src: RowModel, user: i32, i: int, n: int)
    requires
        src.wf(),
        0 <= i < src.ids.len(),
        0 <= n <= src.ids.len(),
        forall|a: int, b: int|
            0 <= a < b < src.labels.len() ==> (#[trigger] src.labels[a]) != (
            #[trigger] src.labels[b]),
    ensures
        ({
            let m = src.cells(user, n);
            let label = src.labels[i];
            match src.cell(user, i) {
                None => !m.contains_key(label),
                Some(c) => if i < n {
                    m.contains_key(label) && m[label] == c
                } else {
                    !m.contains_key(label)
                },
            }
        }),
    decreases n,
{
    if n > 0 {
        lemma_cell_at(src, user, i, n - 1);
        if i < n - 1 {
            assert(src.labels[i] != src.labels[n - 1]);
        } else if i > n - 1 {
            assert(src.labels[n - 1] != src.labels[i]);
        }
    }
}

proof fn lemma_mark_at(src: RowModel, user: i32, i: int, n: int)
    requires
        src.wf(),
        0 <= i < src.ids.len(),
        0 <= n <= src.ids.len(),
        forall|a: int, b: int|
            0 <= a < b < src.labels.len() ==> (#[trigger] src.labels[a]) != (
            #[trigger] src.labels[b]),
    ensures
        ({
            let m = src.marked(user, n);
            let label = src.labels[i];
            match src.cell(user, i) {
                None => !m.contains_key(label),
                Some(c) => m.contains_key(label) && m[label] == (ProblemCell {
                    first_solve: if i < n && c.solved && src.is_first(user, i) {
                        Some(true)
                    } else {
                        None
                    },
                    ..c
                }),
            }
        }),
    decreases n,
{
    if n <= 0 {
        lemma_cell_at(src, user, i, src.ids.len() as int);
    } else {
        lemma_mark_at(src, user, i, n - 1);
        if i < n - 1 {
            assert(src.labels[i] != src.labels[n - 1]);
        } else if i > n - 1 {
            assert(src.labels[n - 1] != src.labels[i]);
        }
    }
}

fn state_at(src: &RowSource, user: i32, i: usize) -> (r: ProblemState)
    requires
        i < src.problem_ids@.len(),
    ensures
        r == src@.state(user, i as int),
{
    match src.states.get(&(user, src.problem_ids[i])) {
        Some(s) => *s,
        None => ProblemState { attempts: 0, solved: false, solve_time_ms: None },
    }
}

fn row_cells(src: &RowSource, user: i32) -> (r: TextMap<ProblemCell>)
    requires
        src@.wf(),
    ensures
        r@ == src@.marked(user, src.problem_ids@.len() as int),
{
    broadcast use vstd::std_specs::hash::group_hash_axioms;

    let mut cells = TextMap::<ProblemCell>::new();
    let n: usize = src.problem_ids.len();
    let mut i: usize = 0;
    while i < n
        invariant
            src@.wf(),
            i <= n == src.problem_ids@.len(),
            cells@ == src@.cells(user, i as int),
        decreases n - i,
    {
        let s = state_at(src, user, i);
        let pending: Option<i32> = match src.pending.get(&(user, src.problem_ids[i])) {
            Some(k) => Some(*k),
            None => None,
        };
        if s.solved {
            cells.insert(
                src.labels[i].as_str(),
                ProblemCell {
                    attempts: s.attempts,
                    solved: true,
                    time: Some(s.solve_minutes_wide()),
                    penalty: Some(s.penalty_wide(src.penalty_minutes)),
                    first_solve: None,
                    pending: None,
                },
            );
        } else if s.attempts > 0 || pending.is_some() {
            cells.insert(
                src.labels[i].as_str(),
                ProblemCell {
                    attempts: s.attempts,
                    solved: false,
                    time: None,
                    penalty: None,
                    first_solve: None,
                    pending,
                },
            );
        }
        i += 1;
    }
    let mut k: usize = 0;
    while k < n
        invariant
            src@.wf(),
            k <= n == src.problem_ids@.len(),
            cells@ == src@.marked(user, k as int),
        decreases n - k,
    {
        broadcast use vstd::std_specs::hash::group_hash_axioms;

        let held: Option<ProblemCell> = match cells.get(src.labels[k].as_str()) {
            Some(cell) => Some(*cell),
            None => None,
        };
        match held {
            Some(cell) => {
                let first = match src.first.get(&src.problem_ids[k]) {
                    Some(u) => *u == user,
                    None => false,
                };
                if cell.solved && first {
                    cells.insert(
                        src.labels[k].as_str(),
                        ProblemCell {
                            attempts: cell.attempts,
                            solved: cell.solved,
                            time: cell.time,
                            penalty: cell.penalty,
                            first_solve: Some(true),
                            pending: cell.pending,
                        },
                    );
                }
            },
            None => {},
        }
        k += 1;
    }
    cells
}

fn row_score(src: &RowSource, user: i32) -> (r: (usize, i128))
    requires
        src@.wf(),
    ensures
        r.0 == src@.solved(user, src.problem_ids@.len() as int),
        r.1 == src@.penalty(user, src.problem_ids@.len() as int),
{
    let n: usize = src.problem_ids.len();
    let mut solved: usize = 0;
    let mut penalty: i128 = 0;
    let mut i: usize = 0;
    while i < n
        invariant
            src@.wf(),
            i <= n == src.problem_ids@.len(),
            solved <= i,
            solved == src@.solved(user, i as int),
            penalty == src@.penalty(user, i as int),
            -(i as int) * 0x5000_0000_0000_0000 <= penalty <= i * 0x5000_0000_0000_0000,
        decreases n - i,
    {
        let s = state_at(src, user, i);
        if s.solved {
            solved += 1;
        }
        penalty = penalty + s.penalty_wide(src.penalty_minutes) as i128;
        i += 1;
    }
    (solved, penalty)
}

// ---------------------------------------------------------------------------
// Order and ranks
// ---------------------------------------------------------------------------

/// What a row is ranked by.
#[derive(Debug)]
pub struct RowKey {
    pub solved: usize,
    pub penalty: i128,
    pub username: String,
}

/// Row `i` goes before row `j`: more solved, then less penalty, then the name,
/// then the order of registration.
pub open spec fn goes_before(keys: Seq<RowKey>, i: int, j: int) -> bool {
    let a = keys[i];
    let b = keys[j];
    ||| a.solved > b.solved
    ||| a.solved == b.solved && a.penalty < b.penalty
    ||| a.solved == b.solved && a.penalty == b.penalty && text::text_before(a.username@, b.username@)
    ||| a.solved == b.solved && a.penalty == b.penalty && a.username@ == b.username@ && i < j
}

proof fn lemma_goes_before_total(keys: Seq<RowKey>, i: int, j: int)
    requires
        i != j,
    ensures
        goes_before(keys, i, j) || goes_before(keys, j, i),
        !(goes_before(keys, i, j) && goes_before(keys, j, i)),
{
    text::text_order_is_total(keys[i].username@, keys[j].username@);
    text::text_order_is_total(keys[j].username@, keys[i].username@);
}

proof fn lemma_goes_before_transitive(keys: Seq<RowKey>, i: int, j: int, k: int)
    requires
        goes_before(keys, i, j),
        goes_before(keys, j, k),
    ensures
        goes_before(keys, i, k),
{
    let a = keys[i].username@;
    let b = keys[j].username@;
    let c = keys[k].username@;
    if text::text_before(a, b) && text::text_before(b, c) {
        text::text_order_is_transitive(a, b, c);
    }
}

/// `order` lists all rows, each once, best first.
pub open spec fn is_order(keys: Seq<RowKey>, order: Seq<usize>) -> bool {
    &&& order.len() == keys.len()
    &&& forall|k: int| 0 <= k < order.len() ==> (#[trigger] order[k]) < keys.len()
    &&& forall|k: int, l: int|
        0 <= k < l < order.len() ==> goes_before(
            keys,
            #[trigger] order[k] as int,
            #[trigger] order[l] as int,
        )
}

fn key_before(keys: &Vec<RowKey>, i: usize, j: usize) -> (r: bool)
    requires
        i < keys@.len(),
        j < keys@.len(),
    ensures
        r == goes_before(keys@, i as int, j as int),
{
    let a = &keys[i];
    let b = &keys[j];
    if a.solved != b.solved {
        a.solved > b.solved
    } else if a.penalty != b.penalty {
        a.penalty < b.penalty
    } else if text_less(a.username.as_str(), b.username.as_str()) {
        true
    } else {
        proof {
            text::text_order_is_total(a.username@, b.username@);
        }
        str_eq(a.username.as_str(), b.username.as_str()) && i < j
    }
}

/// The rows in the order of the board.
pub fn sorted_order(keys: &Vec<RowKey>) -> (order: Vec<usize>)
    ensures
        is_order(keys@, order@),
{
    let mut order: Vec<usize> = Vec::new();
    let mut i: usize = 0;
    while i < keys.len()
        invariant
            i <= keys@.len(),
            order@.len() == i,
            forall|k: int| 0 <= k < i ==> (#[trigger] order@[k]) < i,
            forall|k: int, l: int|
                0 <= k < l < i ==> goes_before(
                    keys@,
                    #[trigger] order@[k] as int,
                    #[trigger] order@[l] as int,
                ),
        decreases keys@.len() - i,
    {
        let mut p: usize = 0;
        while p < order.len() && key_before(keys, order[p], i)
            invariant
                i < keys@.len(),
                p <= order@.len() == i,
                forall|k: int| 0 <= k < i ==> (#[trigger] order@[k]) < i,
                forall|k: int| 0 <= k < p ==> goes_before(keys@, #[trigger] order@[k] as int, i as int),
            decreases i - p,
        {
            p += 1;
        }
        let ghost before = order@;
        proof {
            assert forall|k: int| p <= k < i implies goes_before(
                keys@,
                i as int,
                #[trigger] before[k] as int,
            ) by {
                lemma_goes_before_total(keys@, before[p as int] as int, i as int);
                if k > p {
                    assert(goes_before(keys@, before[p as int] as int, before[k] as int));
                    lemma_goes_before_transitive(
                        keys@,
                        i as int,
                        before[p as int] as int,
                        before[k] as int,
                    );
                }
            }
        }
        order.insert(p, i);
        proof {
            assert(order@ =~= before.insert(p as int, i));
            assert forall|k: int, l: int| 0 <= k < l < order@.len() implies goes_before(
                keys@,
                #[trigger] order@[k] as int,
                #[trigger] order@[l] as int,
            ) by {
                let k0 = if k < p {
                    k
                } else {
                    k - 1
                };
                let l0 = if l < p {
                    l
                } else {
                    l - 1
                };
                if k == p {
                    assert(order@[l] == before[l0]);
                } else if l == p {
                    assert(order@[k] == before[k0]);
                } else {
                    assert(order@[k] == before[k0]);
                    assert(order@[l] == before[l0]);
                }
            }
            assert forall|k: int| 0 <= k < order@.len() implies (#[trigger] order@[k]) < i + 1 by {
                if k < p {
                    assert(order@[k] == before[k]);
                } else if k > p {
                    assert(order@[k] == before[k - 1]);
                }
            }
        }
        i += 1;
    }
    order
}

/// Two rows have the same score.
pub open spec fn ties(a: RowKey, b: RowKey) -> bool {
    a.solved == b.solved && a.penalty == b.penalty
}

/// The rank of place `k`: that of the row above it where they tie, else the
/// place itself.
pub open spec fn rank_at(keys: Seq<RowKey>, order: Seq<usize>, k: int) -> int
    decreases k,
{
    if k <= 0 {
        1
    } else if ties(keys[order[k] as int], keys[order[k - 1] as int]) {
        rank_at(keys, order, k - 1)
    } else {
        k + 1
    }
}

proof fn lemma_rank_group(keys: Seq<RowKey>, order: Seq<usize>, k: int)
    requires
        is_order(keys, order),
        0 <= k < order.len(),
    ensures
        ({
            let g = rank_at(keys, order, k) - 1;
            &&& 0 <= g <= k
            &&& ties(keys[order[g] as int], keys[order[k] as int])
            &&& g > 0 ==> !ties(keys[order[g] as int], keys[order[g - 1] as int])
            &&& rank_at(keys, order, g) == g + 1
        }),
    decreases k,
{
    if k > 0 && ties(keys[order[k] as int], keys[order[k - 1] as int]) {
        lemma_rank_group(keys, order, k - 1);
    }
}

/// Two rows have the same rank exactly where they tie, a better row has a
/// smaller rank, and a row's rank counts the rows that are strictly above it.
pub proof fn ranks_follow_scores(keys: Seq<RowKey>, order: Seq<usize>, j: int, k: int)
    requires
        is_order(keys, order),
        0 <= j <= k < order.len(),
    ensures
        rank_at(keys, order, j) == rank_at(keys, order, k) <==> ties(
            keys[order[j] as int],
            keys[order[k] as int],
        ),
        rank_at(keys, order, j) <= rank_at(keys, order, k),
        rank_at(keys, order, k) <= k + 1,
        !ties(keys[order[j] as int], keys[order[k] as int]) <==> j < rank_at(keys, order, k) - 1,
    decreases k,
{
    lemma_rank_group(keys, order, k);
    lemma_rank_group(keys, order, j);
    let g = rank_at(keys, order, k) - 1;
    if j < g {
        assert(goes_before(keys, order[j] as int, order[g] as int));
        if ties(keys[order[j] as int], keys[order[g] as int]) {
            if j < g - 1 {
                assert(goes_before(keys, order[j] as int, order[g - 1] as int));
            }
            assert(goes_before(keys, order[g - 1] as int, order[g] as int));
            assert(ties(keys[order[g] as int], keys[order[g - 1] as int]));
        }
    } else if j > g {
        assert(goes_before(keys, order[g] as int, order[j] as int));
        if j < k {
            assert(goes_before(keys, order[j] as int, order[k] as int));
        }
        let h = rank_at(keys, order, j) - 1;
        if h > g {
            assert(goes_before(keys, order[g] as int, order[h - 1] as int) || g == h - 1);
            assert(goes_before(keys, order[h - 1] as int, order[h] as int));
            assert(h == j || goes_before(keys, order[h] as int, order[j] as int));
        }
        if h < g {
            assert(goes_before(keys, order[h] as int, order[g - 1] as int) || h == g - 1);
            assert(goes_before(keys, order[g - 1] as int, order[g] as int));
        }
    }
}

// ---------------------------------------------------------------------------
// Rows
// ---------------------------------------------------------------------------

#[derive(Debug, Clone, PartialEq, Eq)]
pub struct Participant {
    pub user_id: i32,
    pub username: String,
}

/// A row of the board.
#[derive(Debug)]
pub struct StandingsEntry {
    pub rank: usize,
    pub user_id: i32,
    pub username: String,
    pub solved: usize,
    pub penalty: i128,
    pub problems: TextMap<ProblemCell>,
}

/// The key of each contestant's row.
pub open spec fn keys_are(
    keys: Seq<RowKey>,
    src: RowModel,
    participants: Seq<Participant>,
) -> bool {
    &&& keys.len() == participants.len()
    &&& forall|i: int|
        0 <= i < keys.len() ==> {
            let user = participants[i].user_id;
            let n = src.ids.len() as int;
            &&& (#[trigger] keys[i]).solved == src.solved(user, n)
            &&& keys[i].penalty == src.penalty(user, n)
            &&& keys[i].username@ == participants[i].username@
        }
}

/// The rows of the board: every contestant once, best first, with the rank,
/// the score and the cells.
pub open spec fn rows_are(
    rows: Seq<StandingsEntry>,
    src: RowModel,
    participants: Seq<Participant>,
    keys: Seq<RowKey>,
    order: Seq<usize>,
) -> bool {
    &&& keys_are(keys, src, participants)
    &&& is_order(keys, order)
    &&& rows.len() == order.len()
    &&& forall|k: int|
        0 <= k < rows.len() ==> {
            let p = participants[order[k] as int];
            &&& (#[trigger] rows[k]).rank == rank_at(keys, order, k)
            &&& rows[k].user_id == p.user_id
            &&& rows[k].username@ == p.username@
            &&& rows[k].solved == keys[order[k] as int].solved
            &&& rows[k].penalty == keys[order[k] as int].penalty
            &&& rows[k].problems@ == src.marked(p.user_id, src.ids.len() as int)
        }
}

#[verifier::loop_isolation(false)]
pub fn standings_rows(src: &RowSource, participants: &Vec<Participant>) -> (rows: Vec<
    StandingsEntry,
>)
    requires
        src@.wf(),
    ensures
        exists|keys: Seq<RowKey>, order: Seq<usize>| #[trigger]
            rows_are(rows@, src@, participants@, keys, order),
{
    let mut keys: Vec<RowKey> = Vec::new();
    let mut i: usize = 0;
    while i < participants.len()
        invariant
            i <= participants@.len(),
            keys_are(keys@, src@, participants@.take(i as int)),
        decreases participants@.len() - i,
    {
        let (solved, penalty) = row_score(src, participants[i].user_id);
        keys.push(RowKey { solved, penalty, username: participants[i].username.clone() });
        assert(participants@.take(i as int + 1).drop_last() =~= participants@.take(i as int));
        i += 1;
    }
    assert(participants@.take(i as int) =~= participants@);
    let order = sorted_order(&keys);
    let mut rows: Vec<StandingsEntry> = Vec::new();
    let mut k: usize = 0;
    let mut rank: usize = 1;
    while k < order.len()
        invariant
            k <= order@.len(),
            rows@.len() == k,
            k > 0 ==> rank == rank_at(keys@, order@, k - 1),
            forall|j: int|
                0 <= j < k ==> {
                    let p = participants@[order@[j] as int];
                    &&& (#[trigger] rows@[j]).rank == rank_at(keys@, order@, j)
                    &&& rows@[j].user_id == p.user_id
                    &&& rows@[j].username@ == p.username@
                    &&& rows@[j].solved == keys@[order@[j] as int].solved
                    &&& rows@[j].penalty == keys@[order@[j] as int].penalty
                    &&& rows@[j].problems@ == src@.marked(p.user_id, src.problem_ids@.len() as int)
                },
        decreases order@.len() - k,
    {
        let at: usize = order[k];
        let tie = if k > 0 {
            let above: usize = order[k - 1];
            keys[at].solved == keys[above].solved && keys[at].penalty == keys[above].penalty
        } else {
            false
        };
        if !tie {
            rank = k + 1;
        }
        let user: i32 = participants[at].user_id;
        let cells = row_cells(src, user);
        rows.push(
            StandingsEntry {
                rank,
                user_id: user,
                username: participants[at].username.clone(),
                solved: keys[at].solved,
                penalty: keys[at].penalty,
                problems: cells,
            },
        );
        k += 1;
    }
    assert(rows_are(rows@, src@, participants@, keys@, order@));
    rows
}

// ---------------------------------------------------------------------------
// The whole board
// ---------------------------------------------------------------------------

/// The submissions that count on this board (`live`), or those that it hides.
pub open spec fn split_part(
    subs: Seq<StandingsSubmission>,
    freeze_start_ms: i64,
    own: Option<i32>,
    counted: bool,
) -> Seq<StandingsSubmission>
    decreases subs.len(),
{
    if subs.len() == 0 {
        seq![]
    } else {
        let rest = split_part(subs.drop_last(), freeze_start_ms, own, counted);
        if standings::live(subs.last(), freeze_start_ms, own) == counted {
            rest.push(subs.last())
        } else {
            rest
        }
    }
}

fn split(subs: Vec<StandingsSubmission>, freeze_start_ms: i64, own: Option<i32>) -> (r: (
    Vec<StandingsSubmission>,
    Vec<StandingsSubmission>,
))
    ensures
        r.0@ == split_part(subs@, freeze_start_ms, own, true),
        r.1@ == split_part(subs@, freeze_start_ms, own, false),
{
    let ghost all = subs@;
    let mut rest = subs;
    let mut counted_back: Vec<StandingsSubmission> = Vec::new();
    let mut hidden_back: Vec<StandingsSubmission> = Vec::new();
    proof {
        assert(all.skip(all.len() as int) =~= Seq::<StandingsSubmission>::empty());
        assert(rest@ =~= all.take(rest@.len() as int));
    }
    assert(counted_back@.reverse() =~= Seq::<StandingsSubmission>::empty());
    assert(hidden_back@.reverse() =~= Seq::<StandingsSubmission>::empty());
    assert(split_part(all, freeze_start_ms, own, true) =~= split_part(
        rest@,
        freeze_start_ms,
        own,
        true,
    ) + counted_back@.reverse());
    assert(split_part(all, freeze_start_ms, own, false) =~= split_part(
        rest@,
        freeze_start_ms,
        own,
        false,
    ) + hidden_back@.reverse());
    while rest.len() > 0
        invariant
            split_part(all, freeze_start_ms, own, true) == split_part(
                rest@,
                freeze_start_ms,
                own,
                true,
            ) + counted_back@.reverse(),
            split_part(all, freeze_start_ms, own, false) == split_part(
                rest@,
                freeze_start_ms,
                own,
                false,
            ) + hidden_back@.reverse(),
        decreases rest@.len(),
    {
        let ghost before = rest@;
        let ghost c0 = counted_back@;
        let ghost h0 = hidden_back@;
        match rest.pop() {
            Some(s) => {
                assert(rest@ =~= before.drop_last());
                if counts_as_live(&s, freeze_start_ms, own) {
                    counted_back.push(s);
                    assert(counted_back@.reverse() =~= seq![s] + c0.reverse());
                } else {
                    hidden_back.push(s);
                    assert(hidden_back@.reverse() =~= seq![s] + h0.reverse());
                }
                assert(split_part(before, freeze_start_ms, own, true) + c0.reverse()
                    =~= split_part(rest@, freeze_start_ms, own, true) + counted_back@.reverse());
                assert(split_part(before, freeze_start_ms, own, false) + h0.reverse()
                    =~= split_part(rest@, freeze_start_ms, own, false) + hidden_back@.reverse());
            },
            None => {},
        }
    }
    let counted = reversed(counted_back);
    let hidden = reversed(hidden_back);
    assert(counted@ =~= split_part(all, freeze_start_ms, own, true));
    assert(hidden@ =~= split_part(all, freeze_start_ms, own, false));
    (counted, hidden)
}

fn reversed(v: Vec<StandingsSubmission>) -> (r: Vec<StandingsSubmission>)
    ensures
        r@ == v@.reverse(),
{
    let ghost all = v@;
    let mut v = v;
    let mut out: Vec<StandingsSubmission> = Vec::new();
    while v.len() > 0
        invariant
            all.reverse() == out@ + v@.reverse(),
        decreases v@.len(),
    {
        let ghost before = v@;
        let ghost o0 = out@;
        match v.pop() {
            Some(s) => {
                out.push(s);
                assert(v@ =~= before.drop_last());
                assert(o0 + before.reverse() =~= out@ + v@.reverse());
            },
            None => {},
        }
    }
    assert(out@ =~= all.reverse());
    out
}

/// What the standings of a contest answer.
#[derive(Debug)]
pub struct Board {
    pub frozen: bool,
    pub can_reveal: bool,
    pub labels: Vec<String>,
    pub rows: Vec<StandingsEntry>,
}

/// Who looks at the board, and when.
#[derive(Debug, Clone, Copy, PartialEq, Eq, Structural)]
pub struct Viewing {
    pub can_view_all: bool,
    pub revealed: bool,
    pub duration_ms: i64,
    pub now_elapsed_ms: i64,
    pub own_user_id: Option<i32>,
    /// Whether only the own submissions were read.
    pub restricted: bool,
}

pub open spec fn ids_of(problems: Seq<ContestProblem>) -> Seq<i32> {
    problems.map_values(|p: ContestProblem| p.problem_id)
}

/// The board is built from the submissions that count: states, marks and first
/// solves come from the two parts of the split, and the rows from those.
pub open spec fn board_rows(
    rows: Seq<StandingsEntry>,
    src: RowModel,
    config: ContestConfig,
    start: i64,
    v: Viewing,
    problems: Seq<ContestProblem>,
    participants: Seq<Participant>,
    subs: Seq<StandingsSubmission>,
) -> bool {
    &&& src.ids == ids_of(problems)
    &&& src.labels == labels_of(problems)
    &&& src.penalty_minutes == config.penalty_minutes
    &&& standings::states_are(
        src.states,
        split_part(subs, start, v.own_user_id, true),
        config.count_compile_error,
    )
    &&& standings::pending_is(
        src.pending,
        split_part(subs, start, v.own_user_id, false),
        src.states,
    )
    &&& standings::first_solvers_are(src.first, src.states, v.restricted)
    &&& exists|keys: Seq<RowKey>, order: Seq<usize>| #[trigger]
        rows_are(rows, src, participants, keys, order)
}

/// The board that a viewer sees.
pub open spec fn board_is(
    r: Board,
    config: ContestConfig,
    phase: Seq<char>,
    viewing: Viewing,
    problems: Seq<ContestProblem>,
    participants: Seq<Participant>,
    subs: Seq<StandingsSubmission>,
) -> bool {
    let view = config::view_of(
        config.freeze_minutes as int,
        phase,
        viewing.can_view_all,
        viewing.revealed,
        viewing.duration_ms as int,
        viewing.now_elapsed_ms as int,
    );
    &&& r.frozen == view.frozen
    &&& r.can_reveal == view.can_reveal
    &&& text::views(r.labels@) == labels_of(problems)
    &&& exists|src: RowModel| #[trigger]
        board_rows(
            r.rows@,
            src,
            config,
            view.freeze_start_ms,
            viewing,
            problems,
            participants,
            subs,
        )
}

proof fn lemma_part_of_pair(
    subs: Seq<StandingsSubmission>,
    freeze_start_ms: i64,
    own: Option<i32>,
    key: (i32, i32),
)
    ensures
        standings::pair_count(split_part(subs, freeze_start_ms, own, false), key)
            <= standings::pair_count(subs, key),
    decreases subs.len(),
{
    if subs.len() > 0 {
        let rest = split_part(subs.drop_last(), freeze_start_ms, own, false);
        lemma_part_of_pair(subs.drop_last(), freeze_start_ms, own, key);
        assert(rest.push(subs.last()).drop_last() =~= rest);
    }
}

/// Builds the board that a viewer sees.
pub fn build_board(
    config: &ContestConfig,
    phase: &str,
    viewing: Viewing,
    problems: &Vec<ContestProblem>,
    participants: &Vec<Participant>,
    submissions: Vec<StandingsSubmission>,
) -> (r: Board)
    requires
        config::window_fits(config.freeze_minutes as int, viewing.duration_ms as int),
        standings::pairs_fit(submissions@),
    ensures
        board_is(r, *config, phase@, viewing, problems@, participants@, submissions@),
{
    let view = freeze_view(
        config.freeze_minutes,
        phase,
        viewing.can_view_all,
        viewing.revealed,
        viewing.duration_ms,
        viewing.now_elapsed_ms,
    );
    let labels = problem_labels(problems);
    let mut problem_ids: Vec<i32> = Vec::new();
    let mut i: usize = 0;
    while i < problems.len()
        invariant
            i <= problems@.len(),
            problem_ids@ == ids_of(problems@).take(i as int),
        decreases problems@.len() - i,
    {
        problem_ids.push(problems[i].problem_id);
        assert(ids_of(problems@).take(i as int + 1) =~= ids_of(problems@).take(i as int).push(
            problems@[i as int].problem_id,
        ));
        i += 1;
    }
    assert(ids_of(problems@).take(i as int) =~= ids_of(problems@));
    let (counted, hidden) = split(submissions, view.freeze_start_ms, viewing.own_user_id);
    let states = compute_problem_states(counted.as_slice(), config.count_compile_error);
    proof {
        assert forall|key: (i32, i32)| #[trigger]
            standings::mark_count(hidden@, states@, key, hidden@.len() as int) <= i32::MAX by {
            standings::marks_are_submissions(hidden@, states@, key);
            lemma_part_of_pair(submissions@, view.freeze_start_ms, viewing.own_user_id, key);
            assert(standings::pair_count(submissions@, key) <= i32::MAX);
        }
    }
    let pending = compute_pending(hidden.as_slice(), &states);
    let first = compute_first_solvers(&states, viewing.restricted);
    assert(text::views(labels@).len() == labels@.len());
    let src = RowSource {
        problem_ids: &problem_ids,
        labels: &labels,
        states: &states,
        pending: &pending,
        first: &first,
        penalty_minutes: config.penalty_minutes,
    };
    let rows = standings_rows(&src, participants);
    let ghost model = src@;
    assert(board_rows(
        rows@,
        model,
        *config,
        view.freeze_start_ms,
        viewing,
        problems@,
        participants@,
        submissions@,
    ));
    let board = Board { frozen: view.frozen, can_reveal: view.can_reveal, labels, rows };
    assert(board.rows@ == rows@);
    assert(view == config::view_of(
        config.freeze_minutes as int,
        phase@,
        viewing.can_view_all,
        viewing.revealed,
        viewing.duration_ms as int,
        viewing.now_elapsed_ms as int,
    ));
    assert(board_rows(
        board.rows@,
        model,
        *config,
        view.freeze_start_ms,
        viewing,
        problems@,
        participants@,
        submissions@,
    ));
    board
}

/// Where every contestant read is one user, every row is that user's; and where
/// the view is restricted, none marks a first solve.
pub proof fn restricted_boards_show_no_more(
    r: Board,
    config: ContestConfig,
    phase: Seq<char>,
    viewing: Viewing,
    problems: Seq<ContestProblem>,
    participants: Seq<Participant>,
    subs: Seq<StandingsSubmission>,
    user: i32,
    k: int,
)
    requires
        board_is(r, config, phase, viewing, problems, participants, subs),
        forall|i: int| 0 <= i < participants.len() ==> (#[trigger] participants[i]).user_id == user,
        0 <= k < r.rows@.len(),
    ensures
        r.rows@[k].user_id == user,
        viewing.restricted ==> forall|label: Seq<char>| #[trigger]
            r.rows@[k].problems@.contains_key(label) ==> r.rows@[k].problems@[label].first_solve
                is None,
{
    let view = config::view_of(
        config.freeze_minutes as int,
        phase,
        viewing.can_view_all,
        viewing.revealed,
        viewing.duration_ms as int,
        viewing.now_elapsed_ms as int,
    );
    let src = choose|src: RowModel| #[trigger]
        board_rows(
            r.rows@,
            src,
            config,
            view.freeze_start_ms,
            viewing,
            problems,
            participants,
            subs,
        );
    let (keys, order) = choose|keys: Seq<RowKey>, order: Seq<usize>| #[trigger]
        rows_are(r.rows@, src, participants, keys, order);
    let row = r.rows@[k];
    assert(participants[order[k] as int].user_id == user);
    if viewing.restricted {
        assert forall|label: Seq<char>| #[trigger]
            row.problems@.contains_key(label) implies row.problems@[label].first_solve is None by {
            lemma_unmarked(src, user, src.ids.len() as int, label);
        }
    }
}

proof fn lemma_unmarked(src: RowModel, user: i32, n: int, label: Seq<char>)
    requires
        src.first == Map::<i32, i32>::empty(),
    ensures
        src.marked(user, n) == src.cells(user, src.ids.len() as int),
        src.marked(user, n).contains_key(label) ==> src.marked(user, n)[label].first_solve is None,
    decreases n,
{
    if n > 0 {
        lemma_unmarked(src, user, n - 1, label);
    } else {
        lemma_cells_unmarked(src, user, src.ids.len() as int, label);
    }
}

proof fn lemma_cells_unmarked(src: RowModel, user: i32, n: int, label: Seq<char>)
    ensures
        src.cells(user, n).contains_key(label) ==> src.cells(user, n)[label].first_solve is None,
    decreases n,
{
    if n > 0 {
        lemma_cells_unmarked(src, user, n - 1, label);
    }
}

/// A board that is not frozen hides no submission.
pub proof fn unfrozen_board_counts_everything(
    subs: Seq<StandingsSubmission>,
    own: Option<i32>,
)
    requires
        forall|i: int| 0 <= i < subs.len() ==> (#[trigger] subs[i]).elapsed_ms < i64::MAX,
    ensures
        split_part(subs, i64::MAX, own, true) == subs,
        split_part(subs, i64::MAX, own, false).len() == 0,
    decreases subs.len(),
{
    if subs.len() > 0 {
        let rest = subs.drop_last();
        assert forall|i: int| 0 <= i < rest.len() implies (#[trigger] rest[i]).elapsed_ms
            < i64::MAX by {
            assert(subs[i].elapsed_ms < i64::MAX);
        }
        unfrozen_board_counts_everything(rest, own);
        assert(subs[subs.len() - 1].elapsed_ms < i64::MAX);
        assert(subs =~= rest.push(subs.last()));
    } else {
        assert(split_part(subs, i64::MAX, own, true) =~= subs);
    }
}

} // verus!
