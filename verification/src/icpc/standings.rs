//! Where each contestant stands on each problem.

use std::collections::HashMap;

use vstd::prelude::*;

use crate::icpc::config::ProblemState;
use crate::pairs::PairMap;
use crate::text::str_eq;
use crate::verdict::Verdict;

verus! {

/// A finalized submission of a contest.
#[derive(Debug, Clone, PartialEq, Eq)]
pub struct StandingsSubmission {
    pub submission_id: i32,
    pub user_id: i32,
    pub problem_id: i32,
    pub verdict: Option<Verdict>,
    pub status: String,
    pub elapsed_ms: i64,
}

impl StandingsSubmission {
    pub open spec fn key(self) -> (i32, i32) {
        (self.user_id, self.problem_id)
    }

    pub open spec fn accepted(self) -> bool {
        self.verdict == Some(Verdict::Accepted)
    }

    /// The judge failed, not the contestant.
    pub open spec fn judge_failed(self) -> bool {
        self.status@ == "SystemError"@ || self.verdict == Some(Verdict::SystemError)
    }

    pub open spec fn did_not_compile(self) -> bool {
        self.status@ == "CompilationError"@ || self.verdict == Some(Verdict::CompileError)
    }

    /// Whether it costs a penalty: it was judged and rejected. A compilation
    /// error does where the contest counts it.
    pub open spec fn penalized(self, count_compile_error: bool) -> bool {
        if self.judge_failed() {
            false
        } else if self.did_not_compile() {
            count_compile_error
        } else {
            !self.accepted() && self.verdict != Some(Verdict::Skipped) && self.verdict != Some(
                Verdict::Cancelled,
            )
        }
    }
}

fn system_error(row: &StandingsSubmission) -> (r: bool)
    ensures
        r == row.judge_failed(),
{
    str_eq(row.status.as_str(), "SystemError") || row.verdict == Some(Verdict::SystemError)
}

pub fn is_penalty_attempt(row: &StandingsSubmission, count_compile_error: bool) -> (r: bool)
    ensures
        r == row.penalized(count_compile_error),
{
    if system_error(row) {
        return false;
    }
    if str_eq(row.status.as_str(), "CompilationError") || row.verdict == Some(
        Verdict::CompileError,
    ) {
        return count_compile_error;
    }
    !(row.verdict == Some(Verdict::Accepted) || row.verdict == Some(Verdict::Skipped)
        || row.verdict == Some(Verdict::Cancelled))
}

// ---------------------------------------------------------------------------
// One contestant on one problem
// ---------------------------------------------------------------------------

/// Submission `i` comes before `j`: by time, then by id, then as listed.
pub open spec fn earlier(subs: Seq<StandingsSubmission>, i: int, j: int) -> bool {
    let a = subs[i];
    let b = subs[j];
    ||| a.elapsed_ms < b.elapsed_ms
    ||| a.elapsed_ms == b.elapsed_ms && a.submission_id < b.submission_id
    ||| a.elapsed_ms == b.elapsed_ms && a.submission_id == b.submission_id && i < j
}

/// The first accepted submission of this contestant on this problem.
pub open spec fn first_accepted(
    subs: Seq<StandingsSubmission>,
    key: (i32, i32),
    a: int,
) -> bool {
    &&& 0 <= a < subs.len()
    &&& subs[a].key() == key
    &&& subs[a].accepted()
    &&& forall|i: int|
        0 <= i < subs.len() && i != a && (#[trigger] subs[i]).key() == key && subs[i].accepted()
            ==> earlier(subs, a, i)
}

/// How many of the first `n` submissions cost this contestant a penalty on
/// this problem: those before submission `stop`, or all where there is none.
pub open spec fn penalties_before(
    subs: Seq<StandingsSubmission>,
    key: (i32, i32),
    count_compile_error: bool,
    stop: Option<int>,
    n: int,
) -> nat
    decreases n,
{
    if n <= 0 {
        0
    } else {
        let rest = penalties_before(subs, key, count_compile_error, stop, n - 1);
        let s = subs[n - 1];
        let counts = s.key() == key && s.penalized(count_compile_error) && match stop {
            Some(a) => earlier(subs, n - 1, a),
            None => true,
        };
        if counts {
            rest + 1
        } else {
            rest
        }
    }
}

/// The state that these submissions give this contestant on this problem.
pub open spec fn state_is(
    state: ProblemState,
    subs: Seq<StandingsSubmission>,
    key: (i32, i32),
    count_compile_error: bool,
) -> bool {
    ||| exists|a: int| #[trigger]
        first_accepted(subs, key, a) && state == (ProblemState {
            attempts: penalties_before(
                subs,
                key,
                count_compile_error,
                Some(a),
                subs.len() as int,
            ) as i32,
            solved: true,
            solve_time_ms: Some(
                if subs[a].elapsed_ms > 0 {
                    subs[a].elapsed_ms
                } else {
                    0
                },
            ),
        })
    ||| (forall|i: int|
        0 <= i < subs.len() && (#[trigger] subs[i]).key() == key ==> !subs[i].accepted()) && state
        == (ProblemState {
        attempts: penalties_before(
            subs,
            key,
            count_compile_error,
            None,
            subs.len() as int,
        ) as i32,
        solved: false,
        solve_time_ms: None,
    })
}

fn comes_before(subs: &[StandingsSubmission], i: usize, j: usize) -> (r: bool)
    requires
        i < subs@.len(),
        j < subs@.len(),
    ensures
        r == earlier(subs@, i as int, j as int),
{
    let a = &subs[i];
    let b = &subs[j];
    a.elapsed_ms < b.elapsed_ms || (a.elapsed_ms == b.elapsed_ms && (a.submission_id
        < b.submission_id || (a.submission_id == b.submission_id && i < j)))
}

fn first_accepted_of(subs: &[StandingsSubmission], key: (i32, i32)) -> (r: Option<usize>)
    ensures
        match r {
            Some(a) => first_accepted(subs@, key, a as int),
            None => forall|i: int|
                0 <= i < subs@.len() && (#[trigger] subs@[i]).key() == key ==> !subs@[i].accepted(),
        },
{
    let mut best: Option<usize> = None;
    let mut i: usize = 0;
    while i < subs.len()
        invariant
            i <= subs@.len(),
            match best {
                Some(a) => {
                    &&& a < i
                    &&& subs@[a as int].key() == key
                    &&& subs@[a as int].accepted()
                    &&& forall|j: int|
                        0 <= j < i && j != a && (#[trigger] subs@[j]).key() == key
                            && subs@[j].accepted() ==> earlier(subs@, a as int, j)
                },
                None => forall|j: int|
                    0 <= j < i && (#[trigger] subs@[j]).key() == key ==> !subs@[j].accepted(),
            },
        decreases subs@.len() - i,
    {
        let s = &subs[i];
        if s.user_id == key.0 && s.problem_id == key.1 && s.verdict == Some(Verdict::Accepted) {
            match best {
                None => {
                    best = Some(i);
                },
                Some(a) => {
                    if comes_before(subs, i, a) {
                        best = Some(i);
                    }
                },
            }
        }
        i += 1;
    }
    best
}

/// This contestant's state on this problem.
pub fn problem_state(
    subs: &[StandingsSubmission],
    key: (i32, i32),
    count_compile_error: bool,
) -> (r: ProblemState)
    ensures
        state_is(r, subs@, key, count_compile_error),
{
    let first = first_accepted_of(subs, key);
    let ghost stop: Option<int> = match first {
        Some(a) => Some(a as int),
        None => None,
    };
    let mut attempts: usize = 0;
    let mut i: usize = 0;
    while i < subs.len()
        invariant
            i <= subs@.len(),
            attempts <= i,
            match first {
                Some(a) => a < subs@.len() && stop == Some(a as int),
                None => stop == None::<int>,
            },
            attempts == penalties_before(subs@, key, count_compile_error, stop, i as int),
        decreases subs@.len() - i,
    {
        let s = &subs[i];
        if s.user_id == key.0 && s.problem_id == key.1 && is_penalty_attempt(
            s,
            count_compile_error,
        ) {
            let before = match first {
                Some(a) => comes_before(subs, i, a),
                None => true,
            };
            if before {
                attempts += 1;
            }
        }
        i += 1;
    }
    match first {
        Some(a) => {
            let t: i64 = subs[a].elapsed_ms;
            let state = ProblemState {
                attempts: #[verifier::truncate]
                (attempts as i32),
                solved: true,
                solve_time_ms: Some(
                    if t > 0 {
                        t
                    } else {
                        0
                    },
                ),
            };
            assert(first_accepted(subs@, key, a as int));
            state
        },
        None => ProblemState {
            attempts: #[verifier::truncate]
            (attempts as i32),
            solved: false,
            solve_time_ms: None,
        },
    }
}

/// Some submission is of this contestant on this problem.
pub open spec fn submitted(subs: Seq<StandingsSubmission>, key: (i32, i32)) -> bool {
    exists|i: int| 0 <= i < subs.len() && (#[trigger] subs[i]).key() == key
}

/// The states of all contestants on all problems that they submitted to.
pub open spec fn states_are(
    states: Map<(i32, i32), ProblemState>,
    subs: Seq<StandingsSubmission>,
    count_compile_error: bool,
) -> bool {
    forall|key: (i32, i32)|
        {
            &&& #[trigger] states.contains_key(key) <==> submitted(subs, key)
            &&& states.contains_key(key) ==> state_is(states[key], subs, key, count_compile_error)
        }
}

pub fn compute_problem_states(
    submissions: &[StandingsSubmission],
    count_compile_error: bool,
) -> (r: PairMap<ProblemState>)
    ensures
        states_are(r@, submissions@, count_compile_error),
{
    let mut states: PairMap<ProblemState> = PairMap::new();
    let mut i: usize = 0;
    while i < submissions.len()
        invariant
            i <= submissions@.len(),
            forall|key: (i32, i32)|
                {
                    &&& #[trigger] states@.contains_key(key) <==> submitted(
                        submissions@.take(i as int),
                        key,
                    )
                    &&& states@.contains_key(key) ==> state_is(
                        states@[key],
                        submissions@,
                        key,
                        count_compile_error,
                    )
                },
        decreases submissions@.len() - i,
    {
        let key = (submissions[i].user_id, submissions[i].problem_id);
        let ghost prior = submissions@.take(i as int);
        let ghost more = submissions@.take(i as int + 1);
        proof {
            assert(more[i as int].key() == key);
            assert forall|k: (i32, i32)| #[trigger] submitted(more, k) <==> (submitted(prior, k)
                || k == key) by {
                if submitted(prior, k) {
                    let j = choose|j: int| 0 <= j < prior.len() && (#[trigger] prior[j]).key() == k;
                    assert(more[j].key() == k);
                }
                if submitted(more, k) {
                    let j = choose|j: int| 0 <= j < more.len() && (#[trigger] more[j]).key() == k;
                    if j < i {
                        assert(prior[j].key() == k);
                    }
                }
            }
        }
        if !states.contains_key(key) {
            let state = problem_state(submissions, key, count_compile_error);
            states.insert_new(key, state);
        }
        i += 1;
    }
    assert(submissions@.take(i as int) =~= submissions@);
    states
}

/// An unsolved problem never shows a time, and a solved one always does.
pub proof fn solved_exactly_with_a_time(
    state: ProblemState,
    subs: Seq<StandingsSubmission>,
    key: (i32, i32),
    count_compile_error: bool,
)
    requires
        state_is(state, subs, key, count_compile_error),
    ensures
        state.solved <==> state.solve_time_ms is Some,
        state.solved <==> exists|i: int|
            0 <= i < subs.len() && (#[trigger] subs[i]).key() == key && subs[i].accepted(),
        state.solve_time_ms matches Some(t) ==> t >= 0,
{
}

// ---------------------------------------------------------------------------
// The freeze
// ---------------------------------------------------------------------------

/// Whether a submission counts on a board that is frozen from
/// `freeze_start_ms` on: it was made before, or it is the viewer's own.
pub open spec fn live(
    sub: StandingsSubmission,
    freeze_start_ms: i64,
    own_user_id: Option<i32>,
) -> bool {
    sub.elapsed_ms < freeze_start_ms || own_user_id == Some(sub.user_id)
}

pub fn counts_as_live(
    sub: &StandingsSubmission,
    freeze_start_ms: i64,
    own_user_id: Option<i32>,
) -> (r: bool)
    ensures
        r == live(*sub, freeze_start_ms, own_user_id),
{
    sub.elapsed_ms < freeze_start_ms || match own_user_id {
        Some(id) => id == sub.user_id,
        None => false,
    }
}

/// A contestant's own submissions are never frozen to them.
pub proof fn own_submissions_stay_live(sub: StandingsSubmission, freeze_start_ms: i64)
    ensures
        live(sub, freeze_start_ms, Some(sub.user_id)),
{
}

/// Whether a frozen submission leaves a mark: the judge did not fail, and the
/// problem was not solved before.
pub open spec fn leaves_mark(
    s: StandingsSubmission,
    states: Map<(i32, i32), ProblemState>,
) -> bool {
    !s.judge_failed() && !(states.contains_key(s.key()) && states[s.key()].solved)
}

/// How many marks the first `n` submissions leave under a key.
pub open spec fn mark_count(
    subs: Seq<StandingsSubmission>,
    states: Map<(i32, i32), ProblemState>,
    key: (i32, i32),
    n: int,
) -> nat
    decreases n,
{
    if n <= 0 {
        0
    } else if subs[n - 1].key() == key && leaves_mark(subs[n - 1], states) {
        mark_count(subs, states, key, n - 1) + 1
    } else {
        mark_count(subs, states, key, n - 1)
    }
}

/// A 32-bit number counts the marks under each key.
pub open spec fn marks_fit(
    subs: Seq<StandingsSubmission>,
    states: Map<(i32, i32), ProblemState>,
) -> bool {
    forall|key: (i32, i32)| #[trigger]
        mark_count(subs, states, key, subs.len() as int) <= i32::MAX
}

/// The pending marks: under each key with one, how many.
pub open spec fn pending_is(
    pending: Map<(i32, i32), i32>,
    subs: Seq<StandingsSubmission>,
    states: Map<(i32, i32), ProblemState>,
) -> bool {
    forall|key: (i32, i32)|
        {
            let n = mark_count(subs, states, key, subs.len() as int);
            &&& #[trigger] pending.contains_key(key) <==> n > 0
            &&& pending.contains_key(key) ==> pending[key] == n
        }
}

pub fn compute_pending(
    freeze_submissions: &[StandingsSubmission],
    pre_freeze_states: &PairMap<ProblemState>,
) -> (r: PairMap<i32>)
    requires
        marks_fit(freeze_submissions@, pre_freeze_states@),
    ensures
        pending_is(r@, freeze_submissions@, pre_freeze_states@),
{
    let ghost states = pre_freeze_states@;
    let mut pending: PairMap<i32> = PairMap::new();
    let mut i: usize = 0;
    while i < freeze_submissions.len()
        invariant
            i <= freeze_submissions@.len(),
            states == pre_freeze_states@,
            marks_fit(freeze_submissions@, states),
            forall|key: (i32, i32)|
                {
                    let n = mark_count(freeze_submissions@, states, key, i as int);
                    &&& #[trigger] pending@.contains_key(key) <==> n > 0
                    &&& pending@.contains_key(key) ==> pending@[key] == n
                },
        decreases freeze_submissions@.len() - i,
    {
        let s = &freeze_submissions[i];
        let key = (s.user_id, s.problem_id);
        proof {
            assert(freeze_submissions@[i as int].key() == key);
            lemma_marks_grow(
                freeze_submissions@,
                states,
                key,
                i as int + 1,
                freeze_submissions@.len() as int,
            );
            assert(pending@.contains_key(key) <==> mark_count(
                freeze_submissions@,
                states,
                key,
                i as int,
            ) > 0);
        }
        let ghost before = pending@;
        if !system_error(s) {
            let solved = match pre_freeze_states.get(&key) {
                Some(state) => state.solved,
                None => false,
            };
            if !solved {
                pending.add_one(key);
            }
        }
        proof {
            assert forall|k: (i32, i32)|
                {
                    let n = mark_count(freeze_submissions@, states, k, i as int + 1);
                    &&& #[trigger] pending@.contains_key(k) <==> n > 0
                    &&& pending@.contains_key(k) ==> pending@[k] == n
                } by {
                assert(before.contains_key(k) <==> mark_count(
                    freeze_submissions@,
                    states,
                    k,
                    i as int,
                ) > 0);
            }
        }
        i += 1;
    }
    pending
}

proof fn lemma_marks_grow(
    subs: Seq<StandingsSubmission>,
    states: Map<(i32, i32), ProblemState>,
    key: (i32, i32),
    n: int,
    m: int,
)
    requires
        n <= m,
    ensures
        mark_count(subs, states, key, n) <= mark_count(subs, states, key, m),
    decreases m - n,
{
    if n < m {
        lemma_marks_grow(subs, states, key, n, m - 1);
    }
}

/// How many of the submissions are under a key.
pub open spec fn pair_count(subs: Seq<StandingsSubmission>, key: (i32, i32)) -> nat
    decreases subs.len(),
{
    if subs.len() == 0 {
        0
    } else if subs.last().key() == key {
        pair_count(subs.drop_last(), key) + 1
    } else {
        pair_count(subs.drop_last(), key)
    }
}

/// No contestant has more submissions to one problem than a 32-bit number
/// counts.
pub open spec fn pairs_fit(subs: Seq<StandingsSubmission>) -> bool {
    forall|key: (i32, i32)| #[trigger] pair_count(subs, key) <= i32::MAX
}

/// A list that a 32-bit number counts has no pair that one does not.
pub proof fn short_lists_fit(subs: Seq<StandingsSubmission>)
    requires
        subs.len() <= i32::MAX,
    ensures
        pairs_fit(subs),
{
    assert forall|key: (i32, i32)| #[trigger] pair_count(subs, key) <= i32::MAX by {
        lemma_pair_bound(subs, key);
    }
}

proof fn lemma_pair_bound(subs: Seq<StandingsSubmission>, key: (i32, i32))
    ensures
        pair_count(subs, key) <= subs.len(),
    decreases subs.len(),
{
    if subs.len() > 0 {
        lemma_pair_bound(subs.drop_last(), key);
    }
}

/// A pair has no more pending marks than submissions.
pub proof fn marks_are_submissions(
    subs: Seq<StandingsSubmission>,
    states: Map<(i32, i32), ProblemState>,
    key: (i32, i32),
)
    ensures
        mark_count(subs, states, key, subs.len() as int) <= pair_count(subs, key),
    decreases subs.len(),
{
    if subs.len() > 0 {
        let rest = subs.drop_last();
        marks_are_submissions(rest, states, key);
        lemma_marks_of_prefix(subs, states, key, rest.len() as int);
    }
}

proof fn lemma_marks_of_prefix(
    subs: Seq<StandingsSubmission>,
    states: Map<(i32, i32), ProblemState>,
    key: (i32, i32),
    n: int,
)
    requires
        n < subs.len(),
    ensures
        mark_count(subs, states, key, n) == mark_count(subs.drop_last(), states, key, n),
    decreases n,
{
    if n > 0 {
        lemma_marks_of_prefix(subs, states, key, n - 1);
    }
}

/// A problem that was solved before the freeze shows no pending mark.
pub proof fn solved_problems_have_no_marks(
    pending: Map<(i32, i32), i32>,
    subs: Seq<StandingsSubmission>,
    states: Map<(i32, i32), ProblemState>,
    key: (i32, i32),
)
    requires
        pending_is(pending, subs, states),
        states.contains_key(key),
        states[key].solved,
    ensures
        !pending.contains_key(key),
{
    lemma_no_marks(subs, states, key, subs.len() as int);
    assert(pending.contains_key(key) <==> mark_count(subs, states, key, subs.len() as int) > 0);
}

proof fn lemma_no_marks(
    subs: Seq<StandingsSubmission>,
    states: Map<(i32, i32), ProblemState>,
    key: (i32, i32),
    n: int,
)
    requires
        states.contains_key(key),
        states[key].solved,
    ensures
        mark_count(subs, states, key, n) == 0,
    decreases n,
{
    if n > 0 {
        lemma_no_marks(subs, states, key, n - 1);
    }
}

// ---------------------------------------------------------------------------
// First to solve
// ---------------------------------------------------------------------------

pub open spec fn solves(states: Map<(i32, i32), ProblemState>, user: i32, problem: i32) -> bool {
    states.contains_key((user, problem)) && states[(user, problem)].solved
}

pub open spec fn solve_ms(states: Map<(i32, i32), ProblemState>, user: i32, problem: i32) -> i64 {
    match states[(user, problem)].solve_time_ms {
        Some(t) => t,
        None => i64::MAX,
    }
}

/// Contestant `u` solved the problem no later than `w`; of two at the same
/// time the smaller id is first.
pub open spec fn no_later(
    states: Map<(i32, i32), ProblemState>,
    problem: i32,
    u: i32,
    w: i32,
) -> bool {
    let t = solve_ms(states, u, problem);
    let s = solve_ms(states, w, problem);
    t < s || (t == s && u <= w)
}

/// The contestant who solved the problem first.
pub open spec fn is_first_solver(
    states: Map<(i32, i32), ProblemState>,
    problem: i32,
    user: i32,
) -> bool {
    &&& solves(states, user, problem)
    &&& forall|w: i32| #[trigger]
        solves(states, w, problem) ==> no_later(states, problem, user, w)
}

/// The first solver of every problem that somebody solved. A restricted view
/// shows none: it does not know what others solved.
pub open spec fn first_solvers_are(
    first: Map<i32, i32>,
    states: Map<(i32, i32), ProblemState>,
    restricted: bool,
) -> bool {
    if restricted {
        first == Map::<i32, i32>::empty()
    } else {
        forall|p: i32|
            {
                &&& #[trigger] first.contains_key(p) <==> exists|u: i32| solves(states, u, p)
                &&& first.contains_key(p) ==> is_first_solver(states, p, first[p])
            }
    }
}

fn time_of(states: &PairMap<ProblemState>, user: i32, problem: i32) -> (r: i64)
    requires
        states@.contains_key((user, problem)),
    ensures
        r == solve_ms(states@, user, problem),
{
    match states.get(&(user, problem)) {
        Some(state) => match state.solve_time_ms {
            Some(t) => t,
            None => i64::MAX,
        },
        None => i64::MAX,
    }
}

/// Entry `j` of the listing is a solve of problem `p`.
pub open spec fn entry_solves(
    listing: Seq<((i32, i32), ProblemState)>,
    j: int,
    p: i32,
) -> bool {
    listing[j].0.1 == p && listing[j].1.solved
}

#[verifier::loop_isolation(false)]
pub fn compute_first_solvers(states: &PairMap<ProblemState>, restricted: bool) -> (r: HashMap<
    i32,
    i32,
>)
    ensures
        first_solvers_are(r@, states@, restricted),
{
    broadcast use vstd::std_specs::hash::group_hash_axioms;

    let mut first: HashMap<i32, i32> = HashMap::new();
    if restricted {
        assert(first@ =~= Map::<i32, i32>::empty());
        return first;
    }
    let ghost m = states@;
    let ghost listing = states.listing();
    let n: usize = states.len();
    let mut i: usize = 0;
    while i < n
        invariant
            i <= n,
            forall|p: i32|
                {
                    &&& #[trigger] first@.contains_key(p) <==> exists|j: int|
                        0 <= j < i && #[trigger] entry_solves(listing, j, p)
                    &&& first@.contains_key(p) ==> solves(m, first@[p], p)
                    &&& first@.contains_key(p) ==> forall|j: int|
                        0 <= j < i && #[trigger] entry_solves(listing, j, p) ==> no_later(
                            m,
                            p,
                            first@[p],
                            listing[j].0.0,
                        )
                },
        decreases n - i,
    {
        let (key, state) = states.entry(i);
        let user: i32 = key.0;
        let problem: i32 = key.1;
        let ghost before = first@;
        assert(m.contains_key((user, problem)) && m[(user, problem)] == *state);
        if state.solved {
            assert(entry_solves(listing, i as int, problem));
            assert(before.contains_key(problem) <==> exists|j: int|
                0 <= j < i && #[trigger] entry_solves(listing, j, problem));
            let better = match first.get(&problem) {
                None => true,
                Some(current) => {
                    let held: i32 = *current;
                    let t: i64 = time_of(states, user, problem);
                    let s: i64 = time_of(states, held, problem);
                    t < s || (t == s && user < held)
                },
            };
            if better {
                first.insert(problem, user);
            }
        }
        proof {
            assert forall|p: i32|
                {
                    &&& #[trigger] first@.contains_key(p) <==> exists|j: int|
                        0 <= j < i + 1 && #[trigger] entry_solves(listing, j, p)
                    &&& first@.contains_key(p) ==> solves(m, first@[p], p)
                    &&& first@.contains_key(p) ==> forall|j: int|
                        0 <= j < i + 1 && #[trigger] entry_solves(listing, j, p) ==> no_later(
                            m,
                            p,
                            first@[p],
                            listing[j].0.0,
                        )
                } by {
                assert(before.contains_key(p) <==> exists|j: int|
                    0 <= j < i && #[trigger] entry_solves(listing, j, p));
                if exists|j: int| 0 <= j < i + 1 && #[trigger] entry_solves(listing, j, p) {
                    let j = choose|j: int| 0 <= j < i + 1 && #[trigger] entry_solves(listing, j, p);
                    if j < i {
                        assert(before.contains_key(p));
                    }
                }
            }
        }
        i += 1;
    }
    proof {
        assert forall|p: i32|
            {
                &&& #[trigger] first@.contains_key(p) <==> exists|u: i32| solves(m, u, p)
                &&& first@.contains_key(p) ==> is_first_solver(m, p, first@[p])
            } by {
            assert forall|u: i32| #[trigger] solves(m, u, p) implies exists|j: int|
                0 <= j < n && #[trigger] entry_solves(listing, j, p) && listing[j].0.0 == u by {
                assert(m.contains_key((u, p)));
                let j = choose|j: int| 0 <= j < n && (#[trigger] listing[j]).0 == (u, p);
                assert(listing[j].1 == m[(u, p)]);
                assert(entry_solves(listing, j, p));
            }
            if first@.contains_key(p) {
                assert(solves(m, first@[p], p));
                assert forall|w: i32| #[trigger] solves(m, w, p) implies no_later(
                    m,
                    p,
                    first@[p],
                    w,
                ) by {
                    let j = choose|j: int|
                        0 <= j < n && #[trigger] entry_solves(listing, j, p) && listing[j].0.0 == w;
                    assert(entry_solves(listing, j, p));
                }
            }
        }
    }
    first
}

} // verus!
