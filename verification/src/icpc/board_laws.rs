//! What the scoreboard promises: what it shows during the freeze, how it ranks
//! the rows and what stands in them.

use vstd::prelude::*;

use crate::http::HttpError;
use crate::icpc::board;
use crate::icpc::board::{Board, ContestProblem, Participant, ProblemCell, RowKey, RowModel, Scope, StandingsEntry, Viewing};
use crate::icpc::config;
use crate::icpc::config::{ContestConfig, FreezeView, ProblemState};
use crate::icpc::routes;
use crate::icpc::routes::StandingsRequest;
use crate::icpc::standings;
use crate::icpc::standings::StandingsSubmission;
use crate::letters;
use crate::sql::Query;
use crate::verdict::Verdict;

verus! {

// ---------------------------------------------------------------------------
// The freeze
// ---------------------------------------------------------------------------

proof fn lemma_phases_differ()
    ensures
        "before"@ != "during"@,
        "before"@ != "after"@,
        "during"@ != "after"@,
{
    reveal_strlit("before");
    reveal_strlit("during");
    reveal_strlit("after");
    assert("before"@[0] == 'b');
    assert("during"@[0] == 'd');
    assert("after"@[0] == 'a');
}

/// At most so many minutes of the contest are left, or it is over.
pub open spec fn within_last(minutes: int, duration_ms: int, at_ms: int) -> bool {
    at_ms >= 0 && duration_ms - at_ms <= minutes * 60 * 1000
}

/// The board is frozen for the contestants in the last minutes of the contest
/// and after it, until it is revealed, where the contest has a freeze at all;
/// who sees everything never finds it frozen, and alone can reveal it, in
/// exactly that time.
pub proof fn the_last_minutes_are_frozen(
    v: FreezeView,
    freeze_minutes: i32,
    phase: Seq<char>,
    can_view_all: bool,
    revealed: bool,
    duration_ms: i64,
    now_elapsed_ms: i64,
)
    requires
        v == config::view_of(
            freeze_minutes as int,
            phase,
            can_view_all,
            revealed,
            duration_ms as int,
            now_elapsed_ms as int,
        ),
    ensures
        v.frozen <==> {
            &&& freeze_minutes >= 1
            &&& !revealed
            &&& !can_view_all
            &&& phase == "during"@ || phase == "after"@
            &&& within_last(freeze_minutes as int, duration_ms as int, now_elapsed_ms as int)
        },
        v.can_reveal <==> {
            &&& freeze_minutes >= 1
            &&& !revealed
            &&& can_view_all
            &&& phase == "during"@ || phase == "after"@
            &&& within_last(freeze_minutes as int, duration_ms as int, now_elapsed_ms as int)
        },
        phase == "before"@ ==> !v.frozen && !v.can_reveal,
{
    lemma_phases_differ();
}

/// What a contestant sees of a frozen board are the submissions made before the
/// last minutes, and the contestant's own, whenever made. On a board that is not
/// frozen every submission counts.
pub proof fn the_freeze_hides_the_last_minutes(
    v: FreezeView,
    sub: StandingsSubmission,
    own: Option<i32>,
    freeze_minutes: i32,
    phase: Seq<char>,
    can_view_all: bool,
    revealed: bool,
    duration_ms: i64,
    now_elapsed_ms: i64,
)
    requires
        v == config::view_of(
            freeze_minutes as int,
            phase,
            can_view_all,
            revealed,
            duration_ms as int,
            now_elapsed_ms as int,
        ),
        config::window_fits(freeze_minutes as int, duration_ms as int),
    ensures
        own == Some(sub.user_id) ==> standings::live(sub, v.freeze_start_ms, own),
        !v.frozen && sub.elapsed_ms < i64::MAX ==> standings::live(sub, v.freeze_start_ms, own),
        v.frozen && own != Some(sub.user_id) ==> (standings::live(sub, v.freeze_start_ms, own)
            <==> !within_last(freeze_minutes as int, duration_ms as int, sub.elapsed_ms as int)),
{
}

/// The freeze comes so many minutes before the end, or at the start of a contest
/// that is shorter.
pub proof fn the_freeze_comes_before_the_end(freeze_minutes: int, duration_ms: int)
    requires
        freeze_minutes >= 1,
    ensures
        config::window_start(freeze_minutes, duration_ms) >= 0,
        freeze_minutes * 60 * 1000 <= duration_ms ==> duration_ms - config::window_start(
            freeze_minutes,
            duration_ms,
        ) == freeze_minutes * 60 * 1000,
        freeze_minutes * 60 * 1000 > duration_ms ==> config::window_start(
            freeze_minutes,
            duration_ms,
        ) == 0,
        config::window_start(0, duration_ms) == i64::MAX,
{
}

// ---------------------------------------------------------------------------
// Penalties
// ---------------------------------------------------------------------------

/// A problem that is not solved costs nothing. One that is solved costs the whole
/// minutes until it was, and so many minutes more for each attempt.
pub proof fn a_solve_costs_its_time_and_attempts(state: ProblemState, per_attempt: int)
    ensures
        !state.solved ==> state.penalty_spec(per_attempt) == 0,
        state.solved && state.solve_time_ms is Some ==> {
            let minutes = state.penalty_spec(per_attempt) - state.attempts * per_attempt;
            &&& minutes * 60 * 1000 <= state.solve_time_ms->0 < (minutes + 1) * 60 * 1000
            &&& minutes == state.solve_minutes()
        },
        state.solved && state.solve_time_ms is None ==> state.penalty_spec(per_attempt)
            == state.attempts * per_attempt,
{
}

/// One more wrong attempt costs exactly the minutes of one attempt more.
pub proof fn one_more_attempt_costs_its_minutes(
    before: ProblemState,
    after: ProblemState,
    per_attempt: int,
)
    requires
        before.solved,
        after == (ProblemState { attempts: (before.attempts + 1) as i32, ..before }),
        before.attempts < i32::MAX,
    ensures
        after.penalty_spec(per_attempt) == before.penalty_spec(per_attempt) + per_attempt,
{
    let a = before.attempts as int;
    assert((a + 1) * per_attempt == a * per_attempt + per_attempt) by (nonlinear_arith);
}

// ---------------------------------------------------------------------------
// Which submissions count
// ---------------------------------------------------------------------------

/// Every submission goes to exactly one side: it counts, or it is pending.
pub proof fn every_submission_counts_or_is_pending(
    subs: Seq<StandingsSubmission>,
    start: i64,
    own: Option<i32>,
)
    ensures
        board::split_part(subs, start, own, true).to_multiset().add(
            board::split_part(subs, start, own, false).to_multiset(),
        ) == subs.to_multiset(),
        forall|i: int|
            0 <= i < board::split_part(subs, start, own, true).len() ==> {
                let s = #[trigger] board::split_part(subs, start, own, true)[i];
                s.elapsed_ms < start || own == Some(s.user_id)
            },
        forall|i: int|
            0 <= i < board::split_part(subs, start, own, false).len() ==> {
                let s = #[trigger] board::split_part(subs, start, own, false)[i];
                s.elapsed_ms >= start && own != Some(s.user_id)
            },
    decreases subs.len(),
{
    let yes = board::split_part(subs, start, own, true);
    let no = board::split_part(subs, start, own, false);
    if subs.len() > 0 {
        let rest = subs.drop_last();
        every_submission_counts_or_is_pending(rest, start, own);
        let y = board::split_part(rest, start, own, true);
        let n = board::split_part(rest, start, own, false);
        let x = subs.last();
        vstd::seq_lib::lemma_multiset_commutative(rest, seq![x]);
        assert(subs =~= rest + seq![x]);
        lemma_one(x);
        if standings::live(x, start, own) {
            vstd::seq_lib::lemma_multiset_commutative(y, seq![x]);
            assert(yes =~= y + seq![x]);
            assert(no == n);
        } else {
            vstd::seq_lib::lemma_multiset_commutative(n, seq![x]);
            assert(no =~= n + seq![x]);
            assert(yes == y);
        }
        assert(yes.to_multiset().add(no.to_multiset()) =~= subs.to_multiset());
    } else {
        subs.to_multiset_ensures();
        yes.to_multiset_ensures();
        no.to_multiset_ensures();
        assert(yes =~= subs);
        assert(no =~= subs);
        assert(subs.to_multiset().len() == 0);
        assert(yes.to_multiset().add(no.to_multiset()) =~= subs.to_multiset());
    }
}

proof fn lemma_one(x: StandingsSubmission)
    ensures
        seq![x].to_multiset() == vstd::multiset::Multiset::singleton(x),
{
    let none = Seq::<StandingsSubmission>::empty();
    none.to_multiset_ensures();
    assert(none.push(x) =~= seq![x]);
    assert(none.to_multiset().len() == 0);
    assert(none.to_multiset() =~= vstd::multiset::Multiset::empty());
    assert(seq![x].to_multiset() == none.to_multiset().insert(x));
    assert(seq![x].to_multiset() =~= vstd::multiset::Multiset::singleton(x));
}

/// What one more submission during the freeze does to the number of pending ones
/// on its problem: one more, but for a failure of the judge and for a problem
/// that counts as solved. The other numbers stay.
pub proof fn one_more_pending_submission_is_marked(
    before: Map<(i32, i32), i32>,
    after: Map<(i32, i32), i32>,
    subs: Seq<StandingsSubmission>,
    x: StandingsSubmission,
    states: Map<(i32, i32), ProblemState>,
    key: (i32, i32),
)
    requires
        standings::pending_is(before, subs, states),
        standings::pending_is(after, subs.push(x), states),
    ensures
        ({
            let old_count = if before.contains_key(key) {
                before[key] as int
            } else {
                0
            };
            let new_count = if after.contains_key(key) {
                after[key] as int
            } else {
                0
            };
            let solved = states.contains_key(key) && states[key].solved;
            let failed = x.status@ == "SystemError"@ || x.verdict == Some(Verdict::SystemError);
            &&& key != (x.user_id, x.problem_id) ==> new_count == old_count
            &&& key == (x.user_id, x.problem_id) && (solved || failed) ==> new_count == old_count
            &&& key == (x.user_id, x.problem_id) && !solved && !failed ==> new_count == old_count + 1
        }),
        after.contains_key(key) ==> after[key] > 0,
{
    let more = subs.push(x);
    let n = subs.len() as int;
    lemma_marks_kept(subs, x, states, key, n);
    assert(more[n] == x);
    assert(standings::mark_count(subs, states, key, n) >= 0);
    let c = before.contains_key(key);
    let d = after.contains_key(key);
}

proof fn lemma_marks_kept(
    subs: Seq<StandingsSubmission>,
    x: StandingsSubmission,
    states: Map<(i32, i32), ProblemState>,
    key: (i32, i32),
    n: int,
)
    requires
        n <= subs.len(),
    ensures
        standings::mark_count(subs.push(x), states, key, n) == standings::mark_count(
            subs,
            states,
            key,
            n,
        ),
    decreases n,
{
    if n > 0 {
        lemma_marks_kept(subs, x, states, key, n - 1);
        assert(subs.push(x)[n - 1] == subs[n - 1]);
    }
}

// ---------------------------------------------------------------------------
// First solves
// ---------------------------------------------------------------------------

/// The first solver of a problem solved it, and nobody solved it sooner; of two
/// at the same time it is the smaller id. There is one exactly where somebody
/// solved the problem, and none is told on a board that shows one row only.
pub proof fn nobody_solved_it_sooner(
    first: Map<i32, i32>,
    states: Map<(i32, i32), ProblemState>,
    restricted: bool,
    problem: i32,
    other: i32,
)
    requires
        standings::first_solvers_are(first, states, restricted),
        states.contains_key((other, problem)),
        states[(other, problem)].solved,
        states[(other, problem)].solve_time_ms is Some,
    ensures
        restricted ==> !first.contains_key(problem),
        !restricted ==> {
            let s = (first[problem], problem);
            &&& first.contains_key(problem)
            &&& states.contains_key(s)
            &&& states[s].solved
            &&& states[s].solve_time_ms is Some ==> {
                &&& states[s].solve_time_ms->0 <= states[(other, problem)].solve_time_ms->0
                &&& states[s].solve_time_ms->0 == states[(other, problem)].solve_time_ms->0
                    ==> first[problem] <= other
            }
        },
{
    assert(standings::solves(states, other, problem));
    if !restricted {
        assert(first.contains_key(problem));
        let u = first[problem];
        assert(standings::is_first_solver(states, problem, u));
        assert(standings::no_later(states, problem, u, other));
    }
}

/// There is no first solver of a problem that nobody solved.
pub proof fn unsolved_problems_have_no_first_solver(
    first: Map<i32, i32>,
    states: Map<(i32, i32), ProblemState>,
    restricted: bool,
    problem: i32,
)
    requires
        standings::first_solvers_are(first, states, restricted),
        forall|u: i32| #[trigger]
            states.contains_key((u, problem)) ==> !states[(u, problem)].solved,
    ensures
        !first.contains_key(problem),
{
    if !restricted && first.contains_key(problem) {
        assert(standings::is_first_solver(states, problem, first[problem]));
        assert(standings::solves(states, first[problem], problem));
        assert(states.contains_key((first[problem], problem)));
    }
}

// ---------------------------------------------------------------------------
// Rows and ranks
// ---------------------------------------------------------------------------

/// Row `a` has the better score: more problems solved, or as many with a smaller
/// penalty.
pub open spec fn scores_better(a: StandingsEntry, b: StandingsEntry) -> bool {
    a.solved > b.solved || (a.solved == b.solved && a.penalty < b.penalty)
}

/// How many of the first `n` rows have a better score than `row`.
pub open spec fn better_rows(rows: Seq<StandingsEntry>, row: StandingsEntry, n: int) -> nat
    decreases n,
{
    if n <= 0 {
        0
    } else if scores_better(rows[n - 1], row) {
        better_rows(rows, row, n - 1) + 1
    } else {
        better_rows(rows, row, n - 1)
    }
}

/// A rank is one more than the number of rows with a better score, so that equal
/// scores have equal ranks; and the rows stand best first, equal scores by name.
pub proof fn a_rank_counts_the_better_rows(
    rows: Seq<StandingsEntry>,
    src: RowModel,
    participants: Seq<Participant>,
    keys: Seq<RowKey>,
    order: Seq<usize>,
    k: int,
)
    requires
        board::rows_are(rows, src, participants, keys, order),
        0 <= k < rows.len(),
    ensures
        rows[k].rank == better_rows(rows, rows[k], rows.len() as int) + 1,
        forall|j: int| 0 <= j < k ==> !scores_better(rows[k], #[trigger] rows[j]),
        forall|j: int|
            0 <= j < k && rows[k].solved == (#[trigger] rows[j]).solved && rows[k].penalty
                == rows[j].penalty ==> rows[j].username@ == rows[k].username@
                || crate::text::text_before(rows[j].username@, rows[k].username@),
{
    let g = board::rank_at(keys, order, k) - 1;
    board::ranks_follow_scores(keys, order, 0, k);
    board::ranks_follow_scores(keys, order, k, k);
    assert forall|j: int| 0 <= j < rows.len() implies (scores_better(
        #[trigger] rows[j],
        rows[k],
    ) <==> j < g) by {
        lemma_better_above(rows, src, participants, keys, order, j, k);
    }
    lemma_better_count(rows, k, g, rows.len() as int);
    assert forall|j: int| 0 <= j < k implies !scores_better(rows[k], #[trigger] rows[j]) by {
        assert(board::goes_before(keys, order[j] as int, order[k] as int));
    }
    assert forall|j: int|
        0 <= j < k && rows[k].solved == (#[trigger] rows[j]).solved && rows[k].penalty
            == rows[j].penalty implies rows[j].username@ == rows[k].username@
        || crate::text::text_before(rows[j].username@, rows[k].username@) by {
        assert(board::goes_before(keys, order[j] as int, order[k] as int));
        assert(keys[order[j] as int].username@ == rows[j].username@);
        assert(keys[order[k] as int].username@ == rows[k].username@);
    }
}

proof fn lemma_better_above(
    rows: Seq<StandingsEntry>,
    src: RowModel,
    participants: Seq<Participant>,
    keys: Seq<RowKey>,
    order: Seq<usize>,
    j: int,
    k: int,
)
    requires
        board::rows_are(rows, src, participants, keys, order),
        0 <= j < rows.len(),
        0 <= k < rows.len(),
    ensures
        scores_better(rows[j], rows[k]) <==> j < board::rank_at(keys, order, k) - 1,
{
    board::ranks_follow_scores(keys, order, k, k);
    if j < k {
        board::ranks_follow_scores(keys, order, j, k);
        assert(board::goes_before(keys, order[j] as int, order[k] as int));
    } else if j > k {
        assert(board::goes_before(keys, order[k] as int, order[j] as int));
    }
}

proof fn lemma_better_count(rows: Seq<StandingsEntry>, k: int, g: int, n: int)
    requires
        0 <= g,
        0 <= n <= rows.len(),
        forall|j: int|
            0 <= j < rows.len() ==> (scores_better(#[trigger] rows[j], rows[k]) <==> j < g),
    ensures
        better_rows(rows, rows[k], n) == (if n < g {
            n
        } else {
            g
        }),
    decreases n,
{
    if n > 0 {
        lemma_better_count(rows, k, g, n - 1);
        assert(scores_better(rows[n - 1], rows[k]) <==> n - 1 < g);
    }
}

/// Every contestant has a row: the places of the rows are the contestants, each
/// once.
pub proof fn every_contestant_has_one_row(
    rows: Seq<StandingsEntry>,
    src: RowModel,
    participants: Seq<Participant>,
    keys: Seq<RowKey>,
    order: Seq<usize>,
)
    requires
        board::rows_are(rows, src, participants, keys, order),
    ensures
        rows.len() == participants.len(),
        forall|k: int, l: int|
            0 <= k < l < order.len() ==> (#[trigger] order[k]) != (#[trigger] order[l]),
        forall|k: int|
            0 <= k < rows.len() ==> (#[trigger] rows[k]).user_id
                == participants[order[k] as int].user_id && rows[k].username@
                == participants[order[k] as int].username@,
{
    assert forall|k: int, l: int| 0 <= k < l < order.len() implies (#[trigger] order[k]) != (
    #[trigger] order[l]) by {
        assert(board::goes_before(keys, order[k] as int, order[l] as int));
        if order[k] == order[l] {
            crate::text::text_order_is_total(
                keys[order[k] as int].username@,
                keys[order[k] as int].username@,
            );
        }
    }
}

/// The contestant has an accepted submission that counts on the problem.
pub open spec fn has_solved(
    subs: Seq<StandingsSubmission>,
    start: i64,
    own: Option<i32>,
    user: i32,
    problem: i32,
) -> bool {
    exists|i: int|
        0 <= i < subs.len() && (#[trigger] subs[i]).user_id == user && subs[i].problem_id == problem
            && subs[i].verdict == Some(Verdict::Accepted) && (subs[i].elapsed_ms < start || own
            == Some(user))
}

/// On how many of the first `n` problems the contestant has an accepted
/// submission that counts.
pub open spec fn solved_of(
    subs: Seq<StandingsSubmission>,
    start: i64,
    own: Option<i32>,
    user: i32,
    ids: Seq<i32>,
    n: int,
) -> nat
    decreases n,
{
    if n <= 0 {
        0
    } else if has_solved(subs, start, own, user, ids[n - 1]) {
        solved_of(subs, start, own, user, ids, n - 1) + 1
    } else {
        solved_of(subs, start, own, user, ids, n - 1)
    }
}

proof fn lemma_parted(
    subs: Seq<StandingsSubmission>,
    start: i64,
    own: Option<i32>,
    counted: bool,
    s: StandingsSubmission,
)
    ensures
        board::split_part(subs, start, own, counted).contains(s) <==> subs.contains(s)
            && standings::live(s, start, own) == counted,
    decreases subs.len(),
{
    if subs.len() > 0 {
        let rest = subs.drop_last();
        let part = board::split_part(subs, start, own, counted);
        let less = board::split_part(rest, start, own, counted);
        lemma_parted(rest, start, own, counted, s);
        assert(subs =~= rest.push(subs.last()));
        if rest.contains(s) {
            let i = choose|i: int| 0 <= i < rest.len() && rest[i] == s;
            assert(subs[i] == s);
        }
        if subs.contains(s) && s != subs.last() {
            let i = choose|i: int| 0 <= i < subs.len() && subs[i] == s;
            assert(rest[i] == s);
        }
        if standings::live(subs.last(), start, own) == counted {
            assert(part == less.push(subs.last()));
            if less.contains(s) {
                let i = choose|i: int| 0 <= i < less.len() && less[i] == s;
                assert(part[i] == s);
            }
            assert(part[less.len() as int] == subs.last());
            if part.contains(s) && s != subs.last() {
                let i = choose|i: int| 0 <= i < part.len() && part[i] == s;
                assert(less[i] == s);
            }
        }
        if s == subs.last() {
            assert(subs[subs.len() - 1] == s);
        }
    }
}

proof fn lemma_solved_where_accepted(
    src: RowModel,
    subs: Seq<StandingsSubmission>,
    start: i64,
    own: Option<i32>,
    flag: bool,
    user: i32,
    i: int,
)
    requires
        standings::states_are(src.states, board::split_part(subs, start, own, true), flag),
        0 <= i < src.ids.len(),
    ensures
        src.state(user, i).solved <==> has_solved(subs, start, own, user, src.ids[i]),
{
    let part = board::split_part(subs, start, own, true);
    let key = (user, src.ids[i]);
    if has_solved(subs, start, own, user, src.ids[i]) {
        let j = choose|j: int|
            0 <= j < subs.len() && (#[trigger] subs[j]).user_id == user && subs[j].problem_id
                == src.ids[i] && subs[j].verdict == Some(Verdict::Accepted) && (subs[j].elapsed_ms
                < start || own == Some(user));
        lemma_parted(subs, start, own, true, subs[j]);
        assert(subs.contains(subs[j]));
        let m = choose|m: int| 0 <= m < part.len() && part[m] == subs[j];
        assert(part[m].key() == key && part[m].accepted());
        assert(standings::submitted(part, key));
        assert(src.states.contains_key(key));
        standings::solved_exactly_with_a_time(src.states[key], part, key, flag);
    }
    if src.state(user, i).solved {
        assert(src.states.contains_key(key));
        standings::solved_exactly_with_a_time(src.states[key], part, key, flag);
        let m = choose|m: int|
            0 <= m < part.len() && (#[trigger] part[m]).key() == key && part[m].accepted();
        lemma_parted(subs, start, own, true, part[m]);
        assert(part.contains(part[m]));
        let j = choose|j: int| 0 <= j < subs.len() && subs[j] == part[m];
        assert(subs[j].user_id == user);
    }
}

/// A row tells on how many problems the contestant has an accepted submission
/// that counts.
pub proof fn a_row_counts_the_solved_problems(
    rows: Seq<StandingsEntry>,
    src: RowModel,
    config: ContestConfig,
    start: i64,
    v: Viewing,
    problems: Seq<ContestProblem>,
    participants: Seq<Participant>,
    subs: Seq<StandingsSubmission>,
    k: int,
)
    requires
        board::board_rows(rows, src, config, start, v, problems, participants, subs),
        0 <= k < rows.len(),
    ensures
        rows[k].solved == solved_of(
            subs,
            start,
            v.own_user_id,
            rows[k].user_id,
            board::ids_of(problems),
            problems.len() as int,
        ),
{
    let (keys, order) = choose|keys: Seq<RowKey>, order: Seq<usize>| #[trigger]
        board::rows_are(rows, src, participants, keys, order);
    let user = rows[k].user_id;
    assert(board::ids_of(problems).len() == problems.len());
    assert(rows[k].solved == keys[order[k] as int].solved);
    lemma_solved_count(
        src,
        subs,
        start,
        v.own_user_id,
        config.count_compile_error,
        user,
        problems.len() as int,
    );
}

proof fn lemma_solved_count(
    src: RowModel,
    subs: Seq<StandingsSubmission>,
    start: i64,
    own: Option<i32>,
    flag: bool,
    user: i32,
    n: int,
)
    requires
        standings::states_are(src.states, board::split_part(subs, start, own, true), flag),
        n <= src.ids.len(),
    ensures
        src.solved(user, n) == solved_of(subs, start, own, user, src.ids, n),
    decreases n,
{
    if n > 0 {
        lemma_solved_count(src, subs, start, own, flag, user, n - 1);
        lemma_solved_where_accepted(src, subs, start, own, flag, user, n - 1);
    }
}

/// The penalties that the cells of the first `n` problems show, summed up.
pub open spec fn shown_penalties(
    cells: Map<Seq<char>, ProblemCell>,
    labels: Seq<Seq<char>>,
    n: int,
) -> int
    decreases n,
{
    if n <= 0 {
        0
    } else {
        shown_penalties(cells, labels, n - 1) + (if cells.contains_key(labels[n - 1]) {
            match cells[labels[n - 1]].penalty {
                Some(p) => p as int,
                None => 0,
            }
        } else {
            0
        })
    }
}

/// The penalty of a row is the sum of what its cells show.
pub proof fn a_row_sums_up_its_cells(
    rows: Seq<StandingsEntry>,
    src: RowModel,
    participants: Seq<Participant>,
    keys: Seq<RowKey>,
    order: Seq<usize>,
    k: int,
)
    requires
        board::rows_are(rows, src, participants, keys, order),
        src.wf(),
        i32::MIN <= src.penalty_minutes <= i32::MAX,
        forall|a: int, b: int|
            0 <= a < b < src.labels.len() ==> (#[trigger] src.labels[a]) != (
            #[trigger] src.labels[b]),
        0 <= k < rows.len(),
    ensures
        rows[k].penalty == shown_penalties(
            rows[k].problems@,
            src.labels,
            src.labels.len() as int,
        ),
{
    lemma_shown(src, rows[k].user_id, src.labels.len() as int);
}

proof fn lemma_shown(src: RowModel, user: i32, n: int)
    requires
        src.wf(),
        i32::MIN <= src.penalty_minutes <= i32::MAX,
        forall|a: int, b: int|
            0 <= a < b < src.labels.len() ==> (#[trigger] src.labels[a]) != (
            #[trigger] src.labels[b]),
        n <= src.labels.len(),
    ensures
        shown_penalties(src.marked(user, src.ids.len() as int), src.labels, n) == src.penalty(
            user,
            n,
        ),
    decreases n,
{
    if n > 0 {
        lemma_shown(src, user, n - 1);
        board::cells_show_their_problem(src, user, n - 1);
        lemma_penalty_fits(src.state(user, n - 1), src.penalty_minutes);
    }
}

proof fn lemma_penalty_fits(state: ProblemState, per: int)
    requires
        i32::MIN <= per <= i32::MAX,
    ensures
        state.penalty_spec(per) as i64 == state.penalty_spec(per),
        state.solve_minutes() as i64 == state.solve_minutes(),
{
    let a = state.attempts as int;
    assert(-0x4000_0000_0000_0000 <= a * per <= 0x4000_0000_0000_0000) by (nonlinear_arith)
        requires
            -0x8000_0000 <= a <= 0x7fff_ffff,
            -0x8000_0000 <= per <= 0x7fff_ffff,
    ;
}

/// What stands in the cell of a problem: nothing where nothing was submitted that
/// counts or is pending; the minutes and the penalty where it is solved, and no
/// pending submissions then; else the attempts and the pending submissions.
pub proof fn a_cell_tells_the_state(src: RowModel, user: i32, i: int)
    requires
        src.wf(),
        i32::MIN <= src.penalty_minutes <= i32::MAX,
        0 <= i < src.ids.len(),
        forall|a: int, b: int|
            0 <= a < b < src.labels.len() ==> (#[trigger] src.labels[a]) != (
            #[trigger] src.labels[b]),
    ensures
        ({
            let m = src.marked(user, src.ids.len() as int);
            let label = src.labels[i];
            let key = (user, src.ids[i]);
            let known = src.states.contains_key(key);
            let state = src.states[key];
            let solved = known && state.solved;
            &&& m.contains_key(label) <==> solved || (known && state.attempts > 0)
                || src.pending.contains_key(key)
            &&& m.contains_key(label) ==> {
                let c = m[label];
                &&& c.solved == solved
                &&& known ==> c.attempts == state.attempts
                &&& !known ==> c.attempts == 0
                &&& !solved ==> {
                    &&& c.time is None
                    &&& c.penalty is None
                    &&& c.first_solve is None
                    &&& c.pending == (if src.pending.contains_key(key) {
                        Some(src.pending[key])
                    } else {
                        None
                    })
                }
                &&& solved ==> {
                    &&& c.pending is None
                    &&& c.time is Some && c.penalty is Some
                    &&& c.penalty->0 == c.time->0 + c.attempts * src.penalty_minutes
                    &&& state.solve_time_ms is Some ==> c.time->0 * 60_000 <= state.solve_time_ms->0
                        < (c.time->0 + 1) * 60_000
                    &&& c.first_solve == (if src.first.contains_key(src.ids[i])
                        && src.first[src.ids[i]] == user {
                        Some(true)
                    } else {
                        None
                    })
                }
            }
        }),
{
    board::cells_show_their_problem(src, user, i);
    lemma_penalty_fits(src.state(user, i), src.penalty_minutes);
}

// ---------------------------------------------------------------------------
// Labels and who sees what
// ---------------------------------------------------------------------------

/// A problem goes by its own label where it has one, else by the letter of its
/// place: A for the first, B for the second and so on.
pub proof fn problems_go_by_their_label_or_letter(problems: Seq<ContestProblem>, i: int)
    requires
        0 <= i < problems.len(),
    ensures
        board::labels_of(problems).len() == problems.len(),
        problems[i].label is Some && problems[i].label->0@.len() > 0 ==> board::labels_of(
            problems,
        )[i] == problems[i].label->0@,
        (problems[i].label is None || problems[i].label->0@.len() == 0) && i < 26
            ==> board::labels_of(problems)[i] == seq![((('A') as int) + i) as char],
        (problems[i].label is None || problems[i].label->0@.len() == 0) ==> board::labels_of(
            problems,
        )[i] == letters::letters_of(i as nat),
{
}

/// Until the contest is over a contestant sees the own row alone, unless the
/// contest has public standings or the contestant may see everything; then, and
/// after the contest, every row is shown. A visitor sees none.
pub proof fn standings_are_private_until_the_end(
    phase: Seq<char>,
    can_view_all: bool,
    public_standings: bool,
    user_id: Option<i32>,
)
    ensures
        phase == "after"@ || can_view_all || public_standings ==> board::scope_of(
            phase,
            can_view_all,
            public_standings,
            user_id,
        ) == Scope::All,
        !can_view_all && !public_standings && (phase == "before"@ || phase == "during"@) ==> {
            &&& user_id is Some ==> board::scope_of(phase, can_view_all, public_standings, user_id)
                == Scope::Own(user_id->0)
            &&& user_id is None ==> board::scope_of(phase, can_view_all, public_standings, user_id)
                == Scope::Nobody
        },
{
    lemma_phases_differ();
}

/// Who manages the contest can reveal the board in its last minutes and after it, where
/// it has a freeze; who does not is refused, and so is a board that is not frozen yet.
pub proof fn a_frozen_board_is_revealed_by_its_managers(
    can_manage: bool,
    freeze_minutes: i32,
    phase: &str,
    times: Option<(i64, i64)>,
    r: Result<(), HttpError>,
)
    requires
        call_ensures(board::decide_reveal, (can_manage, freeze_minutes, phase, times), r),
    ensures
        r is Ok <==> {
            &&& can_manage
            &&& times is Some
            &&& freeze_minutes >= 1
            &&& phase@ == "during"@ || phase@ == "after"@
            &&& within_last(freeze_minutes as int, (times->0).0 as int, (times->0).1 as int)
        },
        r is Err ==> r->Err_0.status == (if can_manage {
            409u16
        } else {
            403u16
        }),
{
    lemma_phases_differ();
}

/// What is read follows who may see what: all rows, the one of the contestant, or none.
pub proof fn only_what_may_be_seen_is_read(
    req: &StandingsRequest,
    config: &ContestConfig,
    contest_id: i32,
    r: Option<(Query, Query)>,
)
    requires
        call_ensures(routes::standings_reads, (req, config, contest_id), r),
    ensures
        ({
            let open = req.can_view_all || config.public_standings || (req.phase@ != "before"@
                && req.phase@ != "during"@);
            &&& open ==> r is Some && board::participants_query_is((r->0).0, contest_id, None)
                && board::submissions_query_is((r->0).1, contest_id, None)
            &&& !open && req.user_id is Some ==> r is Some && board::participants_query_is(
                (r->0).0,
                contest_id,
                req.user_id,
            ) && board::submissions_query_is((r->0).1, contest_id, req.user_id)
            &&& !open && req.user_id is None ==> r is None
        }),
{
}

/// A board can be frozen where the contest has a freeze, has begun and was not revealed.
pub proof fn a_freeze_is_possible_once_begun(
    freeze_minutes: i32,
    revealed: bool,
    phase: &str,
    r: bool,
)
    requires
        call_ensures(board::freeze_possible, (freeze_minutes, revealed, phase), r),
    ensures
        r <==> freeze_minutes >= 1 && !revealed && (phase@ == "during"@ || phase@ == "after"@),
{
    lemma_phases_differ();
}

/// A solved problem costs the minutes until it was solved and those of its attempts, an
/// unsolved one nothing.
pub proof fn a_solved_problem_costs_its_attempts(state: &ProblemState, per_attempt: i32, r: i32)
    requires
        call_ensures(ProblemState::penalty_minutes, (state, per_attempt), r),
    ensures
        !state.solved ==> r == 0,
        state.solved ==> r == state.solve_minutes() + state.attempts * per_attempt,
{
    a_solve_costs_its_time_and_attempts(*state, per_attempt as int);
}

/// What a viewer is shown of the freeze: the board as frozen in the last minutes and after
/// them, until it is revealed, unless the viewer sees everything, who can reveal it then.
pub proof fn viewers_find_the_last_minutes_frozen(
    freeze_minutes: i32,
    phase: &str,
    can_view_all: bool,
    revealed: bool,
    duration_ms: i64,
    now_elapsed_ms: i64,
    v: FreezeView,
)
    requires
        call_ensures(
            config::freeze_view,
            (freeze_minutes, phase, can_view_all, revealed, duration_ms, now_elapsed_ms),
            v,
        ),
    ensures
        ({
            let closed = freeze_minutes >= 1 && !revealed && (phase@ == "during"@ || phase@
                == "after"@) && within_last(
                freeze_minutes as int,
                duration_ms as int,
                now_elapsed_ms as int,
            );
            &&& v.frozen <==> closed && !can_view_all
            &&& v.can_reveal <==> closed && can_view_all
        }),
{
    the_last_minutes_are_frozen(
        v,
        freeze_minutes,
        phase@,
        can_view_all,
        revealed,
        duration_ms,
        now_elapsed_ms,
    );
}

} // verus!
