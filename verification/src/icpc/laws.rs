//! What the standings promise, said of the submissions themselves.

use vstd::prelude::*;

use crate::icpc::config::ProblemState;
use crate::icpc::standings::StandingsSubmission;
use crate::icpc::standings;
use crate::pairs::PairMap;
use crate::verdict::Verdict;

verus! {

// ---------------------------------------------------------------------------
// Penalties
// ---------------------------------------------------------------------------

/// The verdict is a rejection by the judge.
pub open spec fn rejected(v: Verdict) -> bool {
    ||| v is WrongAnswer
    ||| v is TimeLimitExceeded
    ||| v is MemoryLimitExceeded
    ||| v is RuntimeError
}

/// A rejection costs an attempt, and so does a compilation error that counts.
pub open spec fn costs(v: Verdict, count_compile_error: bool) -> bool {
    rejected(v) || (v is CompileError && count_compile_error)
}

/// The verdicts that cost a penalty are these: every rejection, always; a
/// compilation error where the contest counts it; and no other. A failure of the
/// judge costs nothing, whatever the verdict.
pub proof fn rejections_are_penalized(s: StandingsSubmission, count_compile_error: bool)
    ensures
        s.status@ == "SystemError"@ ==> !s.penalized(count_compile_error),
        s.status@ == "CompilationError"@ && !(s.verdict == Some(Verdict::SystemError)) ==> (
        s.penalized(count_compile_error) <==> count_compile_error),
        s.status@ != "SystemError"@ && s.status@ != "CompilationError"@ ==> match s.verdict {
            Some(v) => match v {
                Verdict::WrongAnswer => s.penalized(count_compile_error),
                Verdict::TimeLimitExceeded => s.penalized(count_compile_error),
                Verdict::MemoryLimitExceeded => s.penalized(count_compile_error),
                Verdict::RuntimeError => s.penalized(count_compile_error),
                Verdict::CompileError => s.penalized(count_compile_error) <==> count_compile_error,
                Verdict::Accepted => !s.penalized(count_compile_error),
                Verdict::SystemError => !s.penalized(count_compile_error),
                Verdict::Skipped => !s.penalized(count_compile_error),
                Verdict::Cancelled => !s.penalized(count_compile_error),
            },
            None => s.penalized(count_compile_error),
        },
{
    lemma_statuses_differ();
}

proof fn lemma_statuses_differ()
    ensures
        "SystemError"@ != "CompilationError"@,
        "Judged"@ != "SystemError"@,
        "Judged"@ != "CompilationError"@,
{
    reveal_strlit("SystemError");
    reveal_strlit("CompilationError");
    reveal_strlit("Judged");
    assert("SystemError"@.len() == 11);
    assert("CompilationError"@.len() == 16);
    assert("Judged"@.len() == 6);
}

/// Submission `x` was made before every accepted one of its contestant on its
/// problem. Of two at the same time the smaller id is first, and `x` after the
/// listed one where the ids are the same too.
pub open spec fn before_all_accepted(
    subs: Seq<StandingsSubmission>,
    x: StandingsSubmission,
) -> bool {
    forall|i: int|
        0 <= i < subs.len() && (#[trigger] subs[i]).user_id == x.user_id && subs[i].problem_id
            == x.problem_id && subs[i].verdict == Some(Verdict::Accepted) ==> {
            ||| x.elapsed_ms < subs[i].elapsed_ms
            ||| x.elapsed_ms == subs[i].elapsed_ms && x.submission_id < subs[i].submission_id
        }
}

/// The same contestant has an accepted submission on the problem, made before
/// `x`.
pub open spec fn after_an_accepted(
    subs: Seq<StandingsSubmission>,
    x: StandingsSubmission,
) -> bool {
    exists|i: int|
        0 <= i < subs.len() && (#[trigger] subs[i]).user_id == x.user_id && subs[i].problem_id
            == x.problem_id && subs[i].verdict == Some(Verdict::Accepted) && {
            ||| subs[i].elapsed_ms < x.elapsed_ms
            ||| subs[i].elapsed_ms == x.elapsed_ms && subs[i].submission_id <= x.submission_id
        }
}

proof fn lemma_earlier_kept(subs: Seq<StandingsSubmission>, x: StandingsSubmission, i: int, j: int)
    requires
        0 <= i < subs.len(),
        0 <= j < subs.len(),
    ensures
        standings::earlier(subs.push(x), i, j) == standings::earlier(subs, i, j),
{
}

proof fn lemma_penalties_kept(
    subs: Seq<StandingsSubmission>,
    x: StandingsSubmission,
    key: (i32, i32),
    flag: bool,
    stop: Option<int>,
    n: int,
)
    requires
        n <= subs.len(),
        stop matches Some(a) ==> 0 <= a < subs.len(),
    ensures
        standings::penalties_before(subs.push(x), key, flag, stop, n)
            == standings::penalties_before(subs, key, flag, stop, n),
    decreases n,
{
    if n > 0 {
        lemma_penalties_kept(subs, x, key, flag, stop, n - 1);
        match stop {
            Some(a) => {
                lemma_earlier_kept(subs, x, n - 1, a);
            },
            None => {},
        }
    }
}

proof fn lemma_penalties_bound(
    subs: Seq<StandingsSubmission>,
    key: (i32, i32),
    flag: bool,
    stop: Option<int>,
    n: int,
)
    requires
        n >= 0,
    ensures
        standings::penalties_before(subs, key, flag, stop, n) <= n,
    decreases n,
{
    if n > 0 {
        lemma_penalties_bound(subs, key, flag, stop, n - 1);
    }
}

/// The first accepted submission stays first when one more comes that is not
/// accepted, or not of this contestant on this problem, or later.
proof fn lemma_first_kept(
    subs: Seq<StandingsSubmission>,
    x: StandingsSubmission,
    key: (i32, i32),
    a: int,
    b: int,
)
    requires
        standings::first_accepted(subs, key, a),
        standings::first_accepted(subs.push(x), key, b),
        !(x.key() == key && x.accepted()) || standings::earlier(subs.push(x), a, subs.len() as int),
    ensures
        a == b,
{
    let more = subs.push(x);
    assert(more[a] == subs[a]);
    if b < subs.len() {
        assert(more[b] == subs[b]);
        if a != b {
            assert(standings::earlier(subs, a, b));
            assert(standings::earlier(more, b, a));
        }
    } else {
        assert(standings::earlier(more, b, a));
    }
}

/// What one more submission does to the state of its contestant on its problem,
/// where it is not accepted: a rejection before the first accepted submission
/// costs exactly one attempt more, every other submission costs nothing, and
/// whether and when the problem was solved stays as it is.
pub proof fn one_more_rejection_costs_one_attempt(
    before: ProblemState,
    after: ProblemState,
    subs: Seq<StandingsSubmission>,
    x: StandingsSubmission,
    count_compile_error: bool,
)
    requires
        subs.len() < i32::MAX,
        standings::state_is(before, subs, (x.user_id, x.problem_id), count_compile_error),
        standings::state_is(after, subs.push(x), (x.user_id, x.problem_id), count_compile_error),
        x.verdict != Some(Verdict::Accepted),
    ensures
        after.solved == before.solved,
        after.solve_time_ms == before.solve_time_ms,
        after_an_accepted(subs, x) ==> after.attempts == before.attempts,
        x.status@ == "SystemError"@ ==> after.attempts == before.attempts,
        x.status@ == "Judged"@ ==> {
            &&& x.verdict is Some && !costs(x.verdict->0, count_compile_error) ==> after.attempts
                == before.attempts
            &&& x.verdict is Some && costs(x.verdict->0, count_compile_error)
                && before_all_accepted(subs, x) ==> after.attempts == before.attempts + 1
        },
{
    lemma_statuses_differ();
    let key = (x.user_id, x.problem_id);
    let more = subs.push(x);
    let n = subs.len() as int;
    let flag = count_compile_error;
    rejections_are_penalized(x, flag);
    assert(more[n] == x);
    assert(x.key() == key);
    if before.solved {
        let a = choose|a: int| #[trigger]
            standings::first_accepted(subs, key, a) && before == (ProblemState {
                attempts: standings::penalties_before(subs, key, flag, Some(a), n) as i32,
                solved: true,
                solve_time_ms: Some(
                    if subs[a].elapsed_ms > 0 {
                        subs[a].elapsed_ms
                    } else {
                        0
                    },
                ),
            });
        assert(more[a] == subs[a]);
        assert(more[a].key() == key && more[a].accepted());
        assert(after.solved);
        let b = choose|b: int| #[trigger]
            standings::first_accepted(more, key, b) && after == (ProblemState {
                attempts: standings::penalties_before(more, key, flag, Some(b), n + 1) as i32,
                solved: true,
                solve_time_ms: Some(
                    if more[b].elapsed_ms > 0 {
                        more[b].elapsed_ms
                    } else {
                        0
                    },
                ),
            });
        lemma_first_kept(subs, x, key, a, b);
        lemma_penalties_kept(subs, x, key, flag, Some(a), n);
        lemma_penalties_bound(subs, key, flag, Some(a), n);
        assert(subs[a].user_id == x.user_id && subs[a].problem_id == x.problem_id);
        if after_an_accepted(subs, x) {
            let i = choose|i: int|
                0 <= i < subs.len() && (#[trigger] subs[i]).user_id == x.user_id
                    && subs[i].problem_id == x.problem_id && subs[i].verdict == Some(
                    Verdict::Accepted,
                ) && {
                    ||| subs[i].elapsed_ms < x.elapsed_ms
                    ||| subs[i].elapsed_ms == x.elapsed_ms && subs[i].submission_id
                        <= x.submission_id
                };
            assert(subs[i].key() == key && subs[i].accepted());
            if i != a {
                assert(standings::earlier(subs, a, i));
            }
            assert(!standings::earlier(more, n, a));
        }
        if before_all_accepted(subs, x) {
            assert(standings::earlier(more, n, a));
        }
    } else {
        assert forall|i: int| 0 <= i < more.len() && (#[trigger] more[i]).key() == key implies !more[i].accepted() by {
            if i < n {
                assert(more[i] == subs[i]);
            }
        }
        assert(!after.solved) by {
            if after.solved {
                let b = choose|b: int| #[trigger] standings::first_accepted(more, key, b);
                assert(more[b].key() == key && more[b].accepted());
            }
        }
        lemma_penalties_kept(subs, x, key, flag, None, n);
        lemma_penalties_bound(subs, key, flag, None, n);
        if after_an_accepted(subs, x) {
            let i = choose|i: int|
                0 <= i < subs.len() && (#[trigger] subs[i]).user_id == x.user_id
                    && subs[i].problem_id == x.problem_id && subs[i].verdict == Some(
                    Verdict::Accepted,
                );
            assert(subs[i].key() == key);
        }
    }
}

/// An accepted submission solves its problem, at its own time where no other one
/// was accepted before, and costs no attempt.
pub proof fn an_accepted_submission_solves(
    before: ProblemState,
    after: ProblemState,
    subs: Seq<StandingsSubmission>,
    x: StandingsSubmission,
    count_compile_error: bool,
)
    requires
        standings::state_is(before, subs, (x.user_id, x.problem_id), count_compile_error),
        standings::state_is(after, subs.push(x), (x.user_id, x.problem_id), count_compile_error),
        x.verdict == Some(Verdict::Accepted),
        x.elapsed_ms >= 0,
    ensures
        after.solved,
        !before.solved || before_all_accepted(subs, x) ==> after.solve_time_ms == Some(
            x.elapsed_ms,
        ),
        after_an_accepted(subs, x) ==> after.solve_time_ms == before.solve_time_ms,
        after_an_accepted(subs, x) && subs.len() < i32::MAX ==> after.attempts == before.attempts,
{
    let key = (x.user_id, x.problem_id);
    let more = subs.push(x);
    let n = subs.len() as int;
    let flag = count_compile_error;
    assert(more[n] == x);
    assert(more[n].key() == key && more[n].accepted());
    let b = choose|b: int| #[trigger]
        standings::first_accepted(more, key, b) && after == (ProblemState {
            attempts: standings::penalties_before(more, key, flag, Some(b), n + 1) as i32,
            solved: true,
            solve_time_ms: Some(
                if more[b].elapsed_ms > 0 {
                    more[b].elapsed_ms
                } else {
                    0
                },
            ),
        });
    if b < n {
        assert(more[b] == subs[b]);
        assert(subs[b].key() == key && subs[b].accepted());
        assert(subs[b].user_id == x.user_id && subs[b].problem_id == x.problem_id);
        assert(before.solved);
        if before_all_accepted(subs, x) {
            assert(standings::earlier(more, b, n));
        }
    }
    if after_an_accepted(subs, x) {
        let i = choose|i: int|
            0 <= i < subs.len() && (#[trigger] subs[i]).user_id == x.user_id && subs[i].problem_id
                == x.problem_id && subs[i].verdict == Some(Verdict::Accepted) && {
                ||| subs[i].elapsed_ms < x.elapsed_ms
                ||| subs[i].elapsed_ms == x.elapsed_ms && subs[i].submission_id <= x.submission_id
            };
        assert(subs[i].key() == key && subs[i].accepted());
        assert(before.solved);
        let a = choose|a: int| #[trigger]
            standings::first_accepted(subs, key, a) && before == (ProblemState {
                attempts: standings::penalties_before(subs, key, flag, Some(a), n) as i32,
                solved: true,
                solve_time_ms: Some(
                    if subs[a].elapsed_ms > 0 {
                        subs[a].elapsed_ms
                    } else {
                        0
                    },
                ),
            });
        if i != a {
            assert(standings::earlier(subs, a, i));
        }
        assert(standings::earlier(more, a, n));
        lemma_first_kept(subs, x, key, a, b);
        lemma_penalties_kept(subs, x, key, flag, Some(a), n);
        lemma_penalties_bound(subs, key, flag, Some(a), n);
        assert(more[a] == subs[a]);
    }
}

/// Submissions of others, and to other problems, leave a state as it is.
pub proof fn other_submissions_change_nothing(
    before: ProblemState,
    after: ProblemState,
    subs: Seq<StandingsSubmission>,
    x: StandingsSubmission,
    user: i32,
    problem: i32,
    count_compile_error: bool,
)
    requires
        subs.len() < i32::MAX,
        standings::state_is(before, subs, (user, problem), count_compile_error),
        standings::state_is(after, subs.push(x), (user, problem), count_compile_error),
        x.user_id != user || x.problem_id != problem,
    ensures
        after == before,
{
    let key = (user, problem);
    let more = subs.push(x);
    let n = subs.len() as int;
    let flag = count_compile_error;
    assert(more[n] == x);
    assert(x.key() != key);
    if before.solved {
        let a = choose|a: int| #[trigger] standings::first_accepted(subs, key, a) && before.attempts
            == standings::penalties_before(subs, key, flag, Some(a), n) as i32
            && before.solve_time_ms == Some(
            if subs[a].elapsed_ms > 0 {
                subs[a].elapsed_ms
            } else {
                0
            },
        );
        assert(more[a] == subs[a]);
        assert(more[a].key() == key && more[a].accepted());
        let b = choose|b: int| #[trigger] standings::first_accepted(more, key, b) && after.attempts
            == standings::penalties_before(more, key, flag, Some(b), n + 1) as i32
            && after.solve_time_ms == Some(
            if more[b].elapsed_ms > 0 {
                more[b].elapsed_ms
            } else {
                0
            },
        );
        lemma_first_kept(subs, x, key, a, b);
        lemma_penalties_kept(subs, x, key, flag, Some(a), n);
    } else {
        assert(!after.solved) by {
            if after.solved {
                let b = choose|b: int| #[trigger] standings::first_accepted(more, key, b);
                assert(more[b].key() == key && more[b].accepted());
                assert(subs[b].key() == key && subs[b].accepted());
            }
        }
        lemma_penalties_kept(subs, x, key, flag, None, n);
    }
}

/// A judged submission is a penalty attempt where its verdict is a rejection, and where it
/// failed to compile in a contest that counts that; in no other case.
pub proof fn penalty_attempts_are_these(
    row: &StandingsSubmission,
    count_compile_error: bool,
    v: Verdict,
    r: bool,
)
    requires
        call_ensures(standings::is_penalty_attempt, (row, count_compile_error), r),
        row.status@ == "Judged"@,
        row.verdict == Some(v),
    ensures
        v is WrongAnswer || v is TimeLimitExceeded || v is MemoryLimitExceeded || v is RuntimeError
            ==> r,
        v is CompileError ==> r == count_compile_error,
        v is Accepted || v is SystemError || v is Skipped || v is Cancelled ==> !r,
{
    lemma_statuses_differ();
    rejections_are_penalized(*row, count_compile_error);
}

/// A failure of the judge is no penalty attempt, whatever its verdict.
pub proof fn failures_of_the_judge_are_no_attempts(
    row: &StandingsSubmission,
    count_compile_error: bool,
    r: bool,
)
    requires
        call_ensures(standings::is_penalty_attempt, (row, count_compile_error), r),
        row.status@ == "SystemError"@,
    ensures
        !r,
{
    rejections_are_penalized(*row, count_compile_error);
}

/// One more rejected submission, before anything was accepted, costs its contestant one
/// attempt on its problem.
pub proof fn a_rejection_counts_in_the_states(
    subs: &[StandingsSubmission],
    more: &[StandingsSubmission],
    x: StandingsSubmission,
    count_compile_error: bool,
    before: PairMap<ProblemState>,
    after: PairMap<ProblemState>,
)
    requires
        call_ensures(standings::compute_problem_states, (subs, count_compile_error), before),
        call_ensures(standings::compute_problem_states, (more, count_compile_error), after),
        more@ == subs@.push(x),
        subs@.len() < i32::MAX,
        before@.contains_key((x.user_id, x.problem_id)),
        x.status@ == "Judged"@,
        x.verdict is Some && costs(x.verdict->0, count_compile_error),
        before_all_accepted(subs@, x),
    ensures
        after@.contains_key((x.user_id, x.problem_id)),
        after@[(x.user_id, x.problem_id)].attempts == before@[(x.user_id, x.problem_id)].attempts
            + 1,
        after@[(x.user_id, x.problem_id)].solved == before@[(x.user_id, x.problem_id)].solved,
{
    let key = (x.user_id, x.problem_id);
    let n = subs@.len() as int;
    assert(more@[n] == x);
    assert(standings::submitted(more@, key));
    assert(after@.contains_key(key));
    assert(standings::state_is(after@[key], more@, key, count_compile_error));
    one_more_rejection_costs_one_attempt(
        before@[key],
        after@[key],
        subs@,
        x,
        count_compile_error,
    );
}

} // verus!
