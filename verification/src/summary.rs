//! What the outcomes of a submission come to.

use vstd::prelude::*;

use crate::judging::{
    copy_opt_text, EvalOutcome, JudgementRef, SubmissionStatus, SubmissionUpdate,
};
use crate::verdict::Verdict;

verus! {

/// The last of the judged outcomes among the first `n` with the greatest
/// severity.
pub open spec fn worst<S>(outcomes: Seq<EvalOutcome<S>>, severity: Seq<u32>, n: int) -> Option<int>
    decreases n,
{
    if n <= 0 {
        None
    } else {
        let rest = worst(outcomes, severity, n - 1);
        if outcomes[n - 1].verdict.not_judged() {
            rest
        } else {
            match rest {
                Some(w) => if severity[n - 1] >= severity[w] {
                    Some(n - 1)
                } else {
                    rest
                },
                None => Some(n - 1),
            }
        }
    }
}

/// The verdict on the submission: that of its worst judged case, a system
/// error where no case was judged.
pub open spec fn overall<S>(outcomes: Seq<EvalOutcome<S>>, severity: Seq<u32>) -> Verdict {
    match worst(outcomes, severity, outcomes.len() as int) {
        Some(w) => outcomes[w].verdict,
        None => Verdict::SystemError,
    }
}

pub open spec fn larger(a: Option<i32>, b: Option<i32>) -> Option<i32> {
    match (a, b) {
        (Some(x), Some(y)) => if x >= y {
            Some(x)
        } else {
            Some(y)
        },
        (Some(x), None) => Some(x),
        (None, b) => b,
    }
}

/// The longest time of the judged cases among the first `n`.
pub open spec fn max_time<S>(outcomes: Seq<EvalOutcome<S>>, n: int) -> Option<i32>
    decreases n,
{
    if n <= 0 {
        None
    } else if outcomes[n - 1].verdict.not_judged() {
        max_time(outcomes, n - 1)
    } else {
        larger(max_time(outcomes, n - 1), outcomes[n - 1].time_used)
    }
}

/// The largest memory of the judged cases among the first `n`.
pub open spec fn max_memory<S>(outcomes: Seq<EvalOutcome<S>>, n: int) -> Option<i32>
    decreases n,
{
    if n <= 0 {
        None
    } else if outcomes[n - 1].verdict.not_judged() {
        max_memory(outcomes, n - 1)
    } else {
        larger(max_memory(outcomes, n - 1), outcomes[n - 1].memory_used)
    }
}

/// The first case with a compile error.
pub open spec fn first_compile_error<S>(outcomes: Seq<EvalOutcome<S>>, i: int) -> bool {
    &&& 0 <= i < outcomes.len()
    &&& outcomes[i].verdict is CompileError
    &&& forall|k: int| 0 <= k < i ==> !((#[trigger] outcomes[k]).verdict is CompileError)
}

fn max_opt(a: Option<i32>, b: Option<i32>) -> (r: Option<i32>)
    ensures
        r == larger(a, b),
{
    match (a, b) {
        (Some(x), Some(y)) => if x >= y {
            Some(x)
        } else {
            Some(y)
        },
        (Some(x), None) => Some(x),
        (None, b) => b,
    }
}

/// What a judgement comes to: verdict, time, memory, and the compiler's output.
pub struct Summary {
    pub verdict: Verdict,
    pub judged: bool,
    pub time_used: Option<i32>,
    pub memory_used: Option<i32>,
    pub compile_output: Option<String>,
}

pub open spec fn summary_is<S>(
    s: Summary,
    outcomes: Seq<EvalOutcome<S>>,
    severity: Seq<u32>,
) -> bool {
    let n = outcomes.len() as int;
    &&& s.verdict == overall(outcomes, severity)
    &&& s.judged == (worst(outcomes, severity, n) is Some)
    &&& s.time_used == max_time(outcomes, n)
    &&& s.memory_used == max_memory(outcomes, n)
    &&& if s.verdict is CompileError {
        exists|i: int| #[trigger]
            first_compile_error(outcomes, i) && s.compile_output == outcomes[i].message
    } else {
        s.compile_output is None
    }
}

pub proof fn lemma_worst_bound<S>(outcomes: Seq<EvalOutcome<S>>, severity: Seq<u32>, n: int)
    requires
        0 <= n <= outcomes.len(),
    ensures
        worst(outcomes, severity, n) matches Some(w) ==> 0 <= w < n
            && !outcomes[w].verdict.not_judged(),
        worst(outcomes, severity, n) is None <==> forall|i: int|
            0 <= i < n ==> (#[trigger] outcomes[i]).verdict.not_judged(),
    decreases n,
{
    if n > 0 {
        lemma_worst_bound(outcomes, severity, n - 1);
    }
}

/// Sums up the outcomes. `severity` gives how grave each outcome's verdict is.
pub fn summarize<S>(outcomes: &Vec<EvalOutcome<S>>, severity: &Vec<u32>) -> (r: Summary)
    requires
        severity@.len() == outcomes@.len(),
    ensures
        summary_is(r, outcomes@, severity@),
{
    let mut best: Option<usize> = None;
    let mut time: Option<i32> = None;
    let mut memory: Option<i32> = None;
    let mut i: usize = 0;
    while i < outcomes.len()
        invariant
            i <= outcomes@.len() == severity@.len(),
            match best {
                Some(w) => w < i && worst(outcomes@, severity@, i as int) == Some(w as int),
                None => worst(outcomes@, severity@, i as int) is None,
            },
            time == max_time(outcomes@, i as int),
            memory == max_memory(outcomes@, i as int),
        decreases outcomes@.len() - i,
    {
        if !outcomes[i].verdict.is_skipped_or_cancelled() {
            time = max_opt(time, outcomes[i].time_used);
            memory = max_opt(memory, outcomes[i].memory_used);
            match best {
                Some(w) => {
                    if severity[i] >= severity[w] {
                        best = Some(i);
                    }
                },
                None => {
                    best = Some(i);
                },
            }
        }
        i += 1;
    }
    let verdict = match best {
        Some(w) => outcomes[w].verdict,
        None => Verdict::SystemError,
    };
    let mut compile_output: Option<String> = None;
    if verdict == Verdict::CompileError {
        let mut k: usize = 0;
        proof {
            lemma_worst_bound(outcomes@, severity@, outcomes@.len() as int);
        }
        while k < outcomes.len() && outcomes[k].verdict != Verdict::CompileError
            invariant
                k <= outcomes@.len(),
                forall|j: int| 0 <= j < k ==> !((#[trigger] outcomes@[j]).verdict is CompileError),
            decreases outcomes@.len() - k,
        {
            k += 1;
        }
        if k < outcomes.len() {
            compile_output = copy_opt_text(&outcomes[k].message);
            assert(first_compile_error(outcomes@, k as int));
        }
    }
    Summary {
        verdict,
        judged: best.is_some(),
        time_used: time,
        memory_used: memory,
        compile_output,
    }
}

/// The update that ends a judgement.
pub open spec fn terminal_update<S, T>(
    u: SubmissionUpdate<T>,
    at: JudgementRef,
    outcomes: Seq<EvalOutcome<S>>,
    severity: Seq<u32>,
    score: T,
) -> bool {
    let verdict = overall(outcomes, severity);
    let n = outcomes.len() as int;
    &&& u.submission_id == at.submission_id
    &&& u.judgement_id == at.judgement_id
    &&& u.judge_epoch == at.judge_epoch
    &&& u.status == Some(
        if verdict is CompileError {
            SubmissionStatus::CompilationError
        } else {
            SubmissionStatus::Judged
        },
    )
    &&& u.verdict == Some(
        if verdict is CompileError {
            None
        } else {
            Some(verdict)
        },
    )
    &&& u.score == Some(score)
    &&& u.time_used == Some(max_time(outcomes, n))
    &&& u.memory_used == Some(max_memory(outcomes, n))
    &&& if verdict is CompileError {
        exists|i: int| #[trigger]
            first_compile_error(outcomes, i) && u.compile_output == Some(outcomes[i].message)
    } else {
        u.compile_output == Some(None::<String>)
    }
    &&& u.error_code is None
    &&& u.error_message is None
}

/// Whether any case was judged.
pub open spec fn any_judged<S>(outcomes: Seq<EvalOutcome<S>>) -> bool {
    exists|i: int| 0 <= i < outcomes.len() && !(#[trigger] outcomes[i]).verdict.not_judged()
}

/// The update that ends a judgement: with this score, or with none where no
/// case was judged.
pub fn final_update<S, T>(
    at: JudgementRef,
    outcomes: &Vec<EvalOutcome<S>>,
    severity: &Vec<u32>,
    score: T,
    zero: T,
) -> (r: SubmissionUpdate<T>)
    requires
        severity@.len() == outcomes@.len(),
    ensures
        terminal_update(
            r,
            at,
            outcomes@,
            severity@,
            if any_judged(outcomes@) {
                score
            } else {
                zero
            },
        ),
{
    let s = summarize(outcomes, severity);
    let is_ce = s.verdict == Verdict::CompileError;
    proof {
        lemma_worst_bound(outcomes@, severity@, outcomes@.len() as int);
        match worst(outcomes@, severity@, outcomes@.len() as int) {
            Some(w) => {
                assert(!outcomes@[w].verdict.not_judged());
            },
            None => {},
        }
    }
    SubmissionUpdate {
        submission_id: at.submission_id,
        judgement_id: at.judgement_id,
        judge_epoch: at.judge_epoch,
        status: Some(
            if is_ce {
                SubmissionStatus::CompilationError
            } else {
                SubmissionStatus::Judged
            },
        ),
        verdict: Some(
            if is_ce {
                None
            } else {
                Some(s.verdict)
            },
        ),
        score: Some(
            if s.judged {
                score
            } else {
                zero
            },
        ),
        time_used: Some(s.time_used),
        memory_used: Some(s.memory_used),
        compile_output: Some(s.compile_output),
        error_code: None,
        error_message: None,
    }
}

/// A submission of which no case was judged is a system error, whatever else
/// is known of it.
pub proof fn never_judged_is_a_system_error<S, T>(
    u: SubmissionUpdate<T>,
    at: JudgementRef,
    outcomes: Seq<EvalOutcome<S>>,
    severity: Seq<u32>,
    score: T,
)
    requires
        terminal_update(u, at, outcomes, severity, score),
        !any_judged(outcomes),
    ensures
        u.status == Some(SubmissionStatus::Judged),
        u.verdict == Some(Some(Verdict::SystemError)),
{
    lemma_worst_bound(outcomes, severity, outcomes.len() as int);
    assert forall|i: int| 0 <= i < outcomes.len() implies (
    #[trigger] outcomes[i]).verdict.not_judged() by {
    }
}

/// A verdict other than acceptance on one judged case keeps the submission
/// from being accepted where it is graver than acceptance.
pub proof fn the_gravest_verdict_counts<S>(
    outcomes: Seq<EvalOutcome<S>>,
    severity: Seq<u32>,
    i: int,
)
    requires
        severity.len() == outcomes.len(),
        0 <= i < outcomes.len(),
        !outcomes[i].verdict.not_judged(),
    ensures
        worst(outcomes, severity, outcomes.len() as int) matches Some(w) && severity[w]
            >= severity[i],
{
    lemma_worst_is_worst(outcomes, severity, outcomes.len() as int, i);
}

proof fn lemma_worst_is_worst<S>(
    outcomes: Seq<EvalOutcome<S>>,
    severity: Seq<u32>,
    n: int,
    i: int,
)
    requires
        severity.len() == outcomes.len(),
        0 <= i < n <= outcomes.len(),
        !outcomes[i].verdict.not_judged(),
    ensures
        worst(outcomes, severity, n) matches Some(w) && 0 <= w < n && severity[w] >= severity[i],
    decreases n,
{
    lemma_worst_bound(outcomes, severity, n - 1);
    if i < n - 1 {
        lemma_worst_is_worst(outcomes, severity, n - 1, i);
    }
}

/// The most of something that the judged cases used: an upper bound of what each
/// of them used, that one of them reached. Nothing where none tells.
pub open spec fn most_used<S>(
    outcomes: Seq<EvalOutcome<S>>,
    used: spec_fn(EvalOutcome<S>) -> Option<i32>,
    most: Option<i32>,
) -> bool {
    &&& forall|i: int|
        0 <= i < outcomes.len() && !((#[trigger] outcomes[i]).verdict is Skipped)
            && !(outcomes[i].verdict is Cancelled) && used(outcomes[i]) is Some ==> most is Some
            && used(outcomes[i])->0 <= most->0
    &&& most is Some ==> exists|i: int|
        0 <= i < outcomes.len() && !((#[trigger] outcomes[i]).verdict is Skipped)
            && !(outcomes[i].verdict is Cancelled) && used(outcomes[i]) == most
}

/// The time and the memory of a submission are the most that a judged case used.
pub proof fn a_summary_tells_the_most_used<S>(
    s: Summary,
    outcomes: Seq<EvalOutcome<S>>,
    severity: Seq<u32>,
)
    requires
        summary_is(s, outcomes, severity),
    ensures
        most_used(outcomes, |o: EvalOutcome<S>| o.time_used, s.time_used),
        most_used(outcomes, |o: EvalOutcome<S>| o.memory_used, s.memory_used),
{
    lemma_longest(outcomes, outcomes.len() as int);
    lemma_largest(outcomes, outcomes.len() as int);
    assert(outcomes.take(outcomes.len() as int) =~= outcomes);
}

/// And so are those that are stored with it.
pub proof fn the_most_used_is_stored<S, T>(
    u: SubmissionUpdate<T>,
    at: JudgementRef,
    outcomes: Seq<EvalOutcome<S>>,
    severity: Seq<u32>,
    score: T,
)
    requires
        terminal_update(u, at, outcomes, severity, score),
    ensures
        u.time_used matches Some(time) && most_used(
            outcomes,
            |o: EvalOutcome<S>| o.time_used,
            time,
        ),
        u.memory_used matches Some(memory) && most_used(
            outcomes,
            |o: EvalOutcome<S>| o.memory_used,
            memory,
        ),
{
    lemma_longest(outcomes, outcomes.len() as int);
    lemma_largest(outcomes, outcomes.len() as int);
    assert(outcomes.take(outcomes.len() as int) =~= outcomes);
}

proof fn lemma_longest<S>(outcomes: Seq<EvalOutcome<S>>, n: int)
    requires
        0 <= n <= outcomes.len(),
    ensures
        most_used(
            outcomes.take(n),
            |o: EvalOutcome<S>| o.time_used,
            max_time(outcomes, n),
        ),
    decreases n,
{
    if n > 0 {
        lemma_longest(outcomes, n - 1);
        let before = outcomes.take(n - 1);
        let all = outcomes.take(n);
        let rest = max_time(outcomes, n - 1);
        let most = max_time(outcomes, n);
        assert forall|i: int|
            0 <= i < all.len() && !((#[trigger] all[i]).verdict is Skipped) && !(all[i].verdict
                is Cancelled) && all[i].time_used is Some implies most is Some
            && all[i].time_used->0 <= most->0 by {
            if i < n - 1 {
                assert(before[i] == all[i]);
            }
        }
        if most is Some {
            if most == rest {
                let i = choose|i: int|
                    0 <= i < before.len() && !((#[trigger] before[i]).verdict is Skipped)
                        && !(before[i].verdict is Cancelled) && before[i].time_used == rest;
                assert(all[i] == before[i]);
            } else {
                assert(all[n - 1].time_used == most);
            }
        }
    }
}

proof fn lemma_largest<S>(outcomes: Seq<EvalOutcome<S>>, n: int)
    requires
        0 <= n <= outcomes.len(),
    ensures
        most_used(
            outcomes.take(n),
            |o: EvalOutcome<S>| o.memory_used,
            max_memory(outcomes, n),
        ),
    decreases n,
{
    if n > 0 {
        lemma_largest(outcomes, n - 1);
        let before = outcomes.take(n - 1);
        let all = outcomes.take(n);
        let rest = max_memory(outcomes, n - 1);
        let most = max_memory(outcomes, n);
        assert forall|i: int|
            0 <= i < all.len() && !((#[trigger] all[i]).verdict is Skipped) && !(all[i].verdict
                is Cancelled) && all[i].memory_used is Some implies most is Some
            && all[i].memory_used->0 <= most->0 by {
            if i < n - 1 {
                assert(before[i] == all[i]);
            }
        }
        if most is Some {
            if most == rest {
                let i = choose|i: int|
                    0 <= i < before.len() && !((#[trigger] before[i]).verdict is Skipped)
                        && !(before[i].verdict is Cancelled) && before[i].memory_used == rest;
                assert(all[i] == before[i]);
            } else {
                assert(all[n - 1].memory_used == most);
            }
        }
    }
}

/// The verdict of a submission is that of a judged case than which no judged
/// case is graver; of those equally grave, the last.
pub proof fn a_summary_tells_the_gravest_verdict<S>(
    s: Summary,
    outcomes: Seq<EvalOutcome<S>>,
    severity: Seq<u32>,
)
    requires
        severity.len() == outcomes.len(),
        summary_is(s, outcomes, severity),
    ensures
        s.judged <==> exists|i: int|
            0 <= i < outcomes.len() && !((#[trigger] outcomes[i]).verdict is Skipped)
                && !(outcomes[i].verdict is Cancelled),
        !s.judged ==> s.verdict is SystemError,
        s.judged ==> exists|w: int|
            {
                &&& 0 <= w < outcomes.len()
                &&& s.verdict == (#[trigger] outcomes[w]).verdict
                &&& !(s.verdict is Skipped) && !(s.verdict is Cancelled)
                &&& forall|i: int|
                    0 <= i < outcomes.len() && !((#[trigger] outcomes[i]).verdict is Skipped)
                        && !(outcomes[i].verdict is Cancelled) ==> severity[i] < severity[w]
                        || (severity[i] == severity[w] && i <= w)
            },
{
    lemma_gravest(outcomes, severity, outcomes.len() as int);
    lemma_worst_bound(outcomes, severity, outcomes.len() as int);
    match worst(outcomes, severity, outcomes.len() as int) {
        Some(w) => {
            assert(s.verdict == outcomes[w].verdict);
        },
        None => {},
    }
}

proof fn lemma_gravest<S>(outcomes: Seq<EvalOutcome<S>>, severity: Seq<u32>, n: int)
    requires
        severity.len() == outcomes.len(),
        0 <= n <= outcomes.len(),
    ensures
        worst(outcomes, severity, n) matches Some(w) ==> 0 <= w < n && forall|i: int|
            0 <= i < n && !((#[trigger] outcomes[i]).verdict is Skipped) && !(outcomes[i].verdict
                is Cancelled) ==> severity[i] < severity[w] || (severity[i] == severity[w] && i
                <= w),
    decreases n,
{
    if n > 0 {
        lemma_gravest(outcomes, severity, n - 1);
        lemma_worst_bound(outcomes, severity, n - 1);
    }
}

/// The update that ends a judgement: it is of that judgement; a compilation error
/// is told by the status, with the message of the first case that has it and
/// without a verdict; any other verdict is stored with the status `Judged`.
pub proof fn an_update_tells_what_came_of_it<S, T>(
    u: SubmissionUpdate<T>,
    at: JudgementRef,
    outcomes: Seq<EvalOutcome<S>>,
    severity: Seq<u32>,
    score: T,
    s: Summary,
)
    requires
        terminal_update(u, at, outcomes, severity, score),
        summary_is(s, outcomes, severity),
    ensures
        u.submission_id == at.submission_id,
        u.judgement_id == at.judgement_id,
        u.judge_epoch == at.judge_epoch,
        u.score == Some(score),
        s.verdict is CompileError ==> {
            &&& u.status == Some(SubmissionStatus::CompilationError)
            &&& u.verdict == Some(None::<Verdict>)
            &&& exists|i: int|
                {
                    &&& 0 <= i < outcomes.len()
                    &&& (#[trigger] outcomes[i]).verdict is CompileError
                    &&& u.compile_output == Some(outcomes[i].message)
                    &&& forall|k: int|
                        0 <= k < i ==> !((#[trigger] outcomes[k]).verdict is CompileError)
                }
        },
        !(s.verdict is CompileError) ==> {
            &&& u.status == Some(SubmissionStatus::Judged)
            &&& u.verdict == Some(Some(s.verdict))
            &&& u.compile_output == Some(None::<String>)
        },
{
    if s.verdict is CompileError {
        let i = choose|i: int| #[trigger]
            first_compile_error(outcomes, i) && u.compile_output == Some(outcomes[i].message);
        assert(outcomes[i].verdict is CompileError);
    }
}

/// Whether the update reached the submission. An update of no row means that a
/// newer judgement has taken over.
pub fn still_current(affected: u64) -> (r: bool)
    ensures
        r == (affected != 0),
{
    affected != 0
}

/// What is summed up of outcomes: the most time and the most memory that a judged one of
/// them used.
pub proof fn summing_up_finds_the_most_used<S>(
    outcomes: &Vec<EvalOutcome<S>>,
    severity: &Vec<u32>,
    r: Summary,
)
    requires
        call_ensures(summarize::<S>, (outcomes, severity), r),
    ensures
        most_used(outcomes@, |o: EvalOutcome<S>| o.time_used, r.time_used),
        most_used(outcomes@, |o: EvalOutcome<S>| o.memory_used, r.memory_used),
{
    a_summary_tells_the_most_used(r, outcomes@, severity@);
}

/// A submission is stored with the score where something of it was judged, else with none,
/// and with the most time and memory that a judged outcome used.
pub proof fn the_score_is_stored_where_something_was_judged<S, T>(
    at: JudgementRef,
    outcomes: &Vec<EvalOutcome<S>>,
    severity: &Vec<u32>,
    score: T,
    zero: T,
    r: SubmissionUpdate<T>,
)
    requires
        call_ensures(final_update::<S, T>, (at, outcomes, severity, score, zero), r),
    ensures
        (exists|i: int|
            0 <= i < outcomes@.len() && !((#[trigger] outcomes@[i]).verdict is Skipped)
                && !(outcomes@[i].verdict is Cancelled)) ==> r.score == Some(score),
        (forall|i: int|
            0 <= i < outcomes@.len() ==> (#[trigger] outcomes@[i]).verdict is Skipped
                || outcomes@[i].verdict is Cancelled) ==> r.score == Some(zero),
        r.time_used is Some && most_used(
            outcomes@,
            |o: EvalOutcome<S>| o.time_used,
            r.time_used->0,
        ),
        r.memory_used is Some && most_used(
            outcomes@,
            |o: EvalOutcome<S>| o.memory_used,
            r.memory_used->0,
        ),
{
    if exists|i: int|
        0 <= i < outcomes@.len() && !((#[trigger] outcomes@[i]).verdict is Skipped)
            && !(outcomes@[i].verdict is Cancelled) {
        let i = choose|i: int|
            0 <= i < outcomes@.len() && !((#[trigger] outcomes@[i]).verdict is Skipped)
                && !(outcomes@[i].verdict is Cancelled);
        assert(!outcomes@[i].verdict.not_judged());
        the_most_used_is_stored(r, at, outcomes@, severity@, score);
    } else {
        the_most_used_is_stored(r, at, outcomes@, severity@, zero);
    }
}

/// A judgement is current where its row was found.
pub proof fn a_judgement_is_current_where_its_row_is(affected: u64, r: bool)
    requires
        call_ensures(still_current, (affected,), r),
    ensures
        affected == 0 ==> !r,
        affected >= 1 ==> r,
{
}

} // verus!
