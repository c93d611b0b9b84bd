//! Test cases, their results, and what is written about a submission.

use vstd::prelude::*;

use crate::checkers::types::{JudgeFile, SourceFile};
use crate::verdict::Verdict;
use crate::text;

verus! {

/// A number of points, and whether it is above zero.
#[derive(Debug, Clone, Copy, PartialEq, Eq)]
pub struct Points<S> {
    pub value: S,
    pub positive: bool,
}

/// Where a raw score between zero and one lies.
#[derive(Debug, Clone, Copy, PartialEq, Eq, Structural)]
pub enum RawClass {
    Zero,
    Partial,
    Full,
}

/// A raw score, and where it lies.
#[derive(Debug, Clone, Copy, PartialEq, Eq)]
pub struct Raw<S> {
    pub value: S,
    pub class: RawClass,
}

#[derive(Debug, Clone, Copy, PartialEq, Eq, Structural)]
pub enum SubmissionStatus {
    Compiling,
    Running,
    Judged,
    CompilationError,
}

/// A test case of a problem.
#[derive(Debug, Clone, PartialEq, Eq)]
pub struct TestCaseRow<S> {
    pub id: i32,
    pub score: Points<S>,
    pub is_sample: bool,
    pub position: i32,
    pub description: Option<String>,
    pub label: Option<String>,
    pub input: JudgeFile,
    pub expected_output: JudgeFile,
    pub is_custom: bool,
}

/// What an evaluator says of one test case.
#[derive(Debug, Clone, PartialEq, Eq)]
pub struct TestCaseVerdict<S> {
    pub test_case_id: i32,
    pub verdict: Verdict,
    pub score: Raw<S>,
    pub time_used_ms: Option<i64>,
    pub memory_used_kb: Option<i64>,
    pub message: Option<String>,
    pub stdout: Option<String>,
    pub stderr: Option<String>,
}

/// The outcome of one test case.
#[derive(Debug, Clone, PartialEq, Eq)]
pub struct EvalOutcome<S> {
    pub test_case_id: i32,
    pub verdict: Verdict,
    pub raw_score: Raw<S>,
    pub time_used: Option<i32>,
    pub memory_used: Option<i32>,
    pub message: Option<String>,
    pub stdout: Option<String>,
    pub stderr: Option<String>,
}

/// What is stored of one test case. A custom case is known by the index of its
/// run, the others by their id. The weight is that of the case, where it is
/// one of the problem's.
#[derive(Debug, Clone, PartialEq, Eq)]
pub struct TestCaseResultRow<S> {
    pub submission_id: i32,
    pub judgement_id: i32,
    pub judge_epoch: i32,
    pub test_case_id: Option<i32>,
    pub run_index: Option<i32>,
    pub verdict: Verdict,
    pub raw_score: Raw<S>,
    pub weight: Option<Points<S>>,
    pub time_used: Option<i32>,
    pub memory_used: Option<i32>,
    pub message: Option<String>,
    pub stdout: Option<String>,
    pub stderr: Option<String>,
}

/// A change of a submission. `None` leaves a field as it is.
#[derive(Debug, Clone, PartialEq, Eq)]
pub struct SubmissionUpdate<S> {
    pub submission_id: i32,
    pub judgement_id: i32,
    pub judge_epoch: i32,
    pub status: Option<SubmissionStatus>,
    pub verdict: Option<Option<Verdict>>,
    pub score: Option<S>,
    pub time_used: Option<Option<i32>>,
    pub memory_used: Option<Option<i32>>,
    pub compile_output: Option<Option<String>>,
    pub error_code: Option<Option<String>>,
    pub error_message: Option<Option<String>>,
}

/// The submission that is judged, and which judgement of it this is.
#[derive(Debug, Clone, Copy, PartialEq, Eq, Structural)]
pub struct JudgementRef {
    pub submission_id: i32,
    pub judgement_id: i32,
    pub judge_epoch: i32,
}

/// A submission to judge.
#[derive(Debug, Clone, PartialEq, Eq)]
pub struct OnSubmissionInput<S> {
    pub submission_id: i32,
    pub judgement_id: i32,
    pub fire_after_judging: bool,
    pub user_id: i32,
    pub problem_id: i32,
    pub contest_id: Option<i32>,
    pub files: Vec<SourceFile>,
    pub language: String,
    pub time_limit_ms: i32,
    pub memory_limit_kb: i32,
    pub problem_type: String,
    pub test_cases: Vec<TestCaseRow<S>>,
    pub judge_epoch: i32,
    pub target_worker_id: Option<String>,
}

/// What came of a submission.
#[derive(Debug, Clone, PartialEq, Eq)]
pub struct OnSubmissionOutput {
    pub success: bool,
    pub error_message: Option<String>,
}

// ---------------------------------------------------------------------------
// From results to outcomes
// ---------------------------------------------------------------------------

/// A measurement within what is stored.
pub open spec fn clamped(v: Option<i64>) -> Option<i32> {
    match v {
        None => None,
        Some(t) => Some(
            if t < 0 {
                0i32
            } else if t > i32::MAX {
                i32::MAX
            } else {
                t as i32
            },
        ),
    }
}

fn clamp_measure(v: Option<i64>) -> (r: Option<i32>)
    ensures
        r == clamped(v),
{
    match v {
        None => None,
        Some(t) => Some(
            if t < 0 {
                0
            } else if t > 0x7fff_ffff {
                0x7fff_ffff
            } else {
                t as i32
            },
        ),
    }
}

/// The outcome that a result stands for.
pub open spec fn outcome_of<S>(v: TestCaseVerdict<S>) -> EvalOutcome<S> {
    EvalOutcome {
        test_case_id: v.test_case_id,
        verdict: v.verdict,
        raw_score: v.score,
        time_used: clamped(v.time_used_ms),
        memory_used: clamped(v.memory_used_kb),
        message: v.message,
        stdout: v.stdout,
        stderr: v.stderr,
    }
}

pub fn to_outcome<S>(v: TestCaseVerdict<S>) -> (r: EvalOutcome<S>)
    ensures
        r == outcome_of(v),
{
    EvalOutcome {
        test_case_id: v.test_case_id,
        verdict: v.verdict,
        raw_score: v.score,
        time_used: clamp_measure(v.time_used_ms),
        memory_used: clamp_measure(v.memory_used_kb),
        message: v.message,
        stdout: v.stdout,
        stderr: v.stderr,
    }
}

/// An outcome that no run produced: this verdict, no points, this message.
pub open spec fn filled<S>(
    o: EvalOutcome<S>,
    id: i32,
    verdict: Verdict,
    zero: S,
    message: Seq<char>,
) -> bool {
    &&& o.test_case_id == id
    &&& o.verdict == verdict
    &&& o.raw_score == (Raw { value: zero, class: RawClass::Zero })
    &&& o.time_used is None
    &&& o.memory_used is None
    &&& o.message matches Some(m) && m@ == message
    &&& o.stdout is None
    &&& o.stderr is None
}

pub fn fill_outcome<S>(id: i32, verdict: Verdict, zero: S, message: &str) -> (r: EvalOutcome<S>)
    ensures
        filled(r, id, verdict, zero, message@),
{
    EvalOutcome {
        test_case_id: id,
        verdict,
        raw_score: Raw { value: zero, class: RawClass::Zero },
        time_used: None,
        memory_used: None,
        message: Some(message.to_owned()),
        stdout: None,
        stderr: None,
    }
}

/// Whether one of the outcomes is of this case.
pub open spec fn has_outcome<S>(outcomes: Seq<EvalOutcome<S>>, id: i32) -> bool {
    exists|i: int| 0 <= i < outcomes.len() && (#[trigger] outcomes[i]).test_case_id == id
}

pub fn outcome_known<S>(outcomes: &Vec<EvalOutcome<S>>, id: i32) -> (r: bool)
    ensures
        r == has_outcome(outcomes@, id),
{
    let mut i: usize = 0;
    while i < outcomes.len()
        invariant
            i <= outcomes@.len(),
            forall|j: int| 0 <= j < i ==> (#[trigger] outcomes@[j]).test_case_id != id,
        decreases outcomes@.len() - i,
    {
        if outcomes[i].test_case_id == id {
            return true;
        }
        i += 1;
    }
    false
}

/// The ids of the cases.
pub open spec fn case_ids<S>(cases: Seq<TestCaseRow<S>>) -> Seq<i32> {
    cases.map_values(|c: TestCaseRow<S>| c.id)
}

/// Those of `ids` that have no outcome yet, each once, in order.
pub open spec fn missing<S>(ids: Seq<i32>, outcomes: Seq<EvalOutcome<S>>) -> Seq<i32>
    decreases ids.len(),
{
    if ids.len() == 0 {
        seq![]
    } else {
        let rest = missing(ids.drop_last(), outcomes);
        if has_outcome(outcomes, ids.last()) || rest.contains(ids.last()) {
            rest
        } else {
            rest.push(ids.last())
        }
    }
}

/// The outcomes, followed by one for each of the ids in `gaps`.
pub open spec fn followed_by<S>(
    after: Seq<EvalOutcome<S>>,
    before: Seq<EvalOutcome<S>>,
    gaps: Seq<i32>,
    verdict: Verdict,
    zero: S,
    message: Seq<char>,
) -> bool {
    &&& after.len() == before.len() + gaps.len()
    &&& after.take(before.len() as int) == before
    &&& forall|k: int|
        0 <= k < gaps.len() ==> filled(
            #[trigger] after[before.len() + k],
            gaps[k],
            verdict,
            zero,
            message,
        )
}

/// The outcomes, followed by one for each id without one.
pub open spec fn filled_up<S>(
    after: Seq<EvalOutcome<S>>,
    before: Seq<EvalOutcome<S>>,
    ids: Seq<i32>,
    verdict: Verdict,
    zero: S,
    message: Seq<char>,
) -> bool {
    followed_by(after, before, missing(ids, before), verdict, zero, message)
}

/// Those of `ids` that have no outcome, in order; an id as often as it occurs.
pub open spec fn lacking<S>(ids: Seq<i32>, outcomes: Seq<EvalOutcome<S>>) -> Seq<i32>
    decreases ids.len(),
{
    if ids.len() == 0 {
        seq![]
    } else {
        let rest = lacking(ids.drop_last(), outcomes);
        if has_outcome(outcomes, ids.last()) {
            rest
        } else {
            rest.push(ids.last())
        }
    }
}

/// The outcomes, followed by one for every case whose id has none.
pub open spec fn filled_each<S>(
    after: Seq<EvalOutcome<S>>,
    before: Seq<EvalOutcome<S>>,
    ids: Seq<i32>,
    verdict: Verdict,
    zero: S,
    message: Seq<char>,
) -> bool {
    followed_by(after, before, lacking(ids, before), verdict, zero, message)
}

proof fn lemma_has_after_push<S>(outcomes: Seq<EvalOutcome<S>>, o: EvalOutcome<S>, id: i32)
    ensures
        has_outcome(outcomes.push(o), id) <==> has_outcome(outcomes, id) || o.test_case_id == id,
{
    let all = outcomes.push(o);
    if has_outcome(outcomes, id) {
        let i = choose|i: int|
            0 <= i < outcomes.len() && (#[trigger] outcomes[i]).test_case_id == id;
        assert(all[i].test_case_id == id);
    }
    if o.test_case_id == id {
        assert(all[outcomes.len() as int].test_case_id == id);
    }
    if has_outcome(all, id) {
        let i = choose|i: int| 0 <= i < all.len() && (#[trigger] all[i]).test_case_id == id;
        if i < outcomes.len() {
            assert(outcomes[i].test_case_id == id);
        }
    }
}

/// Adds an outcome for every case that has none.
pub fn fill_up<S: Copy>(
    outcomes: &mut Vec<EvalOutcome<S>>,
    ids: &Vec<i32>,
    verdict: Verdict,
    zero: S,
    message: &str,
)
    ensures
        filled_up(final(outcomes)@, old(outcomes)@, ids@, verdict, zero, message@),
{
    let ghost before = outcomes@;
    let mut i: usize = 0;
    proof {
        assert(before.take(before.len() as int) =~= before);
        assert(ids@.take(0) =~= Seq::<i32>::empty());
    }
    while i < ids.len()
        invariant
            i <= ids@.len(),
            filled_up(outcomes@, before, ids@.take(i as int), verdict, zero, message@),
            forall|id: i32| #[trigger]
                has_outcome(outcomes@, id) <==> has_outcome(before, id) || missing(
                    ids@.take(i as int),
                    before,
                ).contains(id),
        decreases ids@.len() - i,
    {
        let ghost gaps = missing(ids@.take(i as int), before);
        let ghost o0 = outcomes@;
        let id: i32 = ids[i];
        assert(ids@.take(i as int + 1).drop_last() =~= ids@.take(i as int));
        assert(ids@.take(i as int + 1).last() == id);
        if !outcome_known(outcomes, id) {
            let o = fill_outcome(id, verdict, zero, message);
            outcomes.push(o);
            proof {
                assert(missing(ids@.take(i as int + 1), before) == gaps.push(id));
                assert(outcomes@.take(before.len() as int) =~= o0.take(before.len() as int));
                assert forall|k: int| 0 <= k < gaps.push(id).len() implies filled(
                    #[trigger] outcomes@[before.len() + k],
                    gaps.push(id)[k],
                    verdict,
                    zero,
                    message@,
                ) by {
                    if k < gaps.len() {
                        assert(outcomes@[before.len() + k] == o0[before.len() + k]);
                    }
                }
                assert forall|x: i32| #[trigger] has_outcome(outcomes@, x) <==> has_outcome(
                    before,
                    x,
                ) || gaps.push(id).contains(x) by {
                    lemma_has_after_push(o0, o, x);
                    assert(has_outcome(o0, x) <==> has_outcome(before, x) || gaps.contains(x));
                    if gaps.contains(x) {
                        let j = choose|j: int| 0 <= j < gaps.len() && gaps[j] == x;
                        assert(gaps.push(id)[j] == x);
                    }
                    if x == id {
                        assert(gaps.push(id)[gaps.len() as int] == x);
                    }
                }
            }
        } else {
            assert(missing(ids@.take(i as int + 1), before) == gaps);
        }
        i += 1;
    }
    assert(ids@.take(i as int) =~= ids@);
}

/// Adds an outcome for every case whose id has none, also where the id occurs
/// more than once.
pub fn fill_each<S: Copy>(
    outcomes: &mut Vec<EvalOutcome<S>>,
    ids: &Vec<i32>,
    verdict: Verdict,
    zero: S,
    message: &str,
)
    ensures
        filled_each(final(outcomes)@, old(outcomes)@, ids@, verdict, zero, message@),
{
    let ghost before = outcomes@;
    let mut gaps: Vec<i32> = Vec::new();
    let mut i: usize = 0;
    assert(ids@.take(0) =~= Seq::<i32>::empty());
    while i < ids.len()
        invariant
            i <= ids@.len(),
            outcomes@ == before,
            gaps@ == lacking(ids@.take(i as int), before),
        decreases ids@.len() - i,
    {
        assert(ids@.take(i as int + 1).drop_last() =~= ids@.take(i as int));
        assert(ids@.take(i as int + 1).last() == ids@[i as int]);
        if !outcome_known(outcomes, ids[i]) {
            gaps.push(ids[i]);
        }
        i += 1;
    }
    assert(ids@.take(i as int) =~= ids@);
    assert(before.take(before.len() as int) =~= before);
    let mut k: usize = 0;
    while k < gaps.len()
        invariant
            k <= gaps@.len(),
            followed_by(outcomes@, before, gaps@.take(k as int), verdict, zero, message@),
        decreases gaps@.len() - k,
    {
        let ghost o0 = outcomes@;
        outcomes.push(fill_outcome(gaps[k], verdict, zero, message));
        proof {
            let next = gaps@.take(k as int + 1);
            assert(outcomes@.take(before.len() as int) =~= o0.take(before.len() as int));
            assert forall|j: int| 0 <= j < next.len() implies filled(
                #[trigger] outcomes@[before.len() + j],
                next[j],
                verdict,
                zero,
                message@,
            ) by {
                if j < k {
                    assert(outcomes@[before.len() + j] == o0[before.len() + j]);
                    assert(next[j] == gaps@.take(k as int)[j]);
                }
            }
        }
        k += 1;
    }
    assert(gaps@.take(k as int) =~= gaps@);
}

/// After every case has been filled, every case has an outcome.
pub proof fn filling_each_leaves_no_gap<S>(
    after: Seq<EvalOutcome<S>>,
    before: Seq<EvalOutcome<S>>,
    ids: Seq<i32>,
    verdict: Verdict,
    zero: S,
    message: Seq<char>,
    i: int,
)
    requires
        filled_each(after, before, ids, verdict, zero, message),
        0 <= i < ids.len(),
    ensures
        has_outcome(after, ids[i]),
{
    let gaps = lacking(ids, before);
    if has_outcome(before, ids[i]) {
        let j = choose|j: int|
            0 <= j < before.len() && (#[trigger] before[j]).test_case_id == ids[i];
        assert(after.take(before.len() as int)[j] == after[j]);
        assert(after[j].test_case_id == ids[i]);
    } else {
        lemma_lacking_covers(ids, before, i);
        let k = choose|k: int| 0 <= k < gaps.len() && gaps[k] == ids[i];
        assert(filled(after[before.len() + k], gaps[k], verdict, zero, message));
        assert(after[before.len() + k].test_case_id == ids[i]);
    }
}

proof fn lemma_lacking_covers<S>(ids: Seq<i32>, outcomes: Seq<EvalOutcome<S>>, i: int)
    requires
        0 <= i < ids.len(),
        !has_outcome(outcomes, ids[i]),
    ensures
        lacking(ids, outcomes).contains(ids[i]),
    decreases ids.len(),
{
    let rest = lacking(ids.drop_last(), outcomes);
    let all = lacking(ids, outcomes);
    if i < ids.len() - 1 {
        lemma_lacking_covers(ids.drop_last(), outcomes, i);
        let j = choose|j: int| 0 <= j < rest.len() && rest[j] == ids[i];
        assert(all[j] == ids[i]);
    } else {
        assert(all[rest.len() as int] == ids[i]);
    }
}

/// After filling up, every case has an outcome.
pub proof fn filling_leaves_no_gap<S>(
    after: Seq<EvalOutcome<S>>,
    before: Seq<EvalOutcome<S>>,
    ids: Seq<i32>,
    verdict: Verdict,
    zero: S,
    message: Seq<char>,
    i: int,
)
    requires
        filled_up(after, before, ids, verdict, zero, message),
        0 <= i < ids.len(),
    ensures
        has_outcome(after, ids[i]),
{
    lemma_missing_covers(ids, before, i);
    let gaps = missing(ids, before);
    if has_outcome(before, ids[i]) {
        let j = choose|j: int|
            0 <= j < before.len() && (#[trigger] before[j]).test_case_id == ids[i];
        assert(after.take(before.len() as int)[j] == after[j]);
        assert(after[j].test_case_id == ids[i]);
    } else {
        let k = choose|k: int| 0 <= k < gaps.len() && gaps[k] == ids[i];
        assert(filled(after[before.len() + k], gaps[k], verdict, zero, message));
        assert(after[before.len() + k].test_case_id == ids[i]);
    }
}

proof fn lemma_missing_covers<S>(ids: Seq<i32>, outcomes: Seq<EvalOutcome<S>>, i: int)
    requires
        0 <= i < ids.len(),
    ensures
        has_outcome(outcomes, ids[i]) || missing(ids, outcomes).contains(ids[i]),
    decreases ids.len(),
{
    let rest = missing(ids.drop_last(), outcomes);
    let all = missing(ids, outcomes);
    if i < ids.len() - 1 {
        lemma_missing_covers(ids.drop_last(), outcomes, i);
        assert(ids.drop_last()[i] == ids[i]);
        if rest.contains(ids[i]) {
            let j = choose|j: int| 0 <= j < rest.len() && rest[j] == ids[i];
            assert(all[j] == ids[i]);
        }
    } else if !has_outcome(outcomes, ids[i]) && !rest.contains(ids[i]) {
        assert(all[rest.len() as int] == ids[i]);
    }
}

// ---------------------------------------------------------------------------
// Stored rows
// ---------------------------------------------------------------------------

/// Text as the database takes it: a replacement character for every NUL.
pub open spec fn sanitized(s: Seq<char>) -> Seq<char> {
    s.map_values(
        |c: char|
            if c == '\0' {
                '\u{FFFD}'
            } else {
                c
            },
    )
}

pub open spec fn sanitized_opt(s: Option<String>) -> Option<Seq<char>> {
    match s {
        Some(t) => Some(sanitized(t@)),
        None => None,
    }
}

fn sanitize(s: &str) -> (r: String)
    ensures
        r@ == sanitized(s@),
{
    let mut out = String::new();
    for c in it: s.chars()
        invariant
            it.seq() == s@,
            out@ == sanitized(s@.take(it.index() as int)),
    {
        let d: char = if c == '\0' {
            '\u{FFFD}'
        } else {
            c
        };
        out.push(d);
        assert(sanitized(s@.take(it.index() as int + 1)) =~= sanitized(
            s@.take(it.index() as int),
        ).push(d));
    }
    assert(s@.take(s@.len() as int) =~= s@);
    out
}

pub fn sanitize_optional_text(value: &Option<String>) -> (r: Option<String>)
    ensures
        text::opt_view(r) == sanitized_opt(*value),
{
    match value {
        Some(s) => Some(sanitize(s.as_str())),
        None => None,
    }
}

/// Stored text holds no NUL.
pub proof fn sanitized_text_has_no_nul(s: Seq<char>)
    ensures
        sanitized(s).len() == s.len(),
        forall|i: int| 0 <= i < s.len() ==> #[trigger] sanitized(s)[i] != '\0',
        (forall|i: int| 0 <= i < s.len() ==> #[trigger] s[i] != '\0') ==> sanitized(s) == s,
{
    if forall|i: int| 0 <= i < s.len() ==> #[trigger] s[i] != '\0' {
        assert(sanitized(s) =~= s);
    }
}

/// The case of this id among `cases`: the last one that bears it.
pub open spec fn case_at<S>(cases: Seq<TestCaseRow<S>>, id: i32) -> Option<TestCaseRow<S>>
    decreases cases.len(),
{
    if cases.len() == 0 {
        None
    } else if cases.last().id == id {
        Some(cases.last())
    } else {
        case_at(cases.drop_last(), id)
    }
}

pub fn find_case<S>(cases: &Vec<TestCaseRow<S>>, id: i32) -> (r: Option<usize>)
    ensures
        match r {
            Some(i) => i < cases@.len() && case_at(cases@, id) == Some(cases@[i as int]),
            None => case_at(cases@, id) is None,
        },
{
    let mut n: usize = cases.len();
    assert(cases@.take(n as int) =~= cases@);
    while n > 0
        invariant
            n <= cases@.len(),
            case_at(cases@.take(n as int), id) == case_at(cases@, id),
        decreases n,
    {
        assert(cases@.take(n as int).last() == cases@[n as int - 1]);
        if cases[n - 1].id == id {
            return Some(n - 1);
        }
        assert(cases@.take(n as int).drop_last() =~= cases@.take(n as int - 1));
        n -= 1;
    }
    None
}

/// The row that stores an outcome.
pub open spec fn row_is<S>(
    row: TestCaseResultRow<S>,
    at: JudgementRef,
    o: EvalOutcome<S>,
    cases: Seq<TestCaseRow<S>>,
) -> bool {
    let case = case_at(cases, o.test_case_id);
    let custom = case matches Some(c) && c.is_custom;
    &&& row.submission_id == at.submission_id
    &&& row.judgement_id == at.judgement_id
    &&& row.judge_epoch == at.judge_epoch
    &&& row.test_case_id == (if custom {
        None
    } else {
        Some(o.test_case_id)
    })
    &&& row.run_index == (if custom {
        Some(o.test_case_id)
    } else {
        None
    })
    &&& row.verdict == o.verdict
    &&& row.raw_score == o.raw_score
    &&& row.weight == (match case {
        Some(c) => Some(c.score),
        None => None,
    })
    &&& row.time_used == o.time_used
    &&& row.memory_used == o.memory_used
    &&& text::opt_view(row.message) == sanitized_opt(o.message)
    &&& text::opt_view(row.stdout) == sanitized_opt(o.stdout)
    &&& text::opt_view(row.stderr) == sanitized_opt(o.stderr)
}

pub fn build_tc_row<S: Copy>(
    at: JudgementRef,
    outcome: &EvalOutcome<S>,
    cases: &Vec<TestCaseRow<S>>,
) -> (r: TestCaseResultRow<S>)
    ensures
        row_is(r, at, *outcome, cases@),
{
    let id: i32 = outcome.test_case_id;
    let (is_custom, weight) = match find_case(cases, id) {
        Some(i) => (cases[i].is_custom, Some(cases[i].score)),
        None => (false, None),
    };
    TestCaseResultRow {
        submission_id: at.submission_id,
        judgement_id: at.judgement_id,
        judge_epoch: at.judge_epoch,
        test_case_id: if is_custom {
            None
        } else {
            Some(id)
        },
        run_index: if is_custom {
            Some(id)
        } else {
            None
        },
        verdict: outcome.verdict,
        raw_score: outcome.raw_score,
        weight,
        time_used: outcome.time_used,
        memory_used: outcome.memory_used,
        message: sanitize_optional_text(&outcome.message),
        stdout: sanitize_optional_text(&outcome.stdout),
        stderr: sanitize_optional_text(&outcome.stderr),
    }
}

/// How many rows are collected before they are stored.
pub const RESULT_BATCH_FLUSH_THRESHOLD: usize = 8;

/// Rows on their way to the database. They are stored in batches.
#[derive(Debug)]
pub struct RowBuffer<S> {
    pub rows: Vec<TestCaseResultRow<S>>,
}

impl<S> RowBuffer<S> {
    pub open spec fn wf(&self) -> bool {
        self.rows@.len() < RESULT_BATCH_FLUSH_THRESHOLD
    }

    pub fn new() -> (r: Self)
        ensures
            r.wf(),
            r.rows@.len() == 0,
    {
        RowBuffer { rows: Vec::new() }
    }

    /// Adds a row. A full buffer is handed out to be stored.
    pub fn push(&mut self, row: TestCaseResultRow<S>) -> (r: Option<Vec<TestCaseResultRow<S>>>)
        requires
            old(self).wf(),
        ensures
            final(self).wf(),
            ({
                let all = old(self).rows@.push(row);
                if all.len() >= RESULT_BATCH_FLUSH_THRESHOLD {
                    (r matches Some(batch) && batch@ == all) && final(self).rows@.len() == 0
                } else {
                    r is None && final(self).rows@ == all
                }
            }),
    {
        self.rows.push(row);
        if self.rows.len() >= RESULT_BATCH_FLUSH_THRESHOLD {
            let mut batch: Vec<TestCaseResultRow<S>> = Vec::new();
            std::mem::swap(&mut batch, &mut self.rows);
            Some(batch)
        } else {
            None
        }
    }

    /// Hands out what is left.
    pub fn flush(&mut self) -> (r: Option<Vec<TestCaseResultRow<S>>>)
        ensures
            final(self).wf(),
            final(self).rows@.len() == 0,
            if old(self).rows@.len() == 0 {
                r is None
            } else {
                r matches Some(batch) && batch@ == old(self).rows@
            },
    {
        if self.rows.len() == 0 {
            return None;
        }
        let mut batch: Vec<TestCaseResultRow<S>> = Vec::new();
        std::mem::swap(&mut batch, &mut self.rows);
        Some(batch)
    }
}

/// All rows of the batches, in order.
pub open spec fn all_rows<S>(batches: Seq<Vec<TestCaseResultRow<S>>>) -> Seq<TestCaseResultRow<S>>
    decreases batches.len(),
{
    if batches.len() == 0 {
        seq![]
    } else {
        all_rows(batches.drop_last()) + batches.last()@
    }
}

/// The rows that store these outcomes, in order.
pub open spec fn rows_store<S>(
    rows: Seq<TestCaseResultRow<S>>,
    at: JudgementRef,
    outcomes: Seq<EvalOutcome<S>>,
    cases: Seq<TestCaseRow<S>>,
) -> bool {
    &&& rows.len() == outcomes.len()
    &&& forall|i: int|
        0 <= i < rows.len() ==> row_is(#[trigger] rows[i], at, outcomes[i], cases)
}

/// Sends the outcomes from `from` on through the buffer; gives the batches
/// that are to be stored now. At the end the buffer is emptied.
pub fn record_outcomes<S: Copy>(
    buffer: &mut RowBuffer<S>,
    at: JudgementRef,
    outcomes: &Vec<EvalOutcome<S>>,
    from: usize,
    cases: &Vec<TestCaseRow<S>>,
    finish: bool,
) -> (batches: Vec<Vec<TestCaseResultRow<S>>>)
    requires
        old(buffer).wf(),
        from <= outcomes@.len(),
    ensures
        final(buffer).wf(),
        finish ==> final(buffer).rows@.len() == 0,
        exists|rows: Seq<TestCaseResultRow<S>>| #[trigger]
            rows_store(rows, at, outcomes@.skip(from as int), cases@) && all_rows(batches@)
                + final(buffer).rows@ == old(buffer).rows@ + rows,
        forall|i: int|
            0 <= i < batches@.len() ==> 0 < (#[trigger] batches@[i])@.len()
                <= RESULT_BATCH_FLUSH_THRESHOLD,
        batches@.len() * RESULT_BATCH_FLUSH_THRESHOLD <= old(buffer).rows@.len() + outcomes@.len()
            - from + (if finish {
            RESULT_BATCH_FLUSH_THRESHOLD - 1
        } else {
            0
        }),
{
    let ghost start = buffer.rows@;
    let ghost mut rows: Seq<TestCaseResultRow<S>> = Seq::empty();
    let mut batches: Vec<Vec<TestCaseResultRow<S>>> = Vec::new();
    let mut i: usize = from;
    proof {
        assert(all_rows(batches@) + buffer.rows@ =~= start + rows);
    }
    while i < outcomes.len()
        invariant
            from <= i <= outcomes@.len(),
            buffer.wf(),
            rows_store(rows, at, outcomes@.subrange(from as int, i as int), cases@),
            all_rows(batches@) + buffer.rows@ == start + rows,
            forall|k: int|
                0 <= k < batches@.len() ==> 0 < (#[trigger] batches@[k])@.len()
                    <= RESULT_BATCH_FLUSH_THRESHOLD,
            batches@.len() * RESULT_BATCH_FLUSH_THRESHOLD + buffer.rows@.len() == start.len() + i
                - from,
        decreases outcomes@.len() - i,
    {
        let row = build_tc_row(at, &outcomes[i], cases);
        let ghost b0 = buffer.rows@;
        let ghost rows0 = rows;
        let ghost batches0 = batches@;
        proof {
            rows = rows.push(row);
            let part = outcomes@.subrange(from as int, i as int);
            let more = outcomes@.subrange(from as int, i as int + 1);
            assert forall|k: int| 0 <= k < rows.len() implies row_is(
                #[trigger] rows[k],
                at,
                more[k],
                cases@,
            ) by {
                if k < rows0.len() {
                    assert(rows[k] == rows0[k]);
                    assert(part[k] == more[k]);
                }
            }
        }
        match buffer.push(row) {
            Some(batch) => {
                batches.push(batch);
                proof {
                    assert(batches@.drop_last() =~= batches0);
                    assert(start + rows =~= (start + rows0).push(row));
                    assert(all_rows(batches@) == all_rows(batches0) + b0.push(row));
                    assert(all_rows(batches@) + buffer.rows@ =~= (all_rows(batches0) + b0).push(row));
                    assert forall|k: int| 0 <= k < batches@.len() implies 0 < (
                    #[trigger] batches@[k])@.len() <= RESULT_BATCH_FLUSH_THRESHOLD by {
                        if k < batches0.len() {
                            assert(batches@[k] == batches0[k]);
                        }
                    }
                }
            },
            None => {
                assert(start + rows =~= (start + rows0).push(row));
                assert(all_rows(batches@) + buffer.rows@ =~= (all_rows(batches0) + b0).push(row));
            },
        }
        i += 1;
    }
    proof {
        assert(outcomes@.subrange(from as int, i as int) =~= outcomes@.skip(from as int));
    }
    if finish {
        let ghost batches0 = batches@;
        let ghost left = buffer.rows@;
        match buffer.flush() {
            Some(batch) => {
                batches.push(batch);
                proof {
                    assert(batches@.drop_last() =~= batches0);
                    assert(all_rows(batches@) + buffer.rows@ =~= start + rows);
                    assert forall|k: int| 0 <= k < batches@.len() implies 0 < (
                    #[trigger] batches@[k])@.len() <= RESULT_BATCH_FLUSH_THRESHOLD by {
                        if k < batches0.len() {
                            assert(batches@[k] == batches0[k]);
                        }
                    }
                }
            },
            None => {
                assert(all_rows(batches@) + buffer.rows@ =~= start + rows);
            },
        }
    }
    assert(rows_store(rows, at, outcomes@.skip(from as int), cases@));
    batches
}

// ---------------------------------------------------------------------------
// The batch that is evaluated
// ---------------------------------------------------------------------------

/// What an evaluator is told about one case.
#[derive(Debug, Clone, PartialEq, Eq)]
pub struct StartEvaluateCaseInput {
    pub problem_id: i32,
    pub test_case_id: i32,
    pub solution_source: Vec<SourceFile>,
    pub solution_language: String,
    pub time_limit_ms: i32,
    pub memory_limit_kb: i32,
    pub contest_id: Option<i32>,
    pub input: JudgeFile,
    pub expected_output: JudgeFile,
    pub is_custom: bool,
    pub target_worker_id: Option<String>,
}

#[derive(Debug, Clone, PartialEq, Eq)]
pub struct StartEvaluateBatchInput {
    pub problem_type: String,
    pub test_cases: Vec<StartEvaluateCaseInput>,
}

pub fn copy_judge_file(file: &JudgeFile) -> (r: JudgeFile)
    ensures
        r == *file,
{
    match file {
        JudgeFile::Missing => JudgeFile::Missing,
        JudgeFile::Inline { text } => JudgeFile::Inline { text: text.clone() },
        JudgeFile::Blob { hash } => JudgeFile::Blob { hash: hash.clone() },
    }
}

pub fn copy_opt_text(value: &Option<String>) -> (r: Option<String>)
    ensures
        r == *value,
{
    match value {
        Some(s) => Some(s.clone()),
        None => None,
    }
}

pub fn copy_sources(files: &Vec<SourceFile>) -> (r: Vec<SourceFile>)
    ensures
        r@ == files@,
{
    let mut out: Vec<SourceFile> = Vec::new();
    let mut i: usize = 0;
    while i < files.len()
        invariant
            i <= files@.len(),
            out@ == files@.take(i as int),
        decreases files@.len() - i,
    {
        out.push(
            SourceFile {
                filename: files[i].filename.clone(),
                content: files[i].content.clone(),
            },
        );
        assert(out@ =~= files@.take(i as int + 1));
        i += 1;
    }
    assert(files@.take(i as int) =~= files@);
    out
}

pub fn copy_case<S: Copy>(tc: &TestCaseRow<S>) -> (r: TestCaseRow<S>)
    ensures
        r == *tc,
{
    TestCaseRow {
        id: tc.id,
        score: tc.score,
        is_sample: tc.is_sample,
        position: tc.position,
        description: copy_opt_text(&tc.description),
        label: copy_opt_text(&tc.label),
        input: copy_judge_file(&tc.input),
        expected_output: copy_judge_file(&tc.expected_output),
        is_custom: tc.is_custom,
    }
}

/// The case's part of a batch: the submission's files and limits, the case's
/// own input and output.
pub open spec fn case_input_is<S>(
    c: StartEvaluateCaseInput,
    req: OnSubmissionInput<S>,
    tc: TestCaseRow<S>,
) -> bool {
    &&& c.problem_id == req.problem_id
    &&& c.test_case_id == tc.id
    &&& c.solution_source@ == req.files@
    &&& c.solution_language == req.language
    &&& c.time_limit_ms == req.time_limit_ms
    &&& c.memory_limit_kb == req.memory_limit_kb
    &&& c.contest_id == req.contest_id
    &&& c.input == tc.input
    &&& c.expected_output == tc.expected_output
    &&& c.is_custom == tc.is_custom
    &&& c.target_worker_id == req.target_worker_id
}

/// The batch that evaluates these cases of a submission.
pub fn build_batch_input<S>(req: &OnSubmissionInput<S>, test_cases: &Vec<TestCaseRow<S>>) -> (r:
    StartEvaluateBatchInput)
    ensures
        r.problem_type == req.problem_type,
        r.test_cases@.len() == test_cases@.len(),
        forall|i: int|
            0 <= i < test_cases@.len() ==> case_input_is(
                #[trigger] r.test_cases@[i],
                *req,
                test_cases@[i],
            ),
{
    let mut out: Vec<StartEvaluateCaseInput> = Vec::new();
    let mut i: usize = 0;
    while i < test_cases.len()
        invariant
            i <= test_cases@.len(),
            out@.len() == i,
            forall|k: int|
                0 <= k < i ==> case_input_is(#[trigger] out@[k], *req, test_cases@[k]),
        decreases test_cases@.len() - i,
    {
        let tc = &test_cases[i];
        out.push(
            StartEvaluateCaseInput {
                problem_id: req.problem_id,
                test_case_id: tc.id,
                solution_source: copy_sources(&req.files),
                solution_language: req.language.clone(),
                time_limit_ms: req.time_limit_ms,
                memory_limit_kb: req.memory_limit_kb,
                contest_id: req.contest_id,
                input: copy_judge_file(&tc.input),
                expected_output: copy_judge_file(&tc.expected_output),
                is_custom: tc.is_custom,
                target_worker_id: copy_opt_text(&req.target_worker_id),
            },
        );
        i += 1;
    }
    StartEvaluateBatchInput { problem_type: req.problem_type.clone(), test_cases: out }
}

} // verus!
