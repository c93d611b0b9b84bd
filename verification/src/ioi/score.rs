//! The score of a task, from what is stored of its submissions.

use vstd::prelude::*;

use crate::ioi::config::{resolve_tc_label, ScoringMode, SubtaskDef, SubtaskScoringMethod};
use crate::ioi::scoring::{score_best_tokened_or_last, score_sum_best_subtask};
use crate::ioi::subtasks::{score_all_subtasks, SubtaskPoints, Units};
use crate::ioi::tokens::TokenState;
use crate::judging::{find_case, Points, Raw, RawClass, TestCaseRow};
use crate::sql::{bind_ids, Params, Query, SqlView};
use crate::text::decimal_i64;
use crate::textmap::TextMap;
use crate::verdict::Verdict;
use crate::ioi::config;
use crate::ioi::scoring;
use crate::ioi::subtasks;
use crate::judging;
use crate::sql;
use crate::text;

verus! {

/// What is stored of one test case of a submission.
#[derive(Debug, Clone, Copy, PartialEq, Eq)]
pub struct TcResultRow<S> {
    pub submission_id: i32,
    pub test_case_id: i32,
    pub score: S,
    pub verdict: Verdict,
}

/// The points of a test case.
#[derive(Debug, Clone, Copy, PartialEq, Eq)]
pub struct TcMaxScore<S> {
    pub test_case_id: i32,
    pub max_score: Points<S>,
}

#[derive(Debug, Clone, PartialEq, Eq)]
pub struct SubtaskScoreDetail<S, R> {
    pub name: String,
    pub scoring_method: SubtaskScoringMethod,
    pub score: R,
    pub max_score: S,
}

/// A stored score taken back to a raw one. Stored scores are rounded, so an
/// accepted case scores in full whatever is stored; else the stored score is
/// held against the points of the case, and a case without points has none.
pub open spec fn normalized<S, F: Fn(S, S) -> Raw<S>>(
    r: Raw<S>,
    verdict: Verdict,
    score: S,
    max: Points<S>,
    units: Units<S>,
    ratio: F,
) -> bool {
    if verdict is Accepted {
        r == (Raw { value: units.one, class: RawClass::Full })
    } else if max.positive {
        call_ensures(ratio, (score, max.value), r)
    } else {
        r == (Raw { value: units.zero, class: RawClass::Zero })
    }
}

/// Takes a stored score back to a raw one. `ratio` divides it by the points of
/// the case.
pub fn normalized_raw_score<S: Copy, F: Fn(S, S) -> Raw<S>>(
    verdict: Verdict,
    score: S,
    tc_max: Points<S>,
    units: Units<S>,
    ratio: &F,
) -> (r: Raw<S>)
    requires
        forall|a: S, b: S| #[trigger] call_requires(*ratio, (a, b)),
    ensures
        normalized(r, verdict, score, tc_max, units, *ratio),
{
    if verdict.is_accepted() {
        Raw { value: units.one, class: RawClass::Full }
    } else if tc_max.positive {
        ratio(score, tc_max.value)
    } else {
        Raw { value: units.zero, class: RawClass::Zero }
    }
}

// ---------------------------------------------------------------------------
// One submission
// ---------------------------------------------------------------------------

/// Raw scores for the rows of known cases.
pub open spec fn raws_are<S, F: Fn(S, S) -> Raw<S>>(
    raws: Seq<Raw<S>>,
    rows: Seq<TcResultRow<S>>,
    cases: Seq<TestCaseRow<S>>,
    units: Units<S>,
    ratio: F,
) -> bool {
    &&& raws.len() == rows.len()
    &&& forall|i: int|
        0 <= i < rows.len() ==> (judging::case_at(cases, rows[i].test_case_id) matches Some(tc)
            ==> normalized(
            #[trigger] raws[i],
            rows[i].verdict,
            rows[i].score,
            tc.score,
            units,
            ratio,
        ))
}

/// The raw scores by label; rows of unknown cases do not count.
pub open spec fn labelled<S>(
    raws: Seq<Raw<S>>,
    rows: Seq<TcResultRow<S>>,
    cases: Seq<TestCaseRow<S>>,
) -> Map<Seq<char>, Raw<S>>
    decreases rows.len(),
{
    if rows.len() == 0 || raws.len() != rows.len() {
        Map::empty()
    } else {
        let rest = labelled(raws.drop_last(), rows.drop_last(), cases);
        match judging::case_at(cases, rows.last().test_case_id) {
            Some(tc) => rest.insert(config::label_of(tc), raws.last()),
            None => rest,
        }
    }
}

/// The details of all subtasks.
pub open spec fn details_are<S, R, F: Fn(SubtaskPoints<S>) -> R>(
    details: Seq<SubtaskScoreDetail<S, R>>,
    defs: Seq<SubtaskDef<S>>,
    cases: Seq<TestCaseRow<S>>,
    tc_scores: Map<Seq<char>, Raw<S>>,
    units: Units<S>,
    points: F,
) -> bool {
    &&& details.len() == defs.len()
    &&& forall|i: int|
        0 <= i < defs.len() ==> {
            &&& (#[trigger] details[i]).name == defs[i].name
            &&& details[i].scoring_method == defs[i].scoring_method
            &&& details[i].max_score == defs[i].max_score
            &&& subtasks::scored_as(
                details[i].score,
                defs[i],
                subtasks::weights_of(cases),
                subtasks::by_all_keys(cases, tc_scores),
                units,
                points,
            )
        }
}

/// The subtask scores of a submission, from its stored results.
pub fn score_submission_subtask_details<
    S: Copy,
    R: Copy,
    F: Fn(SubtaskPoints<S>) -> R,
    G: Fn(S, S) -> Raw<S>,
>(
    test_cases: &Vec<TestCaseRow<S>>,
    subtask_defs: &Vec<SubtaskDef<S>>,
    tc_results: &Vec<TcResultRow<S>>,
    units: Units<S>,
    points: &F,
    ratio: &G,
) -> (r: Vec<SubtaskScoreDetail<S, R>>)
    requires
        forall|p: SubtaskPoints<S>| #[trigger] call_requires(*points, (p,)),
        forall|a: S, b: S| #[trigger] call_requires(*ratio, (a, b)),
    ensures
        exists|raws: Seq<Raw<S>>| #[trigger]
            raws_are(raws, tc_results@, test_cases@, units, *ratio) && details_are(
                r@,
                subtask_defs@,
                test_cases@,
                labelled(raws, tc_results@, test_cases@),
                units,
                *points,
            ),
{
    let ghost mut raws: Seq<Raw<S>> = Seq::empty();
    let mut tc_scores: TextMap<Raw<S>> = TextMap::new();
    let mut i: usize = 0;
    assert(tc_results@.take(0) =~= Seq::<TcResultRow<S>>::empty());
    while i < tc_results.len()
        invariant
            i <= tc_results@.len(),
            forall|a: S, b: S| #[trigger] call_requires(*ratio, (a, b)),
            raws_are(raws, tc_results@.take(i as int), test_cases@, units, *ratio),
            tc_scores@ == labelled(raws, tc_results@.take(i as int), test_cases@),
        decreases tc_results@.len() - i,
    {
        let ghost raws0 = raws;
        let ghost part = tc_results@.take(i as int);
        let ghost more = tc_results@.take(i as int + 1);
        let row = tc_results[i];
        match find_case(test_cases, row.test_case_id) {
            Some(c) => {
                let raw = normalized_raw_score(
                    row.verdict,
                    row.score,
                    test_cases[c].score,
                    units,
                    ratio,
                );
                tc_scores.insert(resolve_tc_label(&test_cases[c]).as_str(), raw);
                proof {
                    raws = raws.push(raw);
                }
            },
            None => {
                proof {
                    raws = raws.push(Raw { value: units.zero, class: RawClass::Zero });
                }
            },
        }
        proof {
            assert(more.drop_last() =~= part);
            assert(more.last() == row);
            assert(raws.drop_last() =~= raws0);
            assert forall|k: int| 0 <= k < more.len() implies (judging::case_at(
                test_cases@,
                more[k].test_case_id,
            ) matches Some(tc) ==> normalized(
                #[trigger] raws[k],
                more[k].verdict,
                more[k].score,
                tc.score,
                units,
                *ratio,
            )) by {
                if k < i {
                    assert(more[k] == part[k]);
                    assert(raws[k] == raws0[k]);
                }
            }
        }
        i += 1;
    }
    assert(tc_results@.take(i as int) =~= tc_results@);
    let results = score_all_subtasks(subtask_defs, test_cases, &tc_scores, units, points);
    let mut out: Vec<SubtaskScoreDetail<S, R>> = Vec::new();
    let mut k: usize = 0;
    while k < subtask_defs.len()
        invariant
            k <= subtask_defs@.len() == results@.len(),
            out@.len() == k,
            forall|j: int|
                0 <= j < results@.len() ==> subtasks::result_is(
                    #[trigger] results@[j],
                    subtask_defs@[j],
                    subtasks::weights_of(test_cases@),
                    subtasks::by_all_keys(test_cases@, tc_scores@),
                    units,
                    *points,
                ),
            forall|j: int|
                0 <= j < k ==> {
                    &&& (#[trigger] out@[j]).name == subtask_defs@[j].name
                    &&& out@[j].scoring_method == subtask_defs@[j].scoring_method
                    &&& out@[j].max_score == subtask_defs@[j].max_score
                    &&& out@[j].score == results@[j].score
                },
        decreases subtask_defs@.len() - k,
    {
        assert(subtasks::result_is(
            results@[k as int],
            subtask_defs@[k as int],
            subtasks::weights_of(test_cases@),
            subtasks::by_all_keys(test_cases@, tc_scores@),
            units,
            *points,
        ));
        out.push(
            SubtaskScoreDetail {
                name: results[k].name.clone(),
                scoring_method: subtask_defs[k].scoring_method,
                score: results[k].score,
                max_score: results[k].max_score,
            },
        );
        k += 1;
    }
    proof {
        assert forall|j: int| 0 <= j < subtask_defs@.len() implies subtasks::scored_as(
            (#[trigger] out@[j]).score,
            subtask_defs@[j],
            subtasks::weights_of(test_cases@),
            subtasks::by_all_keys(test_cases@, tc_scores@),
            units,
            *points,
        ) by {
            assert(subtasks::result_is(
                results@[j],
                subtask_defs@[j],
                subtasks::weights_of(test_cases@),
                subtasks::by_all_keys(test_cases@, tc_scores@),
                units,
                *points,
            ));
        }
        assert(raws_are(raws, tc_results@, test_cases@, units, *ratio));
    }
    out
}

// ---------------------------------------------------------------------------
// Many submissions
// ---------------------------------------------------------------------------

/// A raw score of one case of a submission.
#[derive(Debug, Clone, PartialEq, Eq)]
pub struct RatedRow<S> {
    pub user_id: i32,
    pub problem_id: i32,
    pub submission_id: i32,
    pub elapsed_seconds: i64,
    pub label: String,
    pub raw: Raw<S>,
}

impl<S> RatedRow<S> {
    pub open spec fn key(self) -> (i32, i32, i32) {
        (self.user_id, self.problem_id, self.submission_id)
    }
}

/// The raw scores of a submission by label, and when it was made.
#[derive(Debug)]
pub struct SubmissionScores<S> {
    pub user_id: i32,
    pub problem_id: i32,
    pub submission_id: i32,
    pub elapsed_seconds: i64,
    pub scores: TextMap<Raw<S>>,
}

impl<S> SubmissionScores<S> {
    pub open spec fn key(self) -> (i32, i32, i32) {
        (self.user_id, self.problem_id, self.submission_id)
    }
}

/// The scores of a submission: of rows with one label the last one counts.
pub open spec fn scores_for<S>(rows: Seq<RatedRow<S>>, key: (i32, i32, i32)) -> Map<
    Seq<char>,
    Raw<S>,
>
    decreases rows.len(),
{
    if rows.len() == 0 {
        Map::empty()
    } else {
        let rest = scores_for(rows.drop_last(), key);
        if rows.last().key() == key {
            rest.insert(rows.last().label@, rows.last().raw)
        } else {
            rest
        }
    }
}

/// The earliest time of a submission's rows.
pub open spec fn earliest<S>(rows: Seq<RatedRow<S>>, key: (i32, i32, i32)) -> Option<i64>
    decreases rows.len(),
{
    if rows.len() == 0 {
        None
    } else {
        let rest = earliest(rows.drop_last(), key);
        if rows.last().key() == key {
            match rest {
                Some(t) => if t <= rows.last().elapsed_seconds {
                    rest
                } else {
                    Some(rows.last().elapsed_seconds)
                },
                None => Some(rows.last().elapsed_seconds),
            }
        } else {
            rest
        }
    }
}

/// One group for each submission that has rows.
pub open spec fn grouped<S>(groups: Seq<SubmissionScores<S>>, rows: Seq<RatedRow<S>>) -> bool {
    &&& forall|i: int, j: int|
        0 <= i < j < groups.len() ==> (#[trigger] groups[i]).key() != (#[trigger] groups[j]).key()
    &&& forall|i: int|
        0 <= i < groups.len() ==> {
            &&& earliest(rows, (#[trigger] groups[i]).key()) == Some(groups[i].elapsed_seconds)
            &&& groups[i].scores@ == scores_for(rows, groups[i].key())
        }
    &&& forall|k: (i32, i32, i32)| #[trigger]
        earliest(rows, k) is Some ==> exists|i: int|
            0 <= i < groups.len() && (#[trigger] groups[i]).key() == k
}

/// Gathers the rows of each submission.
pub fn group_by_submission<S: Copy>(rows: &Vec<RatedRow<S>>) -> (r: Vec<SubmissionScores<S>>)
    ensures
        grouped(r@, rows@),
{
    let mut groups: Vec<SubmissionScores<S>> = Vec::new();
    let mut i: usize = 0;
    assert(rows@.take(0) =~= Seq::<RatedRow<S>>::empty());
    while i < rows.len()
        invariant
            i <= rows@.len(),
            grouped(groups@, rows@.take(i as int)),
        decreases rows@.len() - i,
    {
        let ghost part = rows@.take(i as int);
        let ghost more = rows@.take(i as int + 1);
        let ghost before = groups@;
        proof {
            assert(more.drop_last() =~= part);
            assert(more.last() == rows@[i as int]);
        }
        let row = &rows[i];
        let mut g: usize = 0;
        while g < groups.len() && !(groups[g].user_id == row.user_id && groups[g].problem_id
            == row.problem_id && groups[g].submission_id == row.submission_id)
            invariant
                g <= groups@.len(),
                groups@ == before,
                forall|k: int| 0 <= k < g ==> (#[trigger] groups@[k]).key() != row.key(),
            decreases groups@.len() - g,
        {
            g += 1;
        }
        if g < groups.len() {
            let mut scores: TextMap<Raw<S>> = groups[g].scores.copy();
            scores.insert(row.label.as_str(), row.raw);
            let elapsed_seconds: i64 = if groups[g].elapsed_seconds <= row.elapsed_seconds {
                groups[g].elapsed_seconds
            } else {
                row.elapsed_seconds
            };
            groups.set(
                g,
                SubmissionScores {
                    user_id: row.user_id,
                    problem_id: row.problem_id,
                    submission_id: row.submission_id,
                    elapsed_seconds,
                    scores,
                },
            );
            proof {
                assert forall|a: int, b: int| 0 <= a < b < groups@.len() implies (
                #[trigger] groups@[a]).key() != (#[trigger] groups@[b]).key() by {
                    assert(before[a].key() != before[b].key());
                    assert(groups@[a].key() == before[a].key());
                    assert(groups@[b].key() == before[b].key());
                }
                assert forall|a: int| 0 <= a < groups@.len() implies earliest(
                    more,
                    (#[trigger] groups@[a]).key(),
                ) == Some(groups@[a].elapsed_seconds) && groups@[a].scores@ == scores_for(
                    more,
                    groups@[a].key(),
                ) by {
                    assert(earliest(part, before[a].key()) == Some(before[a].elapsed_seconds));
                    assert(groups@[a].key() == before[a].key());
                    if a != g {
                        assert(before[a].key() != before[g as int].key()) by {
                            if a < g {
                                assert(before[a].key() != before[g as int].key());
                            } else {
                                assert(before[g as int].key() != before[a].key());
                            }
                        }
                    }
                }
                assert forall|k: (i32, i32, i32)| #[trigger] earliest(
                    more,
                    k,
                ) is Some implies exists|a: int|
                    0 <= a < groups@.len() && (#[trigger] groups@[a]).key() == k by {
                    if k == row.key() {
                        assert(groups@[g as int].key() == k);
                    } else {
                        assert(earliest(part, k) is Some);
                        let a = choose|a: int|
                            0 <= a < before.len() && (#[trigger] before[a]).key() == k;
                        assert(groups@[a].key() == k);
                    }
                }
            }
        } else {
            let mut scores: TextMap<Raw<S>> = TextMap::new();
            scores.insert(row.label.as_str(), row.raw);
            groups.push(
                SubmissionScores {
                    user_id: row.user_id,
                    problem_id: row.problem_id,
                    submission_id: row.submission_id,
                    elapsed_seconds: row.elapsed_seconds,
                    scores,
                },
            );
            proof {
                let n = before.len() as int;
                if earliest(part, row.key()) is Some {
                    let a = choose|a: int|
                        0 <= a < before.len() && (#[trigger] before[a]).key() == row.key();
                    assert(false);
                }
                lemma_no_rows(part, row.key());
                assert forall|a: int, b: int| 0 <= a < b < groups@.len() implies (
                #[trigger] groups@[a]).key() != (#[trigger] groups@[b]).key() by {
                    if b < n {
                        assert(before[a].key() != before[b].key());
                    } else {
                        assert(before[a].key() != row.key());
                    }
                }
                assert forall|a: int| 0 <= a < groups@.len() implies earliest(
                    more,
                    (#[trigger] groups@[a]).key(),
                ) == Some(groups@[a].elapsed_seconds) && groups@[a].scores@ == scores_for(
                    more,
                    groups@[a].key(),
                ) by {
                    if a < n {
                        assert(earliest(part, before[a].key()) == Some(before[a].elapsed_seconds));
                        assert(before[a].key() != row.key());
                    }
                }
                assert forall|k: (i32, i32, i32)| #[trigger] earliest(
                    more,
                    k,
                ) is Some implies exists|a: int|
                    0 <= a < groups@.len() && (#[trigger] groups@[a]).key() == k by {
                    if k == row.key() {
                        assert(groups@[n].key() == k);
                    } else {
                        assert(earliest(part, k) is Some);
                        let a = choose|a: int|
                            0 <= a < before.len() && (#[trigger] before[a]).key() == k;
                        assert(groups@[a].key() == k);
                    }
                }
            }
        }
        i += 1;
    }
    assert(rows@.take(i as int) =~= rows@);
    groups
}

proof fn lemma_no_rows<S>(rows: Seq<RatedRow<S>>, key: (i32, i32, i32))
    requires
        earliest(rows, key) is None,
    ensures
        scores_for(rows, key) == Map::<Seq<char>, Raw<S>>::empty(),
    decreases rows.len(),
{
    if rows.len() > 0 {
        lemma_no_rows(rows.drop_last(), key);
    }
}

/// The points of a case among these: the last ones of its id, else none.
pub open spec fn max_at<S>(maxes: Seq<TcMaxScore<S>>, id: i32, units: Units<S>) -> Points<S>
    decreases maxes.len(),
{
    if maxes.len() == 0 {
        Points { value: units.zero, positive: false }
    } else if maxes.last().test_case_id == id {
        maxes.last().max_score
    } else {
        max_at(maxes.drop_last(), id, units)
    }
}

fn find_max<S: Copy>(maxes: &Vec<TcMaxScore<S>>, id: i32, units: Units<S>) -> (r: Points<S>)
    ensures
        r == max_at(maxes@, id, units),
{
    let mut n: usize = maxes.len();
    assert(maxes@.take(n as int) =~= maxes@);
    while n > 0
        invariant
            n <= maxes@.len(),
            max_at(maxes@.take(n as int), id, units) == max_at(maxes@, id, units),
        decreases n,
    {
        assert(maxes@.take(n as int).last() == maxes@[n as int - 1]);
        if maxes[n - 1].test_case_id == id {
            return maxes[n - 1].max_score;
        }
        assert(maxes@.take(n as int).drop_last() =~= maxes@.take(n as int - 1));
        n -= 1;
    }
    Points { value: units.zero, positive: false }
}

/// The label under which a stored result counts: that of its case, else its
/// id.
pub open spec fn row_label<S>(cases: Seq<TestCaseRow<S>>, id: i32) -> Seq<char> {
    match judging::case_at(cases, id) {
        Some(tc) => config::label_of(tc),
        None => text::decimal_int(id as int),
    }
}

/// The raw scores of a contestant's results on one task.
pub fn rate_task_rows<S: Copy, G: Fn(S, S) -> Raw<S>>(
    user_id: i32,
    problem_id: i32,
    rows: &Vec<TcResultRow<S>>,
    test_cases: &Vec<TestCaseRow<S>>,
    maxes: &Vec<TcMaxScore<S>>,
    units: Units<S>,
    ratio: &G,
) -> (r: Vec<RatedRow<S>>)
    requires
        forall|a: S, b: S| #[trigger] call_requires(*ratio, (a, b)),
    ensures
        r@.len() == rows@.len(),
        forall|i: int|
            0 <= i < rows@.len() ==> {
                &&& (#[trigger] r@[i]).key() == (user_id, problem_id, rows@[i].submission_id)
                &&& r@[i].elapsed_seconds == 0
                &&& r@[i].label@ == row_label(test_cases@, rows@[i].test_case_id)
                &&& normalized(
                    r@[i].raw,
                    rows@[i].verdict,
                    rows@[i].score,
                    max_at(maxes@, rows@[i].test_case_id, units),
                    units,
                    *ratio,
                )
            },
{
    let mut out: Vec<RatedRow<S>> = Vec::new();
    let mut i: usize = 0;
    while i < rows.len()
        invariant
            i <= rows@.len(),
            forall|a: S, b: S| #[trigger] call_requires(*ratio, (a, b)),
            out@.len() == i,
            forall|k: int|
                0 <= k < i ==> {
                    &&& (#[trigger] out@[k]).key() == (user_id, problem_id, rows@[k].submission_id)
                    &&& out@[k].elapsed_seconds == 0
                    &&& out@[k].label@ == row_label(test_cases@, rows@[k].test_case_id)
                    &&& normalized(
                        out@[k].raw,
                        rows@[k].verdict,
                        rows@[k].score,
                        max_at(maxes@, rows@[k].test_case_id, units),
                        units,
                        *ratio,
                    )
                },
        decreases rows@.len() - i,
    {
        let row = rows[i];
        let max = find_max(maxes, row.test_case_id, units);
        let raw = normalized_raw_score(row.verdict, row.score, max, units, ratio);
        let label = match find_case(test_cases, row.test_case_id) {
            Some(c) => resolve_tc_label(&test_cases[c]),
            None => decimal_i64(row.test_case_id as i64),
        };
        out.push(
            RatedRow {
                user_id,
                problem_id,
                submission_id: row.submission_id,
                elapsed_seconds: 0,
                label,
                raw,
            },
        );
        i += 1;
    }
    out
}

/// The subtask scores of each submission, in hundredths of a point.
pub open spec fn table_is<S, F: Fn(SubtaskPoints<S>) -> i64>(
    table: Seq<Vec<i64>>,
    defs: Seq<SubtaskDef<S>>,
    cases: Seq<TestCaseRow<S>>,
    submissions: Seq<SubmissionScores<S>>,
    units: Units<S>,
    points: F,
) -> bool {
    &&& table.len() == submissions.len()
    &&& forall|i: int|
        0 <= i < table.len() ==> subtasks::all_scored_as(
            (#[trigger] table[i])@,
            defs,
            cases,
            submissions[i].scores@,
            units,
            points,
        )
}

/// Scores every subtask of every submission. `points` gives hundredths of a
/// point.
pub fn subtask_table<S: Copy, F: Fn(SubtaskPoints<S>) -> i64>(
    subtask_defs: &Vec<SubtaskDef<S>>,
    test_cases: &Vec<TestCaseRow<S>>,
    submissions: &Vec<SubmissionScores<S>>,
    units: Units<S>,
    points: &F,
) -> (r: Vec<Vec<i64>>)
    requires
        forall|p: SubtaskPoints<S>| #[trigger] call_requires(*points, (p,)),
    ensures
        table_is(r@, subtask_defs@, test_cases@, submissions@, units, *points),
{
    let mut table: Vec<Vec<i64>> = Vec::new();
    let mut i: usize = 0;
    while i < submissions.len()
        invariant
            i <= submissions@.len(),
            forall|p: SubtaskPoints<S>| #[trigger] call_requires(*points, (p,)),
            table@.len() == i,
            forall|k: int|
                0 <= k < i ==> subtasks::all_scored_as(
                    (#[trigger] table@[k])@,
                    subtask_defs@,
                    test_cases@,
                    submissions@[k].scores@,
                    units,
                    *points,
                ),
        decreases submissions@.len() - i,
    {
        let row = subtask_row(subtask_defs, test_cases, &submissions[i].scores, units, points);
        table.push(row);
        i += 1;
    }
    table
}

/// Scores every subtask of a submission.
pub fn subtask_row<S: Copy, F: Fn(SubtaskPoints<S>) -> i64>(
    subtask_defs: &Vec<SubtaskDef<S>>,
    test_cases: &Vec<TestCaseRow<S>>,
    scores: &TextMap<Raw<S>>,
    units: Units<S>,
    points: &F,
) -> (r: Vec<i64>)
    requires
        forall|p: SubtaskPoints<S>| #[trigger] call_requires(*points, (p,)),
    ensures
        subtasks::all_scored_as(r@, subtask_defs@, test_cases@, scores@, units, *points),
{
    let results = score_all_subtasks(subtask_defs, test_cases, scores, units, points);
    let mut row: Vec<i64> = Vec::new();
    let mut k: usize = 0;
    while k < results.len()
        invariant
            k <= results@.len(),
            row@.len() == k,
            forall|j: int| 0 <= j < k ==> #[trigger] row@[j] == results@[j].score,
        decreases results@.len() - k,
    {
        row.push(results[k].score);
        k += 1;
    }
    assert forall|j: int| 0 <= j < subtask_defs@.len() implies subtasks::scored_as(
        #[trigger] row@[j],
        subtask_defs@[j],
        subtasks::weights_of(test_cases@),
        subtasks::by_all_keys(test_cases@, scores@),
        units,
        *points,
    ) by {
        assert(subtasks::result_is(
            results@[j],
            subtask_defs@[j],
            subtasks::weights_of(test_cases@),
            subtasks::by_all_keys(test_cases@, scores@),
            units,
            *points,
        ));
    }
    row
}

/// For each subtask the best result over all submissions, together: the score
/// of a task both in its own right and on the scoreboard.
pub fn sum_best_subtask_score<S: Copy, F: Fn(SubtaskPoints<S>) -> i64>(
    subtask_defs: &Vec<SubtaskDef<S>>,
    test_cases: &Vec<TestCaseRow<S>>,
    submissions: &Vec<SubmissionScores<S>>,
    units: Units<S>,
    points: &F,
) -> (r: i128)
    requires
        forall|p: SubtaskPoints<S>| #[trigger] call_requires(*points, (p,)),
    ensures
        exists|table: Seq<Vec<i64>>| #[trigger]
            table_is(table, subtask_defs@, test_cases@, submissions@, units, *points) && r
                == scoring::best_sum(table),
{
    let table = subtask_table(subtask_defs, test_cases, submissions, units, points);
    assert(table_is(table@, subtask_defs@, test_cases@, submissions@, units, *points));
    score_sum_best_subtask(&table)
}

// ---------------------------------------------------------------------------
// Queries
// ---------------------------------------------------------------------------

/// The query for the current results of a submission.
pub fn submission_results_query(contest_id: i32, submission_id: i32) -> (r: Query)
    ensures
        sql::query_is(
            r,
            "SELECT tcr.submission_id, tcr.test_case_id, tcr.score, tcr.verdict FROM test_case_result tcr JOIN submission s ON s.id = tcr.submission_id JOIN submission_judgement sj ON sj.id = tcr.judgement_id AND sj.submission_id = tcr.submission_id AND sj.judge_epoch = tcr.judge_epoch WHERE tcr.submission_id = "@
                + sql::placeholder(1) + " AND s.contest_id = "@ + sql::placeholder(2)
                + " AND tcr.test_case_id IS NOT NULL AND sj.is_current = TRUE AND sj.is_finalized = TRUE"@,
            seq![SqlView::Int(submission_id as int), SqlView::Int(contest_id as int)],
        ),
{
    let mut p = Params::new();
    let submission = p.bind_int(submission_id as i64);
    let contest = p.bind_int(contest_id as i64);
    let mut sql = "SELECT tcr.submission_id, tcr.test_case_id, tcr.score, tcr.verdict FROM test_case_result tcr JOIN submission s ON s.id = tcr.submission_id JOIN submission_judgement sj ON sj.id = tcr.judgement_id AND sj.submission_id = tcr.submission_id AND sj.judge_epoch = tcr.judge_epoch WHERE tcr.submission_id = ".to_owned();
    sql.append(submission.as_str());
    sql.append(" AND s.contest_id = ");
    sql.append(contest.as_str());
    sql.append(
        " AND tcr.test_case_id IS NOT NULL AND sj.is_current = TRUE AND sj.is_finalized = TRUE",
    );
    assert(p.values() =~= seq![
        SqlView::Int(submission_id as int),
        SqlView::Int(contest_id as int),
    ]);
    Query { sql, args: p.args }
}

/// A contestant's submissions to a problem of a contest, as bound values.
pub open spec fn attempt_args(user_id: i32, problem_id: i32, contest_id: i32) -> Seq<SqlView> {
    seq![
        SqlView::Int(user_id as int),
        SqlView::Int(problem_id as int),
        SqlView::Int(contest_id as int),
    ]
}

/// The condition that picks a contestant's submissions to a problem.
pub open spec fn attempts_text() -> Seq<char> {
    "WHERE s.user_id = "@ + sql::placeholder(1) + " AND s.problem_id = "@ + sql::placeholder(2)
        + " AND s.contest_id = "@ + sql::placeholder(3)
}

/// A query about a contestant's submissions to a problem.
fn attempts_query(
    head: &str,
    tail: &str,
    user_id: i32,
    problem_id: i32,
    contest_id: i32,
) -> (r: Query)
    ensures
        sql::query_is(
            r,
            head@ + attempts_text() + tail@,
            attempt_args(user_id, problem_id, contest_id),
        ),
{
    let mut p = Params::new();
    let user = p.bind_int(user_id as i64);
    let problem = p.bind_int(problem_id as i64);
    let contest = p.bind_int(contest_id as i64);
    let mut sql = head.to_owned();
    sql.append("WHERE s.user_id = ");
    sql.append(user.as_str());
    sql.append(" AND s.problem_id = ");
    sql.append(problem.as_str());
    sql.append(" AND s.contest_id = ");
    sql.append(contest.as_str());
    sql.append(tail);
    assert(p.values() =~= attempt_args(user_id, problem_id, contest_id));
    assert(sql@ =~= head@ + attempts_text() + tail@);
    Query { sql, args: p.args }
}

/// The query for all current results of a contestant on a problem.
pub fn attempt_results_query(user_id: i32, problem_id: i32, contest_id: i32) -> (r: Query)
    ensures
        sql::query_is(
            r,
            "SELECT tcr.submission_id, tcr.test_case_id, tcr.score, tcr.verdict FROM test_case_result tcr JOIN submission s ON s.id = tcr.submission_id JOIN submission_judgement sj ON sj.id = tcr.judgement_id AND sj.submission_id = tcr.submission_id AND sj.judge_epoch = tcr.judge_epoch "@
                + attempts_text()
                + " AND tcr.test_case_id IS NOT NULL AND sj.is_current = TRUE AND sj.is_finalized = TRUE"@,
            attempt_args(user_id, problem_id, contest_id),
        ),
{
    attempts_query(
        "SELECT tcr.submission_id, tcr.test_case_id, tcr.score, tcr.verdict FROM test_case_result tcr JOIN submission s ON s.id = tcr.submission_id JOIN submission_judgement sj ON sj.id = tcr.judgement_id AND sj.submission_id = tcr.submission_id AND sj.judge_epoch = tcr.judge_epoch ",
        " AND tcr.test_case_id IS NOT NULL AND sj.is_current = TRUE AND sj.is_finalized = TRUE",
        user_id,
        problem_id,
        contest_id,
    )
}

/// The query for the points of a problem's cases.
pub fn case_points_query(problem_id: i32) -> (r: Query)
    ensures
        sql::query_is(
            r,
            "SELECT id as test_case_id, score as max_score FROM test_case WHERE problem_id = "@
                + sql::placeholder(1),
            seq![SqlView::Int(problem_id as int)],
        ),
{
    let mut p = Params::new();
    let problem = p.bind_int(problem_id as i64);
    let mut sql =
        "SELECT id as test_case_id, score as max_score FROM test_case WHERE problem_id = ".to_owned();
    sql.append(problem.as_str());
    assert(p.values() =~= seq![SqlView::Int(problem_id as int)]);
    Query { sql, args: p.args }
}

// ---------------------------------------------------------------------------
// The official score
// ---------------------------------------------------------------------------

/// What has to be asked for the official score of a task.
pub enum OfficialPlan {
    /// The best score of any submission.
    Best(Query),
    /// The results of all submissions, and the points of the cases.
    SumOfBest { results: Query, points: Query },
    /// The best score of the submissions with a token, and that of the last
    /// one.
    TokenedOrLast { tokened: Option<Query>, last: Query },
}

pub open spec fn best_head() -> Seq<char> {
    "SELECT MAX(sj.score) as max_score FROM submission s JOIN submission_judgement sj ON sj.submission_id = s.id AND sj.is_current = TRUE AND sj.judge_epoch = s.judge_epoch "@
}

pub open spec fn tokened_text(n: nat) -> Seq<char> {
    "SELECT MAX(sj.score) as max_score FROM submission s JOIN submission_judgement sj ON sj.submission_id = s.id AND sj.is_current = TRUE AND sj.is_finalized = TRUE AND sj.judge_epoch = s.judge_epoch WHERE s.id IN ("@
        + sql::placeholders(0, n) + ") AND s.problem_id = "@ + sql::placeholder(n + 1)
}

pub open spec fn last_head() -> Seq<char> {
    "SELECT s.id, COALESCE(sj.score, 0.0) as score FROM submission s JOIN submission_judgement sj ON sj.submission_id = s.id AND sj.is_current = TRUE AND sj.is_finalized = TRUE AND sj.judge_epoch = s.judge_epoch "@
}

pub open spec fn official_plan_is(
    plan: OfficialPlan,
    mode: ScoringMode,
    state: TokenState,
    user_id: i32,
    problem_id: i32,
    contest_id: i32,
) -> bool {
    let args = attempt_args(user_id, problem_id, contest_id);
    match mode {
        ScoringMode::MaxSubmission => plan matches OfficialPlan::Best(q) && sql::query_is(
            q,
            best_head() + attempts_text() + ""@,
            args,
        ),
        ScoringMode::SumBestSubtask => {
            plan matches OfficialPlan::SumOfBest { results, points } && sql::query_is(
                results,
                "SELECT tcr.submission_id, tcr.test_case_id, tcr.score, tcr.verdict FROM test_case_result tcr JOIN submission s ON s.id = tcr.submission_id JOIN submission_judgement sj ON sj.id = tcr.judgement_id AND sj.submission_id = tcr.submission_id AND sj.judge_epoch = tcr.judge_epoch "@
                    + attempts_text()
                    + " AND tcr.test_case_id IS NOT NULL AND sj.is_current = TRUE AND sj.is_finalized = TRUE"@,
                args,
            ) && sql::query_is(
                points,
                "SELECT id as test_case_id, score as max_score FROM test_case WHERE problem_id = "@
                    + sql::placeholder(1),
                seq![SqlView::Int(problem_id as int)],
            )
        },
        ScoringMode::BestTokenedOrLast => {
            let ids = state.tokened_submission_ids@;
            plan matches OfficialPlan::TokenedOrLast { tokened, last } && sql::query_is(
                last,
                last_head() + attempts_text() + " ORDER BY s.created_at DESC, s.id DESC LIMIT 1"@,
                args,
            ) && (match tokened {
                None => ids.len() == 0,
                Some(q) => ids.len() > 0 && sql::query_is(
                    q,
                    tokened_text(ids.len()),
                    sql::int_views(ids).push(SqlView::Int(problem_id as int)),
                ),
            })
        },
    }
}

/// Decides what to ask for the official score of a task.
pub fn plan_official_score(
    mode: ScoringMode,
    state: &TokenState,
    user_id: i32,
    problem_id: i32,
    contest_id: i32,
) -> (r: OfficialPlan)
    ensures
        official_plan_is(r, mode, *state, user_id, problem_id, contest_id),
{
    match mode {
        ScoringMode::MaxSubmission => OfficialPlan::Best(
            attempts_query(
                "SELECT MAX(sj.score) as max_score FROM submission s JOIN submission_judgement sj ON sj.submission_id = s.id AND sj.is_current = TRUE AND sj.judge_epoch = s.judge_epoch ",
                "",
                user_id,
                problem_id,
                contest_id,
            ),
        ),
        ScoringMode::SumBestSubtask => OfficialPlan::SumOfBest {
            results: attempt_results_query(user_id, problem_id, contest_id),
            points: case_points_query(problem_id),
        },
        ScoringMode::BestTokenedOrLast => {
            let last = attempts_query(
                "SELECT s.id, COALESCE(sj.score, 0.0) as score FROM submission s JOIN submission_judgement sj ON sj.submission_id = s.id AND sj.is_current = TRUE AND sj.is_finalized = TRUE AND sj.judge_epoch = s.judge_epoch ",
                " ORDER BY s.created_at DESC, s.id DESC LIMIT 1",
                user_id,
                problem_id,
                contest_id,
            );
            if state.tokened_submission_ids.len() == 0 {
                return OfficialPlan::TokenedOrLast { tokened: None, last };
            }
            let mut p = Params::new();
            let ids = bind_ids(&mut p, &state.tokened_submission_ids);
            let problem = p.bind_int(problem_id as i64);
            let mut sql = "SELECT MAX(sj.score) as max_score FROM submission s JOIN submission_judgement sj ON sj.submission_id = s.id AND sj.is_current = TRUE AND sj.is_finalized = TRUE AND sj.judge_epoch = s.judge_epoch WHERE s.id IN (".to_owned();
            sql.append(ids.as_str());
            sql.append(") AND s.problem_id = ");
            sql.append(problem.as_str());
            assert(p.values() =~= sql::int_views(state.tokened_submission_ids@).push(
                SqlView::Int(problem_id as int),
            ));
            OfficialPlan::TokenedOrLast { tokened: Some(Query { sql, args: p.args }), last }
        },
    }
}

/// The best score; zero where there is none.
pub fn official_best(max_score: Option<i64>) -> (r: i64)
    ensures
        r == (match max_score {
            Some(s) => s,
            None => 0i64,
        }),
{
    match max_score {
        Some(s) => s,
        None => 0,
    }
}

/// The better of the best score with a token and the last one; zero for what
/// is missing.
pub fn official_tokened_or_last(tokened: Option<i64>, last: Option<i64>) -> (r: i64)
    ensures
        r == scoring::max_of(
            (match tokened {
                Some(s) => s,
                None => 0i64,
            }) as int,
            (match last {
                Some(s) => s,
                None => 0i64,
            }) as int,
        ),
{
    score_best_tokened_or_last(official_best(tokened), official_best(last))
}

/// An accepted case scores in full however its stored score was rounded.
pub proof fn accepted_cases_count_in_full<S, F: Fn(S, S) -> Raw<S>>(
    r: Raw<S>,
    score: S,
    max: Points<S>,
    units: Units<S>,
    ratio: F,
)
    requires
        normalized(r, Verdict::Accepted, score, max, units, ratio),
    ensures
        r.class is Full,
        r.value == units.one,
{
}

} // verus!
