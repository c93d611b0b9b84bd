//! The points of subtasks.

use vstd::prelude::*;

use crate::ioi::config::{resolve_tc_label, SubtaskDef, SubtaskScoringMethod};
use crate::judging::{Points, Raw, RawClass, TestCaseRow};
use crate::text::{decimal_i64, list_contains, str_eq};
use crate::textmap::TextMap;
use crate::ioi::config;
use crate::text;

verus! {

/// The zero and the one of the scores.
#[derive(Debug, Clone, Copy, PartialEq, Eq)]
pub struct Units<S> {
    pub zero: S,
    pub one: S,
}

#[derive(Debug, Clone, PartialEq, Eq)]
pub struct SubtaskResult<S, R> {
    pub name: String,
    pub score: R,
    pub max_score: S,
}

/// What the points of a subtask are.
#[derive(Debug, Clone, PartialEq, Eq)]
pub enum SubtaskPoints<S> {
    Nothing,
    Full { max: S },
    /// The maximum times the mean of the scores; each part is a weight and a
    /// score, and the weights are above zero.
    Mean { max: S, parts: Vec<(S, S)> },
    /// The maximum times the product of the scores.
    Product { max: S, factors: Vec<S> },
}

/// What the points of a subtask are, by content.
pub enum PointsView<S> {
    Nothing,
    Full { max: S },
    Mean { max: S, parts: Seq<(S, S)> },
    Product { max: S, factors: Seq<S> },
}

impl<S> View for SubtaskPoints<S> {
    type V = PointsView<S>;

    open spec fn view(&self) -> PointsView<S> {
        match *self {
            SubtaskPoints::Nothing => PointsView::Nothing,
            SubtaskPoints::Full { max } => PointsView::Full { max },
            SubtaskPoints::Mean { max, parts } => PointsView::Mean { max, parts: parts@ },
            SubtaskPoints::Product { max, factors } => PointsView::Product {
                max,
                factors: factors@,
            },
        }
    }
}

// ---------------------------------------------------------------------------
// How subtasks name their cases
// ---------------------------------------------------------------------------

/// The names of a test case: its label and its id.
pub open spec fn keys_of<S>(tc: TestCaseRow<S>) -> Seq<Seq<char>> {
    let id = text::decimal_int(tc.id as int);
    if config::label_of(tc) == id {
        seq![id]
    } else {
        seq![config::label_of(tc), id]
    }
}

pub fn test_case_reference_keys<S>(tc: &TestCaseRow<S>) -> (r: Vec<String>)
    ensures
        text::views(r@) == keys_of(*tc),
{
    let label = resolve_tc_label(tc);
    let id = decimal_i64(tc.id as i64);
    let mut out: Vec<String> = Vec::new();
    if str_eq(label.as_str(), id.as_str()) {
        out.push(id);
        assert(text::views(out@) =~= seq![text::decimal_int(tc.id as int)]);
    } else {
        out.push(label);
        out.push(id);
        assert(text::views(out@) =~= seq![config::label_of(*tc), text::decimal_int(tc.id as int)]);
    }
    out
}

/// A map with this value under each name of a test case.
pub open spec fn under_keys<S, V>(m: Map<Seq<char>, V>, tc: TestCaseRow<S>, v: V) -> Map<
    Seq<char>,
    V,
> {
    m.insert(config::label_of(tc), v).insert(text::decimal_int(tc.id as int), v)
}

/// The weight of each case, under its names.
pub open spec fn weights_of<S>(cases: Seq<TestCaseRow<S>>) -> Map<Seq<char>, Points<S>>
    decreases cases.len(),
{
    if cases.len() == 0 {
        Map::empty()
    } else {
        under_keys(weights_of(cases.drop_last()), cases.last(), cases.last().score)
    }
}

fn test_case_weights<S: Copy>(cases: &Vec<TestCaseRow<S>>) -> (r: TextMap<Points<S>>)
    ensures
        r@ == weights_of(cases@),
{
    let mut out: TextMap<Points<S>> = TextMap::new();
    let mut i: usize = 0;
    assert(cases@.take(0) =~= Seq::<TestCaseRow<S>>::empty());
    while i < cases.len()
        invariant
            i <= cases@.len(),
            out@ == weights_of(cases@.take(i as int)),
        decreases cases@.len() - i,
    {
        let tc = &cases[i];
        out.insert(resolve_tc_label(tc).as_str(), tc.score);
        out.insert(decimal_i64(tc.id as i64).as_str(), tc.score);
        proof {
            assert(cases@.take(i as int + 1).drop_last() =~= cases@.take(i as int));
            assert(cases@.take(i as int + 1).last() == cases@[i as int]);
        }
        i += 1;
    }
    assert(cases@.take(i as int) =~= cases@);
    out
}

/// Scores by label, made to be found by id as well. What is there stays.
pub open spec fn by_all_keys<S>(
    cases: Seq<TestCaseRow<S>>,
    scores: Map<Seq<char>, Raw<S>>,
) -> Map<Seq<char>, Raw<S>>
    decreases cases.len(),
{
    if cases.len() == 0 {
        scores
    } else {
        let m = by_all_keys(cases.drop_last(), scores);
        let id = text::decimal_int(cases.last().id as int);
        if scores.contains_key(config::label_of(cases.last())) && !m.contains_key(id) {
            m.insert(id, scores[config::label_of(cases.last())])
        } else {
            m
        }
    }
}

proof fn lemma_by_all_keys_extends<S>(
    cases: Seq<TestCaseRow<S>>,
    scores: Map<Seq<char>, Raw<S>>,
    k: Seq<char>,
)
    requires
        scores.contains_key(k),
    ensures
        by_all_keys(cases, scores).contains_key(k),
        by_all_keys(cases, scores)[k] == scores[k],
    decreases cases.len(),
{
    if cases.len() > 0 {
        lemma_by_all_keys_extends(cases.drop_last(), scores, k);
    }
}

/// A case that is scored under its label is found by its id.
pub proof fn scored_cases_are_found_by_id<S>(
    cases: Seq<TestCaseRow<S>>,
    scores: Map<Seq<char>, Raw<S>>,
    i: int,
)
    requires
        0 <= i < cases.len(),
        scores.contains_key(config::label_of(cases[i])),
    ensures
        by_all_keys(cases, scores).contains_key(text::decimal_int(cases[i].id as int)),
        by_all_keys(cases, scores)[config::label_of(cases[i])] == scores[config::label_of(cases[i])],
    decreases cases.len(),
{
    lemma_by_all_keys_extends(cases, scores, config::label_of(cases[i]));
    if i < cases.len() - 1 {
        scored_cases_are_found_by_id(cases.drop_last(), scores, i);
    }
}

fn scores_by_all_keys<S: Copy>(cases: &Vec<TestCaseRow<S>>, scores: &TextMap<Raw<S>>) -> (r: TextMap<
    Raw<S>,
>)
    ensures
        r@ == by_all_keys(cases@, scores@),
{
    let mut out = scores.copy();
    let mut i: usize = 0;
    assert(cases@.take(0) =~= Seq::<TestCaseRow<S>>::empty());
    while i < cases.len()
        invariant
            i <= cases@.len(),
            out@ == by_all_keys(cases@.take(i as int), scores@),
        decreases cases@.len() - i,
    {
        let tc = &cases[i];
        let label = resolve_tc_label(tc);
        match scores.get(label.as_str()) {
            Some(score) => {
                out.or_insert(decimal_i64(tc.id as i64).as_str(), *score);
            },
            None => {},
        }
        proof {
            assert(cases@.take(i as int + 1).drop_last() =~= cases@.take(i as int));
            assert(cases@.take(i as int + 1).last() == cases@[i as int]);
        }
        i += 1;
    }
    assert(cases@.take(i as int) =~= cases@);
    out
}

// ---------------------------------------------------------------------------
// The points of one subtask
// ---------------------------------------------------------------------------

/// The score of a named case; zero where there is none.
pub open spec fn score_value<S>(
    scores: Map<Seq<char>, Raw<S>>,
    units: Units<S>,
    label: Seq<char>,
) -> S {
    if scores.contains_key(label) {
        scores[label].value
    } else {
        units.zero
    }
}

pub open spec fn scores_in_full<S>(scores: Map<Seq<char>, Raw<S>>, label: Seq<char>) -> bool {
    scores.contains_key(label) && scores[label].class is Full
}

/// The weights and scores that a mean is taken over: a case that is not known
/// weighs one, and a case without weight does not count.
pub open spec fn mean_parts<S>(
    labels: Seq<Seq<char>>,
    weights: Map<Seq<char>, Points<S>>,
    scores: Map<Seq<char>, Raw<S>>,
    units: Units<S>,
) -> Seq<(S, S)>
    decreases labels.len(),
{
    if labels.len() == 0 {
        seq![]
    } else {
        let rest = mean_parts(labels.drop_last(), weights, scores, units);
        let label = labels.last();
        if !weights.contains_key(label) {
            rest.push((units.one, score_value(scores, units, label)))
        } else if weights[label].positive {
            rest.push((weights[label].value, score_value(scores, units, label)))
        } else {
            rest
        }
    }
}

/// What a subtask earns.
pub open spec fn earned<S>(
    def: SubtaskDef<S>,
    weights: Map<Seq<char>, Points<S>>,
    scores: Map<Seq<char>, Raw<S>>,
    units: Units<S>,
) -> PointsView<S> {
    let labels = text::views(def.test_cases@);
    if labels.len() == 0 {
        PointsView::Nothing
    } else {
        match def.scoring_method {
            SubtaskScoringMethod::GroupMin => if forall|i: int|
                0 <= i < labels.len() ==> scores_in_full(scores, #[trigger] labels[i]) {
                PointsView::Full { max: def.max_score }
            } else {
                PointsView::Nothing
            },
            SubtaskScoringMethod::Sum => {
                let parts = mean_parts(labels, weights, scores, units);
                if parts.len() == 0 {
                    PointsView::Nothing
                } else {
                    PointsView::Mean { max: def.max_score, parts }
                }
            },
            SubtaskScoringMethod::GroupMul => PointsView::Product {
                max: def.max_score,
                factors: labels.map_values(|l: Seq<char>| score_value(scores, units, l)),
            },
        }
    }
}

fn value_of<S: Copy>(scores: &TextMap<Raw<S>>, units: Units<S>, label: &str) -> (r: S)
    ensures
        r == score_value(scores@, units, label@),
{
    match scores.get(label) {
        Some(raw) => raw.value,
        None => units.zero,
    }
}

/// Finds what a subtask earns, from the weights and the scores of its cases.
pub fn subtask_points<S: Copy>(
    def: &SubtaskDef<S>,
    weights: &TextMap<Points<S>>,
    scores: &TextMap<Raw<S>>,
    units: Units<S>,
) -> (r: SubtaskPoints<S>)
    ensures
        r@ == earned(*def, weights@, scores@, units),
{
    let n: usize = def.test_cases.len();
    let ghost labels = text::views(def.test_cases@);
    if n == 0 {
        return SubtaskPoints::Nothing;
    }
    match def.scoring_method {
        SubtaskScoringMethod::GroupMin => {
            let mut i: usize = 0;
            while i < n
                invariant
                    i <= n,
                    0 < n == def.test_cases@.len(),
                    def.scoring_method is GroupMin,
                    labels == text::views(def.test_cases@),
                    forall|k: int| 0 <= k < i ==> scores_in_full(scores@, #[trigger] labels[k]),
                decreases n - i,
            {
                let full = match scores.get(def.test_cases[i].as_str()) {
                    Some(raw) => raw.class == RawClass::Full,
                    None => false,
                };
                assert(labels[i as int] == def.test_cases@[i as int]@);
                if !full {
                    assert(!scores_in_full(scores@, labels[i as int]));
                    return SubtaskPoints::Nothing;
                }
                i += 1;
            }
            SubtaskPoints::Full { max: def.max_score }
        },
        SubtaskScoringMethod::Sum => {
            let mut parts: Vec<(S, S)> = Vec::new();
            let mut i: usize = 0;
            assert(labels.take(0) =~= Seq::<Seq<char>>::empty());
            while i < n
                invariant
                    i <= n,
                    n == def.test_cases@.len(),
                    labels == text::views(def.test_cases@),
                    parts@ == mean_parts(labels.take(i as int), weights@, scores@, units),
                decreases n - i,
            {
                let label = def.test_cases[i].as_str();
                let value = value_of(scores, units, label);
                match weights.get(label) {
                    Some(w) => if w.positive {
                        parts.push((w.value, value));
                    },
                    None => {
                        parts.push((units.one, value));
                    },
                }
                proof {
                    assert(labels.take(i as int + 1).drop_last() =~= labels.take(i as int));
                    assert(labels.take(i as int + 1).last() == labels[i as int]);
                }
                i += 1;
            }
            assert(labels.take(i as int) =~= labels);
            if parts.len() == 0 {
                SubtaskPoints::Nothing
            } else {
                SubtaskPoints::Mean { max: def.max_score, parts }
            }
        },
        SubtaskScoringMethod::GroupMul => {
            let mut factors: Vec<S> = Vec::new();
            let mut i: usize = 0;
            while i < n
                invariant
                    i <= n,
                    n == def.test_cases@.len(),
                    labels == text::views(def.test_cases@),
                    factors@.len() == i,
                    forall|k: int|
                        0 <= k < i ==> #[trigger] factors@[k] == score_value(
                            scores@,
                            units,
                            labels[k],
                        ),
                decreases n - i,
            {
                factors.push(value_of(scores, units, def.test_cases[i].as_str()));
                i += 1;
            }
            assert(factors@ =~= labels.map_values(
                |l: Seq<char>| score_value(scores@, units, l),
            ));
            SubtaskPoints::Product { max: def.max_score, factors }
        },
    }
}

/// A subtask's points, as `points` puts them into a number.
pub open spec fn scored_as<S, R, F: Fn(SubtaskPoints<S>) -> R>(
    score: R,
    def: SubtaskDef<S>,
    weights: Map<Seq<char>, Points<S>>,
    scores: Map<Seq<char>, Raw<S>>,
    units: Units<S>,
    points: F,
) -> bool {
    exists|p: SubtaskPoints<S>|
        p@ == earned(def, weights, scores, units) && #[trigger] call_ensures(points, (p,), score)
}

/// The result of a subtask.
pub open spec fn result_is<S, R, F: Fn(SubtaskPoints<S>) -> R>(
    r: SubtaskResult<S, R>,
    def: SubtaskDef<S>,
    weights: Map<Seq<char>, Points<S>>,
    scores: Map<Seq<char>, Raw<S>>,
    units: Units<S>,
    points: F,
) -> bool {
    &&& r.name == def.name
    &&& r.max_score == def.max_score
    &&& scored_as(r.score, def, weights, scores, units, points)
}

/// The scores of all subtasks, from scores by label.
pub open spec fn all_scored_as<S, R, F: Fn(SubtaskPoints<S>) -> R>(
    all: Seq<R>,
    defs: Seq<SubtaskDef<S>>,
    cases: Seq<TestCaseRow<S>>,
    tc_scores: Map<Seq<char>, Raw<S>>,
    units: Units<S>,
    points: F,
) -> bool {
    &&& all.len() == defs.len()
    &&& forall|i: int|
        0 <= i < defs.len() ==> scored_as(
            #[trigger] all[i],
            defs[i],
            weights_of(cases),
            by_all_keys(cases, tc_scores),
            units,
            points,
        )
}

fn score_subtask_with_weights<S: Copy, R, F: Fn(SubtaskPoints<S>) -> R>(
    def: &SubtaskDef<S>,
    weights: &TextMap<Points<S>>,
    scores: &TextMap<Raw<S>>,
    units: Units<S>,
    points: &F,
) -> (r: SubtaskResult<S, R>)
    requires
        forall|p: SubtaskPoints<S>| #[trigger] call_requires(*points, (p,)),
    ensures
        result_is(r, *def, weights@, scores@, units, *points),
{
    let p = subtask_points(def, weights, scores, units);
    let ghost what = p;
    let score = points(p);
    let r = SubtaskResult { name: def.name.clone(), score, max_score: def.max_score };
    assert(r.name == def.name);
    assert(what@ == earned(*def, weights@, scores@, units) && call_ensures(
        *points,
        (what,),
        r.score,
    ));
    r
}

/// Scores a subtask. `tc_scores` is keyed by label.
pub fn score_subtask<S: Copy, R, F: Fn(SubtaskPoints<S>) -> R>(
    def: &SubtaskDef<S>,
    test_cases: &Vec<TestCaseRow<S>>,
    tc_scores: &TextMap<Raw<S>>,
    units: Units<S>,
    points: &F,
) -> (r: SubtaskResult<S, R>)
    requires
        forall|p: SubtaskPoints<S>| #[trigger] call_requires(*points, (p,)),
    ensures
        result_is(
            r,
            *def,
            weights_of(test_cases@),
            by_all_keys(test_cases@, tc_scores@),
            units,
            *points,
        ),
{
    let weights = test_case_weights(test_cases);
    let scores = scores_by_all_keys(test_cases, tc_scores);
    score_subtask_with_weights(def, &weights, &scores, units, points)
}

/// Scores all subtasks, in their order.
pub fn score_all_subtasks<S: Copy, R, F: Fn(SubtaskPoints<S>) -> R>(
    defs: &Vec<SubtaskDef<S>>,
    test_cases: &Vec<TestCaseRow<S>>,
    tc_scores: &TextMap<Raw<S>>,
    units: Units<S>,
    points: &F,
) -> (r: Vec<SubtaskResult<S, R>>)
    requires
        forall|p: SubtaskPoints<S>| #[trigger] call_requires(*points, (p,)),
    ensures
        r@.len() == defs@.len(),
        forall|i: int|
            0 <= i < defs@.len() ==> result_is(
                #[trigger] r@[i],
                defs@[i],
                weights_of(test_cases@),
                by_all_keys(test_cases@, tc_scores@),
                units,
                *points,
            ),
{
    let weights = test_case_weights(test_cases);
    let scores = scores_by_all_keys(test_cases, tc_scores);
    let mut out: Vec<SubtaskResult<S, R>> = Vec::new();
    let mut i: usize = 0;
    while i < defs.len()
        invariant
            i <= defs@.len(),
            forall|p: SubtaskPoints<S>| #[trigger] call_requires(*points, (p,)),
            out@.len() == i,
            forall|k: int|
                0 <= k < i ==> result_is(
                    #[trigger] out@[k],
                    defs@[k],
                    weights@,
                    scores@,
                    units,
                    *points,
                ),
        decreases defs@.len() - i,
    {
        out.push(score_subtask_with_weights(&defs[i], &weights, &scores, units, points));
        i += 1;
    }
    out
}

/// A group of which one case falls short earns nothing, whatever the others
/// score.
pub proof fn one_failure_fails_the_group<S>(
    def: SubtaskDef<S>,
    weights: Map<Seq<char>, Points<S>>,
    scores: Map<Seq<char>, Raw<S>>,
    units: Units<S>,
    i: int,
)
    requires
        def.scoring_method is GroupMin,
        0 <= i < def.test_cases@.len(),
        !scores_in_full(scores, def.test_cases@[i]@),
    ensures
        earned(def, weights, scores, units) is Nothing,
{
    let labels = text::views(def.test_cases@);
    assert(!scores_in_full(scores, labels[i]));
}

/// A mean has no more parts than the subtask names cases, and one for each of
/// them where every case has weight.
pub proof fn a_mean_has_no_more_parts_than_cases<S>(
    labels: Seq<Seq<char>>,
    weights: Map<Seq<char>, Points<S>>,
    scores: Map<Seq<char>, Raw<S>>,
    units: Units<S>,
)
    ensures
        mean_parts(labels, weights, scores, units).len() <= labels.len(),
        (forall|i: int|
            0 <= i < labels.len() ==> !weights.contains_key(#[trigger] labels[i])
                || weights[labels[i]].positive) ==> mean_parts(
            labels,
            weights,
            scores,
            units,
        ).len() == labels.len(),
    decreases labels.len(),
{
    if labels.len() > 0 {
        let rest = labels.drop_last();
        a_mean_has_no_more_parts_than_cases(rest, weights, scores, units);
        if forall|i: int|
            0 <= i < labels.len() ==> !weights.contains_key(#[trigger] labels[i])
                || weights[labels[i]].positive {
            assert forall|i: int| 0 <= i < rest.len() implies !weights.contains_key(
                #[trigger] rest[i],
            ) || weights[rest[i]].positive by {
                assert(rest[i] == labels[i]);
            }
            assert(labels.last() == labels[labels.len() - 1]);
        }
    }
}

// ---------------------------------------------------------------------------
// Which cases count
// ---------------------------------------------------------------------------

/// Whether a subtask names the case.
pub open spec fn named_in<S>(def: SubtaskDef<S>, tc: TestCaseRow<S>) -> bool {
    ||| text::views(def.test_cases@).contains(config::label_of(tc))
    ||| text::views(def.test_cases@).contains(text::decimal_int(tc.id as int))
}

/// Whether a case is evaluated: samples for the feedback, cases with points,
/// and those that a subtask names.
pub open spec fn counts<S>(defs: Seq<SubtaskDef<S>>, tc: TestCaseRow<S>) -> bool {
    ||| tc.is_sample
    ||| tc.score.positive
    ||| exists|d: int| 0 <= d < defs.len() && named_in(#[trigger] defs[d], tc)
}

/// The ids of the cases that count, in order.
pub open spec fn counting_ids<S>(defs: Seq<SubtaskDef<S>>, cases: Seq<TestCaseRow<S>>) -> Seq<i32>
    decreases cases.len(),
{
    if cases.len() == 0 {
        seq![]
    } else {
        let rest = counting_ids(defs, cases.drop_last());
        if counts(defs, cases.last()) {
            rest.push(cases.last().id)
        } else {
            rest
        }
    }
}

/// Whether a subtask names the case.
pub fn names_case<S>(def: &SubtaskDef<S>, tc: &TestCaseRow<S>) -> (r: bool)
    ensures
        r == named_in(*def, *tc),
{
    let label = resolve_tc_label(tc);
    if list_contains(&def.test_cases, label.as_str()) {
        return true;
    }
    let id = decimal_i64(tc.id as i64);
    list_contains(&def.test_cases, id.as_str())
}

fn case_counts<S: Copy>(defs: &Vec<SubtaskDef<S>>, tc: &TestCaseRow<S>) -> (r: bool)
    ensures
        r == counts(defs@, *tc),
{
    if tc.is_sample || tc.score.positive {
        return true;
    }
    let mut d: usize = 0;
    while d < defs.len()
        invariant
            d <= defs@.len(),
            forall|k: int| 0 <= k < d ==> !named_in(#[trigger] defs@[k], *tc),
        decreases defs@.len() - d,
    {
        if names_case(&defs[d], tc) {
            assert(named_in(defs@[d as int], *tc));
            return true;
        }
        d += 1;
    }
    false
}

/// The ids of the cases to evaluate.
pub fn compute_scoring_test_case_ids<S: Copy>(
    subtask_defs: &Vec<SubtaskDef<S>>,
    test_cases: &Vec<TestCaseRow<S>>,
) -> (r: Vec<i32>)
    ensures
        r@ == counting_ids(subtask_defs@, test_cases@),
{
    let mut out: Vec<i32> = Vec::new();
    let mut i: usize = 0;
    assert(test_cases@.take(0) =~= Seq::<TestCaseRow<S>>::empty());
    while i < test_cases.len()
        invariant
            i <= test_cases@.len(),
            out@ == counting_ids(subtask_defs@, test_cases@.take(i as int)),
        decreases test_cases@.len() - i,
    {
        if case_counts(subtask_defs, &test_cases[i]) {
            out.push(test_cases[i].id);
        }
        proof {
            assert(test_cases@.take(i as int + 1).drop_last() =~= test_cases@.take(i as int));
            assert(test_cases@.take(i as int + 1).last() == test_cases@[i as int]);
        }
        i += 1;
    }
    assert(test_cases@.take(i as int) =~= test_cases@);
    out
}

/// Every case that a subtask names is evaluated.
pub proof fn named_cases_are_evaluated<S>(
    defs: Seq<SubtaskDef<S>>,
    cases: Seq<TestCaseRow<S>>,
    d: int,
    i: int,
)
    requires
        0 <= d < defs.len(),
        0 <= i < cases.len(),
        named_in(defs[d], cases[i]),
    ensures
        counting_ids(defs, cases).contains(cases[i].id),
    decreases cases.len(),
{
    let rest = counting_ids(defs, cases.drop_last());
    let all = counting_ids(defs, cases);
    if i < cases.len() - 1 {
        assert(cases.drop_last()[i] == cases[i]);
        named_cases_are_evaluated(defs, cases.drop_last(), d, i);
        let j = choose|j: int| 0 <= j < rest.len() && rest[j] == cases[i].id;
        assert(all[j] == cases[i].id);
    } else {
        assert(counts(defs, cases[i]));
        assert(all[rest.len() as int] == cases[i].id);
    }
}

/// Whether a case is scored where a task has no subtasks.
pub open spec fn scored_by_default<S>(tc: TestCaseRow<S>) -> bool {
    !tc.is_sample && tc.score.positive
}

pub open spec fn default_cases<S>(cases: Seq<TestCaseRow<S>>) -> Seq<TestCaseRow<S>>
    decreases cases.len(),
{
    if cases.len() == 0 {
        seq![]
    } else if scored_by_default(cases.last()) {
        default_cases(cases.drop_last()).push(cases.last())
    } else {
        default_cases(cases.drop_last())
    }
}

/// The subtasks of a task without any: one over all scored cases, with their
/// points together as its maximum; none where no case is scored.
pub open spec fn default_subtasks_are<S, F: Fn(Vec<S>) -> S>(
    defs: Seq<SubtaskDef<S>>,
    cases: Seq<TestCaseRow<S>>,
    total: F,
) -> bool {
    let scored = default_cases(cases);
    if scored.len() == 0 {
        defs.len() == 0
    } else {
        &&& defs.len() == 1
        &&& defs[0].name@ == "All Tests"@
        &&& defs[0].scoring_method is Sum
        &&& text::views(defs[0].test_cases@)
            == scored.map_values(|tc: TestCaseRow<S>| config::label_of(tc))
        &&& exists|v: Vec<S>|
            v@ == scored.map_values(|tc: TestCaseRow<S>| tc.score.value)
                && #[trigger] call_ensures(total, (v,), defs[0].max_score)
    }
}

/// Builds the subtasks of a task without any. `total` adds up points.
pub fn build_default_subtasks<S: Copy, F: Fn(Vec<S>) -> S>(
    test_cases: &Vec<TestCaseRow<S>>,
    total: &F,
) -> (r: Vec<SubtaskDef<S>>)
    requires
        forall|v: Vec<S>| #[trigger] call_requires(*total, (v,)),
    ensures
        default_subtasks_are(r@, test_cases@, *total),
{
    let mut labels: Vec<String> = Vec::new();
    let mut values: Vec<S> = Vec::new();
    let mut i: usize = 0;
    let ghost label_fn = |tc: TestCaseRow<S>| config::label_of(tc);
    let ghost value_fn = |tc: TestCaseRow<S>| tc.score.value;
    assert(test_cases@.take(0) =~= Seq::<TestCaseRow<S>>::empty());
    assert(text::views(labels@) =~= default_cases(test_cases@.take(0)).map_values(label_fn));
    assert(values@ =~= default_cases(test_cases@.take(0)).map_values(value_fn));
    while i < test_cases.len()
        invariant
            i <= test_cases@.len(),
            label_fn == (|tc: TestCaseRow<S>| config::label_of(tc)),
            value_fn == (|tc: TestCaseRow<S>| tc.score.value),
            text::views(labels@) == default_cases(test_cases@.take(i as int)).map_values(label_fn),
            values@ == default_cases(test_cases@.take(i as int)).map_values(value_fn),
        decreases test_cases@.len() - i,
    {
        let tc = &test_cases[i];
        let ghost before = default_cases(test_cases@.take(i as int));
        let ghost labels0 = labels@;
        proof {
            assert(test_cases@.take(i as int + 1).drop_last() =~= test_cases@.take(i as int));
            assert(test_cases@.take(i as int + 1).last() == test_cases@[i as int]);
        }
        if !tc.is_sample && tc.score.positive {
            let label = resolve_tc_label(tc);
            let ghost l = label;
            labels.push(label);
            values.push(tc.score.value);
            proof {
                crate::text::lemma_views_push(labels0, l);
                assert(before.push(*tc).map_values(label_fn) =~= before.map_values(
                    label_fn,
                ).push(config::label_of(*tc)));
                assert(before.push(*tc).map_values(value_fn) =~= before.map_values(
                    value_fn,
                ).push(tc.score.value));
            }
        }
        i += 1;
    }
    assert(test_cases@.take(i as int) =~= test_cases@);
    let mut out: Vec<SubtaskDef<S>> = Vec::new();
    if labels.len() == 0 {
        assert(text::views(labels@).len() == 0);
        return out;
    }
    assert(text::views(labels@).len() == labels@.len());
    let ghost all = values;
    let max_score = total(values);
    out.push(
        SubtaskDef {
            name: "All Tests".to_owned(),
            scoring_method: SubtaskScoringMethod::Sum,
            max_score,
            test_cases: labels,
        },
    );
    assert(all@ == default_cases(test_cases@).map_values(value_fn) && call_ensures(
        *total,
        (all,),
        out@[0].max_score,
    ));
    out
}

/// The subtasks of a task: its own, or the default ones where it has none.
pub fn effective_subtasks<S: Copy, F: Fn(Vec<S>) -> S>(
    configured: Vec<SubtaskDef<S>>,
    test_cases: &Vec<TestCaseRow<S>>,
    total: &F,
) -> (r: Vec<SubtaskDef<S>>)
    requires
        forall|v: Vec<S>| #[trigger] call_requires(*total, (v,)),
    ensures
        if configured@.len() > 0 {
            r == configured
        } else {
            default_subtasks_are(r@, test_cases@, *total)
        },
{
    if configured.len() > 0 {
        configured
    } else {
        build_default_subtasks(test_cases, total)
    }
}

} // verus!
