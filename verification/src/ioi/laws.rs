//! What the scores of tasks promise, said of the submissions, the cases and the
//! subtasks themselves.

use vstd::prelude::*;

use crate::ioi::config;
use crate::ioi::config::{SubtaskDef, SubtaskScoringMethod, TokenConfig};
use crate::ioi::evaluate::GroupEval;
use crate::ioi::judge;
use crate::ioi::judge::{JudgeContext, JudgePlan, JudgeResult};
use crate::ioi::score;
use crate::ioi::score::{
    RatedRow, SubmissionScores, SubtaskScoreDetail, TcMaxScore, TcResultRow,
};
use crate::ioi::scoring;
use crate::ioi::short_circuit;
use crate::ioi::short_circuit::SubtaskShortCircuit;
use crate::ioi::subtasks;
use crate::ioi::subtasks::{PointsView, SubtaskPoints, SubtaskResult, Units};
use crate::ioi::tokens;
use crate::ioi::tokens::TokenState;
use crate::judging;
use crate::judging::{
    EvalOutcome, JudgementRef, OnSubmissionInput, Points, Raw, RawClass, SubmissionStatus, SubmissionUpdate,
    TestCaseRow, TestCaseVerdict,
};
use crate::text;
use crate::verdict::Verdict;

verus! {

// ---------------------------------------------------------------------------
// The score of a task
// ---------------------------------------------------------------------------

/// Of two scores the better one counts: it is one of them, and neither is above
/// it.
pub proof fn the_better_score_counts(r: int, a: int, b: int)
    requires
        r == scoring::max_of(a, b),
    ensures
        r >= a,
        r >= b,
        r == a || r == b,
{
}

/// `best` is the best score of a subtask: no submission has more there, and it is
/// that of a submission, or zero.
pub open spec fn is_best(best: int, scores: Seq<Vec<i64>>, subtask: int) -> bool {
    &&& best >= 0
    &&& forall|i: int|
        0 <= i < scores.len() && subtask < (#[trigger] scores[i])@.len() ==> scores[i]@[subtask]
            <= best
    &&& best == 0 || exists|i: int|
        0 <= i < scores.len() && subtask < (#[trigger] scores[i])@.len() && scores[i]@[subtask]
            == best
}

/// What counts of a subtask is its best score.
pub proof fn the_best_of_a_subtask_counts(scores: Seq<Vec<i64>>, subtask: int)
    requires
        subtask >= 0,
    ensures
        is_best(scoring::best_at(scores, subtask), scores, subtask),
    decreases scores.len(),
{
    let best = scoring::best_at(scores, subtask);
    if scores.len() > 0 {
        let rest = scores.drop_last();
        the_best_of_a_subtask_counts(rest, subtask);
        let less = scoring::best_at(rest, subtask);
        assert forall|i: int|
            0 <= i < scores.len() && subtask < (#[trigger] scores[i])@.len() implies scores[i]@[subtask]
            <= best by {
            if i < rest.len() {
                assert(rest[i] == scores[i]);
            }
        }
        if best > 0 {
            if best == less {
                let i = choose|i: int|
                    0 <= i < rest.len() && subtask < (#[trigger] rest[i])@.len()
                        && rest[i]@[subtask] == less;
                assert(scores[i] == rest[i]);
            } else {
                assert(scores[scores.len() - 1]@[subtask] == best);
            }
        }
    }
}

/// The numbers of a list, together.
pub open spec fn together(numbers: Seq<int>) -> int
    decreases numbers.len(),
{
    if numbers.len() == 0 {
        0
    } else {
        numbers[0] + together(numbers.drop_first())
    }
}

proof fn lemma_together_push(numbers: Seq<int>, x: int)
    ensures
        together(numbers.push(x)) == together(numbers) + x,
    decreases numbers.len(),
{
    let more = numbers.push(x);
    if numbers.len() == 0 {
        assert(more.drop_first() =~= numbers);
    } else {
        assert(more.drop_first() =~= numbers.drop_first().push(x));
        lemma_together_push(numbers.drop_first(), x);
        assert(more[0] == numbers[0]);
    }
}

/// As many subtasks count as the submission with the most of them has.
pub proof fn every_subtask_is_seen(scores: Seq<Vec<i64>>)
    ensures
        forall|i: int|
            0 <= i < scores.len() ==> (#[trigger] scores[i])@.len() <= scoring::widest(scores),
        scores.len() > 0 ==> exists|i: int|
            0 <= i < scores.len() && (#[trigger] scores[i])@.len() == scoring::widest(scores),
        scores.len() == 0 ==> scoring::widest(scores) == 0,
    decreases scores.len(),
{
    if scores.len() > 0 {
        let rest = scores.drop_last();
        every_subtask_is_seen(rest);
        assert forall|i: int| 0 <= i < scores.len() implies (#[trigger] scores[i])@.len()
            <= scoring::widest(scores) by {
            if i < rest.len() {
                assert(rest[i] == scores[i]);
            }
        }
        if scoring::widest(scores) == scores.last()@.len() {
            assert(scores[scores.len() - 1]@.len() == scoring::widest(scores));
        } else {
            let i = choose|i: int|
                0 <= i < rest.len() && (#[trigger] rest[i])@.len() == scoring::widest(rest);
            assert(scores[i] == rest[i]);
        }
    }
}

/// The score of a task is that of its subtasks together, the best of each over
/// all submissions, whichever submission it is from.
pub proof fn the_best_of_each_subtask_make_the_score(scores: Seq<Vec<i64>>, best: Seq<int>)
    requires
        best.len() == scoring::widest(scores),
        forall|k: int| 0 <= k < best.len() ==> is_best(#[trigger] best[k], scores, k),
    ensures
        scoring::best_sum(scores) == together(best),
{
    lemma_sum_is_together(scores, best, best.len());
    assert(best.take(best.len() as int) =~= best);
}

proof fn lemma_best_is_one(a: int, b: int, scores: Seq<Vec<i64>>, subtask: int)
    requires
        is_best(a, scores, subtask),
        is_best(b, scores, subtask),
    ensures
        a == b,
{
}

proof fn lemma_sum_is_together(scores: Seq<Vec<i64>>, best: Seq<int>, n: nat)
    requires
        n <= best.len(),
        forall|k: int| 0 <= k < best.len() ==> is_best(#[trigger] best[k], scores, k),
    ensures
        scoring::sum_of_best(scores, n) == together(best.take(n as int)),
    decreases n,
{
    if n == 0 {
        assert(best.take(0) =~= Seq::<int>::empty());
    } else {
        lemma_sum_is_together(scores, best, (n - 1) as nat);
        assert(best.take(n as int) =~= best.take(n - 1).push(best[n - 1]));
        lemma_together_push(best.take(n - 1), best[n - 1]);
        the_best_of_a_subtask_counts(scores, n - 1);
        lemma_best_is_one(
            best[n - 1],
            scoring::best_at(scores, n - 1),
            scores,
            n - 1,
        );
    }
}

// ---------------------------------------------------------------------------
// The points of a subtask
// ---------------------------------------------------------------------------

/// A group earns all its points where every case that it names has scored in
/// full, and else nothing.
pub proof fn a_group_earns_all_or_nothing<S>(
    def: SubtaskDef<S>,
    weights: Map<Seq<char>, Points<S>>,
    scores: Map<Seq<char>, Raw<S>>,
    units: Units<S>,
)
    requires
        def.scoring_method == SubtaskScoringMethod::GroupMin,
        def.test_cases@.len() > 0,
    ensures
        subtasks::earned(def, weights, scores, units) == (if forall|i: int|
            0 <= i < def.test_cases@.len() ==> scores.contains_key(
                (#[trigger] def.test_cases@[i])@,
            ) && scores[def.test_cases@[i]@].class == RawClass::Full {
            PointsView::Full { max: def.max_score }
        } else {
            PointsView::Nothing
        }),
{
    let labels = text::views(def.test_cases@);
    if forall|i: int|
        0 <= i < def.test_cases@.len() ==> scores.contains_key((#[trigger] def.test_cases@[i])@)
            && scores[def.test_cases@[i]@].class == RawClass::Full {
        assert forall|i: int| 0 <= i < labels.len() implies subtasks::scores_in_full(
            scores,
            #[trigger] labels[i],
        ) by {
            assert(labels[i] == def.test_cases@[i]@);
        }
    } else {
        let i = choose|i: int|
            0 <= i < def.test_cases@.len() && !(scores.contains_key(
                (#[trigger] def.test_cases@[i])@,
            ) && scores[def.test_cases@[i]@].class == RawClass::Full);
        assert(!subtasks::scores_in_full(scores, labels[i]));
    }
}

/// A product has one factor for each case that the subtask names: its score, and
/// zero where it has none.
pub proof fn a_product_has_a_factor_for_each_case<S>(
    def: SubtaskDef<S>,
    weights: Map<Seq<char>, Points<S>>,
    scores: Map<Seq<char>, Raw<S>>,
    units: Units<S>,
    i: int,
)
    requires
        def.scoring_method == SubtaskScoringMethod::GroupMul,
        0 <= i < def.test_cases@.len(),
    ensures
        subtasks::earned(def, weights, scores, units) is Product,
        ({
            let earned = subtasks::earned(def, weights, scores, units);
            &&& earned->Product_max == def.max_score
            &&& earned->factors.len() == def.test_cases@.len()
            &&& scores.contains_key(def.test_cases@[i]@) ==> earned->factors[i]
                == scores[def.test_cases@[i]@].value
            &&& !scores.contains_key(def.test_cases@[i]@) ==> earned->factors[i] == units.zero
        }),
{
    let labels = text::views(def.test_cases@);
    assert(labels[i] == def.test_cases@[i]@);
}

/// A mean is taken over the cases that have weight, each with its own weight and
/// its score: one more case adds its weight and score at the end, a case that is
/// not known weighs one, and one without weight adds nothing.
pub proof fn a_mean_weighs_each_case<S>(
    labels: Seq<Seq<char>>,
    label: Seq<char>,
    weights: Map<Seq<char>, Points<S>>,
    scores: Map<Seq<char>, Raw<S>>,
    units: Units<S>,
)
    ensures
        subtasks::mean_parts(Seq::<Seq<char>>::empty(), weights, scores, units).len() == 0,
        ({
            let before = subtasks::mean_parts(labels, weights, scores, units);
            let after = subtasks::mean_parts(labels.push(label), weights, scores, units);
            let weighs = !weights.contains_key(label) || weights[label].positive;
            &&& !weighs ==> after == before
            &&& weighs ==> {
                &&& after.len() == before.len() + 1
                &&& after.drop_last() == before
                &&& weights.contains_key(label) ==> after.last().0 == weights[label].value
                &&& !weights.contains_key(label) ==> after.last().0 == units.one
                &&& scores.contains_key(label) ==> after.last().1 == scores[label].value
                &&& !scores.contains_key(label) ==> after.last().1 == units.zero
            }
        }),
{
    let more = labels.push(label);
    assert(more.drop_last() =~= labels);
    assert(more.last() == label);
    let before = subtasks::mean_parts(labels, weights, scores, units);
    let after = subtasks::mean_parts(more, weights, scores, units);
    if !weights.contains_key(label) || weights[label].positive {
        assert(after.drop_last() =~= before);
    }
}

/// A subtask that takes a mean earns it times its maximum, and nothing where no
/// case has weight. One that names no case earns nothing.
pub proof fn a_mean_is_taken_over_what_has_weight<S>(
    def: SubtaskDef<S>,
    weights: Map<Seq<char>, Points<S>>,
    scores: Map<Seq<char>, Raw<S>>,
    units: Units<S>,
)
    ensures
        def.test_cases@.len() == 0 ==> subtasks::earned(def, weights, scores, units) is Nothing,
        def.scoring_method == SubtaskScoringMethod::Sum ==> {
            let parts = subtasks::mean_parts(
                text::views(def.test_cases@),
                weights,
                scores,
                units,
            );
            let earned = subtasks::earned(def, weights, scores, units);
            &&& earned is Nothing <==> parts.len() == 0
            &&& !(earned is Nothing) ==> earned is Mean && earned->Mean_max == def.max_score
                && earned->parts == parts
        },
{
    let labels = text::views(def.test_cases@);
    assert(labels.len() == def.test_cases@.len());
}

/// A test case goes by its label where it has one, else by its id.
pub proof fn cases_go_by_their_label<S>(tc: TestCaseRow<S>)
    ensures
        tc.label is Some && tc.label->0@.len() > 0 ==> config::label_of(tc) == tc.label->0@,
        tc.label is None || tc.label->0@.len() == 0 ==> config::label_of(tc) == text::decimal_int(
            tc.id as int,
        ),
        subtasks::keys_of(tc).contains(config::label_of(tc)),
        subtasks::keys_of(tc).contains(text::decimal_int(tc.id as int)),
        forall|k: Seq<char>| #[trigger]
            subtasks::keys_of(tc).contains(k) ==> k == config::label_of(tc) || k
                == text::decimal_int(tc.id as int),
        subtasks::keys_of(tc).no_duplicates(),
{
    let keys = subtasks::keys_of(tc);
    let id = text::decimal_int(tc.id as int);
    if config::label_of(tc) == id {
        assert(keys[0] == id);
    } else {
        assert(keys[0] == config::label_of(tc));
        assert(keys[1] == id);
    }
}

/// The weight of a case is found under its label and under its id: one more case
/// is found under both, with its points, and what else was there stays.
pub proof fn a_case_weighs_its_points<S>(
    cases: Seq<TestCaseRow<S>>,
    tc: TestCaseRow<S>,
    key: Seq<char>,
)
    ensures
        subtasks::weights_of(Seq::<TestCaseRow<S>>::empty()).dom() == Set::<Seq<char>>::empty(),
        ({
            let before = subtasks::weights_of(cases);
            let after = subtasks::weights_of(cases.push(tc));
            let named = key == config::label_of(tc) || key == text::decimal_int(tc.id as int);
            &&& named ==> after.contains_key(key) && after[key] == tc.score
            &&& !named ==> (after.contains_key(key) <==> before.contains_key(key))
            &&& !named && before.contains_key(key) ==> after[key] == before[key]
        }),
{
    assert(cases.push(tc).drop_last() =~= cases);
    assert(cases.push(tc).last() == tc);
    assert(subtasks::weights_of(Seq::<TestCaseRow<S>>::empty()).dom() =~= Set::<
        Seq<char>,
    >::empty());
}

/// A score that is known by the label of a case is found by its id, where no
/// other case has that id and the id is not a label itself. What is known stays.
pub proof fn a_score_is_found_by_the_id_too<S>(
    cases: Seq<TestCaseRow<S>>,
    scores: Map<Seq<char>, Raw<S>>,
    i: int,
)
    requires
        0 <= i < cases.len(),
        scores.contains_key(config::label_of(cases[i])),
        forall|j: int| 0 <= j < cases.len() && j != i ==> (#[trigger] cases[j]).id != cases[i].id,
    ensures
        ({
            let all = subtasks::by_all_keys(cases, scores);
            let id = text::decimal_int(cases[i].id as int);
            &&& all.contains_key(id)
            &&& scores.contains_key(id) ==> all[id] == scores[id]
            &&& !scores.contains_key(id) ==> all[id] == scores[config::label_of(cases[i])]
        }),
        forall|k: Seq<char>| #[trigger]
            scores.contains_key(k) ==> subtasks::by_all_keys(cases, scores).contains_key(k)
                && subtasks::by_all_keys(cases, scores)[k] == scores[k],
{
    lemma_scores_stay(cases, scores);
    lemma_found_by_id(cases, scores, i);
}

proof fn lemma_scores_stay<S>(cases: Seq<TestCaseRow<S>>, scores: Map<Seq<char>, Raw<S>>)
    ensures
        forall|k: Seq<char>| #[trigger]
            scores.contains_key(k) ==> subtasks::by_all_keys(cases, scores).contains_key(k)
                && subtasks::by_all_keys(cases, scores)[k] == scores[k],
    decreases cases.len(),
{
    if cases.len() > 0 {
        lemma_scores_stay(cases.drop_last(), scores);
    }
}

proof fn lemma_id_not_found<S>(
    cases: Seq<TestCaseRow<S>>,
    scores: Map<Seq<char>, Raw<S>>,
    id: i32,
)
    requires
        !scores.contains_key(text::decimal_int(id as int)),
        forall|j: int| 0 <= j < cases.len() ==> (#[trigger] cases[j]).id != id,
    ensures
        !subtasks::by_all_keys(cases, scores).contains_key(text::decimal_int(id as int)),
    decreases cases.len(),
{
    if cases.len() > 0 {
        assert forall|j: int| 0 <= j < cases.drop_last().len() implies (
        #[trigger] cases.drop_last()[j]).id != id by {
            assert(cases.drop_last()[j] == cases[j]);
        }
        lemma_id_not_found(cases.drop_last(), scores, id);
        assert(cases[cases.len() - 1].id != id);
        if text::decimal_int(cases.last().id as int) == text::decimal_int(id as int) {
            text::decimal_form_is_injective(cases.last().id as int, id as int);
        }
    }
}

proof fn lemma_found_by_id<S>(
    cases: Seq<TestCaseRow<S>>,
    scores: Map<Seq<char>, Raw<S>>,
    i: int,
)
    requires
        0 <= i < cases.len(),
        scores.contains_key(config::label_of(cases[i])),
        forall|j: int| 0 <= j < cases.len() && j != i ==> (#[trigger] cases[j]).id != cases[i].id,
    ensures
        ({
            let all = subtasks::by_all_keys(cases, scores);
            let id = text::decimal_int(cases[i].id as int);
            &&& all.contains_key(id)
            &&& scores.contains_key(id) ==> all[id] == scores[id]
            &&& !scores.contains_key(id) ==> all[id] == scores[config::label_of(cases[i])]
        }),
    decreases cases.len(),
{
    let rest = cases.drop_last();
    let id = text::decimal_int(cases[i].id as int);
    if i < rest.len() {
        assert(rest[i] == cases[i]);
        assert forall|j: int| 0 <= j < rest.len() && j != i implies (#[trigger] rest[j]).id
            != rest[i].id by {
            assert(rest[j] == cases[j]);
        }
        lemma_found_by_id(rest, scores, i);
        assert(cases[cases.len() - 1].id != cases[i].id);
        if text::decimal_int(cases.last().id as int) == id {
            text::decimal_form_is_injective(cases.last().id as int, cases[i].id as int);
        }
    } else {
        lemma_scores_stay(rest, scores);
        if !scores.contains_key(id) {
            assert forall|j: int| 0 <= j < rest.len() implies (#[trigger] rest[j]).id
                != cases[i].id by {
                assert(rest[j] == cases[j]);
            }
            lemma_id_not_found(rest, scores, cases[i].id);
        }
    }
}

// ---------------------------------------------------------------------------
// Which cases are evaluated
// ---------------------------------------------------------------------------

/// A subtask lists the case, by its label or by its id.
pub open spec fn lists<S>(def: SubtaskDef<S>, tc: TestCaseRow<S>) -> bool {
    exists|i: int|
        0 <= i < def.test_cases@.len() && ((#[trigger] def.test_cases@[i])@ == config::label_of(tc)
            || def.test_cases@[i]@ == text::decimal_int(tc.id as int))
}

/// The cases that are evaluated are the samples, those with points and those that
/// a subtask lists, and no others.
pub proof fn these_cases_are_evaluated<S>(
    defs: Seq<SubtaskDef<S>>,
    cases: Seq<TestCaseRow<S>>,
    id: i32,
)
    ensures
        subtasks::counting_ids(defs, cases).contains(id) <==> exists|i: int|
            0 <= i < cases.len() && (#[trigger] cases[i]).id == id && (cases[i].is_sample
                || cases[i].score.positive || exists|d: int|
                0 <= d < defs.len() && lists(#[trigger] defs[d], cases[i])),
    decreases cases.len(),
{
    let ids = subtasks::counting_ids(defs, cases);
    if cases.len() > 0 {
        let rest = cases.drop_last();
        let fewer = subtasks::counting_ids(defs, rest);
        these_cases_are_evaluated(defs, rest, id);
        lemma_counts(defs, cases.last());
        assert(cases[cases.len() - 1] == cases.last());
        if fewer.contains(id) {
            let j = choose|j: int| 0 <= j < fewer.len() && fewer[j] == id;
            assert(ids[j] == id);
            let i = choose|i: int|
                0 <= i < rest.len() && (#[trigger] rest[i]).id == id && (rest[i].is_sample
                    || rest[i].score.positive || exists|d: int|
                    0 <= d < defs.len() && lists(#[trigger] defs[d], rest[i]));
            assert(cases[i] == rest[i]);
        }
        if subtasks::counts(defs, cases.last()) {
            assert(ids[fewer.len() as int] == cases.last().id);
        }
        if ids.contains(id) && !fewer.contains(id) {
            let j = choose|j: int| 0 <= j < ids.len() && ids[j] == id;
            if j < fewer.len() {
                assert(fewer[j] == id);
            }
            assert(cases[cases.len() - 1].id == id);
        }
        if exists|i: int|
            0 <= i < cases.len() && (#[trigger] cases[i]).id == id && (cases[i].is_sample
                || cases[i].score.positive || exists|d: int|
                0 <= d < defs.len() && lists(#[trigger] defs[d], cases[i])) {
            let i = choose|i: int|
                0 <= i < cases.len() && (#[trigger] cases[i]).id == id && (cases[i].is_sample
                    || cases[i].score.positive || exists|d: int|
                    0 <= d < defs.len() && lists(#[trigger] defs[d], cases[i]));
            if i < rest.len() {
                assert(rest[i] == cases[i]);
                assert(fewer.contains(id));
            } else {
                assert(subtasks::counts(defs, cases.last()));
            }
        }
    } else {
        assert(ids.len() == 0);
    }
}

proof fn lemma_lists<S>(def: SubtaskDef<S>, tc: TestCaseRow<S>)
    ensures
        subtasks::named_in(def, tc) <==> lists(def, tc),
{
    let names = text::views(def.test_cases@);
    let label = config::label_of(tc);
    let id = text::decimal_int(tc.id as int);
    if names.contains(label) {
        let i = choose|i: int| 0 <= i < names.len() && names[i] == label;
        assert(def.test_cases@[i]@ == label);
    }
    if names.contains(id) {
        let i = choose|i: int| 0 <= i < names.len() && names[i] == id;
        assert(def.test_cases@[i]@ == id);
    }
    if lists(def, tc) {
        let i = choose|i: int|
            0 <= i < def.test_cases@.len() && ((#[trigger] def.test_cases@[i])@ == label
                || def.test_cases@[i]@ == id);
        assert(names[i] == def.test_cases@[i]@);
    }
}

proof fn lemma_counts<S>(defs: Seq<SubtaskDef<S>>, tc: TestCaseRow<S>)
    ensures
        subtasks::counts(defs, tc) <==> tc.is_sample || tc.score.positive || exists|d: int|
            0 <= d < defs.len() && lists(#[trigger] defs[d], tc),
{
    assert forall|d: int| 0 <= d < defs.len() implies subtasks::named_in(#[trigger] defs[d], tc)
        == lists(defs[d], tc) by {
        lemma_lists(defs[d], tc);
    }
    if exists|d: int| 0 <= d < defs.len() && subtasks::named_in(#[trigger] defs[d], tc) {
        let d = choose|d: int| 0 <= d < defs.len() && subtasks::named_in(#[trigger] defs[d], tc);
        assert(lists(defs[d], tc));
    }
    if exists|d: int| 0 <= d < defs.len() && lists(#[trigger] defs[d], tc) {
        let d = choose|d: int| 0 <= d < defs.len() && lists(#[trigger] defs[d], tc);
        assert(subtasks::named_in(defs[d], tc));
    }
}

/// A task without subtasks is scored over the cases that are no samples and have
/// points: one more case is scored exactly where it is such a case.
pub proof fn samples_are_not_scored_by_default<S>(cases: Seq<TestCaseRow<S>>, tc: TestCaseRow<S>)
    ensures
        subtasks::default_cases(Seq::<TestCaseRow<S>>::empty()).len() == 0,
        subtasks::default_cases(cases.push(tc)) == (if tc.is_sample || !tc.score.positive {
            subtasks::default_cases(cases)
        } else {
            subtasks::default_cases(cases).push(tc)
        }),
{
    assert(cases.push(tc).drop_last() =~= cases);
    assert(cases.push(tc).last() == tc);
}

/// The cases with an id of the list are taken, in their order.
pub proof fn cases_are_taken_by_id<S>(
    cases: Seq<TestCaseRow<S>>,
    tc: TestCaseRow<S>,
    ids: Seq<i32>,
)
    ensures
        judge::with_ids(Seq::<TestCaseRow<S>>::empty(), ids).len() == 0,
        judge::with_ids(cases.push(tc), ids) == (if ids.contains(tc.id) {
            judge::with_ids(cases, ids).push(tc)
        } else {
            judge::with_ids(cases, ids)
        }),
{
    assert(cases.push(tc).drop_last() =~= cases);
    assert(cases.push(tc).last() == tc);
}

/// What one more outcome does to the scores: where the case was judged and is
/// known its score is found under its label and its id. A case that was skipped
/// or cancelled leaves the scores as they are.
pub proof fn a_judged_case_is_scored<S>(
    outcomes: Seq<EvalOutcome<S>>,
    o: EvalOutcome<S>,
    cases: Seq<TestCaseRow<S>>,
    i: int,
    key: Seq<char>,
)
    requires
        0 <= i < cases.len(),
        cases[i].id == o.test_case_id,
        forall|j: int| i < j < cases.len() ==> (#[trigger] cases[j]).id != o.test_case_id,
    ensures
        ({
            let before = judge::keyed_scores(outcomes, cases);
            let after = judge::keyed_scores(outcomes.push(o), cases);
            let judged = !(o.verdict == Verdict::Skipped || o.verdict == Verdict::Cancelled);
            let named = key == config::label_of(cases[i]) || key == text::decimal_int(
                o.test_case_id as int,
            );
            &&& !judged ==> after == before
            &&& judged && named ==> after.contains_key(key) && after[key] == o.raw_score
            &&& judged && !named ==> (after.contains_key(key) <==> before.contains_key(key))
            &&& judged && !named && before.contains_key(key) ==> after[key] == before[key]
        }),
{
    assert(outcomes.push(o).drop_last() =~= outcomes);
    assert(outcomes.push(o).last() == o);
    a_case_is_found_by_its_id(cases, i);
}

/// A case is found by its id: the last one that has it.
pub proof fn a_case_is_found_by_its_id<S>(cases: Seq<TestCaseRow<S>>, i: int)
    requires
        0 <= i < cases.len(),
        forall|j: int| i < j < cases.len() ==> (#[trigger] cases[j]).id != cases[i].id,
    ensures
        judging::case_at(cases, cases[i].id) == Some(cases[i]),
    decreases cases.len(),
{
    if i < cases.len() - 1 {
        assert(cases[cases.len() - 1].id != cases[i].id);
        let rest = cases.drop_last();
        assert forall|j: int| i < j < rest.len() implies (#[trigger] rest[j]).id != rest[i].id by {
            assert(rest[j] == cases[j]);
        }
        a_case_is_found_by_its_id(rest, i);
    }
}

/// No case is found by an id that none has.
pub proof fn unknown_ids_find_no_case<S>(cases: Seq<TestCaseRow<S>>, id: i32)
    requires
        forall|j: int| 0 <= j < cases.len() ==> (#[trigger] cases[j]).id != id,
    ensures
        judging::case_at(cases, id) is None,
    decreases cases.len(),
{
    if cases.len() > 0 {
        assert(cases[cases.len() - 1].id != id);
        let rest = cases.drop_last();
        assert forall|j: int| 0 <= j < rest.len() implies (#[trigger] rest[j]).id != id by {
            assert(rest[j] == cases[j]);
        }
        unknown_ids_find_no_case(rest, id);
    }
}

// ---------------------------------------------------------------------------
// When a subtask is settled
// ---------------------------------------------------------------------------

/// A group that wants every case in full is lost with the first that falls short,
/// a product with the first zero, and a mean is never lost.
pub proof fn a_subtask_is_lost_when_it_cannot_score(class: RawClass)
    ensures
        short_circuit::fails(SubtaskScoringMethod::GroupMin, class) <==> (class == RawClass::Zero
            || class == RawClass::Partial),
        short_circuit::fails(SubtaskScoringMethod::GroupMul, class) <==> class == RawClass::Zero,
        !short_circuit::fails(SubtaskScoringMethod::Sum, class),
        !short_circuit::can_stop(SubtaskScoringMethod::Sum),
        short_circuit::can_stop(SubtaskScoringMethod::GroupMin),
        short_circuit::can_stop(SubtaskScoringMethod::GroupMul),
{
}

/// A lost group earns nothing, whatever its other cases score.
pub proof fn a_lost_group_earns_nothing<S>(
    def: SubtaskDef<S>,
    weights: Map<Seq<char>, Points<S>>,
    scores: Map<Seq<char>, Raw<S>>,
    units: Units<S>,
    i: int,
)
    requires
        def.scoring_method == SubtaskScoringMethod::GroupMin,
        0 <= i < def.test_cases@.len(),
        scores.contains_key(def.test_cases@[i]@),
        short_circuit::fails(def.scoring_method, scores[def.test_cases@[i]@].class),
    ensures
        subtasks::earned(def, weights, scores, units) is Nothing,
{
    a_group_earns_all_or_nothing(def, weights, scores, units);
    assert(!(scores[def.test_cases@[i]@].class == RawClass::Full));
}

/// Which subtasks a result settles: those that were settled, and those that need
/// the case and cannot score with it.
pub proof fn a_result_settles_the_subtasks_of_its_case(
    sc: SubtaskShortCircuit,
    id: i32,
    class: RawClass,
    k: int,
)
    requires
        sc.wf(),
        0 <= k < sc.failed@.len(),
    ensures
        sc.failed_after(id, class).len() == sc.failed@.len(),
        sc.failed_after(id, class)[k] <==> {
            ||| sc.failed@[k]
            ||| sc.members@[k]@.contains(id) && sc.methods@[k] == SubtaskScoringMethod::GroupMin
                && class != RawClass::Full
            ||| sc.members@[k]@.contains(id) && sc.methods@[k] == SubtaskScoringMethod::GroupMul
                && class == RawClass::Zero
        },
{
}

/// A case is dropped where every subtask that needs it is settled and one of them
/// is a subtask of the case that settled it; but no sample, none that is done and
/// none that is recorded is dropped.
pub proof fn cases_of_settled_subtasks_are_dropped(
    sc: SubtaskShortCircuit,
    failed: Seq<bool>,
    trigger: i32,
    recorded: Seq<i32>,
    id: i32,
    k: int,
)
    requires
        sc.wf(),
        failed.len() == sc.failed@.len(),
        sc.order@.contains(id),
        0 <= k < sc.members@.len(),
        sc.members@[k]@.contains(id),
        sc.members@[k]@.contains(trigger),
        !sc.samples@.contains(id),
        !sc.gone@.contains(id),
        !recorded.contains(id),
        forall|j: int|
            0 <= j < sc.members@.len() && (#[trigger] sc.members@[j])@.contains(id) ==> failed[j]
                && sc.methods@[j] != SubtaskScoringMethod::Sum,
    ensures
        sc.released(sc.order@, failed, trigger, recorded).contains(id),
{
    let i = choose|i: int| 0 <= i < sc.order@.len() && sc.order@[i] == id;
    assert(sc.needed_by(k, id) && sc.needed_by(k, trigger));
    assert forall|j: int| #[trigger] sc.needed_by(j, id) implies short_circuit::can_stop(
        sc.methods@[j],
    ) && failed[j] by {
        assert(sc.members@[j]@.contains(id));
    }
    assert(sc.releasable(failed, trigger, id));
    short_circuit::needless_cases_are_dropped(sc, sc.order@, failed, trigger, recorded, i);
}

// ---------------------------------------------------------------------------
// Tokens
// ---------------------------------------------------------------------------

/// A budget that grows gains one token with each interval that has passed, up to
/// its maximum. A fixed one is what it was at the start, and without a budget
/// there is no end to the tokens.
pub proof fn a_token_comes_with_each_interval(config: TokenConfig, intervals: nat, rest: nat)
    requires
        config.mode is Regenerating,
        rest < (if config.regen_interval_min == 0 {
            1
        } else {
            config.regen_interval_min as nat
        }),
    ensures
        ({
            let interval = if config.regen_interval_min == 0 {
                1
            } else {
                config.regen_interval_min as nat
            };
            let all = tokens::at_hand(config, 0, intervals * interval + rest);
            &&& config.initial + intervals <= config.max ==> all == config.initial + intervals
            &&& config.initial + intervals > config.max ==> all == config.max
        }),
{
    let interval = if config.regen_interval_min == 0 {
        1nat
    } else {
        config.regen_interval_min as nat
    };
    vstd::arithmetic::div_mod::lemma_fundamental_div_mod_converse(
        (intervals * interval + rest) as int,
        interval as int,
        intervals as int,
        rest as int,
    );
}

/// A token that is spent is gone: with one more used there is one less at hand,
/// and none where all are used. Without a budget none is ever used up.
pub proof fn a_spent_token_is_gone(config: TokenConfig, used: nat, elapsed_minutes: nat)
    ensures
        config.mode is Off ==> tokens::at_hand(config, used, elapsed_minutes) == u32::MAX,
        config.mode is FixedBudget ==> tokens::at_hand(config, 0, elapsed_minutes)
            == config.initial,
        !(config.mode is Off) ==> tokens::at_hand(config, used + 1, elapsed_minutes) == (
        if tokens::at_hand(config, used, elapsed_minutes) > 0 {
            tokens::at_hand(config, used, elapsed_minutes) - 1
        } else {
            0
        }),
{
}

/// No two contestants, and no two contests, share their tokens.
pub proof fn every_contestant_has_their_own_tokens(
    contest: i32,
    user: i32,
    other_contest: i32,
    other_user: i32,
)
    requires
        tokens::token_key_of(contest, user) == tokens::token_key_of(other_contest, other_user),
    ensures
        contest == other_contest,
        user == other_user,
{
    let a = text::decimal_int(contest as int);
    let b = text::decimal_int(other_contest as int);
    let c = text::decimal_int(user as int);
    let d = text::decimal_int(other_user as int);
    let left = tokens::token_key_of(contest, user);
    let right = tokens::token_key_of(other_contest, other_user);
    reveal_strlit("tokens:");
    reveal_strlit(":");
    lemma_no_colon(contest as int);
    lemma_no_colon(other_contest as int);
    assert(left =~= ("tokens:"@ + a) + (":"@ + c));
    assert(right =~= ("tokens:"@ + b) + (":"@ + d));
    assert(left[7 + a.len() as int] == ':');
    assert(right[7 + b.len() as int] == ':');
    if a.len() < b.len() {
        assert(right[7 + a.len() as int] == b[a.len() as int]);
    }
    if b.len() < a.len() {
        assert(left[7 + b.len() as int] == a[b.len() as int]);
    }
    assert(a.len() == b.len());
    assert forall|i: int| 0 <= i < a.len() implies a[i] == b[i] by {
        assert(left[7 + i] == a[i]);
        assert(right[7 + i] == b[i]);
    }
    assert(a =~= b);
    let at = 8 + a.len() as int;
    assert(left.len() == at + c.len());
    assert(right.len() == at + d.len());
    assert forall|i: int| 0 <= i < c.len() implies c[i] == d[i] by {
        assert(left[at + i] == c[i]);
        assert(right[at + i] == d[i]);
    }
    assert(c =~= d);
    text::decimal_form_is_injective(contest as int, other_contest as int);
    text::decimal_form_is_injective(user as int, other_user as int);
}

proof fn lemma_digits_only(n: nat)
    ensures
        forall|i: int|
            0 <= i < text::decimal_digits(n).len() ==> (#[trigger] text::decimal_digits(n)[i])
                != ':',
    decreases n,
{
    let last = text::digit_char(n % 10);
    assert(last as nat == 48 + n % 10);
    if n >= 10 {
        lemma_digits_only(n / 10);
        let front = text::decimal_digits(n / 10);
        assert(text::decimal_digits(n) == front.push(last));
    } else {
        assert(text::decimal_digits(n) == seq![last]);
    }
}

proof fn lemma_no_colon(n: int)
    ensures
        forall|i: int|
            0 <= i < text::decimal_int(n).len() ==> (#[trigger] text::decimal_int(n)[i]) != ':',
{
    if n < 0 {
        lemma_digits_only((-n) as nat);
        let d = text::decimal_digits((-n) as nat);
        let s = text::decimal_int(n);
        assert(s =~= seq!['-'] + d);
        assert forall|i: int| 0 <= i < s.len() implies (#[trigger] s[i]) != ':' by {
            if i > 0 {
                assert(s[i] == d[i - 1]);
            }
        }
    } else {
        lemma_digits_only(n as nat);
    }
}

// ---------------------------------------------------------------------------
// Stored results
// ---------------------------------------------------------------------------

/// One more stored result counts under the label of its case, and leaves the
/// other labels as they are.
pub proof fn a_stored_result_counts_under_its_label<S>(
    raws: Seq<Raw<S>>,
    raw: Raw<S>,
    rows: Seq<TcResultRow<S>>,
    row: TcResultRow<S>,
    cases: Seq<TestCaseRow<S>>,
    i: int,
    key: Seq<char>,
)
    requires
        raws.len() == rows.len(),
        0 <= i < cases.len(),
        cases[i].id == row.test_case_id,
        forall|j: int| i < j < cases.len() ==> (#[trigger] cases[j]).id != row.test_case_id,
    ensures
        ({
            let before = score::labelled(raws, rows, cases);
            let after = score::labelled(raws.push(raw), rows.push(row), cases);
            let label = config::label_of(cases[i]);
            &&& after.contains_key(label) && after[label] == raw
            &&& key != label ==> (after.contains_key(key) <==> before.contains_key(key))
            &&& key != label && before.contains_key(key) ==> after[key] == before[key]
        }),
{
    assert(rows.push(row).drop_last() =~= rows);
    assert(raws.push(raw).drop_last() =~= raws);
    assert(rows.push(row).last() == row);
    assert(raws.push(raw).last() == raw);
    a_case_is_found_by_its_id(cases, i);
}

/// The results of a submission are gathered by submission: one more counts under
/// its label for its own submission, and changes no other.
pub proof fn results_are_gathered_by_submission<S>(
    rows: Seq<RatedRow<S>>,
    row: RatedRow<S>,
    key: (i32, i32, i32),
    label: Seq<char>,
)
    ensures
        ({
            let before = score::scores_for(rows, key);
            let after = score::scores_for(rows.push(row), key);
            let own = key == (row.user_id, row.problem_id, row.submission_id);
            &&& !own ==> after == before
            &&& own && label == row.label@ ==> after.contains_key(label) && after[label] == row.raw
            &&& own && label != row.label@ ==> (after.contains_key(label) <==> before.contains_key(
                label,
            ))
            &&& own && label != row.label@ && before.contains_key(label) ==> after[label]
                == before[label]
        }),
{
    assert(rows.push(row).drop_last() =~= rows);
    assert(rows.push(row).last() == row);
}

/// The time of a submission is the earliest of its results: none is before it,
/// and one has it. It has one exactly where it has results.
pub proof fn a_submission_is_timed_by_its_first_result<S>(
    rows: Seq<RatedRow<S>>,
    key: (i32, i32, i32),
)
    ensures
        forall|i: int|
            0 <= i < rows.len() && (#[trigger] rows[i]).key() == key ==> score::earliest(rows, key)
                is Some && score::earliest(rows, key)->0 <= rows[i].elapsed_seconds,
        score::earliest(rows, key) is Some ==> exists|i: int|
            0 <= i < rows.len() && (#[trigger] rows[i]).key() == key && rows[i].elapsed_seconds
                == score::earliest(rows, key)->0,
    decreases rows.len(),
{
    if rows.len() > 0 {
        let rest = rows.drop_last();
        a_submission_is_timed_by_its_first_result(rest, key);
        let all = score::earliest(rows, key);
        assert forall|i: int| 0 <= i < rows.len() && (#[trigger] rows[i]).key() == key implies all
            is Some && all->0 <= rows[i].elapsed_seconds by {
            if i < rest.len() {
                assert(rest[i] == rows[i]);
            }
        }
        if all is Some {
            if rows.last().key() == key && all->0 == rows.last().elapsed_seconds {
                assert(rows[rows.len() - 1].key() == key);
            } else {
                let i = choose|i: int|
                    0 <= i < rest.len() && (#[trigger] rest[i]).key() == key
                        && rest[i].elapsed_seconds == score::earliest(rest, key)->0;
                assert(rows[i] == rest[i]);
            }
        }
    }
}

/// The maximum of a case is that of the last entry with its id, and without an
/// entry the case has no points.
pub proof fn a_case_has_the_points_of_its_entry<S>(
    maxes: Seq<TcMaxScore<S>>,
    m: TcMaxScore<S>,
    id: i32,
    units: Units<S>,
)
    ensures
        score::max_at(Seq::<TcMaxScore<S>>::empty(), id, units) == (Points {
            value: units.zero,
            positive: false,
        }),
        m.test_case_id == id ==> score::max_at(maxes.push(m), id, units) == m.max_score,
        m.test_case_id != id ==> score::max_at(maxes.push(m), id, units) == score::max_at(
            maxes,
            id,
            units,
        ),
{
    assert(maxes.push(m).drop_last() =~= maxes);
    assert(maxes.push(m).last() == m);
}

/// An accepted case counts in full whatever it is worth; another one counts by
/// the part of its points that it has, and not at all where it has no points.
pub proof fn a_case_counts_by_its_share<S, F: Fn(S, S) -> Raw<S>>(
    r: Raw<S>,
    verdict: Verdict,
    score: S,
    max: Points<S>,
    units: Units<S>,
    ratio: F,
)
    requires
        score::normalized(r, verdict, score, max, units, ratio),
    ensures
        verdict == Verdict::Accepted ==> r.class == RawClass::Full && r.value == units.one,
        verdict != Verdict::Accepted && !max.positive ==> r.class == RawClass::Zero && r.value
            == units.zero,
        verdict != Verdict::Accepted && max.positive ==> call_ensures(ratio, (score, max.value), r),
{
}

// ---------------------------------------------------------------------------
// Results
// ---------------------------------------------------------------------------

/// The result of a subtask bears its name and its maximum, and the number for what
/// its cases earn.
pub proof fn a_result_is_for_its_subtask<S, R, F: Fn(SubtaskPoints<S>) -> R>(
    r: SubtaskResult<S, R>,
    def: SubtaskDef<S>,
    weights: Map<Seq<char>, Points<S>>,
    scores: Map<Seq<char>, Raw<S>>,
    units: Units<S>,
    points: F,
)
    requires
        subtasks::result_is(r, def, weights, scores, units, points),
    ensures
        r.name == def.name,
        r.max_score == def.max_score,
        exists|p: SubtaskPoints<S>|
            p@ == subtasks::earned(def, weights, scores, units) && #[trigger] call_ensures(
                points,
                (p,),
                r.score,
            ),
{
}

/// Every subtask has a score, in its place, from the scores of the cases by label
/// or id.
pub proof fn every_subtask_has_its_score<S, R, F: Fn(SubtaskPoints<S>) -> R>(
    all: Seq<R>,
    defs: Seq<SubtaskDef<S>>,
    cases: Seq<TestCaseRow<S>>,
    tc_scores: Map<Seq<char>, Raw<S>>,
    units: Units<S>,
    points: F,
    i: int,
)
    requires
        subtasks::all_scored_as(all, defs, cases, tc_scores, units, points),
        0 <= i < defs.len(),
    ensures
        all.len() == defs.len(),
        exists|p: SubtaskPoints<S>|
            p@ == subtasks::earned(
                defs[i],
                subtasks::weights_of(cases),
                subtasks::by_all_keys(cases, tc_scores),
                units,
            ) && #[trigger] call_ensures(points, (p,), all[i]),
{
    assert(subtasks::scored_as(
        all[i],
        defs[i],
        subtasks::weights_of(cases),
        subtasks::by_all_keys(cases, tc_scores),
        units,
        points,
    ));
}

/// The details of a submission tell of every subtask its name, its maximum, how it
/// is scored and what it scored.
pub proof fn details_tell_of_every_subtask<S, R, F: Fn(SubtaskPoints<S>) -> R>(
    details: Seq<SubtaskScoreDetail<S, R>>,
    defs: Seq<SubtaskDef<S>>,
    cases: Seq<TestCaseRow<S>>,
    tc_scores: Map<Seq<char>, Raw<S>>,
    units: Units<S>,
    points: F,
    i: int,
)
    requires
        score::details_are(details, defs, cases, tc_scores, units, points),
        0 <= i < defs.len(),
    ensures
        details.len() == defs.len(),
        details[i].name == defs[i].name,
        details[i].max_score == defs[i].max_score,
        details[i].scoring_method == defs[i].scoring_method,
        subtasks::scored_as(
            details[i].score,
            defs[i],
            subtasks::weights_of(cases),
            subtasks::by_all_keys(cases, tc_scores),
            units,
            points,
        ),
{
    assert(details[i].name == defs[i].name);
}

/// A task without subtasks gets one over all its scored cases, by their labels,
/// which takes their mean; and none where no case is scored.
pub proof fn a_task_without_subtasks_gets_one<S, F: Fn(Vec<S>) -> S>(
    defs: Seq<SubtaskDef<S>>,
    cases: Seq<TestCaseRow<S>>,
    total: F,
    i: int,
)
    requires
        subtasks::default_subtasks_are(defs, cases, total),
        0 <= i < cases.len(),
        !cases[i].is_sample,
        cases[i].score.positive,
    ensures
        defs.len() == 1,
        defs[0].name@ == "All Tests"@,
        defs[0].scoring_method == SubtaskScoringMethod::Sum,
        text::views(defs[0].test_cases@).contains(config::label_of(cases[i])),
        defs[0].test_cases@.len() == subtasks::default_cases(cases).len(),
{
    lemma_scored_case(cases, i);
    let scored = subtasks::default_cases(cases);
    let labels = text::views(defs[0].test_cases@);
    let k = choose|k: int| 0 <= k < scored.len() && scored[k] == cases[i];
    assert(labels[k] == config::label_of(cases[i]));
    assert(labels.len() == defs[0].test_cases@.len());
}

proof fn lemma_scored_case<S>(cases: Seq<TestCaseRow<S>>, i: int)
    requires
        0 <= i < cases.len(),
        !cases[i].is_sample,
        cases[i].score.positive,
    ensures
        subtasks::default_cases(cases).contains(cases[i]),
    decreases cases.len(),
{
    let rest = cases.drop_last();
    let scored = subtasks::default_cases(cases);
    let fewer = subtasks::default_cases(rest);
    if i < rest.len() {
        assert(rest[i] == cases[i]);
        lemma_scored_case(rest, i);
        let k = choose|k: int| 0 <= k < fewer.len() && fewer[k] == cases[i];
        assert(scored[k] == cases[i]);
    } else {
        assert(scored[fewer.len() as int] == cases[i]);
    }
}

/// What is evaluated are the cases of the task that are samples, have points or
/// are listed by a subtask.
pub proof fn a_task_evaluates_what_counts<S>(ctx: JudgeContext<S>, tc: TestCaseRow<S>)
    ensures
        judge::evaluated(ctx).contains(tc) <==> ctx.test_cases@.contains(tc) && subtasks::counting_ids(
            ctx.subtask_defs@,
            ctx.test_cases@,
        ).contains(tc.id),
{
    lemma_with_ids(
        ctx.test_cases@,
        subtasks::counting_ids(ctx.subtask_defs@, ctx.test_cases@),
        tc,
    );
}

proof fn lemma_with_ids<S>(cases: Seq<TestCaseRow<S>>, ids: Seq<i32>, tc: TestCaseRow<S>)
    ensures
        judge::with_ids(cases, ids).contains(tc) <==> cases.contains(tc) && ids.contains(tc.id),
    decreases cases.len(),
{
    let all = judge::with_ids(cases, ids);
    if cases.len() > 0 {
        let rest = cases.drop_last();
        let fewer = judge::with_ids(rest, ids);
        lemma_with_ids(rest, ids, tc);
        assert(cases =~= rest.push(cases.last()));
        lemma_pushed(rest, cases.last(), tc);
        lemma_pushed(fewer, cases.last(), tc);
    } else {
        assert(!all.contains(tc));
    }
}

proof fn lemma_pushed<T>(s: Seq<T>, last: T, x: T)
    ensures
        s.push(last).contains(x) <==> s.contains(x) || x == last,
{
    let more = s.push(last);
    if s.contains(x) {
        let i = choose|i: int| 0 <= i < s.len() && s[i] == x;
        assert(more[i] == x);
    }
    if more.contains(x) && x != last {
        let i = choose|i: int| 0 <= i < more.len() && more[i] == x;
        assert(s[i] == x);
    }
    assert(more[s.len() as int] == last);
}

/// A submission with nothing to judge is accepted without points.
pub proof fn nothing_to_judge_is_accepted<S>(u: SubmissionUpdate<S>, at: JudgementRef, zero: S)
    requires
        judge::nothing_to_judge(u, at, zero),
    ensures
        u.submission_id == at.submission_id && u.judgement_id == at.judgement_id && u.judge_epoch
            == at.judge_epoch,
        u.status == Some(SubmissionStatus::Judged),
        u.verdict == Some(Some(Verdict::Accepted)),
        u.score == Some(zero),
        u.time_used == Some(None::<i32>) && u.memory_used == Some(None::<i32>),
        u.compile_output is None && u.error_code is None && u.error_message is None,
{
}

/// Results are gathered by submission: each submission with results once, with the
/// earliest of their times and all their scores.
pub proof fn every_submission_is_gathered_once<S>(
    groups: Seq<SubmissionScores<S>>,
    rows: Seq<RatedRow<S>>,
    i: int,
)
    requires
        score::grouped(groups, rows),
        0 <= i < rows.len(),
    ensures
        exists|g: int|
            0 <= g < groups.len() && (#[trigger] groups[g]).user_id == rows[i].user_id
                && groups[g].problem_id == rows[i].problem_id && groups[g].submission_id
                == rows[i].submission_id && groups[g].elapsed_seconds <= rows[i].elapsed_seconds
                && groups[g].scores@.contains_key(rows[i].label@),
        forall|g: int, h: int|
            0 <= g < h < groups.len() ==> (#[trigger] groups[g]).key() != (
            #[trigger] groups[h]).key(),
{
    let key = rows[i].key();
    a_submission_is_timed_by_its_first_result(rows, key);
    assert(score::earliest(rows, key) is Some);
    let g = choose|g: int| 0 <= g < groups.len() && (#[trigger] groups[g]).key() == key;
    lemma_scored_label(rows, i);
    assert(groups[g].user_id == rows[i].user_id);
}

proof fn lemma_scored_label<S>(rows: Seq<RatedRow<S>>, i: int)
    requires
        0 <= i < rows.len(),
    ensures
        score::scores_for(rows, rows[i].key()).contains_key(rows[i].label@),
    decreases rows.len(),
{
    if i < rows.len() - 1 {
        assert(rows.drop_last()[i] == rows[i]);
        lemma_scored_label(rows.drop_last(), i);
    }
}

/// A stored result goes by the label of its case, and by its id where the case is
/// not known.
pub proof fn results_go_by_the_label_of_their_case<S>(cases: Seq<TestCaseRow<S>>, id: i32)
    ensures
        judging::case_at(cases, id) matches Some(tc) ==> score::row_label(cases, id)
            == config::label_of(tc),
        judging::case_at(cases, id) is None ==> score::row_label(cases, id) == text::decimal_int(
            id as int,
        ),
{
}

/// A result frees a place for the next case where it settles nothing, or drops
/// nothing; a compilation error frees none.
pub proof fn places_are_refilled_where_nothing_is_dropped<S>(
    e: GroupEval<S>,
    v: TestCaseVerdict<S>,
)
    ensures
        v.verdict == Verdict::CompileError ==> !e.refills(v),
        v.verdict != Verdict::CompileError && !(exists|k: int|
            0 <= k < e.tracker.members@.len() && (#[trigger] e.tracker.members@[k])@.contains(
                v.test_case_id,
            ) && short_circuit::fails(e.tracker.methods@[k], v.score.class)) ==> e.refills(v),
{
    if e.tracker.settles(v.test_case_id, v.score.class) {
        let k = choose|k: int| #[trigger]
            e.tracker.needed_by(k, v.test_case_id) && short_circuit::fails(
                e.tracker.methods@[k],
                v.score.class,
            );
        assert(e.tracker.members@[k]@.contains(v.test_case_id));
    }
}

/// A total is that of these values.
pub proof fn a_total_is_of_these_values<S, T: Fn(Vec<S>) -> S>(values: Seq<S>, r: S, total: T)
    requires
        judge::totals_to(values, r, total),
        forall|a: Vec<S>, b: Vec<S>, x: S, y: S|
            a@ == b@ && #[trigger] call_ensures(total, (a,), x) && #[trigger] call_ensures(
                total,
                (b,),
                y,
            ) ==> x == y,
    ensures
        forall|v: Vec<S>, x: S| v@ == values && #[trigger] call_ensures(total, (v,), x) ==> x == r,
{
}

/// A task submission is evaluated where one of its cases counts; else it is finished at
/// once, without points, and what an earlier judgement left is removed where there are
/// cases.
pub proof fn what_counts_is_evaluated<S: Copy>(
    req: &OnSubmissionInput<S>,
    ctx: &JudgeContext<S>,
    zero: S,
    r: JudgePlan<S>,
)
    requires
        call_ensures(judge::judge_with_context::<S>, (req, ctx, zero), r),
    ensures
        r is Evaluate <==> judge::evaluated(*ctx).len() > 0,
        r matches JudgePlan::Evaluate(cases) ==> cases@ == judge::evaluated(*ctx),
        r matches JudgePlan::Finish { update, discard_results, result } ==> {
            &&& update.submission_id == ctx.submission_id
            &&& update.judgement_id == req.judgement_id
            &&& update.judge_epoch == req.judge_epoch
            &&& discard_results <==> ctx.test_cases@.len() > 0
            &&& result.output.success && result.output.error_message is None
            &&& result.submission_score == Some(zero)
            &&& result.subtask_scores is Some
            &&& ctx.test_cases@.len() > 0 ==> result.subtask_scores->0@.len()
                == ctx.subtask_defs@.len()
            &&& ctx.test_cases@.len() == 0 ==> result.subtask_scores->0@.len() == 0
            &&& forall|i: int|
                0 <= i < result.subtask_scores->0@.len() ==> #[trigger] result.subtask_scores->0@[i]
                    == zero
        },
{
}

/// What is concluded of a task: every subtask has its score, the submission has their
/// total, and it is stored where something was judged, else nothing is.
pub proof fn a_task_scores_the_total_of_its_subtasks<
    S: Copy,
    F: Fn(SubtaskPoints<S>) -> S,
    T: Fn(Vec<S>) -> S,
>(
    req: &OnSubmissionInput<S>,
    ctx: &JudgeContext<S>,
    outcomes: &Vec<EvalOutcome<S>>,
    units: Units<S>,
    points: &F,
    total: &T,
    severity: &Vec<u32>,
    r: (SubmissionUpdate<S>, JudgeResult<S>),
)
    requires
        call_ensures(
            judge::conclude_judgement::<S, F, T>,
            (req, ctx, outcomes, units, points, total, severity),
            r,
        ),
        forall|a: Vec<S>, b: Vec<S>, x: S, y: S|
            a@ == b@ && #[trigger] call_ensures(*total, (a,), x) && #[trigger] call_ensures(
                *total,
                (b,),
                y,
            ) ==> x == y,
    ensures
        r.1.output.success && r.1.output.error_message is None,
        r.0.submission_id == ctx.submission_id,
        r.0.judgement_id == req.judgement_id,
        r.0.judge_epoch == req.judge_epoch,
        r.1.subtask_scores is Some && r.1.submission_score is Some,
        r.1.subtask_scores->0@.len() == ctx.subtask_defs@.len(),
        forall|v: Vec<S>, x: S|
            v@ == r.1.subtask_scores->0@ && #[trigger] call_ensures(*total, (v,), x) ==> x
                == r.1.submission_score->0,
        (exists|i: int|
            0 <= i < outcomes@.len() && !(#[trigger] outcomes@[i]).verdict.not_judged())
            ==> r.0.score == r.1.submission_score,
        (forall|i: int|
            0 <= i < outcomes@.len() ==> (#[trigger] outcomes@[i]).verdict.not_judged())
            ==> r.0.score == Some(units.zero),
{
}

/// The better of what was given a token and of what came last counts; without either
/// there is nothing.
pub proof fn the_better_of_tokened_and_last_counts(tokened: Option<i64>, last: Option<i64>, r: i64)
    requires
        call_ensures(score::official_tokened_or_last, (tokened, last), r),
    ensures
        tokened is Some ==> r >= tokened->0,
        last is Some ==> r >= last->0,
        Some(r) == tokened || Some(r) == last || r == 0,
        tokened is None && last is None ==> r == 0,
        tokened is Some && last is Some ==> Some(r) == tokened || Some(r) == last,
{
}

/// The best score counts as it is, and none is nothing.
pub proof fn the_best_score_counts_as_it_is(max_score: Option<i64>, r: i64)
    requires
        call_ensures(score::official_best, (max_score,), r),
    ensures
        max_score is Some ==> max_score == Some(r),
        max_score is None ==> r == 0,
{
}

/// Of every stored result, in order: whose it is, for which case, and how much of the
/// case it earned.
pub proof fn every_stored_result_is_rated<S: Copy, G: Fn(S, S) -> Raw<S>>(
    user_id: i32,
    problem_id: i32,
    rows: &Vec<TcResultRow<S>>,
    test_cases: &Vec<TestCaseRow<S>>,
    maxes: &Vec<TcMaxScore<S>>,
    units: Units<S>,
    ratio: &G,
    r: Vec<RatedRow<S>>,
    i: int,
)
    requires
        call_ensures(
            score::rate_task_rows::<S, G>,
            (user_id, problem_id, rows, test_cases, maxes, units, ratio),
            r,
        ),
        0 <= i < rows@.len(),
    ensures
        r@.len() == rows@.len(),
        r@[i].user_id == user_id && r@[i].problem_id == problem_id,
        r@[i].submission_id == rows@[i].submission_id,
        r@[i].label@ == score::row_label(test_cases@, rows@[i].test_case_id),
        rows@[i].verdict == Verdict::Accepted ==> r@[i].raw.value == units.one && r@[i].raw.class
            is Full,
        rows@[i].verdict != Verdict::Accepted && !score::max_at(
            maxes@,
            rows@[i].test_case_id,
            units,
        ).positive ==> r@[i].raw.value == units.zero && r@[i].raw.class is Zero,
        rows@[i].verdict != Verdict::Accepted && score::max_at(
            maxes@,
            rows@[i].test_case_id,
            units,
        ).positive ==> call_ensures(
            *ratio,
            (rows@[i].score, score::max_at(maxes@, rows@[i].test_case_id, units).value),
            r@[i].raw,
        ),
{
    assert(r@[i].key() == (user_id, problem_id, rows@[i].submission_id));
}

/// A table has a row for each submission with a score for each subtask, found from the
/// results of that submission alone.
pub proof fn a_table_has_a_row_for_each_submission<S: Copy, F: Fn(SubtaskPoints<S>) -> i64>(
    subtask_defs: &Vec<SubtaskDef<S>>,
    test_cases: &Vec<TestCaseRow<S>>,
    submissions: &Vec<SubmissionScores<S>>,
    units: Units<S>,
    points: &F,
    r: Vec<Vec<i64>>,
    i: int,
    k: int,
)
    requires
        call_ensures(
            score::subtask_table::<S, F>,
            (subtask_defs, test_cases, submissions, units, points),
            r,
        ),
        0 <= i < submissions@.len(),
        0 <= k < subtask_defs@.len(),
    ensures
        r@.len() == submissions@.len(),
        r@[i]@.len() == subtask_defs@.len(),
        subtasks::scored_as(
            r@[i]@[k],
            subtask_defs@[k],
            subtasks::weights_of(test_cases@),
            subtasks::by_all_keys(test_cases@, submissions@[i].scores@),
            units,
            *points,
        ),
{
}

/// Where subtasks are set they are scored, and else one that takes all.
pub proof fn configured_subtasks_are_kept<S: Copy, F: Fn(Vec<S>) -> S>(
    configured: Vec<SubtaskDef<S>>,
    test_cases: &Vec<TestCaseRow<S>>,
    total: &F,
    r: Vec<SubtaskDef<S>>,
)
    requires
        call_ensures(subtasks::effective_subtasks::<S, F>, (configured, test_cases, total), r),
    ensures
        configured@.len() > 0 ==> r@ == configured@,
        configured@.len() == 0 ==> subtasks::default_subtasks_are(r@, test_cases@, *total),
{
}

/// The sum of the best of each subtask, over all submissions.
pub proof fn the_best_of_each_subtask_are_summed<S: Copy, F: Fn(SubtaskPoints<S>) -> i64>(
    defs: &Vec<SubtaskDef<S>>,
    cases: &Vec<TestCaseRow<S>>,
    submissions: &Vec<SubmissionScores<S>>,
    units: Units<S>,
    points: &F,
    r: i128,
)
    requires
        call_ensures(
            score::sum_best_subtask_score::<S, F>,
            (defs, cases, submissions, units, points),
            r,
        ),
    ensures
        exists|table: Seq<Vec<i64>>| #[trigger]
            scoring::best_sum(table) == r && table.len() == submissions@.len() && forall|
                i: int,
                k: int,
            |
                0 <= i < table.len() && 0 <= k < defs@.len() ==> table[i]@.len() == defs@.len()
                    && subtasks::scored_as(
                    #[trigger] table[i]@[k],
                    defs@[k],
                    subtasks::weights_of(cases@),
                    subtasks::by_all_keys(cases@, submissions@[i].scores@),
                    units,
                    *points,
                ),
{
    let table = choose|table: Seq<Vec<i64>>| #[trigger]
        score::table_is(table, defs@, cases@, submissions@, units, *points) && r
            == scoring::best_sum(table);
    assert(scoring::best_sum(table) == r);
}

/// A submission has a token where it is named among those that have.
pub proof fn a_submission_has_the_token_it_was_given(state: &TokenState, id: i32, r: bool)
    requires
        call_ensures(tokens::is_tokened, (state, id), r),
    ensures
        r <==> exists|i: int|
            0 <= i < state.tokened_submission_ids@.len() && #[trigger] state.tokened_submission_ids@[i]
                == id,
{
}

/// Where one token more was used, one less can be used; a budget that is not limited stays
/// as it is.
pub proof fn using_a_token_leaves_one_less(
    config: &TokenConfig,
    state: &TokenState,
    next: &TokenState,
    elapsed_minutes: u64,
    before: u32,
    after: u32,
)
    requires
        call_ensures(tokens::available_tokens, (config, state, elapsed_minutes), before),
        call_ensures(tokens::available_tokens, (config, next, elapsed_minutes), after),
        next.used == state.used + 1,
    ensures
        config.mode is Off ==> before == u32::MAX && after == u32::MAX,
        !(config.mode is Off) && before > 0 ==> after == before - 1,
        !(config.mode is Off) && before == 0 ==> after == 0,
{
    a_spent_token_is_gone(*config, state.used as nat, elapsed_minutes as nat);
}

} // verus!
