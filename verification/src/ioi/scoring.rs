//! The score of a task. Scores are in hundredths of a point.

use vstd::prelude::*;

verus! {

pub open spec fn max_of(a: int, b: int) -> int {
    if a >= b {
        a
    } else {
        b
    }
}

/// The better of this submission and the best one before.
pub fn score_max_submission(current: i64, historical_best: i64) -> (r: i64)
    ensures
        r == max_of(current as int, historical_best as int),
{
    if current >= historical_best {
        current
    } else {
        historical_best
    }
}

/// The better of the best submission with a token and the last one.
pub fn score_best_tokened_or_last(tokened_best: i64, last_score: i64) -> (r: i64)
    ensures
        r == max_of(tokened_best as int, last_score as int),
{
    if tokened_best >= last_score {
        tokened_best
    } else {
        last_score
    }
}

/// The best score of a subtask over all submissions; zero at least.
pub open spec fn best_at(scores: Seq<Vec<i64>>, subtask: int) -> int
    decreases scores.len(),
{
    if scores.len() == 0 {
        0
    } else {
        let rest = best_at(scores.drop_last(), subtask);
        let last = scores.last()@;
        if 0 <= subtask < last.len() {
            max_of(rest, last[subtask] as int)
        } else {
            rest
        }
    }
}

/// The most subtasks that a submission has.
pub open spec fn widest(scores: Seq<Vec<i64>>) -> nat
    decreases scores.len(),
{
    if scores.len() == 0 {
        0
    } else {
        let rest = widest(scores.drop_last());
        if scores.last()@.len() > rest {
            scores.last()@.len()
        } else {
            rest
        }
    }
}

/// The best scores of the first `n` subtasks together.
pub open spec fn sum_of_best(scores: Seq<Vec<i64>>, n: nat) -> int
    decreases n,
{
    if n == 0 {
        0
    } else {
        sum_of_best(scores, (n - 1) as nat) + best_at(scores, n - 1)
    }
}

proof fn lemma_best_bounds(scores: Seq<Vec<i64>>, subtask: int)
    ensures
        0 <= best_at(scores, subtask) <= i64::MAX,
    decreases scores.len(),
{
    if scores.len() > 0 {
        lemma_best_bounds(scores.drop_last(), subtask);
    }
}

/// The best score of a subtask is at least that of every submission.
pub proof fn the_best_is_an_upper_bound(scores: Seq<Vec<i64>>, i: int, subtask: int)
    requires
        0 <= i < scores.len(),
        0 <= subtask < scores[i]@.len(),
    ensures
        scores[i]@[subtask] <= best_at(scores, subtask),
    decreases scores.len(),
{
    if i < scores.len() - 1 {
        the_best_is_an_upper_bound(scores.drop_last(), i, subtask);
    }
}

/// Another submission never lowers the sum of the best over a number of subtasks.
pub proof fn more_submissions_never_cost(scores: Seq<Vec<i64>>, more: Vec<i64>, n: nat)
    ensures
        sum_of_best(scores.push(more), n) >= sum_of_best(scores, n),
    decreases n,
{
    if n > 0 {
        more_submissions_never_cost(scores, more, (n - 1) as nat);
        assert(scores.push(more).drop_last() =~= scores);
    }
}

/// The score of a task: the best of each subtask that any submission has,
/// together.
pub open spec fn best_sum(scores: Seq<Vec<i64>>) -> int {
    sum_of_best(scores, widest(scores))
}

/// Another submission never lowers the score, also where it has more subtasks
/// than those before.
pub proof fn a_further_submission_never_costs(scores: Seq<Vec<i64>>, more: Vec<i64>)
    ensures
        best_sum(scores.push(more)) >= best_sum(scores),
{
    let all = scores.push(more);
    assert(all.drop_last() =~= scores);
    more_submissions_never_cost(scores, more, widest(scores));
    lemma_wider_is_no_less(all, widest(scores), widest(all));
}

proof fn lemma_wider_is_no_less(scores: Seq<Vec<i64>>, n: nat, m: nat)
    requires
        n <= m,
    ensures
        sum_of_best(scores, n) <= sum_of_best(scores, m),
    decreases m,
{
    if n < m {
        lemma_wider_is_no_less(scores, n, (m - 1) as nat);
        lemma_best_bounds(scores, m - 1);
    }
}

/// The order of the submissions does not matter, neither to the sum over a
/// number of subtasks nor to the score.
pub proof fn the_order_does_not_matter(a: Seq<Vec<i64>>, b: Seq<Vec<i64>>, n: nat)
    requires
        a.to_multiset() == b.to_multiset(),
    ensures
        sum_of_best(a, n) == sum_of_best(b, n),
        widest(a) == widest(b),
        best_sum(a) == best_sum(b),
{
    lemma_same_members(a, b);
    lemma_same_members(b, a);
    lemma_widest_of_members(a, b);
    lemma_widest_of_members(b, a);
    lemma_sum_of_members(a, b, n);
    lemma_sum_of_members(b, a, n);
    lemma_sum_of_members(a, b, widest(a));
    lemma_sum_of_members(b, a, widest(a));
}

/// Every submission of `a` is one of `b`.
spec fn all_among(a: Seq<Vec<i64>>, b: Seq<Vec<i64>>) -> bool {
    forall|i: int| 0 <= i < a.len() ==> b.contains(#[trigger] a[i])
}

proof fn lemma_same_members(a: Seq<Vec<i64>>, b: Seq<Vec<i64>>)
    requires
        a.to_multiset() == b.to_multiset(),
    ensures
        all_among(a, b),
{
    broadcast use vstd::seq_lib::group_to_multiset_ensures;

    assert forall|i: int| 0 <= i < a.len() implies b.contains(#[trigger] a[i]) by {
        assert(a.contains(a[i]));
        assert(a.to_multiset().contains(a[i]));
        assert(b.to_multiset().contains(a[i]));
    }
}

proof fn lemma_widest_of_members(a: Seq<Vec<i64>>, b: Seq<Vec<i64>>)
    requires
        all_among(a, b),
    ensures
        widest(a) <= widest(b),
    decreases a.len(),
{
    if a.len() > 0 {
        let rest = a.drop_last();
        assert forall|i: int| 0 <= i < rest.len() implies b.contains(#[trigger] rest[i]) by {
            assert(b.contains(a[i]));
        }
        lemma_widest_of_members(rest, b);
        assert(b.contains(a[a.len() - 1]));
        let k = choose|k: int| 0 <= k < b.len() && b[k] == a.last();
        lemma_widest_bounds(b, k);
    }
}

proof fn lemma_widest_bounds(scores: Seq<Vec<i64>>, i: int)
    requires
        0 <= i < scores.len(),
    ensures
        scores[i]@.len() <= widest(scores),
    decreases scores.len(),
{
    if i < scores.len() - 1 {
        lemma_widest_bounds(scores.drop_last(), i);
    }
}

proof fn lemma_best_of_members(a: Seq<Vec<i64>>, b: Seq<Vec<i64>>, subtask: int)
    requires
        all_among(a, b),
    ensures
        best_at(a, subtask) <= best_at(b, subtask),
    decreases a.len(),
{
    lemma_best_bounds(b, subtask);
    if a.len() > 0 {
        let rest = a.drop_last();
        assert forall|i: int| 0 <= i < rest.len() implies b.contains(#[trigger] rest[i]) by {
            assert(b.contains(a[i]));
        }
        lemma_best_of_members(rest, b, subtask);
        assert(b.contains(a[a.len() - 1]));
        let k = choose|k: int| 0 <= k < b.len() && b[k] == a.last();
        if 0 <= subtask < a.last()@.len() {
            the_best_is_an_upper_bound(b, k, subtask);
        }
    }
}

proof fn lemma_sum_of_members(a: Seq<Vec<i64>>, b: Seq<Vec<i64>>, n: nat)
    requires
        all_among(a, b),
    ensures
        sum_of_best(a, n) <= sum_of_best(b, n),
    decreases n,
{
    if n > 0 {
        lemma_sum_of_members(a, b, (n - 1) as nat);
        lemma_best_of_members(a, b, n - 1);
    }
}

/// For each subtask the best score over all submissions; these together. Each
/// inner list is one submission's scores, by subtask.
pub fn score_sum_best_subtask(all_submissions_subtask_scores: &Vec<Vec<i64>>) -> (r: i128)
    ensures
        r == best_sum(all_submissions_subtask_scores@),
{
    let all = all_submissions_subtask_scores;
    let mut width: usize = 0;
    let mut i: usize = 0;
    assert(all@.take(0) =~= Seq::<Vec<i64>>::empty());
    while i < all.len()
        invariant
            i <= all@.len(),
            width == widest(all@.take(i as int)),
        decreases all@.len() - i,
    {
        assert(all@.take(i as int + 1).drop_last() =~= all@.take(i as int));
        assert(all@.take(i as int + 1).last() == all@[i as int]);
        if all[i].len() > width {
            width = all[i].len();
        }
        i += 1;
    }
    assert(all@.take(i as int) =~= all@);
    let mut sum: i128 = 0;
    let mut k: usize = 0;
    while k < width
        invariant
            k <= width,
            sum == sum_of_best(all@, k as nat),
            0 <= sum <= k * i64::MAX,
        decreases width - k,
    {
        let best: i64 = best_score_at(all, k);
        proof {
            lemma_best_bounds(all@, k as int);
            assert(k * i64::MAX + i64::MAX == (k + 1) * i64::MAX) by (nonlinear_arith);
            assert((k + 1) * i64::MAX <= 0x1_0000_0000_0000_0000 * 0x7fff_ffff_ffff_ffff)
                by (nonlinear_arith)
                requires
                    k + 1 <= 0x1_0000_0000_0000_0000,
            ;
        }
        sum = sum + best as i128;
        k += 1;
    }
    sum
}

/// The best score of a subtask over all submissions.
pub fn best_score_at(all: &Vec<Vec<i64>>, subtask: usize) -> (r: i64)
    ensures
        r == best_at(all@, subtask as int),
{
    let mut best: i64 = 0;
    let mut i: usize = 0;
    assert(all@.take(0) =~= Seq::<Vec<i64>>::empty());
    while i < all.len()
        invariant
            i <= all@.len(),
            best == best_at(all@.take(i as int), subtask as int),
        decreases all@.len() - i,
    {
        assert(all@.take(i as int + 1).drop_last() =~= all@.take(i as int));
        assert(all@.take(i as int + 1).last() == all@[i as int]);
        if subtask < all[i].len() {
            if all[i][subtask] > best {
                best = all[i][subtask];
            }
        }
        i += 1;
    }
    assert(all@.take(i as int) =~= all@);
    best
}

} // verus!
