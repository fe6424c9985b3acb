//! Selection of the experiment that splits a population most evenly.

use vstd::prelude::*;
use crate::model::{
    accepts, accepts_each, decides_each, is_optimal, is_predictor, is_selection, predicts, split_distance, true_count,
};
use crate::scoring::{guess_count, lemma_scores_ignore_order};

verus! {

/// A prediction function counts the same whether it is held by value or
/// behind a shared reference.
pub proof fn lemma_true_count_by_reference<H, F: Fn(&H, usize) -> bool>(
    f: &F,
    hypos: Seq<H>,
    i: usize,
)
    ensures
        true_count(f, hypos, i) == true_count(*f, hypos, i),
{
    let by_reference = |h: H| predicts(f, h, i);
    let by_value = |h: H| predicts(*f, h, i);
    assert(by_reference =~= by_value);
}

/// The selection is a function of its inputs: two choices that both meet
/// the selector's contract on the same inputs are the same choice.
pub proof fn lemma_selection_unique<H, F: Fn(&H, usize) -> bool>(
    f: F,
    n: usize,
    hypos: Seq<H>,
    first: Option<usize>,
    second: Option<usize>,
)
    requires
        is_selection(f, n, hypos, first),
        is_selection(f, n, hypos, second),
    ensures
        first == second,
{
    if first is Some && second is Some {
        let a = first->0;
        let b = second->0;
        if a < b {
            assert(split_distance(f, hypos, b) < split_distance(f, hypos, a));
            assert(split_distance(f, hypos, a) <= split_distance(f, hypos, b));
        } else if b < a {
            assert(split_distance(f, hypos, a) < split_distance(f, hypos, b));
            assert(split_distance(f, hypos, b) <= split_distance(f, hypos, a));
        }
    }
}

/// The selection depends on which hypotheses the population holds and how
/// often, not on their order.
pub proof fn lemma_selection_ignores_order<H, F: Fn(&H, usize) -> bool>(
    f: F,
    n: usize,
    hypos: Seq<H>,
    other: Seq<H>,
    choice: Option<usize>,
)
    requires
        hypos.to_multiset() == other.to_multiset(),
        is_selection(f, n, hypos, choice),
    ensures
        is_selection(f, n, other, choice),
{
    assert forall|j: usize| split_distance(f, hypos, j) == #[trigger] split_distance(f, other, j) by {
        lemma_scores_ignore_order(f, hypos, other, j, j);
    }
}

/// Returns the experiment, among the first `n`, whose count of `true`
/// predictions is nearest to half the population; of several such, the one
/// with the lowest index. Returns `None` when `n` is zero.
pub fn optimal_guess<H, F>(n: usize, hypos: &[H], f: F) -> (choice: Option<usize>)
    where F: Fn(&H, usize) -> bool
    requires
        is_predictor(f),
        accepts_each(f, n, hypos@),
    ensures
        is_selection(f, n, hypos@, choice),
        choice is None <==> n == 0,
        decides_each(f, n, hypos@),
{
    let mut min: Option<(usize, usize)> = None;
    let half: usize = hypos.len() / 2;
    let mut i: usize = 0;
    while i < n
        invariant
            is_predictor(f),
            accepts_each(f, n, hypos@),
            i <= n,
            decides_each(f, i, hypos@),
            half == hypos@.len() / 2,
            min is None <==> i == 0,
            match min {
                None => true,
                Some((dist, g)) => {
                    &&& dist == split_distance(f, hypos@, g)
                    &&& is_optimal(f, i, hypos@, g)
                },
            },
        decreases n - i,
    {
        assert(accepts(f, hypos@, i));
        let count = guess_count(i, hypos, &f);
        let dist: usize = if count > half {
            count - half
        } else {
            half - count
        };
        proof {
            lemma_true_count_by_reference(&f, hypos@, i);
        }
        let closer = match min {
            None => true,
            Some((least, _)) => least > dist,
        };
        if closer {
            min = Some((dist, i));
        }
        i += 1;
    }
    match min {
        None => None,
        Some((_, g)) => Some(g),
    }
}

} // verus!
