//! Scoring of a single experiment against a population.

use vstd::prelude::*;
use vstd::seq_lib::{to_multiset_build, to_multiset_len};
use crate::model::{
    accepts, agree_count, decides, fitness, half, is_predictor, predicts, split_distance, true_count,
};

verus! {

/// The count of agreeing hypotheses does not depend on the order in which
/// the two experiments are named.
pub proof fn lemma_agree_count_symmetric<H, F: Fn(&H, usize) -> bool>(
    f: F,
    hypos: Seq<H>,
    i: usize,
    j: usize,
)
    ensures
        agree_count(f, hypos, i, j) == agree_count(f, hypos, j, i),
{
    let forth = |h: H| predicts(f, h, i) == predicts(f, h, j);
    let back = |h: H| predicts(f, h, j) == predicts(f, h, i);
    assert(forth =~= back);
}

/// An experiment agrees with itself on every hypothesis.
pub proof fn lemma_agree_count_reflexive<H, F: Fn(&H, usize) -> bool>(f: F, hypos: Seq<H>, i: usize)
    ensures
        agree_count(f, hypos, i, i) == hypos.len(),
    decreases hypos.len(),
{
    reveal(Seq::filter);
    if hypos.len() > 0 {
        lemma_agree_count_reflexive(f, hypos.drop_last(), i);
    }
}

/// Two predicates that agree on every element of a sequence keep the same
/// elements of it.
pub proof fn lemma_filter_of_known<H>(hypos: Seq<H>, pred: spec_fn(H) -> bool, known: spec_fn(H) -> bool)
    requires
        forall|k: int| 0 <= k < hypos.len() ==> pred(#[trigger] hypos[k]) == known(hypos[k]),
    ensures
        hypos.filter(pred) == hypos.filter(known),
    decreases hypos.len(),
{
    reveal(Seq::filter);
    if hypos.len() > 0 {
        lemma_filter_of_known(hypos.drop_last(), pred, known);
    }
}

/// Where `known` says of each hypothesis what `f` predicts for it under
/// experiment `i`, the count of `true` predictions is the number of
/// hypotheses that `known` holds of.
pub proof fn lemma_true_count_of_known<H, F: Fn(&H, usize) -> bool>(
    f: F,
    hypos: Seq<H>,
    i: usize,
    known: spec_fn(H) -> bool,
)
    requires
        forall|k: int| 0 <= k < hypos.len() ==> predicts(f, #[trigger] hypos[k], i) == known(hypos[k]),
    ensures
        true_count(f, hypos, i) == hypos.filter(known).len(),
{
    lemma_filter_of_known(hypos, |h: H| predicts(f, h, i), known);
}

/// Keeping the elements of a sequence that a predicate holds of, and then
/// forgetting their order, is the same as forgetting the order first.
pub proof fn lemma_filter_forgets_order<H>(hypos: Seq<H>, pred: spec_fn(H) -> bool)
    ensures
        hypos.filter(pred).to_multiset() == hypos.to_multiset().filter(pred),
    decreases hypos.len(),
{
    broadcast use vstd::multiset::group_multiset_axioms;

    reveal(Seq::filter);
    if hypos.len() == 0 {
        hypos.to_multiset_ensures();
        assert(hypos.filter(pred).to_multiset() =~= hypos.to_multiset().filter(pred));
    } else {
        let rest = hypos.drop_last();
        let last = hypos.last();
        lemma_filter_forgets_order(rest, pred);
        assert(hypos =~= rest.push(last));
        to_multiset_build(rest, last);
        to_multiset_build(rest.filter(pred), last);
        assert(hypos.filter(pred).to_multiset() =~= hypos.to_multiset().filter(pred));
    }
}

/// The scores of an experiment depend on which hypotheses the population
/// holds and how often, not on their order.
pub proof fn lemma_scores_ignore_order<H, F: Fn(&H, usize) -> bool>(
    f: F,
    hypos: Seq<H>,
    other: Seq<H>,
    i: usize,
    j: usize,
)
    requires
        hypos.to_multiset() == other.to_multiset(),
    ensures
        hypos.len() == other.len(),
        true_count(f, hypos, i) == true_count(f, other, i),
        agree_count(f, hypos, i, j) == agree_count(f, other, i, j),
        split_distance(f, hypos, i) == split_distance(f, other, i),
        fitness(f, hypos, i) == fitness(f, other, i),
{
    let holds = |h: H| predicts(f, h, i);
    let agrees = |h: H| predicts(f, h, i) == predicts(f, h, j);
    lemma_filter_forgets_order(hypos, holds);
    lemma_filter_forgets_order(other, holds);
    lemma_filter_forgets_order(hypos, agrees);
    lemma_filter_forgets_order(other, agrees);
    to_multiset_len(hypos);
    to_multiset_len(other);
    to_multiset_len(hypos.filter(holds));
    to_multiset_len(other.filter(holds));
    to_multiset_len(hypos.filter(agrees));
    to_multiset_len(other.filter(agrees));
}

/// Fitness and split distance rank the experiments alike: one experiment
/// is at least as fit as another exactly when it is at least as near to an
/// even split.
pub proof fn lemma_fitness_ranks_as_distance<H, F: Fn(&H, usize) -> bool>(
    f: F,
    hypos: Seq<H>,
    i: usize,
    j: usize,
)
    ensures
        fitness(f, hypos, i) >= fitness(f, hypos, j) <==> split_distance(f, hypos, i)
            <= split_distance(f, hypos, j),
        fitness(f, hypos, i) == fitness(f, hypos, j) <==> split_distance(f, hypos, i)
            == split_distance(f, hypos, j),
{
    let a: int = split_distance(f, hypos, i) as int;
    let b: int = split_distance(f, hypos, j) as int;
    assert(a <= b ==> a * a <= b * b) by (nonlinear_arith)
        requires
            0 <= a,
            0 <= b,
    ;
    assert(a > b ==> a * a > b * b) by (nonlinear_arith)
        requires
            0 <= a,
            0 <= b,
    ;
    assert(a < b ==> a * a < b * b) by (nonlinear_arith)
        requires
            0 <= a,
            0 <= b,
    ;
}

/// Counts the hypotheses for which `f` predicts `true` under experiment `i`.
pub fn guess_count<H, F>(i: usize, hypos: &[H], f: F) -> (count: usize)
    where F: Fn(&H, usize) -> bool
    requires
        is_predictor(f),
        accepts(f, hypos@, i),
    ensures
        count == true_count(f, hypos@, i),
        count <= hypos@.len(),
        decides(f, hypos@, i),
{
    let mut count: usize = 0;
    let mut k: usize = 0;
    proof {
        reveal(Seq::filter);
    }
    while k < hypos.len()
        invariant
            is_predictor(f),
            accepts(f, hypos@, i),
            k <= hypos@.len(),
            count <= k,
            count == true_count(f, hypos@.take(k as int), i),
            decides(f, hypos@.take(k as int), i),
        decreases hypos@.len() - k,
    {
        let r = f(&hypos[k], i);
        proof {
            assert(hypos@.take(k + 1) =~= hypos@.take(k as int).push(hypos@[k as int]));
            hypos@.take(k as int).lemma_filter_push(hypos@[k as int], |h: H| predicts(f, h, i));
            assert(r == predicts(f, hypos@[k as int], i));
        }
        if r {
            count += 1;
        }
        k += 1;
    }
    proof {
        assert(hypos@.take(k as int) =~= hypos@);
    }
    count
}

/// Counts the hypotheses for which `f` predicts the same under experiments
/// `i` and `j`.
pub fn guess_count_correlation<H, F>(i: usize, j: usize, hypos: &[H], f: F) -> (count: usize)
    where F: Fn(&H, usize) -> bool
    requires
        is_predictor(f),
        accepts(f, hypos@, i),
        accepts(f, hypos@, j),
    ensures
        count == agree_count(f, hypos@, i, j),
        count <= hypos@.len(),
        decides(f, hypos@, i),
        decides(f, hypos@, j),
{
    let mut count: usize = 0;
    let mut k: usize = 0;
    proof {
        reveal(Seq::filter);
    }
    while k < hypos.len()
        invariant
            is_predictor(f),
            accepts(f, hypos@, i),
            accepts(f, hypos@, j),
            k <= hypos@.len(),
            count <= k,
            count == agree_count(f, hypos@.take(k as int), i, j),
            decides(f, hypos@.take(k as int), i),
            decides(f, hypos@.take(k as int), j),
        decreases hypos@.len() - k,
    {
        let a = f(&hypos[k], i);
        let b = f(&hypos[k], j);
        proof {
            assert(hypos@.take(k + 1) =~= hypos@.take(k as int).push(hypos@[k as int]));
            hypos@.take(k as int).lemma_filter_push(
                hypos@[k as int],
                |h: H| predicts(f, h, i) == predicts(f, h, j),
            );
            assert(a == predicts(f, hypos@[k as int], i));
            assert(b == predicts(f, hypos@[k as int], j));
        }
        if a == b {
            count += 1;
        }
        k += 1;
    }
    proof {
        assert(hypos@.take(k as int) =~= hypos@);
    }
    count
}

/// The fitness of experiment `i`: zero when it splits the population in
/// two halves, and the more negative the farther it is from that.
pub fn guess_fitness<H, F>(i: usize, hypos: &[H], f: F) -> (score: i128)
    where F: Fn(&H, usize) -> bool
    requires
        is_predictor(f),
        accepts(f, hypos@, i),
    ensures
        score == fitness(f, hypos@, i),
        decides(f, hypos@, i),
        score <= 0,
        score == 0 <==> true_count(f, hypos@, i) == half(hypos@),
{
    let half: usize = hypos.len() / 2;
    let count = guess_count(i, hypos, f);
    let dist: i128 = if count > half {
        (count - half) as i128
    } else {
        (half - count) as i128
    };
    proof {
        assert(dist == split_distance(f, hypos@, i));
        assert(0 <= dist <= 0x8000_0000_0000_0000);
        assert(0 <= dist * dist <= 0x8000_0000_0000_0000 * 0x8000_0000_0000_0000)
            by (nonlinear_arith)
            requires
                0 <= dist <= 0x8000_0000_0000_0000,
        ;
        assert(dist * dist == 0 <==> dist == 0) by (nonlinear_arith);
    }
    -(dist * dist)
}

} // verus!
