//! The mathematical model shared by every contract of the library: what a
//! prediction function says of a hypothesis, how many hypotheses of a
//! population say it, and how far an experiment is from splitting the
//! population in two halves.

use vstd::multiset::Multiset;
use vstd::prelude::*;

verus! {

/// `answer` is a possible result of `f` for hypothesis `h` under
/// experiment `i`.
pub open spec fn answers<H, F: Fn(&H, usize) -> bool>(f: F, h: H, i: usize, answer: bool) -> bool {
    call_ensures(f, (&h, i), answer)
}

/// No call of the prediction function `f` has two possible results.
pub open spec fn is_predictor<H, F: Fn(&H, usize) -> bool>(f: F) -> bool {
    forall|h: &H, i: usize, a: bool, b: bool|
        #[trigger] call_ensures(f, (h, i), a) && #[trigger] call_ensures(f, (h, i), b) ==> a == b
}

/// `f` may be called on each hypothesis of `hypos` with experiment `i`.
pub open spec fn accepts<H, F: Fn(&H, usize) -> bool>(f: F, hypos: Seq<H>, i: usize) -> bool {
    forall|k: int| 0 <= k < hypos.len() ==> call_requires(f, (&#[trigger] hypos[k], i))
}

/// `f` may be called on each hypothesis of `hypos` with each of the first
/// `n` experiments.
pub open spec fn accepts_each<H, F: Fn(&H, usize) -> bool>(f: F, n: usize, hypos: Seq<H>) -> bool {
    forall|i: usize| i < n ==> #[trigger] accepts(f, hypos, i)
}

/// What `f` predicts for hypothesis `h` under experiment `i`.
pub open spec fn predicts<H, F: Fn(&H, usize) -> bool>(f: F, h: H, i: usize) -> bool {
    answers(f, h, i, true)
}

/// `f` has a result for each hypothesis of `hypos` under experiment `i`:
/// where it does not predict `true`, `false` is its result.
///
/// The functions of this library state this of every call of `f` that they
/// have made. A caller who knows the contract of `f` learns from it what
/// `predicts` is on each hypothesis.
pub open spec fn decides<H, F: Fn(&H, usize) -> bool>(f: F, hypos: Seq<H>, i: usize) -> bool {
    forall|k: int|
        0 <= k < hypos.len() ==> answers(f, #[trigger] hypos[k], i, predicts(f, hypos[k], i))
}

/// `f` has a result for each hypothesis of `hypos` under each of the first
/// `n` experiments.
pub open spec fn decides_each<H, F: Fn(&H, usize) -> bool>(f: F, n: usize, hypos: Seq<H>) -> bool {
    forall|i: usize| i < n ==> #[trigger] decides(f, hypos, i)
}

/// The number of hypotheses of `hypos` for which `f` predicts `true` under
/// experiment `i`.
pub open spec fn true_count<H, F: Fn(&H, usize) -> bool>(f: F, hypos: Seq<H>, i: usize) -> nat {
    hypos.filter(|h: H| predicts(f, h, i)).len()
}

/// The number of hypotheses of `hypos` for which `f` predicts the same under
/// experiments `i` and `j`.
pub open spec fn agree_count<H, F: Fn(&H, usize) -> bool>(
    f: F,
    hypos: Seq<H>,
    i: usize,
    j: usize,
) -> nat {
    hypos.filter(|h: H| predicts(f, h, i) == predicts(f, h, j)).len()
}

/// Half the size of the population, rounded down.
pub open spec fn half<H>(hypos: Seq<H>) -> nat {
    hypos.len() / 2
}

/// How far experiment `i` is from an even split of `hypos`: the distance
/// between its count of `true` predictions and half the population.
pub open spec fn split_distance<H, F: Fn(&H, usize) -> bool>(f: F, hypos: Seq<H>, i: usize) -> nat {
    let count = true_count(f, hypos, i);
    if count > half(hypos) {
        (count - half(hypos)) as nat
    } else {
        (half(hypos) - count) as nat
    }
}

/// The fitness of experiment `i`: the negated square of its split distance.
pub open spec fn fitness<H, F: Fn(&H, usize) -> bool>(f: F, hypos: Seq<H>, i: usize) -> int {
    -(split_distance(f, hypos, i) * split_distance(f, hypos, i))
}

/// Experiment `g` is the one to run among the first `n`: none of them is
/// nearer to an even split, and those before `g` are all farther from it.
pub open spec fn is_optimal<H, F: Fn(&H, usize) -> bool>(
    f: F,
    n: usize,
    hypos: Seq<H>,
    g: usize,
) -> bool {
    &&& g < n
    &&& forall|j: usize| j < n ==> split_distance(f, hypos, g) <= #[trigger] split_distance(f, hypos, j)
    &&& forall|j: usize| j < g ==> split_distance(f, hypos, g) < #[trigger] split_distance(f, hypos, j)
}

/// `choice` is what the selector owes for `n` experiments on `hypos`:
/// nothing when there is no experiment, else the optimal one.
pub open spec fn is_selection<H, F: Fn(&H, usize) -> bool>(
    f: F,
    n: usize,
    hypos: Seq<H>,
    choice: Option<usize>,
) -> bool {
    match choice {
        None => n == 0,
        Some(g) => is_optimal(f, n, hypos, g),
    }
}

/// Hypothesis `h` is consistent with the observation `answer` of
/// experiment `i`.
pub open spec fn consistent<H, F: Fn(&H, usize) -> bool>(f: F, h: H, i: usize, answer: bool) -> bool {
    predicts(f, h, i) == answer
}

/// The number of hypotheses of `hypos` that are consistent with the
/// observation `answer` of experiment `i`.
pub open spec fn survivor_count<H, F: Fn(&H, usize) -> bool>(
    f: F,
    hypos: Seq<H>,
    i: usize,
    answer: bool,
) -> nat {
    if answer {
        true_count(f, hypos, i)
    } else {
        (hypos.len() - true_count(f, hypos, i)) as nat
    }
}

/// The hypotheses of `hypos` that are consistent with the observation
/// `answer` of experiment `i`, each as often as `hypos` holds it.
pub open spec fn survivors<H, F: Fn(&H, usize) -> bool>(
    f: F,
    hypos: Seq<H>,
    i: usize,
    answer: bool,
) -> Multiset<H> {
    hypos.to_multiset().filter(|h: H| consistent(f, h, i, answer))
}

/// `after` holds exactly the survivors of `before` under the observation
/// `answer` of experiment `i`, in any order.
pub open spec fn is_elimination<H, F: Fn(&H, usize) -> bool>(
    f: F,
    before: Seq<H>,
    i: usize,
    answer: bool,
    after: Seq<H>,
) -> bool {
    after.to_multiset() == survivors(f, before, i, answer)
}

/// The oracle may be asked about each of the first `n` experiments.
pub open spec fn is_oracle<O: FnMut(usize) -> bool>(oracle: O, n: usize) -> bool {
    forall|i: usize| i < n ==> #[trigger] call_requires(oracle, (i,))
}

/// One round of a run on the population `before`: the prediction function
/// has a result for every hypothesis and experiment, `guess` is the optimal
/// experiment, `answer` is what the oracle may observe for it, and `after`
/// is what elimination leaves.
pub open spec fn is_round<H, O: FnMut(usize) -> bool, P: Fn(&H, usize) -> bool>(
    oracle: O,
    p: P,
    n: usize,
    before: Seq<H>,
    guess: usize,
    answer: bool,
    after: Seq<H>,
) -> bool {
    &&& decides_each(p, n, before)
    &&& is_optimal(p, n, before, guess)
    &&& call_ensures(oracle, (guess,), answer)
    &&& is_elimination(p, before, guess, answer, after)
}

/// A complete run: `rounds` holds the experiment and the observation of
/// each round, `pops` the population before the first round and after each
/// one. Every round but the last removes a hypothesis; the last one leaves
/// the population as it was, which ends the run.
pub open spec fn is_run<H, O: FnMut(usize) -> bool, P: Fn(&H, usize) -> bool>(
    oracle: O,
    p: P,
    n: usize,
    pops: Seq<Seq<H>>,
    rounds: Seq<(usize, bool)>,
) -> bool {
    &&& rounds.len() >= 1
    &&& pops.len() == rounds.len() + 1
    &&& forall|k: int|
        0 <= k < rounds.len() ==> is_round(
            oracle,
            p,
            n,
            #[trigger] pops[k],
            rounds[k].0,
            rounds[k].1,
            pops[k + 1],
        )
    &&& forall|k: int| 0 <= k < rounds.len() - 1 ==> pops[k + 1].len() < (#[trigger] pops[k]).len()
    &&& pops[rounds.len() as int] == pops[rounds.len() - 1]
}

/// What a run on `before` may leave: with no experiment to choose from,
/// the population as it was; else the last population of some complete run
/// that starts with `before`.
pub open spec fn is_outcome<H, O: FnMut(usize) -> bool, P: Fn(&H, usize) -> bool>(
    oracle: O,
    p: P,
    n: usize,
    before: Seq<H>,
    after: Seq<H>,
) -> bool {
    if n == 0 {
        after == before
    } else {
        exists|pops: Seq<Seq<H>>, rounds: Seq<(usize, bool)>|
            #![trigger is_run(oracle, p, n, pops, rounds)]
            is_run(oracle, p, n, pops, rounds) && pops[0] == before && pops.last() == after
    }
}

/// All hypotheses of `hypos` predict the same under each of the first `n`
/// experiments.
pub open spec fn all_alike<H, P: Fn(&H, usize) -> bool>(p: P, n: usize, hypos: Seq<H>) -> bool {
    forall|a: int, b: int, i: usize|
        0 <= a < hypos.len() && 0 <= b < hypos.len() && i < n ==> predicts(p, hypos[a], i)
            == predicts(p, hypos[b], i)
}

/// Whatever the oracle may observe for one of the first `n` experiments is
/// what every hypothesis of `hypos` predicts for it.
pub open spec fn oracle_confirms<H, O: FnMut(usize) -> bool, P: Fn(&H, usize) -> bool>(
    oracle: O,
    p: P,
    n: usize,
    hypos: Seq<H>,
) -> bool {
    forall|i: usize, answer: bool, k: int|
        i < n && 0 <= k < hypos.len() && #[trigger] call_ensures(oracle, (i,), answer) ==> consistent(
            p,
            #[trigger] hypos[k],
            i,
            answer,
        )
}

/// Hypothesis `h` is consistent with the observation of every round of
/// `rounds`.
pub open spec fn consistent_with_all<H, P: Fn(&H, usize) -> bool>(
    p: P,
    h: H,
    rounds: Seq<(usize, bool)>,
) -> bool {
    forall|k: int| 0 <= k < rounds.len() ==> consistent(p, h, (#[trigger] rounds[k]).0, rounds[k].1)
}

} // verus!
