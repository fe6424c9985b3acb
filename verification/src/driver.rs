//! The driving loop: select, observe, eliminate, until a round removes
//! nothing.

use vstd::prelude::*;
use crate::eliminator::{lemma_elimination_of_consistent, lemma_elimination_shrinks, update};
use crate::model::{
    accepts, accepts_each, all_alike, consistent, consistent_with_all, is_elimination, is_oracle,
    is_outcome, is_predictor, is_round, is_run, oracle_confirms, predicts,
};
use crate::selector::optimal_guess;

verus! {

/// A prediction function that may be called on each hypothesis of a
/// population may be called on each hypothesis of a part of it.
pub proof fn lemma_accepts_fewer<H, P: Fn(&H, usize) -> bool>(
    p: P,
    n: usize,
    before: Seq<H>,
    after: Seq<H>,
)
    requires
        accepts_each(p, n, before),
        forall|k: int| 0 <= k < after.len() ==> before.contains(#[trigger] after[k]),
    ensures
        accepts_each(p, n, after),
{
    assert forall|i: usize| i < n implies #[trigger] accepts(p, after, i) by {
        assert(accepts(p, before, i));
        assert forall|k: int| 0 <= k < after.len() implies call_requires(
            p,
            (&#[trigger] after[k], i),
        ) by {
            assert(before.contains(after[k]));
            let at = choose|at: int| 0 <= at < before.len() && before[at] == after[k];
            assert(call_requires(p, (&before[at], i)));
        }
    }
}

/// Elimination on a population whose hypotheses all predict alike removes
/// none of them or all of them, and what it leaves is alike again.
pub proof fn lemma_elimination_of_alike<H, P: Fn(&H, usize) -> bool>(
    p: P,
    n: usize,
    before: Seq<H>,
    guess: usize,
    answer: bool,
    after: Seq<H>,
)
    requires
        all_alike(p, n, before),
        guess < n,
        is_elimination(p, before, guess, answer, after),
    ensures
        after.len() == before.len() || after.len() == 0,
        all_alike(p, n, after),
{
    lemma_elimination_shrinks(p, before, guess, answer, after);
    if after.len() > 0 {
        let h = after[0];
        assert(before.contains(h));
        let at = choose|k: int| 0 <= k < before.len() && before[k] == h;
        assert forall|k: int| 0 <= k < before.len() implies consistent(
            p,
            #[trigger] before[k],
            guess,
            answer,
        ) by {
            assert(predicts(p, before[k], guess) == predicts(p, before[at], guess));
        }
        lemma_elimination_of_consistent(p, before, guess, answer, after);
    }
    assert forall|a: int, b: int, i: usize|
        0 <= a < after.len() && 0 <= b < after.len() && i < n implies predicts(p, after[a], i)
        == predicts(p, after[b], i) by {
        assert(before.contains(after[a]));
        assert(before.contains(after[b]));
        let x = choose|k: int| 0 <= k < before.len() && before[k] == after[a];
        let y = choose|k: int| 0 <= k < before.len() && before[k] == after[b];
        assert(predicts(p, before[x], i) == predicts(p, before[y], i));
    }
}

/// After any number of rounds of a run, the population holds exactly the
/// hypotheses of the first population that are consistent with every
/// observation made so far, each as often as the first population held it.
pub proof fn lemma_run_keeps_the_consistent<H, O: FnMut(usize) -> bool, P: Fn(&H, usize) -> bool>(
    oracle: O,
    p: P,
    n: usize,
    pops: Seq<Seq<H>>,
    rounds: Seq<(usize, bool)>,
    m: int,
)
    requires
        is_run(oracle, p, n, pops, rounds),
        0 <= m <= rounds.len(),
    ensures
        pops[m].to_multiset() == pops[0].to_multiset().filter(
            |h: H| consistent_with_all(p, h, rounds.take(m)),
        ),
        forall|k: int|
            0 <= k < pops[m].len() ==> consistent_with_all(p, #[trigger] pops[m][k], rounds.take(m)),
    decreases m,
{
    broadcast use vstd::multiset::group_multiset_axioms;

    let kept = pops[0].to_multiset().filter(|h: H| consistent_with_all(p, h, rounds.take(m)));
    if m == 0 {
        assert(pops[0].to_multiset() =~= kept);
    } else {
        lemma_run_keeps_the_consistent(oracle, p, n, pops, rounds, m - 1);
        assert(is_round(oracle, p, n, pops[m - 1], rounds[m - 1].0, rounds[m - 1].1, pops[m]));
        assert forall|h: H| pops[m].to_multiset().count(h) == kept.count(h) by {
            let earlier = consistent_with_all(p, h, rounds.take(m - 1));
            let now = consistent(p, h, rounds[m - 1].0, rounds[m - 1].1);
            if earlier && now {
                assert forall|k: int| 0 <= k < rounds.take(m).len() implies consistent(
                    p,
                    h,
                    (#[trigger] rounds.take(m)[k]).0,
                    rounds.take(m)[k].1,
                ) by {
                    if k < m - 1 {
                        assert(rounds.take(m)[k] == rounds.take(m - 1)[k]);
                    }
                }
            } else if !now {
                assert(rounds.take(m)[m - 1] == rounds[m - 1]);
            } else {
                let k = choose|k: int|
                    0 <= k < rounds.take(m - 1).len() && !consistent(
                        p,
                        h,
                        (#[trigger] rounds.take(m - 1)[k]).0,
                        rounds.take(m - 1)[k].1,
                    );
                assert(rounds.take(m)[k] == rounds.take(m - 1)[k]);
            }
        }
        assert(pops[m].to_multiset() =~= kept);
    }
    pops[m].to_multiset_ensures();
    assert forall|k: int| 0 <= k < pops[m].len() implies consistent_with_all(
        p,
        #[trigger] pops[m][k],
        rounds.take(m),
    ) by {
        assert(pops[m].contains(pops[m][k]));
        assert(kept.count(pops[m][k]) > 0);
    }
}

/// A run has at most one round for each hypothesis of its first
/// population, and the round that ends it.
pub proof fn lemma_run_is_short<H, O: FnMut(usize) -> bool, P: Fn(&H, usize) -> bool>(
    oracle: O,
    p: P,
    n: usize,
    pops: Seq<Seq<H>>,
    rounds: Seq<(usize, bool)>,
)
    requires
        is_run(oracle, p, n, pops, rounds),
    ensures
        rounds.len() <= pops[0].len() + 1,
{
    lemma_run_shrinks_by_round(oracle, p, n, pops, rounds, rounds.len() - 1);
}

/// Each round of a run but the last takes at least one hypothesis away.
pub proof fn lemma_run_shrinks_by_round<H, O: FnMut(usize) -> bool, P: Fn(&H, usize) -> bool>(
    oracle: O,
    p: P,
    n: usize,
    pops: Seq<Seq<H>>,
    rounds: Seq<(usize, bool)>,
    m: int,
)
    requires
        is_run(oracle, p, n, pops, rounds),
        0 <= m < rounds.len(),
    ensures
        pops[m].len() + m <= pops[0].len(),
    decreases m,
{
    if m > 0 {
        lemma_run_shrinks_by_round(oracle, p, n, pops, rounds, m - 1);
        assert(pops[m].len() < pops[m - 1].len());
    }
}

/// Narrows `hypos` down by rounds. Each round asks the oracle `f` about the
/// optimal experiment among the first `n` and removes the hypotheses that
/// `p` shows to contradict the observation. The run ends with the first
/// round that removes nothing, or at once when `n` is zero.
pub fn experiment<H, F, P>(n: usize, hypos: &mut Vec<H>, mut f: F, p: P)
    where F: FnMut(usize) -> bool, P: Copy + Fn(&H, usize) -> bool
    requires
        is_oracle(f, n),
        is_predictor(p),
        accepts_each(p, n, old(hypos)@),
    ensures
        is_outcome(f, p, n, old(hypos)@, final(hypos)@),
        final(hypos)@.to_multiset().subset_of(old(hypos)@.to_multiset()),
        final(hypos)@.len() <= old(hypos)@.len(),
        all_alike(p, n, old(hypos)@) ==> final(hypos)@ == old(hypos)@ || final(hypos)@.len() == 0,
        all_alike(p, n, old(hypos)@) && oracle_confirms(f, p, n, old(hypos)@) ==> final(hypos)@ == old(
            hypos,
        )@,
{
    let ghost oracle = f;
    let ghost mut pops: Seq<Seq<H>> = seq![hypos@];
    let ghost mut rounds: Seq<(usize, bool)> = Seq::empty();
    loop
        invariant_except_break
            f == oracle,
            is_oracle(f, n),
            is_predictor(p),
            accepts_each(p, n, hypos@),
            pops.len() == rounds.len() + 1,
            pops[0] == old(hypos)@,
            pops.last() == hypos@,
            hypos@.len() <= old(hypos)@.len(),
            hypos@.to_multiset().subset_of(old(hypos)@.to_multiset()),
            all_alike(p, n, old(hypos)@) ==> all_alike(p, n, hypos@) && (hypos@ == old(hypos)@
                || hypos@.len() == 0),
            all_alike(p, n, old(hypos)@) && oracle_confirms(oracle, p, n, old(hypos)@) ==> hypos@
                == old(hypos)@,
            forall|k: int|
                0 <= k < rounds.len() ==> is_round(
                    f,
                    p,
                    n,
                    #[trigger] pops[k],
                    rounds[k].0,
                    rounds[k].1,
                    pops[k + 1],
                ),
            forall|k: int| 0 <= k < rounds.len() ==> pops[k + 1].len() < (#[trigger] pops[k]).len(),
        ensures
            is_outcome(oracle, p, n, old(hypos)@, hypos@),
            hypos@.to_multiset().subset_of(old(hypos)@.to_multiset()),
            hypos@.len() <= old(hypos)@.len(),
            all_alike(p, n, old(hypos)@) ==> hypos@ == old(hypos)@ || hypos@.len() == 0,
            all_alike(p, n, old(hypos)@) && oracle_confirms(oracle, p, n, old(hypos)@) ==> hypos@
                == old(hypos)@,
        decreases hypos@.len(),
    {
        match optimal_guess(n, hypos.as_slice(), p) {
            Some(guess) => {
                let size: usize = hypos.len();
                let ghost before = hypos@;
                let answer = f(guess);
                update(hypos, guess, answer, p);
                proof {
                    pops = pops.push(hypos@);
                    rounds = rounds.push((guess, answer));
                    lemma_elimination_shrinks(p, before, guess, answer, hypos@);
                    lemma_accepts_fewer(p, n, before, hypos@);
                    if all_alike(p, n, old(hypos)@) {
                        lemma_elimination_of_alike(p, n, before, guess, answer, hypos@);
                        if oracle_confirms(oracle, p, n, old(hypos)@) {
                            lemma_elimination_of_consistent(p, before, guess, answer, hypos@);
                        }
                    }
                }
                if hypos.len() == size {
                    proof {
                        assert(is_run(f, p, n, pops, rounds));
                    }
                    break;
                }
            },
            None => {
                proof {
                    assert(n == 0);
                    assert(rounds.len() == 0);
                }
                break;
            },
        }
    }
}

} // verus!
