//! Elimination of the hypotheses that an observation contradicts.

use vstd::prelude::*;
use vstd::seq_lib::{to_multiset_build, to_multiset_remove, to_multiset_update};
use crate::model::{
    accepts, answers, consistent, decides, is_elimination, is_predictor, predicts, survivor_count,
    survivors, true_count,
};

verus! {

/// Counting `true` predictions over a population with one more hypothesis
/// in front adds that hypothesis's own prediction.
pub proof fn lemma_true_count_front<H, F: Fn(&H, usize) -> bool>(f: F, hypos: Seq<H>, i: usize)
    requires
        hypos.len() > 0,
    ensures
        true_count(f, hypos, i) == true_count(f, hypos.drop_first(), i) + if predicts(
            f,
            hypos.first(),
            i,
        ) {
            1nat
        } else {
            0nat
        },
{
    let pred = |h: H| predicts(f, h, i);
    let front = Seq::<H>::empty().push(hypos.first());
    assert(hypos =~= front + hypos.drop_first());
    Seq::filter_distributes_over_add(front, hypos.drop_first(), pred);
    Seq::<H>::empty().lemma_filter_push(hypos.first(), pred);
    reveal(Seq::filter);
    assert(Seq::<H>::empty().filter(pred).len() == 0);
}

/// Elimination only removes: what it leaves was held at least as often before.
pub proof fn lemma_elimination_shrinks<H, F: Fn(&H, usize) -> bool>(
    f: F,
    before: Seq<H>,
    i: usize,
    answer: bool,
    after: Seq<H>,
)
    requires
        is_elimination(f, before, i, answer, after),
    ensures
        after.to_multiset().subset_of(before.to_multiset()),
        after.len() <= before.len(),
        forall|k: int| 0 <= k < after.len() ==> before.contains(#[trigger] after[k]),
        forall|k: int| 0 <= k < after.len() ==> consistent(f, #[trigger] after[k], i, answer),
{
    broadcast use vstd::multiset::group_multiset_axioms;

    assert(after.to_multiset().subset_of(before.to_multiset()));
    vstd::multiset::axiom_len_sub(before.to_multiset(), after.to_multiset());
    after.to_multiset_ensures();
    before.to_multiset_ensures();
    assert forall|k: int| 0 <= k < after.len() implies before.contains(#[trigger] after[k])
        && consistent(f, after[k], i, answer) by {
        assert(after.contains(after[k]));
        assert(after.to_multiset().count(after[k]) > 0);
    }
}

/// Elimination that finds every hypothesis consistent with the observation
/// leaves the population at its size.
pub proof fn lemma_elimination_of_consistent<H, F: Fn(&H, usize) -> bool>(
    f: F,
    before: Seq<H>,
    i: usize,
    answer: bool,
    after: Seq<H>,
)
    requires
        is_elimination(f, before, i, answer, after),
        forall|k: int| 0 <= k < before.len() ==> consistent(f, #[trigger] before[k], i, answer),
    ensures
        after.to_multiset() == before.to_multiset(),
        after.len() == before.len(),
{
    broadcast use vstd::multiset::group_multiset_axioms;

    after.to_multiset_ensures();
    before.to_multiset_ensures();
    assert forall|h: H| after.to_multiset().count(h) == before.to_multiset().count(h) by {
        if !consistent(f, h, i, answer) {
            if before.contains(h) {
                let k = choose|k: int| 0 <= k < before.len() && before[k] == h;
                assert(consistent(f, before[k], i, answer));
            }
        }
    }
    assert(after.to_multiset() =~= before.to_multiset());
}

/// Removes every hypothesis whose prediction for experiment `val` differs
/// from the observed `answer`. The survivors may change places.
pub fn update<H, F>(hypos: &mut Vec<H>, val: usize, answer: bool, f: F)
    where F: Fn(&H, usize) -> bool
    requires
        is_predictor(f),
        accepts(f, old(hypos)@, val),
    ensures
        decides(f, old(hypos)@, val),
        is_elimination(f, old(hypos)@, val, answer, final(hypos)@),
        forall|k: int|
            0 <= k < final(hypos)@.len() ==> consistent(f, #[trigger] final(hypos)@[k], val, answer),
        forall|h: H|
            final(hypos)@.to_multiset().count(h) < old(hypos)@.to_multiset().count(h) ==> !consistent(
                f,
                h,
                val,
                answer,
            ),
        final(hypos)@.len() == survivor_count(f, old(hypos)@, val, answer),
        final(hypos)@.len() <= old(hypos)@.len(),
        final(hypos)@.len() == old(hypos)@.len() ==> final(hypos)@ == old(hypos)@,
{
    let mut i: usize = hypos.len();
    proof {
        assert(hypos@.take(i as int) =~= hypos@);
        assert(old(hypos)@.skip(i as int) =~= Seq::<H>::empty());
        reveal(Seq::filter);
    }
    while i > 0
        invariant
            is_predictor(f),
            accepts(f, old(hypos)@, val),
            i <= hypos@.len() <= old(hypos)@.len(),
            hypos@.take(i as int) == old(hypos)@.take(i as int),
            decides(f, old(hypos)@.skip(i as int), val),
            hypos@.len() == old(hypos)@.len() ==> hypos@ == old(hypos)@,
            hypos@.len() == i + survivor_count(f, old(hypos)@.skip(i as int), val, answer),
            true_count(f, old(hypos)@.skip(i as int), val) <= old(hypos)@.len() - i,
            forall|k: int| i <= k < hypos@.len() ==> consistent(f, #[trigger] hypos@[k], val, answer),
            forall|h: H|
                #![trigger hypos@.to_multiset().count(h)]
                hypos@.to_multiset().count(h) == if consistent(f, h, val, answer) {
                    old(hypos)@.to_multiset().count(h)
                } else {
                    hypos@.take(i as int).to_multiset().count(h)
                },
        decreases i,
    {
        i -= 1;
        let ghost before = hypos@;
        let ghost x = hypos@[i as int];
        proof {
            let tail = old(hypos)@.skip(i as int);
            assert(x == hypos@.take(i + 1)[i as int]);
            lemma_true_count_front(f, tail, val);
            assert(tail.drop_first() =~= old(hypos)@.skip(i + 1));
            assert(tail.first() == x);
            assert(before.take(i + 1) =~= before.take(i as int).push(x));
            to_multiset_build(before.take(i as int), x);
        }
        let r = f(&hypos[i], val);
        proof {
            let tail = old(hypos)@.skip(i as int);
            assert(r == predicts(f, x, val));
            assert forall|k: int| 0 <= k < tail.len() implies answers(
                f,
                #[trigger] tail[k],
                val,
                predicts(f, tail[k], val),
            ) by {
                if k > 0 {
                    assert(tail[k] == old(hypos)@.skip(i + 1)[k - 1]);
                }
            }
        }
        if r != answer {
            hypos.swap_remove(i);
            proof {
                assert(0 <= i < before.len());
                let moved = before.update(i as int, before.last());
                assert(moved.len() == before.len());
                to_multiset_update(before, i as int, before.last());
                to_multiset_remove(moved, moved.len() - 1);
                assert(hypos@ =~= moved.remove(moved.len() - 1));
                assert(moved[moved.len() - 1] == before.last());
                assert(hypos@.take(i as int) =~= before.take(i as int));
                assert(hypos@.to_multiset() =~= before.to_multiset().remove(x));
            }
        }
        proof {
            assert(hypos@.take(i as int) =~= old(hypos)@.take(i as int));
        }
    }
    proof {
        broadcast use vstd::multiset::group_multiset_axioms;

        assert(old(hypos)@.skip(0) =~= old(hypos)@);
        assert(hypos@.take(0) =~= Seq::<H>::empty());
        Seq::<H>::empty().to_multiset_ensures();
        assert(hypos@.to_multiset() =~= survivors(f, old(hypos)@, val, answer));
    }
}

} // verus!
