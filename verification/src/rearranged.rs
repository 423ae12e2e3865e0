//! Lists of outcomes that hold the same outcomes, each as often, in another
//! order; and what such lists have in common.

use crate::response::Outcome;
use vstd::prelude::*;

verus! {

/// The weights of `outcomes`, added up.
pub open spec fn weighed(outcomes: Seq<Outcome>, weight: spec_fn(Outcome) -> nat) -> nat
    decreases outcomes.len(),
{
    if outcomes.len() == 0 {
        0
    } else {
        weighed(outcomes.drop_last(), weight) + weight(outcomes.last())
    }
}

/// The weight that counts `outcome` and nothing else.
pub open spec fn is_that(outcome: Outcome) -> spec_fn(Outcome) -> nat {
    |other: Outcome|
        if other == outcome {
            1nat
        } else {
            0nat
        }
}

/// The weight that counts every outcome.
pub open spec fn each() -> spec_fn(Outcome) -> nat {
    |other: Outcome| 1nat
}

/// How often `outcome` stands in `outcomes`.
pub open spec fn times(outcomes: Seq<Outcome>, outcome: Outcome) -> nat {
    weighed(outcomes, is_that(outcome))
}

/// `second` holds what `first` holds, each outcome as often, in whatever
/// order.
pub open spec fn is_rearranged(first: Seq<Outcome>, second: Seq<Outcome>) -> bool {
    forall|outcome: Outcome|
        #![trigger times(first, outcome)]
        #![trigger times(second, outcome)]
        times(first, outcome) == times(second, outcome)
}

/// Taking one outcome out takes its weight off the sum.
pub proof fn lemma_weighed_remove(
    outcomes: Seq<Outcome>,
    at: int,
    weight: spec_fn(Outcome) -> nat,
)
    requires
        0 <= at < outcomes.len(),
    ensures
        weighed(outcomes, weight) == weighed(outcomes.remove(at), weight) + weight(outcomes[at]),
    decreases outcomes.len(),
{
    let rest = outcomes.remove(at);
    if at == outcomes.len() - 1 {
        assert(rest =~= outcomes.drop_last());
    } else {
        lemma_weighed_remove(outcomes.drop_last(), at, weight);
        assert(rest.drop_last() =~= outcomes.drop_last().remove(at));
        assert(rest.last() == outcomes.last());
    }
}

/// An outcome stands in a list exactly when it stands there at least once.
pub proof fn lemma_times_positive(outcomes: Seq<Outcome>, outcome: Outcome)
    ensures
        times(outcomes, outcome) > 0 <==> exists|i: int|
            0 <= i < outcomes.len() && outcomes[i] == outcome,
    decreases outcomes.len(),
{
    if outcomes.len() > 0 {
        let front = outcomes.drop_last();
        lemma_times_positive(front, outcome);
        if times(outcomes, outcome) > 0 {
            if outcomes.last() == outcome {
                assert(outcomes[outcomes.len() - 1] == outcome);
            } else {
                let i = choose|i: int| 0 <= i < front.len() && front[i] == outcome;
                assert(outcomes[i] == outcome);
            }
        }
        if exists|i: int| 0 <= i < outcomes.len() && outcomes[i] == outcome {
            let i = choose|i: int| 0 <= i < outcomes.len() && outcomes[i] == outcome;
            if i < front.len() {
                assert(front[i] == outcome);
            }
        }
    }
}

/// Every outcome of a rearranged list stands in the list it was made of.
pub proof fn lemma_rearranged_member(first: Seq<Outcome>, second: Seq<Outcome>, at: int)
    requires
        is_rearranged(first, second),
        0 <= at < second.len(),
    ensures
        exists|i: int| 0 <= i < first.len() && first[i] == second[at],
{
    lemma_times_positive(second, second[at]);
    lemma_times_positive(first, second[at]);
    assert(times(first, second[at]) == times(second, second[at]));
}

/// Being rearranged goes both ways.
pub proof fn lemma_rearranged_symmetric(first: Seq<Outcome>, second: Seq<Outcome>)
    requires
        is_rearranged(first, second),
    ensures
        is_rearranged(second, first),
{
    assert forall|outcome: Outcome|
        #![trigger times(second, outcome)]
        #![trigger times(first, outcome)]
        times(second, outcome) == times(first, outcome) by {
        assert(times(first, outcome) == times(second, outcome));
    }
}

/// Whatever is added up over a list comes to the same over the list
/// rearranged.
pub proof fn lemma_weighed_rearranged(
    first: Seq<Outcome>,
    second: Seq<Outcome>,
    weight: spec_fn(Outcome) -> nat,
)
    requires
        is_rearranged(first, second),
    ensures
        weighed(first, weight) == weighed(second, weight),
    decreases first.len(),
{
    if first.len() == 0 {
        if second.len() > 0 {
            lemma_times_positive(second, second[0]);
            assert(times(first, second[0]) == times(second, second[0]));
        }
    } else {
        let moved = first.last();
        let front = first.drop_last();
        assert(times(first, moved) > 0);
        assert(times(second, moved) == times(first, moved));
        lemma_times_positive(second, moved);
        let at = choose|i: int| 0 <= i < second.len() && second[i] == moved;
        let rest = second.remove(at);
        assert forall|outcome: Outcome|
            #![trigger times(front, outcome)]
            #![trigger times(rest, outcome)]
            times(front, outcome) == times(rest, outcome) by {
            lemma_weighed_remove(second, at, is_that(outcome));
            assert(times(first, outcome) == times(second, outcome));
        }
        lemma_weighed_rearranged(front, rest, weight);
        lemma_weighed_remove(second, at, weight);
    }
}

/// Counting every outcome gives the length of the list.
pub proof fn lemma_weighed_each(outcomes: Seq<Outcome>)
    ensures
        weighed(outcomes, each()) == outcomes.len(),
    decreases outcomes.len(),
{
    if outcomes.len() > 0 {
        lemma_weighed_each(outcomes.drop_last());
    }
}

/// A rearranged list is as long as the list it was made of.
pub proof fn lemma_rearranged_len(first: Seq<Outcome>, second: Seq<Outcome>)
    requires
        is_rearranged(first, second),
    ensures
        first.len() == second.len(),
{
    lemma_weighed_rearranged(first, second, each());
    lemma_weighed_each(first);
    lemma_weighed_each(second);
}

} // verus!
