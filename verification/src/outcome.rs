//! What the transformation of one package came to.

use vstd::prelude::*;

verus! {

/// A package key with the result of its transformation: success, or a failure with its message.
pub type Outcome = (String, Result<(), String>);

/// An outcome as a value of mathematics.
pub type OutcomeView = (Seq<char>, Result<(), Seq<char>>);

/// The result of a transformation with its message as a sequence of characters.
pub open spec fn result_view(result: Result<(), String>) -> Result<(), Seq<char>> {
    match result {
        Ok(_) => Ok(()),
        Err(message) => Err(message@),
    }
}

/// The outcome with its key and message as sequences of characters.
pub open spec fn outcome_view(outcome: Outcome) -> OutcomeView {
    (outcome.0@, result_view(outcome.1))
}

/// The outcomes, each with its key and message as sequences of characters.
pub open spec fn outcomes_view(outcomes: Seq<Outcome>) -> Seq<OutcomeView> {
    Seq::new(outcomes.len(), |i: int| outcome_view(outcomes[i]))
}

/// The key of each outcome.
pub open spec fn keys_of(outcomes: Seq<OutcomeView>) -> Seq<Seq<char>> {
    Seq::new(outcomes.len(), |i: int| outcomes[i].0)
}

/// The key of each outcome, as a string.
pub open spec fn items_of(outcomes: Seq<Outcome>) -> Seq<String> {
    Seq::new(outcomes.len(), |i: int| outcomes[i].0)
}

/// The keys of the packages that some outcome reports as failed.
pub open spec fn failing_items(outcomes: Seq<OutcomeView>) -> Set<Seq<char>> {
    Set::new(
        |key: Seq<char>|
            exists|i: int|
                #![trigger outcomes[i]]
                0 <= i < outcomes.len() && outcomes[i].0 == key && outcomes[i].1 is Err,
    )
}

/// Whether no package is reported as failed by two outcomes.
pub open spec fn failures_distinct(outcomes: Seq<OutcomeView>) -> bool {
    forall|i: int, j: int|
        #![trigger outcomes[i], outcomes[j]]
        0 <= i < j < outcomes.len() && outcomes[i].1 is Err && outcomes[j].1 is Err
            ==> outcomes[i].0 != outcomes[j].0
}

/// The failing packages of a sequence are those of all but its last
/// outcome, and the package of the last where that one is a failure.
pub proof fn lemma_failing_items_step(outcomes: Seq<OutcomeView>)
    requires
        outcomes.len() > 0,
    ensures
        failing_items(outcomes.drop_last()).finite(),
        failing_items(outcomes).finite(),
        failing_items(outcomes) == if outcomes.last().1 is Err {
            failing_items(outcomes.drop_last()).insert(outcomes.last().0)
        } else {
            failing_items(outcomes.drop_last())
        },
    decreases outcomes.len(),
{
    let front = outcomes.drop_last();
    let last = outcomes.last();
    if front.len() > 0 {
        lemma_failing_items_step(front);
    } else {
        assert(failing_items(front) =~= Set::<Seq<char>>::empty());
    }
    let expected = if last.1 is Err {
        failing_items(front).insert(last.0)
    } else {
        failing_items(front)
    };
    assert forall|key: Seq<char>|
        failing_items(outcomes).contains(key) implies expected.contains(key) by {
        let i = choose|i: int|
            0 <= i < outcomes.len() && (#[trigger] outcomes[i]).0 == key && outcomes[i].1 is Err;
        if i < front.len() {
            assert(front[i] == outcomes[i]);
        }
    }
    assert forall|key: Seq<char>|
        expected.contains(key) implies failing_items(outcomes).contains(key) by {
        if failing_items(front).contains(key) {
            let i = choose|i: int|
                0 <= i < front.len() && (#[trigger] front[i]).0 == key && front[i].1 is Err;
            assert(outcomes[i] == front[i]);
        } else {
            assert(outcomes[outcomes.len() - 1] == last);
        }
    }
    assert(failing_items(outcomes) =~= expected);
}

/// The failing packages of any sequence of outcomes are finitely many.
pub proof fn lemma_failing_items_finite(outcomes: Seq<OutcomeView>)
    ensures
        failing_items(outcomes).finite(),
{
    if outcomes.len() > 0 {
        lemma_failing_items_step(outcomes);
    } else {
        assert(failing_items(outcomes) =~= Set::<Seq<char>>::empty());
    }
}

} // verus!
