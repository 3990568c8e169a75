//! The failure aggregator: a failed package is marked on its own record and
//! counted on the record of the repository that owns it.

use vstd::prelude::*;
use crate::crate_paths::{get_repo_path, repo_key};
use crate::outcome::{
    failing_items, failures_distinct, keys_of, outcomes_view, Outcome, OutcomeView,
};
use crate::outcome::{lemma_failing_items_finite, lemma_failing_items_step};
use crate::results::{AnalyzisResults, CrateAnalyzis, Ledger, RepoAnalyzis};
use crate::table::{with_key, Table};

verus! {

/// The number of outcomes that report a failed package of `repo`.
pub open spec fn reported_failures(outcomes: Seq<OutcomeView>, repo: Seq<char>) -> nat
    decreases outcomes.len(),
{
    if outcomes.len() == 0 {
        0
    } else {
        let last = outcomes.last();
        let counted: nat = if last.1 is Err && repo_key(last.0) == repo {
            1
        } else {
            0
        };
        reported_failures(outcomes.drop_last(), repo) + counted
    }
}

/// The batch in which every one of `keys` fails.
pub open spec fn all_failing(keys: Seq<Seq<char>>) -> Seq<OutcomeView> {
    Seq::new(keys.len(), |i: int| (keys[i], Err::<(), Seq<char>>(Seq::<char>::empty())))
}

/// The keys of the package records after a batch: each package that
/// fails and has no record yet gets one, in the order of the outcomes,
/// behind the records that were there.
pub open spec fn crate_keys_after(
    keys: Seq<Seq<char>>,
    outcomes: Seq<OutcomeView>,
) -> Seq<Seq<char>>
    decreases outcomes.len(),
{
    if outcomes.len() == 0 {
        keys
    } else if outcomes.last().1 is Err {
        with_key(crate_keys_after(keys, outcomes.drop_last()), outcomes.last().0)
    } else {
        crate_keys_after(keys, outcomes.drop_last())
    }
}

/// The keys of the repository records after a batch: each repository
/// that owns a failing package and has no record yet gets one, in the
/// order of the outcomes, behind the records that were there.
pub open spec fn repo_keys_after(
    keys: Seq<Seq<char>>,
    outcomes: Seq<OutcomeView>,
) -> Seq<Seq<char>>
    decreases outcomes.len(),
{
    if outcomes.len() == 0 {
        keys
    } else if outcomes.last().1 is Err {
        with_key(repo_keys_after(keys, outcomes.drop_last()), repo_key(outcomes.last().0))
    } else {
        repo_keys_after(keys, outcomes.drop_last())
    }
}

/// The packages of `repo` that some outcome of the batch reports as failed.
pub open spec fn failing_in(outcomes: Seq<OutcomeView>, repo: Seq<char>) -> Set<Seq<char>> {
    failing_items(outcomes).filter(|key: Seq<char>| repo_key(key) == repo)
}

impl Ledger {
    /// The ledger after the expansion of the package `key` failed with
    /// `message`: the package's record holds the message, and the failure
    /// counter of its repository is one higher, or one where there was none.
    /// Records that are missing are created; nothing else changes.
    pub open spec fn record_failure(self, key: Seq<char>, message: Seq<char>) -> Ledger {
        Ledger {
            crates: self.crates.insert(key, self.crate_record(key).with_failure(message)),
            repos: self.repos.insert(
                repo_key(key),
                self.repo_record(repo_key(key)).one_more_failure(),
            ),
        }
    }

    /// The ledger after one outcome: a failure is recorded, a success changes nothing.
    pub open spec fn apply_outcome(self, outcome: OutcomeView) -> Ledger {
        match outcome.1 {
            Err(message) => self.record_failure(outcome.0, message),
            Ok(_) => self,
        }
    }

    /// The ledger after a batch of outcomes, taken in their order.
    pub open spec fn apply_outcomes(self, outcomes: Seq<OutcomeView>) -> Ledger
        decreases outcomes.len(),
    {
        if outcomes.len() == 0 {
            self
        } else {
            self.apply_outcomes(outcomes.drop_last()).apply_outcome(outcomes.last())
        }
    }

    /// Whether every failure counter stays within `usize` when the batch is recorded.
    pub open spec fn can_take(self, outcomes: Seq<OutcomeView>) -> bool {
        forall|repo: Seq<char>| #[trigger]
            self.failure_count(repo) + reported_failures(outcomes, repo) <= usize::MAX
    }
}

/// Records that the expansion of the package `key` failed with `message`.
pub fn record_failure(results: &mut AnalyzisResults, key: &str, message: String)
    requires
        old(results)@.failure_count(repo_key(key@)) < usize::MAX,
    ensures
        final(results)@ == old(results)@.record_failure(key@, message@),
        final(results).crates.keys() == old(results).crates.keys_with(key@),
        final(results).repos.keys() == old(results).repos.keys_with(repo_key(key@)),
        old(results).crates.keys().is_prefix_of(final(results).crates.keys()),
        old(results).repos.keys().is_prefix_of(final(results).repos.keys()),
{
    let mark = move |record: CrateAnalyzis| -> (marked: CrateAnalyzis)
        ensures
            marked == (CrateAnalyzis { expanded_count: Some(Err(message)), ..record }),
        { CrateAnalyzis { lines_count: record.lines_count, expanded_count: Some(Err(message)) } };
    results.update_crate(key, mark);
    let repo = get_repo_path(key);
    let count = |record: RepoAnalyzis| -> (counted: RepoAnalyzis)
        requires
            record.spec_failures() < usize::MAX,
        ensures
            counted == record.one_more_failure(),
        {
            match record.expanded_count {
                Some(Err(previous)) => RepoAnalyzis {
                    lines_count: record.lines_count,
                    expanded_count: Some(Err(previous + 1)),
                },
                _ => RepoAnalyzis { lines_count: record.lines_count, expanded_count: Some(Err(1)) },
            }
        };
    results.update_repo(repo.as_str(), count);
}

/// Threads a batch of outcomes through the aggregator, in their order:
/// each failure is recorded, each success leaves the ledger as it is.
pub fn record_outcomes(results: &mut AnalyzisResults, outcomes: &Vec<Outcome>)
    requires
        old(results)@.can_take(outcomes_view(outcomes@)),
    ensures
        final(results)@ == old(results)@.apply_outcomes(outcomes_view(outcomes@)),
        forall|repo: Seq<char>| #[trigger]
            final(results)@.failure_count(repo) == old(results)@.failure_count(repo)
                + reported_failures(outcomes_view(outcomes@), repo),
        final(results).crates.keys() == crate_keys_after(
            old(results).crates.keys(),
            outcomes_view(outcomes@),
        ),
        final(results).repos.keys() == repo_keys_after(
            old(results).repos.keys(),
            outcomes_view(outcomes@),
        ),
        old(results).crates.keys().is_prefix_of(final(results).crates.keys()),
        old(results).repos.keys().is_prefix_of(final(results).repos.keys()),
{
    let ghost views = outcomes_view(outcomes@);
    let mut i: usize = 0;
    proof {
        assert(views.take(0) =~= Seq::<OutcomeView>::empty());
    }
    while i < outcomes.len()
        invariant
            i <= outcomes@.len(),
            views == outcomes_view(outcomes@),
            results@ == old(results)@.apply_outcomes(views.take(i as int)),
            old(results)@.can_take(views),
            results.crates.keys() == crate_keys_after(
                old(results).crates.keys(),
                views.take(i as int),
            ),
            results.repos.keys() == repo_keys_after(
                old(results).repos.keys(),
                views.take(i as int),
            ),
            old(results).crates.keys().is_prefix_of(results.crates.keys()),
            old(results).repos.keys().is_prefix_of(results.repos.keys()),
        decreases outcomes@.len() - i,
    {
        let ghost before = results@;
        proof {
            assert(views.take(i as int + 1).drop_last() =~= views.take(i as int));
            assert(views.take(i as int + 1).last() == views[i as int]);
        }
        match &outcomes[i].1 {
            Err(message) => {
                proof {
                    let repo = repo_key(outcomes@[i as int].0@);
                    lemma_can_take_prefix(old(results)@, views, i as int + 1);
                    lemma_can_take_prefix(old(results)@, views, i as int);
                    lemma_counts_exact(old(results)@, views.take(i as int), repo);
                    let reported = reported_failures(views.take(i as int + 1), repo);
                    assert(old(results)@.failure_count(repo) + reported <= usize::MAX);
                }
                record_failure(results, outcomes[i].0.as_str(), message.clone());
            },
            Ok(_) => {},
        }
        proof {
            assert(results@ == before.apply_outcome(views[i as int]));
        }
        i = i + 1;
    }
    proof {
        assert(views.take(i as int) =~= views);
        assert forall|repo: Seq<char>| #[trigger]
            results@.failure_count(repo) == old(results)@.failure_count(repo)
                + reported_failures(views, repo) by {
            lemma_counts_exact(old(results)@, views, repo);
        }
    }
}

impl AnalyzisResults {
    /// Whether the batch can be recorded without a failure counter leaving `usize`.
    pub fn can_take(&self, outcomes: &Vec<Outcome>) -> (room: bool)
        ensures
            room == self@.can_take(outcomes_view(outcomes@)),
    {
        let ghost views = outcomes_view(outcomes@);
        let mut totals: Table<usize> = Table::new();
        let mut i: usize = 0;
        proof {
            assert(views.take(0) =~= Seq::<OutcomeView>::empty());
        }
        while i < outcomes.len()
            invariant
                i <= outcomes@.len(),
                views == outcomes_view(outcomes@),
                forall|repo: Seq<char>| #[trigger]
                    totals@.dom().contains(repo) ==> totals@[repo] == self@.failure_count(repo)
                        + reported_failures(views.take(i as int), repo),
                forall|repo: Seq<char>|
                    !(#[trigger] totals@.dom().contains(repo))
                        ==> reported_failures(views.take(i as int), repo) == 0,
            decreases outcomes@.len() - i,
        {
            proof {
                assert(views.take(i as int + 1).drop_last() =~= views.take(i as int));
                assert(views.take(i as int + 1).last() == views[i as int]);
            }
            if outcomes[i].1.is_err() {
                let repo = get_repo_path(outcomes[i].0.as_str());
                let so_far = match totals.get(repo.as_str()) {
                    Some(total) => *total,
                    None => self.failures_of(repo.as_str()),
                };
                if so_far == usize::MAX {
                    proof {
                        lemma_reported_prefix(views, i as int + 1, repo@);
                        assert(self@.failure_count(repo@) + reported_failures(views, repo@)
                            > usize::MAX);
                    }
                    return false;
                }
                let ghost before = totals@;
                totals.insert(repo, so_far + 1);
                proof {
                    let longer = views.take(i as int + 1);
                    assert forall|other: Seq<char>| #[trigger]
                        totals@.dom().contains(other) implies totals@[other]
                        == self@.failure_count(other) + reported_failures(longer, other) by {
                        if other != repo@ {
                            assert(before.dom().contains(other));
                        }
                    }
                }
            }
            i = i + 1;
        }
        proof {
            assert(views.take(i as int) =~= views);
            assert forall|repo: Seq<char>| #[trigger]
                self@.failure_count(repo) + reported_failures(views, repo) <= usize::MAX by {
                if totals@.dom().contains(repo) {
                    assert(totals@[repo] <= usize::MAX);
                }
            }
        }
        true
    }
}

/// Recording a failure raises the counter of the package's repository by
/// one and leaves every other counter as it was.
pub proof fn lemma_failure_counts_once(ledger: Ledger, key: Seq<char>, message: Seq<char>)
    requires
        ledger.failure_count(repo_key(key)) < usize::MAX,
    ensures
        forall|repo: Seq<char>| #[trigger]
            ledger.record_failure(key, message).failure_count(repo) == ledger.failure_count(repo)
                + if repo == repo_key(key) {
                1nat
            } else {
                0nat
            },
{
    let after = ledger.record_failure(key, message);
    assert forall|repo: Seq<char>| #[trigger]
        after.failure_count(repo) == ledger.failure_count(repo) + if repo == repo_key(key) {
            1nat
        } else {
            0nat
        } by {
        if repo == repo_key(key) {
            assert(after.repos[repo] == ledger.repo_record(repo).one_more_failure());
        } else {
            assert(after.repo_record(repo) == ledger.repo_record(repo));
        }
    }
}

/// Recording a failure makes the package a failed package of its
/// repository, and changes the failed packages of no other repository.
pub proof fn lemma_failure_marks_child(ledger: Ledger, key: Seq<char>, message: Seq<char>)
    requires
        ledger.crates.dom().finite(),
    ensures
        ledger.record_failure(key, message).crates.dom().finite(),
        forall|repo: Seq<char>| #[trigger]
            ledger.record_failure(key, message).failed_children(repo) == if repo == repo_key(key) {
                ledger.failed_children(repo).insert(key)
            } else {
                ledger.failed_children(repo)
            },
{
    let after = ledger.record_failure(key, message);
    assert forall|repo: Seq<char>| #[trigger]
        after.failed_children(repo) == if repo == repo_key(key) {
            ledger.failed_children(repo).insert(key)
        } else {
            ledger.failed_children(repo)
        } by {
        let expected = if repo == repo_key(key) {
            ledger.failed_children(repo).insert(key)
        } else {
            ledger.failed_children(repo)
        };
        assert forall|k: Seq<char>|
            after.failed_children(repo).contains(k) == expected.contains(k) by {
            if k != key {
                assert(after.crates.dom().contains(k) == ledger.crates.dom().contains(k));
                if ledger.crates.dom().contains(k) {
                    assert(after.crates[k] == ledger.crates[k]);
                }
            } else {
                assert(after.crates[key].failed());
            }
        }
        assert(after.failed_children(repo) =~= expected);
    }
}

/// A batch over packages that all have their record adds no package record.
pub proof fn lemma_known_keys_stay(keys: Seq<Seq<char>>, outcomes: Seq<OutcomeView>)
    requires
        forall|i: int| 0 <= i < outcomes.len() ==> keys.contains(#[trigger] keys_of(outcomes)[i]),
    ensures
        crate_keys_after(keys, outcomes) == keys,
    decreases outcomes.len(),
{
    if outcomes.len() > 0 {
        assert forall|i: int| 0 <= i < outcomes.len() - 1 implies keys.contains(
            #[trigger] keys_of(outcomes.drop_last())[i],
        ) by {
            assert(keys_of(outcomes)[i] == keys_of(outcomes.drop_last())[i]);
        }
        lemma_known_keys_stay(keys, outcomes.drop_last());
        assert(keys_of(outcomes)[outcomes.len() - 1] == outcomes.last().0);
    }
}

/// A longer part of a batch reports no fewer failures than a shorter one.
pub proof fn lemma_reported_prefix(outcomes: Seq<OutcomeView>, upto: int, repo: Seq<char>)
    requires
        0 <= upto <= outcomes.len(),
    ensures
        reported_failures(outcomes.take(upto), repo) <= reported_failures(outcomes, repo),
        reported_failures(outcomes, repo) <= outcomes.len(),
    decreases outcomes.len(),
{
    if outcomes.len() == 0 || upto == outcomes.len() {
        assert(outcomes.take(upto) =~= outcomes);
        if outcomes.len() > 0 {
            lemma_reported_prefix(outcomes.drop_last(), 0, repo);
        }
    } else {
        assert(outcomes.drop_last().take(upto) =~= outcomes.take(upto));
        lemma_reported_prefix(outcomes.drop_last(), upto, repo);
    }
}

/// A ledger that can take a batch can take every front part of it.
pub proof fn lemma_can_take_prefix(ledger: Ledger, outcomes: Seq<OutcomeView>, upto: int)
    requires
        ledger.can_take(outcomes),
        0 <= upto <= outcomes.len(),
    ensures
        ledger.can_take(outcomes.take(upto)),
{
    assert forall|repo: Seq<char>| #[trigger]
        ledger.failure_count(repo) + reported_failures(outcomes.take(upto), repo)
        <= usize::MAX by {
        lemma_reported_prefix(outcomes, upto, repo);
        assert(ledger.failure_count(repo) + reported_failures(outcomes, repo) <= usize::MAX);
    }
}

/// After a batch each failure counter has grown by the number of
/// outcomes that report a failed package of its repository.
pub proof fn lemma_counts_exact(ledger: Ledger, outcomes: Seq<OutcomeView>, repo: Seq<char>)
    requires
        ledger.can_take(outcomes),
    ensures
        ledger.apply_outcomes(outcomes).failure_count(repo) == ledger.failure_count(repo)
            + reported_failures(outcomes, repo),
    decreases outcomes.len(),
{
    if outcomes.len() > 0 {
        let front = outcomes.drop_last();
        let last = outcomes.last();
        let middle = ledger.apply_outcomes(front);
        assert(front =~= outcomes.take(outcomes.len() - 1));
        lemma_can_take_prefix(ledger, outcomes, outcomes.len() - 1);
        lemma_counts_exact(ledger, front, repo);
        lemma_counts_exact(ledger, front, repo_key(last.0));
        match last.1 {
            Err(message) => {
                let owner = repo_key(last.0);
                assert(ledger.failure_count(owner) + reported_failures(outcomes, owner)
                    <= usize::MAX);
                lemma_failure_counts_once(middle, last.0, message);
            },
            Ok(_) => {},
        }
    }
}

/// In a batch in which no package fails twice, the outcomes that report
/// a failed package of a repository are as many as those packages.
pub proof fn lemma_reported_distinct(outcomes: Seq<OutcomeView>, repo: Seq<char>)
    requires
        failures_distinct(outcomes),
    ensures
        failing_in(outcomes, repo).finite(),
        reported_failures(outcomes, repo) == failing_in(outcomes, repo).len(),
    decreases outcomes.len(),
{
    lemma_failing_items_finite(outcomes);
    failing_items(outcomes).lemma_len_filter(|key: Seq<char>| repo_key(key) == repo);
    if outcomes.len() == 0 {
        assert(failing_items(outcomes) =~= Set::<Seq<char>>::empty());
        assert(failing_in(outcomes, repo) =~= Set::<Seq<char>>::empty());
    } else {
        let front = outcomes.drop_last();
        let last = outcomes.last();
        assert(failures_distinct(front)) by {
            assert forall|i: int, j: int|
                0 <= i < j < front.len() && (#[trigger] front[i]).1 is Err
                && (#[trigger] front[j]).1 is Err implies front[i].0 != front[j].0 by {
                assert(outcomes[i] == front[i]);
                assert(outcomes[j] == front[j]);
            }
        }
        lemma_reported_distinct(front, repo);
        lemma_failing_items_step(outcomes);
        if last.1 is Err {
            assert(!failing_items(front).contains(last.0)) by {
                if failing_items(front).contains(last.0) {
                    let i = choose|i: int|
                        0 <= i < front.len() && (#[trigger] front[i]).0 == last.0
                            && front[i].1 is Err;
                    assert(outcomes[i] == front[i]);
                    assert(outcomes[outcomes.len() - 1] == last);
                }
            }
            if repo == repo_key(last.0) {
                assert(failing_in(outcomes, repo) =~= failing_in(front, repo).insert(last.0));
            } else {
                assert(failing_in(outcomes, repo) =~= failing_in(front, repo));
            }
        } else {
            assert(failing_in(outcomes, repo) =~= failing_in(front, repo));
        }
    }
}

/// No batch over the given keys reports more failures of a repository
/// than the batch in which every key fails.
pub proof fn lemma_all_failing_is_most(outcomes: Seq<OutcomeView>, repo: Seq<char>)
    ensures
        reported_failures(outcomes, repo)
            <= reported_failures(all_failing(keys_of(outcomes)), repo),
    decreases outcomes.len(),
{
    let keys = keys_of(outcomes);
    if outcomes.len() > 0 {
        lemma_all_failing_is_most(outcomes.drop_last(), repo);
        assert(keys_of(outcomes.drop_last()) =~= keys.drop_last());
        assert(all_failing(keys).drop_last() =~= all_failing(keys.drop_last()));
        assert(all_failing(keys).last().0 == outcomes.last().0);
    }
}

/// A batch of outcomes leaves alone the record of every package that it
/// does not report as failed: the failure of one package touches no other.
pub proof fn other_records_untouched(
    ledger: Ledger,
    outcomes: Seq<OutcomeView>,
    key: Seq<char>,
)
    requires
        !failing_items(outcomes).contains(key),
    ensures
        ledger.apply_outcomes(outcomes).crate_record(key) == ledger.crate_record(key),
        ledger.apply_outcomes(outcomes).crates.dom().contains(key)
            == ledger.crates.dom().contains(key),
    decreases outcomes.len(),
{
    if outcomes.len() > 0 {
        lemma_failing_items_step(outcomes);
        other_records_untouched(ledger, outcomes.drop_last(), key);
    }
}

/// After a batch, the failed packages of a repository are those that
/// were failed before and those that the batch reports as failed.
pub proof fn lemma_children_after_batch(
    ledger: Ledger,
    outcomes: Seq<OutcomeView>,
    repo: Seq<char>,
)
    requires
        ledger.crates.dom().finite(),
    ensures
        ledger.apply_outcomes(outcomes).crates.dom().finite(),
        ledger.apply_outcomes(outcomes).failed_children(repo)
            == ledger.failed_children(repo).union(failing_in(outcomes, repo)),
    decreases outcomes.len(),
{
    if outcomes.len() == 0 {
        assert(failing_items(outcomes) =~= Set::<Seq<char>>::empty());
        assert(ledger.failed_children(repo).union(failing_in(outcomes, repo))
            =~= ledger.failed_children(repo));
    } else {
        let front = outcomes.drop_last();
        let last = outcomes.last();
        let middle = ledger.apply_outcomes(front);
        lemma_children_after_batch(ledger, front, repo);
        lemma_failing_items_step(outcomes);
        match last.1 {
            Err(message) => {
                lemma_failure_marks_child(middle, last.0, message);
                assert(middle.record_failure(last.0, message).failed_children(repo)
                    =~= ledger.failed_children(repo).union(failing_in(outcomes, repo)));
            },
            Ok(_) => {
                assert(failing_in(outcomes, repo) =~= failing_in(front, repo));
            },
        }
    }
}

/// Aggregate consistency. Take a ledger in which every repository's
/// failure counter equals the number of its failed packages, and a batch
/// in which no package fails twice and no failing package was failed
/// before. After the batch every counter again equals the number of the
/// repository's packages whose record holds a failure.
pub proof fn aggregate_consistency(ledger: Ledger, outcomes: Seq<OutcomeView>)
    requires
        ledger.crates.dom().finite(),
        ledger.consistent(),
        ledger.can_take(outcomes),
        failures_distinct(outcomes),
        forall|key: Seq<char>| #[trigger]
            failing_items(outcomes).contains(key) ==> !ledger.crate_record(key).failed(),
    ensures
        ledger.apply_outcomes(outcomes).consistent(),
{
    let after = ledger.apply_outcomes(outcomes);
    assert forall|repo: Seq<char>| #[trigger]
        after.failure_count(repo) == after.failed_children(repo).len() by {
        lemma_counts_exact(ledger, outcomes, repo);
        lemma_reported_distinct(outcomes, repo);
        lemma_children_after_batch(ledger, outcomes, repo);
        ledger.crates.dom().lemma_len_filter(
            |k: Seq<char>| repo_key(k) == repo && ledger.crates[k].failed(),
        );
        assert(ledger.failed_children(repo).disjoint(failing_in(outcomes, repo))) by {
            let failing = failing_in(outcomes, repo);
            assert forall|k: Seq<char>|
                ledger.failed_children(repo).contains(k) implies !failing.contains(k) by {
                if failing_items(outcomes).contains(k) {
                    assert(!ledger.crate_record(k).failed());
                }
            }
        }
        vstd::set_lib::lemma_set_disjoint_lens(
            ledger.failed_children(repo),
            failing_in(outcomes, repo),
        );
        assert(ledger.failure_count(repo) == ledger.failed_children(repo).len());
    }
}

/// Two runs over the same ledger in which the same packages fail, each
/// once, end with the same failure counter for every repository, in
/// whatever order the outcomes came in and whatever the messages were.
pub proof fn same_failures_same_counts(
    ledger: Ledger,
    first: Seq<OutcomeView>,
    second: Seq<OutcomeView>,
)
    requires
        ledger.can_take(first),
        ledger.can_take(second),
        failures_distinct(first),
        failures_distinct(second),
        failing_items(first) == failing_items(second),
    ensures
        forall|repo: Seq<char>|
            ledger.apply_outcomes(first).failure_count(repo)
                == #[trigger] ledger.apply_outcomes(second).failure_count(repo),
{
    assert forall|repo: Seq<char>|
        ledger.apply_outcomes(first).failure_count(repo)
            == #[trigger] ledger.apply_outcomes(second).failure_count(repo) by {
        lemma_counts_exact(ledger, first, repo);
        lemma_counts_exact(ledger, second, repo);
        lemma_reported_distinct(first, repo);
        lemma_reported_distinct(second, repo);
    }
}

} // verus!
