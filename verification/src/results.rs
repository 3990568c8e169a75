//! The result ledger: one record for each package and one for each repository.

use vstd::prelude::*;
use crate::crate_paths::repo_key;
use crate::table::{first_occurrences, texts, Table};

verus! {

/// What the pipeline knows of one package.
#[derive(Debug, PartialEq, Eq)]
pub struct CrateAnalyzis {
    /// Lines of source code as checked out.
    pub lines_count: Option<usize>,
    /// Lines of code after macro expansion, or why the expansion failed.
    pub expanded_count: Option<Result<usize, String>>,
}

/// What the pipeline knows of one repository, summed over its packages.
#[derive(Clone, Copy, Debug, PartialEq, Eq)]
pub struct RepoAnalyzis {
    /// Lines of source code as checked out.
    pub lines_count: Option<usize>,
    /// Lines of code after macro expansion, or the number of packages whose expansion failed.
    pub expanded_count: Option<Result<usize, usize>>,
}

/// A package record as a value of mathematics: the failure message is a sequence of characters.
pub struct CrateRecord {
    pub lines_count: Option<usize>,
    pub expanded_count: Option<Result<usize, Seq<char>>>,
}

impl View for CrateAnalyzis {
    type V = CrateRecord;

    open spec fn view(&self) -> CrateRecord {
        CrateRecord {
            lines_count: self.lines_count,
            expanded_count: match self.expanded_count {
                Some(Ok(n)) => Some(Ok(n)),
                Some(Err(message)) => Some(Err(message@)),
                None => None,
            },
        }
    }
}

impl CrateRecord {
    /// The record of a package of which nothing is known yet.
    pub open spec fn fresh() -> CrateRecord {
        CrateRecord { lines_count: None, expanded_count: None }
    }

    /// Whether the record holds a failure of the expansion.
    pub open spec fn failed(self) -> bool {
        self.expanded_count matches Some(Err(_))
    }

    /// The record with the expansion marked as failed with `message`, the rest as it was.
    pub open spec fn with_failure(self, message: Seq<char>) -> CrateRecord {
        CrateRecord { expanded_count: Some(Err(message)), ..self }
    }
}

impl CrateAnalyzis {
    /// The record of a package of which nothing is known yet.
    pub open spec fn fresh() -> CrateAnalyzis {
        CrateAnalyzis { lines_count: None, expanded_count: None }
    }

    /// A record with every field absent.
    pub fn new() -> (record: CrateAnalyzis)
        ensures
            record == CrateAnalyzis::fresh(),
            record@ == CrateRecord::fresh(),
    {
        CrateAnalyzis { lines_count: None, expanded_count: None }
    }

    /// Whether the record holds a failure of the expansion.
    pub fn expansion_failed(&self) -> (failed: bool)
        ensures
            failed == self@.failed(),
    {
        match &self.expanded_count {
            Some(Err(_)) => true,
            _ => false,
        }
    }
}

impl Clone for CrateAnalyzis {
    fn clone(&self) -> (copy: CrateAnalyzis)
        ensures
            copy@ == self@,
    {
        CrateAnalyzis {
            lines_count: self.lines_count,
            expanded_count: match &self.expanded_count {
                Some(Ok(n)) => Some(Ok(*n)),
                Some(Err(message)) => Some(Err(message.clone())),
                None => None,
            },
        }
    }
}

impl Default for CrateAnalyzis {
    fn default() -> (record: CrateAnalyzis)
        ensures
            record == CrateAnalyzis::fresh(),
    {
        CrateAnalyzis::new()
    }
}

impl RepoAnalyzis {
    /// The record of a repository of which nothing is known yet.
    pub open spec fn fresh() -> RepoAnalyzis {
        RepoAnalyzis { lines_count: None, expanded_count: None }
    }

    /// The number of failed packages that the record counts: zero unless it holds a failure count.
    pub open spec fn spec_failures(self) -> nat {
        match self.expanded_count {
            Some(Err(n)) => n as nat,
            _ => 0,
        }
    }

    /// The record after one more failed package: a failure count goes up
    /// by one, anything else becomes a count of one.
    pub open spec fn one_more_failure(self) -> RepoAnalyzis {
        RepoAnalyzis { expanded_count: Some(Err((self.spec_failures() + 1) as usize)), ..self }
    }

    /// A record with every field absent.
    pub fn new() -> (record: RepoAnalyzis)
        ensures
            record == RepoAnalyzis::fresh(),
    {
        RepoAnalyzis { lines_count: None, expanded_count: None }
    }

    /// The number of failed packages that the record counts.
    pub fn failures(&self) -> (n: usize)
        ensures
            n == self.spec_failures(),
    {
        match self.expanded_count {
            Some(Err(n)) => n,
            _ => 0,
        }
    }
}

impl Default for RepoAnalyzis {
    fn default() -> (record: RepoAnalyzis)
        ensures
            record == RepoAnalyzis::fresh(),
    {
        RepoAnalyzis::new()
    }
}

/// The ledger as a value of mathematics: two finite maps from keys to records.
#[verifier::ext_equal]
pub struct Ledger {
    pub crates: Map<Seq<char>, CrateRecord>,
    pub repos: Map<Seq<char>, RepoAnalyzis>,
}

impl Ledger {
    /// The record of the package `key`, fresh where the ledger has none.
    pub open spec fn crate_record(self, key: Seq<char>) -> CrateRecord {
        if self.crates.dom().contains(key) {
            self.crates[key]
        } else {
            CrateRecord::fresh()
        }
    }

    /// The record of the repository `repo`, fresh where the ledger has none.
    pub open spec fn repo_record(self, repo: Seq<char>) -> RepoAnalyzis {
        if self.repos.dom().contains(repo) {
            self.repos[repo]
        } else {
            RepoAnalyzis::fresh()
        }
    }

    /// The packages of `repo` whose record holds a failure.
    pub open spec fn failed_children(self, repo: Seq<char>) -> Set<Seq<char>> {
        self.crates.dom().filter(
            |key: Seq<char>| repo_key(key) == repo && self.crates[key].failed(),
        )
    }

    /// The failure counter of `repo`: zero where the ledger has no record or no count for it.
    pub open spec fn failure_count(self, repo: Seq<char>) -> nat {
        self.repo_record(repo).spec_failures()
    }

    /// Whether every repository's failure counter equals the number of
    /// its packages whose record holds a failure.
    pub open spec fn consistent(self) -> bool {
        forall|repo: Seq<char>| #[trigger]
            self.failure_count(repo) == self.failed_children(repo).len()
    }
}

/// The result ledger.
#[derive(Debug, PartialEq, Eq)]
pub struct AnalyzisResults {
    pub crates: Table<CrateAnalyzis>,
    pub repos: Table<RepoAnalyzis>,
}

impl View for AnalyzisResults {
    type V = Ledger;

    open spec fn view(&self) -> Ledger {
        Ledger {
            crates: self.crates@.map_values(|record: CrateAnalyzis| record@),
            repos: self.repos@,
        }
    }
}

impl Clone for AnalyzisResults {
    fn clone(&self) -> (copy: AnalyzisResults)
        ensures
            copy@ == self@,
            copy.crates.keys() == self.crates.keys(),
            copy.repos.keys() == self.repos.keys(),
    {
        let copy = AnalyzisResults { crates: self.crates.clone(), repos: self.repos.clone() };
        proof {
            assert(copy@.crates =~= self@.crates);
            assert(copy@.repos =~= self@.repos);
        }
        copy
    }
}

impl AnalyzisResults {
    /// A ledger without any record.
    pub fn new() -> (results: AnalyzisResults)
        ensures
            results@.crates == Map::<Seq<char>, CrateRecord>::empty(),
            results@.repos == Map::<Seq<char>, RepoAnalyzis>::empty(),
            results.crates.keys() == Seq::<Seq<char>>::empty(),
            results.repos.keys() == Seq::<Seq<char>>::empty(),
    {
        let results = AnalyzisResults { crates: Table::new(), repos: Table::new() };
        assert(results@.crates =~= Map::<Seq<char>, CrateRecord>::empty());
        results
    }

    /// Passes the record of the package `key` through `change` and stores
    /// what comes back. A package without a record first gets a fresh one.
    /// No other record changes.
    pub fn update_crate<F: FnOnce(CrateAnalyzis) -> CrateAnalyzis>(&mut self, key: &str, change: F)
        requires
            call_requires(change, (old(self).crates.get_or(key@, CrateAnalyzis::fresh()),)),
        ensures
            final(self).repos == old(self).repos,
            final(self).crates.well_formed(),
            final(self).crates.keys() == old(self).crates.keys_with(key@),
            old(self).crates.keys().is_prefix_of(final(self).crates.keys()),
            final(self).crates@.dom().contains(key@),
            call_ensures(
                change,
                (old(self).crates.get_or(key@, CrateAnalyzis::fresh()),),
                final(self).crates@[key@],
            ),
            final(self).crates@ == old(self).crates@.insert(key@, final(self).crates@[key@]),
            final(self)@.crates == old(self)@.crates.insert(key@, final(self).crates@[key@]@),
    {
        self.crates.update(key, CrateAnalyzis::new(), change);
        assert(self@.crates =~= old(self)@.crates.insert(key@, self.crates@[key@]@));
    }

    /// Passes the record of the repository `key` through `change` and
    /// stores what comes back. A repository without a record first gets a
    /// fresh one. No other record changes.
    pub fn update_repo<F: FnOnce(RepoAnalyzis) -> RepoAnalyzis>(&mut self, key: &str, change: F)
        requires
            call_requires(change, (old(self)@.repo_record(key@),)),
        ensures
            final(self).crates == old(self).crates,
            final(self).repos.well_formed(),
            final(self).repos.keys() == old(self).repos.keys_with(key@),
            old(self).repos.keys().is_prefix_of(final(self).repos.keys()),
            final(self)@.repos.dom().contains(key@),
            call_ensures(change, (old(self)@.repo_record(key@),), final(self)@.repos[key@]),
            final(self)@.repos == old(self)@.repos.insert(key@, final(self)@.repos[key@]),
    {
        self.repos.update(key, RepoAnalyzis::new(), change);
    }

    /// A ledger with a fresh record for each of `paths` and no record of
    /// any repository. A path that occurs more than once counts once.
    pub fn from_crate_paths(paths: &Vec<String>) -> (results: AnalyzisResults)
        ensures
            results@.repos == Map::<Seq<char>, RepoAnalyzis>::empty(),
            results.repos.keys() == Seq::<Seq<char>>::empty(),
            results.crates.keys() == first_occurrences(texts(paths@)),
            results@.crates.dom() == texts(paths@).to_set(),
            forall|key: Seq<char>| #[trigger]
                results@.crates.dom().contains(key) ==> results@.crates[key]
                    == CrateRecord::fresh(),
    {
        let mut results = AnalyzisResults::new();
        let mut i: usize = 0;
        while i < paths.len()
            invariant
                i <= paths@.len(),
                results@.repos == Map::<Seq<char>, RepoAnalyzis>::empty(),
                results.repos.keys() == Seq::<Seq<char>>::empty(),
                results.crates.keys() == first_occurrences(texts(paths@).take(i as int)),
                results@.crates.dom() == texts(paths@).take(i as int).to_set(),
                forall|key: Seq<char>| #[trigger]
                    results@.crates.dom().contains(key) ==> results@.crates[key]
                        == CrateRecord::fresh(),
            decreases paths@.len() - i,
        {
            let ghost before = results@;
            let ghost keys_before = results.crates.keys();
            proof {
                results.crates.lemma_dom();
            }
            results.crates.insert(paths[i].clone(), CrateAnalyzis::new());
            proof {
                let key = paths@[i as int]@;
                assert(texts(paths@).take(i as int + 1).drop_last()
                    =~= texts(paths@).take(i as int));
                assert(texts(paths@).take(i as int + 1).last() == key);
                assert(keys_before.contains(key) <==> before.crates.dom().contains(key));
                assert(results@.crates =~= before.crates.insert(key, CrateRecord::fresh()));
                let front = texts(paths@).take(i as int);
                let next = texts(paths@).take(i as int + 1);
                assert(next =~= front.push(key));
                assert(next.to_set() =~= front.to_set().insert(key)) by {
                    let grown = front.to_set().insert(key);
                    assert forall|k: Seq<char>|
                        next.to_set().contains(k) implies grown.contains(k) by {
                        let j = choose|j: int| 0 <= j < next.len() && next[j] == k;
                        if j < front.len() {
                            assert(front[j] == k);
                        }
                    }
                    assert forall|k: Seq<char>|
                        grown.contains(k) implies next.to_set().contains(k) by {
                        if k == key {
                            assert(next[i as int] == k);
                        } else {
                            let j = choose|j: int| 0 <= j < front.len() && front[j] == k;
                            assert(next[j] == k);
                        }
                    }
                }
            }
            i = i + 1;
        }
        proof {
            assert(texts(paths@).take(i as int) =~= texts(paths@));
        }
        results
    }

    /// The ledger holds finitely many records.
    pub proof fn lemma_finite(&self)
        ensures
            self@.crates.dom().finite(),
            self@.repos.dom().finite(),
    {
        self.crates.lemma_dom();
        self.repos.lemma_dom();
        assert(self@.crates.dom() =~= self.crates@.dom());
    }

    /// The failure counter of the repository `repo`: zero where the
    /// ledger has no record or no count for it.
    pub fn failures_of(&self, repo: &str) -> (n: usize)
        ensures
            n == self@.failure_count(repo@),
    {
        match self.repos.get(repo) {
            Some(record) => record.failures(),
            None => 0,
        }
    }
}

} // verus!
