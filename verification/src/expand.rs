//! The macro expansion stage: what to run for one package, what its exit
//! means, and how a whole batch goes into the ledger and the checkpoint.

use vstd::prelude::*;
use vstd::pervasive::unreached;
use crate::clock::Timestamp;
use crate::failures::{
    all_failing, crate_keys_after, lemma_all_failing_is_most, lemma_known_keys_stay,
    record_outcomes, repo_keys_after, reported_failures,
};
use crate::outcome::{items_of, keys_of, outcome_view, outcomes_view, Outcome};
use crate::pool::{came_from, run_batch, PoolView, WorkerPool};
use crate::results::AnalyzisResults;
use crate::state::{ScraperState, Stage};
use crate::table::texts;

verus! {

/// The number of packages that are expanded at the same time.
pub const WORKER_POOL_SIZE: usize = 10;

/// The directory below which the repositories are cloned; package keys are paths below it.
pub const REPOS_PATH: &'static str = "./data/repos";

/// The name of the manifest in the directory of a package.
pub const MANIFEST_FILE: &'static str = "Cargo.toml";

/// The name of the file, in the directory of a package, that receives the expanded code.
pub const EXPANDED_FILE: &'static str = ".macro-expanded.rs";

/// The `[lib]` section of a package manifest.
#[derive(Debug, PartialEq, Eq)]
pub struct LibTarget {
    pub name: Option<String>,
    pub path: Option<String>,
}

/// What the stage reads of a package manifest.
#[derive(Debug, PartialEq, Eq)]
pub struct CargoToml {
    /// The library target, if the package declares one.
    pub lib: Option<LibTarget>,
}

/// A child process to run: the program, the environment variables to set, and the arguments.
#[derive(Debug, PartialEq, Eq)]
pub struct ExpandCommand {
    pub program: String,
    pub env: Vec<(String, String)>,
    pub args: Vec<String>,
}

/// The arguments of the expansion of the package whose manifest is at
/// `manifest_path`; `lib` says whether the package has a library target.
pub open spec fn expand_args(manifest_path: Seq<char>, lib: bool) -> Seq<Seq<char>> {
    let common = seq![
        "+nightly"@,
        "expand"@,
        "--no-default-features"@,
        "--manifest-path"@,
        manifest_path,
    ];
    if lib {
        common.push("--lib"@)
    } else {
        common
    }
}

impl CargoToml {
    /// A manifest without a library target, as an unreadable manifest counts.
    pub fn new() -> (manifest: CargoToml)
        ensures
            manifest.lib is None,
    {
        CargoToml { lib: None }
    }
}

impl Default for CargoToml {
    fn default() -> (manifest: CargoToml)
        ensures
            manifest.lib is None,
    {
        CargoToml::new()
    }
}

/// The command that expands the macros of the package whose manifest is
/// at `manifest_path`: the nightly `cargo expand` without default
/// features, on the library target where the manifest declares one.
pub fn expand_command(manifest_path: &str, manifest: &CargoToml) -> (command: ExpandCommand)
    ensures
        command.program@ == "cargo"@,
        command.env@.len() == 1,
        command.env@[0].0@ == "RUSTUP_TOOLCHAIN"@,
        command.env@[0].1@ == "nightly"@,
        texts(command.args@) == expand_args(manifest_path@, manifest.lib is Some),
{
    let mut env: Vec<(String, String)> = Vec::new();
    env.push(("RUSTUP_TOOLCHAIN".to_owned(), "nightly".to_owned()));
    let mut args: Vec<String> = Vec::new();
    args.push("+nightly".to_owned());
    args.push("expand".to_owned());
    args.push("--no-default-features".to_owned());
    args.push("--manifest-path".to_owned());
    args.push(manifest_path.to_owned());
    if manifest.lib.is_some() {
        args.push("--lib".to_owned());
    }
    proof {
        assert(texts(args@) =~= expand_args(manifest_path@, manifest.lib is Some));
    }
    ExpandCommand { program: "cargo".to_owned(), env, args }
}

/// The text that `String::from_utf8_lossy` makes of a sequence of bytes.
pub uninterp spec fn utf8_lossy(bytes: Seq<u8>) -> Seq<char>;

/// Decodes bytes with `String::from_utf8_lossy`, which puts U+FFFD in the
/// place of each sequence that is not UTF-8. The contract names the
/// result, and says that bytes that are UTF-8 decode to their own text.
#[verifier::external_body]
fn lossy_text(bytes: &[u8]) -> (text: String)
    ensures
        text@ == utf8_lossy(bytes@),
        vstd::utf8::valid_utf8(bytes@) ==> text@ == vstd::utf8::decode_utf8(bytes@),
{
    String::from_utf8_lossy(bytes).into_owned()
}

/// What the exit of the expansion means for the package: success where
/// the process reported success, else a failure whose message is what the
/// process wrote to its standard error.
pub fn expand_outcome(success: bool, stderr: &[u8]) -> (outcome: Result<(), String>)
    ensures
        success ==> outcome is Ok,
        !success ==> outcome is Err && outcome->Err_0@ == utf8_lossy(stderr@),
        !success && vstd::utf8::valid_utf8(stderr@) ==> outcome->Err_0@ == vstd::utf8::decode_utf8(
            stderr@,
        ),
{
    if success {
        Ok(())
    } else {
        Err(lossy_text(stderr))
    }
}

/// What the expansion stage does on this run.
#[derive(Debug)]
pub enum ExpandPlan {
    /// The stage completed at the given time on an earlier run: nothing is to be done.
    Skip(Timestamp),
    /// The stage runs: the pool holds every package of the ledger, none of them started.
    Run(WorkerPool),
}

/// How a run of the expansion stage ended.
#[derive(Debug, PartialEq, Eq)]
pub enum ExpandRun {
    /// The stage had completed at the given time; no package was expanded.
    Skipped(Timestamp),
    /// Every package was expanded, with the given outcomes, and the stage was stamped.
    Completed { at: Timestamp, outcomes: Vec<Outcome> },
}

/// Decides whether the expansion stage runs, and over which packages. It
/// is skipped exactly when its checkpoint is present; else it runs over
/// the packages of the ledger, in the ledger's order, with
/// `WORKER_POOL_SIZE` slots.
pub fn begin_expand(state: &ScraperState, results: &AnalyzisResults) -> (plan: ExpandPlan)
    ensures
        match state.expanded_macros_at {
            Some(at) => plan matches ExpandPlan::Skip(stored) && stored == at,
            None => plan matches ExpandPlan::Run(pool) && pool@ == PoolView::initial(
                results.crates.keys(),
                WORKER_POOL_SIZE as nat,
            ),
        },
{
    match state.expanded_macros_at {
        Some(at) => ExpandPlan::Skip(at),
        None => {
            let items = results.crates.key_list();
            ExpandPlan::Run(WorkerPool::new(items, WORKER_POOL_SIZE))
        },
    }
}

/// Ends a run of the expansion stage: every outcome goes through the
/// failure aggregator, in the given order, and the stage is stamped with
/// the current time, whether or not any package failed.
pub fn finish_expand(
    state: &mut ScraperState,
    results: &mut AnalyzisResults,
    outcomes: &Vec<Outcome>,
) -> (at: Timestamp)
    requires
        old(results)@.can_take(outcomes_view(outcomes@)),
    ensures
        final(results)@ == old(results)@.apply_outcomes(outcomes_view(outcomes@)),
        final(results).crates.keys() == crate_keys_after(
            old(results).crates.keys(),
            outcomes_view(outcomes@),
        ),
        final(results).repos.keys() == repo_keys_after(
            old(results).repos.keys(),
            outcomes_view(outcomes@),
        ),
        *final(state) == old(state).with_checkpoint(Stage::ExpandMacros, at),
{
    record_outcomes(results, outcomes);
    state.complete_stage(Stage::ExpandMacros)
}

/// Whether the expansion stage can run on the ledger whatever its
/// packages come to: no failure counter leaves `usize` even if every
/// package of the ledger fails.
pub fn has_room_for_failures(results: &AnalyzisResults) -> (room: bool)
    ensures
        room == results@.can_take(all_failing(results.crates.keys())),
{
    let keys = results.crates.key_list();
    let mut outcomes: Vec<Outcome> = Vec::new();
    let mut i: usize = 0;
    while i < keys.len()
        invariant
            i <= keys@.len(),
            outcomes@.len() == i,
            forall|j: int|
                0 <= j < i ==> outcome_view(#[trigger] outcomes@[j]) == (
                    keys@[j]@,
                    Err::<(), Seq<char>>(Seq::<char>::empty()),
                ),
        decreases keys@.len() - i,
    {
        outcomes.push((keys[i].clone(), Err(String::new())));
        i = i + 1;
    }
    proof {
        assert(outcomes_view(outcomes@) =~= all_failing(texts(keys@)));
    }
    results.can_take(&outcomes)
}

/// Runs the expansion stage with `transform` as the expansion of one package.
///
/// Where the stage's checkpoint is present, nothing is expanded and
/// neither the checkpoint record nor the ledger changes. Otherwise
/// `transform` runs once for each package of the ledger, every failure is
/// recorded on the package and counted on its repository, and the stage
/// is stamped with the current time.
pub fn expand_crates<F: Fn(&String) -> Result<(), String>>(
    state: &mut ScraperState,
    results: &mut AnalyzisResults,
    transform: &F,
) -> (run: ExpandRun)
    requires
        forall|item: String| call_requires(*transform, (&item,)),
        old(state).expanded_macros_at is None ==> old(results)@.can_take(
            all_failing(old(results).crates.keys()),
        ),
    ensures
        old(state).expanded_macros_at matches Some(stored) ==> {
            &&& run matches ExpandRun::Skipped(at)
            &&& at == stored
            &&& *final(state) == *old(state)
            &&& *final(results) == *old(results)
        },
        old(state).expanded_macros_at is None ==> {
            &&& run matches ExpandRun::Completed { at, outcomes }
            &&& *final(state) == old(state).with_checkpoint(Stage::ExpandMacros, at)
            &&& outcomes@.len() == old(results).crates.keys().len()
            &&& texts(items_of(outcomes@)) == old(results).crates.keys()
            &&& forall|i: int|
                0 <= i < outcomes@.len() ==> came_from(
                    *transform,
                    outcome_view(#[trigger] outcomes@[i]),
                )
            &&& final(results)@ == old(results)@.apply_outcomes(outcomes_view(outcomes@))
            &&& final(results).crates.keys() == old(results).crates.keys()
            &&& final(results).repos.keys() == repo_keys_after(
                old(results).repos.keys(),
                outcomes_view(outcomes@),
            )
        },
{
    match state.expanded_macros_at {
        Some(at) => ExpandRun::Skipped(at),
        None => {
            let items = results.crates.key_list();
            match run_batch(items, WORKER_POOL_SIZE, transform) {
                Ok(outcomes) => {
                    proof {
                        let views = outcomes_view(outcomes@);
                        let keys = keys_of(views);
                        assert(keys =~= texts(items_of(outcomes@)));
                        assert forall|repo: Seq<char>| #[trigger]
                            results@.failure_count(repo) + reported_failures(views, repo)
                            <= usize::MAX by {
                            lemma_all_failing_is_most(views, repo);
                            assert(results@.failure_count(repo) + reported_failures(
                                all_failing(keys),
                                repo,
                            ) <= usize::MAX);
                        }
                    }
                    proof {
                        lemma_known_keys_stay(results.crates.keys(), outcomes_view(outcomes@));
                    }
                    let at = finish_expand(state, results, &outcomes);
                    ExpandRun::Completed { at, outcomes }
                },
                Err(_) => unreached(),
            }
        },
    }
}

} // verus!
