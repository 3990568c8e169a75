use macro_scraper::clock::Timestamp;
use macro_scraper::engine::{run_stage, StageRun};
use macro_scraper::expand::{
    begin_expand, expand_command, expand_crates, expand_outcome, finish_expand,
    has_room_for_failures, CargoToml, ExpandPlan, ExpandRun, LibTarget, EXPANDED_FILE,
    MANIFEST_FILE, REPOS_PATH, WORKER_POOL_SIZE,
};
use macro_scraper::outcome::Outcome;
use macro_scraper::pool::{run_batch, PoolError, PoolStep, WorkerPool};
use macro_scraper::results::{AnalyzisResults, CrateAnalyzis, RepoAnalyzis};
use macro_scraper::state::{ScraperState, Stage, StageDecision};
use std::cell::Cell;

fn at(secs: i64) -> Timestamp {
    Timestamp { secs, nanos: 0 }
}

fn keys(names: &[&str]) -> Vec<String> {
    names.iter().map(|name| name.to_string()).collect()
}

fn fails_on_y(item: &String) -> Result<(), String> {
    if item == "o/r/y" {
        Err("boom".to_string())
    } else {
        Ok(())
    }
}

#[test]
fn new_state_has_no_checkpoint() {
    let state = ScraperState::new();
    let mut stage = Some(Stage::first());
    let mut seen = 0;
    while let Some(current) = stage {
        assert_eq!(state.checkpoint(current), None);
        assert!(!state.is_completed(current));
        assert_eq!(state.decide(current), StageDecision::Run);
        seen += 1;
        stage = current.next();
    }
    assert_eq!(seen, 8);
    assert_eq!(state.next_pending(), Some(Stage::FetchRepos));
}

#[test]
fn stages_follow_each_other_in_order() {
    assert_eq!(Stage::first(), Stage::FetchRepos);
    assert_eq!(Stage::FetchRepos.next(), Some(Stage::CloneRepos));
    assert_eq!(Stage::CloneRepos.next(), Some(Stage::FindCrates));
    assert_eq!(Stage::FindCrates.next(), Some(Stage::CountCode));
    assert_eq!(Stage::CountCode.next(), Some(Stage::ClearCfg));
    assert_eq!(Stage::ClearCfg.next(), Some(Stage::ExpandMacros));
    assert_eq!(Stage::ExpandMacros.next(), Some(Stage::CountExpanded));
    assert_eq!(Stage::CountExpanded.next(), Some(Stage::Analyze));
    assert_eq!(Stage::Analyze.next(), None);
}

#[test]
fn mark_completed_sets_one_stage_only() {
    let mut state = ScraperState::new();
    state.mark_completed(Stage::ExpandMacros, at(42));
    assert_eq!(state.expanded_macros_at, Some(at(42)));
    assert_eq!(state.checkpoint(Stage::ExpandMacros), Some(at(42)));
    assert!(state.is_completed(Stage::ExpandMacros));
    assert_eq!(state.decide(Stage::ExpandMacros), StageDecision::Skip(at(42)));
    let expected = ScraperState { expanded_macros_at: Some(at(42)), ..ScraperState::new() };
    assert_eq!(state, expected);
}

#[test]
fn each_stage_has_its_own_checkpoint() {
    let all = [
        Stage::FetchRepos,
        Stage::CloneRepos,
        Stage::FindCrates,
        Stage::CountCode,
        Stage::ClearCfg,
        Stage::ExpandMacros,
        Stage::CountExpanded,
        Stage::Analyze,
    ];
    for (i, stage) in all.iter().enumerate() {
        let mut state = ScraperState::new();
        state.mark_completed(*stage, at(i as i64));
        for other in all.iter() {
            if other == stage {
                assert_eq!(state.checkpoint(*other), Some(at(i as i64)));
            } else {
                assert_eq!(state.checkpoint(*other), None);
            }
        }
    }
}

#[test]
fn next_pending_is_the_first_stage_without_checkpoint() {
    let mut state = ScraperState::new();
    state.mark_completed(Stage::FetchRepos, at(1));
    state.mark_completed(Stage::CloneRepos, at(2));
    state.mark_completed(Stage::CountCode, at(3));
    assert_eq!(state.next_pending(), Some(Stage::FindCrates));
    let mut stage = Some(Stage::first());
    while let Some(current) = stage {
        state.mark_completed(current, at(9));
        stage = current.next();
    }
    assert_eq!(state.next_pending(), None);
}

#[test]
fn complete_stage_stamps_with_the_clock() {
    let mut state = ScraperState::new();
    let stamped = state.complete_stage(Stage::CountCode);
    assert_eq!(state.counted_code_at, Some(stamped));
    assert!(stamped.secs > 1_600_000_000);
    assert!(stamped.nanos < 2_000_000_000);
    assert_eq!(state.next_pending(), Some(Stage::FetchRepos));
}

#[test]
fn run_stage_skips_a_completed_stage() {
    let mut state = ScraperState::new();
    state.mark_completed(Stage::CountCode, at(7));
    let before = state;
    let calls = Cell::new(0);
    let run: Result<(u32, StageRun), String> = run_stage(&mut state, Stage::CountCode, 5, |n| {
        calls.set(calls.get() + 1);
        Ok(n + 1)
    });
    assert_eq!(run, Ok((5, StageRun::Skipped(at(7)))));
    assert_eq!(calls.get(), 0);
    assert_eq!(state, before);
}

#[test]
fn run_stage_runs_once_and_stamps() {
    let mut state = ScraperState::new();
    let calls = Cell::new(0);
    let run: Result<(u32, StageRun), String> = run_stage(&mut state, Stage::CountCode, 5, |n| {
        calls.set(calls.get() + 1);
        Ok(n + 1)
    });
    assert_eq!(calls.get(), 1);
    match run {
        Ok((6, StageRun::Completed(stamped))) => {
            assert_eq!(state.counted_code_at, Some(stamped));
        }
        other => panic!("{:?}", other),
    }
    let again: Result<(u32, StageRun), String> = run_stage(&mut state, Stage::CountCode, 6, |n| {
        calls.set(calls.get() + 1);
        Ok(n + 1)
    });
    assert_eq!(calls.get(), 1);
    assert!(matches!(again, Ok((6, StageRun::Skipped(_)))));
}

#[test]
fn run_stage_writes_no_checkpoint_on_a_fatal_error() {
    let mut state = ScraperState::new();
    let run: Result<(u32, StageRun), String> =
        run_stage(&mut state, Stage::FindCrates, 5, |_| Err("storage is gone".to_string()));
    assert_eq!(run, Err("storage is gone".to_string()));
    assert_eq!(state, ScraperState::new());
}

#[test]
fn pool_of_two_runs_three_items() {
    let mut pool = WorkerPool::new(keys(&["o/r/x", "o/r/y", "o/r/z"]), 2);
    assert_eq!(pool.capacity(), 2);
    assert_eq!(pool.len(), 3);
    assert_eq!(pool.in_flight(), 0);
    assert!(!pool.is_done());
    assert_eq!(pool.outcomes(), None);
    assert_eq!(pool.next_step(), Ok(PoolStep::Start { ticket: 0, item: "o/r/x".to_string() }));
    assert_eq!(pool.next_step(), Ok(PoolStep::Start { ticket: 1, item: "o/r/y".to_string() }));
    assert_eq!(pool.in_flight(), 2);
    assert_eq!(pool.next_step(), Ok(PoolStep::Wait));
    assert_eq!(pool.in_flight(), 2);
    assert_eq!(pool.complete(1, Err("boom".to_string())), Ok(()));
    assert_eq!(pool.in_flight(), 1);
    assert_eq!(pool.next_step(), Ok(PoolStep::Start { ticket: 2, item: "o/r/z".to_string() }));
    assert_eq!(pool.next_step(), Ok(PoolStep::Wait));
    assert_eq!(pool.complete(2, Ok(())), Ok(()));
    assert_eq!(pool.complete(0, Ok(())), Ok(()));
    assert_eq!(pool.next_step(), Ok(PoolStep::Done));
    assert!(pool.is_done());
    let expected: Vec<Outcome> = vec![
        ("o/r/x".to_string(), Ok(())),
        ("o/r/y".to_string(), Err("boom".to_string())),
        ("o/r/z".to_string(), Ok(())),
    ];
    assert_eq!(pool.outcomes(), Some(expected));
}

#[test]
fn pool_never_exceeds_its_slots() {
    let names: Vec<String> = (0..25).map(|i| format!("o/r/{}", i)).collect();
    for capacity in 1..6usize {
        let mut pool = WorkerPool::new(names.clone(), capacity);
        let mut running: Vec<usize> = Vec::new();
        let mut started = 0;
        loop {
            assert!(pool.in_flight() <= capacity);
            assert_eq!(pool.in_flight(), running.len());
            match pool.next_step() {
                Ok(PoolStep::Start { ticket, .. }) => {
                    assert_eq!(ticket, started);
                    started += 1;
                    running.push(ticket);
                }
                Ok(PoolStep::Wait) => {
                    assert!(running.len() == capacity || started == 25);
                    assert!(!running.is_empty());
                    let ticket = running.remove(running.len() / 2);
                    assert_eq!(pool.complete(ticket, Ok(())), Ok(()));
                }
                Ok(PoolStep::Done) => break,
                Err(error) => panic!("{:?}", error),
            }
        }
        assert!(running.is_empty());
        assert_eq!(pool.outcomes().unwrap().len(), 25);
    }
}

#[test]
fn empty_batch_is_done_at_once() {
    let mut pool = WorkerPool::new(Vec::new(), 3);
    assert!(pool.is_done());
    assert_eq!(pool.next_step(), Ok(PoolStep::Done));
    assert_eq!(pool.outcomes(), Some(Vec::new()));
    let mut none = WorkerPool::new(Vec::new(), 0);
    assert_eq!(none.next_step(), Ok(PoolStep::Done));
    let batch = run_batch(Vec::new(), 0, &fails_on_y);
    assert_eq!(batch, Ok(Vec::new()));
}

#[test]
fn pool_without_slots_cannot_start() {
    let mut pool = WorkerPool::new(keys(&["o/r/x"]), 0);
    assert_eq!(pool.next_step(), Err(PoolError::NoSlot));
    assert_eq!(pool.in_flight(), 0);
    assert_eq!(run_batch(keys(&["o/r/x"]), 0, &fails_on_y), Err(PoolError::NoSlot));
}

#[test]
fn pool_refuses_a_ticket_that_is_not_in_flight() {
    let mut pool = WorkerPool::new(keys(&["o/r/x", "o/r/y"]), 1);
    assert_eq!(pool.complete(0, Ok(())), Err(PoolError::NotRunning));
    assert_eq!(pool.next_step(), Ok(PoolStep::Start { ticket: 0, item: "o/r/x".to_string() }));
    assert_eq!(pool.complete(1, Ok(())), Err(PoolError::NotRunning));
    assert_eq!(pool.complete(7, Ok(())), Err(PoolError::NotRunning));
    assert_eq!(pool.complete(0, Ok(())), Ok(()));
    assert_eq!(pool.complete(0, Err("late".to_string())), Err(PoolError::NotRunning));
    assert_eq!(pool.next_step(), Ok(PoolStep::Start { ticket: 1, item: "o/r/y".to_string() }));
    assert_eq!(pool.complete(1, Ok(())), Ok(()));
    let expected: Vec<Outcome> = vec![("o/r/x".to_string(), Ok(())), ("o/r/y".to_string(), Ok(()))];
    assert_eq!(pool.outcomes(), Some(expected));
}

#[test]
fn run_batch_isolates_the_failing_item() {
    let batch = run_batch(keys(&["o/r/a", "o/r/y", "o/r/c"]), 2, &fails_on_y);
    let expected: Vec<Outcome> = vec![
        ("o/r/a".to_string(), Ok(())),
        ("o/r/y".to_string(), Err("boom".to_string())),
        ("o/r/c".to_string(), Ok(())),
    ];
    assert_eq!(batch, Ok(expected));
}

#[test]
fn scenario_pool_of_two_with_one_failure() {
    let items = keys(&["o/r/x", "o/r/y", "o/r/z"]);
    let mut results = AnalyzisResults::from_crate_paths(&items);
    let outcomes = run_batch(items, 2, &fails_on_y).unwrap();
    let expected: Vec<Outcome> = vec![
        ("o/r/x".to_string(), Ok(())),
        ("o/r/y".to_string(), Err("boom".to_string())),
        ("o/r/z".to_string(), Ok(())),
    ];
    assert_eq!(outcomes, expected);
    let mut state = ScraperState::new();
    let stamped = finish_expand(&mut state, &mut results, &outcomes);
    assert_eq!(state.expanded_macros_at, Some(stamped));
    assert_eq!(
        results.crates.get("o/r/y").unwrap().expanded_count,
        Some(Err("boom".to_string()))
    );
    assert_eq!(results.repos.get("o/r").unwrap().expanded_count, Some(Err(1)));
    assert_eq!(results.crates.get("o/r/x"), Some(&CrateAnalyzis::new()));
    assert_eq!(results.crates.get("o/r/z"), Some(&CrateAnalyzis::new()));
}

#[test]
fn scenario_expand_stage_is_skipped_when_checkpointed() {
    let items = keys(&["o/r/x", "o/r/y", "o/r/z"]);
    let mut results = AnalyzisResults::from_crate_paths(&items);
    let mut state = ScraperState::new();
    state.mark_completed(Stage::ExpandMacros, at(11));
    let state_before = state;
    let results_before = results.clone();
    let calls = Cell::new(0);
    let transform = |item: &String| {
        calls.set(calls.get() + 1);
        fails_on_y(item)
    };
    let run = expand_crates(&mut state, &mut results, &transform);
    assert_eq!(run, ExpandRun::Skipped(at(11)));
    assert_eq!(calls.get(), 0);
    assert_eq!(state, state_before);
    assert_eq!(results, results_before);
    assert!(matches!(begin_expand(&state, &results), ExpandPlan::Skip(stored) if stored == at(11)));
}

#[test]
fn expand_crates_runs_every_package_once() {
    let items = keys(&["o/r/x", "o/r/y", "o/s/z"]);
    let mut results = AnalyzisResults::from_crate_paths(&items);
    let mut state = ScraperState::new();
    let calls = Cell::new(0);
    let transform = |item: &String| {
        calls.set(calls.get() + 1);
        fails_on_y(item)
    };
    let run = expand_crates(&mut state, &mut results, &transform);
    assert_eq!(calls.get(), 3);
    match run {
        ExpandRun::Completed { at: stamped, outcomes } => {
            assert_eq!(state.expanded_macros_at, Some(stamped));
            assert_eq!(outcomes.len(), 3);
            assert_eq!(outcomes[1], ("o/r/y".to_string(), Err("boom".to_string())));
        }
        other => panic!("{:?}", other),
    }
    assert_eq!(results.repos.get("o/r").unwrap().expanded_count, Some(Err(1)));
    assert_eq!(results.repos.get("o/s"), None);
    let again = expand_crates(&mut state, &mut results, &transform);
    assert!(matches!(again, ExpandRun::Skipped(_)));
    assert_eq!(calls.get(), 3);
    assert_eq!(results.repos.get("o/r").unwrap().expanded_count, Some(Err(1)));
}

#[test]
fn begin_expand_plans_a_pool_over_the_ledger() {
    let items = keys(&["o/r/x", "o/r/y"]);
    let results = AnalyzisResults::from_crate_paths(&items);
    let state = ScraperState::new();
    match begin_expand(&state, &results) {
        ExpandPlan::Run(mut pool) => {
            assert_eq!(pool.capacity(), WORKER_POOL_SIZE);
            assert_eq!(pool.capacity(), 10);
            assert_eq!(pool.len(), 2);
            assert_eq!(
                pool.next_step(),
                Ok(PoolStep::Start { ticket: 0, item: "o/r/x".to_string() })
            );
        }
        ExpandPlan::Skip(_) => panic!("the stage has no checkpoint"),
    }
}

#[test]
fn expand_command_without_library_target() {
    let command = expand_command("./data/repos/o/r/Cargo.toml", &CargoToml::new());
    assert_eq!(command.program, "cargo");
    assert_eq!(command.env, vec![("RUSTUP_TOOLCHAIN".to_string(), "nightly".to_string())]);
    assert_eq!(
        command.args,
        keys(&[
            "+nightly",
            "expand",
            "--no-default-features",
            "--manifest-path",
            "./data/repos/o/r/Cargo.toml",
        ])
    );
    assert_eq!(CargoToml::default(), CargoToml::new());
}

#[test]
fn expand_command_with_library_target() {
    let manifest = CargoToml { lib: Some(LibTarget { name: None, path: None }) };
    let command = expand_command("m/Cargo.toml", &manifest);
    assert_eq!(
        command.args,
        keys(&[
            "+nightly",
            "expand",
            "--no-default-features",
            "--manifest-path",
            "m/Cargo.toml",
            "--lib",
        ])
    );
}

#[test]
fn expand_outcome_reads_the_exit() {
    assert_eq!(expand_outcome(true, b"warning: unused"), Ok(()));
    assert_eq!(expand_outcome(false, b"boom"), Err("boom".to_string()));
    assert_eq!(expand_outcome(false, b""), Err(String::new()));
    assert_eq!(expand_outcome(false, "dépôt".as_bytes()), Err("dépôt".to_string()));
    assert_eq!(expand_outcome(false, &[b'a', 0xff, b'b']), Err("a\u{fffd}b".to_string()));
}

#[test]
fn room_for_failures_counts_the_packages_of_each_repository() {
    let items = keys(&["o/r/x", "o/r/y", "o/s/z"]);
    let mut results = AnalyzisResults::from_crate_paths(&items);
    assert!(has_room_for_failures(&results));
    results.repos.insert(
        "o/r".to_string(),
        RepoAnalyzis { lines_count: None, expanded_count: Some(Err(usize::MAX - 2)) },
    );
    assert!(has_room_for_failures(&results));
    results.repos.insert(
        "o/r".to_string(),
        RepoAnalyzis { lines_count: None, expanded_count: Some(Err(usize::MAX - 1)) },
    );
    assert!(!has_room_for_failures(&results));
}

#[test]
fn fixed_names_of_the_expansion() {
    assert_eq!(REPOS_PATH, "./data/repos");
    assert_eq!(MANIFEST_FILE, "Cargo.toml");
    assert_eq!(EXPANDED_FILE, ".macro-expanded.rs");
    assert_eq!(WORKER_POOL_SIZE, 10);
}
