use macro_scraper::crate_paths::get_repo_path;
use macro_scraper::failures::{record_failure, record_outcomes};
use macro_scraper::outcome::Outcome;
use macro_scraper::results::{AnalyzisResults, CrateAnalyzis, RepoAnalyzis};
use macro_scraper::table::{same_text, Table};

fn failed(results: &AnalyzisResults, key: &str) -> Option<String> {
    match results.crates.get(key) {
        Some(record) => match &record.expanded_count {
            Some(Err(message)) => Some(message.clone()),
            _ => None,
        },
        None => None,
    }
}

fn failures(results: &AnalyzisResults, repo: &str) -> usize {
    match results.repos.get(repo) {
        Some(record) => record.failures(),
        None => 0,
    }
}

fn failed_children(results: &AnalyzisResults, repo: &str) -> usize {
    let mut n = 0;
    for key in results.crates.key_list() {
        if get_repo_path(&key) == repo && results.crates.get(&key).unwrap().expansion_failed() {
            n += 1;
        }
    }
    n
}

#[test]
fn repo_path_is_the_first_two_components() {
    assert_eq!(get_repo_path("rust-lang/rust/compiler/rustc"), "rust-lang/rust");
    assert_eq!(get_repo_path("tokio-rs/tokio/tokio"), "tokio-rs/tokio");
}

#[test]
fn repo_path_of_a_short_key_is_the_key() {
    assert_eq!(get_repo_path("owner/repo"), "owner/repo");
    assert_eq!(get_repo_path("owner"), "owner");
    assert_eq!(get_repo_path(""), "");
}

#[test]
fn repo_path_stops_at_the_second_separator() {
    assert_eq!(get_repo_path("owner/repo/"), "owner/repo");
    assert_eq!(get_repo_path("owner//x"), "owner/");
    assert_eq!(get_repo_path("/a/b"), "/a");
    assert_eq!(get_repo_path("//"), "/");
}

#[test]
fn repo_path_counts_characters_not_bytes() {
    assert_eq!(get_repo_path("çà/dépôt/paquet"), "çà/dépôt");
}

#[test]
fn same_text_compares_contents() {
    assert!(same_text("abc", "abc"));
    assert!(same_text("", ""));
    assert!(!same_text("abc", "abd"));
    assert!(!same_text("abc", "ab"));
    assert!(!same_text("é", "e"));
}

#[test]
fn table_starts_empty() {
    let table: Table<usize> = Table::new();
    assert_eq!(table.len(), 0);
    assert!(!table.contains_key("a"));
    assert_eq!(table.get("a"), None);
    assert_eq!(table.position("a"), None);
    assert!(table.key_list().is_empty());
}

#[test]
fn table_insert_binds_and_replaces() {
    let mut table: Table<usize> = Table::new();
    assert_eq!(table.insert("a".to_string(), 1), None);
    assert_eq!(table.insert("b".to_string(), 2), None);
    assert_eq!(table.insert("a".to_string(), 3), Some(1));
    assert_eq!(table.len(), 2);
    assert_eq!(table.get("a"), Some(&3));
    assert_eq!(table.get("b"), Some(&2));
    assert_eq!(table.position("b"), Some(1));
    assert_eq!(table.key_list(), vec!["a".to_string(), "b".to_string()]);
    assert_eq!(table.key_at(0), Some(&"a".to_string()));
    assert_eq!(table.key_at(2), None);
    assert_eq!(table.value_at(1), Some(&2));
    assert_eq!(table.value_at(2), None);
}

#[test]
fn table_update_creates_then_changes() {
    let mut table: Table<usize> = Table::new();
    table.update("a", 10, |n| n + 1);
    assert_eq!(table.get("a"), Some(&11));
    table.update("a", 10, |n| n + 1);
    assert_eq!(table.get("a"), Some(&12));
    table.update("b", 0, |n| n);
    assert_eq!(table.key_list(), vec!["a".to_string(), "b".to_string()]);
}

#[test]
fn table_clone_is_equal() {
    let mut table: Table<usize> = Table::new();
    table.insert("a".to_string(), 1);
    table.insert("b".to_string(), 2);
    let copy = table.clone();
    assert_eq!(copy, table);
}

#[test]
fn fresh_records_hold_nothing() {
    let record = CrateAnalyzis::new();
    assert_eq!(record.lines_count, None);
    assert_eq!(record.expanded_count, None);
    assert!(!record.expansion_failed());
    assert_eq!(CrateAnalyzis::default(), record);
    let repo = RepoAnalyzis::new();
    assert_eq!(repo.lines_count, None);
    assert_eq!(repo.expanded_count, None);
    assert_eq!(repo.failures(), 0);
    assert_eq!(RepoAnalyzis::default(), repo);
}

#[test]
fn repo_failures_reads_only_a_failure_count() {
    let success = RepoAnalyzis { lines_count: Some(4), expanded_count: Some(Ok(7)) };
    assert_eq!(success.failures(), 0);
    let failure = RepoAnalyzis { lines_count: None, expanded_count: Some(Err(3)) };
    assert_eq!(failure.failures(), 3);
}

#[test]
fn ledger_from_crate_paths_has_a_fresh_record_each() {
    let paths = vec!["o/r/a".to_string(), "o/r/b".to_string(), "o/r/a".to_string()];
    let results = AnalyzisResults::from_crate_paths(&paths);
    assert_eq!(results.crates.len(), 2);
    assert_eq!(results.repos.len(), 0);
    assert_eq!(results.crates.get("o/r/a"), Some(&CrateAnalyzis::new()));
    assert_eq!(results.crates.get("o/r/b"), Some(&CrateAnalyzis::new()));
}

#[test]
fn update_crate_creates_a_missing_record() {
    let mut results = AnalyzisResults::new();
    results.update_crate("o/r/a", |mut record| {
        record.lines_count = Some(12);
        record
    });
    assert_eq!(
        results.crates.get("o/r/a"),
        Some(&CrateAnalyzis { lines_count: Some(12), expanded_count: None })
    );
    assert_eq!(results.repos.len(), 0);
}

#[test]
fn update_repo_creates_a_missing_record() {
    let mut results = AnalyzisResults::new();
    results.update_repo("o/r", |mut record| {
        record.lines_count = Some(5);
        record
    });
    assert_eq!(
        results.repos.get("o/r"),
        Some(&RepoAnalyzis { lines_count: Some(5), expanded_count: None })
    );
    assert_eq!(results.crates.len(), 0);
}

#[test]
fn first_failure_sets_the_counter_to_one() {
    let mut results = AnalyzisResults::new();
    record_failure(&mut results, "o/r/a", "boom".to_string());
    assert_eq!(failed(&results, "o/r/a"), Some("boom".to_string()));
    assert_eq!(results.repos.get("o/r").unwrap().expanded_count, Some(Err(1)));
}

#[test]
fn later_failures_raise_the_counter() {
    let mut results = AnalyzisResults::new();
    record_failure(&mut results, "o/r/a", "one".to_string());
    record_failure(&mut results, "o/r/b", "two".to_string());
    record_failure(&mut results, "o/r/c", "three".to_string());
    record_failure(&mut results, "o/s/a", "four".to_string());
    assert_eq!(failures(&results, "o/r"), 3);
    assert_eq!(failures(&results, "o/s"), 1);
    assert_eq!(failed(&results, "o/r/b"), Some("two".to_string()));
}

#[test]
fn failure_replaces_a_success_marker() {
    let mut results = AnalyzisResults::new();
    results.crates.insert(
        "o/r/a".to_string(),
        CrateAnalyzis { lines_count: Some(9), expanded_count: Some(Ok(40)) },
    );
    results.repos.insert(
        "o/r".to_string(),
        RepoAnalyzis { lines_count: Some(9), expanded_count: Some(Ok(40)) },
    );
    record_failure(&mut results, "o/r/a", "boom".to_string());
    assert_eq!(
        results.crates.get("o/r/a"),
        Some(&CrateAnalyzis { lines_count: Some(9), expanded_count: Some(Err("boom".to_string())) })
    );
    assert_eq!(
        results.repos.get("o/r"),
        Some(&RepoAnalyzis { lines_count: Some(9), expanded_count: Some(Err(1)) })
    );
}

#[test]
fn failure_of_one_package_leaves_the_others() {
    let paths = vec!["o/r/a".to_string(), "o/r/b".to_string(), "o/r/c".to_string()];
    let mut results = AnalyzisResults::from_crate_paths(&paths);
    let before_a = results.crates.get("o/r/a").unwrap().clone();
    let before_c = results.crates.get("o/r/c").unwrap().clone();
    let outcomes: Vec<Outcome> = vec![
        ("o/r/a".to_string(), Ok(())),
        ("o/r/b".to_string(), Err("boom".to_string())),
        ("o/r/c".to_string(), Ok(())),
    ];
    record_outcomes(&mut results, &outcomes);
    assert_eq!(results.crates.get("o/r/a"), Some(&before_a));
    assert_eq!(results.crates.get("o/r/c"), Some(&before_c));
    assert_eq!(failed(&results, "o/r/b"), Some("boom".to_string()));
    assert_eq!(failures(&results, "o/r"), 1);
}

#[test]
fn counters_equal_the_failed_packages_after_a_run() {
    let paths = vec![
        "o/r/a".to_string(),
        "o/r/b".to_string(),
        "o/r/c".to_string(),
        "o/s/a".to_string(),
        "p/t/a".to_string(),
    ];
    let mut results = AnalyzisResults::from_crate_paths(&paths);
    let outcomes: Vec<Outcome> = vec![
        ("o/r/a".to_string(), Err("e1".to_string())),
        ("o/r/b".to_string(), Ok(())),
        ("o/r/c".to_string(), Err("e2".to_string())),
        ("o/s/a".to_string(), Err("e3".to_string())),
        ("p/t/a".to_string(), Ok(())),
    ];
    record_outcomes(&mut results, &outcomes);
    for repo in ["o/r", "o/s", "p/t"] {
        assert_eq!(failures(&results, repo), failed_children(&results, repo));
    }
    assert_eq!(failures(&results, "o/r"), 2);
    assert_eq!(failures(&results, "o/s"), 1);
    assert_eq!(failures(&results, "p/t"), 0);
    assert_eq!(results.repos.get("p/t"), None);
}

#[test]
fn same_failures_in_another_order_give_the_same_counters() {
    let paths = vec!["o/r/a".to_string(), "o/r/b".to_string(), "o/s/a".to_string()];
    let mut first = AnalyzisResults::from_crate_paths(&paths);
    let mut second = AnalyzisResults::from_crate_paths(&paths);
    let forward: Vec<Outcome> = vec![
        ("o/r/a".to_string(), Err("x".to_string())),
        ("o/r/b".to_string(), Err("y".to_string())),
        ("o/s/a".to_string(), Err("z".to_string())),
    ];
    let backward: Vec<Outcome> = vec![
        ("o/s/a".to_string(), Err("z".to_string())),
        ("o/r/b".to_string(), Err("other".to_string())),
        ("o/r/a".to_string(), Err("x".to_string())),
    ];
    record_outcomes(&mut first, &forward);
    record_outcomes(&mut second, &backward);
    for repo in ["o/r", "o/s"] {
        assert_eq!(failures(&first, repo), failures(&second, repo));
    }
    assert_eq!(failures(&first, "o/r"), 2);
}

#[test]
fn running_again_on_a_kept_ledger_counts_again() {
    let paths = vec!["o/r/a".to_string()];
    let mut results = AnalyzisResults::from_crate_paths(&paths);
    let outcomes: Vec<Outcome> = vec![("o/r/a".to_string(), Err("boom".to_string()))];
    record_outcomes(&mut results, &outcomes);
    record_outcomes(&mut results, &outcomes);
    assert_eq!(failures(&results, "o/r"), 2);
    assert_eq!(failed_children(&results, "o/r"), 1);
}

#[test]
fn an_empty_batch_changes_nothing() {
    let paths = vec!["o/r/a".to_string()];
    let mut results = AnalyzisResults::from_crate_paths(&paths);
    let before = results.clone();
    record_outcomes(&mut results, &Vec::new());
    assert_eq!(results, before);
}

#[test]
fn failures_of_reads_the_counter() {
    let mut results = AnalyzisResults::new();
    assert_eq!(results.failures_of("o/r"), 0);
    record_failure(&mut results, "o/r/a", "x".to_string());
    record_failure(&mut results, "o/r/b", "y".to_string());
    assert_eq!(results.failures_of("o/r"), 2);
    assert_eq!(results.failures_of("o/s"), 0);
    results.repos.insert(
        "o/t".to_string(),
        RepoAnalyzis { lines_count: None, expanded_count: Some(Ok(3)) },
    );
    assert_eq!(results.failures_of("o/t"), 0);
}

#[test]
fn a_full_counter_cannot_take_another_failure() {
    let mut results = AnalyzisResults::new();
    results.repos.insert(
        "o/r".to_string(),
        RepoAnalyzis { lines_count: None, expanded_count: Some(Err(usize::MAX - 1)) },
    );
    let one: Vec<Outcome> = vec![("o/r/a".to_string(), Err("x".to_string()))];
    let two: Vec<Outcome> = vec![
        ("o/r/a".to_string(), Err("x".to_string())),
        ("o/s/a".to_string(), Err("y".to_string())),
        ("o/r/b".to_string(), Err("z".to_string())),
    ];
    let harmless: Vec<Outcome> = vec![
        ("o/r/a".to_string(), Ok(())),
        ("o/r/b".to_string(), Ok(())),
        ("o/s/a".to_string(), Err("y".to_string())),
        ("o/r/c".to_string(), Err("z".to_string())),
    ];
    assert!(results.can_take(&Vec::new()));
    assert!(results.can_take(&one));
    assert!(!results.can_take(&two));
    assert!(results.can_take(&harmless));
    record_outcomes(&mut results, &harmless);
    assert_eq!(results.failures_of("o/r"), usize::MAX);
    assert!(!results.can_take(&one));
}
