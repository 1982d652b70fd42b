use redis_cleanup::cleanup::{Action, Cleanup, Event, Notice, DEFAULT_PATTERN};
use redis_cleanup::decision::Decision;
use std::collections::BTreeMap;

/// A store in memory: each key with its time to live.
type Store = BTreeMap<String, i64>;

fn store_of(entries: &[(&str, i64)]) -> Store {
    entries.iter().map(|(key, ttl)| (key.to_string(), *ttl)).collect()
}

/// Lists the keys from the last to the first, so that the run has to sort.
fn list(store: &Store, pattern: &str) -> Vec<String> {
    assert_eq!(pattern, "*");
    store.keys().rev().cloned().collect()
}

/// Serves a run against the store until it finishes; gives the notices and
/// the keys whose deletion was asked for.
fn serve(store: &mut Store, pattern: &str, max_ttl: i64, commit: bool) -> (Vec<Notice>, Vec<String>) {
    let mut run = Cleanup::new(pattern.to_string(), max_ttl, commit);
    let mut notices = Vec::new();
    let mut deleted = Vec::new();
    let mut calls = 0;
    loop {
        let event = match run.pending() {
            Action::ListKeys { pattern } => Event::Listed { keys: list(store, &pattern) },
            Action::QueryTtl { key } => Event::Ttl { ttl: store.get(&key).copied().unwrap_or(-2) },
            Action::Delete { key } => {
                store.remove(&key);
                deleted.push(key);
                Event::Deleted
            }
            Action::Finish => break,
        };
        notices.extend(run.step(event));
        calls += 1;
        assert!(calls < 10_000);
    }
    assert!(run.is_finished());
    (notices, deleted)
}

fn examined(key: &str, ttl: i64, decision: Decision, position: usize, total: usize) -> Notice {
    Notice::Examined { key: key.to_string(), ttl, decision, position, total }
}

#[test]
fn a_dry_run_reports_each_key_and_leaves_the_store() {
    let before = store_of(&[("A", 50), ("B", 200), ("bull:abc", 10)]);
    let mut store = before.clone();
    let (notices, deleted) = serve(&mut store, "*", 100, false);
    assert_eq!(
        notices,
        vec![
            Notice::Retrieved { count: 3 },
            Notice::Sorted { count: 3 },
            examined("A", 50, Decision::Delete, 1, 3),
            examined("B", 200, Decision::Skip, 2, 3),
            examined("bull:abc", 10, Decision::ManagedSkip, 3, 3),
        ]
    );
    assert!(deleted.is_empty());
    assert_eq!(store, before);
}

#[test]
fn a_committing_run_deletes_the_stale_keys_only() {
    let mut store = store_of(&[("A", 50), ("B", 200), ("bull:abc", 10)]);
    let (notices, deleted) = serve(&mut store, "*", 100, true);
    assert_eq!(
        notices,
        vec![
            Notice::Retrieved { count: 3 },
            Notice::Sorted { count: 3 },
            examined("A", 50, Decision::Delete, 1, 3),
            Notice::Deleted,
            examined("B", 200, Decision::Skip, 2, 3),
            examined("bull:abc", 10, Decision::ManagedSkip, 3, 3),
        ]
    );
    assert_eq!(deleted, vec!["A".to_string()]);
    assert_eq!(store, store_of(&[("B", 200), ("bull:abc", 10)]));
}

#[test]
fn two_dry_runs_report_the_same_and_change_nothing() {
    let before = store_of(&[("z", -1), ("bull:7", 3), ("bull:x", -1), ("m:1", 0), ("a", 99)]);
    let mut store = before.clone();
    let first = serve(&mut store, "*", 5, false);
    assert_eq!(store, before);
    let second = serve(&mut store, "*", 5, false);
    assert_eq!(store, before);
    assert_eq!(first, second);
    assert!(first.1.is_empty());
}

#[test]
fn a_second_committing_run_deletes_nothing() {
    let mut store = store_of(&[("z", -1), ("bull:7", 3), ("bull:x", -1), ("m:1", 0), ("a", 99)]);
    let (_, deleted) = serve(&mut store, "*", 5, true);
    assert_eq!(deleted, vec!["bull:7".to_string(), "m:1".to_string(), "z".to_string()]);
    let after_first = store.clone();
    assert_eq!(after_first, store_of(&[("bull:x", -1), ("a", 99)]));
    let (notices, deleted) = serve(&mut store, "*", 5, true);
    assert!(deleted.is_empty());
    assert_eq!(store, after_first);
    assert_eq!(
        notices,
        vec![
            Notice::Retrieved { count: 2 },
            Notice::Sorted { count: 2 },
            examined("a", 99, Decision::Skip, 1, 2),
            examined("bull:x", -1, Decision::ManagedSkip, 2, 2),
        ]
    );
}

#[test]
fn the_report_does_not_depend_on_commit() {
    let before = store_of(&[("A", 50), ("B", 200), ("bull:abc", 10), ("C", 100)]);
    let (dry, _) = serve(&mut before.clone(), "*", 100, false);
    let (wet, _) = serve(&mut before.clone(), "*", 100, true);
    let decisions = |notices: Vec<Notice>| -> Vec<Notice> {
        notices.into_iter().filter(|notice| *notice != Notice::Deleted).collect()
    };
    assert_eq!(decisions(dry), decisions(wet));
}

#[test]
fn the_default_limit_deletes_only_keys_without_expiry() {
    let mut store = store_of(&[("forever", -1), ("soon", 0), ("later", 3600), ("bull:q", -1)]);
    let (_, deleted) = serve(&mut store, "*", -1, true);
    assert_eq!(deleted, vec!["forever".to_string()]);
    assert_eq!(store, store_of(&[("soon", 0), ("later", 3600), ("bull:q", -1)]));
}

#[test]
fn the_namespace_alone_is_left_by_a_committing_run() {
    let before = store_of(&[("bull", -1)]);
    let mut store = before.clone();
    let (notices, deleted) = serve(&mut store, "*", -1, true);
    assert_eq!(
        notices,
        vec![
            Notice::Retrieved { count: 1 },
            Notice::Sorted { count: 1 },
            examined("bull", -1, Decision::ManagedSkip, 1, 1),
        ]
    );
    assert!(deleted.is_empty());
    assert_eq!(store, before);
}

#[test]
fn managed_keys_outlast_a_committing_run_with_the_largest_limit() {
    let before = store_of(&[("bull:abc", -1), ("bull:q:-1", 0), ("bull:", i64::MAX), ("bull", 5)]);
    let mut store = before.clone();
    let (notices, deleted) = serve(&mut store, "*", i64::MAX, true);
    assert!(deleted.is_empty());
    assert_eq!(store, before);
    assert_eq!(
        notices,
        vec![
            Notice::Retrieved { count: 4 },
            Notice::Sorted { count: 4 },
            examined("bull", 5, Decision::ManagedSkip, 1, 4),
            examined("bull:", i64::MAX, Decision::ManagedSkip, 2, 4),
            examined("bull:abc", -1, Decision::ManagedSkip, 3, 4),
            examined("bull:q:-1", 0, Decision::ManagedSkip, 4, 4),
        ]
    );
}

#[test]
fn a_committing_run_deletes_the_due_keys_once_each_in_ascending_order() {
    let before = store_of(&[
        ("w", 9),
        ("bull:12", 3),
        ("a", 10),
        ("bull", 0),
        ("m", 11),
        ("bull:job", -1),
        ("c", -1),
        ("z:9", 10),
    ]);
    let mut store = before.clone();
    let (_, deleted) = serve(&mut store, "*", 10, true);
    let due: Vec<String> = before
        .iter()
        .filter(|(key, ttl)| !redis_cleanup::key::is_managed_key(key) && **ttl <= 10)
        .map(|(key, _)| key.clone())
        .collect();
    assert_eq!(deleted, due);
    assert_eq!(deleted, vec!["a", "bull:12", "c", "w", "z:9"]);
    assert_eq!(store, store_of(&[("bull", 0), ("m", 11), ("bull:job", -1)]));
}

#[test]
fn an_empty_listing_finishes_the_run() {
    let mut store = Store::new();
    let (notices, deleted) = serve(&mut store, "*", 100, true);
    assert_eq!(notices, vec![Notice::Retrieved { count: 0 }, Notice::Sorted { count: 0 }]);
    assert!(deleted.is_empty());
}

#[test]
fn the_default_pattern_is_every_key() {
    assert_eq!(DEFAULT_PATTERN, "*");
    let run = Cleanup::new(DEFAULT_PATTERN.to_string(), -1, false);
    assert_eq!(run.pending(), Action::ListKeys { pattern: "*".to_string() });
}

#[test]
fn a_new_run_asks_for_the_listing_with_its_pattern() {
    let run = Cleanup::new("user:*".to_string(), -1, false);
    assert!(!run.is_finished());
    assert_eq!(run.pending(), Action::ListKeys { pattern: "user:*".to_string() });
}

#[test]
fn the_run_visits_the_keys_in_ascending_order() {
    let mut run = Cleanup::new("*".to_string(), 0, false);
    let keys = vec!["b".to_string(), "c".to_string(), "a".to_string()];
    let notices = run.step(Event::Listed { keys });
    assert_eq!(notices, vec![Notice::Retrieved { count: 3 }, Notice::Sorted { count: 3 }]);
    assert_eq!(run.pending(), Action::QueryTtl { key: "a".to_string() });
    assert_eq!(run.step(Event::Ttl { ttl: 7 }), vec![examined("a", 7, Decision::Skip, 1, 3)]);
    assert_eq!(run.pending(), Action::QueryTtl { key: "b".to_string() });
    assert_eq!(run.step(Event::Ttl { ttl: 0 }), vec![examined("b", 0, Decision::Delete, 2, 3)]);
    assert_eq!(run.pending(), Action::QueryTtl { key: "c".to_string() });
    assert_eq!(run.step(Event::Ttl { ttl: -1 }), vec![examined("c", -1, Decision::Delete, 3, 3)]);
    assert_eq!(run.pending(), Action::Finish);
    assert!(run.is_finished());
}

#[test]
fn a_committing_run_waits_for_each_deletion() {
    let mut run = Cleanup::new("*".to_string(), 10, true);
    run.step(Event::Listed { keys: vec!["k2".to_string(), "k1".to_string()] });
    assert_eq!(run.step(Event::Ttl { ttl: 10 }), vec![examined("k1", 10, Decision::Delete, 1, 2)]);
    assert_eq!(run.pending(), Action::Delete { key: "k1".to_string() });
    assert!(!run.is_finished());
    assert_eq!(run.step(Event::Deleted), vec![Notice::Deleted]);
    assert_eq!(run.pending(), Action::QueryTtl { key: "k2".to_string() });
    assert_eq!(run.step(Event::Ttl { ttl: 11 }), vec![examined("k2", 11, Decision::Skip, 2, 2)]);
    assert_eq!(run.pending(), Action::Finish);
}

#[test]
fn an_event_that_is_not_expected_changes_nothing() {
    let mut run = Cleanup::new("*".to_string(), 10, true);
    assert!(run.step(Event::Ttl { ttl: 1 }).is_empty());
    assert!(run.step(Event::Deleted).is_empty());
    assert_eq!(run.pending(), Action::ListKeys { pattern: "*".to_string() });
    run.step(Event::Listed { keys: vec!["k".to_string()] });
    assert!(run.step(Event::Listed { keys: vec!["other".to_string()] }).is_empty());
    assert!(run.step(Event::Deleted).is_empty());
    assert_eq!(run.pending(), Action::QueryTtl { key: "k".to_string() });
    run.step(Event::Ttl { ttl: 1 });
    assert_eq!(run.pending(), Action::Delete { key: "k".to_string() });
    assert!(run.step(Event::Ttl { ttl: 1 }).is_empty());
    assert_eq!(run.pending(), Action::Delete { key: "k".to_string() });
    run.step(Event::Deleted);
    assert!(run.is_finished());
    assert!(run.step(Event::Deleted).is_empty());
    assert!(run.step(Event::Ttl { ttl: 1 }).is_empty());
    assert!(run.step(Event::Listed { keys: vec!["late".to_string()] }).is_empty());
    assert_eq!(run.pending(), Action::Finish);
}

#[test]
fn a_key_listed_twice_is_examined_twice() {
    let mut run = Cleanup::new("*".to_string(), -1, false);
    let keys = vec!["k".to_string(), "a".to_string(), "k".to_string()];
    assert_eq!(
        run.step(Event::Listed { keys }),
        vec![Notice::Retrieved { count: 3 }, Notice::Sorted { count: 3 }]
    );
    run.step(Event::Ttl { ttl: 1 });
    assert_eq!(run.step(Event::Ttl { ttl: 2 }), vec![examined("k", 2, Decision::Skip, 2, 3)]);
    assert_eq!(run.step(Event::Ttl { ttl: 3 }), vec![examined("k", 3, Decision::Skip, 3, 3)]);
    assert!(run.is_finished());
}
