use flylist::engine::migrate;
use flylist::engine::plan;
use flylist::ledger::Ledger;
use flylist::migration::versions_unique;
use flylist::migration::Migration;
use flylist::schema::standard_migrations;
use flylist::store::MemStore;

fn mig(version: u64, label: &str, statement: &str) -> Migration {
    Migration {
        version,
        description: label.to_string(),
        statement: statement.to_string(),
    }
}

#[test]
fn full_sequence_from_empty_creates_all_tables() {
    let mut store = MemStore::new();
    let migrations = standard_migrations();
    assert!(versions_unique(&migrations));
    let outcome = migrate(&mut store, migrations);
    assert!(outcome.is_ok());

    let again = standard_migrations();
    assert_eq!(store.applied_len(), 4);
    for m in &again {
        assert!(store.has_applied(&m.statement));
    }
    assert_eq!(store.ledger_len(), 4);
    for v in 1..=4u64 {
        assert!(store.ledger_contains(v));
    }
    assert!(!store.ledger_contains(0));
    assert!(!store.ledger_contains(5));
    assert!(store.applied_at(0).contains("flights"));
    assert!(store.applied_at(1).contains("aircraft"));
    assert!(store.applied_at(2).contains("airports"));
    assert!(store.applied_at(3).contains("airlines"));
}

#[test]
fn second_run_is_a_no_op() {
    let mut store = MemStore::new();
    assert!(migrate(&mut store, standard_migrations()).is_ok());
    assert_eq!(store.applied_len(), 4);
    assert_eq!(store.ledger_len(), 4);

    assert!(migrate(&mut store, standard_migrations()).is_ok());
    assert_eq!(store.applied_len(), 4);
    assert_eq!(store.ledger_len(), 4);
}

#[test]
fn presentation_order_is_irrelevant() {
    let mut sorted_store = MemStore::new();
    assert!(migrate(&mut sorted_store, standard_migrations()).is_ok());

    let mut shuffled = standard_migrations();
    shuffled.reverse();
    shuffled.swap(1, 2);
    let mut shuffled_store = MemStore::new();
    assert!(migrate(&mut shuffled_store, shuffled).is_ok());

    assert_eq!(sorted_store.applied_len(), shuffled_store.applied_len());
    for i in 0..sorted_store.applied_len() {
        assert_eq!(sorted_store.applied_at(i), shuffled_store.applied_at(i));
    }
    assert_eq!(sorted_store.ledger_len(), shuffled_store.ledger_len());
    for v in 1..=4u64 {
        assert!(shuffled_store.ledger_contains(v));
    }
}

#[test]
fn failure_keeps_exactly_earlier_versions() {
    let mut store = MemStore::new();
    let migrations = standard_migrations();
    store.reject(migrations[2].statement.clone());

    let outcome = migrate(&mut store, migrations);
    let err = outcome.err().expect("migration three must fail");
    assert_eq!(err.version, 3);
    assert_eq!(err.cause, "schema delta rejected by store");

    assert!(store.ledger_contains(1));
    assert!(store.ledger_contains(2));
    assert!(!store.ledger_contains(3));
    assert!(!store.ledger_contains(4));
    assert_eq!(store.ledger_len(), 2);
    assert_eq!(store.applied_len(), 2);
}

#[test]
fn plan_filters_and_sorts() {
    let migrations = vec![
        mig(5, "five", "delta five"),
        mig(1, "one", "delta one"),
        mig(3, "three", "delta three"),
    ];
    let mut ledger = Ledger::new();
    ledger.record(3);
    let p = plan(migrations, &ledger);
    assert_eq!(p.len(), 2);
    assert_eq!(p[0].version, 1);
    assert_eq!(p[0].statement, "delta one");
    assert_eq!(p[1].version, 5);
    assert_eq!(p[1].statement, "delta five");
}

#[test]
fn already_applied_versions_are_skipped() {
    let mut store = MemStore::new();
    store.record_version(1);
    store.record_version(2);
    assert!(migrate(&mut store, standard_migrations()).is_ok());
    assert_eq!(store.applied_len(), 2);
    assert!(store.applied_at(0).contains("airports"));
    assert!(store.applied_at(1).contains("airlines"));
    assert_eq!(store.ledger_len(), 4);
}

#[test]
fn gaps_in_version_numbers_are_allowed() {
    let migrations = vec![
        mig(10, "ten", "delta ten"),
        mig(7, "seven", "delta seven"),
        mig(40, "forty", "delta forty"),
    ];
    assert!(versions_unique(&migrations));
    let mut store = MemStore::new();
    assert!(migrate(&mut store, migrations).is_ok());
    assert_eq!(store.applied_len(), 3);
    assert_eq!(store.applied_at(0), "delta seven");
    assert_eq!(store.applied_at(1), "delta ten");
    assert_eq!(store.applied_at(2), "delta forty");
    assert!(store.ledger_contains(7));
    assert!(store.ledger_contains(10));
    assert!(store.ledger_contains(40));
    assert!(!store.ledger_contains(8));
}

#[test]
fn empty_sequence_is_a_no_op() {
    let mut store = MemStore::new();
    let outcome = migrate(&mut store, Vec::new());
    assert!(outcome.is_ok());
    assert_eq!(store.applied_len(), 0);
    assert_eq!(store.ledger_len(), 0);
}

#[test]
fn duplicate_versions_are_detected() {
    let migrations = vec![
        mig(1, "one", "delta one"),
        mig(2, "two", "delta two"),
        mig(1, "one again", "delta one again"),
    ];
    assert!(!versions_unique(&migrations));
    assert!(versions_unique(&Vec::new()));
}

#[test]
fn failure_at_first_pending_version_applies_nothing() {
    let mut store = MemStore::new();
    let migrations = standard_migrations();
    store.reject(migrations[0].statement.clone());
    let err = migrate(&mut store, migrations).err().expect("must fail");
    assert_eq!(err.version, 1);
    assert_eq!(store.ledger_len(), 0);
    assert_eq!(store.applied_len(), 0);
}

#[test]
fn ledger_records_once_and_grows_monotonically() {
    let mut ledger = Ledger::new();
    assert_eq!(ledger.len(), 0);
    assert!(!ledger.contains(9));
    ledger.record(9);
    assert!(ledger.contains(9));
    assert_eq!(ledger.len(), 1);
    ledger.record(9);
    assert_eq!(ledger.len(), 1);
    ledger.record(2);
    assert!(ledger.contains(2));
    assert!(ledger.contains(9));
    assert_eq!(ledger.len(), 2);
}
