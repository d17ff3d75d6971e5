//! Registering and deregistering live queries.

use livequery::datastore::Datastore;
use livequery::error::Error;
use livequery::ident::{TableRef, Uuid};
use livequery::options::{Config, EngineOptions};
use livequery::record::LiveStatement;

fn table() -> TableRef {
    TableRef::new("testns", "testdb", "testtb")
}

fn ids(rows: &[Uuid]) -> Vec<Uuid> {
    let mut v = rows.to_vec();
    v.sort_by_key(|u| u.0);
    v
}

/// The live queries of `node` on `table`, as the node side and as the table side list them.
fn both_sides(ds: &Datastore, node: Uuid, table: &TableRef) -> (Vec<Uuid>, Vec<Uuid>) {
    let node_side: Vec<Uuid> = ds
        .tables()
        .scan_ndlq(node, 1000)
        .iter()
        .filter(|e| e.table == *table)
        .map(|e| e.lq)
        .collect();
    let table_side: Vec<Uuid> = ds
        .tables()
        .scan_tblq(table, 1000)
        .iter()
        .filter(|t| t.stmt.node == node)
        .map(|t| t.stmt.id)
        .collect();
    (ids(&node_side), ids(&table_side))
}

#[test]
fn engine_options_default() {
    let options = EngineOptions::default();
    assert_eq!(options.new_live_queries_per_transaction, 100);
    assert_eq!(options.live_query_catchup_size, 1000);
}

#[test]
fn config_default() {
    let config = Config::default();
    assert_eq!(config.engine.new_live_queries_per_transaction, 100);
    assert_eq!(config.engine.live_query_catchup_size, 1000);
    assert_eq!(config.heartbeat_interval, 3_000);
    assert_eq!(config.liveness_window, 30_000);
    assert_eq!(config.gc_period, 60_000);
    assert_eq!(config.delivery_high_water, 1024);
}

#[test]
fn register_writes_both_halves() {
    let mut ds = Datastore::new(Uuid(1), Config::default());
    let mut tx = ds.transaction();
    assert_eq!(tx.register_live_query(&table(), LiveStatement::new(Uuid(10), Uuid(1))), Ok(()));
    ds.commit(tx).unwrap();
    assert_eq!(ds.tables().get_ndlq(Uuid(1), Uuid(10)), Some(&table()));
    assert_eq!(ds.tables().get_tblq(&table(), Uuid(10)).unwrap().node, Uuid(1));
}

#[test]
fn the_101st_registration_fails_and_nothing_survives() {
    let mut ds = Datastore::new(Uuid(1), Config::default());
    let mut tx = ds.transaction();
    for i in 0..100u128 {
        assert_eq!(
            tx.register_live_query(&table(), LiveStatement::new(Uuid(1000 + i), Uuid(1))),
            Ok(())
        );
    }
    assert_eq!(
        tx.register_live_query(&table(), LiveStatement::new(Uuid(1100), Uuid(1))),
        Err(Error::TooManyLiveQueries)
    );
    assert_eq!(tx.failure(), Some(Error::TooManyLiveQueries));
    // the transaction is aborted: its commit fails, and nothing of it is stored
    assert_eq!(ds.commit(tx), Err(Error::TooManyLiveQueries));
    assert!(ds.tables().scan_all_tblq(1000).is_empty());
    assert!(ds.tables().scan_all_ndlq(1000).is_empty());
    assert_eq!(ds.version(), 0);
}

#[test]
fn a_hundred_registrations_commit() {
    let mut ds = Datastore::new(Uuid(1), Config::default());
    let mut tx = ds.transaction();
    for i in 0..100u128 {
        tx.register_live_query(&table(), LiveStatement::new(Uuid(1000 + i), Uuid(1))).unwrap();
    }
    ds.commit(tx).unwrap();
    assert_eq!(ds.tables().scan_tblq(&table(), 1000).len(), 100);
    assert_eq!(ds.tables().scan_ndlq(Uuid(1), 1000).len(), 100);
}

#[test]
fn registering_twice_meets_the_condition() {
    let mut ds = Datastore::new(Uuid(1), Config::default());
    let mut tx = ds.transaction();
    tx.register_live_query(&table(), LiveStatement::new(Uuid(10), Uuid(1))).unwrap();
    ds.commit(tx).unwrap();

    let mut tx = ds.transaction();
    assert_eq!(
        tx.register_live_query(&table(), LiveStatement::new(Uuid(10), Uuid(1))),
        Err(Error::ConditionNotMet)
    );
    // nothing was written by the failed registration
    assert_eq!(tx.tables().scan_all_tblq(1000).len(), 1);
    assert_eq!(tx.tables().scan_all_ndlq(1000).len(), 1);
    assert_eq!(ds.commit(tx), Err(Error::ConditionNotMet));
}

#[test]
fn a_registration_whose_node_half_is_taken_leaves_nothing_behind() {
    let mut ds = Datastore::new(Uuid(1), Config::default());
    let other = TableRef::new("testns", "testdb", "other");
    let mut tx = ds.transaction();
    tx.register_live_query(&other, LiveStatement::new(Uuid(10), Uuid(1))).unwrap();
    // same node and live query, another table: the table half is free, the node half is not
    assert_eq!(
        tx.register_live_query(&table(), LiveStatement::new(Uuid(10), Uuid(1))),
        Err(Error::ConditionNotMet)
    );
    assert!(tx.tables().scan_tblq(&table(), 1000).is_empty());
    assert_eq!(tx.tables().scan_tblq(&other, 1000).len(), 1);
    ds.rollback(tx);
    assert!(ds.tables().scan_all_tblq(1000).is_empty());
}

#[test]
fn deregister_of_an_absent_live_query_changes_nothing() {
    let mut ds = Datastore::new(Uuid(1), Config::default());
    let mut tx = ds.transaction();
    tx.register_live_query(&table(), LiveStatement::new(Uuid(10), Uuid(1))).unwrap();
    tx.deregister_live_query(Uuid(1), Uuid(11), &table());
    tx.deregister_live_query(Uuid(2), Uuid(10), &table());
    tx.deregister_live_query(Uuid(1), Uuid(10), &TableRef::new("testns", "testdb", "other"));
    ds.commit(tx).unwrap();
    assert_eq!(both_sides(&ds, Uuid(1), &table()), (vec![Uuid(10)], vec![Uuid(10)]));
}

#[test]
fn deregister_twice_is_deregister_once() {
    let mut ds = Datastore::new(Uuid(1), Config::default());
    let mut tx = ds.transaction();
    tx.register_live_query(&table(), LiveStatement::new(Uuid(10), Uuid(1))).unwrap();
    tx.register_live_query(&table(), LiveStatement::new(Uuid(11), Uuid(1))).unwrap();
    tx.deregister_live_query(Uuid(1), Uuid(10), &table());
    let once_halves = tx.tables().scan_all_ndlq(1000);
    let once_rows = tx.tables().scan_all_tblq(1000);
    tx.deregister_live_query(Uuid(1), Uuid(10), &table());
    assert_eq!(tx.tables().scan_all_ndlq(1000), once_halves);
    assert_eq!(tx.tables().scan_all_tblq(1000), once_rows);
    ds.commit(tx).unwrap();
    assert_eq!(both_sides(&ds, Uuid(1), &table()), (vec![Uuid(11)], vec![Uuid(11)]));
}

#[test]
fn the_two_scans_agree_after_a_run_of_registrations() {
    let mut ds = Datastore::new(Uuid(1), Config::default());
    let other = TableRef::new("testns", "testdb", "other");
    let mut tx = ds.transaction();
    tx.register_live_query(&table(), LiveStatement::new(Uuid(10), Uuid(1))).unwrap();
    tx.register_live_query(&table(), LiveStatement::new(Uuid(11), Uuid(2))).unwrap();
    tx.register_live_query(&other, LiveStatement::new(Uuid(12), Uuid(1))).unwrap();
    tx.register_live_query(&table(), LiveStatement::new(Uuid(13), Uuid(1))).unwrap();
    tx.deregister_live_query(Uuid(1), Uuid(10), &table());
    tx.deregister_live_query(Uuid(2), Uuid(13), &table());
    tx.register_live_query(&table(), LiveStatement::new(Uuid(10), Uuid(2))).unwrap();
    ds.commit(tx).unwrap();

    assert_eq!(both_sides(&ds, Uuid(1), &table()), (vec![Uuid(13)], vec![Uuid(13)]));
    assert_eq!(
        both_sides(&ds, Uuid(2), &table()),
        (vec![Uuid(10), Uuid(11)], vec![Uuid(10), Uuid(11)])
    );
    assert_eq!(both_sides(&ds, Uuid(1), &other), (vec![Uuid(12)], vec![Uuid(12)]));
    assert_eq!(both_sides(&ds, Uuid(2), &other), (vec![], vec![]));
}

#[test]
fn lookup_lists_the_live_queries_of_the_table_in_order() {
    let mut ds = Datastore::new(Uuid(1), Config::default());
    let other = TableRef::new("testns", "testdb", "other");
    let mut tx = ds.transaction();
    tx.register_live_query(&table(), LiveStatement::new(Uuid(12), Uuid(1))).unwrap();
    tx.register_live_query(&other, LiveStatement::new(Uuid(11), Uuid(1))).unwrap();
    tx.register_live_query(&table(), LiveStatement::new(Uuid(10), Uuid(2))).unwrap();
    let found: Vec<Uuid> = tx.lookup(&table()).iter().map(|s| s.id).collect();
    assert_eq!(found, vec![Uuid(12), Uuid(10)]);
    // answered from the cache, the same
    let again: Vec<Uuid> = tx.lookup(&table()).iter().map(|s| s.id).collect();
    assert_eq!(again, found);
    // a write to the registry is seen by the next lookup
    tx.deregister_live_query(Uuid(1), Uuid(12), &table());
    let after: Vec<Uuid> = tx.lookup(&table()).iter().map(|s| s.id).collect();
    assert_eq!(after, vec![Uuid(10)]);
    tx.register_live_query(&table(), LiveStatement::new(Uuid(14), Uuid(2))).unwrap();
    let last: Vec<Uuid> = tx.lookup(&table()).iter().map(|s| s.id).collect();
    assert_eq!(last, vec![Uuid(10), Uuid(14)]);
    ds.rollback(tx);
}

#[test]
fn a_commit_that_lost_the_race_meets_a_conflict() {
    let mut ds = Datastore::new(Uuid(1), Config::default());
    let mut first = ds.transaction();
    let mut second = ds.transaction();
    first.register_live_query(&table(), LiveStatement::new(Uuid(10), Uuid(1))).unwrap();
    second.register_live_query(&table(), LiveStatement::new(Uuid(11), Uuid(2))).unwrap();
    assert!(ds.commit(first).is_ok());
    assert_eq!(ds.commit(second), Err(Error::ConditionNotMet));
    assert_eq!(ds.version(), 1);
    let rows = ds.tables().scan_all_tblq(1000);
    assert_eq!(rows.len(), 1);
    assert_eq!(rows[0].stmt.id, Uuid(10));
    // what the caller of the datastore sees
    let seen = Error::ConditionNotMet.at(ds.id());
    assert_eq!(seen.kind, Error::ConflictRetryable);
    assert_eq!(seen.node, Uuid(1));
}

#[test]
fn a_transaction_that_only_read_commits_after_any_other() {
    let mut ds = Datastore::new(Uuid(1), Config::default());
    let reader = ds.transaction();
    let mut writer = ds.transaction();
    writer.set_nd(Uuid(5));
    ds.commit(writer).unwrap();
    let report = ds.commit(reader).unwrap();
    assert_eq!(report.notifications, 0);
    assert_eq!(ds.version(), 1);
    assert!(ds.tables().has_nd(Uuid(5)));
}

#[test]
fn the_datastore_reports_errors_with_its_node() {
    let ds = Datastore::new(Uuid(77), Config::default());
    let seen = ds.report(Error::ConditionNotMet);
    assert_eq!((seen.kind, seen.node), (Error::ConflictRetryable, Uuid(77)));
    let seen = ds.report(Error::TooManyLiveQueries);
    assert_eq!((seen.kind, seen.node), (Error::TooManyLiveQueries, Uuid(77)));
}
