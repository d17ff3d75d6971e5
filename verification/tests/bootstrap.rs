//! Opening a datastore repairs the bookkeeping: records that a vanished
//! node left behind go, and a valid chain of records stays.

use livequery::datastore::Datastore;
use livequery::document::Document;
use livequery::error::Error;
use livequery::ident::{TableRef, Uuid};
use livequery::options::Config;
use livequery::record::{Action, Check, LiveStatement, Notification};
use livequery::transaction::Transaction;

const NOW: u64 = 1_000_000;

/// A chain of records that opening the datastore must leave alone.
#[derive(Debug, Clone)]
struct ValidNotificationState {
    pub timestamp: Option<u64>,
    pub node_id: Option<Uuid>,
    pub live_query_id: Option<Uuid>,
    pub notification_id: Option<Uuid>,
    pub namespace: String,
    pub database: String,
    pub table: String,
}

fn table_of(state: &ValidNotificationState) -> TableRef {
    TableRef::new(&state.namespace, &state.database, &state.table)
}

fn defaults() -> ValidNotificationState {
    ValidNotificationState {
        timestamp: None,
        node_id: None,
        live_query_id: None,
        notification_id: None,
        namespace: "testns".to_string(),
        database: "testdb".to_string(),
        table: "testtb".to_string(),
    }
}

/// Writes a heartbeat, a node, and both halves of a registration.
fn a_valid_notification(
    tx: &mut Transaction,
    args: ValidNotificationState,
) -> Result<ValidNotificationState, Error> {
    let default_node_id = Uuid::parse_str("123e9d92-c975-4daf-8080-3082e83cfa9b").unwrap();
    let default_lq_id = Uuid::parse_str("ca02c2d0-31dd-4bf0-ada4-ee02b1191e0a").unwrap();
    let default_not_id = Uuid::parse_str("c952cf7d-b503-4370-802e-cd2404f2160d").unwrap();
    let entry = ValidNotificationState {
        timestamp: Some(args.timestamp.unwrap_or(NOW)),
        node_id: Some(args.node_id.unwrap_or(default_node_id)),
        live_query_id: Some(args.live_query_id.unwrap_or(default_lq_id)),
        notification_id: Some(args.notification_id.unwrap_or(default_not_id)),
        ..args
    };
    let table = table_of(&entry);
    let live_stm = LiveStatement::new(entry.live_query_id.unwrap(), entry.node_id.unwrap());
    tx.set_hb(entry.timestamp.unwrap(), entry.node_id.unwrap());
    tx.set_nd(entry.node_id.unwrap());
    tx.putc_ndlq(entry.node_id.unwrap(), entry.live_query_id.unwrap(), &table, None)?;
    tx.putc_tblq(&table, live_stm, None)?;
    Ok(entry)
}

fn new_ds() -> Datastore {
    Datastore::new(Uuid::random(), Config::default())
}

#[test]
fn bootstrap_removes_unreachable_nodes() {
    let mut dbs = new_ds();
    let mut tx = dbs.transaction();
    let bad_node = Uuid::parse_str("9d8e16e4-9f6a-4704-8cf1-7cd55b937c5b").unwrap();
    tx.set_nd(bad_node);
    a_valid_notification(&mut tx, defaults()).unwrap();
    dbs.commit(tx).unwrap();

    dbs.bootstrap(NOW, 1000).unwrap();

    let res = dbs.tables().scan_nd(1000);
    for node in &res {
        assert_ne!(
            node.name(),
            bad_node.to_text(),
            "The node name was actually the bad node {:?}",
            bad_node
        );
    }
    assert_eq!(res.len(), 2, "Expected 2 nodes");
    let ids: Vec<Uuid> = res.iter().map(|n| n.id).collect();
    assert!(ids.contains(&dbs.id()));
    assert!(ids.contains(&Uuid(0x123e9d92_c975_4daf_8080_3082e83cfa9b)));
}

#[test]
fn bootstrap_removes_unreachable_node_live_queries() {
    let mut dbs = new_ds();
    let mut tx = dbs.transaction();
    let valid_data = a_valid_notification(&mut tx, defaults()).unwrap();
    let bad_nd_lq_id = Uuid::parse_str("67b0f588-2b95-4b6e-87f3-73d0a49034be").unwrap();
    tx.putc_ndlq(valid_data.node_id.unwrap(), bad_nd_lq_id, &table_of(&valid_data), None)
        .unwrap();
    dbs.commit(tx).unwrap();

    dbs.bootstrap(NOW, 1000).unwrap();

    let res = dbs.tables().scan_ndlq(valid_data.node_id.unwrap(), 1000);
    assert_eq!(res.len(), 1, "We expect the node to be available");
    let tested_entry = res.get(0).unwrap();
    assert_eq!(tested_entry.lq, valid_data.live_query_id.unwrap());
    assert_eq!(tested_entry.lq, Uuid(0xca02c2d0_31dd_4bf0_ada4_ee02b1191e0a));
}

#[test]
fn bootstrap_removes_unreachable_table_live_queries() {
    let mut dbs = new_ds();
    let mut tx = dbs.transaction();
    let valid_data = a_valid_notification(&mut tx, defaults()).unwrap();
    let bad_tb_lq_id = Uuid::parse_str("97b8fbe4-a147-4420-95dc-97db3a46c491").unwrap();
    let live_stm = LiveStatement::new(bad_tb_lq_id, valid_data.node_id.unwrap());
    tx.putc_tblq(&table_of(&valid_data), live_stm, None).unwrap();
    dbs.commit(tx).unwrap();

    dbs.bootstrap(NOW, 1000).unwrap();

    let res = dbs.tables().scan_tblq(&table_of(&valid_data), 1000);
    assert_eq!(res.len(), 1, "Expected 1 table live query: {:?}", res);
    let tested_entry = res.get(0).unwrap();
    assert_eq!(tested_entry.stmt.id, valid_data.live_query_id.unwrap());
    assert_eq!(tested_entry.stmt.id, Uuid(0xca02c2d0_31dd_4bf0_ada4_ee02b1191e0a));
}

fn note(table: &TableRef, lq: Uuid, id: Uuid, record: &str) -> Notification {
    Notification {
        table: table.clone(),
        lq,
        id,
        action: Action::Create,
        record: record.to_string(),
        before: None,
        after: Some(Document::new()),
        ts: NOW,
    }
}

#[test]
fn bootstrap_removes_unreachable_live_query_notifications() {
    let mut dbs = new_ds();
    let mut tx = dbs.transaction();
    let valid_data = a_valid_notification(&mut tx, defaults()).unwrap();
    let table = table_of(&valid_data);
    let kept = valid_data.notification_id.unwrap();
    tx.put_nt(note(&table, valid_data.live_query_id.unwrap(), kept, "r1")).unwrap();
    let unknown_lq = Uuid(0x0f0f);
    tx.put_nt(note(&table, unknown_lq, Uuid(1), "r2")).unwrap();
    tx.put_nt(note(&table, unknown_lq, Uuid(2), "r3")).unwrap();
    dbs.commit(tx).unwrap();

    // One orphan may go in this run: the older one goes, the run is not complete.
    assert_eq!(dbs.bootstrap(NOW, 1), Ok(false));
    let left = dbs.tables().scan_all_nt(1000);
    assert_eq!(left.len(), 2);
    assert_eq!(left[0].id, kept);
    assert_eq!(left[1].id, Uuid(2));

    // The next run takes the rest.
    assert_eq!(dbs.bootstrap(NOW + 1, 1), Ok(true));
    let left = dbs.tables().scan_all_nt(1000);
    assert_eq!(left.len(), 1);
    assert_eq!(left[0].id, kept);
    assert_eq!(left[0].id, Uuid(0xc952cf7d_b503_4370_802e_cd2404f2160d));
}

#[test]
fn bootstrap_keeps_a_node_with_an_old_and_a_recent_heartbeat() {
    let mut dbs = new_ds();
    let mut tx = dbs.transaction();
    let node = Uuid(7);
    tx.set_nd(node);
    tx.set_hb(10, node);
    tx.set_hb(NOW - 29_999, node);
    dbs.commit(tx).unwrap();
    dbs.bootstrap(NOW, 1000).unwrap();
    let ids: Vec<Uuid> = dbs.tables().scan_nd(1000).iter().map(|n| n.id).collect();
    assert!(ids.contains(&node));
}

#[test]
fn bootstrap_removes_a_node_whose_heartbeat_is_exactly_one_window_old() {
    let mut dbs = new_ds();
    let mut tx = dbs.transaction();
    let node = Uuid(7);
    tx.set_nd(node);
    tx.set_hb(NOW - 30_000, node);
    dbs.commit(tx).unwrap();
    dbs.bootstrap(NOW, 1000).unwrap();
    let ids: Vec<Uuid> = dbs.tables().scan_nd(1000).iter().map(|n| n.id).collect();
    assert_eq!(ids, vec![dbs.id()]);
    // Heartbeats are left to the node that wrote them.
    assert_eq!(dbs.tables().scan_hb(u64::MAX, 1000).len(), 2);
}

#[test]
fn bootstrap_takes_everything_of_a_dead_node() {
    let mut dbs = new_ds();
    let mut tx = dbs.transaction();
    let dead = Uuid(0xdead);
    let table = TableRef::new("testns", "testdb", "testtb");
    tx.set_nd(dead);
    tx.putc_ndlq(dead, Uuid(1), &table, None).unwrap();
    tx.putc_tblq(&table, LiveStatement::new(Uuid(1), dead), None).unwrap();
    tx.putc_ndlq(dead, Uuid(2), &table, None).unwrap();
    tx.putc_tblq(&table, LiveStatement::new(Uuid(2), dead), None).unwrap();
    let valid = a_valid_notification(&mut tx, defaults()).unwrap();
    dbs.commit(tx).unwrap();

    assert_eq!(dbs.bootstrap(NOW, 1000), Ok(true));

    assert!(dbs.tables().scan_ndlq(dead, 1000).is_empty());
    let all = dbs.tables().scan_all_ndlq(1000);
    assert_eq!(all.len(), 1);
    assert_eq!(all[0].node, valid.node_id.unwrap());
    let rows = dbs.tables().scan_all_tblq(1000);
    assert_eq!(rows.len(), 1);
    assert_eq!(rows[0].stmt.node, valid.node_id.unwrap());
}

#[test]
fn gc_does_not_clobber_a_registration_that_moved_to_another_node() {
    // Node A died; node A2 registered the same live query on the same table again.
    let mut dbs = new_ds();
    let a = Uuid(0xa);
    let a2 = Uuid(0xa2);
    let lq = Uuid(0x11);
    let table = TableRef::new("testns", "testdb", "testtb");
    let mut tx = dbs.transaction();
    tx.set_nd(a);
    tx.putc_ndlq(a, lq, &table, None).unwrap();
    tx.set_nd(a2);
    tx.set_hb(NOW, a2);
    tx.putc_ndlq(a2, lq, &table, None).unwrap();
    tx.putc_tblq(&table, LiveStatement::new(lq, a2), None).unwrap();
    dbs.commit(tx).unwrap();

    // The delete that the collector tries for A meets the other owner.
    let mut probe = dbs.transaction();
    assert_eq!(
        probe.del_tblq(&table, lq, Some(Check::Equals(a))),
        Err(Error::ConditionNotMet)
    );
    dbs.rollback(probe);

    assert_eq!(dbs.bootstrap(NOW, 1000), Ok(true));

    let rows = dbs.tables().scan_tblq(&table, 1000);
    assert_eq!(rows.len(), 1);
    assert_eq!(rows[0].stmt.node, a2);
    let halves = dbs.tables().scan_ndlq(a2, 1000);
    assert_eq!(halves.len(), 1);
    assert_eq!(halves[0].lq, lq);
    assert!(dbs.tables().scan_ndlq(a, 1000).is_empty());
    assert!(!dbs.tables().has_nd(a));
    assert!(dbs.tables().has_nd(a2));
}

#[test]
fn after_bootstrap_the_bookkeeping_agrees() {
    let mut dbs = new_ds();
    let table = TableRef::new("ns", "db", "tb");
    let other = TableRef::new("ns", "db", "other");
    let mut tx = dbs.transaction();
    // alive and complete
    tx.set_nd(Uuid(1));
    tx.set_hb(NOW, Uuid(1));
    tx.putc_ndlq(Uuid(1), Uuid(101), &table, None).unwrap();
    tx.putc_tblq(&table, LiveStatement::new(Uuid(101), Uuid(1)), None).unwrap();
    // alive, half pointing at another table than the other half
    tx.putc_ndlq(Uuid(1), Uuid(102), &other, None).unwrap();
    tx.putc_tblq(&table, LiveStatement::new(Uuid(102), Uuid(1)), None).unwrap();
    // dead with both halves
    tx.set_nd(Uuid(2));
    tx.set_hb(5, Uuid(2));
    tx.putc_ndlq(Uuid(2), Uuid(201), &table, None).unwrap();
    tx.putc_tblq(&table, LiveStatement::new(Uuid(201), Uuid(2)), None).unwrap();
    // no record, not alive, with both halves
    tx.putc_ndlq(Uuid(3), Uuid(301), &other, None).unwrap();
    tx.putc_tblq(&other, LiveStatement::new(Uuid(301), Uuid(3)), None).unwrap();
    // notifications: one for a live query that stays, one for one that goes
    tx.put_nt(note(&table, Uuid(101), Uuid(9001), "r")).unwrap();
    tx.put_nt(note(&table, Uuid(201), Uuid(9002), "r")).unwrap();
    dbs.commit(tx).unwrap();

    assert_eq!(dbs.bootstrap(NOW, 1000), Ok(true));

    let tables = dbs.tables();
    let halves = tables.scan_all_ndlq(1000);
    let rows = tables.scan_all_tblq(1000);
    let notes = tables.scan_all_nt(1000);
    assert_eq!(halves.len(), 1);
    assert_eq!(rows.len(), 1);
    assert_eq!(notes.len(), 1);
    for half in &halves {
        let stmt = tables.get_tblq(&half.table, half.lq).expect("a table live query");
        assert_eq!(stmt.node, half.node);
    }
    for row in &rows {
        assert_eq!(tables.get_ndlq(row.stmt.node, row.stmt.id), Some(&row.table));
        assert!(tables.has_nd(row.stmt.node));
    }
    for n in &notes {
        assert!(tables.get_tblq(&n.table, n.lq).is_some());
    }
    assert_eq!(notes[0].id, Uuid(9001));
}

#[test]
fn bootstrap_refuses_a_clock_that_ran_backwards() {
    let mut dbs = new_ds();
    assert_eq!(dbs.bootstrap(NOW, 1000), Ok(true));
    assert_eq!(dbs.bootstrap(NOW - 30_001, 1000), Err(Error::FatalStorage));
    // within the window the clock holds its time
    assert_eq!(dbs.bootstrap(NOW - 30_000, 1000), Ok(true));
    assert_eq!(dbs.now(), NOW);
}

#[test]
fn a_page_of_no_records_reads_nothing() {
    let mut config = Config::default();
    config.engine.live_query_catchup_size = 0;
    let mut dbs = Datastore::new(Uuid(1), config);
    let mut tx = dbs.transaction();
    tx.set_nd(Uuid(2));
    dbs.commit(tx).unwrap();
    assert_eq!(dbs.bootstrap(NOW, 1000), Ok(false));
    assert!(dbs.tables().has_nd(Uuid(2)));
    assert!(dbs.tables().scan_nd(0).is_empty());
    assert_eq!(dbs.tables().scan_nd(1).len(), 2);
}

#[test]
fn two_collectors_race_for_the_same_dead_node() {
    let mut dbs = new_ds();
    let dead = Uuid(0xdead);
    let table = TableRef::new("testns", "testdb", "testtb");
    let mut tx = dbs.transaction();
    tx.set_nd(dead);
    tx.putc_ndlq(dead, Uuid(1), &table, None).unwrap();
    tx.putc_tblq(&table, LiveStatement::new(Uuid(1), dead), None).unwrap();
    dbs.commit(tx).unwrap();

    let mut first = dbs.transaction();
    let mut second = dbs.transaction();
    assert!(first.collect(Uuid(1), NOW, 30_000, 10));
    assert!(second.collect(Uuid(2), NOW, 30_000, 10));
    // the one that commits first wins
    assert!(dbs.commit(first).is_ok());
    assert_eq!(dbs.commit(second), Err(Error::ConditionNotMet));
    assert!(!dbs.tables().has_nd(dead));
    // the loser starts again and finds the keys removed
    let mut again = dbs.transaction();
    assert_eq!(again.del_tblq(&table, Uuid(1), Some(Check::Equals(dead))), Err(Error::ConditionNotMet));
    assert!(again.collect(Uuid(2), NOW, 30_000, 10));
    assert!(dbs.commit(again).is_ok());
    assert!(dbs.tables().scan_all_tblq(10).is_empty());
    assert!(dbs.tables().scan_all_ndlq(10).is_empty());
}

#[test]
fn a_second_run_of_the_collector_keeps_what_the_first_kept() {
    let mut dbs = new_ds();
    let mut tx = dbs.transaction();
    tx.set_nd(Uuid(0xdead));
    a_valid_notification(&mut tx, defaults()).unwrap();
    dbs.commit(tx).unwrap();
    dbs.bootstrap(NOW, 1000).unwrap();
    let nodes = dbs.tables().scan_nd(10);
    let halves = dbs.tables().scan_all_ndlq(10);
    let rows = dbs.tables().scan_all_tblq(10);
    dbs.bootstrap(NOW, 1000).unwrap();
    assert_eq!(dbs.tables().scan_nd(10), nodes);
    assert_eq!(dbs.tables().scan_all_ndlq(10), halves);
    assert_eq!(dbs.tables().scan_all_tblq(10), rows);
}
