//! Change capture, notification fan-out and delivery.

use livequery::capture::{Change, ChangeBuffer};
use livequery::datastore::Datastore;
use livequery::delivery::LiveQueryState;
use livequery::document::{Document, Scalar};
use livequery::error::Error;
use livequery::fanout::{query_drafts, tables_touched};
use livequery::filter::{Clause, Filter};
use livequery::ident::{TableRef, Uuid};
use livequery::options::Config;
use livequery::record::{Action, LiveStatement};
use livequery::tables::Tables;

fn table() -> TableRef {
    TableRef::new("testns", "testdb", "testtb")
}

fn doc(fields: &[(&str, Scalar)]) -> Document {
    let mut d = Document::new();
    for (name, value) in fields {
        d.push(name, value.clone());
    }
    d
}

fn ids(from: u128, n: u128) -> Vec<Uuid> {
    (0..n).map(|i| Uuid(from + i)).collect()
}

#[test]
fn four_changes_give_four_notifications_in_order() {
    let mut ds = Datastore::new(Uuid(1), Config::default());
    let lq = Uuid(10);
    let mut tx = ds.transaction();
    tx.register_live_query(&table(), LiveStatement::new(lq, Uuid(1))).unwrap();
    ds.commit(tx).unwrap();

    ds.tick(777).unwrap();
    let mut tx = ds.transaction();
    let r1 = doc(&[("n", Scalar::Int(1))]);
    let r1b = doc(&[("n", Scalar::Int(2))]);
    let r2 = doc(&[("n", Scalar::Int(3))]);
    tx.capture_change(&table(), "r1", Action::Create, None, Some(r1.clone()));
    tx.capture_change(&table(), "r2", Action::Create, None, Some(r2.clone()));
    tx.capture_change(&table(), "r1", Action::Update, Some(r1.clone()), Some(r1b.clone()));
    tx.capture_change(&table(), "r2", Action::Delete, Some(r2.clone()), None);
    let report = ds.commit_with(tx, &ids(500, 4)).unwrap();
    assert_eq!(report.notifications, 4);
    assert_eq!(report.slow_consumer, 0);

    assert_eq!(ds.tables().live_query_state(&table(), lq), LiveQueryState::Delivering);
    let notes = ds.drain_notifications(lq, 100).unwrap();
    let seen: Vec<(Action, &str, u128, u64)> =
        notes.iter().map(|n| (n.action, n.record.as_str(), n.id.0, n.ts)).collect();
    assert_eq!(
        seen,
        vec![
            (Action::Create, "r1", 500, 777),
            (Action::Create, "r2", 501, 777),
            (Action::Update, "r1", 502, 777),
            (Action::Delete, "r2", 503, 777),
        ]
    );
    assert_eq!(notes[2].before, Some(r1));
    assert_eq!(notes[2].after, Some(r1b));
    assert_eq!(notes[3].before, Some(r2));
    assert_eq!(notes[3].after, None);
    assert!(notes.iter().all(|n| n.lq == lq && n.table == table()));
    assert_eq!(ds.tables().live_query_state(&table(), lq), LiveQueryState::Registered);
}

#[test]
fn a_commit_with_random_ids_writes_the_same_notifications() {
    let mut ds = Datastore::new(Uuid(1), Config::default());
    let lq = Uuid(10);
    let mut tx = ds.transaction();
    tx.register_live_query(&table(), LiveStatement::new(lq, Uuid(1))).unwrap();
    tx.capture_change(&table(), "r1", Action::Create, None, Some(Document::new()));
    tx.capture_change(&table(), "r2", Action::Create, None, Some(Document::new()));
    let report = ds.commit(tx).unwrap();
    assert_eq!(report.notifications, 2);
    let notes = ds.drain_notifications(lq, 100).unwrap();
    assert_eq!(notes.len(), 2);
    assert_eq!(notes[0].record, "r1");
    assert_eq!(notes[1].record, "r2");
    assert_ne!(notes[0].id, notes[1].id);
    for n in &notes {
        // a random id tells its version and its variant
        assert_eq!(n.id.0 & 0x0000_0000_0000_f000_c000_0000_0000_0000, 0x4000_8000_0000_0000_0000);
    }
}

#[test]
fn the_same_changes_and_registry_give_the_same_notifications() {
    let mut tables = Tables::new();
    tables.register(&table(), LiveStatement::new(Uuid(10), Uuid(1))).unwrap();
    let mut filtered = LiveStatement::new(Uuid(11), Uuid(2));
    filtered.filter = Filter { clauses: vec![Clause::Equals("n".to_string(), Scalar::Int(1))] };
    tables.register(&table(), filtered).unwrap();
    let mut buffer = ChangeBuffer::new();
    buffer.capture(&table(), "r1", Action::Create, None, Some(doc(&[("n", Scalar::Int(1))])));
    buffer.capture(&table(), "r2", Action::Create, None, Some(doc(&[("n", Scalar::Int(2))])));
    let first = tables.plan_notifications(buffer.changes(), 1000).unwrap();
    // other keyspaces do not matter
    tables.set_nd(Uuid(99));
    tables.set_hb(5, Uuid(99));
    let second = tables.plan_notifications(buffer.changes(), 1000).unwrap();
    assert_eq!(first, second);
    let seen: Vec<(u128, &str)> = first.iter().map(|d| (d.lq.0, d.record.as_str())).collect();
    assert_eq!(seen, vec![(10, "r1"), (10, "r2"), (11, "r1")]);
}

#[test]
fn changes_are_grouped_by_table_in_the_order_of_first_touch() {
    let a = TableRef::new("ns", "db", "a");
    let b = TableRef::new("ns", "db", "b");
    let mut tables = Tables::new();
    tables.register(&a, LiveStatement::new(Uuid(1), Uuid(1))).unwrap();
    tables.register(&b, LiveStatement::new(Uuid(2), Uuid(1))).unwrap();
    tables.register(&a, LiveStatement::new(Uuid(3), Uuid(1))).unwrap();
    let mut buffer = ChangeBuffer::new();
    buffer.capture(&b, "b1", Action::Create, None, None);
    buffer.capture(&a, "a1", Action::Create, None, None);
    buffer.capture(&b, "b2", Action::Create, None, None);
    buffer.capture(&a, "a2", Action::Create, None, None);
    assert_eq!(tables_touched(buffer.changes()), vec![b.clone(), a.clone()]);
    let drafts = tables.plan_notifications(buffer.changes(), 1000).unwrap();
    let seen: Vec<(u128, &str)> = drafts.iter().map(|d| (d.lq.0, d.record.as_str())).collect();
    assert_eq!(seen, vec![(2, "b1"), (2, "b2"), (1, "a1"), (1, "a2"), (3, "a1"), (3, "a2")]);
}

#[test]
fn a_delete_is_matched_against_the_image_before() {
    let mut stmt = LiveStatement::new(Uuid(1), Uuid(1));
    stmt.filter = Filter { clauses: vec![Clause::Equals("n".to_string(), Scalar::Int(1))] };
    let one = doc(&[("n", Scalar::Int(1))]);
    let two = doc(&[("n", Scalar::Int(2))]);
    let changes = vec![
        Change {
            table: table(),
            record: "gone".to_string(),
            action: Action::Delete,
            before: Some(one.clone()),
            after: Some(two.clone()),
        },
        Change {
            table: table(),
            record: "changed".to_string(),
            action: Action::Update,
            before: Some(one.clone()),
            after: Some(two.clone()),
        },
        Change {
            table: table(),
            record: "made".to_string(),
            action: Action::Create,
            before: None,
            after: Some(one.clone()),
        },
        Change {
            table: table(),
            record: "bare".to_string(),
            action: Action::Delete,
            before: None,
            after: Some(one.clone()),
        },
        Change {
            table: TableRef::new("testns", "testdb", "other"),
            record: "elsewhere".to_string(),
            action: Action::Create,
            before: None,
            after: Some(one),
        },
    ];
    let drafts = query_drafts(&stmt, &table(), &changes).unwrap();
    let seen: Vec<&str> = drafts.iter().map(|d| d.record.as_str()).collect();
    assert_eq!(seen, vec!["gone", "made"]);
}

#[test]
fn filters() {
    let image = doc(&[
        ("a", Scalar::Int(1)),
        ("b", Scalar::Text("x".to_string())),
        ("a", Scalar::Int(2)),
        ("c", Scalar::Null),
    ]);
    let has = |n: &str| Clause::Has(n.to_string());
    let eq = |n: &str, v: Scalar| Clause::Equals(n.to_string(), v);
    let ne = |n: &str, v: Scalar| Clause::Differs(n.to_string(), v);
    let call = || Clause::Invoke("fn::f".to_string());
    let run = |clauses: Vec<Clause>| Filter { clauses }.evaluate(&image);

    assert_eq!(Filter::all().evaluate(&image), Ok(true));
    assert_eq!(run(vec![has("a"), has("c")]), Ok(true));
    assert_eq!(run(vec![has("d")]), Ok(false));
    // the first field of a name counts
    assert_eq!(run(vec![eq("a", Scalar::Int(1))]), Ok(true));
    assert_eq!(run(vec![eq("a", Scalar::Int(2))]), Ok(false));
    assert_eq!(run(vec![eq("b", Scalar::Text("x".to_string()))]), Ok(true));
    assert_eq!(run(vec![eq("b", Scalar::Text("y".to_string()))]), Ok(false));
    assert_eq!(run(vec![eq("c", Scalar::Null)]), Ok(true));
    assert_eq!(run(vec![eq("c", Scalar::Bool(false))]), Ok(false));
    assert_eq!(run(vec![eq("d", Scalar::Null)]), Ok(false));
    assert_eq!(run(vec![ne("d", Scalar::Null)]), Ok(true));
    assert_eq!(run(vec![ne("a", Scalar::Int(1))]), Ok(false));
    assert_eq!(run(vec![ne("a", Scalar::Int(2))]), Ok(true));
    // a clause that cannot be evaluated fails, unless an earlier clause has failed
    assert_eq!(run(vec![call()]), Err(Error::FilterEvaluation));
    assert_eq!(run(vec![has("a"), call()]), Err(Error::FilterEvaluation));
    assert_eq!(run(vec![has("d"), call()]), Ok(false));
    assert_eq!(run(vec![call(), has("d")]), Err(Error::FilterEvaluation));
    assert_eq!(call().evaluate(&image), Err(Error::FilterEvaluation));
    assert_eq!(image.get("a"), Some(&Scalar::Int(1)));
    assert_eq!(image.get("zz"), None);
}

#[test]
fn a_filter_that_cannot_be_evaluated_aborts_the_commit() {
    let mut ds = Datastore::new(Uuid(1), Config::default());
    let mut tx = ds.transaction();
    tx.register_live_query(&table(), LiveStatement::new(Uuid(10), Uuid(1))).unwrap();
    let mut broken = LiveStatement::new(Uuid(11), Uuid(1));
    broken.filter = Filter { clauses: vec![Clause::Invoke("fn::f".to_string())] };
    tx.register_live_query(&table(), broken).unwrap();
    ds.commit(tx).unwrap();

    let mut tx = ds.transaction();
    tx.set_nd(Uuid(5));
    tx.capture_change(&table(), "r1", Action::Create, None, Some(Document::new()));
    assert_eq!(ds.commit_with(tx, &ids(1, 10)), Err(Error::FilterEvaluation));
    // no notification, and no other write of the transaction, is committed
    assert!(ds.tables().scan_all_nt(1000).is_empty());
    assert!(!ds.tables().has_nd(Uuid(5)));
    assert_eq!(ds.version(), 1);

    // a change on another table never reaches the filter
    let mut tx = ds.transaction();
    tx.capture_change(&TableRef::new("testns", "testdb", "other"), "r1", Action::Create, None, None);
    assert_eq!(ds.commit_with(tx, &ids(1, 10)).unwrap().notifications, 0);
}

#[test]
fn ids_that_do_not_suffice_or_collide_abort_the_commit() {
    let mut ds = Datastore::new(Uuid(1), Config::default());
    let lq = Uuid(10);
    let mut tx = ds.transaction();
    tx.register_live_query(&table(), LiveStatement::new(lq, Uuid(1))).unwrap();
    tx.capture_change(&table(), "r1", Action::Create, None, None);
    ds.commit_with(tx, &ids(500, 1)).unwrap();

    let mut tx = ds.transaction();
    tx.capture_change(&table(), "r2", Action::Create, None, None);
    tx.capture_change(&table(), "r3", Action::Create, None, None);
    assert_eq!(ds.commit_with(tx, &ids(600, 1)), Err(Error::StorageError));

    let mut tx = ds.transaction();
    tx.capture_change(&table(), "r2", Action::Create, None, None);
    assert_eq!(ds.commit_with(tx, &ids(500, 1)), Err(Error::ConditionNotMet));

    let mut tx = ds.transaction();
    tx.capture_change(&table(), "r2", Action::Create, None, None);
    tx.capture_change(&table(), "r3", Action::Create, None, None);
    assert_eq!(ds.commit_with(tx, &vec![Uuid(7), Uuid(7)]), Err(Error::ConditionNotMet));

    assert_eq!(ds.tables().count_nt(&table(), lq), 1);
    // one commit went through: the first
    assert_eq!(ds.version(), 1);
}

#[test]
fn a_slow_consumer_is_signalled_and_still_written_to() {
    let mut config = Config::default();
    config.delivery_high_water = 2;
    let mut ds = Datastore::new(Uuid(1), config);
    let slow = Uuid(10);
    let quick = Uuid(11);
    let other = TableRef::new("testns", "testdb", "other");
    let mut tx = ds.transaction();
    tx.register_live_query(&table(), LiveStatement::new(slow, Uuid(1))).unwrap();
    tx.register_live_query(&other, LiveStatement::new(quick, Uuid(1))).unwrap();
    tx.capture_change(&table(), "r1", Action::Create, None, None);
    tx.capture_change(&table(), "r2", Action::Create, None, None);
    let report = ds.commit_with(tx, &ids(1, 2)).unwrap();
    // two wait, which the mark allows
    assert_eq!((report.notifications, report.slow_consumer), (2, 0));

    let mut tx = ds.transaction();
    tx.capture_change(&table(), "r3", Action::Create, None, None);
    tx.capture_change(&other, "o1", Action::Create, None, None);
    tx.capture_change(&table(), "r4", Action::Create, None, None);
    let report = ds.commit_with(tx, &ids(3, 3)).unwrap();
    // four wait for the slow one: both of its new notifications count
    assert_eq!((report.notifications, report.slow_consumer), (3, 2));
    assert_eq!(ds.tables().count_nt(&table(), slow), 4);
    assert_eq!(ds.tables().count_nt(&other, quick), 1);
}

#[test]
fn drain_hands_out_the_oldest_first_and_no_more_than_asked() {
    let mut ds = Datastore::new(Uuid(1), Config::default());
    let lq = Uuid(10);
    let stranger = Uuid(11);
    let mut tx = ds.transaction();
    tx.register_live_query(&table(), LiveStatement::new(lq, Uuid(1))).unwrap();
    tx.register_live_query(&table(), LiveStatement::new(stranger, Uuid(2))).unwrap();
    for r in ["r1", "r2", "r3"] {
        tx.capture_change(&table(), r, Action::Create, None, None);
    }
    ds.commit_with(tx, &ids(1, 6)).unwrap();

    let first = ds.drain_notifications(lq, 2).unwrap();
    let seen: Vec<&str> = first.iter().map(|n| n.record.as_str()).collect();
    assert_eq!(seen, vec!["r1", "r2"]);
    assert_eq!(ds.tables().count_nt(&table(), lq), 1);
    assert_eq!(ds.tables().count_nt(&table(), stranger), 3);

    assert!(ds.drain_notifications(lq, 0).unwrap().is_empty());
    let rest = ds.drain_notifications(lq, 2).unwrap();
    assert_eq!(rest.len(), 1);
    assert_eq!(rest[0].record, "r3");
    assert!(ds.drain_notifications(lq, 2).unwrap().is_empty());

    // a live query of another node, or none at all, is not found here
    assert_eq!(ds.drain_notifications(stranger, 2), Err(Error::LiveQueryNotFound));
    assert_eq!(ds.drain_notifications(Uuid(12), 2), Err(Error::LiveQueryNotFound));
    assert_eq!(ds.tables().count_nt(&table(), stranger), 3);
}

#[test]
fn the_states_of_a_live_query() {
    let mut ds = Datastore::new(Uuid(1), Config::default());
    let lq = Uuid(10);
    assert_eq!(ds.tables().live_query_state(&table(), lq), LiveQueryState::Nonexistent);
    let mut tx = ds.transaction();
    tx.register_live_query(&table(), LiveStatement::new(lq, Uuid(1))).unwrap();
    ds.commit(tx).unwrap();
    assert_eq!(ds.tables().live_query_state(&table(), lq), LiveQueryState::Registered);
    let mut tx = ds.transaction();
    tx.capture_change(&table(), "r1", Action::Create, None, None);
    ds.commit(tx).unwrap();
    assert_eq!(ds.tables().live_query_state(&table(), lq), LiveQueryState::Delivering);
    ds.drain_notifications(lq, 10).unwrap();
    assert_eq!(ds.tables().live_query_state(&table(), lq), LiveQueryState::Registered);
    let mut tx = ds.transaction();
    tx.deregister_live_query(Uuid(1), lq, &table());
    ds.commit(tx).unwrap();
    assert_eq!(ds.tables().live_query_state(&table(), lq), LiveQueryState::Nonexistent);
}

#[test]
fn the_change_buffer_keeps_the_order_and_is_emptied_by_a_drain() {
    let mut buffer = ChangeBuffer::new();
    assert_eq!(buffer.len(), 0);
    buffer.capture(&table(), "r1", Action::Create, None, Some(Document::new()));
    buffer.capture(&table(), "r2", Action::Update, Some(Document::new()), None);
    assert_eq!(buffer.len(), 2);
    let copy = buffer.snapshot();
    let out = buffer.drain();
    assert_eq!(buffer.len(), 0);
    assert_eq!(out.len(), 2);
    assert_eq!((out[0].record.as_str(), out[0].action), ("r1", Action::Create));
    assert_eq!((out[1].record.as_str(), out[1].action), ("r2", Action::Update));
    assert_eq!(copy.changes(), &out);
    assert_eq!(out[0].image(), Document::new());
}

#[test]
fn a_rolled_back_transaction_leaves_no_notification() {
    let mut ds = Datastore::new(Uuid(1), Config::default());
    let mut tx = ds.transaction();
    tx.register_live_query(&table(), LiveStatement::new(Uuid(10), Uuid(1))).unwrap();
    ds.commit(tx).unwrap();
    let mut tx = ds.transaction();
    tx.capture_change(&table(), "r1", Action::Create, None, None);
    ds.rollback(tx);
    assert!(ds.tables().scan_all_nt(1000).is_empty());
    assert_eq!(ds.version(), 1);
}
