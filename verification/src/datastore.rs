//! The datastore of one node: the committed store, the version that
//! commits count, and the clock of the node.

use vstd::prelude::*;
use crate::catalog::{Catalog, CatalogView};
use crate::clock::Clock;
use crate::delivery::{after_delivery, delivered, pending};
use crate::error::{Error, NodeError, surfaced};
use crate::fanout::{Draft, DraftView, fanout, stamp_all};
use crate::gc::{collected, live_set, no_orphan_notifications};
use crate::heartbeat::after_beat;
use crate::ident::{Uuid, VERSION_MASK, VERSION_RANDOM};
use crate::options::Config;
use crate::record::{Heartbeat, Node, Notification};
use crate::seqs::{
    distinct_by, Duplicate, find_first, lemma_filter_take, lemma_take_ends, upsert, views_of,
};
use crate::tables::{heartbeat_is, node_is, nt_key, State, Tables};
use crate::transaction::{Transaction, TransactionView};

verus! {

/// What a datastore is made of.
pub struct DatastoreView {
    /// The node that the datastore runs on.
    pub id: Uuid,
    /// The configuration.
    pub config: Config,
    /// The committed store.
    pub state: State,
    /// The committed definitions.
    pub catalog: CatalogView,
    /// The number of commits that wrote to the store.
    pub version: u64,
    /// The latest timestamp of the clock.
    pub now: u64,
}

/// What a commit tells its caller.
#[derive(Clone, Copy, Debug, PartialEq, Eq, Structural)]
pub struct CommitReport {
    /// The number of notifications that the commit wrote.
    pub notifications: usize,
    /// The number of these that went to a live query for which, after the
    /// commit, more notifications wait than the high-water mark allows.
    pub slow_consumer: usize,
}

/// The datastore of one node.
pub struct Datastore {
    id: Uuid,
    config: Config,
    tables: Tables,
    catalog: Catalog,
    version: u64,
    clock: Clock,
}

impl View for Datastore {
    type V = DatastoreView;

    closed spec fn view(&self) -> DatastoreView {
        DatastoreView {
            id: self.id,
            config: self.config,
            state: self.tables@,
            catalog: self.catalog@,
            version: self.version,
            now: self.clock.last(),
        }
    }
}

/// The transaction that starts on a datastore.
pub open spec fn started(d: DatastoreView) -> TransactionView {
    TransactionView {
        base: d.version,
        state: d.state,
        catalog: d.catalog,
        changes: Seq::empty(),
        registered: 0,
        cap: d.config.engine.new_live_queries_per_transaction,
        page: d.config.engine.live_query_catchup_size,
        failure: None,
        dirty: false,
        cached: Seq::empty(),
    }
}

/// Whether a transaction has anything to commit.
pub open spec fn writes(t: TransactionView) -> bool {
    t.dirty || t.changes.len() > 0
}

/// What a commit does. A transaction that was aborted fails with the error
/// that aborted it. One that has nothing to commit succeeds and changes
/// nothing. One that started from another version than the datastore has
/// now meets a conflict. Otherwise the notifications of its changes are
/// worked out, given the ids `ids` in order and the time `now`, and written
/// behind those that are stored; the store of the transaction with these
/// becomes the committed store.
pub open spec fn committed(d: DatastoreView, t: TransactionView, ids: Seq<Uuid>) -> Result<
    State,
    Error,
> {
    if t.failure.is_some() {
        Err(t.failure.unwrap())
    } else if !writes(t) {
        Ok(d.state)
    } else if t.base != d.version {
        Err(Error::ConditionNotMet)
    } else if d.version == u64::MAX {
        Err(Error::StorageError)
    } else {
        match fanout(t.state, t.changes, t.page) {
            None => Err(Error::FilterEvaluation),
            Some(drafts) => if ids.len() < drafts.len() {
                Err(Error::StorageError)
            } else if !distinct_by(
                t.state.notifications + stamp_all(drafts, ids, d.now),
                nt_key(),
            ) {
                Err(Error::ConditionNotMet)
            } else {
                Ok(
                    State {
                        notifications: t.state.notifications + stamp_all(drafts, ids, d.now),
                        ..t.state
                    },
                )
            },
        }
    }
}

/// Whether `ids` are `n` ids that were drawn at random: each carries the
/// version and the variant of a random id.
pub open spec fn drawn(ids: Seq<Uuid>, n: nat) -> bool {
    ids.len() == n && forall|k: int|
        0 <= k < ids.len() ==> (#[trigger] ids[k]).0 & VERSION_MASK == VERSION_RANDOM
}

/// The number of notifications that a commit wrote.
pub open spec fn written(t: TransactionView) -> nat {
    if t.failure.is_none() && writes(t) && fanout(t.state, t.changes, t.page).is_some() {
        fanout(t.state, t.changes, t.page).unwrap().len()
    } else {
        0
    }
}

/// Selects the notifications for live queries for which more than `mark`
/// notifications wait in the store `s`.
pub open spec fn goes_to_slow(s: State, mark: u32) -> spec_fn(DraftView) -> bool {
    |d: DraftView| pending(s, d.table, d.lq).len() > mark
}

/// The number of written notifications that went to a slow consumer.
pub open spec fn slow_signals(t: TransactionView, after: State, mark: u32) -> nat {
    if t.failure.is_none() && writes(t) && fanout(t.state, t.changes, t.page).is_some() {
        fanout(t.state, t.changes, t.page).unwrap().filter(goes_to_slow(after, mark)).len()
    } else {
        0
    }
}

/// The store after the node `me` has entered itself at `now` and the
/// collector has run.
pub open spec fn bootstrapped(s: State, me: Uuid, now: u64, window: u64, page: u32, cap: u32) -> State {
    let entered = State {
        nodes: upsert(s.nodes, node_is(me), Node { id: me }),
        heartbeats: upsert(s.heartbeats, heartbeat_is(now, me), Heartbeat { ts: now, node: me }),
        ..s
    };
    if page == 0 {
        entered
    } else {
        collected(entered, live_set(entered, me, now, window), cap as nat)
    }
}

impl Datastore {
    /// The committed store holds no two records under one key.
    pub closed spec fn wf(&self) -> bool {
        self.tables.wf() && self.catalog.wf()
    }

    /// In a datastore that is well formed the committed store holds no two
    /// records under one key.
    pub proof fn lemma_wf(&self)
        requires
            self.wf(),
        ensures
            self@.state.wf(),
            self@.catalog.wf(),
    {
    }

    /// An empty datastore for the node `id`.
    pub fn new(id: Uuid, config: Config) -> (ds: Self)
        ensures
            ds.wf(),
            ds@ == (DatastoreView {
                id,
                config,
                state: State::empty(),
                catalog: CatalogView::empty(),
                version: 0,
                now: 0,
            }),
    {
        Datastore {
            id,
            config,
            tables: Tables::new(),
            catalog: Catalog::new(),
            version: 0,
            clock: Clock::new(),
        }
    }

    /// The committed definitions, for reading.
    pub fn catalog(&self) -> (catalog: &Catalog)
        ensures
            catalog@ == self@.catalog,
            self.wf() ==> catalog.wf(),
    {
        &self.catalog
    }

    /// The node that the datastore runs on.
    pub fn id(&self) -> (id: Uuid)
        ensures
            id == self@.id,
    {
        self.id
    }

    /// The configuration.
    pub fn config(&self) -> (config: Config)
        ensures
            config == self@.config,
    {
        self.config
    }

    /// The number of commits that wrote to the store.
    pub fn version(&self) -> (version: u64)
        ensures
            version == self@.version,
    {
        self.version
    }

    /// The latest timestamp of the clock.
    pub fn now(&self) -> (now: u64)
        ensures
            now == self@.now,
    {
        self.clock.latest()
    }

    /// The committed store, for reading.
    pub fn tables(&self) -> (tables: &Tables)
        ensures
            tables@ == self@.state,
            self.wf() ==> tables.wf(),
    {
        &self.tables
    }

    /// An error as the caller of the datastore sees it: a conflict that was
    /// not resolved is reported as retryable, and the error carries the node
    /// that it arose on.
    pub fn report(&self, e: Error) -> (seen: NodeError)
        ensures
            seen == (NodeError { kind: surfaced(e), node: self@.id }),
    {
        e.at(self.id)
    }

    /// Feeds the clock with a reading of the source of time. A reading that
    /// lies more than a liveness window before the latest timestamp is
    /// refused.
    pub fn tick(&mut self, reading: u64) -> (now: Result<u64, Error>)
        requires
            old(self).wf(),
        ensures
            final(self).wf(),
            match now {
                Ok(ts) => {
                    &&& reading + old(self)@.config.liveness_window >= old(self)@.now
                    &&& ts == if reading >= old(self)@.now {
                        reading
                    } else {
                        old(self)@.now
                    }
                    &&& final(self)@ == (DatastoreView { now: ts, ..old(self)@ })
                },
                Err(e) => {
                    &&& e == Error::FatalStorage
                    &&& reading + old(self)@.config.liveness_window < old(self)@.now
                    &&& final(self)@ == old(self)@
                },
            },
    {
        self.clock.observe(reading, self.config.liveness_window)
    }

    /// Starts a transaction on a copy of the committed store.
    pub fn transaction(&self) -> (txn: Transaction)
        requires
            self.wf(),
        ensures
            txn.wf(),
            txn@ == started(self@),
    {
        Transaction::begin(
            self.tables.snapshot(),
            self.catalog.snapshot(),
            self.version,
            self.config.engine.new_live_queries_per_transaction,
            self.config.engine.live_query_catchup_size,
        )
    }

    /// Gives a transaction up. Nothing of it reaches the committed store.
    pub fn rollback(&mut self, txn: Transaction)
        ensures
            final(self)@ == old(self)@,
            old(self).wf() ==> final(self).wf(),
    {
    }

    fn prepare(&self, txn: &Transaction) -> (plan: Result<Option<Vec<Draft>>, Error>)
        requires
            self.wf(),
            txn.wf(),
        ensures
            match plan {
                Ok(None) => txn@.failure.is_none() && !writes(txn@),
                Ok(Some(drafts)) => {
                    &&& txn@.failure.is_none()
                    &&& writes(txn@)
                    &&& txn@.base == self@.version
                    &&& self@.version < u64::MAX
                    &&& fanout(txn@.state, txn@.changes, txn@.page) == Some(views_of(drafts@))
                },
                Err(e) => forall|ids: Seq<Uuid>| committed(self@, txn@, ids) == Err::<State, Error>(e),
            },
    {
        match txn.failure() {
            Some(e) => {
                return Err(e);
            },
            None => {},
        }
        if !txn.writes() {
            return Ok(None);
        }
        if txn.base() != self.version {
            return Err(Error::ConditionNotMet);
        }
        if self.version == u64::MAX {
            return Err(Error::StorageError);
        }
        match txn.tables().plan_notifications(txn.buffer().changes(), txn.page()) {
            Ok(drafts) => Ok(Some(drafts)),
            Err(e) => Err(e),
        }
    }

    fn count_slow(&self, drafts: &Vec<Draft>) -> (n: usize)
        ensures
            n == views_of(drafts@).filter(
                goes_to_slow(self@.state, self@.config.delivery_high_water),
            ).len(),
    {
        let ghost slow = goes_to_slow(self@.state, self@.config.delivery_high_water);
        let ghost all = views_of(drafts@);
        let mut n: usize = 0;
        let mut i: usize = 0;
        proof {
            lemma_take_ends(all, slow);
        }
        while i < drafts.len()
            invariant
                i <= drafts.len(),
                n <= i,
                all == views_of(drafts@),
                slow == goes_to_slow(self@.state, self@.config.delivery_high_water),
                n == all.take(i as int).filter(slow).len(),
            decreases drafts.len() - i,
        {
            proof {
                lemma_filter_take(all, slow, i as int);
            }
            let waiting = self.tables.count_nt(&drafts[i].table, drafts[i].lq);
            if waiting > self.config.delivery_high_water as usize {
                n += 1;
            }
            i += 1;
        }
        proof {
            lemma_take_ends(all, slow);
        }
        n
    }

    fn apply(&mut self, txn: Transaction, drafts: &Vec<Draft>, ids: &Vec<Uuid>) -> (done: Result<
        CommitReport,
        Error,
    >)
        requires
            old(self).wf(),
            txn.wf(),
            txn@.failure.is_none(),
            writes(txn@),
            txn@.base == old(self)@.version,
            old(self)@.version < u64::MAX,
            fanout(txn@.state, txn@.changes, txn@.page) == Some(views_of(drafts@)),
        ensures
            final(self).wf(),
            match (done, committed(old(self)@, txn@, ids@)) {
                (Ok(report), Ok(after)) => {
                    &&& final(self)@ == (DatastoreView {
                        state: after,
                        catalog: txn@.catalog,
                        version: (old(self)@.version + 1) as u64,
                        ..old(self)@
                    })
                    &&& report.notifications == written(txn@)
                    &&& report.slow_consumer == slow_signals(
                        txn@,
                        after,
                        old(self)@.config.delivery_high_water,
                    )
                },
                (Err(e), Err(expected)) => e == expected && final(self)@ == old(self)@,
                _ => false,
            },
    {
        let (mut tables, catalog, _buffer) = txn.into_parts();
        match tables.publish(drafts, ids, self.clock.latest()) {
            Ok(()) => {},
            Err(e) => {
                return Err(e);
            },
        }
        self.tables = tables;
        self.catalog = catalog;
        self.version = self.version + 1;
        let slow = self.count_slow(drafts);
        Ok(CommitReport { notifications: drafts.len(), slow_consumer: slow })
    }

    /// Commits a transaction, giving the notifications that it writes the
    /// ids `ids`, in order. On an error the committed store stays as it is.
    pub fn commit_with(&mut self, txn: Transaction, ids: &Vec<Uuid>) -> (done: Result<
        CommitReport,
        Error,
    >)
        requires
            old(self).wf(),
            txn.wf(),
        ensures
            final(self).wf(),
            match (done, committed(old(self)@, txn@, ids@)) {
                (Ok(report), Ok(after)) => {
                    &&& final(self)@ == (DatastoreView {
                        state: after,
                        catalog: if writes(txn@) {
                            txn@.catalog
                        } else {
                            old(self)@.catalog
                        },
                        version: if writes(txn@) {
                            (old(self)@.version + 1) as u64
                        } else {
                            old(self)@.version
                        },
                        ..old(self)@
                    })
                    &&& report.notifications == written(txn@)
                    &&& report.slow_consumer == slow_signals(
                        txn@,
                        after,
                        old(self)@.config.delivery_high_water,
                    )
                },
                (Err(e), Err(expected)) => e == expected && final(self)@ == old(self)@,
                _ => false,
            },
    {
        match self.prepare(&txn) {
            Err(e) => Err(e),
            Ok(None) => Ok(CommitReport { notifications: 0, slow_consumer: 0 }),
            Ok(Some(drafts)) => self.apply(txn, &drafts, ids),
        }
    }

    /// Commits a transaction, giving each notification that it writes a
    /// random id. As many ids are drawn as notifications are to be written,
    /// and what happens is what `commit_with` does with these ids.
    pub fn commit(&mut self, txn: Transaction) -> (done: Result<CommitReport, Error>)
        requires
            old(self).wf(),
            txn.wf(),
        ensures
            final(self).wf(),
            exists|ids: Seq<Uuid>|
                drawn(ids, written(txn@)) && match (
                    done,
                    #[trigger] committed(old(self)@, txn@, ids),
                ) {
                    (Ok(report), Ok(after)) => {
                        &&& final(self)@ == (DatastoreView {
                            state: after,
                            catalog: if writes(txn@) {
                                txn@.catalog
                            } else {
                                old(self)@.catalog
                            },
                            version: if writes(txn@) {
                                (old(self)@.version + 1) as u64
                            } else {
                                old(self)@.version
                            },
                            ..old(self)@
                        })
                        &&& report.notifications == written(txn@)
                        &&& report.slow_consumer == slow_signals(
                            txn@,
                            after,
                            old(self)@.config.delivery_high_water,
                        )
                    },
                    (Err(e), Err(expected)) => e == expected && final(self)@ == old(self)@,
                    _ => false,
                },
    {
        let ghost unused = Seq::new(written(txn@), |k: int| Uuid(VERSION_RANDOM));
        proof {
            assert(VERSION_RANDOM & VERSION_MASK == VERSION_RANDOM) by (bit_vector);
            assert(drawn(unused, written(txn@)));
        }
        match self.prepare(&txn) {
            Err(e) => {
                assert(committed(self@, txn@, unused) == Err::<State, Error>(e));
                Err(e)
            },
            Ok(None) => {
                assert(committed(self@, txn@, unused) == Ok::<State, Error>(self@.state));
                Ok(CommitReport { notifications: 0, slow_consumer: 0 })
            },
            Ok(Some(drafts)) => {
                let mut ids: Vec<Uuid> = Vec::new();
                while ids.len() < drafts.len()
                    invariant
                        ids.len() <= drafts.len(),
                        forall|k: int|
                            0 <= k < ids.len() ==> (#[trigger] ids@[k]).0 & VERSION_MASK
                                == VERSION_RANDOM,
                    decreases drafts.len() - ids.len(),
                {
                    ids.push(Uuid::random());
                }
                let done = self.apply(txn, &drafts, &ids);
                assert(drawn(ids@, written(txn@)));
                assert(committed(old(self)@, txn@, ids@) == committed(old(self)@, txn@, ids@));
                done
            },
        }
    }

    /// Opens the datastore for traffic at the time that `reading` gives:
    /// enters this node into the cluster, with a heartbeat, and runs the
    /// garbage collector, which may remove up to `cap` notifications. Tells
    /// whether the run of the collector is complete.
    ///
    /// The collector refuses to run where the clock cannot be trusted
    /// (`FatalStorage`); the commit fails where the version cannot advance
    /// (`StorageError`).
    pub fn bootstrap(&mut self, reading: u64, cap: u32) -> (done: Result<bool, Error>)
        requires
            old(self).wf(),
        ensures
            final(self).wf(),
            match done {
                Ok(complete) => {
                    &&& reading + old(self)@.config.liveness_window >= old(self)@.now
                    &&& old(self)@.version < u64::MAX
                    &&& final(self)@.now == if reading >= old(self)@.now {
                        reading
                    } else {
                        old(self)@.now
                    }
                    &&& final(self)@ == (DatastoreView {
                        state: bootstrapped(
                            old(self)@.state,
                            old(self)@.id,
                            final(self)@.now,
                            old(self)@.config.liveness_window,
                            old(self)@.config.engine.live_query_catchup_size,
                            cap,
                        ),
                        version: (old(self)@.version + 1) as u64,
                        now: final(self)@.now,
                        ..old(self)@
                    })
                    &&& complete == (old(self)@.config.engine.live_query_catchup_size > 0
                        && no_orphan_notifications(final(self)@.state))
                },
                Err(e) => if reading + old(self)@.config.liveness_window < old(self)@.now {
                    e == Error::FatalStorage && final(self)@ == old(self)@
                } else {
                    &&& e == Error::StorageError
                    &&& old(self)@.version == u64::MAX
                    &&& final(self)@ == (DatastoreView {
                        now: if reading >= old(self)@.now {
                            reading
                        } else {
                            old(self)@.now
                        },
                        ..old(self)@
                    })
                },
            },
    {
        let now = match self.tick(reading) {
            Ok(ts) => ts,
            Err(e) => {
                return Err(e);
            },
        };
        if self.version == u64::MAX {
            return Err(Error::StorageError);
        }
        let mut txn = self.transaction();
        txn.set_nd(self.id);
        txn.set_hb(now, self.id);
        let complete = txn.collect(self.id, now, self.config.liveness_window, cap);
        let ids: Vec<Uuid> = Vec::new();
        proof {
            txn.lemma_wf();
            lemma_nothing_to_publish(txn@.state, txn@.page, ids@, self@.now);
        }
        match self.commit_with(txn, &ids) {
            Ok(_) => Ok(complete),
            Err(e) => Err(e),
        }
    }

    /// One beat of this node at the time that `reading` gives: writes its
    /// heartbeat and removes its heartbeats that are older than the
    /// liveness window.
    pub fn heartbeat(&mut self, reading: u64) -> (done: Result<u64, Error>)
        requires
            old(self).wf(),
        ensures
            final(self).wf(),
            match done {
                Ok(now) => {
                    &&& reading + old(self)@.config.liveness_window >= old(self)@.now
                    &&& old(self)@.version < u64::MAX
                    &&& now == if reading >= old(self)@.now {
                        reading
                    } else {
                        old(self)@.now
                    }
                    &&& final(self)@ == (DatastoreView {
                        state: after_beat(
                            old(self)@.state,
                            old(self)@.id,
                            now,
                            old(self)@.config.liveness_window,
                            old(self)@.config.engine.live_query_catchup_size,
                        ),
                        version: (old(self)@.version + 1) as u64,
                        now,
                        ..old(self)@
                    })
                },
                Err(e) => if reading + old(self)@.config.liveness_window < old(self)@.now {
                    e == Error::FatalStorage && final(self)@ == old(self)@
                } else {
                    &&& e == Error::StorageError
                    &&& old(self)@.version == u64::MAX
                    &&& final(self)@ == (DatastoreView {
                        now: if reading >= old(self)@.now {
                            reading
                        } else {
                            old(self)@.now
                        },
                        ..old(self)@
                    })
                },
            },
    {
        let now = match self.tick(reading) {
            Ok(ts) => ts,
            Err(e) => {
                return Err(e);
            },
        };
        if self.version == u64::MAX {
            return Err(Error::StorageError);
        }
        self.tables.beat(
            self.id,
            now,
            self.config.liveness_window,
            self.config.engine.live_query_catchup_size,
        );
        self.version = self.version + 1;
        Ok(now)
    }

    /// Hands out up to `max` of the notifications that wait for live query
    /// `lq` of this node, oldest first, and deletes them.
    pub fn drain_notifications(&mut self, lq: Uuid, max: u32) -> (out: Result<
        Vec<Notification>,
        Error,
    >)
        requires
            old(self).wf(),
        ensures
            final(self).wf(),
            match out {
                Ok(notes) => {
                    &&& old(self)@.state.ndlq_table(old(self)@.id, lq).is_some()
                    &&& old(self)@.version < u64::MAX
                    &&& views_of(notes@) == delivered(
                        old(self)@.state,
                        old(self)@.state.ndlq_table(old(self)@.id, lq).unwrap(),
                        lq,
                        max,
                        old(self)@.config.engine.live_query_catchup_size,
                    )
                    &&& final(self)@ == (DatastoreView {
                        state: after_delivery(
                            old(self)@.state,
                            old(self)@.state.ndlq_table(old(self)@.id, lq).unwrap(),
                            lq,
                            max,
                            old(self)@.config.engine.live_query_catchup_size,
                        ),
                        version: (old(self)@.version + 1) as u64,
                        ..old(self)@
                    })
                },
                Err(e) => {
                    &&& final(self)@ == old(self)@
                    &&& e == if old(self)@.state.ndlq_table(old(self)@.id, lq).is_none() {
                        Error::LiveQueryNotFound
                    } else {
                        Error::StorageError
                    }
                    &&& old(self)@.state.ndlq_table(old(self)@.id, lq).is_none()
                        || old(self)@.version == u64::MAX
                },
            },
    {
        let table = match self.tables.get_ndlq(self.id, lq) {
            Some(table) => table.duplicate(),
            None => {
                return Err(Error::LiveQueryNotFound);
            },
        };
        if self.version == u64::MAX {
            return Err(Error::StorageError);
        }
        let notes = self.tables.deliver(
            &table,
            lq,
            max,
            self.config.engine.live_query_catchup_size,
        );
        self.version = self.version + 1;
        Ok(notes)
    }
}

/// A transaction without captured changes writes no notification: its
/// commit leaves its store as it is.
pub proof fn lemma_nothing_to_publish(s: State, page: u32, ids: Seq<Uuid>, now: u64)
    requires
        s.wf(),
    ensures
        fanout(s, Seq::empty(), page) == Some(Seq::<DraftView>::empty()),
        s.notifications + stamp_all(Seq::<DraftView>::empty(), ids, now) == s.notifications,
{
    assert(s.notifications + stamp_all(Seq::<DraftView>::empty(), ids, now) =~= s.notifications);
}

/// After the datastore was opened, every node live query has its table live
/// query, owned by its node; and if every node that a heartbeat within the
/// liveness window names has a node record, every table live query has the
/// node live query of its owner, and that owner has a node record. If the
/// collector may remove as many notifications as belong to live queries
/// that are not registered any more, none of these is left.
pub proof fn lemma_bootstrap_restores(
    s: State,
    me: Uuid,
    now: u64,
    window: u64,
    page: u32,
    cap: u32,
)
    requires
        s.wf(),
        page > 0,
    ensures
        bootstrapped(s, me, now, window, page, cap).wf(),
        crate::gc::node_live_queries_backed(bootstrapped(s, me, now, window, page, cap)),
        (forall|i: int|
            0 <= i < s.heartbeats.len() && crate::gc::recent(
                (#[trigger] s.heartbeats[i]).ts,
                now,
                window,
            ) ==> s.nodes.contains(Node { id: s.heartbeats[i].node }))
            ==> crate::gc::table_live_queries_held(
            bootstrapped(s, me, now, window, page, cap),
        ),
        s.notifications.filter(
            crate::gc::nt_orphan(bootstrapped(s, me, now, window, page, cap)),
        ).len() <= cap ==> no_orphan_notifications(bootstrapped(s, me, now, window, page, cap)),
{
    let beat = Heartbeat { ts: now, node: me };
    let entered = State {
        nodes: upsert(s.nodes, node_is(me), Node { id: me }),
        heartbeats: upsert(s.heartbeats, heartbeat_is(now, me), beat),
        ..s
    };
    let live = live_set(entered, me, now, window);
    crate::seqs::lemma_upsert_distinct(s.nodes, crate::tables::node_key(), node_is(me), Node { id: me });
    crate::seqs::lemma_upsert_distinct(
        s.heartbeats,
        crate::tables::heartbeat_key(),
        heartbeat_is(now, me),
        beat,
    );
    crate::seqs::lemma_find_first(s.nodes, node_is(me));
    crate::seqs::lemma_find_first(s.heartbeats, heartbeat_is(now, me));
    crate::gc::lemma_collect_restores(entered, live, cap as nat);
    if forall|i: int|
        0 <= i < s.heartbeats.len() && crate::gc::recent(
            (#[trigger] s.heartbeats[i]).ts,
            now,
            window,
        ) ==> s.nodes.contains(Node { id: s.heartbeats[i].node }) {
        assert forall|node: Uuid| live.contains(node) implies entered.nodes.contains(
            Node { id: node },
        ) by {
            if node == me {
                match find_first(s.nodes, node_is(me)) {
                    Some(k) => {
                        assert(entered.nodes[k] == Node { id: me });
                    },
                    None => {
                        assert(entered.nodes[s.nodes.len() as int] == Node { id: me });
                    },
                }
            } else {
                let i = choose|i: int|
                    0 <= i < entered.heartbeats.len() && (#[trigger] entered.heartbeats[i]).node
                        == node && crate::gc::recent(entered.heartbeats[i].ts, now, window);
                if i < s.heartbeats.len() {
                    assert(entered.heartbeats[i] == s.heartbeats[i] || entered.heartbeats[i]
                        == beat);
                    assert(entered.heartbeats[i] == s.heartbeats[i]);
                }
                let k = choose|k: int|
                    0 <= k < s.nodes.len() && s.nodes[k] == Node { id: node };
                assert(entered.nodes[k] == Node { id: node });
            }
        }
    }
}

/// The order in which notifications become visible is the order of the
/// commits: what waits for a live query after a commit is what waited for it
/// in the transaction, followed by the notifications that the commit wrote
/// for it, in the order of the changes.
pub proof fn lemma_commit_order(
    d: DatastoreView,
    t: TransactionView,
    ids: Seq<Uuid>,
    table: crate::ident::TableView,
    lq: Uuid,
)
    requires
        writes(t),
        committed(d, t, ids).is_ok(),
    ensures
        pending(committed(d, t, ids).unwrap(), table, lq) == pending(t.state, table, lq)
            + stamp_all(fanout(t.state, t.changes, t.page).unwrap(), ids, d.now).filter(
            crate::tables::nt_of(table, lq),
        ),
{
    Seq::filter_distributes_over_add(
        t.state.notifications,
        stamp_all(fanout(t.state, t.changes, t.page).unwrap(), ids, d.now),
        crate::tables::nt_of(table, lq),
    );
}

} // verus!
