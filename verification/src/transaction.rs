//! A transaction: a private copy of the store that its owner reads and
//! writes, with the changes it captured and the live queries it looked up.

use vstd::prelude::*;
use crate::capture::{ChangeBuffer, ChangeView};
use crate::catalog::{Catalog, CatalogView, Param};
use crate::statements::DefineDatabaseStatement;
use crate::document::Document;
use crate::error::Error;
use crate::fanout::looked_up;
use crate::gc::{collected, live_set, no_orphan_notifications};
use crate::heartbeat::after_beat;
use crate::ident::{TableRef, TableView, Uuid};
use crate::record::{
    Action, Check, Heartbeat, LiveStatement, Node, NodeLiveQueryView, Notification, permitted,
    table_check_view, TableLiveQueryView,
};
use crate::registry::{after_deregister, after_register, can_register};
use crate::seqs::{Duplicate, duplicate_all, find_first, option_view, upsert, views_of, without};
use crate::tables::{heartbeat_is, ndlq_is, node_is, nt_is, State, Tables, tblq_is};

verus! {

/// What a transaction is made of.
pub struct TransactionView {
    /// The version of the datastore that the transaction started from.
    pub base: u64,
    /// The store as the transaction sees it.
    pub state: State,
    /// The definitions as the transaction sees them.
    pub catalog: CatalogView,
    /// The changes that the transaction captured, oldest first.
    pub changes: Seq<ChangeView>,
    /// The number of live queries that the transaction registered.
    pub registered: u32,
    /// The number of live queries that the transaction may register.
    pub cap: u32,
    /// The number of records that a scan reads at once.
    pub page: u32,
    /// The error that aborted the transaction, if one did.
    pub failure: Option<Error>,
    /// Whether the transaction wrote to the store.
    pub dirty: bool,
    /// The tables whose live queries the transaction holds in its cache.
    pub cached: Seq<TableView>,
}

struct CacheEntry {
    table: TableRef,
    stmts: Vec<LiveStatement>,
}

/// A transaction. It is owned by the task that started it and is handed
/// over by move, never shared.
pub struct Transaction {
    base: u64,
    tables: Tables,
    catalog: Catalog,
    cache: Vec<CacheEntry>,
    buffer: ChangeBuffer,
    registered: u32,
    cap: u32,
    page: u32,
    failure: Option<Error>,
    dirty: bool,
}

impl View for Transaction {
    type V = TransactionView;

    closed spec fn view(&self) -> TransactionView {
        TransactionView {
            base: self.base,
            state: self.tables@,
            catalog: self.catalog@,
            changes: self.buffer@,
            registered: self.registered,
            cap: self.cap,
            page: self.page,
            failure: self.failure,
            dirty: self.dirty,
            cached: self.cache@.map_values(|e: CacheEntry| e.table@),
        }
    }
}

impl Transaction {
    /// The store of the transaction holds no two records under one key,
    /// and what the cache holds of a table is what a lookup would find.
    pub closed spec fn wf(&self) -> bool {
        &&& self.tables.wf()
        &&& self.catalog.wf()
        &&& forall|k: int|
            0 <= k < self.cache.len() ==> views_of((#[trigger] self.cache[k]).stmts@) == looked_up(
                self.tables@,
                self.cache[k].table@,
                self.page,
            )
    }

    /// In a transaction that is well formed the store holds no two records under one key.
    pub proof fn lemma_wf(&self)
        requires
            self.wf(),
        ensures
            self@.state.wf(),
            self@.catalog.wf(),
    {
    }

    /// Starts a transaction on a copy of the store and of its definitions.
    pub fn begin(tables: Tables, catalog: Catalog, base: u64, cap: u32, page: u32) -> (txn: Self)
        requires
            tables.wf(),
            catalog.wf(),
        ensures
            txn.wf(),
            txn@ == (TransactionView {
                base,
                state: tables@,
                catalog: catalog@,
                changes: Seq::empty(),
                registered: 0,
                cap,
                page,
                failure: None,
                dirty: false,
                cached: Seq::empty(),
            }),
    {
        let txn = Transaction {
            base,
            tables,
            catalog,
            cache: Vec::new(),
            buffer: ChangeBuffer::new(),
            registered: 0,
            cap,
            page,
            failure: None,
            dirty: false,
        };
        assert(txn@.cached =~= Seq::empty());
        txn
    }

    /// The store as the transaction sees it, for reading.
    pub fn tables(&self) -> (tables: &Tables)
        ensures
            tables@ == self@.state,
            self.wf() ==> tables.wf(),
    {
        &self.tables
    }

    /// The changes that the transaction captured.
    pub fn buffer(&self) -> (buffer: &ChangeBuffer)
        ensures
            buffer@ == self@.changes,
    {
        &self.buffer
    }

    /// The version of the datastore that the transaction started from.
    pub fn base(&self) -> (base: u64)
        ensures
            base == self@.base,
    {
        self.base
    }

    /// The number of records that a scan reads at once.
    pub fn page(&self) -> (page: u32)
        ensures
            page == self@.page,
    {
        self.page
    }

    /// The error that aborted the transaction, if one did.
    pub fn failure(&self) -> (failure: Option<Error>)
        ensures
            failure == self@.failure,
    {
        self.failure
    }

    /// Whether the transaction has anything to commit: a write to the store
    /// or a captured change.
    pub fn writes(&self) -> (yes: bool)
        ensures
            yes == (self@.dirty || self@.changes.len() > 0),
    {
        self.dirty || self.buffer.len() > 0
    }

    /// The definitions as the transaction sees them, for reading.
    pub fn catalog(&self) -> (catalog: &Catalog)
        ensures
            catalog@ == self@.catalog,
            self.wf() ==> catalog.wf(),
    {
        &self.catalog
    }

    /// Takes the transaction apart: its store, its definitions and its changes.
    pub fn into_parts(self) -> (parts: (Tables, Catalog, ChangeBuffer))
        ensures
            parts.0@ == self@.state,
            parts.1@ == self@.catalog,
            parts.2@ == self@.changes,
            self.wf() ==> parts.0.wf() && parts.1.wf(),
    {
        (self.tables, self.catalog, self.buffer)
    }

    fn forget(&mut self)
        requires
            old(self).tables.wf(),
            old(self).catalog.wf(),
        ensures
            final(self).wf(),
            final(self)@ == (TransactionView { cached: Seq::empty(), ..old(self)@ }),
    {
        self.cache = Vec::new();
        assert(self@.cached =~= Seq::empty());
    }

    /// Empties the cache of looked-up live queries.
    pub fn clear_cache(&mut self)
        requires
            old(self).wf(),
        ensures
            final(self).wf(),
            final(self)@ == (TransactionView { cached: Seq::empty(), ..old(self)@ }),
    {
        self.forget();
    }

    /// Writes the record of node `id`.
    pub fn set_nd(&mut self, id: Uuid)
        requires
            old(self).wf(),
        ensures
            final(self).wf(),
            final(self)@ == (TransactionView {
                state: State {
                    nodes: upsert(old(self)@.state.nodes, node_is(id), Node { id }),
                    ..old(self)@.state
                },
                dirty: true,
                ..old(self)@
            }),
    {
        self.tables.set_nd(id);
        self.dirty = true;
    }

    /// Deletes the record of node `id`.
    pub fn del_nd(&mut self, id: Uuid)
        requires
            old(self).wf(),
        ensures
            final(self).wf(),
            final(self)@ == (TransactionView {
                state: State {
                    nodes: without(old(self)@.state.nodes, node_is(id)),
                    ..old(self)@.state
                },
                dirty: true,
                ..old(self)@
            }),
    {
        self.tables.del_nd(id);
        self.dirty = true;
    }

    /// Writes the heartbeat of `node` at `ts`.
    pub fn set_hb(&mut self, ts: u64, node: Uuid)
        requires
            old(self).wf(),
        ensures
            final(self).wf(),
            final(self)@ == (TransactionView {
                state: State {
                    heartbeats: upsert(
                        old(self)@.state.heartbeats,
                        heartbeat_is(ts, node),
                        Heartbeat { ts, node },
                    ),
                    ..old(self)@.state
                },
                dirty: true,
                ..old(self)@
            }),
    {
        self.tables.set_hb(ts, node);
        self.dirty = true;
    }

    /// Deletes the heartbeat of `node` at `ts`.
    pub fn del_hb(&mut self, ts: u64, node: Uuid)
        requires
            old(self).wf(),
        ensures
            final(self).wf(),
            final(self)@ == (TransactionView {
                state: State {
                    heartbeats: without(old(self)@.state.heartbeats, heartbeat_is(ts, node)),
                    ..old(self)@.state
                },
                dirty: true,
                ..old(self)@
            }),
    {
        self.tables.del_hb(ts, node);
        self.dirty = true;
    }

    /// Writes the node live query of `node` and `lq`, if what is stored under
    /// that key is what the caller expects.
    pub fn putc_ndlq(
        &mut self,
        node: Uuid,
        lq: Uuid,
        table: &TableRef,
        expected: Option<Check<TableRef>>,
    ) -> (done: Result<(), Error>)
        requires
            old(self).wf(),
        ensures
            final(self).wf(),
            match done {
                Ok(()) => permitted(
                    old(self)@.state.ndlq_table(node, lq),
                    table_check_view(expected),
                ) && final(self)@ == (TransactionView {
                    state: State {
                        ndlqs: upsert(
                            old(self)@.state.ndlqs,
                            ndlq_is(node, lq),
                            NodeLiveQueryView { node, lq, table: table@ },
                        ),
                        ..old(self)@.state
                    },
                    dirty: true,
                    ..old(self)@
                }),
                Err(e) => e == Error::ConditionNotMet && !permitted(
                    old(self)@.state.ndlq_table(node, lq),
                    table_check_view(expected),
                ) && final(self)@ == old(self)@,
            },
    {
        match self.tables.putc_ndlq(node, lq, table, expected) {
            Ok(()) => {
                self.dirty = true;
                Ok(())
            },
            Err(e) => Err(e),
        }
    }

    /// Deletes the node live query of `node` and `lq`, if what is stored
    /// under that key is what the caller expects.
    pub fn del_ndlq(&mut self, node: Uuid, lq: Uuid, expected: Option<Check<TableRef>>) -> (done:
        Result<(), Error>)
        requires
            old(self).wf(),
        ensures
            final(self).wf(),
            match done {
                Ok(()) => permitted(
                    old(self)@.state.ndlq_table(node, lq),
                    table_check_view(expected),
                ) && final(self)@ == (TransactionView {
                    state: State {
                        ndlqs: without(old(self)@.state.ndlqs, ndlq_is(node, lq)),
                        ..old(self)@.state
                    },
                    dirty: true,
                    ..old(self)@
                }),
                Err(e) => e == Error::ConditionNotMet && !permitted(
                    old(self)@.state.ndlq_table(node, lq),
                    table_check_view(expected),
                ) && final(self)@ == old(self)@,
            },
    {
        match self.tables.del_ndlq(node, lq, expected) {
            Ok(()) => {
                self.dirty = true;
                Ok(())
            },
            Err(e) => Err(e),
        }
    }

    /// Writes the live query `stmt` on `table`, if the owner of what is
    /// stored under that key is what the caller expects. The cache of
    /// looked-up live queries is emptied.
    pub fn putc_tblq(
        &mut self,
        table: &TableRef,
        stmt: LiveStatement,
        expected: Option<Check<Uuid>>,
    ) -> (done: Result<(), Error>)
        requires
            old(self).wf(),
        ensures
            final(self).wf(),
            match done {
                Ok(()) => permitted(old(self)@.state.tblq_owner(table@, stmt.id), expected)
                    && final(self)@ == (TransactionView {
                    state: State {
                        tblqs: upsert(
                            old(self)@.state.tblqs,
                            tblq_is(table@, stmt.id),
                            TableLiveQueryView { table: table@, stmt: stmt@ },
                        ),
                        ..old(self)@.state
                    },
                    dirty: true,
                    cached: Seq::empty(),
                    ..old(self)@
                }),
                Err(e) => e == Error::ConditionNotMet && !permitted(
                    old(self)@.state.tblq_owner(table@, stmt.id),
                    expected,
                ) && final(self)@ == old(self)@,
            },
    {
        match self.tables.putc_tblq(table, stmt, expected) {
            Ok(()) => {
                self.dirty = true;
                self.forget();
                Ok(())
            },
            Err(e) => Err(e),
        }
    }

    /// Deletes the live query `lq` on `table`, if the owner of what is stored
    /// under that key is what the caller expects. The cache of looked-up
    /// live queries is emptied.
    pub fn del_tblq(&mut self, table: &TableRef, lq: Uuid, expected: Option<Check<Uuid>>) -> (done:
        Result<(), Error>)
        requires
            old(self).wf(),
        ensures
            final(self).wf(),
            match done {
                Ok(()) => permitted(old(self)@.state.tblq_owner(table@, lq), expected) && final(self)@
                    == (TransactionView {
                    state: State {
                        tblqs: without(old(self)@.state.tblqs, tblq_is(table@, lq)),
                        ..old(self)@.state
                    },
                    dirty: true,
                    cached: Seq::empty(),
                    ..old(self)@
                }),
                Err(e) => e == Error::ConditionNotMet && !permitted(
                    old(self)@.state.tblq_owner(table@, lq),
                    expected,
                ) && final(self)@ == old(self)@,
            },
    {
        match self.tables.del_tblq(table, lq, expected) {
            Ok(()) => {
                self.dirty = true;
                self.forget();
                Ok(())
            },
            Err(e) => Err(e),
        }
    }

    /// Writes a notification under a key that is not in use.
    pub fn put_nt(&mut self, notification: Notification) -> (done: Result<(), Error>)
        requires
            old(self).wf(),
        ensures
            final(self).wf(),
            match done {
                Ok(()) => find_first(
                    old(self)@.state.notifications,
                    nt_is(notification@.table, notification.lq, notification.id),
                ).is_none() && final(self)@ == (TransactionView {
                    state: State {
                        notifications: old(self)@.state.notifications.push(notification@),
                        ..old(self)@.state
                    },
                    dirty: true,
                    ..old(self)@
                }),
                Err(e) => e == Error::ConditionNotMet && find_first(
                    old(self)@.state.notifications,
                    nt_is(notification@.table, notification.lq, notification.id),
                ).is_some() && final(self)@ == old(self)@,
            },
    {
        match self.tables.put_nt(notification) {
            Ok(()) => {
                self.dirty = true;
                Ok(())
            },
            Err(e) => Err(e),
        }
    }

    /// Deletes the notification `id` of live query `lq` on `table`.
    pub fn del_nt(&mut self, table: &TableRef, lq: Uuid, id: Uuid)
        requires
            old(self).wf(),
        ensures
            final(self).wf(),
            final(self)@ == (TransactionView {
                state: State {
                    notifications: without(old(self)@.state.notifications, nt_is(table@, lq, id)),
                    ..old(self)@.state
                },
                dirty: true,
                ..old(self)@
            }),
    {
        self.tables.del_nt(table, lq, id);
        self.dirty = true;
    }

    fn cached_at(&self, table: &TableRef) -> (found: Option<usize>)
        ensures
            match found {
                Some(k) => k < self.cache.len() && self.cache[k as int].table@ == table@,
                None => !self@.cached.contains(table@),
            },
    {
        let mut k: usize = 0;
        while k < self.cache.len()
            invariant
                k <= self.cache.len(),
                forall|j: int| 0 <= j < k ==> self.cache[j].table@ != table@,
            decreases self.cache.len() - k,
        {
            if self.cache[k].table.same_as(table) {
                return Some(k);
            }
            k += 1;
        }
        None
    }

    /// The live queries that watch `table`. The first lookup of a table in a
    /// transaction reads them from the store and keeps them; later lookups
    /// answer from what was kept, until a write to the table live queries
    /// empties the cache.
    pub fn lookup(&mut self, table: &TableRef) -> (out: Vec<LiveStatement>)
        requires
            old(self).wf(),
        ensures
            final(self).wf(),
            views_of(out@) == looked_up(old(self)@.state, table@, old(self)@.page),
            final(self)@ == (TransactionView {
                cached: if old(self)@.cached.contains(table@) {
                    old(self)@.cached
                } else {
                    old(self)@.cached.push(table@)
                },
                ..old(self)@
            }),
    {
        match self.cached_at(table) {
            Some(k) => {
                assert(self@.cached[k as int] == table@);
                duplicate_all(&self.cache[k].stmts)
            },
            None => {
                let out = self.tables.lookup(table, self.page);
                let entry = CacheEntry { table: table.duplicate(), stmts: duplicate_all(&out) };
                self.cache.push(entry);
                assert(self@.cached =~= old(self)@.cached.push(table@));
                out
            },
        }
    }

    /// Registers the live query `stmt` on `table`. A transaction may
    /// register no more live queries than its cap says; one that tries is
    /// aborted, and so is one whose registration meets a key in use.
    pub fn register_live_query(&mut self, table: &TableRef, stmt: LiveStatement) -> (done: Result<
        (),
        Error,
    >)
        requires
            old(self).wf(),
        ensures
            final(self).wf(),
            match done {
                Ok(()) => {
                    &&& old(self)@.registered < old(self)@.cap
                    &&& can_register(old(self)@.state, table@, stmt@)
                    &&& final(self)@ == (TransactionView {
                        state: after_register(old(self)@.state, table@, stmt@),
                        registered: (old(self)@.registered + 1) as u32,
                        dirty: true,
                        cached: Seq::empty(),
                        ..old(self)@
                    })
                },
                Err(e) => {
                    &&& e == if old(self)@.registered >= old(self)@.cap {
                        Error::TooManyLiveQueries
                    } else {
                        Error::ConditionNotMet
                    }
                    &&& old(self)@.registered >= old(self)@.cap || !can_register(
                        old(self)@.state,
                        table@,
                        stmt@,
                    )
                    &&& final(self)@ == (TransactionView {
                        failure: if old(self)@.failure.is_some() {
                            old(self)@.failure
                        } else {
                            Some(e)
                        },
                        ..old(self)@
                    })
                },
            },
    {
        if self.registered >= self.cap {
            self.fail(Error::TooManyLiveQueries);
            return Err(Error::TooManyLiveQueries);
        }
        match self.tables.register(table, stmt) {
            Ok(()) => {
                self.registered = self.registered + 1;
                self.dirty = true;
                self.forget();
                Ok(())
            },
            Err(e) => {
                self.fail(e);
                Err(e)
            },
        }
    }

    /// Takes back the registration of live query `lq` by `node` on `table`.
    /// Where there is no such registration the store stays as it is.
    pub fn deregister_live_query(&mut self, node: Uuid, lq: Uuid, table: &TableRef)
        requires
            old(self).wf(),
        ensures
            final(self).wf(),
            final(self)@ == (TransactionView {
                state: after_deregister(old(self)@.state, node, lq, table@),
                dirty: true,
                cached: Seq::empty(),
                ..old(self)@
            }),
    {
        self.tables.deregister(node, lq, table);
        self.dirty = true;
        self.forget();
    }

    /// Records one mutation of a record behind those recorded before.
    pub fn capture_change(
        &mut self,
        table: &TableRef,
        record: &str,
        action: Action,
        before: Option<Document>,
        after: Option<Document>,
    )
        requires
            old(self).wf(),
        ensures
            final(self).wf(),
            final(self)@ == (TransactionView {
                changes: old(self)@.changes.push(
                    ChangeView {
                        table: table@,
                        record: record@,
                        action,
                        before: option_view(before),
                        after: option_view(after),
                    },
                ),
                ..old(self)@
            }),
    {
        self.buffer.capture(table, record, action, before, after);
    }

    /// Marks the transaction as aborted by `e`, unless it was aborted before.
    pub fn fail(&mut self, e: Error)
        requires
            old(self).wf(),
        ensures
            final(self).wf(),
            final(self)@ == (TransactionView {
                failure: if old(self)@.failure.is_some() {
                    old(self)@.failure
                } else {
                    Some(e)
                },
                ..old(self)@
            }),
    {
        if self.failure.is_none() {
            self.failure = Some(e);
        }
    }

    /// One beat of the node `me` at `now`.
    pub fn beat(&mut self, me: Uuid, now: u64, window: u64)
        requires
            old(self).wf(),
        ensures
            final(self).wf(),
            final(self)@ == (TransactionView {
                state: after_beat(old(self)@.state, me, now, window, old(self)@.page),
                dirty: true,
                ..old(self)@
            }),
    {
        self.tables.beat(me, now, window, self.page);
        self.dirty = true;
    }

    /// One run of the garbage collector on node `me` at `now`, which may
    /// remove up to `cap` notifications. Tells whether the run is complete.
    pub fn collect(&mut self, me: Uuid, now: u64, window: u64, cap: u32) -> (complete: bool)
        requires
            old(self).wf(),
        ensures
            final(self).wf(),
            final(self)@ == (TransactionView {
                state: if old(self)@.page == 0 {
                    old(self)@.state
                } else {
                    collected(
                        old(self)@.state,
                        live_set(old(self)@.state, me, now, window),
                        cap as nat,
                    )
                },
                dirty: true,
                cached: Seq::empty(),
                ..old(self)@
            }),
            complete == (old(self)@.page > 0 && no_orphan_notifications(final(self)@.state)),
    {
        let complete = self.tables.collect(me, now, window, self.page, cap);
        self.dirty = true;
        self.forget();
        complete
    }

    /// Asks for the namespace `name` and gives its id. A namespace that is
    /// not defined is defined on the way, unless the store is strict.
    pub fn add_ns(&mut self, name: &str, strict: bool) -> (id: Result<Option<u32>, Error>)
        requires
            old(self).wf(),
        ensures
            final(self).wf(),
            final(self)@ == (TransactionView {
                catalog: old(self)@.catalog.add_ns(name@, strict).0,
                dirty: true,
                ..old(self)@
            }),
            id == old(self)@.catalog.add_ns(name@, strict).1,
    {
        self.dirty = true;
        self.catalog.add_ns(name, strict)
    }

    /// Takes the next id for a database of the namespace `name`.
    pub fn get_next_db_id(&mut self, name: &str) -> (id: Result<u32, Error>)
        requires
            old(self).wf(),
        ensures
            final(self).wf(),
            final(self)@ == (TransactionView {
                catalog: old(self)@.catalog.next_db_id(name@).0,
                dirty: true,
                ..old(self)@
            }),
            id == old(self)@.catalog.next_db_id(name@).1,
    {
        self.dirty = true;
        self.catalog.next_db_id(name)
    }

    /// Writes the database `stmt` of the namespace `ns`.
    pub fn set_db(&mut self, ns: &str, stmt: DefineDatabaseStatement)
        requires
            old(self).wf(),
        ensures
            final(self).wf(),
            final(self)@ == (TransactionView {
                catalog: old(self)@.catalog.set_db(ns@, stmt@),
                dirty: true,
                ..old(self)@
            }),
    {
        self.dirty = true;
        self.catalog.set_db(ns, stmt);
    }

    /// Writes a parameter.
    pub fn set_pa(&mut self, param: Param)
        requires
            old(self).wf(),
        ensures
            final(self).wf(),
            final(self)@ == (TransactionView {
                catalog: old(self)@.catalog.set_pa(param@),
                dirty: true,
                ..old(self)@
            }),
    {
        self.dirty = true;
        self.catalog.set_pa(param);
    }

    /// Deletes the parameter `name` of the database `db` of the namespace `ns`.
    pub fn del_pa(&mut self, ns: &str, db: &str, name: &str)
        requires
            old(self).wf(),
        ensures
            final(self).wf(),
            final(self)@ == (TransactionView {
                catalog: old(self)@.catalog.del_pa(ns@, db@, name@),
                dirty: true,
                ..old(self)@
            }),
    {
        self.dirty = true;
        self.catalog.del_pa(ns, db, name);
    }
}

} // verus!
