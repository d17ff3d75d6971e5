//! The typed face of the key-value store: cluster nodes, heartbeats, the two
//! halves of the live-query registry, and notifications.
//!
//! Every keyspace is a list of records without two records under one key.
//! A record that is written under a new key goes to the end of its list; one
//! that is written under a key in use takes the place of the old record.
//! Scans give the records in the order of the list.

use vstd::prelude::*;
use crate::error::Error;
use crate::ident::{TableRef, TableView, Uuid};
use crate::record::{
    Check, Heartbeat, LiveStatement, Node, NodeLiveQuery, NodeLiveQueryView, Notification,
    NotificationView, permitted, table_check_view, TableLiveQuery, TableLiveQueryView,
};
use crate::seqs::{
    copy_pages, distinct_by, Duplicate, duplicate_all, find_first, lemma_filter_all,
    lemma_filter_distinct, lemma_filter_ext, lemma_filter_remove, lemma_filter_take,
    lemma_find_first, lemma_find_first_is, lemma_find_first_none, lemma_take_ends, lemma_views_push,
    lemma_views_remove, lemma_views_update, page_end, paged, upsert, views_of, without,
};

verus! {

/// The contents of the store: each keyspace as the list of its records.
pub struct State {
    pub nodes: Seq<Node>,
    pub heartbeats: Seq<Heartbeat>,
    pub ndlqs: Seq<NodeLiveQueryView>,
    pub tblqs: Seq<TableLiveQueryView>,
    pub notifications: Seq<NotificationView>,
}

/// The key of a node record.
pub open spec fn node_key() -> spec_fn(Node) -> Uuid {
    |n: Node| n.id
}

/// The key of a heartbeat: the heartbeat itself.
pub open spec fn heartbeat_key() -> spec_fn(Heartbeat) -> Heartbeat {
    |h: Heartbeat| h
}

/// The key of a node live query.
pub open spec fn ndlq_key() -> spec_fn(NodeLiveQueryView) -> (Uuid, Uuid) {
    |e: NodeLiveQueryView| (e.node, e.lq)
}

/// The key of a table live query.
pub open spec fn tblq_key() -> spec_fn(TableLiveQueryView) -> (TableView, Uuid) {
    |t: TableLiveQueryView| (t.table, t.stmt.id)
}

/// The key of a notification.
pub open spec fn nt_key() -> spec_fn(NotificationView) -> (TableView, Uuid, Uuid) {
    |x: NotificationView| (x.table, x.lq, x.id)
}

/// Selects the node record of `id`.
pub open spec fn node_is(id: Uuid) -> spec_fn(Node) -> bool {
    |n: Node| n.id == id
}

/// Selects the heartbeat of `node` at `ts`.
pub open spec fn heartbeat_is(ts: u64, node: Uuid) -> spec_fn(Heartbeat) -> bool {
    |h: Heartbeat| h.ts == ts && h.node == node
}

/// Selects the heartbeats that are not later than `max_ts`.
pub open spec fn heartbeat_until(max_ts: u64) -> spec_fn(Heartbeat) -> bool {
    |h: Heartbeat| h.ts <= max_ts
}

/// Selects the node live query of `node` and `lq`.
pub open spec fn ndlq_is(node: Uuid, lq: Uuid) -> spec_fn(NodeLiveQueryView) -> bool {
    |e: NodeLiveQueryView| e.node == node && e.lq == lq
}

/// Selects the node live queries of `node`.
pub open spec fn ndlq_of(node: Uuid) -> spec_fn(NodeLiveQueryView) -> bool {
    |e: NodeLiveQueryView| e.node == node
}

/// Selects the table live query of `table` and `lq`.
pub open spec fn tblq_is(table: TableView, lq: Uuid) -> spec_fn(TableLiveQueryView) -> bool {
    |t: TableLiveQueryView| t.table == table && t.stmt.id == lq
}

/// Selects the table live queries of `table`.
pub open spec fn tblq_of(table: TableView) -> spec_fn(TableLiveQueryView) -> bool {
    |t: TableLiveQueryView| t.table == table
}

/// Selects the notification `id` of live query `lq` on `table`.
pub open spec fn nt_is(table: TableView, lq: Uuid, id: Uuid) -> spec_fn(NotificationView) -> bool {
    |x: NotificationView| x.table == table && x.lq == lq && x.id == id
}

/// Selects the notifications of live query `lq` on `table`.
pub open spec fn nt_of(table: TableView, lq: Uuid) -> spec_fn(NotificationView) -> bool {
    |x: NotificationView| x.table == table && x.lq == lq
}

/// Selects the node live query of `node` and `lq` if it points at `table`.
pub open spec fn ndlq_exactly(node: Uuid, lq: Uuid, table: TableView) -> spec_fn(
    NodeLiveQueryView,
) -> bool {
    |e: NodeLiveQueryView| e.node == node && e.lq == lq && e.table == table
}

/// Selects the table live query of `table` and `lq` if `owner` owns it.
pub open spec fn tblq_owned(table: TableView, lq: Uuid, owner: Uuid) -> spec_fn(
    TableLiveQueryView,
) -> bool {
    |t: TableLiveQueryView| t.table == table && t.stmt.id == lq && t.stmt.node == owner
}

/// The node's half of the registration that the table live query `t` belongs to.
pub open spec fn ndlq_for(t: TableLiveQueryView) -> NodeLiveQueryView {
    NodeLiveQueryView { node: t.stmt.node, lq: t.stmt.id, table: t.table }
}

/// Deleting the node live query of a key on the condition that it points at
/// `table` removes the record that has that key and that table, if there is one.
pub proof fn lemma_del_ndlq_exact(s: State, node: Uuid, lq: Uuid, table: TableView)
    requires
        s.wf(),
    ensures
        without(s.ndlqs, ndlq_exactly(node, lq, table)) == if s.ndlq_table(node, lq) == Some(
            table,
        ) {
            without(s.ndlqs, ndlq_is(node, lq))
        } else {
            s.ndlqs
        },
        s.ndlq_table(node, lq) == Some(table) <==> s.ndlqs.contains(
            NodeLiveQueryView { node, lq, table },
        ),
{
    lemma_find_first(s.ndlqs, ndlq_is(node, lq));
    let exact = |e: NodeLiveQueryView| !ndlq_exactly(node, lq, table)(e);
    let same_key = |e: NodeLiveQueryView| !ndlq_is(node, lq)(e);
    let row = NodeLiveQueryView { node, lq, table };
    if s.ndlq_table(node, lq) == Some(table) {
        let i = find_first(s.ndlqs, ndlq_is(node, lq)).unwrap();
        assert(s.ndlqs[i] == row);
        assert forall|j: int| 0 <= j < s.ndlqs.len() implies exact(#[trigger] s.ndlqs[j])
            == same_key(s.ndlqs[j]) by {
            if j != i && ndlq_is(node, lq)(s.ndlqs[j]) {
                assert(ndlq_key()(s.ndlqs[j]) == ndlq_key()(s.ndlqs[i]));
            }
        }
        lemma_filter_ext(s.ndlqs, exact, same_key);
    } else {
        assert forall|j: int| 0 <= j < s.ndlqs.len() implies exact(#[trigger] s.ndlqs[j]) by {
            if ndlq_exactly(node, lq, table)(s.ndlqs[j]) {
                let i = find_first(s.ndlqs, ndlq_is(node, lq)).unwrap();
                if i != j {
                    assert(ndlq_key()(s.ndlqs[j]) == ndlq_key()(s.ndlqs[i]));
                }
            }
        }
        lemma_filter_all(s.ndlqs, exact);
        if s.ndlqs.contains(row) {
            let j = choose|j: int| 0 <= j < s.ndlqs.len() && s.ndlqs[j] == row;
            assert(!exact(s.ndlqs[j]));
        }
    }
}

/// Deleting the table live query of a key on the condition that `owner` owns
/// it removes the record that has that key and that owner, if there is one.
pub proof fn lemma_del_tblq_exact(s: State, table: TableView, lq: Uuid, owner: Uuid)
    requires
        s.wf(),
    ensures
        without(s.tblqs, tblq_owned(table, lq, owner)) == if s.tblq_owner(table, lq) == Some(
            owner,
        ) {
            without(s.tblqs, tblq_is(table, lq))
        } else {
            s.tblqs
        },
        s.tblq_owner(table, lq) == Some(owner) <==> exists|j: int|
            0 <= j < s.tblqs.len() && tblq_owned(table, lq, owner)(#[trigger] s.tblqs[j]),
{
    lemma_find_first(s.tblqs, tblq_is(table, lq));
    let exact = |t: TableLiveQueryView| !tblq_owned(table, lq, owner)(t);
    let same_key = |t: TableLiveQueryView| !tblq_is(table, lq)(t);
    if s.tblq_owner(table, lq) == Some(owner) {
        let i = find_first(s.tblqs, tblq_is(table, lq)).unwrap();
        assert(tblq_owned(table, lq, owner)(s.tblqs[i]));
        assert forall|j: int| 0 <= j < s.tblqs.len() implies exact(#[trigger] s.tblqs[j])
            == same_key(s.tblqs[j]) by {
            if j != i && tblq_is(table, lq)(s.tblqs[j]) {
                assert(tblq_key()(s.tblqs[j]) == tblq_key()(s.tblqs[i]));
            }
        }
        lemma_filter_ext(s.tblqs, exact, same_key);
    } else {
        assert forall|j: int| 0 <= j < s.tblqs.len() implies exact(#[trigger] s.tblqs[j]) by {
            if tblq_owned(table, lq, owner)(s.tblqs[j]) {
                let i = find_first(s.tblqs, tblq_is(table, lq)).unwrap();
                if i != j {
                    assert(tblq_key()(s.tblqs[j]) == tblq_key()(s.tblqs[i]));
                }
            }
        }
        lemma_filter_all(s.tblqs, exact);
    }
}

impl State {
    /// The store without records.
    pub open spec fn empty() -> State {
        State {
            nodes: Seq::empty(),
            heartbeats: Seq::empty(),
            ndlqs: Seq::empty(),
            tblqs: Seq::empty(),
            notifications: Seq::empty(),
        }
    }

    /// No keyspace holds two records under one key.
    pub open spec fn wf(self) -> bool {
        &&& distinct_by(self.nodes, node_key())
        &&& distinct_by(self.heartbeats, heartbeat_key())
        &&& distinct_by(self.ndlqs, ndlq_key())
        &&& distinct_by(self.tblqs, tblq_key())
        &&& distinct_by(self.notifications, nt_key())
    }

    /// The table that the node live query of `node` and `lq` points at.
    pub open spec fn ndlq_table(self, node: Uuid, lq: Uuid) -> Option<TableView> {
        match find_first(self.ndlqs, ndlq_is(node, lq)) {
            Some(i) => Some(self.ndlqs[i].table),
            None => None,
        }
    }

    /// The owner of the table live query of `table` and `lq`.
    pub open spec fn tblq_owner(self, table: TableView, lq: Uuid) -> Option<Uuid> {
        match find_first(self.tblqs, tblq_is(table, lq)) {
            Some(i) => Some(self.tblqs[i].stmt.node),
            None => None,
        }
    }
}

/// In a store without two records under one key, a stored table live query
/// tells the owner of its key.
pub proof fn lemma_tblq_owner(s: State, t: TableLiveQueryView)
    requires
        s.wf(),
        s.tblqs.contains(t),
    ensures
        s.tblq_owner(t.table, t.stmt.id) == Some(t.stmt.node),
{
    let j = choose|j: int| 0 <= j < s.tblqs.len() && s.tblqs[j] == t;
    assert(tblq_owned(t.table, t.stmt.id, t.stmt.node)(s.tblqs[j]));
    lemma_del_tblq_exact(s, t.table, t.stmt.id, t.stmt.node);
}

/// In a store without two records under one key, a stored node live query
/// tells the table of its key.
pub proof fn lemma_ndlq_table(s: State, e: NodeLiveQueryView)
    requires
        s.wf(),
        s.ndlqs.contains(e),
    ensures
        s.ndlq_table(e.node, e.lq) == Some(e.table),
{
    lemma_del_ndlq_exact(s, e.node, e.lq, e.table);
}

/// The records of the store.
pub struct Tables {
    nodes: Vec<Node>,
    heartbeats: Vec<Heartbeat>,
    ndlqs: Vec<NodeLiveQuery>,
    tblqs: Vec<TableLiveQuery>,
    notifications: Vec<Notification>,
}

impl View for Tables {
    type V = State;

    closed spec fn view(&self) -> State {
        State {
            nodes: self.nodes@,
            heartbeats: self.heartbeats@,
            ndlqs: views_of(self.ndlqs@),
            tblqs: views_of(self.tblqs@),
            notifications: views_of(self.notifications@),
        }
    }
}

impl Tables {
    /// Whether no keyspace holds two records under one key.
    pub open spec fn wf(&self) -> bool {
        self@.wf()
    }

    /// A store without records.
    pub fn new() -> (tables: Self)
        ensures
            tables@ == State::empty(),
            tables.wf(),
    {
        let tables = Tables {
            nodes: Vec::new(),
            heartbeats: Vec::new(),
            ndlqs: Vec::new(),
            tblqs: Vec::new(),
            notifications: Vec::new(),
        };
        assert(tables@.ndlqs =~= Seq::empty());
        assert(tables@.tblqs =~= Seq::empty());
        assert(tables@.notifications =~= Seq::empty());
        tables
    }

    fn find_nd(&self, id: Uuid) -> (found: Option<usize>)
        ensures
            match found {
                Some(i) => i < self@.nodes.len() && node_is(id)(self@.nodes[i as int])
                    && find_first(self@.nodes, node_is(id)) == Some(i as int),
                None => find_first(self@.nodes, node_is(id)).is_none(),
            },
    {
        let mut i: usize = 0;
        while i < self.nodes.len()
            invariant
                i <= self.nodes.len(),
                forall|j: int| 0 <= j < i ==> !node_is(id)(#[trigger] self@.nodes[j]),
            decreases self.nodes.len() - i,
        {
            if self.nodes[i].id == id {
                proof {
                    lemma_find_first_is(self@.nodes, node_is(id), i as int);
                }
                return Some(i);
            }
            i += 1;
        }
        proof {
            lemma_find_first_none(self@.nodes, node_is(id));
        }
        None
    }

    /// Whether the node `id` has a record.
    pub fn has_nd(&self, id: Uuid) -> (found: bool)
        ensures
            found == self@.nodes.contains(Node { id }),
    {
        let found = self.find_nd(id);
        proof {
            lemma_find_first(self@.nodes, node_is(id));
            if found.is_none() && self@.nodes.contains(Node { id }) {
                let k = choose|k: int| 0 <= k < self@.nodes.len() && self@.nodes[k] == Node { id };
                assert(node_is(id)(self@.nodes[k]));
            }
        }
        found.is_some()
    }

    /// Writes the record of node `id`.
    pub fn set_nd(&mut self, id: Uuid)
        requires
            old(self).wf(),
        ensures
            final(self).wf(),
            final(self)@ == (State {
                nodes: upsert(old(self)@.nodes, node_is(id), Node { id }),
                ..old(self)@
            }),
    {
        proof {
            lemma_find_first(self@.nodes, node_is(id));
        }
        match self.find_nd(id) {
            Some(i) => {
                assert(self@.nodes.update(i as int, Node { id }) =~= self@.nodes);
            },
            None => {
                self.nodes.push(Node { id });
            },
        }
    }

    /// Deletes the record of node `id`.
    pub fn del_nd(&mut self, id: Uuid)
        requires
            old(self).wf(),
        ensures
            final(self).wf(),
            final(self)@ == (State {
                nodes: without(old(self)@.nodes, node_is(id)),
                ..old(self)@
            }),
    {
        let ghost keep = |n: Node| !node_is(id)(n);
        proof {
            lemma_find_first(self@.nodes, node_is(id));
            lemma_filter_distinct(self@.nodes, node_key(), keep);
        }
        match self.find_nd(id) {
            Some(i) => {
                proof {
                    lemma_filter_remove(self@.nodes, keep, i as int);
                }
                self.nodes.remove(i);
            },
            None => {
                proof {
                    lemma_filter_all(self@.nodes, keep);
                }
            },
        }
    }

    /// All node records, read in pages of `limit`.
    pub fn scan_nd(&self, limit: u32) -> (out: Vec<Node>)
        ensures
            out@ == paged(self@.nodes, limit),
    {
        let mut out: Vec<Node> = Vec::new();
        if limit == 0 {
            return out;
        }
        let mut i: usize = 0;
        while i < self.nodes.len()
            invariant
                i <= self.nodes.len(),
                limit > 0,
                out@ == self@.nodes.take(i as int),
            decreases self.nodes.len() - i,
        {
            let end = page_end(i, self.nodes.len(), limit);
            while i < end
                invariant
                    i <= end <= self.nodes.len(),
                    out@ == self@.nodes.take(i as int),
                decreases end - i,
            {
                out.push(self.nodes[i]);
                i += 1;
            }
        }
        assert(self@.nodes.take(i as int) =~= self@.nodes);
        out
    }

    fn find_hb(&self, ts: u64, node: Uuid) -> (found: Option<usize>)
        ensures
            match found {
                Some(i) => i < self@.heartbeats.len() && heartbeat_is(ts, node)(
                    self@.heartbeats[i as int],
                ) && find_first(self@.heartbeats, heartbeat_is(ts, node)) == Some(i as int),
                None => find_first(self@.heartbeats, heartbeat_is(ts, node)).is_none(),
            },
    {
        let mut i: usize = 0;
        while i < self.heartbeats.len()
            invariant
                i <= self.heartbeats.len(),
                forall|j: int|
                    0 <= j < i ==> !heartbeat_is(ts, node)(#[trigger] self@.heartbeats[j]),
            decreases self.heartbeats.len() - i,
        {
            if self.heartbeats[i].ts == ts && self.heartbeats[i].node == node {
                proof {
                    lemma_find_first_is(self@.heartbeats, heartbeat_is(ts, node), i as int);
                }
                return Some(i);
            }
            i += 1;
        }
        proof {
            lemma_find_first_none(self@.heartbeats, heartbeat_is(ts, node));
        }
        None
    }

    /// Writes the heartbeat of `node` at `ts`.
    pub fn set_hb(&mut self, ts: u64, node: Uuid)
        requires
            old(self).wf(),
        ensures
            final(self).wf(),
            final(self)@ == (State {
                heartbeats: upsert(
                    old(self)@.heartbeats,
                    heartbeat_is(ts, node),
                    Heartbeat { ts, node },
                ),
                ..old(self)@
            }),
    {
        proof {
            lemma_find_first(self@.heartbeats, heartbeat_is(ts, node));
        }
        match self.find_hb(ts, node) {
            Some(i) => {
                assert(self@.heartbeats.update(i as int, Heartbeat { ts, node })
                    =~= self@.heartbeats);
            },
            None => {
                self.heartbeats.push(Heartbeat { ts, node });
            },
        }
    }

    /// Deletes the heartbeat of `node` at `ts`.
    pub fn del_hb(&mut self, ts: u64, node: Uuid)
        requires
            old(self).wf(),
        ensures
            final(self).wf(),
            final(self)@ == (State {
                heartbeats: without(old(self)@.heartbeats, heartbeat_is(ts, node)),
                ..old(self)@
            }),
    {
        let ghost keep = |h: Heartbeat| !heartbeat_is(ts, node)(h);
        proof {
            lemma_find_first(self@.heartbeats, heartbeat_is(ts, node));
            lemma_filter_distinct(self@.heartbeats, heartbeat_key(), keep);
        }
        match self.find_hb(ts, node) {
            Some(i) => {
                proof {
                    lemma_filter_remove(self@.heartbeats, keep, i as int);
                }
                self.heartbeats.remove(i);
            },
            None => {
                proof {
                    lemma_filter_all(self@.heartbeats, keep);
                }
            },
        }
    }

    /// The heartbeats that are not later than `max_ts`, read in pages of `limit`.
    pub fn scan_hb(&self, max_ts: u64, limit: u32) -> (out: Vec<Heartbeat>)
        ensures
            out@ == paged(self@.heartbeats.filter(heartbeat_until(max_ts)), limit),
    {
        let mut out: Vec<Heartbeat> = Vec::new();
        if limit == 0 {
            return out;
        }
        let mut i: usize = 0;
        proof {
            lemma_take_ends(self@.heartbeats, heartbeat_until(max_ts));
        }
        while i < self.heartbeats.len()
            invariant
                i <= self.heartbeats.len(),
                limit > 0,
                out@ == self@.heartbeats.take(i as int).filter(heartbeat_until(max_ts)),
            decreases self.heartbeats.len() - i,
        {
            let end = page_end(i, self.heartbeats.len(), limit);
            while i < end
                invariant
                    i <= end <= self.heartbeats.len(),
                    out@ == self@.heartbeats.take(i as int).filter(heartbeat_until(max_ts)),
                decreases end - i,
            {
                proof {
                    lemma_filter_take(self@.heartbeats, heartbeat_until(max_ts), i as int);
                }
                if self.heartbeats[i].ts <= max_ts {
                    out.push(self.heartbeats[i]);
                }
                i += 1;
            }
        }
        out
    }

    fn find_ndlq(&self, node: Uuid, lq: Uuid) -> (found: Option<usize>)
        ensures
            match found {
                Some(i) => i < self@.ndlqs.len() && ndlq_is(node, lq)(self@.ndlqs[i as int])
                    && find_first(self@.ndlqs, ndlq_is(node, lq)) == Some(i as int),
                None => find_first(self@.ndlqs, ndlq_is(node, lq)).is_none(),
            },
    {
        let mut i: usize = 0;
        while i < self.ndlqs.len()
            invariant
                i <= self.ndlqs.len(),
                forall|j: int| 0 <= j < i ==> !ndlq_is(node, lq)(#[trigger] self@.ndlqs[j]),
            decreases self.ndlqs.len() - i,
        {
            if self.ndlqs[i].node == node && self.ndlqs[i].lq == lq {
                proof {
                    lemma_find_first_is(self@.ndlqs, ndlq_is(node, lq), i as int);
                }
                return Some(i);
            }
            i += 1;
        }
        proof {
            lemma_find_first_none(self@.ndlqs, ndlq_is(node, lq));
        }
        None
    }

    /// The table that the node live query of `node` and `lq` points at.
    pub fn get_ndlq(&self, node: Uuid, lq: Uuid) -> (found: Option<&TableRef>)
        ensures
            match found {
                Some(table) => self@.ndlq_table(node, lq) == Some(table@),
                None => self@.ndlq_table(node, lq).is_none(),
            },
    {
        match self.find_ndlq(node, lq) {
            Some(i) => Some(&self.ndlqs[i].table),
            None => None,
        }
    }

    /// Writes the node live query of `node` and `lq`, if what is stored under
    /// that key is what the caller expects.
    pub fn putc_ndlq(
        &mut self,
        node: Uuid,
        lq: Uuid,
        table: &TableRef,
        expected: Option<Check<TableRef>>,
    ) -> (done: Result<(), Error>)
        requires
            old(self).wf(),
        ensures
            final(self).wf(),
            match done {
                Ok(()) => permitted(old(self)@.ndlq_table(node, lq), table_check_view(expected))
                    && final(self)@ == (State {
                    ndlqs: upsert(
                        old(self)@.ndlqs,
                        ndlq_is(node, lq),
                        NodeLiveQueryView { node, lq, table: table@ },
                    ),
                    ..old(self)@
                }),
                Err(e) => e == Error::ConditionNotMet && !permitted(
                    old(self)@.ndlq_table(node, lq),
                    table_check_view(expected),
                ) && final(self)@ == old(self)@,
            },
    {
        proof {
            lemma_find_first(self@.ndlqs, ndlq_is(node, lq));
        }
        let found = self.find_ndlq(node, lq);
        let allowed = match &expected {
            None => true,
            Some(Check::Absent) => found.is_none(),
            Some(Check::Equals(t)) => match found {
                Some(i) => self.ndlqs[i].table.same_as(t),
                None => false,
            },
        };
        if !allowed {
            return Err(Error::ConditionNotMet);
        }
        let row = NodeLiveQuery { node, lq, table: table.duplicate() };
        match found {
            Some(i) => {
                proof {
                    lemma_views_update(self.ndlqs@, i as int, row);
                }
                self.ndlqs.set(i, row);
            },
            None => {
                proof {
                    lemma_views_push(self.ndlqs@, row);
                }
                self.ndlqs.push(row);
            },
        }
        Ok(())
    }

    /// Deletes the node live query of `node` and `lq`, if what is stored
    /// under that key is what the caller expects.
    pub fn del_ndlq(&mut self, node: Uuid, lq: Uuid, expected: Option<Check<TableRef>>) -> (done:
        Result<(), Error>)
        requires
            old(self).wf(),
        ensures
            final(self).wf(),
            match done {
                Ok(()) => permitted(old(self)@.ndlq_table(node, lq), table_check_view(expected))
                    && final(self)@ == (State {
                    ndlqs: without(old(self)@.ndlqs, ndlq_is(node, lq)),
                    ..old(self)@
                }),
                Err(e) => e == Error::ConditionNotMet && !permitted(
                    old(self)@.ndlq_table(node, lq),
                    table_check_view(expected),
                ) && final(self)@ == old(self)@,
            },
    {
        let ghost keep = |e: NodeLiveQueryView| !ndlq_is(node, lq)(e);
        proof {
            lemma_find_first(self@.ndlqs, ndlq_is(node, lq));
            lemma_filter_distinct(self@.ndlqs, ndlq_key(), keep);
        }
        let found = self.find_ndlq(node, lq);
        let allowed = match &expected {
            None => true,
            Some(Check::Absent) => found.is_none(),
            Some(Check::Equals(t)) => match found {
                Some(i) => self.ndlqs[i].table.same_as(t),
                None => false,
            },
        };
        if !allowed {
            return Err(Error::ConditionNotMet);
        }
        match found {
            Some(i) => {
                proof {
                    lemma_filter_remove(self@.ndlqs, keep, i as int);
                    lemma_views_remove(self.ndlqs@, i as int);
                }
                self.ndlqs.remove(i);
            },
            None => {
                proof {
                    lemma_filter_all(self@.ndlqs, keep);
                }
            },
        }
        Ok(())
    }

    /// The node live queries of `node`, read in pages of `limit`.
    pub fn scan_ndlq(&self, node: Uuid, limit: u32) -> (out: Vec<NodeLiveQuery>)
        ensures
            views_of(out@) == paged(self@.ndlqs.filter(ndlq_of(node)), limit),
    {
        let mut out: Vec<NodeLiveQuery> = Vec::new();
        if limit == 0 {
            assert(views_of(out@) =~= Seq::empty());
            return out;
        }
        let mut i: usize = 0;
        proof {
            lemma_take_ends(self@.ndlqs, ndlq_of(node));
            assert(views_of(out@) =~= Seq::empty());
        }
        while i < self.ndlqs.len()
            invariant
                i <= self.ndlqs.len(),
                limit > 0,
                views_of(out@) == self@.ndlqs.take(i as int).filter(ndlq_of(node)),
            decreases self.ndlqs.len() - i,
        {
            let end = page_end(i, self.ndlqs.len(), limit);
            while i < end
                invariant
                    i <= end <= self.ndlqs.len(),
                    views_of(out@) == self@.ndlqs.take(i as int).filter(ndlq_of(node)),
                decreases end - i,
            {
                proof {
                    lemma_filter_take(self@.ndlqs, ndlq_of(node), i as int);
                }
                if self.ndlqs[i].node == node {
                    let row = self.ndlqs[i].duplicate();
                    proof {
                        lemma_views_push(out@, row);
                    }
                    out.push(row);
                }
                i += 1;
            }
        }
        proof {
            lemma_take_ends(self@.ndlqs, ndlq_of(node));
        }
        out
    }

    /// The node live queries of every node, read in pages of `limit`.
    pub fn scan_all_ndlq(&self, limit: u32) -> (out: Vec<NodeLiveQuery>)
        ensures
            views_of(out@) == paged(self@.ndlqs, limit),
    {
        copy_pages(&self.ndlqs, limit)
    }

    fn find_tblq(&self, table: &TableRef, lq: Uuid) -> (found: Option<usize>)
        ensures
            match found {
                Some(i) => i < self@.tblqs.len() && tblq_is(table@, lq)(self@.tblqs[i as int])
                    && find_first(self@.tblqs, tblq_is(table@, lq)) == Some(i as int),
                None => find_first(self@.tblqs, tblq_is(table@, lq)).is_none(),
            },
    {
        let mut i: usize = 0;
        while i < self.tblqs.len()
            invariant
                i <= self.tblqs.len(),
                forall|j: int| 0 <= j < i ==> !tblq_is(table@, lq)(#[trigger] self@.tblqs[j]),
            decreases self.tblqs.len() - i,
        {
            if self.tblqs[i].stmt.id == lq && self.tblqs[i].table.same_as(table) {
                proof {
                    lemma_find_first_is(self@.tblqs, tblq_is(table@, lq), i as int);
                }
                return Some(i);
            }
            i += 1;
        }
        proof {
            lemma_find_first_none(self@.tblqs, tblq_is(table@, lq));
        }
        None
    }

    /// The live query `lq` on `table`.
    pub fn get_tblq(&self, table: &TableRef, lq: Uuid) -> (found: Option<&LiveStatement>)
        ensures
            match found {
                Some(stmt) => self@.tblq_owner(table@, lq) == Some(stmt.node)
                    && self@.tblqs.contains(TableLiveQueryView { table: table@, stmt: stmt@ }),
                None => self@.tblq_owner(table@, lq).is_none(),
            },
    {
        match self.find_tblq(table, lq) {
            Some(i) => {
                assert(self@.tblqs[i as int] == TableLiveQueryView {
                    table: table@,
                    stmt: self.tblqs[i as int].stmt@,
                });
                Some(&self.tblqs[i].stmt)
            },
            None => None,
        }
    }

    /// Writes the live query `stmt` on `table`, if the owner of what is
    /// stored under that key is what the caller expects.
    pub fn putc_tblq(
        &mut self,
        table: &TableRef,
        stmt: LiveStatement,
        expected: Option<Check<Uuid>>,
    ) -> (done: Result<(), Error>)
        requires
            old(self).wf(),
        ensures
            final(self).wf(),
            match done {
                Ok(()) => permitted(old(self)@.tblq_owner(table@, stmt.id), expected)
                    && final(self)@ == (State {
                    tblqs: upsert(
                        old(self)@.tblqs,
                        tblq_is(table@, stmt.id),
                        TableLiveQueryView { table: table@, stmt: stmt@ },
                    ),
                    ..old(self)@
                }),
                Err(e) => e == Error::ConditionNotMet && !permitted(
                    old(self)@.tblq_owner(table@, stmt.id),
                    expected,
                ) && final(self)@ == old(self)@,
            },
    {
        let lq = stmt.id;
        proof {
            lemma_find_first(self@.tblqs, tblq_is(table@, lq));
        }
        let found = self.find_tblq(table, lq);
        let allowed = match &expected {
            None => true,
            Some(Check::Absent) => found.is_none(),
            Some(Check::Equals(owner)) => match found {
                Some(i) => self.tblqs[i].stmt.node == *owner,
                None => false,
            },
        };
        if !allowed {
            return Err(Error::ConditionNotMet);
        }
        let row = TableLiveQuery { table: table.duplicate(), stmt };
        match found {
            Some(i) => {
                proof {
                    lemma_views_update(self.tblqs@, i as int, row);
                }
                self.tblqs.set(i, row);
            },
            None => {
                proof {
                    lemma_views_push(self.tblqs@, row);
                }
                self.tblqs.push(row);
            },
        }
        Ok(())
    }

    /// Deletes the live query `lq` on `table`, if the owner of what is stored
    /// under that key is what the caller expects.
    pub fn del_tblq(&mut self, table: &TableRef, lq: Uuid, expected: Option<Check<Uuid>>) -> (done:
        Result<(), Error>)
        requires
            old(self).wf(),
        ensures
            final(self).wf(),
            match done {
                Ok(()) => permitted(old(self)@.tblq_owner(table@, lq), expected) && final(self)@
                    == (State {
                    tblqs: without(old(self)@.tblqs, tblq_is(table@, lq)),
                    ..old(self)@
                }),
                Err(e) => e == Error::ConditionNotMet && !permitted(
                    old(self)@.tblq_owner(table@, lq),
                    expected,
                ) && final(self)@ == old(self)@,
            },
    {
        let ghost keep = |t: TableLiveQueryView| !tblq_is(table@, lq)(t);
        proof {
            lemma_find_first(self@.tblqs, tblq_is(table@, lq));
            lemma_filter_distinct(self@.tblqs, tblq_key(), keep);
        }
        let found = self.find_tblq(table, lq);
        let allowed = match &expected {
            None => true,
            Some(Check::Absent) => found.is_none(),
            Some(Check::Equals(owner)) => match found {
                Some(i) => self.tblqs[i].stmt.node == *owner,
                None => false,
            },
        };
        if !allowed {
            return Err(Error::ConditionNotMet);
        }
        match found {
            Some(i) => {
                proof {
                    lemma_filter_remove(self@.tblqs, keep, i as int);
                    lemma_views_remove(self.tblqs@, i as int);
                }
                self.tblqs.remove(i);
            },
            None => {
                proof {
                    lemma_filter_all(self@.tblqs, keep);
                }
            },
        }
        Ok(())
    }

    /// The live queries on `table`, read in pages of `limit`.
    pub fn scan_tblq(&self, table: &TableRef, limit: u32) -> (out: Vec<TableLiveQuery>)
        ensures
            views_of(out@) == paged(self@.tblqs.filter(tblq_of(table@)), limit),
    {
        let mut out: Vec<TableLiveQuery> = Vec::new();
        if limit == 0 {
            assert(views_of(out@) =~= Seq::empty());
            return out;
        }
        let mut i: usize = 0;
        proof {
            lemma_take_ends(self@.tblqs, tblq_of(table@));
            assert(views_of(out@) =~= Seq::empty());
        }
        while i < self.tblqs.len()
            invariant
                i <= self.tblqs.len(),
                limit > 0,
                views_of(out@) == self@.tblqs.take(i as int).filter(tblq_of(table@)),
            decreases self.tblqs.len() - i,
        {
            let end = page_end(i, self.tblqs.len(), limit);
            while i < end
                invariant
                    i <= end <= self.tblqs.len(),
                    views_of(out@) == self@.tblqs.take(i as int).filter(tblq_of(table@)),
                decreases end - i,
            {
                proof {
                    lemma_filter_take(self@.tblqs, tblq_of(table@), i as int);
                }
                if self.tblqs[i].table.same_as(table) {
                    let row = self.tblqs[i].duplicate();
                    proof {
                        lemma_views_push(out@, row);
                    }
                    out.push(row);
                }
                i += 1;
            }
        }
        proof {
            lemma_take_ends(self@.tblqs, tblq_of(table@));
        }
        out
    }

    /// The live queries on every table, read in pages of `limit`.
    pub fn scan_all_tblq(&self, limit: u32) -> (out: Vec<TableLiveQuery>)
        ensures
            views_of(out@) == paged(self@.tblqs, limit),
    {
        copy_pages(&self.tblqs, limit)
    }

    fn find_nt(&self, table: &TableRef, lq: Uuid, id: Uuid) -> (found: Option<usize>)
        ensures
            match found {
                Some(i) => i < self@.notifications.len() && nt_is(table@, lq, id)(
                    self@.notifications[i as int],
                ) && find_first(self@.notifications, nt_is(table@, lq, id)) == Some(i as int),
                None => find_first(self@.notifications, nt_is(table@, lq, id)).is_none(),
            },
    {
        let mut i: usize = 0;
        while i < self.notifications.len()
            invariant
                i <= self.notifications.len(),
                forall|j: int|
                    0 <= j < i ==> !nt_is(table@, lq, id)(#[trigger] self@.notifications[j]),
            decreases self.notifications.len() - i,
        {
            if self.notifications[i].id == id && self.notifications[i].lq == lq
                && self.notifications[i].table.same_as(table) {
                proof {
                    lemma_find_first_is(self@.notifications, nt_is(table@, lq, id), i as int);
                }
                return Some(i);
            }
            i += 1;
        }
        proof {
            lemma_find_first_none(self@.notifications, nt_is(table@, lq, id));
        }
        None
    }

    /// Writes a notification under a key that is not in use.
    pub fn put_nt(&mut self, notification: Notification) -> (done: Result<(), Error>)
        requires
            old(self).wf(),
        ensures
            final(self).wf(),
            match done {
                Ok(()) => find_first(
                    old(self)@.notifications,
                    nt_is(notification@.table, notification.lq, notification.id),
                ).is_none() && final(self)@ == (State {
                    notifications: old(self)@.notifications.push(notification@),
                    ..old(self)@
                }),
                Err(e) => e == Error::ConditionNotMet && find_first(
                    old(self)@.notifications,
                    nt_is(notification@.table, notification.lq, notification.id),
                ).is_some() && final(self)@ == old(self)@,
            },
    {
        proof {
            lemma_find_first(
                self@.notifications,
                nt_is(notification@.table, notification.lq, notification.id),
            );
        }
        match self.find_nt(&notification.table, notification.lq, notification.id) {
            Some(_) => Err(Error::ConditionNotMet),
            None => {
                proof {
                    lemma_views_push(self.notifications@, notification);
                }
                self.notifications.push(notification);
                Ok(())
            },
        }
    }

    /// Deletes the notification `id` of live query `lq` on `table`.
    pub fn del_nt(&mut self, table: &TableRef, lq: Uuid, id: Uuid)
        requires
            old(self).wf(),
        ensures
            final(self).wf(),
            final(self)@ == (State {
                notifications: without(old(self)@.notifications, nt_is(table@, lq, id)),
                ..old(self)@
            }),
    {
        let ghost keep = |x: NotificationView| !nt_is(table@, lq, id)(x);
        proof {
            lemma_find_first(self@.notifications, nt_is(table@, lq, id));
            lemma_filter_distinct(self@.notifications, nt_key(), keep);
        }
        match self.find_nt(table, lq, id) {
            Some(i) => {
                proof {
                    lemma_filter_remove(self@.notifications, keep, i as int);
                    lemma_views_remove(self.notifications@, i as int);
                }
                self.notifications.remove(i);
            },
            None => {
                proof {
                    lemma_filter_all(self@.notifications, keep);
                }
            },
        }
    }

    /// The notifications of live query `lq` on `table`, oldest first, read in
    /// pages of `limit`.
    pub fn scan_nt(&self, table: &TableRef, lq: Uuid, limit: u32) -> (out: Vec<Notification>)
        ensures
            views_of(out@) == paged(self@.notifications.filter(nt_of(table@, lq)), limit),
    {
        let mut out: Vec<Notification> = Vec::new();
        if limit == 0 {
            assert(views_of(out@) =~= Seq::empty());
            return out;
        }
        let mut i: usize = 0;
        proof {
            lemma_take_ends(self@.notifications, nt_of(table@, lq));
            assert(views_of(out@) =~= Seq::empty());
        }
        while i < self.notifications.len()
            invariant
                i <= self.notifications.len(),
                limit > 0,
                views_of(out@) == self@.notifications.take(i as int).filter(nt_of(table@, lq)),
            decreases self.notifications.len() - i,
        {
            let end = page_end(i, self.notifications.len(), limit);
            while i < end
                invariant
                    i <= end <= self.notifications.len(),
                    views_of(out@) == self@.notifications.take(i as int).filter(nt_of(table@, lq)),
                decreases end - i,
            {
                proof {
                    lemma_filter_take(self@.notifications, nt_of(table@, lq), i as int);
                }
                if self.notifications[i].lq == lq && self.notifications[i].table.same_as(table) {
                    let row = self.notifications[i].duplicate();
                    proof {
                        lemma_views_push(out@, row);
                    }
                    out.push(row);
                }
                i += 1;
            }
        }
        proof {
            lemma_take_ends(self@.notifications, nt_of(table@, lq));
        }
        out
    }

    /// The number of notifications that wait for live query `lq` on `table`.
    pub fn count_nt(&self, table: &TableRef, lq: Uuid) -> (n: usize)
        ensures
            n == self@.notifications.filter(nt_of(table@, lq)).len(),
    {
        let mut n: usize = 0;
        let mut i: usize = 0;
        proof {
            lemma_take_ends(self@.notifications, nt_of(table@, lq));
        }
        while i < self.notifications.len()
            invariant
                i <= self.notifications.len(),
                n <= i,
                n == self@.notifications.take(i as int).filter(nt_of(table@, lq)).len(),
            decreases self.notifications.len() - i,
        {
            proof {
                lemma_filter_take(self@.notifications, nt_of(table@, lq), i as int);
            }
            if self.notifications[i].lq == lq && self.notifications[i].table.same_as(table) {
                n += 1;
            }
            i += 1;
        }
        proof {
            lemma_take_ends(self@.notifications, nt_of(table@, lq));
        }
        n
    }

    /// The notifications of every live query, oldest first, read in pages of `limit`.
    pub fn scan_all_nt(&self, limit: u32) -> (out: Vec<Notification>)
        ensures
            views_of(out@) == paged(self@.notifications, limit),
    {
        copy_pages(&self.notifications, limit)
    }

    /// A copy of the store.
    pub fn snapshot(&self) -> (copy: Self)
        ensures
            copy@ == self@,
    {
        let copy = Tables {
            nodes: self.nodes.clone(),
            heartbeats: self.heartbeats.clone(),
            ndlqs: duplicate_all(&self.ndlqs),
            tblqs: duplicate_all(&self.tblqs),
            notifications: duplicate_all(&self.notifications),
        };
        assert(copy.nodes@ =~= self.nodes@);
        assert(copy.heartbeats@ =~= self.heartbeats@);
        copy
    }
}

} // verus!
