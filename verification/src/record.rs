//! The records that the bookkeeping is made of.

use vstd::prelude::*;
use crate::document::{Document, FieldView};
use crate::filter::{ClauseView, Filter};
use crate::ident::{TableRef, TableView, Uuid};
use crate::seqs::{Duplicate, duplicate_all, duplicate_option, option_view, views_of};

verus! {

/// A member of the cluster.
#[derive(Clone, Copy, Debug, PartialEq, Eq, Structural)]
pub struct Node {
    pub id: Uuid,
}

impl Node {
    /// The display name of the node: its id in hyphenated form.
    pub fn name(&self) -> (name: String)
        ensures
            name@ == crate::ident::uuid_text(self.id.0),
    {
        self.id.to_text()
    }
}

/// A mark that a node was alive at a time.
#[derive(Clone, Copy, Debug, PartialEq, Eq, Structural)]
pub struct Heartbeat {
    pub ts: u64,
    pub node: Uuid,
}

/// The mathematical value of a [`NodeLiveQuery`].
pub struct NodeLiveQueryView {
    pub node: Uuid,
    pub lq: Uuid,
    pub table: TableView,
}

/// The node's half of a registration: `node` subscribes to live query `lq`,
/// which watches `table`.
#[derive(Clone, Debug, PartialEq, Eq)]
pub struct NodeLiveQuery {
    pub node: Uuid,
    pub lq: Uuid,
    pub table: TableRef,
}

impl View for NodeLiveQuery {
    type V = NodeLiveQueryView;

    open spec fn view(&self) -> NodeLiveQueryView {
        NodeLiveQueryView { node: self.node, lq: self.lq, table: self.table@ }
    }
}

impl Duplicate for NodeLiveQuery {
    fn duplicate(&self) -> (copy: Self) {
        NodeLiveQuery { node: self.node, lq: self.lq, table: self.table.duplicate() }
    }
}

/// The mathematical value of a [`LiveStatement`].
pub struct LiveStatementView {
    pub id: Uuid,
    pub node: Uuid,
    pub filter: Seq<ClauseView>,
    pub projection: Seq<Seq<char>>,
}

/// A live query: its id, the node that owns it, its filter and the fields
/// it selects (none named: all of them).
#[derive(Clone, Debug, PartialEq, Eq)]
pub struct LiveStatement {
    pub id: Uuid,
    pub node: Uuid,
    pub filter: Filter,
    pub projection: Vec<String>,
}

impl View for LiveStatement {
    type V = LiveStatementView;

    open spec fn view(&self) -> LiveStatementView {
        LiveStatementView {
            id: self.id,
            node: self.node,
            filter: self.filter@,
            projection: views_of(self.projection@),
        }
    }
}

impl Duplicate for LiveStatement {
    fn duplicate(&self) -> (copy: Self) {
        LiveStatement {
            id: self.id,
            node: self.node,
            filter: self.filter.duplicate(),
            projection: duplicate_all(&self.projection),
        }
    }
}

impl LiveStatement {
    /// A live query on every record and every field.
    pub fn new(id: Uuid, node: Uuid) -> (stmt: Self)
        ensures
            stmt@ == (LiveStatementView {
                id,
                node,
                filter: Seq::<ClauseView>::empty(),
                projection: Seq::<Seq<char>>::empty(),
            }),
    {
        let stmt = LiveStatement { id, node, filter: Filter::all(), projection: Vec::new() };
        assert(views_of(stmt.projection@) =~= Seq::<Seq<char>>::empty());
        stmt
    }
}

/// The mathematical value of a [`TableLiveQuery`].
pub struct TableLiveQueryView {
    pub table: TableView,
    pub stmt: LiveStatementView,
}

/// The table's half of a registration: the live query `stmt` watches `table`.
#[derive(Clone, Debug, PartialEq, Eq)]
pub struct TableLiveQuery {
    pub table: TableRef,
    pub stmt: LiveStatement,
}

impl View for TableLiveQuery {
    type V = TableLiveQueryView;

    open spec fn view(&self) -> TableLiveQueryView {
        TableLiveQueryView { table: self.table@, stmt: self.stmt@ }
    }
}

impl Duplicate for TableLiveQuery {
    fn duplicate(&self) -> (copy: Self) {
        TableLiveQuery { table: self.table.duplicate(), stmt: self.stmt.duplicate() }
    }
}

/// What happened to a record.
#[derive(Clone, Copy, Debug, PartialEq, Eq, Structural)]
pub enum Action {
    Create,
    Update,
    Delete,
}

/// The mathematical value of a [`Notification`].
pub struct NotificationView {
    pub table: TableView,
    pub lq: Uuid,
    pub id: Uuid,
    pub action: Action,
    pub record: Seq<char>,
    pub before: Option<Seq<FieldView>>,
    pub after: Option<Seq<FieldView>>,
    pub ts: u64,
}

/// One change of one record, published to one live query.
#[derive(Clone, Debug, PartialEq, Eq)]
pub struct Notification {
    pub table: TableRef,
    pub lq: Uuid,
    pub id: Uuid,
    pub action: Action,
    pub record: String,
    pub before: Option<Document>,
    pub after: Option<Document>,
    pub ts: u64,
}

impl View for Notification {
    type V = NotificationView;

    open spec fn view(&self) -> NotificationView {
        NotificationView {
            table: self.table@,
            lq: self.lq,
            id: self.id,
            action: self.action,
            record: self.record@,
            before: option_view(self.before),
            after: option_view(self.after),
            ts: self.ts,
        }
    }
}

impl Duplicate for Notification {
    fn duplicate(&self) -> (copy: Self) {
        Notification {
            table: self.table.duplicate(),
            lq: self.lq,
            id: self.id,
            action: self.action,
            record: self.record.clone(),
            before: duplicate_option(&self.before),
            after: duplicate_option(&self.after),
            ts: self.ts,
        }
    }
}

/// What a conditional write expects to find under its key.
#[derive(Clone, Debug, PartialEq, Eq)]
pub enum Check<T> {
    /// Nothing is stored under the key.
    Absent,
    /// Something is stored under the key, and it agrees with this.
    Equals(T),
}

/// Whether a conditional write may go ahead: `stored` is what the key holds,
/// `expected` what the caller asked for (nothing: no condition).
pub open spec fn permitted<V>(stored: Option<V>, expected: Option<Check<V>>) -> bool {
    match expected {
        None => true,
        Some(Check::Absent) => stored.is_none(),
        Some(Check::Equals(v)) => stored == Some(v),
    }
}

/// The mathematical value of a condition on a table name.
pub open spec fn table_check_view(expected: Option<Check<TableRef>>) -> Option<Check<TableView>> {
    match expected {
        None => None,
        Some(Check::Absent) => Some(Check::Absent),
        Some(Check::Equals(t)) => Some(Check::Equals(t@)),
    }
}

} // verus!
