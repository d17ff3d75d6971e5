//! The live-query registry: a live query is registered by writing its two
//! halves, one under the node that subscribes and one under the table that
//! is watched.

use vstd::prelude::*;
use crate::error::Error;
use crate::ident::{TableRef, TableView, Uuid};
use crate::record::{Check, LiveStatement, LiveStatementView, NodeLiveQueryView, TableLiveQueryView};
use crate::seqs::{
    Duplicate, lemma_filter_all, lemma_filter_distinct, lemma_filter_ext, lemma_filter_filter,
    lemma_filter_member, lemma_find_first, lemma_find_first_push, lemma_take_push, lemma_views_push,
    views_of, without,
};
use crate::tables::{
    lemma_del_ndlq_exact, lemma_del_tblq_exact, lemma_tblq_owner, ndlq_exactly, ndlq_for, ndlq_is,
    ndlq_key, ndlq_of, State, Tables, tblq_is, tblq_key, tblq_of, tblq_owned,
};

verus! {

/// The live query of a table live query.
pub open spec fn stmt_of() -> spec_fn(TableLiveQueryView) -> LiveStatementView {
    |t: TableLiveQueryView| t.stmt
}

/// The live queries that watch `table`, in the order of their registration.
pub open spec fn watchers(s: State, table: TableView) -> Seq<LiveStatementView> {
    s.tblqs.filter(tblq_of(table)).map_values(stmt_of())
}

/// Whether the live query `stmt` can be registered on `table`: neither of
/// its two keys is in use.
pub open spec fn can_register(s: State, table: TableView, stmt: LiveStatementView) -> bool {
    s.tblq_owner(table, stmt.id).is_none() && s.ndlq_table(stmt.node, stmt.id).is_none()
}

/// The store after the live query `stmt` was registered on `table`.
pub open spec fn after_register(s: State, table: TableView, stmt: LiveStatementView) -> State {
    State {
        ndlqs: s.ndlqs.push(NodeLiveQueryView { node: stmt.node, lq: stmt.id, table }),
        tblqs: s.tblqs.push(TableLiveQueryView { table, stmt }),
        ..s
    }
}

/// The store after the registration of live query `lq` by `node` on `table`
/// was taken back: both of its halves are gone, and no other record is.
pub open spec fn after_deregister(s: State, node: Uuid, lq: Uuid, table: TableView) -> State {
    State {
        ndlqs: without(s.ndlqs, ndlq_exactly(node, lq, table)),
        tblqs: without(s.tblqs, tblq_owned(table, lq, node)),
        ..s
    }
}

/// The two halves of the registry agree: every node live query has its
/// table live query, owned by that node, and every table live query has the
/// node live query of its owner.
pub open spec fn consistent(s: State) -> bool {
    &&& forall|i: int|
        0 <= i < s.ndlqs.len() ==> s.tblq_owner(
            (#[trigger] s.ndlqs[i]).table,
            s.ndlqs[i].lq,
        ) == Some(s.ndlqs[i].node)
    &&& forall|j: int| 0 <= j < s.tblqs.len() ==> s.ndlqs.contains(ndlq_for(#[trigger] s.tblqs[j]))
}

/// The live queries on `table` that a scan of the node live queries of
/// `node` lists.
pub open spec fn node_side(s: State, node: Uuid, table: TableView) -> Set<Uuid> {
    Set::new(
        |lq: Uuid|
            s.ndlqs.filter(ndlq_of(node)).contains(NodeLiveQueryView { node, lq, table }),
    )
}

/// The live queries of `node` that a scan of the table live queries of
/// `table` lists.
pub open spec fn table_side(s: State, node: Uuid, table: TableView) -> Set<Uuid> {
    Set::new(
        |lq: Uuid|
            exists|j: int|
                0 <= j < s.tblqs.filter(tblq_of(table)).len() && tblq_owned(table, lq, node)(
                    #[trigger] s.tblqs.filter(tblq_of(table))[j],
                ),
    )
}

impl Tables {
    /// Registers the live query `stmt` on `table` for the node `stmt.node`:
    /// writes the table's half, then the node's half, each on the condition
    /// that its key is not in use. Where either condition fails nothing is
    /// left written.
    pub fn register(&mut self, table: &TableRef, stmt: LiveStatement) -> (done: Result<(), Error>)
        requires
            old(self).wf(),
        ensures
            final(self).wf(),
            match done {
                Ok(()) => can_register(old(self)@, table@, stmt@) && final(self)@
                    == after_register(old(self)@, table@, stmt@),
                Err(e) => e == Error::ConditionNotMet && !can_register(old(self)@, table@, stmt@)
                    && final(self)@ == old(self)@,
            },
    {
        let node = stmt.node;
        let lq = stmt.id;
        let ghost row = TableLiveQueryView { table: table@, stmt: stmt@ };
        proof {
            lemma_find_first(self@.tblqs, tblq_is(table@, lq));
            lemma_find_first(self@.ndlqs, ndlq_is(node, lq));
        }
        match self.putc_tblq(table, stmt, Some(Check::Absent)) {
            Ok(()) => {},
            Err(e) => {
                return Err(e);
            },
        }
        match self.putc_ndlq(node, lq, table, Some(Check::Absent)) {
            Ok(()) => Ok(()),
            Err(e) => {
                proof {
                    let keep = |t: TableLiveQueryView| !tblq_is(table@, lq)(t);
                    old(self)@.tblqs.lemma_filter_push(row, keep);
                    lemma_filter_all(old(self)@.tblqs, keep);
                }
                let undone = self.del_tblq(table, lq, None);
                Err(e)
            },
        }
    }

    /// Takes back the registration of live query `lq` by `node` on `table`.
    /// Where there is no such registration nothing changes.
    pub fn deregister(&mut self, node: Uuid, lq: Uuid, table: &TableRef)
        requires
            old(self).wf(),
        ensures
            final(self).wf(),
            final(self)@ == after_deregister(old(self)@, node, lq, table@),
    {
        proof {
            lemma_del_ndlq_exact(self@, node, lq, table@);
        }
        let first = self.del_ndlq(node, lq, Some(Check::Equals(table.duplicate())));
        proof {
            lemma_del_tblq_exact(self@, table@, lq, node);
        }
        let second = self.del_tblq(table, lq, Some(Check::Equals(node)));
    }

    /// The live queries that watch `table`, read in pages of `limit`.
    pub fn lookup(&self, table: &TableRef, limit: u32) -> (out: Vec<LiveStatement>)
        ensures
            views_of(out@) == if limit == 0 {
                Seq::empty()
            } else {
                watchers(self@, table@)
            },
    {
        let rows = self.scan_tblq(table, limit);
        let mut out: Vec<LiveStatement> = Vec::new();
        let mut i: usize = 0;
        assert(views_of(out@) =~= views_of(rows@).take(0).map_values(stmt_of()));
        while i < rows.len()
            invariant
                i <= rows.len(),
                views_of(out@) == views_of(rows@).take(i as int).map_values(stmt_of()),
            decreases rows.len() - i,
        {
            let stmt = rows[i].stmt.duplicate();
            proof {
                lemma_views_push(out@, stmt);
                lemma_take_push(views_of(rows@), i as int);
                assert(views_of(rows@).take(i as int).push(views_of(rows@)[i as int]).map_values(
                    stmt_of(),
                ) =~= views_of(rows@).take(i as int).map_values(stmt_of()).push(stmt@));
            }
            out.push(stmt);
            i += 1;
        }
        assert(views_of(rows@).take(i as int) =~= views_of(rows@));
        assert(limit == 0 ==> views_of(rows@).map_values(stmt_of()) =~= Seq::empty());
        out
    }
}

/// A step of a transaction on the registry.
pub enum RegistryOp {
    Register { table: TableView, stmt: LiveStatementView },
    Deregister { node: Uuid, lq: Uuid, table: TableView },
}

/// The store after one step; nothing where the step fails, which aborts the
/// transaction.
pub open spec fn apply(s: State, op: RegistryOp) -> Option<State> {
    match op {
        RegistryOp::Register { table, stmt } => if can_register(s, table, stmt) {
            Some(after_register(s, table, stmt))
        } else {
            None
        },
        RegistryOp::Deregister { node, lq, table } => Some(after_deregister(s, node, lq, table)),
    }
}

/// The store after the steps `ops`, taken in order; nothing where one of them fails.
pub open spec fn apply_all(s: State, ops: Seq<RegistryOp>) -> Option<State>
    decreases ops.len(),
{
    if ops.len() == 0 {
        Some(s)
    } else {
        match apply_all(s, ops.drop_last()) {
            Some(before) => apply(before, ops.last()),
            None => None,
        }
    }
}

/// A registration keeps the two halves of the registry in agreement.
pub proof fn lemma_register_consistent(s: State, table: TableView, stmt: LiveStatementView)
    requires
        s.wf(),
        consistent(s),
        can_register(s, table, stmt),
    ensures
        after_register(s, table, stmt).wf(),
        consistent(after_register(s, table, stmt)),
{
    let after = after_register(s, table, stmt);
    let row = TableLiveQueryView { table, stmt };
    let half = NodeLiveQueryView { node: stmt.node, lq: stmt.id, table };
    lemma_find_first(s.tblqs, tblq_is(table, stmt.id));
    lemma_find_first(s.ndlqs, ndlq_is(stmt.node, stmt.id));
    assert(after.wf());
    assert forall|i: int| 0 <= i < after.ndlqs.len() implies after.tblq_owner(
        (#[trigger] after.ndlqs[i]).table,
        after.ndlqs[i].lq,
    ) == Some(after.ndlqs[i].node) by {
        let e = after.ndlqs[i];
        lemma_find_first_push(s.tblqs, tblq_is(e.table, e.lq), row);
        if i < s.ndlqs.len() {
            assert(e == s.ndlqs[i]);
            lemma_find_first(s.tblqs, tblq_is(e.table, e.lq));
        }
    }
    assert forall|j: int| 0 <= j < after.tblqs.len() implies after.ndlqs.contains(
        ndlq_for(#[trigger] after.tblqs[j]),
    ) by {
        if j < s.tblqs.len() {
            assert(after.tblqs[j] == s.tblqs[j]);
            let k = choose|k: int| 0 <= k < s.ndlqs.len() && s.ndlqs[k] == ndlq_for(s.tblqs[j]);
            assert(after.ndlqs[k] == ndlq_for(s.tblqs[j]));
        } else {
            assert(after.ndlqs[s.ndlqs.len() as int] == half);
        }
    }
}

/// Taking a registration back keeps the two halves of the registry in agreement.
pub proof fn lemma_deregister_consistent(s: State, node: Uuid, lq: Uuid, table: TableView)
    requires
        s.wf(),
        consistent(s),
    ensures
        after_deregister(s, node, lq, table).wf(),
        consistent(after_deregister(s, node, lq, table)),
{
    let after = after_deregister(s, node, lq, table);
    let keep_half = |e: NodeLiveQueryView| !ndlq_exactly(node, lq, table)(e);
    let keep_row = |t: TableLiveQueryView| !tblq_owned(table, lq, node)(t);
    lemma_filter_distinct(s.ndlqs, ndlq_key(), keep_half);
    lemma_filter_distinct(s.tblqs, tblq_key(), keep_row);
    assert forall|i: int| 0 <= i < after.ndlqs.len() implies after.tblq_owner(
        (#[trigger] after.ndlqs[i]).table,
        after.ndlqs[i].lq,
    ) == Some(after.ndlqs[i].node) by {
        let e = after.ndlqs[i];
        assert(after.ndlqs.contains(e));
        lemma_filter_member(s.ndlqs, keep_half, e);
        let k = choose|k: int| 0 <= k < s.ndlqs.len() && s.ndlqs[k] == e;
        lemma_del_tblq_exact(s, e.table, e.lq, e.node);
        let j = choose|j: int|
            0 <= j < s.tblqs.len() && tblq_owned(e.table, e.lq, e.node)(#[trigger] s.tblqs[j]);
        lemma_filter_member(s.tblqs, keep_row, s.tblqs[j]);
        lemma_tblq_owner(after, s.tblqs[j]);
    }
    assert forall|j: int| 0 <= j < after.tblqs.len() implies after.ndlqs.contains(
        ndlq_for(#[trigger] after.tblqs[j]),
    ) by {
        let t = after.tblqs[j];
        assert(after.tblqs.contains(t));
        lemma_filter_member(s.tblqs, keep_row, t);
        let k = choose|k: int| 0 <= k < s.tblqs.len() && s.tblqs[k] == t;
        lemma_filter_member(s.ndlqs, keep_half, ndlq_for(t));
    }
}

/// In a store whose registry halves agree, a scan of the node live queries
/// of a node and a scan of the table live queries of a table list the same
/// live queries of that node on that table.
pub proof fn lemma_scans_agree(s: State, node: Uuid, table: TableView)
    requires
        s.wf(),
        consistent(s),
    ensures
        node_side(s, node, table) == table_side(s, node, table),
{
    let rows = s.tblqs.filter(tblq_of(table));
    assert forall|lq: Uuid| node_side(s, node, table).contains(lq) implies table_side(
        s,
        node,
        table,
    ).contains(lq) by {
        let half = NodeLiveQueryView { node, lq, table };
        lemma_filter_member(s.ndlqs, ndlq_of(node), half);
        let i = choose|i: int| 0 <= i < s.ndlqs.len() && s.ndlqs[i] == half;
        lemma_del_tblq_exact(s, table, lq, node);
        let j = choose|j: int|
            0 <= j < s.tblqs.len() && tblq_owned(table, lq, node)(#[trigger] s.tblqs[j]);
        lemma_filter_member(s.tblqs, tblq_of(table), s.tblqs[j]);
        let k = choose|k: int| 0 <= k < rows.len() && rows[k] == s.tblqs[j];
        assert(tblq_owned(table, lq, node)(rows[k]));
    }
    assert forall|lq: Uuid| table_side(s, node, table).contains(lq) implies node_side(
        s,
        node,
        table,
    ).contains(lq) by {
        let k = choose|k: int| 0 <= k < rows.len() && tblq_owned(table, lq, node)(#[trigger] rows[k]);
        assert(rows.contains(rows[k]));
        lemma_filter_member(s.tblqs, tblq_of(table), rows[k]);
        let j = choose|j: int| 0 <= j < s.tblqs.len() && s.tblqs[j] == rows[k];
        assert(s.ndlqs.contains(ndlq_for(s.tblqs[j])));
        lemma_filter_member(s.ndlqs, ndlq_of(node), NodeLiveQueryView { node, lq, table });
    }
    assert(node_side(s, node, table) =~= table_side(s, node, table));
}

/// After any run of registrations and deregistrations that all succeed on a
/// store whose registry halves agree, the halves still agree, and the two
/// scans list the same live queries of every node on every table.
pub proof fn lemma_registry_runs(s: State, ops: Seq<RegistryOp>, node: Uuid, table: TableView)
    requires
        s.wf(),
        consistent(s),
        apply_all(s, ops).is_some(),
    ensures
        apply_all(s, ops).unwrap().wf(),
        consistent(apply_all(s, ops).unwrap()),
        node_side(apply_all(s, ops).unwrap(), node, table) == table_side(
            apply_all(s, ops).unwrap(),
            node,
            table,
        ),
    decreases ops.len(),
{
    if ops.len() > 0 {
        lemma_registry_runs(s, ops.drop_last(), node, table);
        let before = apply_all(s, ops.drop_last()).unwrap();
        match ops.last() {
            RegistryOp::Register { table: t, stmt } => {
                lemma_register_consistent(before, t, stmt);
            },
            RegistryOp::Deregister { node: n, lq, table: t } => {
                lemma_deregister_consistent(before, n, lq, t);
            },
        }
    }
    lemma_scans_agree(apply_all(s, ops).unwrap(), node, table);
}

/// Taking a registration back twice is taking it back once.
pub proof fn lemma_deregister_idempotent(s: State, node: Uuid, lq: Uuid, table: TableView)
    ensures
        after_deregister(after_deregister(s, node, lq, table), node, lq, table)
            == after_deregister(s, node, lq, table),
{
    let keep_half = |e: NodeLiveQueryView| !ndlq_exactly(node, lq, table)(e);
    let keep_row = |t: TableLiveQueryView| !tblq_owned(table, lq, node)(t);
    lemma_filter_filter(s.ndlqs, keep_half, keep_half);
    lemma_filter_ext(s.ndlqs, |e: NodeLiveQueryView| keep_half(e) && keep_half(e), keep_half);
    lemma_filter_filter(s.tblqs, keep_row, keep_row);
    lemma_filter_ext(s.tblqs, |t: TableLiveQueryView| keep_row(t) && keep_row(t), keep_row);
}

/// Taking back a registration that is not there changes nothing.
pub proof fn lemma_deregister_absent(s: State, node: Uuid, lq: Uuid, table: TableView)
    requires
        !s.ndlqs.contains(NodeLiveQueryView { node, lq, table }),
        forall|j: int| 0 <= j < s.tblqs.len() ==> !tblq_owned(table, lq, node)(#[trigger] s.tblqs[j]),
    ensures
        after_deregister(s, node, lq, table) == s,
{
    let keep_half = |e: NodeLiveQueryView| !ndlq_exactly(node, lq, table)(e);
    let keep_row = |t: TableLiveQueryView| !tblq_owned(table, lq, node)(t);
    assert forall|i: int| 0 <= i < s.ndlqs.len() implies keep_half(#[trigger] s.ndlqs[i]) by {
        if !keep_half(s.ndlqs[i]) {
            assert(s.ndlqs[i] == NodeLiveQueryView { node, lq, table });
        }
    }
    lemma_filter_all(s.ndlqs, keep_half);
    lemma_filter_all(s.tblqs, keep_row);
}

/// Taking back a registration that was just made undoes it.
pub proof fn lemma_deregister_undoes_register(
    s: State,
    table: TableView,
    stmt: LiveStatementView,
)
    requires
        s.wf(),
        can_register(s, table, stmt),
    ensures
        after_deregister(after_register(s, table, stmt), stmt.node, stmt.id, table) == s,
{
    let keep_half = |e: NodeLiveQueryView| !ndlq_exactly(stmt.node, stmt.id, table)(e);
    let keep_row = |t: TableLiveQueryView| !tblq_owned(table, stmt.id, stmt.node)(t);
    lemma_find_first(s.ndlqs, ndlq_is(stmt.node, stmt.id));
    lemma_find_first(s.tblqs, tblq_is(table, stmt.id));
    s.ndlqs.lemma_filter_push(
        NodeLiveQueryView { node: stmt.node, lq: stmt.id, table },
        keep_half,
    );
    s.tblqs.lemma_filter_push(TableLiveQueryView { table, stmt }, keep_row);
    lemma_filter_all(s.ndlqs, keep_half);
    lemma_filter_all(s.tblqs, keep_row);
}

} // verus!
