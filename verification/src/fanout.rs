//! Notification fan-out: matches the changes of a committing transaction
//! against the live queries of the tables they touched.

use vstd::prelude::*;
use crate::capture::{Change, ChangeView, image_of};
use crate::document::{Document, FieldView};
use crate::error::Error;
use crate::filter::filter_holds;
use crate::ident::{TableRef, TableView, Uuid};
use crate::record::{Action, LiveStatement, LiveStatementView, Notification, NotificationView};
use crate::registry::watchers;
use crate::seqs::{
    distinct_by, Duplicate, duplicate_option, lemma_take_push, lemma_views_push, option_view, paged,
    views_of,
};
use crate::tables::{nt_is, nt_key, State, Tables};

verus! {

/// The mathematical value of a [`Draft`].
pub struct DraftView {
    pub table: TableView,
    pub lq: Uuid,
    pub action: Action,
    pub record: Seq<char>,
    pub before: Option<Seq<FieldView>>,
    pub after: Option<Seq<FieldView>>,
}

/// A notification that has not been given its id and its time yet.
#[derive(Clone, Debug, PartialEq, Eq)]
pub struct Draft {
    pub table: TableRef,
    pub lq: Uuid,
    pub action: Action,
    pub record: String,
    pub before: Option<Document>,
    pub after: Option<Document>,
}

impl View for Draft {
    type V = DraftView;

    open spec fn view(&self) -> DraftView {
        DraftView {
            table: self.table@,
            lq: self.lq,
            action: self.action,
            record: self.record@,
            before: option_view(self.before),
            after: option_view(self.after),
        }
    }
}

/// The notification of `change` for the live query `lq`, without id and time.
pub open spec fn draft_of(change: ChangeView, lq: Uuid) -> DraftView {
    DraftView {
        table: change.table,
        lq,
        action: change.action,
        record: change.record,
        before: change.before,
        after: change.after,
    }
}

/// The notifications that the live query `stmt` on `table` gets of
/// `changes`: one for each change of a record of `table` whose image meets
/// the filter, in the order of the changes. Nothing where the filter cannot
/// be evaluated on one of these images.
pub open spec fn drafts_of_query(
    stmt: LiveStatementView,
    table: TableView,
    changes: Seq<ChangeView>,
) -> Option<Seq<DraftView>>
    decreases changes.len(),
{
    if changes.len() == 0 {
        Some(Seq::empty())
    } else {
        match drafts_of_query(stmt, table, changes.drop_last()) {
            None => None,
            Some(front) => if changes.last().table != table {
                Some(front)
            } else {
                match filter_holds(stmt.filter, image_of(changes.last())) {
                    None => None,
                    Some(true) => Some(front.push(draft_of(changes.last(), stmt.id))),
                    Some(false) => Some(front),
                }
            },
        }
    }
}

/// The notifications that the live queries `stmts` on `table` get of
/// `changes`: those of the first live query, then those of the second, and
/// so on.
pub open spec fn drafts_of_table(
    stmts: Seq<LiveStatementView>,
    table: TableView,
    changes: Seq<ChangeView>,
) -> Option<Seq<DraftView>>
    decreases stmts.len(),
{
    if stmts.len() == 0 {
        Some(Seq::empty())
    } else {
        match (
            drafts_of_table(stmts.drop_last(), table, changes),
            drafts_of_query(stmts.last(), table, changes),
        ) {
            (Some(front), Some(back)) => Some(front + back),
            _ => None,
        }
    }
}

/// The tables that `changes` touch, each once, in the order in which they
/// are first touched.
pub open spec fn touched_tables(changes: Seq<ChangeView>) -> Seq<TableView>
    decreases changes.len(),
{
    if changes.len() == 0 {
        Seq::empty()
    } else {
        let front = touched_tables(changes.drop_last());
        if front.contains(changes.last().table) {
            front
        } else {
            front.push(changes.last().table)
        }
    }
}

/// The live queries that a lookup of `table` finds when it reads pages of `limit`.
pub open spec fn looked_up(s: State, table: TableView, limit: u32) -> Seq<LiveStatementView> {
    paged(watchers(s, table), limit)
}

/// The notifications of `changes` for the live queries on `tables`, table by table.
pub open spec fn drafts_of_tables(
    tables: Seq<TableView>,
    s: State,
    changes: Seq<ChangeView>,
    limit: u32,
) -> Option<Seq<DraftView>>
    decreases tables.len(),
{
    if tables.len() == 0 {
        Some(Seq::empty())
    } else {
        match (
            drafts_of_tables(tables.drop_last(), s, changes, limit),
            drafts_of_table(looked_up(s, tables.last(), limit), tables.last(), changes),
        ) {
            (Some(front), Some(back)) => Some(front + back),
            _ => None,
        }
    }
}

/// The notifications that the changes of a transaction give rise to: the
/// changes are grouped by table, the tables taken in the order in which they
/// are first touched; for each table its live queries are looked up and
/// taken in the order of their registration; each gets one notification for
/// each change of the group that meets its filter, in the order of the
/// changes. Nothing where a filter cannot be evaluated.
pub open spec fn fanout(s: State, changes: Seq<ChangeView>, limit: u32) -> Option<Seq<DraftView>> {
    drafts_of_tables(touched_tables(changes), s, changes, limit)
}

/// The notification that a draft becomes with an id and a time.
pub open spec fn stamped(draft: DraftView, id: Uuid, ts: u64) -> NotificationView {
    NotificationView {
        table: draft.table,
        lq: draft.lq,
        id,
        action: draft.action,
        record: draft.record,
        before: draft.before,
        after: draft.after,
        ts,
    }
}

/// The notifications that `drafts` become with the ids `ids`, in order, and the time `ts`.
pub open spec fn stamp_all(drafts: Seq<DraftView>, ids: Seq<Uuid>, ts: u64) -> Seq<
    NotificationView,
> {
    Seq::new(drafts.len(), |k: int| stamped(drafts[k], ids[k], ts))
}

/// A failure on a part of the changes is a failure on all of them.
pub proof fn lemma_query_fails(
    stmt: LiveStatementView,
    table: TableView,
    changes: Seq<ChangeView>,
    i: int,
)
    requires
        0 <= i <= changes.len(),
        drafts_of_query(stmt, table, changes.take(i)).is_none(),
    ensures
        drafts_of_query(stmt, table, changes).is_none(),
    decreases changes.len() - i,
{
    if i < changes.len() {
        assert(changes.take(i + 1).drop_last() =~= changes.take(i));
        lemma_query_fails(stmt, table, changes, i + 1);
    } else {
        assert(changes.take(i) =~= changes);
    }
}

/// A failure for some of the live queries is a failure for all of them.
pub proof fn lemma_table_fails(
    stmts: Seq<LiveStatementView>,
    table: TableView,
    changes: Seq<ChangeView>,
    i: int,
)
    requires
        0 <= i <= stmts.len(),
        drafts_of_table(stmts.take(i), table, changes).is_none(),
    ensures
        drafts_of_table(stmts, table, changes).is_none(),
    decreases stmts.len() - i,
{
    if i < stmts.len() {
        assert(stmts.take(i + 1).drop_last() =~= stmts.take(i));
        lemma_table_fails(stmts, table, changes, i + 1);
    } else {
        assert(stmts.take(i) =~= stmts);
    }
}

/// A failure on some of the tables is a failure on all of them.
pub proof fn lemma_tables_fail(
    tables: Seq<TableView>,
    s: State,
    changes: Seq<ChangeView>,
    limit: u32,
    i: int,
)
    requires
        0 <= i <= tables.len(),
        drafts_of_tables(tables.take(i), s, changes, limit).is_none(),
    ensures
        drafts_of_tables(tables, s, changes, limit).is_none(),
    decreases tables.len() - i,
{
    if i < tables.len() {
        assert(tables.take(i + 1).drop_last() =~= tables.take(i));
        lemma_tables_fail(tables, s, changes, limit, i + 1);
    } else {
        assert(tables.take(i) =~= tables);
    }
}

/// The notifications depend on the changes and on the table live queries
/// alone: two stores with the same table live queries give the same
/// notifications for the same changes.
pub proof fn lemma_fanout_deterministic(a: State, b: State, changes: Seq<ChangeView>, limit: u32)
    requires
        a.tblqs == b.tblqs,
    ensures
        fanout(a, changes, limit) == fanout(b, changes, limit),
{
    lemma_tables_deterministic(touched_tables(changes), a, b, changes, limit);
}

/// The same, table by table.
pub proof fn lemma_tables_deterministic(
    tables: Seq<TableView>,
    a: State,
    b: State,
    changes: Seq<ChangeView>,
    limit: u32,
)
    requires
        a.tblqs == b.tblqs,
    ensures
        drafts_of_tables(tables, a, changes, limit) == drafts_of_tables(tables, b, changes, limit),
    decreases tables.len(),
{
    if tables.len() > 0 {
        lemma_tables_deterministic(tables.drop_last(), a, b, changes, limit);
    }
}

/// The ids and the time that the notifications are given change nothing
/// else about them.
pub proof fn lemma_stamps_only_stamp(
    drafts: Seq<DraftView>,
    ids: Seq<Uuid>,
    ts: u64,
    other_ids: Seq<Uuid>,
    other_ts: u64,
    k: int,
)
    requires
        0 <= k < drafts.len(),
    ensures
        stamp_all(drafts, ids, ts).len() == drafts.len(),
        stamp_all(drafts, ids, ts)[k] == (NotificationView {
            id: ids[k],
            ts,
            ..stamp_all(drafts, other_ids, other_ts)[k]
        }),
{
}

/// Whether `table` is among `tables`.
pub fn has_table(tables: &Vec<TableRef>, table: &TableRef) -> (found: bool)
    ensures
        found == views_of(tables@).contains(table@),
{
    let mut i: usize = 0;
    while i < tables.len()
        invariant
            i <= tables.len(),
            forall|j: int| 0 <= j < i ==> views_of(tables@)[j] != table@,
        decreases tables.len() - i,
    {
        if tables[i].same_as(table) {
            assert(views_of(tables@)[i as int] == table@);
            return true;
        }
        i += 1;
    }
    false
}

/// The tables that `changes` touch, each once, in the order in which they
/// are first touched.
pub fn tables_touched(changes: &Vec<Change>) -> (tables: Vec<TableRef>)
    ensures
        views_of(tables@) == touched_tables(views_of(changes@)),
{
    let mut tables: Vec<TableRef> = Vec::new();
    let mut i: usize = 0;
    let ghost all = views_of(changes@);
    assert(all.take(0) =~= Seq::<ChangeView>::empty());
    assert(views_of(tables@) =~= Seq::<TableView>::empty());
    while i < changes.len()
        invariant
            i <= changes.len(),
            all == views_of(changes@),
            views_of(tables@) == touched_tables(all.take(i as int)),
        decreases changes.len() - i,
    {
        proof {
            assert(all.take(i as int + 1).drop_last() =~= all.take(i as int));
            assert(all.take(i as int + 1).last() == changes@[i as int]@);
        }
        if !has_table(&tables, &changes[i].table) {
            let table = changes[i].table.duplicate();
            proof {
                lemma_views_push(tables@, table);
            }
            tables.push(table);
        }
        i += 1;
    }
    assert(all.take(i as int) =~= all);
    tables
}

/// The notifications that the live query `stmt` on `table` gets of `changes`.
pub fn query_drafts(stmt: &LiveStatement, table: &TableRef, changes: &Vec<Change>) -> (out: Result<
    Vec<Draft>,
    Error,
>)
    ensures
        match out {
            Ok(drafts) => drafts_of_query(stmt@, table@, views_of(changes@)) == Some(
                views_of(drafts@),
            ),
            Err(e) => e == Error::FilterEvaluation && drafts_of_query(
                stmt@,
                table@,
                views_of(changes@),
            ).is_none(),
        },
{
    let mut drafts: Vec<Draft> = Vec::new();
    let mut i: usize = 0;
    let ghost all = views_of(changes@);
    assert(all.take(0) =~= Seq::<ChangeView>::empty());
    assert(views_of(drafts@) =~= Seq::<DraftView>::empty());
    while i < changes.len()
        invariant
            i <= changes.len(),
            all == views_of(changes@),
            drafts_of_query(stmt@, table@, all.take(i as int)) == Some(views_of(drafts@)),
        decreases changes.len() - i,
    {
        let change = &changes[i];
        proof {
            assert(all.take(i as int + 1).drop_last() =~= all.take(i as int));
            assert(all.take(i as int + 1).last() == change@);
        }
        if change.table.same_as(table) {
            let image = change.image();
            match stmt.filter.evaluate(&image) {
                Ok(true) => {
                    let draft = Draft {
                        table: change.table.duplicate(),
                        lq: stmt.id,
                        action: change.action,
                        record: change.record.clone(),
                        before: duplicate_option(&change.before),
                        after: duplicate_option(&change.after),
                    };
                    proof {
                        lemma_views_push(drafts@, draft);
                    }
                    drafts.push(draft);
                },
                Ok(false) => {},
                Err(e) => {
                    proof {
                        lemma_query_fails(stmt@, table@, all, i as int + 1);
                    }
                    return Err(e);
                },
            }
        }
        i += 1;
    }
    assert(all.take(i as int) =~= all);
    Ok(drafts)
}

/// Moves the items of `back` behind those of `front`.
fn append_drafts(front: &mut Vec<Draft>, back: Vec<Draft>)
    ensures
        views_of(final(front)@) == views_of(old(front)@) + views_of(back@),
{
    let ghost moved = back@;
    let mut back = back;
    front.append(&mut back);
    assert(views_of(front@) =~= views_of(old(front)@) + views_of(moved));
}

/// The notifications that the live queries `stmts` on `table` get of `changes`.
pub fn table_drafts(stmts: &Vec<LiveStatement>, table: &TableRef, changes: &Vec<Change>) -> (out:
    Result<Vec<Draft>, Error>)
    ensures
        match out {
            Ok(drafts) => drafts_of_table(views_of(stmts@), table@, views_of(changes@)) == Some(
                views_of(drafts@),
            ),
            Err(e) => e == Error::FilterEvaluation && drafts_of_table(
                views_of(stmts@),
                table@,
                views_of(changes@),
            ).is_none(),
        },
{
    let mut drafts: Vec<Draft> = Vec::new();
    let mut i: usize = 0;
    let ghost all = views_of(stmts@);
    assert(all.take(0) =~= Seq::<LiveStatementView>::empty());
    assert(views_of(drafts@) =~= Seq::<DraftView>::empty());
    while i < stmts.len()
        invariant
            i <= stmts.len(),
            all == views_of(stmts@),
            drafts_of_table(all.take(i as int), table@, views_of(changes@)) == Some(
                views_of(drafts@),
            ),
        decreases stmts.len() - i,
    {
        proof {
            assert(all.take(i as int + 1).drop_last() =~= all.take(i as int));
            assert(all.take(i as int + 1).last() == stmts@[i as int]@);
        }
        match query_drafts(&stmts[i], table, changes) {
            Ok(more) => {
                append_drafts(&mut drafts, more);
            },
            Err(e) => {
                proof {
                    lemma_table_fails(all, table@, views_of(changes@), i as int + 1);
                }
                return Err(e);
            },
        }
        i += 1;
    }
    assert(all.take(i as int) =~= all);
    Ok(drafts)
}

impl Tables {
    /// The notifications that `changes` give rise to, without ids and times.
    /// Lookups read pages of `limit`.
    pub fn plan_notifications(&self, changes: &Vec<Change>, limit: u32) -> (out: Result<
        Vec<Draft>,
        Error,
    >)
        ensures
            match out {
                Ok(drafts) => fanout(self@, views_of(changes@), limit) == Some(views_of(drafts@)),
                Err(e) => e == Error::FilterEvaluation && fanout(
                    self@,
                    views_of(changes@),
                    limit,
                ).is_none(),
            },
    {
        let tables = tables_touched(changes);
        let mut drafts: Vec<Draft> = Vec::new();
        let mut i: usize = 0;
        let ghost all = views_of(tables@);
        assert(all.take(0) =~= Seq::<TableView>::empty());
        assert(views_of(drafts@) =~= Seq::<DraftView>::empty());
        while i < tables.len()
            invariant
                i <= tables.len(),
                all == views_of(tables@),
                all == touched_tables(views_of(changes@)),
                drafts_of_tables(all.take(i as int), self@, views_of(changes@), limit) == Some(
                    views_of(drafts@),
                ),
            decreases tables.len() - i,
        {
            proof {
                assert(all.take(i as int + 1).drop_last() =~= all.take(i as int));
                assert(all.take(i as int + 1).last() == tables@[i as int]@);
            }
            let stmts = self.lookup(&tables[i], limit);
            match table_drafts(&stmts, &tables[i], changes) {
                Ok(more) => {
                    append_drafts(&mut drafts, more);
                },
                Err(e) => {
                    proof {
                        lemma_tables_fail(all, self@, views_of(changes@), limit, i as int + 1);
                    }
                    return Err(e);
                },
            }
            i += 1;
        }
        assert(all.take(i as int) =~= all);
        Ok(drafts)
    }

    /// Writes the notifications that `drafts` become with the ids `ids`, in
    /// order, and the time `ts`, behind those that are stored. Fails, and
    /// leaves the store as it was, where the ids do not suffice or where two
    /// notifications would stand under one key.
    pub fn publish(&mut self, drafts: &Vec<Draft>, ids: &Vec<Uuid>, ts: u64) -> (done: Result<
        (),
        Error,
    >)
        requires
            old(self).wf(),
        ensures
            final(self).wf(),
            match done {
                Ok(()) => ids.len() >= drafts.len() && distinct_by(
                    old(self)@.notifications + stamp_all(views_of(drafts@), ids@, ts),
                    nt_key(),
                ) && final(self)@ == (State {
                    notifications: old(self)@.notifications + stamp_all(
                        views_of(drafts@),
                        ids@,
                        ts,
                    ),
                    ..old(self)@
                }),
                Err(e) => final(self)@ == old(self)@ && if ids.len() < drafts.len() {
                    e == Error::StorageError
                } else {
                    e == Error::ConditionNotMet && !distinct_by(
                        old(self)@.notifications + stamp_all(views_of(drafts@), ids@, ts),
                        nt_key(),
                    )
                },
            },
    {
        if ids.len() < drafts.len() {
            return Err(Error::StorageError);
        }
        let backup = self.snapshot();
        let ghost start = self@;
        let ghost stamps = stamp_all(views_of(drafts@), ids@, ts);
        let ghost full = start.notifications + stamps;
        let mut k: usize = 0;
        assert(start.notifications + stamps.take(0) =~= start.notifications);
        while k < drafts.len()
            invariant
                k <= drafts.len(),
                drafts.len() <= ids.len(),
                start.wf(),
                self.wf(),
                start == old(self)@,
                backup@ == start,
                stamps == stamp_all(views_of(drafts@), ids@, ts),
                full == start.notifications + stamps,
                self@ == (State { notifications: start.notifications + stamps.take(k as int), ..start }),
            decreases drafts.len() - k,
        {
            let draft = &drafts[k];
            let note = Notification {
                table: draft.table.duplicate(),
                lq: draft.lq,
                id: ids[k],
                action: draft.action,
                record: draft.record.clone(),
                before: duplicate_option(&draft.before),
                after: duplicate_option(&draft.after),
                ts,
            };
            proof {
                assert(note@ == stamps[k as int]);
                lemma_take_push(stamps, k as int);
                assert((start.notifications + stamps.take(k as int)).push(stamps[k as int])
                    =~= start.notifications + stamps.take(k as int + 1));
                crate::seqs::lemma_find_first(
                    self@.notifications,
                    nt_is(note@.table, note.lq, note.id),
                );
            }
            match self.put_nt(note) {
                Ok(()) => {},
                Err(e) => {
                    proof {
                        let j = crate::seqs::find_first(
                            self@.notifications,
                            nt_is(stamps[k as int].table, stamps[k as int].lq, stamps[k as int].id),
                        ).unwrap();
                        assert(full[j] == self@.notifications[j]);
                        assert(full[start.notifications.len() + k] == stamps[k as int]);
                        assert(nt_key()(full[j]) == nt_key()(full[start.notifications.len() + k]));
                    }
                    *self = backup;
                    return Err(e);
                },
            }
            k += 1;
        }
        assert(stamps.take(k as int) =~= stamps);
        Ok(())
    }
}

} // verus!
