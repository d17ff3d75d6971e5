//! Local delivery: the notifications that wait for a live query are read,
//! oldest first, and deleted once they are handed out.

use vstd::prelude::*;
use crate::ident::{TableRef, TableView, Uuid};
use crate::record::{Notification, NotificationView};
use crate::seqs::{
    lemma_filter_all, lemma_filter_ext, lemma_filter_filter, lemma_filter_member,
    lemma_push_contains, paged, views_of,
};
use crate::tables::{nt_is, nt_key, nt_of, State, Tables};

verus! {

/// Where a live query stands.
#[derive(Clone, Copy, Debug, PartialEq, Eq, Structural)]
pub enum LiveQueryState {
    /// It is not registered on the table.
    Nonexistent,
    /// It is registered, and no notification waits for it.
    Registered,
    /// It is registered, and notifications wait to be delivered.
    Delivering,
}

/// The notifications that wait for live query `lq` on `table`, oldest first.
pub open spec fn pending(s: State, table: TableView, lq: Uuid) -> Seq<NotificationView> {
    s.notifications.filter(nt_of(table, lq))
}

/// Where live query `lq` on `table` stands.
pub open spec fn state_of(s: State, table: TableView, lq: Uuid) -> LiveQueryState {
    if s.tblq_owner(table, lq).is_none() {
        LiveQueryState::Nonexistent
    } else if pending(s, table, lq).len() > 0 {
        LiveQueryState::Delivering
    } else {
        LiveQueryState::Registered
    }
}

/// Selects the notifications that are not among `done`.
pub open spec fn nt_left(done: Seq<NotificationView>) -> spec_fn(NotificationView) -> bool {
    |x: NotificationView| !done.contains(x)
}

/// The notifications that one delivery hands out: the first `max` of those
/// that wait, or nothing where a page holds no record.
pub open spec fn delivered(s: State, table: TableView, lq: Uuid, max: u32, limit: u32) -> Seq<
    NotificationView,
> {
    let waiting = paged(pending(s, table, lq), limit);
    if max < waiting.len() {
        waiting.take(max as int)
    } else {
        waiting
    }
}

/// The store after one delivery: what was handed out is gone.
pub open spec fn after_delivery(s: State, table: TableView, lq: Uuid, max: u32, limit: u32) -> State {
    State {
        notifications: s.notifications.filter(nt_left(delivered(s, table, lq, max, limit))),
        ..s
    }
}

impl Tables {
    /// Where live query `lq` on `table` stands.
    pub fn live_query_state(&self, table: &TableRef, lq: Uuid) -> (state: LiveQueryState)
        ensures
            state == state_of(self@, table@, lq),
    {
        if self.get_tblq(table, lq).is_none() {
            LiveQueryState::Nonexistent
        } else if self.count_nt(table, lq) > 0 {
            LiveQueryState::Delivering
        } else {
            LiveQueryState::Registered
        }
    }

    /// Hands out up to `max` of the notifications that wait for live query
    /// `lq` on `table`, oldest first, and deletes them.
    pub fn deliver(&mut self, table: &TableRef, lq: Uuid, max: u32, limit: u32) -> (out: Vec<
        Notification,
    >)
        requires
            old(self).wf(),
        ensures
            final(self).wf(),
            views_of(out@) == delivered(old(self)@, table@, lq, max, limit),
            final(self)@ == after_delivery(old(self)@, table@, lq, max, limit),
    {
        let ghost start = self@;
        let mut rows = self.scan_nt(table, lq, limit);
        let ghost waiting = views_of(rows@);
        if (max as usize) < rows.len() {
            rows.truncate(max as usize);
            assert(views_of(rows@) =~= waiting.take(max as int));
        }
        let ghost list = views_of(rows@);
        let mut j: usize = 0;
        proof {
            assert(list.take(0) =~= Seq::<NotificationView>::empty());
            lemma_filter_all(start.notifications, nt_left(list.take(0)));
            assert forall|k: int| 0 <= k < list.len() implies start.notifications.contains(
                #[trigger] list[k],
            ) by {
                assert(waiting[k] == list[k]);
                assert(pending(start, table@, lq).contains(waiting[k]));
                lemma_filter_member(start.notifications, nt_of(table@, lq), list[k]);
            }
        }
        while j < rows.len()
            invariant
                j <= rows.len(),
                start.wf(),
                self.wf(),
                list == views_of(rows@),
                forall|k: int| 0 <= k < list.len() ==> start.notifications.contains(#[trigger] list[k]),
                self@ == (State {
                    notifications: start.notifications.filter(nt_left(list.take(j as int))),
                    ..start
                }),
            decreases rows.len() - j,
        {
            let row = &rows[j];
            let ghost x = list[j as int];
            let ghost done = list.take(j as int);
            let ghost next = list.take(j as int + 1);
            proof {
                assert(x == row@);
                assert(next =~= done.push(x));
                let m = choose|m: int|
                    0 <= m < start.notifications.len() && start.notifications[m] == x;
                let miss = |y: NotificationView| !nt_is(x.table, x.lq, x.id)(y);
                lemma_filter_filter(start.notifications, nt_left(done), miss);
                assert forall|k: int| 0 <= k < start.notifications.len() implies (nt_left(done)(
                    #[trigger] start.notifications[k],
                ) && miss(start.notifications[k])) == nt_left(next)(start.notifications[k]) by {
                    lemma_push_contains(done, x, start.notifications[k]);
                    if nt_is(x.table, x.lq, x.id)(start.notifications[k]) && k != m {
                        assert(nt_key()(start.notifications[k]) == nt_key()(start.notifications[m]));
                    }
                }
                lemma_filter_ext(
                    start.notifications,
                    |y: NotificationView| nt_left(done)(y) && miss(y),
                    nt_left(next),
                );
            }
            self.del_nt(&row.table, row.lq, row.id);
            j += 1;
        }
        assert(list.take(j as int) =~= list);
        rows
    }
}

/// A live query that is not registered on its table does not exist, and one
/// that is registered and has been handed all that waited for it waits for
/// nothing: it is back in the state it had before the first notification.
pub proof fn lemma_states(s: State, table: TableView, lq: Uuid, max: u32, limit: u32)
    requires
        s.wf(),
        limit > 0,
        max >= pending(s, table, lq).len(),
    ensures
        s.tblq_owner(table, lq).is_none() <==> state_of(s, table, lq)
            == LiveQueryState::Nonexistent,
        state_of(after_delivery(s, table, lq, max, limit), table, lq) == if s.tblq_owner(
            table,
            lq,
        ).is_none() {
            LiveQueryState::Nonexistent
        } else {
            LiveQueryState::Registered
        },
{
    let after = after_delivery(s, table, lq, max, limit);
    let waiting = pending(s, table, lq);
    assert(delivered(s, table, lq, max, limit) == waiting);
    lemma_filter_filter(s.notifications, nt_left(waiting), nt_of(table, lq));
    let none = |x: NotificationView| nt_left(waiting)(x) && nt_of(table, lq)(x);
    assert forall|k: int| 0 <= k < s.notifications.len() implies !none(
        #[trigger] s.notifications[k],
    ) by {
        lemma_filter_member(s.notifications, nt_of(table, lq), s.notifications[k]);
    }
    lemma_filter_ext(s.notifications, none, |x: NotificationView| false);
    lemma_nothing_selected(s.notifications);
}

/// A predicate that holds of nothing selects nothing.
pub proof fn lemma_nothing_selected<T>(s: Seq<T>)
    ensures
        s.filter(|x: T| false).len() == 0,
    decreases s.len(),
{
    reveal(Seq::filter);
    if s.len() > 0 {
        lemma_nothing_selected(s.drop_last());
    }
}

} // verus!
