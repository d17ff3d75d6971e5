//! The garbage collector: finds the nodes that are no longer alive and
//! removes the bookkeeping that they, or a crash between two writes, left
//! behind.

use vstd::prelude::*;
use crate::ident::Uuid;
use crate::record::{Check, Node, NodeLiveQueryView, NotificationView, TableLiveQueryView};
use crate::seqs::{
    drop_first, lemma_drop_first_all, lemma_drop_first_distinct, lemma_drop_step, lemma_filter_all,
    lemma_filter_distinct, lemma_filter_ext, lemma_filter_filter, lemma_filter_member,
    lemma_push_contains, lemma_sweep_ends, lemma_sweep_step, views_of, without,
};
use crate::tables::{
    heartbeat_until, lemma_del_ndlq_exact, lemma_del_tblq_exact, lemma_ndlq_table, lemma_tblq_owner,
    ndlq_for, ndlq_is, ndlq_key, ndlq_of, node_is, node_key, nt_is, nt_key, State, Tables, tblq_is,
    tblq_key, tblq_owned,
};

verus! {

/// Whether a heartbeat at `ts` lies within the liveness window that ends at `now`.
pub open spec fn recent(ts: u64, now: u64, window: u64) -> bool {
    ts > now - window
}

/// Whether `node` counts as alive for the collector that runs on node `me`
/// at `now`: it is that node itself, or a heartbeat within the liveness
/// window names it.
pub open spec fn is_live(s: State, me: Uuid, now: u64, window: u64, node: Uuid) -> bool {
    node == me || exists|i: int|
        0 <= i < s.heartbeats.len() && (#[trigger] s.heartbeats[i]).node == node && recent(
            s.heartbeats[i].ts,
            now,
            window,
        )
}

/// The nodes that count as alive.
pub open spec fn live_set(s: State, me: Uuid, now: u64, window: u64) -> Set<Uuid> {
    Set::new(|node: Uuid| is_live(s, me, now, window, node))
}

/// Whether `node` has a record and is not alive.
pub open spec fn is_dead(s: State, live: Set<Uuid>, node: Uuid) -> bool {
    s.nodes.contains(Node { id: node }) && !live.contains(node)
}

/// Selects the nodes that are alive.
pub open spec fn node_alive(live: Set<Uuid>) -> spec_fn(Node) -> bool {
    |n: Node| live.contains(n.id)
}

/// Selects the node live queries of nodes that are not dead.
pub open spec fn ndlq_not_dead(s: State, live: Set<Uuid>) -> spec_fn(NodeLiveQueryView) -> bool {
    |e: NodeLiveQueryView| !is_dead(s, live, e.node)
}

/// Selects the table live queries that are not the other half of a node
/// live query of a dead node.
pub open spec fn tblq_not_dead(s: State, live: Set<Uuid>) -> spec_fn(TableLiveQueryView) -> bool {
    |t: TableLiveQueryView| !(is_dead(s, live, t.stmt.node) && s.ndlqs.contains(ndlq_for(t)))
}

/// Selects the table live queries whose owner is alive and holds the other half.
pub open spec fn tblq_backed(s: State, live: Set<Uuid>) -> spec_fn(TableLiveQueryView) -> bool {
    |t: TableLiveQueryView| live.contains(t.stmt.node) && s.ndlqs.contains(ndlq_for(t))
}

/// Selects the node live queries whose other half exists and is owned by their node.
pub open spec fn ndlq_backed(s: State) -> spec_fn(NodeLiveQueryView) -> bool {
    |e: NodeLiveQueryView| s.tblq_owner(e.table, e.lq) == Some(e.node)
}

/// Selects the notifications of live queries that are not registered on their table.
pub open spec fn nt_orphan(s: State) -> spec_fn(NotificationView) -> bool {
    |x: NotificationView| s.tblq_owner(x.table, x.lq).is_none()
}

/// First pass: every node that has a record and is not alive loses its
/// record and its node live queries, and the table live queries that are
/// the other halves of these and are still owned by it.
pub open spec fn purge_dead(s: State, live: Set<Uuid>) -> State {
    State {
        nodes: s.nodes.filter(node_alive(live)),
        ndlqs: s.ndlqs.filter(ndlq_not_dead(s, live)),
        tblqs: s.tblqs.filter(tblq_not_dead(s, live)),
        ..s
    }
}

/// Second pass: the table live queries whose owner is not alive, or does
/// not hold the other half, go.
pub open spec fn sweep_tblqs(s: State, live: Set<Uuid>) -> State {
    State { tblqs: s.tblqs.filter(tblq_backed(s, live)), ..s }
}

/// Third pass: the node live queries without their other half go.
pub open spec fn sweep_ndlqs(s: State) -> State {
    State { ndlqs: s.ndlqs.filter(ndlq_backed(s)), ..s }
}

/// Fourth pass: the notifications of live queries that are not registered
/// go, oldest first, but no more than `cap` of them in one run.
pub open spec fn sweep_notifications(s: State, cap: nat) -> State {
    State { notifications: drop_first(s.notifications, nt_orphan(s), cap), ..s }
}

/// Selects the node live queries that are not among `done`.
pub open spec fn ndlq_left(done: Seq<NodeLiveQueryView>) -> spec_fn(NodeLiveQueryView) -> bool {
    |e: NodeLiveQueryView| !done.contains(e)
}

/// Selects the table live queries whose other half is not among `done`.
pub open spec fn tblq_left(done: Seq<NodeLiveQueryView>) -> spec_fn(TableLiveQueryView) -> bool {
    |t: TableLiveQueryView| !done.contains(ndlq_for(t))
}

/// Selects the table live queries that `node` does not own, or of which it
/// does not hold the other half.
pub open spec fn tblq_not_held(s: State, node: Uuid) -> spec_fn(TableLiveQueryView) -> bool {
    |t: TableLiveQueryView| !(t.stmt.node == node && s.ndlqs.contains(ndlq_for(t)))
}

/// The store after `node` was removed from the cluster: its record and its
/// node live queries are gone, and so are the table live queries that are
/// the other halves of these and are owned by it.
pub open spec fn without_node(s: State, node: Uuid) -> State {
    State {
        nodes: without(s.nodes, node_is(node)),
        ndlqs: without(s.ndlqs, ndlq_of(node)),
        tblqs: s.tblqs.filter(tblq_not_held(s, node)),
        ..s
    }
}

/// Whether no notification is left for a live query that is not registered.
pub open spec fn no_orphan_notifications(s: State) -> bool {
    forall|k: int| 0 <= k < s.notifications.len() ==> !nt_orphan(s)(#[trigger] s.notifications[k])
}

/// The store after one run of the collector.
pub open spec fn collected(s: State, live: Set<Uuid>, cap: nat) -> State {
    sweep_notifications(sweep_ndlqs(sweep_tblqs(purge_dead(s, live), live)), cap)
}

/// Whether the heartbeat lies within the liveness window that ends at `now`.
pub fn is_recent(ts: u64, now: u64, window: u64) -> (yes: bool)
    ensures
        yes == recent(ts, now, window),
{
    if now < window {
        true
    } else {
        ts > now - window
    }
}

/// Whether `id` is one of `ids`.
pub fn is_member(ids: &Vec<Uuid>, id: Uuid) -> (yes: bool)
    ensures
        yes == ids@.contains(id),
{
    let mut i: usize = 0;
    while i < ids.len()
        invariant
            i <= ids.len(),
            forall|j: int| 0 <= j < i ==> ids@[j] != id,
        decreases ids.len() - i,
    {
        if ids[i] == id {
            return true;
        }
        i += 1;
    }
    false
}

impl Tables {
    /// The nodes that count as alive for the collector on node `me` at
    /// `now`. A node may be listed more than once.
    pub fn live_nodes(&self, me: Uuid, now: u64, window: u64, limit: u32) -> (live: Vec<Uuid>)
        requires
            limit > 0,
        ensures
            live@.to_set() == live_set(self@, me, now, window),
    {
        let beats = self.scan_hb(u64::MAX, limit);
        proof {
            lemma_filter_all(self@.heartbeats, heartbeat_until(u64::MAX));
        }
        let mut live: Vec<Uuid> = Vec::new();
        live.push(me);
        assert(live@[0] == me);
        let mut i: usize = 0;
        while i < beats.len()
            invariant
                i <= beats.len(),
                beats@ == self@.heartbeats,
                forall|n: Uuid|
                    live@.contains(n) <==> (n == me || exists|k: int|
                        0 <= k < i && (#[trigger] beats@[k]).node == n && recent(
                            beats@[k].ts,
                            now,
                            window,
                        )),
            decreases beats.len() - i,
        {
            let ghost before = live@;
            if is_recent(beats[i].ts, now, window) {
                live.push(beats[i].node);
                assert(live@[before.len() as int] == beats@[i as int].node);
                assert forall|n: Uuid| live@.contains(n) implies (n == me || exists|k: int|
                    0 <= k < i + 1 && (#[trigger] beats@[k]).node == n && recent(
                        beats@[k].ts,
                        now,
                        window,
                    )) by {
                    let j = choose|j: int| 0 <= j < live@.len() && live@[j] == n;
                    if j < before.len() {
                        assert(before[j] == n);
                        assert(before.contains(n));
                    } else {
                        assert(beats@[i as int].node == n);
                    }
                }
                assert forall|n: Uuid|
                    (n == me || exists|k: int|
                        0 <= k < i + 1 && (#[trigger] beats@[k]).node == n && recent(
                            beats@[k].ts,
                            now,
                            window,
                        )) implies live@.contains(n) by {
                    if before.contains(n) {
                        let j = choose|j: int| 0 <= j < before.len() && before[j] == n;
                        assert(live@[j] == n);
                    }
                }
            }
            i += 1;
        }
        assert(live@.to_set() =~= live_set(self@, me, now, window));
        live
    }

    /// Second pass of the collector.
    pub fn sweep_table_live_queries(&mut self, live: &Vec<Uuid>, limit: u32)
        requires
            old(self).wf(),
            limit > 0,
        ensures
            final(self).wf(),
            final(self)@ == sweep_tblqs(old(self)@, live@.to_set()),
    {
        let ghost start = self@;
        let ghost keep = tblq_backed(start, live@.to_set());
        let rows = self.scan_all_tblq(limit);
        let mut i: usize = 0;
        proof {
            lemma_sweep_ends(start.tblqs, keep);
        }
        while i < rows.len()
            invariant
                i <= rows.len(),
                start.wf(),
                self.wf(),
                views_of(rows@) == start.tblqs,
                keep == tblq_backed(start, live@.to_set()),
                self@ == (State {
                    tblqs: start.tblqs.take(i as int).filter(keep) + start.tblqs.skip(i as int),
                    ..start
                }),
            decreases rows.len() - i,
        {
            let row = &rows[i];
            let ghost t = start.tblqs[i as int];
            assert(t == row@);
            let held = match self.get_ndlq(row.stmt.node, row.stmt.id) {
                Some(table) => table.same_as(&row.table),
                None => false,
            };
            let backed = held && is_member(live, row.stmt.node);
            proof {
                lemma_del_ndlq_exact(self@, t.stmt.node, t.stmt.id, t.table);
                assert(backed == keep(t));
                lemma_sweep_step(
                    start.tblqs,
                    tblq_key(),
                    keep,
                    tblq_is(t.table, t.stmt.id),
                    i as int,
                );
            }
            if !backed {
                let gone = self.del_tblq(&row.table, row.stmt.id, None);
            }
            i += 1;
        }
        proof {
            lemma_sweep_ends(start.tblqs, keep);
        }
    }

    /// Third pass of the collector.
    pub fn sweep_node_live_queries(&mut self, limit: u32)
        requires
            old(self).wf(),
            limit > 0,
        ensures
            final(self).wf(),
            final(self)@ == sweep_ndlqs(old(self)@),
    {
        let ghost start = self@;
        let ghost keep = ndlq_backed(start);
        let rows = self.scan_all_ndlq(limit);
        let mut i: usize = 0;
        proof {
            lemma_sweep_ends(start.ndlqs, keep);
        }
        while i < rows.len()
            invariant
                i <= rows.len(),
                start.wf(),
                self.wf(),
                views_of(rows@) == start.ndlqs,
                keep == ndlq_backed(start),
                self@ == (State {
                    ndlqs: start.ndlqs.take(i as int).filter(keep) + start.ndlqs.skip(i as int),
                    ..start
                }),
            decreases rows.len() - i,
        {
            let row = &rows[i];
            let ghost e = start.ndlqs[i as int];
            assert(e == row@);
            let backed = match self.get_tblq(&row.table, row.lq) {
                Some(stmt) => stmt.node == row.node,
                None => false,
            };
            proof {
                assert(backed == keep(e));
                lemma_sweep_step(start.ndlqs, ndlq_key(), keep, ndlq_is(e.node, e.lq), i as int);
            }
            if !backed {
                let gone = self.del_ndlq(row.node, row.lq, None);
            }
            i += 1;
        }
        proof {
            lemma_sweep_ends(start.ndlqs, keep);
        }
    }

    /// Fourth pass of the collector. Tells whether no notification is left
    /// for a live query that is not registered.
    pub fn sweep_orphan_notifications(&mut self, limit: u32, cap: u32) -> (complete: bool)
        requires
            old(self).wf(),
            limit > 0,
        ensures
            final(self).wf(),
            final(self)@ == sweep_notifications(old(self)@, cap as nat),
            complete == no_orphan_notifications(final(self)@),
    {
        let ghost start = self@;
        let ghost orphan = nt_orphan(start);
        let ghost list = start.notifications;
        let rows = self.scan_all_nt(limit);
        let mut left: u32 = cap;
        let mut complete = true;
        let ghost mut kept: Seq<NotificationView> = Seq::empty();
        let mut i: usize = 0;
        assert(kept + list.skip(0) =~= list);
        assert(list.skip(0) =~= list);
        while i < rows.len()
            invariant
                i <= rows.len(),
                start.wf(),
                self.wf(),
                left <= cap,
                list == start.notifications,
                orphan == nt_orphan(start),
                views_of(rows@) == list,
                self@ == (State { notifications: kept + list.skip(i as int), ..start }),
                drop_first(list, orphan, cap as nat) == kept + drop_first(
                    list.skip(i as int),
                    orphan,
                    left as nat,
                ),
                forall|k: int| 0 <= k < kept.len() ==> list.take(i as int).contains(#[trigger] kept[k]),
                complete <==> forall|k: int| 0 <= k < kept.len() ==> !orphan(#[trigger] kept[k]),
            decreases rows.len() - i,
        {
            let row = &rows[i];
            let ghost x = list[i as int];
            assert(x == row@);
            let orphaned = self.get_tblq(&row.table, row.lq).is_none();
            assert(orphaned == orphan(x));
            proof {
                assert(list.skip(i as int)[0] == x);
                assert(list.skip(i as int).skip(1) =~= list.skip(i as int + 1));
                assert(list.take(i as int + 1) =~= list.take(i as int).push(x));
            }
            if orphaned && left > 0 {
                proof {
                    lemma_drop_step(list, nt_key(), kept, nt_is(x.table, x.lq, x.id), i as int);
                    assert forall|k: int| 0 <= k < kept.len() implies list.take(
                        i as int + 1,
                    ).contains(#[trigger] kept[k]) by {
                        lemma_push_contains(list.take(i as int), x, kept[k]);
                    }
                }
                self.del_nt(&row.table, row.lq, row.id);
                left -= 1;
            } else {
                let ghost before = kept;
                proof {
                    kept = kept.push(x);
                    assert(before + (seq![x] + drop_first(
                        list.skip(i as int + 1),
                        orphan,
                        left as nat,
                    )) =~= kept + drop_first(list.skip(i as int + 1), orphan, left as nat));
                    assert(before + list.skip(i as int) =~= kept + list.skip(i as int + 1));
                    assert forall|k: int| 0 <= k < kept.len() implies list.take(
                        i as int + 1,
                    ).contains(#[trigger] kept[k]) by {
                        lemma_push_contains(list.take(i as int), x, kept[k]);
                        if k < before.len() {
                            assert(kept[k] == before[k]);
                        }
                    }
                    assert(forall|k: int| 0 <= k < before.len() ==> kept[k] == before[k]);
                    assert(kept[before.len() as int] == x);
                }
                if orphaned {
                    complete = false;
                }
            }
            i += 1;
        }
        proof {
            assert(kept + list.skip(i as int) =~= kept);
            assert(kept + drop_first(list.skip(i as int), orphan, left as nat) =~= kept);
        }
        complete
    }

    /// Removes `node` from the cluster: deletes its node live queries, with
    /// each the table live query that is its other half if `node` still owns
    /// it, and then the record of the node.
    pub fn purge_node(&mut self, node: Uuid, limit: u32)
        requires
            old(self).wf(),
            limit > 0,
        ensures
            final(self).wf(),
            final(self)@ == without_node(old(self)@, node),
    {
        let ghost start = self@;
        let ghost list = start.ndlqs.filter(ndlq_of(node));
        let rows = self.scan_ndlq(node, limit);
        let mut j: usize = 0;
        proof {
            assert(list.take(0) =~= Seq::<NodeLiveQueryView>::empty());
            lemma_filter_all(start.ndlqs, ndlq_left(list.take(0)));
            lemma_filter_all(start.tblqs, tblq_left(list.take(0)));
        }
        while j < rows.len()
            invariant
                j <= rows.len(),
                start.wf(),
                self.wf(),
                limit > 0,
                list == start.ndlqs.filter(ndlq_of(node)),
                views_of(rows@) == list,
                self@ == (State {
                    ndlqs: start.ndlqs.filter(ndlq_left(list.take(j as int))),
                    tblqs: start.tblqs.filter(tblq_left(list.take(j as int))),
                    ..start
                }),
            decreases rows.len() - j,
        {
            let row = &rows[j];
            let ghost e = list[j as int];
            let ghost done = list.take(j as int);
            let ghost next = list.take(j as int + 1);
            assert(e == row@);
            proof {
                assert(next =~= done.push(e));
                assert(list.contains(e));
                lemma_filter_member(start.ndlqs, ndlq_of(node), e);
                let m = choose|m: int| 0 <= m < start.ndlqs.len() && start.ndlqs[m] == e;
                let miss = |x: NodeLiveQueryView| !ndlq_is(node, e.lq)(x);
                lemma_filter_filter(start.ndlqs, ndlq_left(done), miss);
                assert forall|k: int| 0 <= k < start.ndlqs.len() implies (ndlq_left(done)(
                    #[trigger] start.ndlqs[k],
                ) && miss(start.ndlqs[k])) == ndlq_left(next)(start.ndlqs[k]) by {
                    let x = start.ndlqs[k];
                    lemma_push_contains(done, e, x);
                    if ndlq_is(node, e.lq)(x) && k != m {
                        assert(ndlq_key()(start.ndlqs[k]) == ndlq_key()(start.ndlqs[m]));
                    }
                }
                lemma_filter_ext(
                    start.ndlqs,
                    |x: NodeLiveQueryView| ndlq_left(done)(x) && miss(x),
                    ndlq_left(next),
                );
            }
            let first = self.del_ndlq(node, row.lq, None);
            proof {
                lemma_del_tblq_exact(self@, e.table, e.lq, node);
                let miss = |t: TableLiveQueryView| !tblq_owned(e.table, e.lq, node)(t);
                lemma_filter_filter(start.tblqs, tblq_left(done), miss);
                assert forall|k: int| 0 <= k < start.tblqs.len() implies (tblq_left(done)(
                    #[trigger] start.tblqs[k],
                ) && miss(start.tblqs[k])) == tblq_left(next)(start.tblqs[k]) by {
                    lemma_push_contains(done, e, ndlq_for(start.tblqs[k]));
                }
                lemma_filter_ext(
                    start.tblqs,
                    |t: TableLiveQueryView| tblq_left(done)(t) && miss(t),
                    tblq_left(next),
                );
            }
            let second = self.del_tblq(&row.table, row.lq, Some(Check::Equals(node)));
            j += 1;
        }
        proof {
            assert(list.take(j as int) =~= list);
            assert forall|k: int| 0 <= k < start.ndlqs.len() implies ndlq_left(list)(
                #[trigger] start.ndlqs[k],
            ) == !ndlq_of(node)(start.ndlqs[k]) by {
                lemma_filter_member(start.ndlqs, ndlq_of(node), start.ndlqs[k]);
            }
            lemma_filter_ext(
                start.ndlqs,
                ndlq_left(list),
                |e: NodeLiveQueryView| !ndlq_of(node)(e),
            );
            assert forall|k: int| 0 <= k < start.tblqs.len() implies tblq_left(list)(
                #[trigger] start.tblqs[k],
            ) == tblq_not_held(start, node)(start.tblqs[k]) by {
                lemma_filter_member(start.ndlqs, ndlq_of(node), ndlq_for(start.tblqs[k]));
            }
            lemma_filter_ext(start.tblqs, tblq_left(list), tblq_not_held(start, node));
        }
        self.del_nd(node);
    }

    /// First pass of the collector.
    pub fn purge_dead_nodes(&mut self, live: &Vec<Uuid>, limit: u32)
        requires
            old(self).wf(),
            limit > 0,
        ensures
            final(self).wf(),
            final(self)@ == purge_dead(old(self)@, live@.to_set()),
    {
        let ghost start = self@;
        let ghost alive = live@.to_set();
        let ghost keep = node_alive(alive);
        let nodes = self.scan_nd(limit);
        let mut i: usize = 0;
        proof {
            lemma_sweep_ends(start.nodes, keep);
            let none = State { nodes: start.nodes.take(0), ..start };
            assert forall|n: Uuid| !is_dead(none, alive, n) by {
                if none.nodes.contains(Node { id: n }) {
                    let k = choose|k: int| 0 <= k < none.nodes.len() && none.nodes[k] == Node { id: n };
                }
            }
            lemma_filter_all(start.ndlqs, ndlq_not_dead(none, alive));
            lemma_filter_all(start.tblqs, tblq_not_dead(none, alive));
        }
        while i < nodes.len()
            invariant
                i <= nodes.len(),
                start.wf(),
                self.wf(),
                limit > 0,
                nodes@ == start.nodes,
                alive == live@.to_set(),
                keep == node_alive(alive),
                self@ == (State {
                    nodes: start.nodes.take(i as int).filter(keep) + start.nodes.skip(i as int),
                    ndlqs: start.ndlqs.filter(
                        ndlq_not_dead(State { nodes: start.nodes.take(i as int), ..start }, alive),
                    ),
                    tblqs: start.tblqs.filter(
                        tblq_not_dead(State { nodes: start.nodes.take(i as int), ..start }, alive),
                    ),
                    ..start
                }),
            decreases nodes.len() - i,
        {
            let node = nodes[i].id;
            let ghost seen = State { nodes: start.nodes.take(i as int), ..start };
            let ghost next = State { nodes: start.nodes.take(i as int + 1), ..start };
            let ghost now = self@;
            let spared = is_member(live, node);
            proof {
                assert(start.nodes[i as int] == Node { id: node });
                assert(spared == keep(start.nodes[i as int]));
                assert(next.nodes =~= seen.nodes.push(Node { id: node }));
                lemma_sweep_step(start.nodes, node_key(), keep, node_is(node), i as int);
                assert forall|n: Uuid| is_dead(next, alive, n) == (is_dead(seen, alive, n) || (n
                    == node && !spared)) by {
                    lemma_push_contains(seen.nodes, Node { id: node }, Node { id: n });
                }
                assert(!is_dead(seen, alive, node)) by {
                    if seen.nodes.contains(Node { id: node }) {
                        let k = choose|k: int|
                            0 <= k < seen.nodes.len() && seen.nodes[k] == Node { id: node };
                        assert(node_key()(start.nodes[k]) == node_key()(start.nodes[i as int]));
                    }
                }
            }
            if spared {
                proof {
                    lemma_filter_ext(
                        start.ndlqs,
                        ndlq_not_dead(seen, alive),
                        ndlq_not_dead(next, alive),
                    );
                    lemma_filter_ext(
                        start.tblqs,
                        tblq_not_dead(seen, alive),
                        tblq_not_dead(next, alive),
                    );
                }
            } else {
                proof {
                    let gone = |e: NodeLiveQueryView| !ndlq_of(node)(e);
                    lemma_filter_filter(start.ndlqs, ndlq_not_dead(seen, alive), gone);
                    lemma_filter_ext(
                        start.ndlqs,
                        |e: NodeLiveQueryView| ndlq_not_dead(seen, alive)(e) && gone(e),
                        ndlq_not_dead(next, alive),
                    );
                    lemma_filter_filter(
                        start.tblqs,
                        tblq_not_dead(seen, alive),
                        tblq_not_held(now, node),
                    );
                    assert forall|k: int| 0 <= k < start.tblqs.len() implies (tblq_not_dead(
                        seen,
                        alive,
                    )(#[trigger] start.tblqs[k]) && tblq_not_held(now, node)(start.tblqs[k]))
                        == tblq_not_dead(next, alive)(start.tblqs[k]) by {
                        let t = start.tblqs[k];
                        lemma_filter_member(
                            start.ndlqs,
                            ndlq_not_dead(seen, alive),
                            ndlq_for(t),
                        );
                    }
                    lemma_filter_ext(
                        start.tblqs,
                        |t: TableLiveQueryView|
                            tblq_not_dead(seen, alive)(t) && tblq_not_held(now, node)(t),
                        tblq_not_dead(next, alive),
                    );
                }
                self.purge_node(node, limit);
            }
            i += 1;
        }
        proof {
            lemma_sweep_ends(start.nodes, keep);
            assert(start.nodes.take(i as int) =~= start.nodes);
            assert(State { nodes: start.nodes.take(i as int), ..start } == start);
        }
    }

    /// One run of the collector on node `me` at `now`: removes the nodes
    /// that are not alive with what they held, then the table live queries
    /// and the node live queries that lack their owner or their other half,
    /// then up to `cap` notifications of live queries that are not
    /// registered. Scans read pages of `limit` records; with a `limit` of 0
    /// nothing is read and nothing is removed.
    ///
    /// Tells whether the run is complete: whether it read the store and left
    /// no notification of a live query that is not registered.
    pub fn collect(&mut self, me: Uuid, now: u64, window: u64, limit: u32, cap: u32) -> (complete:
        bool)
        requires
            old(self).wf(),
        ensures
            final(self).wf(),
            final(self)@ == if limit == 0 {
                old(self)@
            } else {
                collected(old(self)@, live_set(old(self)@, me, now, window), cap as nat)
            },
            complete == (limit > 0 && no_orphan_notifications(final(self)@)),
    {
        if limit == 0 {
            return false;
        }
        let live = self.live_nodes(me, now, window, limit);
        self.purge_dead_nodes(&live, limit);
        self.sweep_table_live_queries(&live, limit);
        self.sweep_node_live_queries(limit);
        self.sweep_orphan_notifications(limit, cap)
    }
}

/// Every node live query has its table live query, owned by its node.
pub open spec fn node_live_queries_backed(s: State) -> bool {
    forall|i: int|
        0 <= i < s.ndlqs.len() ==> s.tblq_owner(
            (#[trigger] s.ndlqs[i]).table,
            s.ndlqs[i].lq,
        ) == Some(s.ndlqs[i].node)
}

/// For every table live query, its owner holds a node live query of the same
/// live query exactly if the owner has a node record.
pub open spec fn table_live_queries_held(s: State) -> bool {
    forall|j: int|
        0 <= j < s.tblqs.len() ==> (s.ndlq_table(
            (#[trigger] s.tblqs[j]).stmt.node,
            s.tblqs[j].stmt.id,
        ).is_some() <==> s.nodes.contains(Node { id: s.tblqs[j].stmt.node }))
}

/// Whether every node that counts as alive has a node record.
pub open spec fn live_nodes_are_members(s: State, live: Set<Uuid>) -> bool {
    forall|node: Uuid| live.contains(node) ==> s.nodes.contains(Node { id: node })
}

/// The store stays without two records under one key through a run of the collector.
pub proof fn lemma_collected_wf(s: State, live: Set<Uuid>, cap: nat)
    requires
        s.wf(),
    ensures
        purge_dead(s, live).wf(),
        sweep_tblqs(purge_dead(s, live), live).wf(),
        sweep_ndlqs(sweep_tblqs(purge_dead(s, live), live)).wf(),
        collected(s, live, cap).wf(),
{
    let first = purge_dead(s, live);
    let second = sweep_tblqs(first, live);
    let third = sweep_ndlqs(second);
    lemma_filter_distinct(s.nodes, node_key(), node_alive(live));
    lemma_filter_distinct(s.ndlqs, ndlq_key(), ndlq_not_dead(s, live));
    lemma_filter_distinct(s.tblqs, tblq_key(), tblq_not_dead(s, live));
    lemma_filter_distinct(first.tblqs, tblq_key(), tblq_backed(first, live));
    lemma_filter_distinct(second.ndlqs, ndlq_key(), ndlq_backed(second));
    lemma_drop_first_distinct(third.notifications, nt_key(), nt_orphan(third), cap);
}

/// After a run of the collector every node live query has its table live
/// query, owned by its node; and if every node that counts as alive has a
/// node record, every table live query has the node live query of its owner,
/// and that owner has a node record. If the run may remove as many
/// notifications as belong to live queries that are not registered any
/// more, none of these is left.
pub proof fn lemma_collect_restores(s: State, live: Set<Uuid>, cap: nat)
    requires
        s.wf(),
    ensures
        collected(s, live, cap).wf(),
        node_live_queries_backed(collected(s, live, cap)),
        live_nodes_are_members(s, live) ==> table_live_queries_held(collected(s, live, cap)),
        s.notifications.filter(nt_orphan(collected(s, live, cap))).len() <= cap
            ==> no_orphan_notifications(collected(s, live, cap)),
{
    let first = purge_dead(s, live);
    let second = sweep_tblqs(first, live);
    let third = sweep_ndlqs(second);
    let last = collected(s, live, cap);
    lemma_collected_wf(s, live, cap);
    assert forall|i: int| 0 <= i < last.ndlqs.len() implies last.tblq_owner(
        (#[trigger] last.ndlqs[i]).table,
        last.ndlqs[i].lq,
    ) == Some(last.ndlqs[i].node) by {
        let e = last.ndlqs[i];
        assert(third.ndlqs.contains(e));
        lemma_filter_member(second.ndlqs, ndlq_backed(second), e);
    }
    if live_nodes_are_members(s, live) {
        assert forall|j: int| 0 <= j < last.tblqs.len() implies (last.ndlq_table(
            (#[trigger] last.tblqs[j]).stmt.node,
            last.tblqs[j].stmt.id,
        ).is_some() <==> last.nodes.contains(Node { id: last.tblqs[j].stmt.node })) by {
            let t = last.tblqs[j];
            assert(second.tblqs.contains(t));
            lemma_filter_member(first.tblqs, tblq_backed(first, live), t);
            lemma_tblq_owner(second, t);
            lemma_filter_member(second.ndlqs, ndlq_backed(second), ndlq_for(t));
            lemma_ndlq_table(last, ndlq_for(t));
            lemma_filter_member(s.nodes, node_alive(live), Node { id: t.stmt.node });
        }
    }
    if s.notifications.filter(nt_orphan(last)).len() <= cap {
        lemma_filter_ext(s.notifications, nt_orphan(last), nt_orphan(third));
        lemma_drop_first_all(third.notifications, nt_orphan(third), cap);
        assert forall|k: int| 0 <= k < last.notifications.len() implies !nt_orphan(last)(
            #[trigger] last.notifications[k],
        ) by {
            let x = last.notifications[k];
            assert(last.notifications.contains(x));
            lemma_filter_member(
                third.notifications,
                |y: NotificationView| !nt_orphan(third)(y),
                x,
            );
        }
    }
}

/// Selects the node live queries whose node is alive and whose other half
/// exists and is owned by their node.
pub open spec fn ndlq_alive(s: State, live: Set<Uuid>) -> spec_fn(NodeLiveQueryView) -> bool {
    |e: NodeLiveQueryView| live.contains(e.node) && s.tblq_owner(e.table, e.lq) == Some(e.node)
}

/// What a run of the collector leaves of the registry, said at once: the
/// records of the nodes that are alive, and the registrations of nodes that
/// are alive of which both halves were there. Heartbeats are not touched.
pub proof fn lemma_collected_registry(s: State, live: Set<Uuid>, cap: nat)
    requires
        s.wf(),
    ensures
        collected(s, live, cap).nodes == s.nodes.filter(node_alive(live)),
        collected(s, live, cap).heartbeats == s.heartbeats,
        collected(s, live, cap).tblqs == s.tblqs.filter(tblq_backed(s, live)),
        collected(s, live, cap).ndlqs == s.ndlqs.filter(ndlq_alive(s, live)),
{
    let first = purge_dead(s, live);
    let second = sweep_tblqs(first, live);
    lemma_collected_wf(s, live, cap);
    lemma_filter_filter(s.tblqs, tblq_not_dead(s, live), tblq_backed(first, live));
    assert forall|k: int| 0 <= k < s.tblqs.len() implies (tblq_not_dead(s, live)(
        #[trigger] s.tblqs[k],
    ) && tblq_backed(first, live)(s.tblqs[k])) == tblq_backed(s, live)(s.tblqs[k]) by {
        lemma_filter_member(s.ndlqs, ndlq_not_dead(s, live), ndlq_for(s.tblqs[k]));
    }
    lemma_filter_ext(
        s.tblqs,
        |t: TableLiveQueryView| tblq_not_dead(s, live)(t) && tblq_backed(first, live)(t),
        tblq_backed(s, live),
    );
    lemma_filter_filter(s.ndlqs, ndlq_not_dead(s, live), ndlq_backed(second));
    assert forall|k: int| 0 <= k < s.ndlqs.len() implies (ndlq_not_dead(s, live)(
        #[trigger] s.ndlqs[k],
    ) && ndlq_backed(second)(s.ndlqs[k])) == ndlq_alive(s, live)(s.ndlqs[k]) by {
        let e = s.ndlqs[k];
        lemma_del_tblq_exact(s, e.table, e.lq, e.node);
        lemma_del_tblq_exact(second, e.table, e.lq, e.node);
        if ndlq_alive(s, live)(e) {
            let j = choose|j: int|
                0 <= j < s.tblqs.len() && tblq_owned(e.table, e.lq, e.node)(#[trigger] s.tblqs[j]);
            assert(ndlq_for(s.tblqs[j]) == e);
            lemma_filter_member(s.tblqs, tblq_backed(s, live), s.tblqs[j]);
            lemma_tblq_owner(second, s.tblqs[j]);
        }
        if ndlq_backed(second)(e) {
            let j = choose|j: int|
                0 <= j < second.tblqs.len() && tblq_owned(e.table, e.lq, e.node)(
                    #[trigger] second.tblqs[j],
                );
            assert(second.tblqs.contains(second.tblqs[j]));
            lemma_filter_member(s.tblqs, tblq_backed(s, live), second.tblqs[j]);
            lemma_tblq_owner(s, second.tblqs[j]);
        }
    }
    lemma_filter_ext(
        s.ndlqs,
        |e: NodeLiveQueryView| ndlq_not_dead(s, live)(e) && ndlq_backed(second)(e),
        ndlq_alive(s, live),
    );
}

/// A run of the collector leaves nothing of the registry for the next run:
/// with the same nodes alive, a second run keeps every node record and every
/// registration that the first run kept.
pub proof fn lemma_collect_settles(s: State, live: Set<Uuid>, cap: nat, next_cap: nat)
    requires
        s.wf(),
    ensures
        collected(collected(s, live, cap), live, next_cap).nodes == collected(s, live, cap).nodes,
        collected(collected(s, live, cap), live, next_cap).ndlqs == collected(s, live, cap).ndlqs,
        collected(collected(s, live, cap), live, next_cap).tblqs == collected(s, live, cap).tblqs,
{
    let once = collected(s, live, cap);
    lemma_collected_registry(s, live, cap);
    lemma_collect_restores(s, live, cap);
    lemma_collected_registry(once, live, next_cap);
    assert forall|k: int| 0 <= k < once.nodes.len() implies node_alive(live)(
        #[trigger] once.nodes[k],
    ) by {
        assert(once.nodes.contains(once.nodes[k]));
        lemma_filter_member(s.nodes, node_alive(live), once.nodes[k]);
    }
    lemma_filter_all(once.nodes, node_alive(live));
    assert forall|k: int| 0 <= k < once.tblqs.len() implies tblq_backed(once, live)(
        #[trigger] once.tblqs[k],
    ) by {
        let t = once.tblqs[k];
        assert(once.tblqs.contains(t));
        lemma_filter_member(s.tblqs, tblq_backed(s, live), t);
        lemma_tblq_owner(s, t);
        lemma_filter_member(s.ndlqs, ndlq_alive(s, live), ndlq_for(t));
    }
    lemma_filter_all(once.tblqs, tblq_backed(once, live));
    assert forall|k: int| 0 <= k < once.ndlqs.len() implies ndlq_alive(once, live)(
        #[trigger] once.ndlqs[k],
    ) by {
        let e = once.ndlqs[k];
        assert(once.ndlqs.contains(e));
        lemma_filter_member(s.ndlqs, ndlq_alive(s, live), e);
    }
    lemma_filter_all(once.ndlqs, ndlq_alive(once, live));
}

/// After a run of the collector the two halves of the registry agree:
/// every node live query has its table live query, and every table live
/// query the node live query of its owner.
pub proof fn lemma_collect_agrees(s: State, live: Set<Uuid>, cap: nat)
    requires
        s.wf(),
    ensures
        crate::registry::consistent(collected(s, live, cap)),
{
    let once = collected(s, live, cap);
    lemma_collected_registry(s, live, cap);
    lemma_collect_restores(s, live, cap);
    assert forall|j: int| 0 <= j < once.tblqs.len() implies once.ndlqs.contains(
        ndlq_for(#[trigger] once.tblqs[j]),
    ) by {
        let t = once.tblqs[j];
        assert(once.tblqs.contains(t));
        lemma_filter_member(s.tblqs, tblq_backed(s, live), t);
        lemma_tblq_owner(s, t);
        lemma_filter_member(s.ndlqs, ndlq_alive(s, live), ndlq_for(t));
    }
}

} // verus!
