//! The heartbeat of a node: a mark in the store that the node is alive,
//! written again and again, with the marks that have grown old removed.

use vstd::prelude::*;
use crate::ident::Uuid;
use crate::record::Heartbeat;
use crate::seqs::{
    lemma_filter_all, lemma_filter_ext, lemma_filter_filter, lemma_filter_member,
    lemma_push_contains, upsert, without,
};
use crate::tables::{heartbeat_is, heartbeat_until, State, Tables};

verus! {

/// Selects the heartbeats of `me` that are older than the liveness window
/// that ends at `now`.
pub open spec fn stale(me: Uuid, now: u64, window: u64) -> spec_fn(Heartbeat) -> bool {
    |h: Heartbeat| h.node == me && h.ts < now - window
}

/// Selects the heartbeats that are not heartbeats of `me` among `done`.
pub open spec fn heartbeat_left(me: Uuid, done: Seq<Heartbeat>) -> spec_fn(Heartbeat) -> bool {
    |h: Heartbeat| !(h.node == me && done.contains(h))
}

/// The store after the node `me` has beaten at `now`: its heartbeat at
/// `now` is written, and its heartbeats that are older than the liveness
/// window are gone, unless nothing is read because a page holds no record.
pub open spec fn after_beat(s: State, me: Uuid, now: u64, window: u64, limit: u32) -> State {
    let written = upsert(s.heartbeats, heartbeat_is(now, me), Heartbeat { ts: now, node: me });
    State {
        heartbeats: if limit == 0 {
            written
        } else {
            without(written, stale(me, now, window))
        },
        ..s
    }
}

/// Whether the next heartbeat is due at `now`, the last one having been
/// written at `last`.
pub open spec fn beat_due(last: u64, now: u64, interval: u64) -> bool {
    now - last >= interval
}

/// Whether the next heartbeat is due.
pub fn is_beat_due(last: u64, now: u64, interval: u64) -> (due: bool)
    ensures
        due == beat_due(last, now, interval),
{
    if now < last {
        false
    } else {
        now - last >= interval
    }
}

impl Tables {
    /// One beat of the node `me` at `now`.
    pub fn beat(&mut self, me: Uuid, now: u64, window: u64, limit: u32)
        requires
            old(self).wf(),
        ensures
            final(self).wf(),
            final(self)@ == after_beat(old(self)@, me, now, window, limit),
    {
        self.set_hb(now, me);
        let ghost start = self@;
        let ghost written = start.heartbeats;
        if limit == 0 {
            return ;
        }
        if now <= window {
            proof {
                lemma_filter_all(written, |h: Heartbeat| !stale(me, now, window)(h));
            }
            return ;
        }
        let threshold = now - window;
        let rows = self.scan_hb(threshold - 1, limit);
        let ghost list = written.filter(heartbeat_until((threshold - 1) as u64));
        let mut j: usize = 0;
        proof {
            assert(list.take(0) =~= Seq::<Heartbeat>::empty());
            lemma_filter_all(written, heartbeat_left(me, list.take(0)));
        }
        while j < rows.len()
            invariant
                j <= rows.len(),
                start.wf(),
                self.wf(),
                written == start.heartbeats,
                rows@ == list,
                self@ == (State {
                    heartbeats: written.filter(heartbeat_left(me, list.take(j as int))),
                    ..start
                }),
            decreases rows.len() - j,
        {
            let row = rows[j];
            let ghost done = list.take(j as int);
            let ghost next = list.take(j as int + 1);
            proof {
                assert(next =~= done.push(row));
                assert forall|k: int| 0 <= k < written.len() implies heartbeat_left(me, next)(
                    #[trigger] written[k],
                ) == (heartbeat_left(me, done)(written[k]) && !(row.node == me && heartbeat_is(
                    row.ts,
                    me,
                )(written[k]))) by {
                    lemma_push_contains(done, row, written[k]);
                }
            }
            if row.node == me {
                proof {
                    let miss = |h: Heartbeat| !heartbeat_is(row.ts, me)(h);
                    lemma_filter_filter(written, heartbeat_left(me, done), miss);
                    lemma_filter_ext(
                        written,
                        |h: Heartbeat| heartbeat_left(me, done)(h) && miss(h),
                        heartbeat_left(me, next),
                    );
                }
                self.del_hb(row.ts, me);
            } else {
                proof {
                    lemma_filter_ext(written, heartbeat_left(me, done), heartbeat_left(me, next));
                }
            }
            j += 1;
        }
        proof {
            assert(list.take(j as int) =~= list);
            assert forall|k: int| 0 <= k < written.len() implies heartbeat_left(me, list)(
                #[trigger] written[k],
            ) == !stale(me, now, window)(written[k]) by {
                lemma_filter_member(
                    written,
                    heartbeat_until((threshold - 1) as u64),
                    written[k],
                );
            }
            lemma_filter_ext(
                written,
                heartbeat_left(me, list),
                |h: Heartbeat| !stale(me, now, window)(h),
            );
        }
    }
}

} // verus!
