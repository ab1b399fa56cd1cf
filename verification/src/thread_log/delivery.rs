//! Delivery: an entry is handed on once nothing stands between it and its
//! delivery, and whatever its delivery sets free is delivered after it.
use vstd::prelude::*;
use crate::blockers::{after_release, BlockedView, released, wait_set};
use crate::effects::{Effects, lemma_grew_refl};
use crate::model::{
    chains_advance, cursor_map, deliverable, delivered, delivers_only, dep_waits, entry_ok, Event,
    fetching_kept, has_chain, held, horizon, interesting, is_duplicate, last_beyond,
    lemma_advance_chain, lemma_last_beyond, lemma_mark_all_other, lemma_must_wait_for,
    lemma_ready_advance, lemma_steps_push, lemma_steps_rest, lemma_update_chain, loc_waits,
    mark_all, must_wait_for, ready, real_positions, slot_of, steps, touches_interesting, waiting,
};
use crate::packets::{Entry, EntryView, frames, OrderIndex};
use crate::per_chain::{marked, only_parked_differs, PerChain, untouched};
use crate::thread_log::{
    chain_changed, lemma_progressed_rest, lemma_progressed_trans, lemma_wf_marked, lemma_wf_rest,
    progressed, ThreadLog,
};
use crate::thread_log::fetching::{fetch_room, fetched, fetches_at};

verus! {

/// What an attempt to deliver an entry comes to.
#[derive(Clone, Copy, Debug, PartialEq, Eq, Structural)]
pub enum Verdict {
    /// A position that the entry occupies has been delivered: the entry is a
    /// duplicate.
    Duplicate,
    /// The horizon of this chain has not reached the entry.
    Beyond(u32),
    /// Every position that the entry occupies is the next of its chain and
    /// within the horizon.
    Deliverable,
}

/// What an attempt to deliver `e` comes to, with the chains as they are.
pub open spec fn verdict_of(e: EntryView, chains: Seq<PerChain>) -> Verdict {
    if is_duplicate(e, chains) {
        Verdict::Duplicate
    } else if last_beyond(e.locs, chains) >= 0 {
        Verdict::Beyond(e.locs[last_beyond(e.locs, chains)].0)
    } else {
        Verdict::Deliverable
    }
}

/// The chains `b` are the chains `a` after `val` was given to chain `c` to
/// keep for a later horizon. A chain that had no state got one.
pub open spec fn parks(a: Seq<PerChain>, b: Seq<PerChain>, c: u32, val: Entry) -> bool {
    let i = slot_of(b, c);
    &&& has_chain(b, c)
    &&& b[i].blocked_on_new_snapshot == Some(val)
    &&& b.len() == (if has_chain(a, c) {
        a.len()
    } else {
        a.len() + 1
    })
    &&& forall|s: int| 0 <= s < a.len() && s != i ==> #[trigger] b[s] == a[s]
    &&& i < a.len() ==> only_parked_differs(a[i], b[i])
    &&& i >= a.len() ==> untouched(
        PerChain { blocked_on_new_snapshot: None, ..b[i] },
        c,
    ) && !b[i].is_interesting
}

/// From the chains `a` to the chains `b`, positions were marked as delivered
/// and nothing else happened: a chain whose cursor did not move is as it was.
pub open spec fn marks(a: Seq<PerChain>, b: Seq<PerChain>) -> bool {
    &&& b.len() == a.len()
    &&& forall|s: int|
        0 <= s < a.len() ==> if (#[trigger] b[s]).last_returned_to_client
            == a[s].last_returned_to_client {
            b[s] == a[s]
        } else {
            marked(a[s], b[s], b[s].last_returned_to_client)
        }
}

/// What [`ThreadLog::return_entry`] does: the engine and what it handed out
/// before the call (`pre`, `pre_fx`) and after it (`post`, `post_fx`), the
/// entry `val`, and the result `done`.
pub open spec fn returned(
    pre: ThreadLog,
    pre_fx: Effects,
    val: Entry,
    post: ThreadLog,
    post_fx: Effects,
    done: bool,
) -> bool {
    let a = pre.per_chains@;
    let b = post.per_chains@;
    &&& post.blockers == pre.blockers
    &&& post.blocked_multiappends == pre.blocked_multiappends
    &&& post.num_snapshots == pre.num_snapshots
    &&& post.cache == pre.cache
    &&& post_fx.to_store@ == pre_fx.to_store@
    &&& post_fx.finished_writes@ == pre_fx.finished_writes@
    &&& match verdict_of(val@, a) {
        Verdict::Duplicate => {
            &&& !done
            &&& b == a
            &&& post.no_longer_blocked@ == pre.no_longer_blocked@
            &&& post_fx.trace@ == pre_fx.trace@
            &&& post_fx.ready_reads@ == pre_fx.ready_reads@
        },
        Verdict::Beyond(c) => {
            &&& !done
            &&& parks(a, b, c, val)
            &&& post.no_longer_blocked@ == pre.no_longer_blocked@
            &&& post_fx.trace@ == pre_fx.trace@
            &&& post_fx.ready_reads@ == pre_fx.ready_reads@
        },
        Verdict::Deliverable => {
            let surfaced = touches_interesting(val@.locs, a);
            &&& done
            &&& marks(a, b)
            &&& cursor_map(b) == mark_all(cursor_map(a), val@.locs)
            &&& post.no_longer_blocked@ == pre.no_longer_blocked@ + real_positions(val@.locs)
            &&& post_fx.trace@ == pre_fx.trace@.push(Event::Delivered { entry: val@, surfaced })
            &&& post_fx.ready_reads@.len() == pre_fx.ready_reads@.len() + (if surfaced {
                1int
            } else {
                0int
            })
            &&& post_fx.ready_reads@.take(pre_fx.ready_reads@.len() as int) == pre_fx.ready_reads@
            &&& surfaced ==> frames(val@, post_fx.ready_reads@.last()@)
        },
    }
}

impl ThreadLog {
    /// Finds out what an attempt to deliver `e` comes to.
    pub fn check_entry(&self, e: &Entry) -> (verdict: Verdict)
        requires
            self.wf(),
        ensures
            verdict == verdict_of(e@, self.per_chains@),
    {
        let ghost chains = self.per_chains@;
        let mut should_block_on: Option<u32> = None;
        let mut k: usize = 0;
        while k < e.locs.len()
            invariant
                k <= e.locs@.len(),
                self.wf(),
                chains == self.per_chains@,
                forall|j: int|
                    0 <= j < k ==> !((#[trigger] e.locs@[j]).0 != 0 && delivered(chains, e.locs@[j])),
                should_block_on == (if last_beyond(e.locs@.take(k as int), chains) >= 0 {
                    Some(e.locs@[last_beyond(e.locs@.take(k as int), chains)].0)
                } else {
                    None
                }),
            decreases e.locs@.len() - k,
        {
            let loc = e.locs[k];
            proof {
                assert(e.locs@.take(k + 1).drop_last() =~= e.locs@.take(k as int));
            }
            if loc.0 != 0 {
                let (cur, hor, _) = self.lookup(loc.0);
                if loc.1 <= cur {
                    return Verdict::Duplicate;
                }
                if loc.1 > hor {
                    should_block_on = Some(loc.0);
                }
            }
            k = k + 1;
        }
        proof {
            assert(e.locs@.take(k as int) =~= e.locs@);
        }
        match should_block_on {
            Some(chain) => Verdict::Beyond(chain),
            None => Verdict::Deliverable,
        }
    }

    /// Marks every position that `e` occupies on a real chain as delivered,
    /// and puts each on the list of positions whose waiters are to be
    /// released. Says whether `e` occupies a position on an interesting
    /// chain.
    pub fn mark_delivered(&mut self, e: &Entry) -> (surfaced: bool)
        requires
            old(self).wf(),
            entry_ok(e@),
            ready(e@, old(self).per_chains@),
            verdict_of(e@, old(self).per_chains@) == Verdict::Deliverable,
        ensures
            final(self).wf(),
            marks(old(self).per_chains@, final(self).per_chains@),
            chains_advance(old(self).per_chains@, final(self).per_chains@),
            cursor_map(final(self).per_chains@) == mark_all(
                cursor_map(old(self).per_chains@),
                e@.locs,
            ),
            deliverable(cursor_map(old(self).per_chains@), e@),
            surfaced == touches_interesting(e@.locs, old(self).per_chains@),
            final(self).no_longer_blocked@ == old(self).no_longer_blocked@ + real_positions(
                e@.locs,
            ),
            final(self).blockers == old(self).blockers,
            final(self).blocked_multiappends == old(self).blocked_multiappends,
            final(self).num_snapshots == old(self).num_snapshots,
            final(self).cache == old(self).cache,
    {
        let ghost a = old(self).per_chains@;
        let ghost m = cursor_map(a);
        let ghost locs = e.locs@;
        proof {
            lemma_last_beyond(locs, a);
        }
        let mut surfaced = false;
        let mut k: usize = 0;
        while k < e.locs.len()
            invariant
                k <= locs.len(),
                locs == e.locs@,
                a == old(self).per_chains@,
                m == cursor_map(a),
                old(self).wf(),
                entry_ok(e@),
                self.wf(),
                marks(a, self.per_chains@),
                chains_advance(a, self.per_chains@),
                cursor_map(self.per_chains@) == mark_all(m, locs.take(k as int)),
                forall|j: int|
                    0 <= j < locs.len() && (#[trigger] locs[j]).0 != 0 ==> locs[j].1 == m[locs[j].0]
                        + 1 && locs[j].1 <= horizon(a, locs[j].0),
                surfaced == touches_interesting(locs.take(k as int), a),
                self.no_longer_blocked@ == old(self).no_longer_blocked@ + real_positions(
                    locs.take(k as int),
                ),
                self.blockers == old(self).blockers,
                self.blocked_multiappends == old(self).blocked_multiappends,
                self.num_snapshots == old(self).num_snapshots,
                self.cache == old(self).cache,
            decreases locs.len() - k,
        {
            let loc = e.locs[k];
            let ghost before = *self;
            let ghost b = self.per_chains@;
            proof {
                assert(locs.take(k + 1).drop_last() =~= locs.take(k as int));
                assert(locs.take(k + 1).last() == loc);
            }
            if loc.0 != 0 {
                proof {
                    lemma_mark_all_other(m, locs.take(k as int), loc.0);
                }
                match self.find_chain(loc.0) {
                    Some(i) => {
                        surfaced = surfaced || self.per_chains[i].is_interesting;
                        self.per_chains[i].set_returned(loc.1);
                        self.no_longer_blocked.push(loc);
                        proof {
                            let pc = self.per_chains@[i as int];
                            lemma_wf_marked(before, *self, i as int, loc);
                            assert forall|c: u32| #[trigger]
                                cursor_map(self.per_chains@)[c] == mark_all(m, locs.take(k + 1))[c] by {
                                lemma_update_chain(b, i as int, pc, c);
                            }
                        }
                    },
                    None => {},
                }
            }
            proof {
                let t1 = locs.take(k + 1);
                if touches_interesting(t1, a) {
                    let j = choose|j: int|
                        0 <= j < t1.len() && (#[trigger] t1[j]).0 != 0 && interesting(a, t1[j].0);
                    assert(j < k ==> locs.take(k as int)[j] == t1[j]);
                }
            }
            k = k + 1;
        }
        proof {
            assert(locs.take(k as int) =~= locs);
        }
        surfaced
    }

    /// Tries to deliver `val`, which nothing but the horizon can keep from
    /// being delivered.
    ///
    /// A duplicate is dropped. An entry that a horizon has not reached is
    /// given to the chain of that horizon to keep. Any other entry is
    /// delivered: each position it occupies is marked, its waiters are due to
    /// be released, and its bytes go to the application where it touches an
    /// interesting chain. The result says whether `val` was delivered.
    pub fn return_entry(&mut self, val: Entry, fx: &mut Effects) -> (done: bool)
        requires
            old(self).wf(),
            old(fx).wf(),
            entry_ok(val@),
            ready(val@, old(self).per_chains@),
        ensures
            final(self).wf(),
            final(fx).wf(),
            returned(*old(self), *old(fx), val, *final(self), *final(fx), done),
            chains_advance(old(self).per_chains@, final(self).per_chains@),
            steps(
                old(self).per_chains@,
                old(fx).trace@,
                final(self).per_chains@,
                final(fx).trace@,
            ),
            final(fx).grew_from(*old(fx)),
            delivers_only(old(fx).trace@, final(fx).trace@),
            fetching_kept(old(self).per_chains@, final(self).per_chains@),
    {
        let ghost a = old(self).per_chains@;
        match self.check_entry(&val) {
            Verdict::Duplicate => {
                proof {
                    lemma_grew_refl(*fx);
                }
                false
            },
            Verdict::Beyond(chain) => {
                let i = self.chain_slot(chain, false);
                let ghost mid = *self;
                let ghost b = self.per_chains@;
                self.per_chains[i].block_on_snapshot(val);
                proof {
                    lemma_ready_advance(val@, a, b);
                    lemma_ready_advance(val@, b, self.per_chains@);
                    lemma_wf_rest(mid, *self);
                    lemma_steps_rest(a, self.per_chains@, fx.trace@);
                    lemma_grew_refl(*fx);
                }
                false
            },
            Verdict::Deliverable => {
                let surfaced = self.mark_delivered(&val);
                fx.deliver(&val, surfaced);
                proof {
                    lemma_steps_push(
                        a,
                        old(fx).trace@,
                        self.per_chains@,
                        Event::Delivered { entry: val@, surfaced },
                    );
                }
                true
            },
        }
    }
}

/// What trying to deliver each of `vals` does, one after the other, each as
/// [`returned`] says: the engine and what it handed out before (`pre`,
/// `pre_fx`) and after (`post`, `post_fx`).
pub open spec fn returned_each(
    pre: ThreadLog,
    pre_fx: Effects,
    vals: Seq<Entry>,
    post: ThreadLog,
    post_fx: Effects,
) -> bool
    decreases vals.len(),
{
    if vals.len() == 0 {
        post == pre && post_fx == pre_fx
    } else {
        exists|mid: ThreadLog, mid_fx: Effects, done: bool|
            #![trigger returned(mid, mid_fx, vals.last(), post, post_fx, done)]
            returned_each(pre, pre_fx, vals.drop_last(), mid, mid_fx) && returned(
                mid,
                mid_fx,
                vals.last(),
                post,
                post_fx,
                done,
            )
    }
}

/// The engine `start` is the engine `pre` after the waiters of `loc` were
/// released, with `worklist` as the positions whose waiters are yet to be
/// released; `freed` are the entries that waited for nothing but `loc`,
/// oldest first.
pub open spec fn released_with(
    pre: ThreadLog,
    loc: OrderIndex,
    worklist: Seq<OrderIndex>,
    start: ThreadLog,
    freed: Seq<Entry>,
) -> bool {
    &&& start.no_longer_blocked@ == worklist
    &&& start.blockers@ == after_release(pre.blockers@, loc)
    &&& freed.map_values(|e: Entry| e@) == released(pre.blockers@, loc)
    &&& start.per_chains == pre.per_chains
    &&& start.blocked_multiappends == pre.blocked_multiappends
    &&& start.cache == pre.cache
    &&& start.num_snapshots == pre.num_snapshots
}

/// What [`ThreadLog::try_return_blocked_by`] does with the position `loc`,
/// with `worklist` as the positions whose waiters are yet to be released:
/// the waiters of `loc` are released, and each entry that this sets free is
/// tried to be delivered, oldest first.
pub open spec fn released_and_returned(
    pre: ThreadLog,
    pre_fx: Effects,
    loc: OrderIndex,
    worklist: Seq<OrderIndex>,
    post: ThreadLog,
    post_fx: Effects,
) -> bool {
    exists|start: ThreadLog, freed: Seq<Entry>|
        #![trigger returned_each(start, pre_fx, freed, post, post_fx)]
        released_with(pre, loc, worklist, start, freed) && returned_each(
            start,
            pre_fx,
            freed,
            post,
            post_fx,
        )
}

/// What `n` rounds of [`ThreadLog::stop_blocking_on`] do: in each, the
/// position that was delivered last and whose waiters were not released yet
/// is taken, and dealt with as [`released_and_returned`] says.
pub open spec fn drained_in(
    n: nat,
    pre: ThreadLog,
    pre_fx: Effects,
    post: ThreadLog,
    post_fx: Effects,
) -> bool
    decreases n,
{
    if n == 0 {
        post == pre && post_fx == pre_fx
    } else {
        exists|mid: ThreadLog, mid_fx: Effects|
            #![trigger released_and_returned(mid, mid_fx, mid.no_longer_blocked@.last(), mid.no_longer_blocked@.drop_last(), post, post_fx)]
            drained_in((n - 1) as nat, pre, pre_fx, mid, mid_fx) && mid.no_longer_blocked@.len() > 0
                && released_and_returned(
                mid,
                mid_fx,
                mid.no_longer_blocked@.last(),
                mid.no_longer_blocked@.drop_last(),
                post,
                post_fx,
            )
    }
}

/// What [`ThreadLog::stop_blocking_on`] does: rounds as [`drained_in`] says,
/// until no position is left whose waiters were not released.
pub open spec fn drained(pre: ThreadLog, pre_fx: Effects, post: ThreadLog, post_fx: Effects) -> bool {
    post.no_longer_blocked@.len() == 0 && exists|n: nat|
        #![trigger drained_in(n, pre, pre_fx, post, post_fx)]
        drained_in(n, pre, pre_fx, post, post_fx)
}

/// What [`ThreadLog::deliver_unblocked`] does with `unblocked`: an entry is
/// tried to be delivered as [`returned`] says, and where it was delivered,
/// what that sets free is delivered as [`drained`] says.
pub open spec fn unblocked_delivered(
    pre: ThreadLog,
    pre_fx: Effects,
    unblocked: Option<Entry>,
    post: ThreadLog,
    post_fx: Effects,
) -> bool {
    match unblocked {
        None => post == pre && post_fx == pre_fx,
        Some(val) => exists|mid: ThreadLog, mid_fx: Effects, done: bool|
            #![trigger returned(pre, pre_fx, val, mid, mid_fx, done)]
            returned(pre, pre_fx, val, mid, mid_fx, done) && (if done {
                drained(mid, mid_fx, post, post_fx)
            } else {
                post == mid && post_fx == mid_fx
            }),
    }
}

/// What [`released_and_returned`] says of an engine does not depend on
/// which positions that engine has on its list.
pub proof fn lemma_released_of_any_list(
    popped: ThreadLog,
    pre: ThreadLog,
    pre_fx: Effects,
    loc: OrderIndex,
    worklist: Seq<OrderIndex>,
    post: ThreadLog,
    post_fx: Effects,
)
    requires
        released_and_returned(popped, pre_fx, loc, worklist, post, post_fx),
        popped.blockers@ == pre.blockers@,
        popped.per_chains == pre.per_chains,
        popped.blocked_multiappends == pre.blocked_multiappends,
        popped.cache == pre.cache,
        popped.num_snapshots == pre.num_snapshots,
    ensures
        released_and_returned(pre, pre_fx, loc, worklist, post, post_fx),
{
}

impl ThreadLog {
    /// Releases the waiters of `loc`, which has been delivered, and tries to
    /// deliver each entry that waited for nothing else, oldest first.
    pub fn try_return_blocked_by(&mut self, loc: OrderIndex, fx: &mut Effects)
        requires
            old(self).wf_given(old(self).no_longer_blocked@.push(loc)),
            old(fx).wf(),
        ensures
            final(self).wf(),
            final(fx).wf(),
            chains_advance(old(self).per_chains@, final(self).per_chains@),
            steps(
                old(self).per_chains@,
                old(fx).trace@,
                final(self).per_chains@,
                final(fx).trace@,
            ),
            final(fx).grew_from(*old(fx)),
            delivers_only(old(fx).trace@, final(fx).trace@),
            final(fx).finished_writes@ == old(fx).finished_writes@,
            final(self).blockers@ == after_release(old(self).blockers@, loc),
            released(old(self).blockers@, loc).len() == 0 ==> final(self).no_longer_blocked@
                == old(self).no_longer_blocked@ && final(self).per_chains@ == old(
                self,
            ).per_chains@ && final(fx).trace@ == old(fx).trace@,
            final(self).blocked_multiappends == old(self).blocked_multiappends,
            final(self).num_snapshots == old(self).num_snapshots,
            final(self).cache == old(self).cache,
            final(fx).to_store@ == old(fx).to_store@,
            fetching_kept(old(self).per_chains@, final(self).per_chains@),
            released_and_returned(
                *old(self),
                *old(fx),
                loc,
                old(self).no_longer_blocked@,
                *final(self),
                *final(fx),
            ),
    {
        let ghost before = old(self).blockers@;
        let ghost a = old(self).per_chains@;
        let ghost worklist = old(self).no_longer_blocked@;
        let mut freed = self.blockers.release(loc);
        let ghost start = *self;
        let ghost all = freed@;
        let ghost mut k: int = 0;
        proof {
            assert(all.skip(0) =~= all);
        }
        proof {
            assert(worklist.push(loc)[worklist.len() as int] == loc);
            assert forall|k: int| 0 <= k < self.blockers@.len() implies entry_ok(
                (#[trigger] self.blockers@[k]).entry,
            ) && held(self.blockers@[k], a) && waiting(self.blockers@[k], a, worklist) by {
                crate::blockers::lemma_after_release_from(before, loc, k);
                let j = choose|j: int|
                    0 <= j < before.len() && (#[trigger] before[j]).entry == after_release(
                        before,
                        loc,
                    )[k].entry && after_release(before, loc)[k].waits == before[j].waits.remove(loc)
                        && !crate::blockers::freed_by(before[j], loc);
                let q = choose|q: OrderIndex| before[j].waits.contains(q) && !set![loc].contains(q);
                assert(self.blockers@[k].waits.contains(q));
            }
            assert forall|k: int| 0 <= k < worklist.len() implies delivered(
                a,
                #[trigger] worklist[k],
            ) by {
                assert(worklist.push(loc)[k] == worklist[k]);
            }
            assert forall|k: int| 0 <= k < freed@.len() implies entry_ok(
                (#[trigger] freed@[k])@,
            ) && ready(freed@[k]@, a) by {
                crate::blockers::lemma_released_from(before, loc, k);
            }
            lemma_grew_refl(*fx);
        }
        while freed.len() > 0
            invariant
                start.wf(),
                start.per_chains@ == old(self).per_chains@,
                released_with(*old(self), loc, old(self).no_longer_blocked@, start, all),
                0 <= k <= all.len(),
                freed@ == all.skip(k),
                returned_each(start, *old(fx), all.take(k), *self, *fx),
                fetching_kept(old(self).per_chains@, self.per_chains@),
                progressed(start, *old(fx), *self, *fx),
                forall|k: int|
                    0 <= k < freed@.len() ==> entry_ok((#[trigger] freed@[k])@) && ready(
                        freed@[k]@,
                        self.per_chains@,
                    ),
                self.blockers@ == after_release(old(self).blockers@, loc),
                released(old(self).blockers@, loc).len() == 0 ==> freed@.len() == 0
                    && self.no_longer_blocked@ == old(self).no_longer_blocked@ && self.per_chains@
                    == old(self).per_chains@ && fx.trace@ == old(fx).trace@,
                self.blocked_multiappends == old(self).blocked_multiappends,
                self.num_snapshots == old(self).num_snapshots,
                self.cache == old(self).cache,
                fx.to_store@ == old(fx).to_store@,
            decreases freed@.len(),
        {
            let ghost mid = *self;
            let ghost mid_fx = *fx;
            let val = freed.remove(0);
            let done = self.return_entry(val, fx);
            proof {
                assert(all.take(k + 1).drop_last() =~= all.take(k));
                assert(all.take(k + 1).last() == val);
                k = k + 1;
                lemma_progressed_trans(start, *old(fx), mid, mid_fx, *self, *fx);
                assert forall|j: int| 0 <= j < freed@.len() implies entry_ok(
                    (#[trigger] freed@[j])@,
                ) && ready(freed@[j]@, self.per_chains@) by {
                    lemma_ready_advance(freed@[j]@, mid.per_chains@, self.per_chains@);
                }
            }
        }
    }

    /// Releases the waiters of every position that has been delivered, and
    /// delivers what was set free by that, until no entry waits for a
    /// position that has been delivered.
    pub fn stop_blocking_on(&mut self, fx: &mut Effects)
        requires
            old(self).wf(),
            old(fx).wf(),
        ensures
            progressed(*old(self), *old(fx), *final(self), *final(fx)),
            final(self).quiet(),
            final(self).blocked_multiappends == old(self).blocked_multiappends,
            final(self).num_snapshots == old(self).num_snapshots,
            final(self).cache == old(self).cache,
            final(fx).to_store@ == old(fx).to_store@,
            old(self).no_longer_blocked@.len() == 0 ==> *final(self) == *old(self) && *final(fx)
                == *old(fx),
            fetching_kept(old(self).per_chains@, final(self).per_chains@),
            drained(*old(self), *old(fx), *final(self), *final(fx)),
    {
        proof {
            lemma_grew_refl(*fx);
        }
        let ghost mut rounds: nat = 0;
        while self.no_longer_blocked.len() > 0
            invariant
                old(self).wf(),
                drained_in(rounds, *old(self), *old(fx), *self, *fx),
                fetching_kept(old(self).per_chains@, self.per_chains@),
                progressed(*old(self), *old(fx), *self, *fx),
                self.blocked_multiappends == old(self).blocked_multiappends,
                self.num_snapshots == old(self).num_snapshots,
                self.cache == old(self).cache,
                fx.to_store@ == old(fx).to_store@,
                old(self).no_longer_blocked@.len() == 0 ==> *self == *old(self) && *fx == *old(fx),
            decreases self.blockers@.len(), self.no_longer_blocked@.len(),
        {
            let ghost mid = *self;
            let ghost mid_fx = *fx;
            let loc = self.no_longer_blocked.pop().unwrap();
            proof {
                assert(mid.no_longer_blocked@ =~= self.no_longer_blocked@.push(loc));
                crate::blockers::lemma_release_keeps_count(self.blockers@, loc);
            }
            let ghost popped = *self;
            self.try_return_blocked_by(loc, fx);
            proof {
                lemma_progressed_trans(*old(self), *old(fx), mid, mid_fx, *self, *fx);
                assert(mid.no_longer_blocked@.last() == loc);
                assert(mid.no_longer_blocked@.drop_last() =~= popped.no_longer_blocked@);
                lemma_released_of_any_list(
                    popped,
                    mid,
                    mid_fx,
                    loc,
                    popped.no_longer_blocked@,
                    *self,
                    *fx,
                );
                rounds = rounds + 1;
            }
        }
    }

    /// Finds out what stands between `packet` and its delivery, the horizon
    /// aside. Where something does, the entry is kept until all of that has
    /// been delivered; where nothing does, the entry is handed back.
    pub fn add_blockers(&mut self, packet: Entry) -> (free: Option<Entry>)
        requires
            old(self).wf(),
            entry_ok(packet@),
        ensures
            final(self).wf(),
            final(self).per_chains == old(self).per_chains,
            final(self).no_longer_blocked == old(self).no_longer_blocked,
            final(self).blocked_multiappends == old(self).blocked_multiappends,
            final(self).num_snapshots == old(self).num_snapshots,
            final(self).cache == old(self).cache,
            must_wait_for(packet@, old(self).per_chains@).len() == 0 ==> free == Some(packet)
                && *final(self) == *old(self) && ready(packet@, old(self).per_chains@),
            must_wait_for(packet@, old(self).per_chains@).len() > 0 ==> free.is_none()
                && final(self).blockers@ == old(self).blockers@.push(
                BlockedView {
                    entry: packet@,
                    waits: wait_set(must_wait_for(packet@, old(self).per_chains@)),
                },
            ),
    {
        let ghost chains = self.per_chains@;
        let ghost e = packet@;
        let mut waits: Vec<OrderIndex> = Vec::new();
        let mut k: usize = 0;
        while k < packet.deps.len()
            invariant
                k <= packet.deps@.len(),
                self.wf(),
                chains == self.per_chains@,
                e == packet@,
                waits@ == dep_waits(e.deps.take(k as int), chains),
            decreases packet.deps@.len() - k,
        {
            let dep = packet.deps[k];
            proof {
                assert(e.deps.take(k + 1).drop_last() =~= e.deps.take(k as int));
            }
            let (cur, _, _) = self.lookup(dep.0);
            if dep.1 > cur {
                waits.push(dep);
            }
            k = k + 1;
        }
        proof {
            assert(e.deps.take(k as int) =~= e.deps);
        }
        let mut k: usize = 0;
        while k < packet.locs.len()
            invariant
                k <= packet.locs@.len(),
                self.wf(),
                chains == self.per_chains@,
                e == packet@,
                waits@ == dep_waits(e.deps, chains) + loc_waits(e.locs.take(k as int), chains),
            decreases packet.locs@.len() - k,
        {
            let loc = packet.locs[k];
            proof {
                assert(e.locs.take(k + 1).drop_last() =~= e.locs.take(k as int));
            }
            if loc.0 != 0 {
                let (cur, _, _) = self.lookup(loc.0);
                if loc.1 > cur && loc.1 - 1 > cur {
                    waits.push(OrderIndex(loc.0, loc.1 - 1));
                }
            }
            k = k + 1;
        }
        proof {
            assert(e.locs.take(k as int) =~= e.locs);
            lemma_must_wait_for(e, chains);
        }
        if waits.len() == 0 {
            Some(packet)
        } else {
            self.blockers.block(packet, waits);
            proof {
                let nb = BlockedView { entry: e, waits: wait_set(must_wait_for(e, chains)) };
                assert forall|j: int| 0 <= j < self.blockers@.len() implies entry_ok(
                    (#[trigger] self.blockers@[j]).entry,
                ) && held(self.blockers@[j], chains) && waiting(
                    self.blockers@[j],
                    chains,
                    self.no_longer_blocked@,
                ) by {
                    if j >= old(self).blockers@.len() {
                        assert(nb.waits.contains(must_wait_for(e, chains)[0]));
                    }
                }
            }
            None
        }
    }
}

/// What making sure that a dependency at `index` can be fetched does to its
/// chain: `pre` before, `post` after; `unblocked` is the entry that the
/// raised horizon has freed; the fetches are what `sent` has more than
/// `sent_before`. The horizon is raised to `index`, and the fetches that
/// [`PerChain::spec_num_to_fetch`] then counts are issued, as far as there is
/// room.
pub open spec fn blocker_planned(
    pre: PerChain,
    index: u32,
    post: PerChain,
    unblocked: Option<Entry>,
    sent_before: Seq<Vec<u8>>,
    sent: Seq<Vec<u8>>,
) -> bool {
    exists|mid: PerChain|
        #![trigger fetched(mid, post, sent.len() - sent_before.len())]
        {
            let count = sent.len() - sent_before.len();
            &&& PerChain::horizon_updated(pre, index, mid, unblocked)
            &&& count == (if mid.spec_num_to_fetch() <= fetch_room(mid) {
                mid.spec_num_to_fetch()
            } else {
                fetch_room(mid)
            })
            &&& fetched(mid, post, count)
            &&& fetches_at(
                sent,
                sent_before.len() as int,
                pre.chain,
                mid.last_read_sent_to_server,
                count,
            )
        }
}

/// What [`ThreadLog::prepare_blocker`] does for the dependency `dep`: the
/// engine and what it handed out before (`pre`, `pre_fx`) and after (`post`,
/// `post_fx`); `unblocked` is the entry that the raised horizon has freed. A
/// chain without a state gets one first.
pub open spec fn blocker_prepared(
    pre: ThreadLog,
    pre_fx: Effects,
    dep: OrderIndex,
    post: ThreadLog,
    post_fx: Effects,
    unblocked: Option<Entry>,
) -> bool {
    let a = pre.per_chains@;
    let b = post.per_chains@;
    &&& chain_changed(pre, dep.0, post)
    &&& post_fx.sent_more(pre_fx)
    &&& exists|before: PerChain|
        #![trigger blocker_planned(before, dep.1, b[slot_of(b, dep.0)], unblocked, pre_fx.to_store@, post_fx.to_store@)]
        (if has_chain(a, dep.0) {
            before == a[slot_of(a, dep.0)]
        } else {
            untouched(before, dep.0) && !before.is_interesting
        }) && blocker_planned(
            before,
            dep.1,
            b[slot_of(b, dep.0)],
            unblocked,
            pre_fx.to_store@,
            post_fx.to_store@,
        )
}

/// What is done for one dependency by [`ThreadLog::fetch_blockers_if_needed`]:
/// it is made sure that `dep` can be fetched as [`blocker_prepared`] says,
/// and the entry that the raised horizon has freed is delivered as
/// [`unblocked_delivered`] says.
pub open spec fn blocker_fetched(
    pre: ThreadLog,
    pre_fx: Effects,
    dep: OrderIndex,
    post: ThreadLog,
    post_fx: Effects,
) -> bool {
    exists|mid: ThreadLog, mid_fx: Effects, unblocked: Option<Entry>|
        #![trigger unblocked_delivered(mid, mid_fx, unblocked, post, post_fx)]
        blocker_prepared(pre, pre_fx, dep, mid, mid_fx, unblocked) && unblocked_delivered(
            mid,
            mid_fx,
            unblocked,
            post,
            post_fx,
        )
}

/// What [`ThreadLog::fetch_blockers_if_needed`] does for the dependencies
/// `deps`: for each what [`blocker_fetched`] says, one after the other.
pub open spec fn blockers_fetched(
    pre: ThreadLog,
    pre_fx: Effects,
    deps: Seq<OrderIndex>,
    post: ThreadLog,
    post_fx: Effects,
) -> bool
    decreases deps.len(),
{
    if deps.len() == 0 {
        post == pre && post_fx == pre_fx
    } else {
        exists|mid: ThreadLog, mid_fx: Effects|
            #![trigger blocker_fetched(mid, mid_fx, deps.last(), post, post_fx)]
            blockers_fetched(pre, pre_fx, deps.drop_last(), mid, mid_fx) && blocker_fetched(
                mid,
                mid_fx,
                deps.last(),
                post,
                post_fx,
            )
    }
}

/// The engine `post` is the engine `pre` with `packet` kept until what stands
/// between it and its delivery has been delivered.
pub open spec fn blocked_as(pre: ThreadLog, packet: Entry, post: ThreadLog) -> bool {
    &&& post.blockers@ == pre.blockers@.push(
        BlockedView { entry: packet@, waits: wait_set(must_wait_for(packet@, pre.per_chains@)) },
    )
    &&& post.per_chains == pre.per_chains
    &&& post.no_longer_blocked == pre.no_longer_blocked
    &&& post.blocked_multiappends == pre.blocked_multiappends
    &&& post.num_snapshots == pre.num_snapshots
    &&& post.cache == pre.cache
}

/// What [`ThreadLog::try_returning`] does with `packet`: where nothing stands
/// between it and its delivery, what [`unblocked_delivered`] says; else it is
/// kept as [`blocked_as`] says, and its dependencies are made sure to be
/// fetched as [`blockers_fetched`] says.
pub open spec fn try_returned(
    pre: ThreadLog,
    pre_fx: Effects,
    packet: Entry,
    post: ThreadLog,
    post_fx: Effects,
) -> bool {
    if must_wait_for(packet@, pre.per_chains@).len() == 0 {
        unblocked_delivered(pre, pre_fx, Some(packet), post, post_fx)
    } else {
        exists|mid: ThreadLog|
            #![trigger blocked_as(pre, packet, mid)]
            blocked_as(pre, packet, mid) && blockers_fetched(
                mid,
                pre_fx,
                packet@.deps,
                post,
                post_fx,
            )
    }
}

impl ThreadLog {
    /// Tries to deliver the entry that a raised horizon has freed, if it has
    /// freed one, and whatever that delivery sets free.
    pub fn deliver_unblocked(&mut self, unblocked: Option<Entry>, fx: &mut Effects)
        requires
            old(self).quiet(),
            old(fx).wf(),
            unblocked matches Some(e) ==> entry_ok(e@) && ready(e@, old(self).per_chains@),
        ensures
            progressed(*old(self), *old(fx), *final(self), *final(fx)),
            final(self).quiet(),
            final(self).blocked_multiappends == old(self).blocked_multiappends,
            final(self).num_snapshots == old(self).num_snapshots,
            final(self).cache == old(self).cache,
            final(fx).to_store@ == old(fx).to_store@,
            unblocked.is_none() ==> *final(self) == *old(self) && *final(fx) == *old(fx),
            fetching_kept(old(self).per_chains@, final(self).per_chains@),
            unblocked_delivered(*old(self), *old(fx), unblocked, *final(self), *final(fx)),
            unblocked matches Some(e) ==> (verdict_of(e@, old(self).per_chains@)
                == Verdict::Deliverable ==> final(fx).trace@.len() > old(fx).trace@.len()
                && final(fx).trace@[old(fx).trace@.len() as int] == (Event::Delivered {
                entry: e@,
                surfaced: touches_interesting(e@.locs, old(self).per_chains@),
            })),
    {
        match unblocked {
            Some(val) => {
                let done = self.return_entry(val, fx);
                let ghost mid = *self;
                let ghost mid_fx = *fx;
                if done {
                    self.stop_blocking_on(fx);
                    proof {
                        lemma_progressed_trans(*old(self), *old(fx), mid, mid_fx, *self, *fx);
                    }
                }
            },
            None => {
                proof {
                    lemma_grew_refl(*fx);
                }
            },
        }
    }

    /// Makes sure that the dependency `dep` can be fetched: the horizon of
    /// its chain is raised to it, and the fetches that the chain then calls
    /// for are issued. Hands back the entry that the raised horizon has
    /// freed.
    pub fn prepare_blocker(&mut self, dep: OrderIndex, fx: &mut Effects) -> (unblocked: Option<Entry>)
        requires
            old(self).wf(),
            old(fx).wf(),
        ensures
            final(self).wf(),
            final(fx).wf(),
            blocker_prepared(*old(self), *old(fx), dep, *final(self), *final(fx), unblocked),
            horizon(final(self).per_chains@, dep.0) >= dep.1,
            unblocked matches Some(e) ==> entry_ok(e@) && ready(e@, final(self).per_chains@),
    {
        let i = self.chain_slot(dep.0, false);
        let ghost s1 = *self;
        let unblocked = self.raise_horizon(i, dep.1);
        let ghost s2 = *self;
        let n = self.per_chains[i].num_to_fetch();
        let _ = self.fetch_many(i, n, fx);
        proof {
            if unblocked.is_some() {
                lemma_ready_advance(unblocked.unwrap()@, s2.per_chains@, self.per_chains@);
            }
            let before = s1.per_chains@[i as int];
            let mid = s2.per_chains@[i as int];
            assert(fetched(
                mid,
                self.per_chains@[i as int],
                fx.to_store@.len() - old(fx).to_store@.len(),
            ));
            assert(blocker_planned(
                before,
                dep.1,
                self.per_chains@[i as int],
                unblocked,
                old(fx).to_store@,
                fx.to_store@,
            ));
        }
        unblocked
    }

    /// Makes sure that each of the dependencies `deps` can be fetched, one
    /// after the other, each as [`ThreadLog::prepare_blocker`] does, and
    /// delivers what a raised horizon has freed.
    pub fn fetch_blockers_if_needed(&mut self, deps: &Vec<OrderIndex>, fx: &mut Effects)
        requires
            old(self).quiet(),
            old(fx).wf(),
        ensures
            progressed(*old(self), *old(fx), *final(self), *final(fx)),
            final(self).quiet(),
            final(self).blocked_multiappends == old(self).blocked_multiappends,
            final(self).num_snapshots == old(self).num_snapshots,
            blockers_fetched(*old(self), *old(fx), deps@, *final(self), *final(fx)),
            forall|k: int|
                0 <= k < deps@.len() ==> has_chain(final(self).per_chains@, (#[trigger] deps@[k]).0)
                    && horizon(final(self).per_chains@, deps@[k].0) >= deps@[k].1,
    {
        proof {
            lemma_grew_refl(*fx);
        }
        let mut k: usize = 0;
        while k < deps.len()
            invariant
                k <= deps@.len(),
                old(self).wf(),
                old(fx).wf(),
                progressed(*old(self), *old(fx), *self, *fx),
                self.quiet(),
                self.blocked_multiappends == old(self).blocked_multiappends,
                self.num_snapshots == old(self).num_snapshots,
                blockers_fetched(*old(self), *old(fx), deps@.take(k as int), *self, *fx),
                forall|j: int|
                    0 <= j < k ==> has_chain(self.per_chains@, (#[trigger] deps@[j]).0) && horizon(
                        self.per_chains@,
                        deps@[j].0,
                    ) >= deps@[j].1,
            decreases deps@.len() - k,
        {
            let dep = deps[k];
            let ghost s0 = *self;
            let ghost fx0 = *fx;
            let unblocked = self.prepare_blocker(dep, fx);
            let ghost s3 = *self;
            let ghost fx3 = *fx;
            proof {
                lemma_progressed_rest(s0, fx0, s3, fx3);
                lemma_progressed_trans(*old(self), *old(fx), s0, fx0, s3, fx3);
            }
            self.deliver_unblocked(unblocked, fx);
            proof {
                lemma_progressed_trans(*old(self), *old(fx), s3, fx3, *self, *fx);
                assert forall|j: int| 0 <= j < k + 1 implies has_chain(
                    self.per_chains@,
                    (#[trigger] deps@[j]).0,
                ) && horizon(self.per_chains@, deps@[j].0) >= deps@[j].1 by {
                    lemma_advance_chain(s0.per_chains@, self.per_chains@, deps@[j].0);
                }
                assert(deps@.take(k + 1).drop_last() =~= deps@.take(k as int));
                assert(deps@.take(k + 1).last() == dep);
                assert(blocker_fetched(s0, fx0, dep, *self, *fx));
            }
            k = k + 1;
        }
        proof {
            assert(deps@.take(k as int) =~= deps@);
        }
    }

    /// Tries to deliver `packet`: it is delivered now, with whatever its
    /// delivery sets free, where nothing stands between it and its delivery.
    /// Where something does, it is kept until that has been delivered, and
    /// the dependencies it has are made sure to be fetched.
    pub fn try_returning(&mut self, packet: Entry, fx: &mut Effects)
        requires
            old(self).quiet(),
            old(fx).wf(),
            entry_ok(packet@),
        ensures
            progressed(*old(self), *old(fx), *final(self), *final(fx)),
            final(self).quiet(),
            final(self).blocked_multiappends == old(self).blocked_multiappends,
            final(self).num_snapshots == old(self).num_snapshots,
            try_returned(*old(self), *old(fx), packet, *final(self), *final(fx)),
            must_wait_for(packet@, old(self).per_chains@).len() == 0 && verdict_of(
                packet@,
                old(self).per_chains@,
            ) == Verdict::Deliverable ==> final(fx).trace@.len() > old(fx).trace@.len()
                && final(fx).trace@[old(fx).trace@.len() as int] == (Event::Delivered {
                entry: packet@,
                surfaced: touches_interesting(packet@.locs, old(self).per_chains@),
            }),
            must_wait_for(packet@, old(self).per_chains@).len() > 0 ==> forall|k: int|
                0 <= k < packet@.deps.len() ==> has_chain(
                    final(self).per_chains@,
                    (#[trigger] packet@.deps[k]).0,
                ) && horizon(final(self).per_chains@, packet@.deps[k].0) >= packet@.deps[k].1,
    {
        let mut deps: Vec<OrderIndex> = Vec::new();
        let mut k: usize = 0;
        while k < packet.deps.len()
            invariant
                k <= packet.deps@.len(),
                deps@ == packet.deps@.take(k as int),
            decreases packet.deps@.len() - k,
        {
            deps.push(packet.deps[k]);
            k = k + 1;
        }
        assert(deps@ =~= packet.deps@);
        match self.add_blockers(packet) {
            Some(e) => {
                self.deliver_unblocked(Some(e), fx);
            },
            None => {
                let ghost mid = *self;
                self.fetch_blockers_if_needed(&deps, fx);
                proof {
                    assert(blocked_as(*old(self), packet, mid));
                }
            },
        }
    }
}

} // verus!
