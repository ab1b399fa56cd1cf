//! What the engine asks the storage tier for: probes of the horizon, and
//! fetches of the positions that a chain calls for.
use vstd::prelude::*;
use crate::effects::{Effects, is_fetch, lemma_sent_more_trans};
use crate::model::{chains_rest, entry_ok, has_chain, lemma_ready_advance, ready, slot_of};
use crate::packets::{Entry, EntryKind, EntryLayout, HORIZON_PROBE, OrderIndex};
use crate::per_chain::{MAX_PREFETCH, PerChain, ReadState, untouched};
use crate::thread_log::{
    chain_changed, lemma_progressed_rest, lemma_touched_chain, parked_kept, parked_ok, progressed,
    ThreadLog, touched_chain,
};
use crate::thread_log::delivery::unblocked_delivered;

verus! {

impl ThreadLog {
    /// Builds the request to read position `index` of `chain`, in a buffer
    /// from the pool.
    pub fn make_read_packet(&mut self, chain: u32, index: u32) -> (packet: Vec<u8>)
        requires
            old(self).wf(),
        ensures
            final(self).wf(),
            is_fetch(packet@, chain, index),
            final(self).per_chains == old(self).per_chains,
            final(self).blockers == old(self).blockers,
            final(self).no_longer_blocked == old(self).no_longer_blocked,
            final(self).blocked_multiappends == old(self).blocked_multiappends,
            final(self).num_snapshots == old(self).num_snapshots,
            final(self).cache.count() == (if old(self).cache.count() > 0 {
                old(self).cache.count() - 1
            } else {
                0
            }),
    {
        let buffer = self.cache.alloc_buffer();
        let mut locs: Vec<OrderIndex> = Vec::new();
        locs.push(OrderIndex(chain, index));
        let e = Entry {
            kind: EntryKind { layout: EntryLayout::Read, read_success: false },
            id: 0,
            locs,
            deps: Vec::new(),
            data: Vec::new(),
        };
        e.encode(buffer)
    }
}

/// What issuing `n` fetches does to a chain: `pre` before, `post` after.
pub open spec fn fetched(pre: PerChain, post: PerChain, n: int) -> bool {
    &&& post.last_read_sent_to_server == pre.last_read_sent_to_server + n
    &&& post.outstanding_reads == pre.outstanding_reads + n
    &&& post.is_being_read == (if n > 0 && pre.is_being_read.is_none() {
        Some(ReadState { outstanding_snapshots: 0, num_multiappends_searching_for: 0 })
    } else {
        pre.is_being_read
    })
    &&& post.chain == pre.chain
    &&& post.last_snapshot == pre.last_snapshot
    &&& post.last_returned_to_client == pre.last_returned_to_client
    &&& post.blocked_on_new_snapshot == pre.blocked_on_new_snapshot
    &&& post.found_but_unused_multiappends == pre.found_but_unused_multiappends
    &&& post.is_interesting == pre.is_interesting
}

/// How many more fetches a chain can take before its read cursor runs into
/// the index that stands for a probe of the horizon, or its count of fetches
/// in flight into the largest number.
pub open spec fn fetch_room(pc: PerChain) -> int {
    let by_cursor = HORIZON_PROBE - 1 - pc.last_read_sent_to_server;
    let by_count = u32::MAX - pc.outstanding_reads;
    if by_cursor < 0 {
        0
    } else if by_cursor <= by_count {
        by_cursor
    } else {
        by_count
    }
}

/// The requests `to_store[from..from + n]` are the fetches of the `n`
/// positions of `chain` that follow `after`.
pub open spec fn fetches_at(to_store: Seq<Vec<u8>>, from: int, chain: u32, after: u32, n: int) -> bool {
    forall|k: int|
        0 <= k < n ==> is_fetch((#[trigger] to_store[from + k])@, chain, (after + 1 + k) as u32)
}

impl ThreadLog {
    /// Issues the fetch of the position that follows the read cursor of the
    /// chain at slot `i`.
    pub fn fetch_next(&mut self, i: usize, fx: &mut Effects)
        requires
            old(self).wf(),
            old(fx).wf(),
            i < old(self).per_chains@.len(),
            fetch_room(old(self).per_chains@[i as int]) >= 1,
        ensures
            final(self).wf(),
            final(fx).wf(),
            touched_chain(*old(self), *final(self), i as int),
            fetched(old(self).per_chains@[i as int], final(self).per_chains@[i as int], 1),
            final(self).num_snapshots == old(self).num_snapshots,
            final(fx).sent_more(*old(fx)),
            final(fx).to_store@.len() == old(fx).to_store@.len() + 1,
            is_fetch(
                final(fx).to_store@.last()@,
                old(self).per_chains@[i as int].chain,
                (old(self).per_chains@[i as int].last_read_sent_to_server + 1) as u32,
            ),
    {
        let chain = self.per_chains[i].chain;
        let next = self.per_chains[i].last_read_sent_to_server + 1;
        self.per_chains[i].last_read_sent_to_server = next;
        self.per_chains[i].increment_outstanding_reads();
        proof {
            assert(self.per_chains@ =~= old(self).per_chains@.update(
                i as int,
                self.per_chains@[i as int],
            ));
            lemma_touched_chain(*old(self), *self, i as int);
        }
        let packet = self.make_read_packet(chain, next);
        fx.send(packet);
    }

    /// Issues the fetches of the `n` positions that follow the read cursor of
    /// the chain at slot `i`, or of as many as there is room for.
    pub fn fetch_many(&mut self, i: usize, n: u32, fx: &mut Effects) -> (issued: u32)
        requires
            old(self).wf(),
            old(fx).wf(),
            i < old(self).per_chains@.len(),
        ensures
            final(self).wf(),
            final(fx).wf(),
            issued == (if n <= fetch_room(old(self).per_chains@[i as int]) {
                n as int
            } else {
                fetch_room(old(self).per_chains@[i as int])
            }),
            touched_chain(*old(self), *final(self), i as int),
            fetched(
                old(self).per_chains@[i as int],
                final(self).per_chains@[i as int],
                issued as int,
            ),
            final(self).num_snapshots == old(self).num_snapshots,
            final(fx).sent_more(*old(fx)),
            final(fx).to_store@.len() == old(fx).to_store@.len() + issued,
            fetches_at(
                final(fx).to_store@,
                old(fx).to_store@.len() as int,
                old(self).per_chains@[i as int].chain,
                old(self).per_chains@[i as int].last_read_sent_to_server,
                issued as int,
            ),
    {
        let sent = self.per_chains[i].last_read_sent_to_server;
        let by_cursor: u32 = if sent < HORIZON_PROBE - 1 {
            HORIZON_PROBE - 1 - sent
        } else {
            0
        };
        let by_count: u32 = u32::MAX - self.per_chains[i].outstanding_reads;
        let room: u32 = if by_cursor <= by_count {
            by_cursor
        } else {
            by_count
        };
        let count: u32 = if n <= room {
            n
        } else {
            room
        };
        let ghost pre = old(self).per_chains@[i as int];
        let ghost from = old(fx).to_store@.len() as int;
        let mut k: u32 = 0;
        proof {
            assert(self.per_chains@ =~= old(self).per_chains@.update(
                i as int,
                self.per_chains@[i as int],
            ));
            assert(fx.to_store@.take(from) =~= old(fx).to_store@);
        }
        while k < count
            invariant
                k <= count,
                count <= fetch_room(pre),
                self.wf(),
                fx.wf(),
                i < self.per_chains@.len(),
                pre == old(self).per_chains@[i as int],
                from == old(fx).to_store@.len(),
                touched_chain(*old(self), *self, i as int),
                fetched(pre, self.per_chains@[i as int], k as int),
                self.num_snapshots == old(self).num_snapshots,
                fx.sent_more(*old(fx)),
                fx.to_store@.len() == from + k,
                fetches_at(fx.to_store@, from, pre.chain, pre.last_read_sent_to_server, k as int),
            decreases count - k,
        {
            let ghost mid_fx = *fx;
            self.fetch_next(i, fx);
            proof {
                lemma_sent_more_trans(*old(fx), mid_fx, *fx);
                assert forall|j: int| 0 <= j < k + 1 implies is_fetch(
                    (#[trigger] fx.to_store@[from + j])@,
                    pre.chain,
                    (pre.last_read_sent_to_server + 1 + j) as u32,
                ) by {
                    if j < k {
                        assert(fx.to_store@.take(mid_fx.to_store@.len() as int)[from + j]
                            == fx.to_store@[from + j]);
                    }
                }
                assert(self.per_chains@ =~= old(self).per_chains@.update(
                    i as int,
                    self.per_chains@[i as int],
                ));
            }
            k = k + 1;
        }
        count
    }

    /// Asks the storage tier for the current tail of `chain`.
    pub fn fetch_snapshot(&mut self, chain: u32, fx: &mut Effects)
        requires
            old(self).wf(),
            old(fx).wf(),
        ensures
            final(self).wf(),
            final(fx).wf(),
            final(self).per_chains == old(self).per_chains,
            final(self).blockers == old(self).blockers,
            final(self).no_longer_blocked == old(self).no_longer_blocked,
            final(self).blocked_multiappends == old(self).blocked_multiappends,
            final(self).num_snapshots == old(self).num_snapshots,
            final(fx).sent_more(*old(fx)),
            final(fx).to_store@.len() == old(fx).to_store@.len() + 1,
            is_fetch(final(fx).to_store@.last()@, chain, HORIZON_PROBE),
    {
        let packet = self.make_read_packet(chain, HORIZON_PROBE);
        fx.send(packet);
    }
}

/// What issuing the fetches that a chain calls for does to the chain: `pre`
/// before, `post` after; `unblocked` is the entry that a raised horizon has
/// freed; the fetches are what `sent` has more than `sent_before`.
///
/// A chain whose search for a piece of a multi-append has stalled gets its
/// horizon raised by one, and the position after its read cursor is fetched.
/// Any other chain gets the fetches that [`PerChain::spec_num_to_fetch`]
/// counts. Either way no more fetches are issued than there is room for.
pub open spec fn fetch_planned(
    pre: PerChain,
    post: PerChain,
    unblocked: Option<Entry>,
    sent_before: Seq<Vec<u8>>,
    sent: Seq<Vec<u8>>,
) -> bool {
    exists|mid: PerChain|
        #![trigger fetched(mid, post, sent.len() - sent_before.len())]
        {
            let count = sent.len() - sent_before.len();
            &&& if pre.spec_search_stalled() {
                &&& PerChain::horizon_updated(
                    pre,
                    if pre.last_snapshot < u32::MAX {
                        (pre.last_snapshot + 1) as u32
                    } else {
                        u32::MAX
                    },
                    mid,
                    unblocked,
                )
                &&& count == (if fetch_room(mid) >= 1 {
                    1int
                } else {
                    0int
                })
            } else {
                &&& mid == pre
                &&& unblocked.is_none()
                &&& count == (if pre.spec_num_to_fetch() <= fetch_room(pre) {
                    pre.spec_num_to_fetch()
                } else {
                    fetch_room(pre)
                })
            }
            &&& fetched(mid, post, count)
            &&& fetches_at(
                sent,
                sent_before.len() as int,
                pre.chain,
                mid.last_read_sent_to_server,
                count,
            )
        }
}

/// What [`ThreadLog::issue_fetches`] does for `chain`: the engine and what
/// it handed out before (`pre`, `pre_fx`) and after (`post`, `post_fx`);
/// `unblocked` is the entry that a raised horizon has freed.
pub open spec fn fetches_issued(
    pre: ThreadLog,
    pre_fx: Effects,
    chain: u32,
    post: ThreadLog,
    post_fx: Effects,
    unblocked: Option<Entry>,
) -> bool {
    let a = pre.per_chains@;
    let b = post.per_chains@;
    &&& chain_changed(pre, chain, post)
    &&& post_fx.sent_more(pre_fx)
    &&& if has_chain(a, chain) {
        fetch_planned(
            a[slot_of(a, chain)],
            b[slot_of(b, chain)],
            unblocked,
            pre_fx.to_store@,
            post_fx.to_store@,
        )
    } else {
        &&& untouched(b[slot_of(b, chain)], chain)
        &&& !b[slot_of(b, chain)].is_interesting
        &&& unblocked.is_none()
        &&& post_fx.to_store@ == pre_fx.to_store@
    }
}

/// What [`ThreadLog::continue_fetch_if_needed`] does for `chain`: fetches
/// are issued as [`fetches_issued`] says, and the entry that a raised
/// horizon has freed is delivered as [`unblocked_delivered`] says.
pub open spec fn fetch_continued(
    pre: ThreadLog,
    pre_fx: Effects,
    chain: u32,
    post: ThreadLog,
    post_fx: Effects,
) -> bool {
    exists|mid: ThreadLog, mid_fx: Effects, unblocked: Option<Entry>|
        #![trigger unblocked_delivered(mid, mid_fx, unblocked, post, post_fx)]
        fetches_issued(pre, pre_fx, chain, mid, mid_fx, unblocked) && unblocked_delivered(
            mid,
            mid_fx,
            unblocked,
            post,
            post_fx,
        )
}

impl ThreadLog {
    /// Raises the horizon of the chain at slot `i` to `new_horizon`, as
    /// [`PerChain::update_horizon`] does, and hands back the entry that this
    /// frees.
    pub fn raise_horizon(&mut self, i: usize, new_horizon: u32) -> (unblocked: Option<Entry>)
        requires
            old(self).wf(),
            i < old(self).per_chains@.len(),
        ensures
            final(self).wf(),
            touched_chain(*old(self), *final(self), i as int),
            PerChain::horizon_updated(
                old(self).per_chains@[i as int],
                new_horizon,
                final(self).per_chains@[i as int],
                unblocked,
            ),
            final(self).num_snapshots == old(self).num_snapshots,
            final(self).cache == old(self).cache,
            unblocked matches Some(e) ==> entry_ok(e@) && ready(e@, final(self).per_chains@),
    {
        let unblocked = self.per_chains[i].update_horizon(new_horizon);
        proof {
            lemma_touched_chain(*old(self), *self, i as int);
            if unblocked.is_some() {
                assert(parked_ok(old(self).per_chains@, i as int));
                lemma_ready_advance(
                    unblocked.unwrap()@,
                    old(self).per_chains@,
                    self.per_chains@,
                );
            }
        }
        unblocked
    }

    /// Whether the chain at slot `i` is caught up to its horizon with no
    /// pending work.
    pub fn server_is_finished(&self, i: usize) -> (finished: bool)
        requires
            i < self.per_chains@.len(),
        ensures
            finished == self.per_chains@[i as int].spec_is_finished(),
    {
        self.per_chains[i].is_finished()
    }

    /// Issues the fetches that `chain` calls for now. Where the chain looks
    /// for a piece of a multi-append and nothing is on its way, the horizon
    /// moves up by one first, so that the search goes on. Hands back where
    /// the state of the chain is, and the entry that a raised horizon has
    /// freed.
    pub fn issue_fetches(&mut self, chain: u32, fx: &mut Effects) -> (issued: (usize, Option<Entry>))
        requires
            old(self).wf(),
            old(fx).wf(),
        ensures
            final(self).wf(),
            final(fx).wf(),
            fetches_issued(*old(self), *old(fx), chain, *final(self), *final(fx), issued.1),
            issued.0 == slot_of(final(self).per_chains@, chain),
            issued.0 < final(self).per_chains@.len(),
            issued.1 matches Some(e) ==> entry_ok(e@) && ready(e@, final(self).per_chains@),
    {
        let i = self.chain_slot(chain, false);
        let ghost s1 = *self;
        let n = self.per_chains[i].num_to_fetch();
        let stalled = n == 0 && self.per_chains[i].is_searching_for_multi()
            && self.per_chains[i].outstanding_reads == 0;
        let (count, unblocked) = if stalled {
            let next = self.per_chains[i].last_snapshot.saturating_add(1);
            (1u32, self.raise_horizon(i, next))
        } else {
            (n, None)
        };
        let ghost s2 = *self;
        let issued = self.fetch_many(i, count, fx);
        proof {
            if unblocked.is_some() {
                lemma_ready_advance(unblocked.unwrap()@, s2.per_chains@, self.per_chains@);
            }
            if !has_chain(old(self).per_chains@, chain) {
                assert(fx.to_store@ =~= old(fx).to_store@);
            }
            assert(fetch_planned(
                s1.per_chains@[i as int],
                self.per_chains@[i as int],
                unblocked,
                old(fx).to_store@,
                fx.to_store@,
            )) by {
                let mid = s2.per_chains@[i as int];
                assert(fetched(
                    mid,
                    self.per_chains@[i as int],
                    fx.to_store@.len() - old(fx).to_store@.len(),
                ));
            }
        }
        (i, unblocked)
    }

    /// Issues the fetches that `chain` calls for now, as
    /// [`ThreadLog::issue_fetches`] does, and delivers what a raised horizon
    /// has freed. Says whether the chain is caught up to its horizon with no
    /// pending work.
    pub fn continue_fetch_if_needed(&mut self, chain: u32, fx: &mut Effects) -> (finished: bool)
        requires
            old(self).quiet(),
            old(fx).wf(),
        ensures
            progressed(*old(self), *old(fx), *final(self), *final(fx)),
            final(self).quiet(),
            final(self).blocked_multiappends == old(self).blocked_multiappends,
            final(self).num_snapshots == old(self).num_snapshots,
            has_chain(final(self).per_chains@, chain),
            finished == final(self).per_chains@[slot_of(
                final(self).per_chains@,
                chain,
            )].spec_is_finished(),
            fetch_continued(*old(self), *old(fx), chain, *final(self), *final(fx)),
    {
        let (i, unblocked) = self.issue_fetches(chain, fx);
        let ghost s3 = *self;
        let ghost fx3 = *fx;
        proof {
            lemma_progressed_rest(*old(self), *old(fx), s3, fx3);
        }
        self.deliver_unblocked(unblocked, fx);
        self.server_is_finished(i)
    }
}

/// What a snapshot request does to a chain: `pre` before, `post` after, with
/// `issued` fetches issued.
pub open spec fn prefetched(pre: PerChain, post: PerChain, issued: int) -> bool {
    &&& post.last_read_sent_to_server == pre.last_read_sent_to_server + issued
    &&& post.outstanding_reads == pre.outstanding_reads + issued
    &&& post.is_being_read == Some(
        ReadState {
            outstanding_snapshots: if pre.is_being_read.is_none() {
                1u32
            } else if pre.is_being_read.unwrap().outstanding_snapshots < u32::MAX {
                (pre.is_being_read.unwrap().outstanding_snapshots + 1) as u32
            } else {
                u32::MAX
            },
            num_multiappends_searching_for: if pre.is_being_read.is_none() {
                0usize
            } else {
                pre.is_being_read.unwrap().num_multiappends_searching_for
            },
        },
    )
    &&& post.chain == pre.chain
    &&& post.last_snapshot == pre.last_snapshot
    &&& post.last_returned_to_client == pre.last_returned_to_client
    &&& post.blocked_on_new_snapshot == pre.blocked_on_new_snapshot
    &&& post.found_but_unused_multiappends == pre.found_but_unused_multiappends
    &&& post.is_interesting == pre.is_interesting
}

/// How many fetches a snapshot request issues on a chain: what
/// [`PerChain::spec_num_to_prefetch`] says, as far as there is room.
pub open spec fn prefetch_count(pc: PerChain) -> int {
    if pc.spec_num_to_prefetch() <= fetch_room(pc) {
        pc.spec_num_to_prefetch()
    } else {
        fetch_room(pc)
    }
}

impl ThreadLog {
    /// Counts a snapshot request on `chain` and reads ahead on it. A chain
    /// that had no state gets one, as a chain that the application asked
    /// for.
    pub fn prefetch(&mut self, chain: u32, fx: &mut Effects)
        requires
            old(self).wf(),
            old(fx).wf(),
        ensures
            final(self).wf(),
            final(fx).wf(),
            chains_rest(old(self).per_chains@, final(self).per_chains@),
            parked_kept(old(self).per_chains@, final(self).per_chains@),
            final(self).blockers == old(self).blockers,
            final(self).no_longer_blocked == old(self).no_longer_blocked,
            final(self).blocked_multiappends == old(self).blocked_multiappends,
            final(self).num_snapshots == old(self).num_snapshots,
            final(fx).sent_more(*old(fx)),
            has_chain(final(self).per_chains@, chain),
            ({
                let i = slot_of(final(self).per_chains@, chain);
                let post = final(self).per_chains@[i];
                &&& final(self).per_chains@.len() == (if has_chain(old(self).per_chains@, chain) {
                    old(self).per_chains@.len()
                } else {
                    old(self).per_chains@.len() + 1
                })
                &&& forall|s: int|
                    0 <= s < old(self).per_chains@.len() && s != i ==> #[trigger] final(self).per_chains@[s]
                        == old(self).per_chains@[s]
                &&& i < old(self).per_chains@.len() ==> {
                    let pre = old(self).per_chains@[i];
                    &&& prefetched(pre, post, prefetch_count(pre))
                    &&& final(fx).to_store@.len() == old(fx).to_store@.len() + prefetch_count(pre)
                    &&& fetches_at(
                        final(fx).to_store@,
                        old(fx).to_store@.len() as int,
                        chain,
                        pre.last_read_sent_to_server,
                        prefetch_count(pre),
                    )
                }
                &&& i >= old(self).per_chains@.len() ==> {
                    &&& post.is_interesting
                    &&& post.last_snapshot == 0
                    &&& post.last_returned_to_client == 0
                    &&& post.last_read_sent_to_server == MAX_PREFETCH
                    &&& post.outstanding_reads == MAX_PREFETCH
                    &&& final(fx).to_store@.len() == old(fx).to_store@.len() + MAX_PREFETCH
                    &&& fetches_at(
                        final(fx).to_store@,
                        old(fx).to_store@.len() as int,
                        chain,
                        0,
                        MAX_PREFETCH as int,
                    )
                }
            }),
    {
        let i = self.chain_slot(chain, true);
        let ghost s1 = *self;
        let _ = self.per_chains[i].increment_outstanding_snapshots();
        proof {
            lemma_touched_chain(s1, *self, i as int);
        }
        let n = self.per_chains[i].num_to_prefetch();
        let _ = self.fetch_many(i, n, fx);
    }
}

} // verus!
