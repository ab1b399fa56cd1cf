//! What the engine does with the answer of the storage tier to a read.
use vstd::prelude::*;
use crate::effects::{Effects, lemma_grew_refl, lemma_grew_trans};
use crate::model::{
    chains_rest, count_done, entry_ok, Event, has_chain, horizon, lemma_delivers_only_count,
    lemma_same_standing, lemma_slot_of, lemma_steps_push, lemma_steps_trans, lemma_update_standing,
    must_wait_for, same_standing, slot_of, touches_interesting,
};
use crate::packets::{
    chains_distinct, Entry, EntryLayout, EntryView, HORIZON_PROBE, OrderIndex, spec_decode,
};
use crate::per_chain::{fetch_answered, overread, PerChain, ReadState, session_closed, untouched};
use crate::thread_log::{
    advanced, chain_changed, Flow, lemma_advanced_trans, lemma_progressed_rest,
    lemma_progressed_trans, lemma_touched_chain, progressed, ThreadLog,
};
use crate::thread_log::delivery::{try_returned, unblocked_delivered, Verdict, verdict_of};
use crate::thread_log::fetching::fetch_continued;
use crate::thread_log::multi_append::{multi_part_updated, MultiSearch};

verus! {

impl ThreadLog {
    /// Whether no chain is being read.
    pub fn finshed_reading(&self) -> (finished: bool)
        ensures
            finished == forall|i: int|
                0 <= i < self.per_chains@.len() ==> (
                #[trigger] self.per_chains@[i]).is_being_read.is_none(),
    {
        let mut i: usize = 0;
        while i < self.per_chains.len()
            invariant
                i <= self.per_chains@.len(),
                forall|j: int| 0 <= j < i ==> (#[trigger] self.per_chains@[j]).is_being_read.is_none(),
            decreases self.per_chains@.len() - i,
        {
            if self.per_chains[i].is_being_read.is_some() {
                return false;
            }
            i = i + 1;
        }
        true
    }
}

/// Whether the positions `locs` that are on a real chain are on pairwise
/// different chains.
pub fn check_chains_distinct(locs: &Vec<OrderIndex>) -> (distinct: bool)
    ensures
        distinct == chains_distinct(locs@),
{
    let mut j: usize = 0;
    while j < locs.len()
        invariant
            j <= locs@.len(),
            forall|x: int, y: int|
                0 <= x < y < j && (#[trigger] locs@[x]).0 != 0 ==> locs@[x].0 != (
                #[trigger] locs@[y]).0,
        decreases locs@.len() - j,
    {
        let mut i: usize = 0;
        while i < j
            invariant
                i <= j < locs@.len(),
                forall|x: int|
                    0 <= x < i && (#[trigger] locs@[x]).0 != 0 ==> locs@[x].0 != locs@[j as int].0,
            decreases j - i,
        {
            if locs[i].0 != 0 && locs[i].0 == locs[j].0 {
                return false;
            }
            i = i + 1;
        }
        j = j + 1;
    }
    true
}

/// A completed read that the engine takes in: the entry `e` that came for
/// the read of `read_loc` touches no chain twice and is no lock, and where it
/// answers a probe of the horizon, it says where the horizon is.
pub open spec fn acceptable_read(e: EntryView, read_loc: OrderIndex) -> bool {
    &&& chains_distinct(e.locs)
    &&& e.kind.layout != EntryLayout::Lock
    &&& e.kind.layout == EntryLayout::Read && read_loc.1 == HORIZON_PROBE ==> e.deps.len() >= 1
        && e.locs[0].1 == HORIZON_PROBE
}

/// What the trace `t1` has more than the trace `t0` of snapshots reported as
/// complete makes up for what `after` has fewer than `before` of snapshots
/// that wait to be reported. They are reported all at once, or not at all.
pub open spec fn snapshots_flushed(before: usize, t0: Seq<Event>, after: usize, t1: Seq<Event>) -> bool {
    &&& after == before || after == 0
    &&& count_done(t1) == count_done(t0) + (before - after)
}

/// What [`ThreadLog::handle_completed_read`] does with the answer `msg` to
/// the read of `read_loc`: the engine and what it handed out before (`pre`,
/// `pre_fx`) and after (`post`, `post_fx`), and how the engine goes on
/// (`flow`).
pub open spec fn read_completed(
    pre: ThreadLog,
    pre_fx: Effects,
    read_loc: OrderIndex,
    msg: Vec<u8>,
    post: ThreadLog,
    post_fx: Effects,
    flow: Flow,
) -> bool {
    let accepted = spec_decode(msg@) matches Some(e) && acceptable_read(e, read_loc);
    &&& flow == (if accepted {
        Flow::Continue
    } else {
        Flow::Violation
    })
    &&& !accepted ==> post == pre && post_fx == pre_fx
    &&& accepted ==> {
        let e = spec_decode(msg@).unwrap();
        &&& advanced(pre, pre_fx, post, post_fx)
        &&& post.quiet()
        &&& snapshots_flushed(pre.num_snapshots, pre_fx.trace@, post.num_snapshots, post_fx.trace@)
        &&& post.num_snapshots != pre.num_snapshots ==> forall|i: int|
            0 <= i < post.per_chains@.len() ==> (#[trigger] post.per_chains@[i]).is_being_read.is_none()
        &&& post_fx.finished_writes@ == pre_fx.finished_writes@
        &&& e.kind.layout == EntryLayout::Data && must_wait_for(e, pre.per_chains@).len() == 0
            && verdict_of(e, pre.per_chains@) == Verdict::Deliverable ==> post_fx.trace@.len()
            > pre_fx.trace@.len() && post_fx.trace@[pre_fx.trace@.len() as int]
            == (Event::Delivered {
            entry: e,
            surfaced: touches_interesting(e.locs, pre.per_chains@),
        })
        &&& exists|whole: Entry, mid: ThreadLog, mid_fx: Effects|
            #![trigger read_dispatched(pre, pre_fx, read_loc, whole, mid, mid_fx)]
            whole@ == e && read_dispatched(pre, pre_fx, read_loc, whole, mid, mid_fx) && read_ended(
                mid,
                mid_fx,
                read_loc.0,
                post,
                post_fx,
            )
    }
}

/// What the answer to a probe of the horizon does to a chain: `pre` before,
/// `post` after; the answer tells the tail `tail`, and `unblocked` is the
/// entry that the raised horizon frees. One snapshot request is counted as
/// answered, where one was outstanding.
pub open spec fn probe_answered(pre: PerChain, tail: u32, post: PerChain, unblocked: Option<Entry>) -> bool {
    exists|counted: PerChain|
        #![trigger PerChain::horizon_updated(counted, tail, post, unblocked)]
        {
            &&& PerChain::horizon_updated(counted, tail, post, unblocked)
            &&& counted.is_being_read == (if pre.spec_has_outstanding_snapshots() {
                Some(
                    ReadState {
                        outstanding_snapshots: (pre.is_being_read.unwrap().outstanding_snapshots
                            - 1) as u32,
                        num_multiappends_searching_for: pre.is_being_read.unwrap().num_multiappends_searching_for,
                    },
                )
            } else {
                pre.is_being_read
            })
            &&& counted.chain == pre.chain
            &&& counted.last_snapshot == pre.last_snapshot
            &&& counted.last_read_sent_to_server == pre.last_read_sent_to_server
            &&& counted.outstanding_reads == pre.outstanding_reads
            &&& counted.last_returned_to_client == pre.last_returned_to_client
            &&& counted.blocked_on_new_snapshot == pre.blocked_on_new_snapshot
            &&& counted.found_but_unused_multiappends == pre.found_but_unused_multiappends
            &&& counted.is_interesting == pre.is_interesting
        }
}

/// The engine `post` is the engine `pre` with one fetch on `chain` counted as
/// answered, where the chain has a state.
pub open spec fn read_counted(pre: ThreadLog, chain: u32, post: ThreadLog) -> bool {
    let a = pre.per_chains@;
    let b = post.per_chains@;
    &&& post.blockers == pre.blockers
    &&& post.no_longer_blocked == pre.no_longer_blocked
    &&& post.blocked_multiappends == pre.blocked_multiappends
    &&& post.num_snapshots == pre.num_snapshots
    &&& post.cache == pre.cache
    &&& if has_chain(a, chain) {
        b == a.update(slot_of(a, chain), b[slot_of(a, chain)]) && fetch_answered(
            a[slot_of(a, chain)],
            b[slot_of(a, chain)],
        )
    } else {
        b == a
    }
}

/// The engine `post` is the engine `pre` after it was taken note on the
/// chain of `read_loc`, which gets a state where it had none, that the fetch
/// of `read_loc` found nothing, as [`overread`] says.
pub open spec fn overread_noted(pre: ThreadLog, read_loc: OrderIndex, post: ThreadLog) -> bool {
    let a = pre.per_chains@;
    let b = post.per_chains@;
    &&& chain_changed(pre, read_loc.0, post)
    &&& post.cache == pre.cache
    &&& exists|before: PerChain|
        #![trigger overread(before, read_loc.1, b[slot_of(b, read_loc.0)])]
        (if has_chain(a, read_loc.0) {
            before == a[slot_of(a, read_loc.0)]
        } else {
            untouched(before, read_loc.0) && !before.is_interesting
        }) && overread(before, read_loc.1, b[slot_of(b, read_loc.0)])
}

/// What [`ThreadLog::read_found_nothing`] does with an answer without data
/// to the read of `read_loc`; `tail` is the tail that the answer tells where
/// it is the answer to a probe of the horizon. The engine and what it handed
/// out before (`pre`, `pre_fx`) and after (`post`, `post_fx`).
///
/// A chain without a state stays without one. The answer to a probe counts
/// one snapshot request as answered and raises the horizon as
/// [`probe_answered`] says, and what the raised horizon frees is delivered
/// as [`unblocked_delivered`] says. Any other answer pulls the read cursor
/// back as [`overread`] says, and counts one fetch as answered.
pub open spec fn found_nothing(
    pre: ThreadLog,
    pre_fx: Effects,
    read_loc: OrderIndex,
    tail: u32,
    post: ThreadLog,
    post_fx: Effects,
) -> bool {
    let a = pre.per_chains@;
    let i = slot_of(a, read_loc.0);
    if !has_chain(a, read_loc.0) {
        post == pre && post_fx == pre_fx
    } else if read_loc.1 < HORIZON_PROBE {
        &&& post_fx == pre_fx
        &&& post.per_chains@ == a.update(i, post.per_chains@[i])
        &&& exists|pulled: PerChain|
            #![trigger fetch_answered(pulled, post.per_chains@[i])]
            (if read_loc.1 >= 1 {
                overread(a[i], read_loc.1, pulled)
            } else {
                pulled == a[i]
            }) && fetch_answered(pulled, post.per_chains@[i])
        &&& post.blockers == pre.blockers
        &&& post.no_longer_blocked == pre.no_longer_blocked
        &&& post.blocked_multiappends == pre.blocked_multiappends
        &&& post.num_snapshots == pre.num_snapshots
        &&& post.cache == pre.cache
    } else {
        exists|mid: ThreadLog, unblocked: Option<Entry>|
            #![trigger unblocked_delivered(mid, pre_fx, unblocked, post, post_fx)]
            {
                &&& mid.per_chains@ == a.update(i, mid.per_chains@[i])
                &&& probe_answered(a[i], tail, mid.per_chains@[i], unblocked)
                &&& mid.blockers == pre.blockers
                &&& mid.no_longer_blocked == pre.no_longer_blocked
                &&& mid.blocked_multiappends == pre.blocked_multiappends
                &&& mid.num_snapshots == pre.num_snapshots
                &&& mid.cache == pre.cache
                &&& unblocked_delivered(mid, pre_fx, unblocked, post, post_fx)
            }
    }
}

/// What [`ThreadLog::read_found_data`] does with the data entry `e`, the
/// answer to the read of `read_loc`: the fetch is counted as answered as
/// [`read_counted`] says, and the entry is dealt with as [`try_returned`]
/// says.
pub open spec fn found_data(
    pre: ThreadLog,
    pre_fx: Effects,
    read_loc: OrderIndex,
    e: Entry,
    post: ThreadLog,
    post_fx: Effects,
) -> bool {
    exists|mid: ThreadLog|
        #![trigger try_returned(mid, pre_fx, e, post, post_fx)]
        read_counted(pre, read_loc.0, mid) && try_returned(mid, pre_fx, e, post, post_fx)
}

/// What [`ThreadLog::read_found_multi`] does after the search for the pieces
/// of an append came to `status`, for the piece that was read at `read_loc`:
/// an append that is finished is dealt with as [`try_returned`] says; for a
/// stale piece the read cursor is pulled back as [`overread_noted`] says;
/// else nothing is done.
pub open spec fn multi_search_followed(
    pre: ThreadLog,
    pre_fx: Effects,
    read_loc: OrderIndex,
    status: MultiSearch,
    post: ThreadLog,
    post_fx: Effects,
) -> bool {
    match status {
        MultiSearch::BeyondHorizon(_) => post_fx == pre_fx && overread_noted(pre, read_loc, post),
        MultiSearch::Finished(whole) => try_returned(pre, pre_fx, whole, post, post_fx),
        _ => post == pre && post_fx == pre_fx,
    }
}

/// What [`ThreadLog::read_found_multi`] does with `e`, a piece of a
/// multi-append and the answer to the read of `read_loc`: the fetch is
/// counted as answered as [`read_counted`] says, the piece goes through the
/// search for the other pieces as [`multi_part_updated`] says, and what the
/// search came to is followed as [`multi_search_followed`] says.
pub open spec fn found_multi(
    pre: ThreadLog,
    pre_fx: Effects,
    read_loc: OrderIndex,
    e: Entry,
    is_sentinel: bool,
    post: ThreadLog,
    post_fx: Effects,
) -> bool {
    exists|counted: ThreadLog, mid: ThreadLog, mid_fx: Effects, status: MultiSearch|
        #![trigger read_counted(pre, read_loc.0, counted),
            multi_search_followed(mid, mid_fx, read_loc, status, post, post_fx)]
        read_counted(pre, read_loc.0, counted) && multi_part_updated(
            counted,
            pre_fx,
            read_loc,
            e,
            is_sentinel,
            mid,
            mid_fx,
            status,
        ) && multi_search_followed(mid, mid_fx, read_loc, status, post, post_fx)
}

/// What the end of a read session on `chain` does, where the chain is caught
/// up: the engine and what it handed out before (`pre`, `pre_fx`) and after
/// (`post`, `post_fx`). The read session of the chain ends. Where no chain is
/// being read then, every snapshot request that waited is reported as
/// complete: for each an empty buffer is put into the queue of reads.
pub open spec fn session_ended(
    pre: ThreadLog,
    pre_fx: Effects,
    chain: u32,
    post: ThreadLog,
    post_fx: Effects,
) -> bool {
    let a = pre.per_chains@;
    let b = post.per_chains@;
    let i = slot_of(a, chain);
    let none_read = forall|j: int| 0 <= j < b.len() ==> (#[trigger] b[j]).is_being_read.is_none();
    let n = pre.num_snapshots as int;
    &&& b == a.update(i, b[i])
    &&& session_closed(a[i], b[i])
    &&& post.blockers == pre.blockers
    &&& post.no_longer_blocked == pre.no_longer_blocked
    &&& post.blocked_multiappends == pre.blocked_multiappends
    &&& post.cache == pre.cache
    &&& if none_read {
        &&& post.num_snapshots == 0
        &&& post_fx.trace@ == pre_fx.trace@ + Seq::new(n as nat, |j: int| Event::SnapshotDone)
        &&& post_fx.ready_reads@.len() == pre_fx.ready_reads@.len() + n
        &&& post_fx.ready_reads@.take(pre_fx.ready_reads@.len() as int) == pre_fx.ready_reads@
        &&& forall|j: int|
            pre_fx.ready_reads@.len() <= j < post_fx.ready_reads@.len() ==> (
            #[trigger] post_fx.ready_reads@[j])@.len() == 0
        &&& post_fx.to_store@ == pre_fx.to_store@
        &&& post_fx.finished_writes@ == pre_fx.finished_writes@
    } else {
        post.num_snapshots == pre.num_snapshots && post_fx == pre_fx
    }
}

/// What [`ThreadLog::end_of_read`] does for `chain`: fetches are issued and
/// what a raised horizon frees is delivered as [`fetch_continued`] says; and
/// where the chain is caught up then, its read session ends as
/// [`session_ended`] says.
pub open spec fn read_ended(
    pre: ThreadLog,
    pre_fx: Effects,
    chain: u32,
    post: ThreadLog,
    post_fx: Effects,
) -> bool {
    exists|mid: ThreadLog, mid_fx: Effects|
        #![trigger fetch_continued(pre, pre_fx, chain, mid, mid_fx)]
        fetch_continued(pre, pre_fx, chain, mid, mid_fx) && has_chain(mid.per_chains@, chain) && (
        if mid.per_chains@[slot_of(mid.per_chains@, chain)].spec_is_finished() {
            session_ended(mid, mid_fx, chain, post, post_fx)
        } else {
            post == mid && post_fx == mid_fx
        })
}

/// What is done with the entry `e`, the answer to the read of `read_loc`,
/// before the handling of the read ends: by its layout, what
/// [`found_nothing`], [`found_data`] or [`found_multi`] says.
pub open spec fn read_dispatched(
    pre: ThreadLog,
    pre_fx: Effects,
    read_loc: OrderIndex,
    e: Entry,
    post: ThreadLog,
    post_fx: Effects,
) -> bool {
    match e@.kind.layout {
        EntryLayout::Read => found_nothing(pre, pre_fx, read_loc, e@.deps[0].1, post, post_fx),
        EntryLayout::Data => found_data(pre, pre_fx, read_loc, e, post, post_fx),
        EntryLayout::Multiput => found_multi(pre, pre_fx, read_loc, e, false, post, post_fx),
        EntryLayout::Sentinel => found_multi(pre, pre_fx, read_loc, e, true, post, post_fx),
        EntryLayout::Lock => post == pre && post_fx == pre_fx,
    }
}

impl ThreadLog {
    /// Counts one fetch on `chain` as answered, where the chain has a state.
    pub fn read_answered(&mut self, chain: u32)
        requires
            old(self).wf(),
        ensures
            final(self).wf(),
            read_counted(*old(self), chain, *final(self)),
            same_standing(old(self).per_chains@, final(self).per_chains@),
            chains_rest(old(self).per_chains@, final(self).per_chains@),
    {
        let ghost a = old(self).per_chains@;
        match self.find_chain(chain) {
            Some(i) => {
                self.per_chains[i].decrement_outstanding_reads();
                proof {
                    lemma_touched_chain(*old(self), *self, i as int);
                    lemma_update_standing(a, i as int, self.per_chains@[i as int]);
                }
            },
            None => {},
        }
    }

    /// Takes in an answer without data to the read of `read_loc`.
    ///
    /// The answer to a probe of the horizon counts one snapshot request on
    /// the chain as answered and raises the horizon of the chain to the tail
    /// that `e` tells; what the raised horizon frees is delivered. Any other
    /// answer means that the read went beyond the end of the chain: the read
    /// cursor goes back to just below `read_loc`, and the fetch is counted as
    /// answered. A chain without a state stays without one.
    pub fn read_found_nothing(&mut self, read_loc: OrderIndex, e: &Entry, fx: &mut Effects)
        requires
            old(self).quiet(),
            old(fx).wf(),
            read_loc.1 == HORIZON_PROBE ==> e@.deps.len() >= 1,
        ensures
            progressed(*old(self), *old(fx), *final(self), *final(fx)),
            final(self).quiet(),
            final(self).blocked_multiappends == old(self).blocked_multiappends,
            found_nothing(
                *old(self),
                *old(fx),
                read_loc,
                e@.deps[0].1,
                *final(self),
                *final(fx),
            ),
    {
        let ghost a = old(self).per_chains@;
        proof {
            lemma_grew_refl(*fx);
        }
        match self.find_chain(read_loc.0) {
            Some(i) => {
                if read_loc.1 < HORIZON_PROBE {
                    if read_loc.1 >= 1 {
                        self.per_chains[i].overread_at(read_loc.1);
                    }
                    self.per_chains[i].decrement_outstanding_reads();
                    proof {
                        assert(self.per_chains@ =~= a.update(i as int, self.per_chains@[i as int]));
                        lemma_touched_chain(*old(self), *self, i as int);
                        lemma_progressed_rest(*old(self), *old(fx), *self, *fx);
                    }
                } else {
                    let new_horizon = e.deps[0].1;
                    if self.per_chains[i].has_outstanding_snapshots() {
                        let _ = self.per_chains[i].decrement_outstanding_snapshots();
                    }
                    proof {
                        assert(self.per_chains@ =~= a.update(i as int, self.per_chains@[i as int]));
                        lemma_touched_chain(*old(self), *self, i as int);
                    }
                    let unblocked = self.raise_horizon(i, new_horizon);
                    let ghost s2 = *self;
                    proof {
                        lemma_progressed_rest(*old(self), *old(fx), s2, *fx);
                        assert(s2.per_chains@ =~= a.update(i as int, s2.per_chains@[i as int]));
                    }
                    self.deliver_unblocked(unblocked, fx);
                }
            },
            None => {},
        }
    }

    /// Takes in the data entry `e`, the answer to the read of `read_loc`:
    /// the fetch is counted as answered, and the entry is delivered, or kept
    /// until it can be, as [`ThreadLog::try_returning`] does.
    pub fn read_found_data(&mut self, read_loc: OrderIndex, e: Entry, fx: &mut Effects)
        requires
            old(self).quiet(),
            old(fx).wf(),
            entry_ok(e@),
        ensures
            progressed(*old(self), *old(fx), *final(self), *final(fx)),
            final(self).quiet(),
            final(self).blocked_multiappends == old(self).blocked_multiappends,
            found_data(*old(self), *old(fx), read_loc, e, *final(self), *final(fx)),
            must_wait_for(e@, old(self).per_chains@).len() == 0 && verdict_of(
                e@,
                old(self).per_chains@,
            ) == Verdict::Deliverable ==> final(fx).trace@.len() > old(fx).trace@.len()
                && final(fx).trace@[old(fx).trace@.len() as int] == (Event::Delivered {
                entry: e@,
                surfaced: touches_interesting(e@.locs, old(self).per_chains@),
            }),
            must_wait_for(e@, old(self).per_chains@).len() > 0 ==> forall|k: int|
                0 <= k < e@.deps.len() ==> has_chain(
                    final(self).per_chains@,
                    (#[trigger] e@.deps[k]).0,
                ) && horizon(final(self).per_chains@, e@.deps[k].0) >= e@.deps[k].1,
    {
        let ghost view = e@;
        let ghost a = old(self).per_chains@;
        self.read_answered(read_loc.0);
        let ghost s1 = *self;
        proof {
            lemma_grew_refl(*fx);
            lemma_progressed_rest(*old(self), *old(fx), s1, *fx);
            lemma_same_standing(view, a, s1.per_chains@);
        }
        self.try_returning(e, fx);
    }

    /// Takes in `e`, a piece of a multi-append and the answer to the read of
    /// `read_loc`: the fetch is counted as answered, and the piece goes
    /// through the search for the other pieces, as
    /// [`ThreadLog::update_multi_part_read`] does. Where that finishes the
    /// append, it is delivered, or kept until it can be. Where the piece is
    /// stale, the read cursor of its chain goes back to just below
    /// `read_loc`.
    pub fn read_found_multi(&mut self, read_loc: OrderIndex, e: Entry, is_sentinel: bool, fx: &mut Effects)
        requires
            old(self).quiet(),
            old(fx).wf(),
            entry_ok(e@),
        ensures
            progressed(*old(self), *old(fx), *final(self), *final(fx)),
            final(self).quiet(),
            found_multi(*old(self), *old(fx), read_loc, e, is_sentinel, *final(self), *final(fx)),
    {
        self.read_answered(read_loc.0);
        let ghost s1 = *self;
        proof {
            lemma_grew_refl(*fx);
            lemma_progressed_rest(*old(self), *old(fx), s1, *fx);
        }
        let status = self.update_multi_part_read(read_loc, e, is_sentinel, fx);
        let ghost s2 = *self;
        let ghost fx2 = *fx;
        self.follow_multi_search(read_loc, status, fx);
        proof {
            lemma_progressed_trans(*old(self), *old(fx), s2, fx2, *self, *fx);
        }
    }

    /// Does what the search for the pieces of an append calls for, after it
    /// came to `status` for the piece that was read at `read_loc`: an append
    /// that is finished is delivered, or kept until it can be; for a stale
    /// piece the read cursor of its chain goes back to just below
    /// `read_loc`.
    pub fn follow_multi_search(&mut self, read_loc: OrderIndex, status: MultiSearch, fx: &mut Effects)
        requires
            old(self).quiet(),
            old(fx).wf(),
            status matches MultiSearch::Finished(e) ==> entry_ok(e@),
            status is BeyondHorizon ==> read_loc.1 != 0,
        ensures
            progressed(*old(self), *old(fx), *final(self), *final(fx)),
            final(self).quiet(),
            multi_search_followed(*old(self), *old(fx), read_loc, status, *final(self), *final(fx)),
    {
        proof {
            lemma_grew_refl(*fx);
        }
        match status {
            MultiSearch::BeyondHorizon(_) => {
                let i = self.chain_slot(read_loc.0, false);
                let ghost s3 = *self;
                self.per_chains[i].overread_at(read_loc.1);
                proof {
                    lemma_touched_chain(s3, *self, i as int);
                    lemma_progressed_rest(*old(self), *old(fx), *self, *fx);
                    lemma_slot_of(self.per_chains@, i as int);
                }
            },
            MultiSearch::Finished(whole) => {
                self.try_returning(whole, fx);
            },
            _ => {},
        }
    }

    /// Ends the handling of an answer to a read on `chain`: the chain is
    /// made to fetch what it calls for, as
    /// [`ThreadLog::continue_fetch_if_needed`] does. Where the chain is
    /// caught up, its read session ends; and where no chain is being read
    /// then, each snapshot request that waited is reported as complete.
    pub fn end_of_read(&mut self, chain: u32, fx: &mut Effects)
        requires
            old(self).quiet(),
            old(fx).wf(),
        ensures
            advanced(*old(self), *old(fx), *final(self), *final(fx)),
            final(self).quiet(),
            final(fx).finished_writes@ == old(fx).finished_writes@,
            snapshots_flushed(
                old(self).num_snapshots,
                old(fx).trace@,
                final(self).num_snapshots,
                final(fx).trace@,
            ),
            final(self).num_snapshots != old(self).num_snapshots ==> forall|i: int|
                0 <= i < final(self).per_chains@.len() ==> (
                #[trigger] final(self).per_chains@[i]).is_being_read.is_none(),
            final(self).blocked_multiappends == old(self).blocked_multiappends,
            read_ended(*old(self), *old(fx), chain, *final(self), *final(fx)),
    {
        let finished_server = self.continue_fetch_if_needed(chain, fx);
        let ghost s5 = *self;
        let ghost fx5 = *fx;
        proof {
            lemma_delivers_only_count(old(fx).trace@, fx5.trace@);
        }
        if finished_server {
            self.end_session(chain, fx);
            proof {
                lemma_advanced_trans(*old(self), *old(fx), s5, fx5, *self, *fx);
            }
        }
    }

    /// Ends the read session of `chain`, which has a state. Where no chain
    /// is being read then, each snapshot request that waited is reported as
    /// complete.
    pub fn end_session(&mut self, chain: u32, fx: &mut Effects)
        requires
            old(self).quiet(),
            old(fx).wf(),
            has_chain(old(self).per_chains@, chain),
        ensures
            advanced(*old(self), *old(fx), *final(self), *final(fx)),
            final(self).quiet(),
            session_ended(*old(self), *old(fx), chain, *final(self), *final(fx)),
            snapshots_flushed(
                old(self).num_snapshots,
                old(fx).trace@,
                final(self).num_snapshots,
                final(fx).trace@,
            ),
            final(self).num_snapshots != old(self).num_snapshots ==> forall|i: int|
                0 <= i < final(self).per_chains@.len() ==> (
                #[trigger] final(self).per_chains@[i]).is_being_read.is_none(),
    {
        proof {
            lemma_grew_refl(*fx);
        }
        match self.find_chain(chain) {
            Some(i) => {
                self.per_chains[i].is_being_read = None;
                proof {
                    lemma_touched_chain(*old(self), *self, i as int);
                    lemma_progressed_rest(*old(self), *old(fx), *self, *fx);
                }
            },
            None => {},
        }
        if self.finshed_reading() {
            let num_completeds = self.num_snapshots;
            self.num_snapshots = 0;
            let ghost s6 = *self;
            let mut k: usize = 0;
            while k < num_completeds
                invariant
                    k <= num_completeds,
                    *self == s6,
                    s6.quiet(),
                    old(fx).wf(),
                    advanced(*old(self), *old(fx), s6, *fx),
                    count_done(fx.trace@) == count_done(old(fx).trace@) + k,
                    fx.finished_writes@ == old(fx).finished_writes@,
                    fx.to_store@ == old(fx).to_store@,
                    fx.trace@ == old(fx).trace@ + Seq::new(k as nat, |j: int| Event::SnapshotDone),
                    fx.ready_reads@.len() == old(fx).ready_reads@.len() + k,
                    fx.ready_reads@.take(old(fx).ready_reads@.len() as int) == old(fx).ready_reads@,
                    forall|j: int|
                        old(fx).ready_reads@.len() <= j < fx.ready_reads@.len() ==> (
                        #[trigger] fx.ready_reads@[j])@.len() == 0,
                decreases num_completeds - k,
            {
                let ghost before = *fx;
                fx.snapshot_done();
                proof {
                    lemma_steps_push(
                        s6.per_chains@,
                        before.trace@,
                        s6.per_chains@,
                        Event::SnapshotDone,
                    );
                    lemma_steps_trans(
                        old(self).per_chains@,
                        old(fx).trace@,
                        s6.per_chains@,
                        before.trace@,
                        s6.per_chains@,
                        fx.trace@,
                    );
                    lemma_grew_trans(*old(fx), before, *fx);
                    assert(fx.trace@ =~= old(fx).trace@ + Seq::new(
                        (k + 1) as nat,
                        |j: int| Event::SnapshotDone,
                    ));
                    assert forall|j: int|
                        old(fx).ready_reads@.len() <= j < fx.ready_reads@.len() implies (
                    #[trigger] fx.ready_reads@[j])@.len() == 0 by {
                        if j < before.ready_reads@.len() {
                            assert(fx.ready_reads@.take(before.ready_reads@.len() as int)[j]
                                == fx.ready_reads@[j]);
                        }
                    }
                }
                k = k + 1;
            }
        }
    }

    /// Takes in the answer `msg` to the read of `read_loc`.
    ///
    /// An answer that is the wire form of no entry, or of one that is not
    /// acceptable, breaks the protocol: nothing is done with it.
    ///
    /// An answer without data is taken in as
    /// [`ThreadLog::read_found_nothing`] does, a data entry as
    /// [`ThreadLog::read_found_data`] does, and a piece of a multi-append as
    /// [`ThreadLog::read_found_multi`] does. After that the handling ends as
    /// [`ThreadLog::end_of_read`] says.
    pub fn handle_completed_read(
        &mut self,
        read_loc: OrderIndex,
        msg: Vec<u8>,
        fx: &mut Effects,
    ) -> (flow: Flow)
        requires
            old(self).quiet(),
            old(fx).wf(),
        ensures
            read_completed(*old(self), *old(fx), read_loc, msg, *final(self), *final(fx), flow),
    {
        let e = match Entry::decode(&msg) {
            Some(e) => e,
            None => {
                return Flow::Violation;
            },
        };
        let layout = e.kind.layout();
        if !check_chains_distinct(&e.locs) || layout == EntryLayout::Lock {
            return Flow::Violation;
        }
        if layout == EntryLayout::Read && read_loc.1 == HORIZON_PROBE && (e.deps.len() == 0
            || e.locs[0].1 != HORIZON_PROBE) {
            return Flow::Violation;
        }
        let ghost view = e@;
        let ghost whole = e;
        match layout {
            EntryLayout::Read => {
                self.read_found_nothing(read_loc, &e, fx);
            },
            EntryLayout::Data => {
                self.read_found_data(read_loc, e, fx);
            },
            EntryLayout::Multiput => {
                self.read_found_multi(read_loc, e, false, fx);
            },
            EntryLayout::Sentinel => {
                self.read_found_multi(read_loc, e, true, fx);
            },
            EntryLayout::Lock => {},
        }
        let ghost s4 = *self;
        let ghost fx4 = *fx;
        self.end_of_read(read_loc.0, fx);
        proof {
            assert(read_dispatched(*old(self), *old(fx), read_loc, whole, s4, fx4) && whole@
                == view && read_ended(s4, fx4, read_loc.0, *self, *fx));
            lemma_advanced_trans(*old(self), *old(fx), s4, fx4, *self, *fx);
            lemma_delivers_only_count(old(fx).trace@, fx4.trace@);
        }
        Flow::Continue
    }
}

} // verus!
