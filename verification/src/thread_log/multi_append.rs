//! The search for the pieces of an append that spans several chains.
use vstd::prelude::*;
use crate::effects::{Effects, lemma_grew_refl};
use crate::model::{
    beyond_horizon, chains_rest, count_real, delivered, entry_ok, first_on_chain, has_chain,
    lemma_advance_chain, lemma_first_on_chain, lemma_ready_advance, lemma_slot_of, ready, slot_of,
};
use crate::packets::{Entry, EntryView, OrderIndex};
use crate::per_chain::{
    early_sentinel_added, multi_part_prepared, multi_search_ended, PerChain, untouched,
};
use crate::thread_log::{
    chain_changed, lemma_progressed_rest, lemma_progressed_trans, lemma_touched_chain,
    MultiSearchState, parked_ok, progressed, ThreadLog,
};
use crate::thread_log::delivery::unblocked_delivered;
use crate::thread_log::fetching::fetch_continued;

verus! {

/// How the search for the pieces of a multi-append stands after a piece was
/// read.
pub enum MultiSearch {
    /// Every piece is known: the entry, with the position of each piece
    /// filled in.
    Finished(Entry),
    /// Pieces are still looked for.
    InProgress,
    /// The piece was a marker that came before the append itself: it was
    /// taken note of.
    EarlySentinel,
    /// The piece came from a position that the horizon has not reached, or
    /// that has been delivered: the read is stale.
    BeyondHorizon(Entry),
    /// The piece tells nothing new.
    Repeat,
}

impl ThreadLog {
    /// Gets `chain` ready for the search for the piece of append `id`, of
    /// which `index` is known (0: nothing is), as
    /// [`PerChain::prepare_multi_part`] does. A chain without a state gets
    /// one first.
    pub fn prepare_multi_part(&mut self, id: u128, chain: u32, index: u32) -> (found: (
        Option<u32>,
        Option<Entry>,
    ))
        requires
            old(self).wf(),
        ensures
            final(self).wf(),
            part_prepared(*old(self), id, chain, index, *final(self), found.0, found.1),
            found.1 matches Some(e) ==> entry_ok(e@) && ready(e@, final(self).per_chains@),
    {
        let i = self.chain_slot(chain, false);
        let ghost s1 = *self;
        proof {
            lemma_slot_of(s1.per_chains@, i as int);
        }
        let found = self.per_chains[i].prepare_multi_part(id, index);
        proof {
            lemma_touched_chain(s1, *self, i as int);
            if found.1.is_some() {
                assert(parked_ok(s1.per_chains@, i as int));
                lemma_ready_advance(found.1.unwrap()@, s1.per_chains@, self.per_chains@);
            }
        }
        found
    }

    /// Looks for the piece of append `id` on `chain`, of which `index` is
    /// known (0: nothing is).
    ///
    /// The chain is got ready for the search as
    /// [`ThreadLog::prepare_multi_part`] does: where the piece was found
    /// before, its index is handed back. The fetches that the chain then
    /// calls for are issued as [`ThreadLog::continue_fetch_if_needed`] does,
    /// and the entry that a raised horizon has freed is delivered.
    pub fn fetch_multi_parts(
        &mut self,
        id: u128,
        chain: u32,
        index: u32,
        fx: &mut Effects,
    ) -> (early: Option<u32>)
        requires
            old(self).quiet(),
            old(fx).wf(),
        ensures
            progressed(*old(self), *old(fx), *final(self), *final(fx)),
            final(self).quiet(),
            final(self).blocked_multiappends == old(self).blocked_multiappends,
            final(self).num_snapshots == old(self).num_snapshots,
            has_chain(final(self).per_chains@, chain),
            multi_part_fetched(*old(self), *old(fx), id, chain, index, *final(self), *final(fx), early),
    {
        let (early, unblocked) = self.prepare_multi_part(id, chain, index);
        let ghost s4 = *self;
        proof {
            lemma_grew_refl(*fx);
            lemma_progressed_rest(*old(self), *old(fx), s4, *fx);
        }
        let _ = self.continue_fetch_if_needed(chain, fx);
        let ghost s5 = *self;
        proof {
            if unblocked.is_some() {
                lemma_ready_advance(unblocked.unwrap()@, s4.per_chains@, s5.per_chains@);
            }
        }
        self.deliver_unblocked(unblocked, fx);
        proof {
            lemma_advance_chain(s5.per_chains@, self.per_chains@, chain);
        }
        early
    }
}

/// What [`ThreadLog::prepare_multi_part`] does for `chain`: the engine
/// before (`pre`) and after (`post`); the chain, which gets a state where it
/// had none, is got ready as [`multi_part_prepared`] says.
pub open spec fn part_prepared(
    pre: ThreadLog,
    id: u128,
    chain: u32,
    index: u32,
    post: ThreadLog,
    early: Option<u32>,
    unblocked: Option<Entry>,
) -> bool {
    let a = pre.per_chains@;
    let b = post.per_chains@;
    &&& chain_changed(pre, chain, post)
    &&& post.cache == pre.cache
    &&& exists|before: PerChain|
        #![trigger multi_part_prepared(before, id, index, b[slot_of(b, chain)], early, unblocked)]
        (if has_chain(a, chain) {
            before == a[slot_of(a, chain)]
        } else {
            untouched(before, chain) && !before.is_interesting
        }) && multi_part_prepared(before, id, index, b[slot_of(b, chain)], early, unblocked)
}

/// What [`ThreadLog::fetch_multi_parts`] does: the chain is got ready as
/// [`part_prepared`] says, fetches are issued as [`fetch_continued`] says,
/// and the entry that getting the chain ready has freed is delivered as
/// [`unblocked_delivered`] says.
pub open spec fn multi_part_fetched(
    pre: ThreadLog,
    pre_fx: Effects,
    id: u128,
    chain: u32,
    index: u32,
    post: ThreadLog,
    post_fx: Effects,
    early: Option<u32>,
) -> bool {
    exists|ready: ThreadLog, unblocked: Option<Entry>, mid: ThreadLog, mid_fx: Effects|
        #![trigger part_prepared(pre, id, chain, index, ready, early, unblocked),
            unblocked_delivered(mid, mid_fx, unblocked, post, post_fx)]
        part_prepared(pre, id, chain, index, ready, early, unblocked) && fetch_continued(
            ready,
            pre_fx,
            chain,
            mid,
            mid_fx,
        ) && unblocked_delivered(mid, mid_fx, unblocked, post, post_fx)
}

/// How many of the positions `locs` are on a real chain.
pub fn count_pieces(locs: &Vec<OrderIndex>) -> (n: usize)
    ensures
        n == count_real(locs@),
{
    let mut n: usize = 0;
    let mut k: usize = 0;
    while k < locs.len()
        invariant
            k <= locs@.len(),
            n == count_real(locs@.take(k as int)),
            n <= k,
        decreases locs@.len() - k,
    {
        proof {
            assert(locs@.take(k + 1).drop_last() =~= locs@.take(k as int));
        }
        if locs[k].0 != 0 {
            n = n + 1;
        }
        k = k + 1;
    }
    proof {
        assert(locs@.take(k as int) =~= locs@);
    }
    n
}

/// Where the first of the positions `locs` on `chain` is, if one is.
pub fn find_slot(locs: &Vec<OrderIndex>, chain: u32) -> (found: Option<usize>)
    ensures
        match found {
            Some(k) => k == first_on_chain(locs@, chain),
            None => first_on_chain(locs@, chain) < 0,
        },
{
    let mut k: usize = 0;
    while k < locs.len()
        invariant
            k <= locs@.len(),
            first_on_chain(locs@.take(k as int), chain) < 0,
        decreases locs@.len() - k,
    {
        proof {
            assert(locs@.take(k + 1).drop_last() =~= locs@.take(k as int));
        }
        if locs[k].0 == chain {
            proof {
                lemma_first_found(locs@, chain, k as int);
            }
            return Some(k);
        }
        k = k + 1;
    }
    proof {
        assert(locs@.take(k as int) =~= locs@);
    }
    None
}

/// The first position on a chain among some is the first among more.
pub proof fn lemma_first_found(locs: Seq<OrderIndex>, chain: u32, k: int)
    requires
        0 <= k < locs.len(),
        locs[k].0 == chain,
        first_on_chain(locs.take(k), chain) < 0,
    ensures
        first_on_chain(locs, chain) == k,
    decreases locs.len(),
{
    if k < locs.len() - 1 {
        assert(locs.drop_last().take(k) =~= locs.take(k));
        lemma_first_found(locs.drop_last(), chain, k);
    }
}

/// What [`ThreadLog::found_multi_part`] does: the engine before (`pre`) and
/// after (`post`), and how the search stands (`status`). The piece of append
/// `id` on the chain of `read_loc` was found at `read_loc`.
///
/// Nothing happens where the append is not being searched for, or has no
/// position on that chain. Else, where the index of the position was
/// unknown, it is filled in, one piece fewer remains to be found, and the
/// chain counts one search as over. The append is finished, and no longer
/// searched for, where no piece remains to be found.
pub open spec fn piece_found(
    pre: ThreadLog,
    read_loc: OrderIndex,
    id: u128,
    post: ThreadLog,
    status: MultiSearch,
) -> bool {
    let multi = pre.blocked_multiappends@[id];
    let k = first_on_chain(multi.val@.locs, read_loc.0);
    let known = pre.blocked_multiappends@.contains_key(id) && k >= 0;
    let blind = known && multi.val@.locs[k].1 == 0;
    let remaining = if blind && multi.pieces_remaining > 0 {
        (multi.pieces_remaining - 1) as usize
    } else {
        multi.pieces_remaining
    };
    let val = if blind {
        EntryView { locs: multi.val@.locs.update(k, read_loc), ..multi.val@ }
    } else {
        multi.val@
    };
    let a = pre.per_chains@;
    let b = post.per_chains@;
    &&& post.blockers == pre.blockers
    &&& post.no_longer_blocked == pre.no_longer_blocked
    &&& post.num_snapshots == pre.num_snapshots
    &&& post.cache == pre.cache
    &&& if !known {
        &&& status is Repeat
        &&& post.blocked_multiappends@ == pre.blocked_multiappends@
    } else if remaining == 0 {
        &&& status matches MultiSearch::Finished(e) && e@ == val
        &&& post.blocked_multiappends@ == pre.blocked_multiappends@.remove(id)
    } else {
        &&& status is InProgress
        &&& post.blocked_multiappends@ == pre.blocked_multiappends@.insert(
            id,
            post.blocked_multiappends@[id],
        )
        &&& post.blocked_multiappends@[id].val@ == val
        &&& post.blocked_multiappends@[id].pieces_remaining == remaining
    }
    &&& if blind && has_chain(a, read_loc.0) && a[slot_of(a, read_loc.0)].spec_is_searching_for_multi() {
        let i = slot_of(a, read_loc.0);
        b == a.update(i, b[i]) && multi_search_ended(a[i], b[i])
    } else {
        b == a
    }
}

impl ThreadLog {
    /// Takes note that the piece of append `id` on the chain of `read_loc`
    /// is at `read_loc`, as [`piece_found`] says.
    pub fn found_multi_part(&mut self, read_loc: OrderIndex, id: u128) -> (status: MultiSearch)
        requires
            old(self).quiet(),
        ensures
            final(self).quiet(),
            chains_rest(old(self).per_chains@, final(self).per_chains@),
            piece_found(*old(self), read_loc, id, *final(self), status),
            status matches MultiSearch::Finished(e) ==> entry_ok(e@),
    {
        broadcast use vstd::std_specs::hash::group_hash_axioms;

        let ghost before = self.blocked_multiappends@;
        match self.blocked_multiappends.remove(&id) {
            None => {
                assert(self.blocked_multiappends@ =~= before);
                MultiSearch::Repeat
            },
            Some(multi) => {
                let mut multi = multi;
                let ghost start = multi.val@;
                proof {
                    lemma_first_on_chain(start.locs, read_loc.0);
                }
                match find_slot(&multi.val.locs, read_loc.0) {
                    None => {
                        self.blocked_multiappends.insert(id, multi);
                        assert(self.blocked_multiappends@ =~= before);
                        MultiSearch::Repeat
                    },
                    Some(k) => {
                        let was_blind_search = multi.val.locs[k].1 == 0;
                        if was_blind_search {
                            if multi.pieces_remaining > 0 {
                                multi.pieces_remaining = multi.pieces_remaining - 1;
                            }
                            multi.val.locs[k] = read_loc;
                        }
                        let finished = multi.pieces_remaining == 0;
                        let status = if finished {
                            MultiSearch::Finished(multi.val)
                        } else {
                            self.blocked_multiappends.insert(id, multi);
                            assert(self.blocked_multiappends@ =~= before.insert(
                                id,
                                self.blocked_multiappends@[id],
                            ));
                            MultiSearch::InProgress
                        };
                        let ghost mid = *self;
                        if was_blind_search {
                            match self.find_chain(read_loc.0) {
                                Some(i) => {
                                    if self.per_chains[i].is_searching_for_multi() {
                                        self.per_chains[i].decrement_multi_search();
                                        proof {
                                            lemma_touched_chain(mid, *self, i as int);
                                        }
                                    }
                                },
                                None => {},
                            }
                        }
                        status
                    },
                }
            },
        }
    }
}

/// What looking for the position `p` of append `id` does, in the search for
/// the pieces of a multi-append: a position on a real chain is looked for as
/// [`multi_part_fetched`] says; `early` is where it was found before, if it
/// was. For a position on no chain nothing is done.
pub open spec fn slot_searched(
    pre: ThreadLog,
    pre_fx: Effects,
    id: u128,
    p: OrderIndex,
    post: ThreadLog,
    post_fx: Effects,
    early: Option<u32>,
) -> bool {
    if p.0 != 0 {
        multi_part_fetched(pre, pre_fx, id, p.0, p.1, post, post_fx, early)
    } else {
        post == pre && post_fx == pre_fx && early.is_none()
    }
}

/// Where a position is after it was looked for: at the index at which it
/// was found before, where it was; else where it was said to be.
pub open spec fn slot_after(p: OrderIndex, early: Option<u32>) -> OrderIndex {
    match early {
        Some(found) => if found != 0 {
            OrderIndex(p.0, found)
        } else {
            p
        },
        None => p,
    }
}

/// Whether a position remains to be found after it was looked for: it is on
/// a real chain, and neither was it found before nor is its index known.
pub open spec fn slot_remains(p: OrderIndex, early: Option<u32>) -> bool {
    p.0 != 0 && slot_after(p, early).1 == 0
}

/// What looking for the first `k` positions `start` of append `id` does, one
/// after the other, each as [`slot_searched`] says: the engine and what it
/// handed out before (`pre`, `pre_fx`) and after (`post`, `post_fx`); `locs`
/// are the positions as they are known after that, and `remaining` is how
/// many of the `k` remain to be found.
pub open spec fn parts_searched(
    pre: ThreadLog,
    pre_fx: Effects,
    id: u128,
    start: Seq<OrderIndex>,
    k: int,
    post: ThreadLog,
    post_fx: Effects,
    locs: Seq<OrderIndex>,
    remaining: int,
) -> bool
    decreases k,
{
    if k <= 0 {
        post == pre && post_fx == pre_fx && locs == start && remaining == 0
    } else {
        exists|mid: ThreadLog, mid_fx: Effects, before: Seq<OrderIndex>, early: Option<u32>|
            #![trigger slot_searched(mid, mid_fx, id, start[k - 1], post, post_fx, early),
                before.update(k - 1, slot_after(start[k - 1], early))]
            {
                &&& parts_searched(
                    pre,
                    pre_fx,
                    id,
                    start,
                    k - 1,
                    mid,
                    mid_fx,
                    before,
                    remaining - (if slot_remains(start[k - 1], early) {
                        1int
                    } else {
                        0int
                    }),
                )
                &&& slot_searched(mid, mid_fx, id, start[k - 1], post, post_fx, early)
                &&& locs == before.update(k - 1, slot_after(start[k - 1], early))
            }
    }
}

/// One more position looked for.
pub proof fn lemma_parts_searched_step(
    pre: ThreadLog,
    pre_fx: Effects,
    id: u128,
    start: Seq<OrderIndex>,
    k: int,
    mid: ThreadLog,
    mid_fx: Effects,
    before: Seq<OrderIndex>,
    remaining: int,
    early: Option<u32>,
    post: ThreadLog,
    post_fx: Effects,
)
    requires
        k > 0,
        parts_searched(pre, pre_fx, id, start, k - 1, mid, mid_fx, before, remaining),
        slot_searched(mid, mid_fx, id, start[k - 1], post, post_fx, early),
    ensures
        parts_searched(
            pre,
            pre_fx,
            id,
            start,
            k,
            post,
            post_fx,
            before.update(k - 1, slot_after(start[k - 1], early)),
            remaining + (if slot_remains(start[k - 1], early) {
                1int
            } else {
                0int
            }),
        ),
{
}

/// The engine `post` is the engine `pre` with the append `id` being searched
/// for: `val` is what is known of it, and `remaining` how many of its pieces
/// remain to be found.
pub open spec fn search_begun(
    pre: ThreadLog,
    id: u128,
    val: EntryView,
    remaining: int,
    post: ThreadLog,
) -> bool {
    &&& post.blocked_multiappends@ == pre.blocked_multiappends@.insert(
        id,
        post.blocked_multiappends@[id],
    )
    &&& post.blocked_multiappends@[id].val@ == val
    &&& post.blocked_multiappends@[id].pieces_remaining == remaining
    &&& post.per_chains == pre.per_chains
    &&& post.blockers == pre.blockers
    &&& post.no_longer_blocked == pre.no_longer_blocked
    &&& post.num_snapshots == pre.num_snapshots
    &&& post.cache == pre.cache
}

/// The engine `post` is the engine `pre` after it was taken note on the
/// chain of `read_loc`, which gets a state where it had none, that the piece
/// of append `id` on that chain is at `read_loc`.
pub open spec fn sentinel_noted(pre: ThreadLog, read_loc: OrderIndex, id: u128, post: ThreadLog) -> bool {
    let a = pre.per_chains@;
    let b = post.per_chains@;
    &&& chain_changed(pre, read_loc.0, post)
    &&& post.cache == pre.cache
    &&& exists|before: PerChain|
        #![trigger early_sentinel_added(before, id, read_loc.1, b[slot_of(b, read_loc.0)])]
        (if has_chain(a, read_loc.0) {
            before == a[slot_of(a, read_loc.0)]
        } else {
            untouched(before, read_loc.0) && !before.is_interesting
        }) && early_sentinel_added(before, id, read_loc.1, b[slot_of(b, read_loc.0)])
}

/// What [`ThreadLog::update_multi_part_read`] does with `msg`, a piece of a
/// multi-append that was read at `read_loc`; `is_sentinel` says whether it is
/// a marker without a payload. The engine and what it handed out before
/// (`pre`, `pre_fx`) and after (`post`, `post_fx`), and how the search stands
/// (`status`).
///
/// An entry on one real chain only is finished as it is. A piece read at no
/// position tells nothing. A piece of an append that is being searched for
/// is taken note of as [`piece_found`] says. Of an append that is not, a
/// marker is taken note of on its chain as [`sentinel_noted`] says; a piece
/// with a payload is stale where the horizon of its chain has not reached
/// `read_loc` or `read_loc` has been delivered, and else starts the search:
/// each of its positions is looked for as [`parts_searched`] says. The append
/// is finished where each is known by then; else it is searched for from now
/// on, and the piece is taken note of as [`piece_found`] says.
pub open spec fn multi_part_updated(
    pre: ThreadLog,
    pre_fx: Effects,
    read_loc: OrderIndex,
    msg: Entry,
    is_sentinel: bool,
    post: ThreadLog,
    post_fx: Effects,
    status: MultiSearch,
) -> bool {
    let id = msg@.id;
    if count_real(msg@.locs) == 1 {
        status == MultiSearch::Finished(msg) && post == pre && post_fx == pre_fx
    } else if read_loc.0 == 0 || read_loc.1 == 0 {
        status is Repeat && post == pre && post_fx == pre_fx
    } else if pre.blocked_multiappends@.contains_key(id) {
        post_fx == pre_fx && piece_found(pre, read_loc, id, post, status)
    } else if is_sentinel {
        status is EarlySentinel && post_fx == pre_fx && sentinel_noted(pre, read_loc, id, post)
    } else if beyond_horizon(pre.per_chains@, read_loc) || delivered(pre.per_chains@, read_loc) {
        status == MultiSearch::BeyondHorizon(msg) && post == pre && post_fx == pre_fx
    } else {
        exists|mid: ThreadLog, locs: Seq<OrderIndex>, remaining: int|
            #![trigger parts_searched(pre, pre_fx, id, msg@.locs, msg@.locs.len() as int, mid, post_fx, locs, remaining)]
            {
                let val = EntryView { locs, ..msg@ };
                &&& parts_searched(
                    pre,
                    pre_fx,
                    id,
                    msg@.locs,
                    msg@.locs.len() as int,
                    mid,
                    post_fx,
                    locs,
                    remaining,
                )
                &&& if remaining == 0 {
                    (status matches MultiSearch::Finished(e) && e@ == val) && post == mid
                } else {
                    exists|begun: ThreadLog|
                        #![trigger search_begun(mid, id, val, remaining, begun)]
                        search_begun(mid, id, val, remaining, begun) && piece_found(
                            begun,
                            read_loc,
                            id,
                            post,
                            status,
                        )
                }
            }
    }
}

impl ThreadLog {
    /// Takes note on the chain of `read_loc`, which gets a state where it
    /// has none, that the piece of append `id` on that chain is at
    /// `read_loc`.
    pub fn note_early_sentinel(&mut self, read_loc: OrderIndex, id: u128)
        requires
            old(self).wf(),
            read_loc.1 != 0,
        ensures
            final(self).wf(),
            sentinel_noted(*old(self), read_loc, id, *final(self)),
    {
        let i = self.chain_slot(read_loc.0, false);
        let ghost mid = *self;
        proof {
            lemma_slot_of(mid.per_chains@, i as int);
        }
        self.per_chains[i].add_early_sentinel(id, read_loc.1);
        proof {
            lemma_touched_chain(mid, *self, i as int);
        }
    }

    /// Looks for each position of `msg`, the first piece that was seen of
    /// append `id`, one after the other, each as
    /// [`ThreadLog::fetch_multi_parts`] does. Hands back `msg` with the
    /// positions that were found before filled in, and how many positions
    /// remain to be found.
    pub fn search_parts(&mut self, id: u128, msg: Entry, fx: &mut Effects) -> (searched: (Entry, usize))
        requires
            old(self).quiet(),
            old(fx).wf(),
            entry_ok(msg@),
        ensures
            progressed(*old(self), *old(fx), *final(self), *final(fx)),
            final(self).quiet(),
            final(self).blocked_multiappends == old(self).blocked_multiappends,
            entry_ok(searched.0@),
            searched.0@ == (EntryView { locs: searched.0@.locs, ..msg@ }),
            parts_searched(
                *old(self),
                *old(fx),
                id,
                msg@.locs,
                msg@.locs.len() as int,
                *final(self),
                *final(fx),
                searched.0@.locs,
                searched.1 as int,
            ),
    {
        let mut msg = msg;
        let ghost start = msg@;
        let mut pieces_remaining: usize = 0;
        let mut k: usize = 0;
        proof {
            lemma_grew_refl(*fx);
        }
        while k < msg.locs.len()
            invariant
                k <= msg.locs@.len(),
                pieces_remaining <= k,
                old(self).wf(),
                old(fx).wf(),
                progressed(*old(self), *old(fx), *self, *fx),
                self.quiet(),
                self.blocked_multiappends == old(self).blocked_multiappends,
                entry_ok(msg@),
                msg@ == (EntryView { locs: msg@.locs, ..start }),
                msg@.locs.len() == start.locs.len(),
                forall|j: int| k <= j < msg@.locs.len() ==> #[trigger] msg@.locs[j] == start.locs[j],
                parts_searched(
                    *old(self),
                    *old(fx),
                    id,
                    start.locs,
                    k as int,
                    *self,
                    *fx,
                    msg@.locs,
                    pieces_remaining as int,
                ),
            decreases msg.locs@.len() - k,
        {
            let p = msg.locs[k];
            let ghost mid = *self;
            let ghost mid_fx = *fx;
            let ghost before = msg@;
            let ghost old_remaining = pieces_remaining;
            let early = if p.0 != 0 {
                let early = self.fetch_multi_parts(id, p.0, p.1, fx);
                proof {
                    lemma_progressed_trans(*old(self), *old(fx), mid, mid_fx, *self, *fx);
                }
                early
            } else {
                None
            };
            let found = match early {
                Some(loc) => loc,
                None => 0,
            };
            if found != 0 {
                msg.locs[k] = OrderIndex(p.0, found);
            } else if p.0 != 0 && p.1 == 0 {
                pieces_remaining = pieces_remaining + 1;
            }
            proof {
                assert(msg@.locs =~= before.locs.update(k as int, slot_after(p, early)));
                lemma_parts_searched_step(
                    *old(self),
                    *old(fx),
                    id,
                    start.locs,
                    k + 1,
                    mid,
                    mid_fx,
                    before.locs,
                    old_remaining as int,
                    early,
                    *self,
                    *fx,
                );
            }
            k = k + 1;
        }
        (msg, pieces_remaining)
    }

    /// Takes in `msg`, a piece of a multi-append that was read at `read_loc`;
    /// `is_sentinel` says whether it is a marker without a payload. What is
    /// done with it, and how the search for the pieces of the append stands
    /// after that, is what [`multi_part_updated`] says.
    pub fn update_multi_part_read(
        &mut self,
        read_loc: OrderIndex,
        msg: Entry,
        is_sentinel: bool,
        fx: &mut Effects,
    ) -> (status: MultiSearch)
        requires
            old(self).quiet(),
            old(fx).wf(),
            entry_ok(msg@),
        ensures
            progressed(*old(self), *old(fx), *final(self), *final(fx)),
            final(self).quiet(),
            multi_part_updated(
                *old(self),
                *old(fx),
                read_loc,
                msg,
                is_sentinel,
                *final(self),
                *final(fx),
                status,
            ),
            status matches MultiSearch::Finished(e) ==> entry_ok(e@),
            status is BeyondHorizon ==> read_loc.1 != 0,
    {
        broadcast use vstd::std_specs::hash::group_hash_axioms;

        let id = msg.id;
        let num_pieces = count_pieces(&msg.locs);
        proof {
            lemma_grew_refl(*fx);
        }
        if num_pieces == 1 {
            return MultiSearch::Finished(msg);
        }
        if read_loc.0 == 0 || read_loc.1 == 0 {
            return MultiSearch::Repeat;
        }
        let is_later_piece = self.blocked_multiappends.contains_key(&id);
        if is_later_piece {
            let status = self.found_multi_part(read_loc, id);
            proof {
                lemma_progressed_rest(*old(self), *old(fx), *self, *fx);
            }
            return status;
        }
        if is_sentinel {
            self.note_early_sentinel(read_loc, id);
            proof {
                lemma_progressed_rest(*old(self), *old(fx), *self, *fx);
            }
            return MultiSearch::EarlySentinel;
        }
        let (cur, hor, _) = self.lookup(read_loc.0);
        if read_loc.1 > hor || read_loc.1 <= cur {
            return MultiSearch::BeyondHorizon(msg);
        }
        let (msg, pieces_remaining) = self.search_parts(id, msg, fx);
        let ghost mid = *self;
        let ghost mid_fx = *fx;
        let ghost val = msg@;
        if pieces_remaining == 0 {
            return MultiSearch::Finished(msg);
        }
        self.blocked_multiappends.insert(id, MultiSearchState { val: msg, pieces_remaining });
        let ghost begun = *self;
        proof {
            assert(search_begun(mid, id, val, pieces_remaining as int, begun));
        }
        let status = self.found_multi_part(read_loc, id);
        proof {
            lemma_grew_refl(*fx);
            lemma_progressed_rest(mid, mid_fx, *self, *fx);
        }
        status
    }
}

} // verus!
