//! The bookkeeping of one chain: how far it may be read, how far it has been
//! read, and how far it has been handed on.
use vstd::prelude::*;
use std::collections::HashMap;
use crate::model::{horizon, interesting};
use crate::packets::{Entry, OrderIndex};

verus! {

/// How far ahead of what it knows of a chain a snapshot request reads.
pub const MAX_PREFETCH: u32 = 8;

/// The most fetches that are in flight on one chain at a time.
pub const MAX_PIPELINED: u32 = 1000;

/// What a chain counts while it is being read.
pub struct ReadState {
    pub outstanding_snapshots: u32,
    pub num_multiappends_searching_for: usize,
}

impl ReadState {
    pub fn new() -> (state: ReadState)
        ensures
            state.outstanding_snapshots == 0,
            state.num_multiappends_searching_for == 0,
    {
        ReadState { outstanding_snapshots: 0, num_multiappends_searching_for: 0 }
    }
}

/// The state of one chain.
pub struct PerChain {
    pub chain: u32,
    /// The horizon: the highest index that may be fetched and delivered.
    pub last_snapshot: u32,
    /// The highest index for which a fetch has been issued.
    pub last_read_sent_to_server: u32,
    /// The number of fetches in flight.
    pub outstanding_reads: u32,
    /// The highest index that has been delivered.
    pub last_returned_to_client: u32,
    /// The entry that waits for the horizon to reach it, if there is one.
    pub blocked_on_new_snapshot: Option<Entry>,
    /// Pieces of multi-appends found on this chain before the append itself
    /// was seen: append id to index.
    pub found_but_unused_multiappends: HashMap<u128, u32>,
    /// Present while a snapshot or a search for a multi-append piece is
    /// outstanding.
    pub is_being_read: Option<ReadState>,
    /// Whether entries of this chain are handed to the application.
    pub is_interesting: bool,
}

/// `pc` is the state of `chain` with nothing fetched, delivered or kept, and
/// no read session.
pub open spec fn untouched(pc: PerChain, chain: u32) -> bool {
    &&& pc.chain == chain
    &&& pc.last_snapshot == 0
    &&& pc.last_read_sent_to_server == 0
    &&& pc.outstanding_reads == 0
    &&& pc.last_returned_to_client == 0
    &&& pc.blocked_on_new_snapshot.is_none()
    &&& pc.found_but_unused_multiappends@ == Map::<u128, u32>::empty()
    &&& pc.is_being_read.is_none()
}

/// `e` has a position on `chain` at or below `horizon`.
pub open spec fn entry_is_unblocked(locs: Seq<OrderIndex>, chain: u32, horizon: u32) -> bool {
    exists|k: int| 0 <= k < locs.len() && (#[trigger] locs[k]).0 == chain && locs[k].1 <= horizon
}

fn entry_is_unblocked_exec(e: &Entry, chain: u32, new_horizon: u32) -> (b: bool)
    ensures
        b == entry_is_unblocked(e.locs@, chain, new_horizon),
{
    let mut k: usize = 0;
    while k < e.locs.len()
        invariant
            k <= e.locs@.len(),
            forall|j: int|
                0 <= j < k ==> !((#[trigger] e.locs@[j]).0 == chain && e.locs@[j].1 <= new_horizon),
        decreases e.locs@.len() - k,
    {
        let p = e.locs[k];
        if p.0 == chain && p.1 <= new_horizon {
            return true;
        }
        k = k + 1;
    }
    false
}

/// What marking `index` as delivered does to a chain: `pre` before, `post`
/// after. The read session ends where this was the last thing the chain
/// waited for.
pub open spec fn marked(pre: PerChain, post: PerChain, index: u32) -> bool {
    &&& post.last_returned_to_client == index
    &&& post.is_being_read == (if pre.last_snapshot == index
        && !pre.spec_has_outstanding_snapshots() && !pre.spec_is_searching_for_multi() {
        None
    } else {
        pre.is_being_read
    })
    &&& post.chain == pre.chain
    &&& post.last_snapshot == pre.last_snapshot
    &&& post.last_read_sent_to_server == pre.last_read_sent_to_server
    &&& post.outstanding_reads == pre.outstanding_reads
    &&& post.blocked_on_new_snapshot == pre.blocked_on_new_snapshot
    &&& post.found_but_unused_multiappends == pre.found_but_unused_multiappends
    &&& post.is_interesting == pre.is_interesting
}

/// `post` is `pre` but for the entry that it keeps for a later horizon.
pub open spec fn only_parked_differs(pre: PerChain, post: PerChain) -> bool {
    &&& post.chain == pre.chain
    &&& post.last_snapshot == pre.last_snapshot
    &&& post.last_read_sent_to_server == pre.last_read_sent_to_server
    &&& post.outstanding_reads == pre.outstanding_reads
    &&& post.last_returned_to_client == pre.last_returned_to_client
    &&& post.found_but_unused_multiappends == pre.found_but_unused_multiappends
    &&& post.is_being_read == pre.is_being_read
    &&& post.is_interesting == pre.is_interesting
}

/// What getting a chain ready for the search for a piece of a multi-append
/// does to it: `pre` before, `post` after. The piece is that of append `id`;
/// of where it is, `index` is known (0: nothing is). `early` is where the
/// piece was found before, if it was, and `unblocked` the entry that a raised
/// horizon has freed.
///
/// What was taken note of the piece is taken out. Where `index` is known,
/// the horizon is raised to what is known of the piece, as
/// [`PerChain::update_horizon`] does, and the read cursor moves on to `index`
/// where it then stands just below it. Where nothing is known of the piece,
/// the chain counts one more search.
pub open spec fn multi_part_prepared(
    pre: PerChain,
    id: u128,
    index: u32,
    post: PerChain,
    early: Option<u32>,
    unblocked: Option<Entry>,
) -> bool {
    let target = match early {
        Some(found) => found,
        None => index,
    };
    let raised = index != 0 && pre.last_snapshot < target;
    let pulled_back = if raised && pre.last_read_sent_to_server > target {
        target
    } else {
        pre.last_read_sent_to_server
    };
    let frees = raised && pre.blocked_on_new_snapshot.is_some() && entry_is_unblocked(
        pre.blocked_on_new_snapshot.unwrap().locs@,
        pre.chain,
        target,
    );
    &&& early == (if pre.found_but_unused_multiappends@.contains_key(id) {
        Some(pre.found_but_unused_multiappends@[id])
    } else {
        None
    })
    &&& post.found_but_unused_multiappends@ == pre.found_but_unused_multiappends@.remove(id)
    &&& post.last_snapshot == (if raised {
        target
    } else {
        pre.last_snapshot
    })
    &&& post.last_read_sent_to_server == (if index != 0 && pulled_back == index - 1 {
        index
    } else {
        pulled_back
    })
    &&& unblocked == (if frees {
        pre.blocked_on_new_snapshot
    } else {
        None
    })
    &&& post.blocked_on_new_snapshot == (if frees {
        None
    } else {
        pre.blocked_on_new_snapshot
    })
    &&& post.is_being_read == (if index == 0 && early.is_none() {
        Some(
            ReadState {
                outstanding_snapshots: if pre.is_being_read.is_some() {
                    pre.is_being_read.unwrap().outstanding_snapshots
                } else {
                    0
                },
                num_multiappends_searching_for: if !pre.is_being_read.is_some() {
                    1usize
                } else if pre.is_being_read.unwrap().num_multiappends_searching_for < usize::MAX {
                    (pre.is_being_read.unwrap().num_multiappends_searching_for + 1) as usize
                } else {
                    usize::MAX
                },
            },
        )
    } else {
        pre.is_being_read
    })
    &&& post.chain == pre.chain
    &&& post.outstanding_reads == pre.outstanding_reads
    &&& post.last_returned_to_client == pre.last_returned_to_client
    &&& post.is_interesting == pre.is_interesting
}

/// What counting one search for a multi-append piece as over does to a
/// chain: `pre` before, `post` after.
pub open spec fn multi_search_ended(pre: PerChain, post: PerChain) -> bool {
    &&& post.is_being_read == Some(
        ReadState {
            outstanding_snapshots: pre.is_being_read.unwrap().outstanding_snapshots,
            num_multiappends_searching_for: (pre.is_being_read.unwrap().num_multiappends_searching_for
                - 1) as usize,
        },
    )
    &&& post.chain == pre.chain
    &&& post.last_snapshot == pre.last_snapshot
    &&& post.last_read_sent_to_server == pre.last_read_sent_to_server
    &&& post.outstanding_reads == pre.outstanding_reads
    &&& post.last_returned_to_client == pre.last_returned_to_client
    &&& post.blocked_on_new_snapshot == pre.blocked_on_new_snapshot
    &&& post.found_but_unused_multiappends == pre.found_but_unused_multiappends
    &&& post.is_interesting == pre.is_interesting
}

/// What taking note of where a piece of append `id` is does to a chain:
/// `pre` before, `post` after; the piece is at `index`.
pub open spec fn early_sentinel_added(pre: PerChain, id: u128, index: u32, post: PerChain) -> bool {
    &&& post.found_but_unused_multiappends@ == pre.found_but_unused_multiappends@.insert(id, index)
    &&& post.chain == pre.chain
    &&& post.last_snapshot == pre.last_snapshot
    &&& post.last_read_sent_to_server == pre.last_read_sent_to_server
    &&& post.outstanding_reads == pre.outstanding_reads
    &&& post.last_returned_to_client == pre.last_returned_to_client
    &&& post.blocked_on_new_snapshot == pre.blocked_on_new_snapshot
    &&& post.is_being_read == pre.is_being_read
    &&& post.is_interesting == pre.is_interesting
}

/// What taking note that a fetch of `index` found nothing does to a chain:
/// `pre` before, `post` after. The read cursor goes back to just below
/// `index`, where it stood at `index` or beyond and beyond what was
/// delivered.
pub open spec fn overread(pre: PerChain, index: u32, post: PerChain) -> bool {
    &&& post.last_read_sent_to_server == (if pre.last_read_sent_to_server >= index
        && pre.last_read_sent_to_server > pre.last_returned_to_client {
        (index - 1) as u32
    } else {
        pre.last_read_sent_to_server
    })
    &&& post.chain == pre.chain
    &&& post.last_snapshot == pre.last_snapshot
    &&& post.outstanding_reads == pre.outstanding_reads
    &&& post.last_returned_to_client == pre.last_returned_to_client
    &&& post.blocked_on_new_snapshot == pre.blocked_on_new_snapshot
    &&& post.found_but_unused_multiappends == pre.found_but_unused_multiappends
    &&& post.is_being_read == pre.is_being_read
    &&& post.is_interesting == pre.is_interesting
}

/// `post` is `pre` but for its read session, which is over.
pub open spec fn session_closed(pre: PerChain, post: PerChain) -> bool {
    &&& post.is_being_read.is_none()
    &&& post.chain == pre.chain
    &&& post.last_snapshot == pre.last_snapshot
    &&& post.last_read_sent_to_server == pre.last_read_sent_to_server
    &&& post.outstanding_reads == pre.outstanding_reads
    &&& post.last_returned_to_client == pre.last_returned_to_client
    &&& post.blocked_on_new_snapshot == pre.blocked_on_new_snapshot
    &&& post.found_but_unused_multiappends == pre.found_but_unused_multiappends
    &&& post.is_interesting == pre.is_interesting
}

/// `post` is `pre` with one fetch fewer in flight, or with none where none
/// was.
pub open spec fn fetch_answered(pre: PerChain, post: PerChain) -> bool {
    &&& post.outstanding_reads == (if pre.outstanding_reads > 0 {
        pre.outstanding_reads - 1
    } else {
        0
    })
    &&& post.chain == pre.chain
    &&& post.last_snapshot == pre.last_snapshot
    &&& post.last_read_sent_to_server == pre.last_read_sent_to_server
    &&& post.last_returned_to_client == pre.last_returned_to_client
    &&& post.blocked_on_new_snapshot == pre.blocked_on_new_snapshot
    &&& post.found_but_unused_multiappends == pre.found_but_unused_multiappends
    &&& post.is_being_read == pre.is_being_read
    &&& post.is_interesting == pre.is_interesting
}

impl PerChain {
    /// Nothing is delivered beyond the horizon.
    pub open spec fn wf(&self) -> bool {
        self.last_returned_to_client <= self.last_snapshot
    }

    pub open spec fn spec_has_returned(&self, index: u32) -> bool {
        index <= self.last_returned_to_client
    }

    pub open spec fn spec_next_return_is(&self, index: u32) -> bool {
        index == self.last_returned_to_client + 1
    }

    pub open spec fn spec_is_within_snapshot(&self, index: u32) -> bool {
        index <= self.last_snapshot
    }

    pub open spec fn spec_has_outstanding_snapshots(&self) -> bool {
        self.is_being_read.is_some() && self.is_being_read.unwrap().outstanding_snapshots > 0
    }

    pub open spec fn spec_is_searching_for_multi(&self) -> bool {
        self.is_being_read.is_some() && self.is_being_read.unwrap().num_multiappends_searching_for
            > 0
    }

    pub open spec fn spec_finished_until_snapshot(&self) -> bool {
        self.last_returned_to_client == self.last_snapshot && !self.spec_has_outstanding_snapshots()
    }

    /// The chain is caught up to its horizon and has no pending work.
    pub open spec fn spec_is_finished(&self) -> bool {
        self.spec_finished_until_snapshot() && !self.spec_is_searching_for_multi()
    }

    /// How many fetches to issue to reach the horizon without going over the
    /// pipeline cap.
    pub open spec fn spec_num_to_fetch(&self) -> int {
        if self.last_read_sent_to_server < self.last_snapshot && self.outstanding_reads
            < MAX_PIPELINED {
            let needed = self.last_snapshot - self.last_read_sent_to_server;
            let room = MAX_PIPELINED - self.outstanding_reads;
            if needed <= room {
                needed
            } else {
                room
            }
        } else {
            0
        }
    }

    /// How many fetches a snapshot request issues: as many as the horizon is
    /// ahead of the read cursor, and no fewer than [`MAX_PREFETCH`]; but no
    /// more than the pipeline cap leaves room for.
    pub open spec fn spec_num_to_prefetch(&self) -> int {
        let behind = self.last_snapshot - self.last_read_sent_to_server;
        let want = if behind > MAX_PREFETCH {
            behind
        } else {
            MAX_PREFETCH as int
        };
        let room = MAX_PIPELINED - self.outstanding_reads;
        if room < 0 {
            0
        } else if want <= room {
            want
        } else {
            room
        }
    }

    /// The chain waits for a piece of a multi-append whose index on it is
    /// unknown, and nothing is on its way that could bring the piece: the
    /// horizon has to move for the search to go on.
    pub open spec fn spec_search_stalled(&self) -> bool {
        self.spec_num_to_fetch() == 0 && self.spec_is_searching_for_multi() && self.outstanding_reads
            == 0
    }

    /// A chain on which nothing has happened, kept for the sake of other
    /// chains.
    pub fn new(chain: u32) -> (pc: PerChain)
        ensures
            untouched(pc, chain),
            !pc.is_interesting,
            pc.wf(),
    {
        PerChain {
            chain,
            last_snapshot: 0,
            last_read_sent_to_server: 0,
            outstanding_reads: 0,
            last_returned_to_client: 0,
            blocked_on_new_snapshot: None,
            found_but_unused_multiappends: HashMap::new(),
            is_being_read: None,
            is_interesting: false,
        }
    }

    /// A chain on which nothing has happened, whose entries the application
    /// asked for.
    pub fn interesting(chain: u32) -> (pc: PerChain)
        ensures
            untouched(pc, chain),
            pc.is_interesting,
            pc.wf(),
    {
        let mut s = PerChain::new(chain);
        s.is_interesting = true;
        s
    }

    /// Marks `index` as delivered. It has to be the next index of the chain
    /// and within the horizon.
    pub fn set_returned(&mut self, index: u32)
        requires
            old(self).spec_next_return_is(index),
            old(self).spec_is_within_snapshot(index),
        ensures
            marked(*old(self), *final(self), index),
            final(self).wf(),
    {
        self.last_returned_to_client = index;
        if self.is_finished() {
            self.is_being_read = None;
        }
    }

    /// Takes note that a fetch of `index` found nothing: the read cursor goes
    /// back to just below it, so that the index is asked for again.
    pub fn overread_at(&mut self, index: u32)
        requires
            index >= 1,
        ensures
            overread(*old(self), index, *final(self)),
    {
        if self.last_read_sent_to_server >= index && self.last_read_sent_to_server
            > self.last_returned_to_client {
            self.last_read_sent_to_server = index - 1;
        }
    }

    /// Counts one more snapshot request, and opens the read session where
    /// there was none. The count stays at its largest value once there.
    pub fn increment_outstanding_snapshots(&mut self) -> (out: u32)
        ensures
            final(self).is_being_read == Some(
                ReadState {
                    outstanding_snapshots: out,
                    num_multiappends_searching_for: if old(self).is_being_read.is_some() {
                        old(self).is_being_read.unwrap().num_multiappends_searching_for
                    } else {
                        0
                    },
                },
            ),
            out == (if !old(self).is_being_read.is_some() {
                1
            } else if old(self).is_being_read.unwrap().outstanding_snapshots < u32::MAX {
                old(self).is_being_read.unwrap().outstanding_snapshots + 1
            } else {
                u32::MAX as int
            }),
            final(self).chain == old(self).chain,
            final(self).last_snapshot == old(self).last_snapshot,
            final(self).last_read_sent_to_server == old(self).last_read_sent_to_server,
            final(self).outstanding_reads == old(self).outstanding_reads,
            final(self).last_returned_to_client == old(self).last_returned_to_client,
            final(self).blocked_on_new_snapshot == old(self).blocked_on_new_snapshot,
            final(self).found_but_unused_multiappends == old(self).found_but_unused_multiappends,
            final(self).is_interesting == old(self).is_interesting,
    {
        let (snapshots, searching) = match &self.is_being_read {
            Some(state) => (
                state.outstanding_snapshots.saturating_add(1),
                state.num_multiappends_searching_for,
            ),
            None => (1, 0),
        };
        self.is_being_read = Some(
            ReadState { outstanding_snapshots: snapshots, num_multiappends_searching_for: searching },
        );
        snapshots
    }

    /// Counts one snapshot request as answered.
    pub fn decrement_outstanding_snapshots(&mut self) -> (out: u32)
        requires
            old(self).spec_has_outstanding_snapshots(),
        ensures
            out == old(self).is_being_read.unwrap().outstanding_snapshots - 1,
            final(self).is_being_read == Some(
                ReadState {
                    outstanding_snapshots: out,
                    num_multiappends_searching_for: old(
                        self,
                    ).is_being_read.unwrap().num_multiappends_searching_for,
                },
            ),
            final(self).chain == old(self).chain,
            final(self).last_snapshot == old(self).last_snapshot,
            final(self).last_read_sent_to_server == old(self).last_read_sent_to_server,
            final(self).outstanding_reads == old(self).outstanding_reads,
            final(self).last_returned_to_client == old(self).last_returned_to_client,
            final(self).blocked_on_new_snapshot == old(self).blocked_on_new_snapshot,
            final(self).found_but_unused_multiappends == old(self).found_but_unused_multiappends,
            final(self).is_interesting == old(self).is_interesting,
    {
        let (snapshots, searching) = match &self.is_being_read {
            Some(state) => (state.outstanding_snapshots - 1, state.num_multiappends_searching_for),
            None => (0, 0),
        };
        self.is_being_read = Some(
            ReadState { outstanding_snapshots: snapshots, num_multiappends_searching_for: searching },
        );
        snapshots
    }

    /// Counts one more search for a piece of a multi-append whose index on
    /// this chain is unknown, and opens the read session where there was
    /// none. The count stays at its largest value once there.
    pub fn increment_multi_search(&mut self)
        ensures
            final(self).is_being_read == Some(
                ReadState {
                    outstanding_snapshots: if old(self).is_being_read.is_some() {
                        old(self).is_being_read.unwrap().outstanding_snapshots
                    } else {
                        0
                    },
                    num_multiappends_searching_for: if !old(self).is_being_read.is_some() {
                        1usize
                    } else if old(self).is_being_read.unwrap().num_multiappends_searching_for
                        < usize::MAX {
                        (old(self).is_being_read.unwrap().num_multiappends_searching_for
                            + 1) as usize
                    } else {
                        usize::MAX
                    },
                },
            ),
            final(self).spec_is_searching_for_multi(),
            final(self).chain == old(self).chain,
            final(self).last_snapshot == old(self).last_snapshot,
            final(self).last_read_sent_to_server == old(self).last_read_sent_to_server,
            final(self).outstanding_reads == old(self).outstanding_reads,
            final(self).last_returned_to_client == old(self).last_returned_to_client,
            final(self).blocked_on_new_snapshot == old(self).blocked_on_new_snapshot,
            final(self).found_but_unused_multiappends == old(self).found_but_unused_multiappends,
            final(self).is_interesting == old(self).is_interesting,
    {
        let (snapshots, searching) = match &self.is_being_read {
            Some(state) => (
                state.outstanding_snapshots,
                state.num_multiappends_searching_for.saturating_add(1),
            ),
            None => (0, 1),
        };
        self.is_being_read = Some(
            ReadState { outstanding_snapshots: snapshots, num_multiappends_searching_for: searching },
        );
    }

    /// Counts one search for a multi-append piece as over.
    pub fn decrement_multi_search(&mut self)
        requires
            old(self).spec_is_searching_for_multi(),
        ensures
            multi_search_ended(*old(self), *final(self)),
    {
        let (snapshots, searching) = match &self.is_being_read {
            Some(state) => (state.outstanding_snapshots, state.num_multiappends_searching_for - 1),
            None => (0, 0),
        };
        self.is_being_read = Some(
            ReadState { outstanding_snapshots: snapshots, num_multiappends_searching_for: searching },
        );
    }

    /// Counts one more fetch in flight, and opens the read session where
    /// there was none.
    pub fn increment_outstanding_reads(&mut self)
        requires
            old(self).outstanding_reads < u32::MAX,
        ensures
            final(self).outstanding_reads == old(self).outstanding_reads + 1,
            final(self).is_being_read == (if old(self).is_being_read.is_some() {
                old(self).is_being_read
            } else {
                Some(ReadState { outstanding_snapshots: 0, num_multiappends_searching_for: 0 })
            }),
            final(self).chain == old(self).chain,
            final(self).last_snapshot == old(self).last_snapshot,
            final(self).last_read_sent_to_server == old(self).last_read_sent_to_server,
            final(self).last_returned_to_client == old(self).last_returned_to_client,
            final(self).blocked_on_new_snapshot == old(self).blocked_on_new_snapshot,
            final(self).found_but_unused_multiappends == old(self).found_but_unused_multiappends,
            final(self).is_interesting == old(self).is_interesting,
    {
        self.outstanding_reads = self.outstanding_reads + 1;
        if self.is_being_read.is_none() {
            self.is_being_read = Some(ReadState::new());
        }
    }

    /// Counts one fetch as answered. A chain with no fetch in flight stays as
    /// it is.
    pub fn decrement_outstanding_reads(&mut self)
        ensures
            fetch_answered(*old(self), *final(self)),
    {
        if self.outstanding_reads > 0 {
            self.outstanding_reads = self.outstanding_reads - 1;
        }
    }

    /// Whether `index` can be delivered now.
    pub fn can_return(&self, index: u32) -> (b: bool)
        ensures
            b == (self.spec_next_return_is(index) && self.spec_is_within_snapshot(index)),
    {
        self.next_return_is(index) && self.is_within_snapshot(index)
    }

    /// Whether `index` has been delivered.
    pub fn has_returned(&self, index: u32) -> (b: bool)
        ensures
            b == self.spec_has_returned(index),
    {
        index <= self.last_returned_to_client
    }

    /// Whether `index` is the one to deliver next.
    pub fn next_return_is(&self, index: u32) -> (b: bool)
        ensures
            b == self.spec_next_return_is(index),
    {
        index > 0 && index - 1 == self.last_returned_to_client
    }

    /// Whether the horizon has reached `index`.
    pub fn is_within_snapshot(&self, index: u32) -> (b: bool)
        ensures
            b == self.spec_is_within_snapshot(index),
    {
        index <= self.last_snapshot
    }

    pub fn is_searching_for_multi(&self) -> (b: bool)
        ensures
            b == self.spec_is_searching_for_multi(),
    {
        match &self.is_being_read {
            Some(state) => state.num_multiappends_searching_for > 0,
            None => false,
        }
    }

    /// Moves the horizon up by one, as [`PerChain::update_horizon`] does. A
    /// horizon at the largest index stays.
    pub fn increment_horizon(&mut self) -> (unblocked: Option<Entry>)
        ensures
            PerChain::horizon_updated(
                *old(self),
                if old(self).last_snapshot < u32::MAX {
                    (old(self).last_snapshot + 1) as u32
                } else {
                    u32::MAX
                },
                *final(self),
                unblocked,
            ),
    {
        let new_horizon = self.last_snapshot.saturating_add(1);
        self.update_horizon(new_horizon)
    }

    /// What [`PerChain::update_horizon`] does to a chain: `pre` before the
    /// call with `new_horizon`, `post` after it, `unblocked` its result.
    pub open spec fn horizon_updated(
        pre: PerChain,
        new_horizon: u32,
        post: PerChain,
        unblocked: Option<Entry>,
    ) -> bool {
        let raised = pre.last_snapshot < new_horizon;
        let frees = raised && pre.blocked_on_new_snapshot.is_some() && entry_is_unblocked(
            pre.blocked_on_new_snapshot.unwrap().locs@,
            pre.chain,
            new_horizon,
        );
        &&& post.last_snapshot == (if raised {
            new_horizon
        } else {
            pre.last_snapshot
        })
        &&& post.last_read_sent_to_server == (if raised && pre.last_read_sent_to_server
            > new_horizon {
            new_horizon
        } else {
            pre.last_read_sent_to_server
        })
        &&& unblocked == (if frees {
            pre.blocked_on_new_snapshot
        } else {
            None
        })
        &&& post.blocked_on_new_snapshot == (if frees {
            None
        } else {
            pre.blocked_on_new_snapshot
        })
        &&& post.chain == pre.chain
        &&& post.outstanding_reads == pre.outstanding_reads
        &&& post.last_returned_to_client == pre.last_returned_to_client
        &&& post.found_but_unused_multiappends == pre.found_but_unused_multiappends
        &&& post.is_being_read == pre.is_being_read
        &&& post.is_interesting == pre.is_interesting
    }

    /// Raises the horizon to `new_horizon`; a horizon that is already there
    /// or beyond stays. The read cursor is pulled back to a raised horizon
    /// that it had run past. Where the raised horizon reaches the entry that
    /// waits for it, that entry is handed back.
    pub fn update_horizon(&mut self, new_horizon: u32) -> (unblocked: Option<Entry>)
        ensures
            PerChain::horizon_updated(*old(self), new_horizon, *final(self), unblocked),
    {
        if self.last_snapshot < new_horizon {
            self.last_snapshot = new_horizon;
            if self.last_read_sent_to_server > new_horizon {
                self.last_read_sent_to_server = new_horizon;
            }
            let frees = match &self.blocked_on_new_snapshot {
                Some(e) => entry_is_unblocked_exec(e, self.chain, new_horizon),
                None => false,
            };
            if frees {
                return self.blocked_on_new_snapshot.take();
            }
        }
        None
    }

    /// Keeps `val` until the horizon reaches it. An entry that was kept
    /// before is superseded and dropped.
    pub fn block_on_snapshot(&mut self, val: Entry)
        ensures
            final(self).blocked_on_new_snapshot == Some(val),
            only_parked_differs(*old(self), *final(self)),
    {
        self.blocked_on_new_snapshot = Some(val);
    }

    /// How many fetches to issue now.
    pub fn num_to_fetch(&self) -> (n: u32)
        ensures
            n == self.spec_num_to_fetch(),
    {
        if self.last_read_sent_to_server < self.last_snapshot && self.outstanding_reads
            < MAX_PIPELINED {
            let needed_reads = self.last_snapshot - self.last_read_sent_to_server;
            let room = MAX_PIPELINED - self.outstanding_reads;
            if needed_reads <= room {
                needed_reads
            } else {
                room
            }
        } else {
            0
        }
    }

    /// How many fetches to issue for a snapshot request.
    pub fn num_to_prefetch(&self) -> (n: u32)
        ensures
            n == self.spec_num_to_prefetch(),
    {
        let behind: u32 = if self.last_snapshot > self.last_read_sent_to_server {
            self.last_snapshot - self.last_read_sent_to_server
        } else {
            0
        };
        let want: u32 = if behind > MAX_PREFETCH {
            behind
        } else {
            MAX_PREFETCH
        };
        let room: u32 = if self.outstanding_reads < MAX_PIPELINED {
            MAX_PIPELINED - self.outstanding_reads
        } else {
            0
        };
        if want <= room {
            want
        } else {
            room
        }
    }

    /// How many indices have been asked for and not delivered yet.
    pub fn currently_buffering(&self) -> (n: u32)
        ensures
            n == (if self.last_read_sent_to_server >= self.last_returned_to_client {
                self.last_read_sent_to_server - self.last_returned_to_client
            } else {
                0
            }),
    {
        self.last_read_sent_to_server.saturating_sub(self.last_returned_to_client)
    }

    /// Records that the piece of append `id` on this chain is at `index`.
    pub fn add_early_sentinel(&mut self, id: u128, index: u32)
        requires
            index != 0,
        ensures
            early_sentinel_added(*old(self), id, index, *final(self)),
    {
        broadcast use vstd::std_specs::hash::group_hash_axioms;

        self.found_but_unused_multiappends.insert(id, index);
    }

    /// Takes out what was recorded of the piece of append `id` on this chain.
    pub fn take_early_sentinel(&mut self, id: u128) -> (index: Option<u32>)
        ensures
            index == (if old(self).found_but_unused_multiappends@.contains_key(id) {
                Some(old(self).found_but_unused_multiappends@[id])
            } else {
                None
            }),
            final(self).found_but_unused_multiappends@ == old(
                self,
            ).found_but_unused_multiappends@.remove(id),
            final(self).chain == old(self).chain,
            final(self).last_snapshot == old(self).last_snapshot,
            final(self).last_read_sent_to_server == old(self).last_read_sent_to_server,
            final(self).outstanding_reads == old(self).outstanding_reads,
            final(self).last_returned_to_client == old(self).last_returned_to_client,
            final(self).blocked_on_new_snapshot == old(self).blocked_on_new_snapshot,
            final(self).is_being_read == old(self).is_being_read,
            final(self).is_interesting == old(self).is_interesting,
    {
        broadcast use vstd::std_specs::hash::group_hash_axioms;

        self.found_but_unused_multiappends.remove(&id)
    }

    /// Gets the chain ready for the search for the piece of append `id`, of
    /// which `index` is known (0: nothing is), as [`multi_part_prepared`]
    /// says. Hands back where the piece was found before, if it was, and the
    /// entry that a raised horizon has freed.
    pub fn prepare_multi_part(&mut self, id: u128, index: u32) -> (found: (Option<u32>, Option<Entry>))
        ensures
            multi_part_prepared(*old(self), id, index, *final(self), found.0, found.1),
    {
        let early = self.take_early_sentinel(id);
        let potential_new_horizon = match early {
            Some(loc) => loc,
            None => index,
        };
        if index != 0 {
            let unblocked = self.update_horizon(potential_new_horizon);
            if self.last_read_sent_to_server == index - 1 {
                self.last_read_sent_to_server = index;
            }
            (early, unblocked)
        } else if early.is_some() {
            (early, None)
        } else {
            self.increment_multi_search();
            (early, None)
        }
    }

    pub fn has_outstanding_reads(&self) -> (b: bool)
        ensures
            b == (self.outstanding_reads > 0),
    {
        self.outstanding_reads > 0
    }

    pub fn has_outstanding_snapshots(&self) -> (b: bool)
        ensures
            b == self.spec_has_outstanding_snapshots(),
    {
        match &self.is_being_read {
            Some(state) => state.outstanding_snapshots > 0,
            None => false,
        }
    }

    pub fn finished_until_snapshot(&self) -> (b: bool)
        ensures
            b == self.spec_finished_until_snapshot(),
    {
        self.last_returned_to_client == self.last_snapshot && !self.has_outstanding_snapshots()
    }

    /// Whether the chain is caught up to its horizon with no pending work.
    pub fn is_finished(&self) -> (b: bool)
        ensures
            b == self.spec_is_finished(),
    {
        self.finished_until_snapshot() && !(self.is_searching_for_multi()
            || self.has_outstanding_snapshots())
    }
}

} // verus!
