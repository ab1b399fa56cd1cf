//! What the engine hands out while it handles a message.
use vstd::prelude::*;
use crate::model::{Event, is_sink_item, sink_of};
use crate::packets::{Entry, EntryKind, EntryLayout, EntryView, frames, OrderIndex};

verus! {

/// Everything that handling one message sends out, in the order in which it
/// was sent, and the trace of what was delivered.
pub struct Effects {
    /// Requests to the storage tier: fetches, and appends passed through.
    pub to_store: Vec<Vec<u8>>,
    /// The application's queue of reads: the wire form of each delivered
    /// entry, and an empty buffer for each snapshot that is complete.
    pub ready_reads: Vec<Vec<u8>>,
    /// Completed writes, passed through to the application.
    pub finished_writes: Vec<(u128, Vec<OrderIndex>)>,
    /// What was delivered, surfaced or not, and which snapshots completed.
    pub trace: Ghost<Seq<Event>>,
}

/// The request to read position `index` of `chain`.
pub open spec fn read_request(chain: u32, index: u32) -> EntryView {
    EntryView {
        kind: EntryKind { layout: EntryLayout::Read, read_success: false },
        id: 0,
        locs: seq![OrderIndex(chain, index)],
        deps: Seq::empty(),
        data: Seq::empty(),
    }
}

/// `bytes` is the request to read position `index` of `chain`.
pub open spec fn is_fetch(bytes: Seq<u8>, chain: u32, index: u32) -> bool {
    frames(read_request(chain, index), bytes)
}

impl Effects {
    /// The queue of reads holds what the trace says was put into it.
    pub open spec fn wf(&self) -> bool {
        &&& self.ready_reads@.len() == sink_of(self.trace@).len()
        &&& forall|i: int|
            0 <= i < self.ready_reads@.len() ==> is_sink_item(
                sink_of(self.trace@)[i],
                (#[trigger] self.ready_reads@[i])@,
            )
    }

    /// `self` is `before` with more sent to the storage tier, and nothing
    /// else.
    pub open spec fn sent_more(&self, before: Effects) -> bool {
        &&& before.to_store@.len() <= self.to_store@.len()
        &&& self.to_store@.take(before.to_store@.len() as int) == before.to_store@
        &&& self.ready_reads@ == before.ready_reads@
        &&& self.finished_writes@ == before.finished_writes@
        &&& self.trace@ == before.trace@
    }

    /// `self` is `before` with more handed out: to the storage tier, into
    /// the queue of reads, and of completed writes.
    pub open spec fn grew_from(&self, before: Effects) -> bool {
        &&& before.to_store@.len() <= self.to_store@.len()
        &&& self.to_store@.take(before.to_store@.len() as int) == before.to_store@
        &&& before.ready_reads@.len() <= self.ready_reads@.len()
        &&& self.ready_reads@.take(before.ready_reads@.len() as int) == before.ready_reads@
        &&& before.finished_writes@.len() <= self.finished_writes@.len()
        &&& self.finished_writes@.take(before.finished_writes@.len() as int)
            == before.finished_writes@
        &&& before.trace@.len() <= self.trace@.len()
        &&& self.trace@.take(before.trace@.len() as int) == before.trace@
    }

    pub fn new() -> (fx: Effects)
        ensures
            fx.wf(),
            fx.to_store@.len() == 0,
            fx.ready_reads@.len() == 0,
            fx.finished_writes@.len() == 0,
            fx.trace@.len() == 0,
    {
        Effects {
            to_store: Vec::new(),
            ready_reads: Vec::new(),
            finished_writes: Vec::new(),
            trace: Ghost(Seq::empty()),
        }
    }

    /// Sends `packet` to the storage tier.
    pub fn send(&mut self, packet: Vec<u8>)
        ensures
            final(self).to_store@ == old(self).to_store@.push(packet),
            final(self).sent_more(*old(self)),
            old(self).wf() ==> final(self).wf(),
    {
        self.to_store.push(packet);
        assert(self.to_store@.take(old(self).to_store@.len() as int) =~= old(self).to_store@);
    }

    /// Takes note that `entry` was delivered, and puts its wire form into the
    /// queue of reads where it is `surfaced`.
    pub fn deliver(&mut self, entry: &Entry, surfaced: bool)
        requires
            old(self).wf(),
            entry@.encodable(),
        ensures
            final(self).wf(),
            final(self).trace@ == old(self).trace@.push(
                Event::Delivered { entry: entry@, surfaced },
            ),
            final(self).grew_from(*old(self)),
            final(self).to_store@ == old(self).to_store@,
            final(self).finished_writes@ == old(self).finished_writes@,
            final(self).ready_reads@.len() == old(self).ready_reads@.len() + (if surfaced {
                1int
            } else {
                0int
            }),
            surfaced ==> frames(entry@, final(self).ready_reads@.last()@),
    {
        let ghost event = Event::Delivered { entry: entry@, surfaced };
        if surfaced {
            let bytes = entry.encode(Vec::new());
            self.ready_reads.push(bytes);
        }
        self.trace = Ghost(self.trace@.push(event));
        proof {
            assert(self.trace@.drop_last() =~= old(self).trace@);
            assert(self.to_store@.take(old(self).to_store@.len() as int) =~= old(self).to_store@);
            assert(self.ready_reads@.take(old(self).ready_reads@.len() as int) =~= old(
                self,
            ).ready_reads@);
            assert(self.finished_writes@.take(old(self).finished_writes@.len() as int) =~= old(
                self,
            ).finished_writes@);
        }
    }

    /// Tells the application that a snapshot is complete: an empty buffer
    /// goes into the queue of reads.
    pub fn snapshot_done(&mut self)
        requires
            old(self).wf(),
        ensures
            final(self).wf(),
            final(self).trace@ == old(self).trace@.push(Event::SnapshotDone),
            final(self).grew_from(*old(self)),
            final(self).to_store@ == old(self).to_store@,
            final(self).finished_writes@ == old(self).finished_writes@,
            final(self).ready_reads@.len() == old(self).ready_reads@.len() + 1,
            final(self).ready_reads@.last()@.len() == 0,
    {
        self.ready_reads.push(Vec::new());
        self.trace = Ghost(self.trace@.push(Event::SnapshotDone));
        proof {
            assert(self.trace@.drop_last() =~= old(self).trace@);
            assert(self.to_store@.take(old(self).to_store@.len() as int) =~= old(self).to_store@);
            assert(self.ready_reads@.take(old(self).ready_reads@.len() as int) =~= old(
                self,
            ).ready_reads@);
            assert(self.finished_writes@.take(old(self).finished_writes@.len() as int) =~= old(
                self,
            ).finished_writes@);
        }
    }

    /// Passes a completed write on to the application.
    pub fn write_done(&mut self, id: u128, locs: Vec<OrderIndex>)
        ensures
            final(self).finished_writes@ == old(self).finished_writes@.push((id, locs)),
            final(self).to_store@ == old(self).to_store@,
            final(self).ready_reads@ == old(self).ready_reads@,
            final(self).trace@ == old(self).trace@,
            final(self).grew_from(*old(self)),
            old(self).wf() ==> final(self).wf(),
    {
        self.finished_writes.push((id, locs));
        proof {
            assert(self.to_store@.take(old(self).to_store@.len() as int) =~= old(self).to_store@);
            assert(self.ready_reads@.take(old(self).ready_reads@.len() as int) =~= old(
                self,
            ).ready_reads@);
            assert(self.trace@.take(old(self).trace@.len() as int) =~= old(self).trace@);
            assert(self.finished_writes@.take(old(self).finished_writes@.len() as int) =~= old(
                self,
            ).finished_writes@);
        }
    }
}

/// What was handed out has grown from itself, by nothing.
pub proof fn lemma_grew_refl(a: Effects)
    ensures
        a.sent_more(a),
        a.grew_from(a),
{
    assert(a.to_store@.take(a.to_store@.len() as int) =~= a.to_store@);
    assert(a.ready_reads@.take(a.ready_reads@.len() as int) =~= a.ready_reads@);
    assert(a.trace@.take(a.trace@.len() as int) =~= a.trace@);
    assert(a.finished_writes@.take(a.finished_writes@.len() as int) =~= a.finished_writes@);
}

/// Growing is transitive.
pub proof fn lemma_grew_trans(a: Effects, b: Effects, c: Effects)
    requires
        b.grew_from(a),
        c.grew_from(b),
    ensures
        c.grew_from(a),
{
    assert(c.to_store@.take(a.to_store@.len() as int) =~= c.to_store@.take(
        b.to_store@.len() as int,
    ).take(a.to_store@.len() as int));
    assert(c.ready_reads@.take(a.ready_reads@.len() as int) =~= c.ready_reads@.take(
        b.ready_reads@.len() as int,
    ).take(a.ready_reads@.len() as int));
    assert(c.trace@.take(a.trace@.len() as int) =~= c.trace@.take(b.trace@.len() as int).take(
        a.trace@.len() as int,
    ));
    assert(c.finished_writes@.take(a.finished_writes@.len() as int) =~= c.finished_writes@.take(
        b.finished_writes@.len() as int,
    ).take(a.finished_writes@.len() as int));
}

/// Sending more is growing.
pub proof fn lemma_sent_more_grew(a: Effects, b: Effects)
    requires
        b.sent_more(a),
    ensures
        b.grew_from(a),
{
    assert(b.ready_reads@.take(a.ready_reads@.len() as int) =~= a.ready_reads@);
    assert(b.trace@.take(a.trace@.len() as int) =~= a.trace@);
    assert(b.finished_writes@.take(a.finished_writes@.len() as int) =~= a.finished_writes@);
}

/// Sending more after sending more is sending more.
pub proof fn lemma_sent_more_trans(a: Effects, b: Effects, c: Effects)
    requires
        b.sent_more(a),
        c.sent_more(b),
    ensures
        c.sent_more(a),
{
    assert(c.to_store@.take(a.to_store@.len() as int) =~= c.to_store@.take(
        b.to_store@.len() as int,
    ).take(a.to_store@.len() as int));
}

} // verus!
