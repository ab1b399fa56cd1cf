//! Entries that wait for positions to be delivered.
//!
//! An entry that cannot be delivered yet is kept here together with the
//! positions it still waits for. Once the last of them is released, the entry
//! is handed back to whoever released it.
use vstd::prelude::*;
use crate::packets::{Entry, EntryView, OrderIndex};

verus! {

/// An entry, and the positions whose delivery it waits for.
pub struct Blocked {
    pub entry: Entry,
    pub waits: Vec<OrderIndex>,
}

/// The mathematical value of a [`Blocked`]: which positions are waited for
/// matters, how often and in which order they are listed does not.
pub struct BlockedView {
    pub entry: EntryView,
    pub waits: Set<OrderIndex>,
}

/// The positions that occur in `waits`.
pub open spec fn wait_set(waits: Seq<OrderIndex>) -> Set<OrderIndex> {
    Set::new(|p: OrderIndex| waits.contains(p))
}

impl View for Blocked {
    type V = BlockedView;

    open spec fn view(&self) -> BlockedView {
        BlockedView { entry: self.entry@, waits: wait_set(self.waits@) }
    }
}

/// All entries that wait, oldest first.
pub struct Blockers {
    pub blocked: Vec<Blocked>,
}

impl View for Blockers {
    type V = Seq<BlockedView>;

    open spec fn view(&self) -> Seq<BlockedView> {
        self.blocked@.map_values(|b: Blocked| b@)
    }
}

/// `b` waits for nothing but `loc`.
pub open spec fn freed_by(b: BlockedView, loc: OrderIndex) -> bool {
    b.waits.subset_of(set![loc])
}

/// The entries that wait on after `loc` was released: those that waited for
/// something else too, in their old order, and no longer waiting for `loc`.
pub open spec fn after_release(blocked: Seq<BlockedView>, loc: OrderIndex) -> Seq<BlockedView>
    decreases blocked.len(),
{
    if blocked.len() == 0 {
        Seq::empty()
    } else {
        let rest = after_release(blocked.drop_last(), loc);
        let b = blocked.last();
        if freed_by(b, loc) {
            rest
        } else {
            rest.push(BlockedView { entry: b.entry, waits: b.waits.remove(loc) })
        }
    }
}

/// The entries that the release of `loc` sets free: those that waited for
/// nothing else, in their old order.
pub open spec fn released(blocked: Seq<BlockedView>, loc: OrderIndex) -> Seq<EntryView>
    decreases blocked.len(),
{
    if blocked.len() == 0 {
        Seq::empty()
    } else {
        let rest = released(blocked.drop_last(), loc);
        let b = blocked.last();
        if freed_by(b, loc) {
            rest.push(b.entry)
        } else {
            rest
        }
    }
}

/// Every entry that waits on after a release waited before it, for the same
/// positions but the released one.
pub proof fn lemma_after_release_from(blocked: Seq<BlockedView>, loc: OrderIndex, k: int)
    requires
        0 <= k < after_release(blocked, loc).len(),
    ensures
        exists|j: int|
            0 <= j < blocked.len() && (#[trigger] blocked[j]).entry == after_release(
                blocked,
                loc,
            )[k].entry && after_release(blocked, loc)[k].waits == blocked[j].waits.remove(loc)
                && !freed_by(blocked[j], loc),
    decreases blocked.len(),
{
    let rest = after_release(blocked.drop_last(), loc);
    if k < rest.len() {
        lemma_after_release_from(blocked.drop_last(), loc, k);
    }
}

/// Every entry that a release sets free waited before it, and for nothing
/// but the released position.
pub proof fn lemma_released_from(blocked: Seq<BlockedView>, loc: OrderIndex, k: int)
    requires
        0 <= k < released(blocked, loc).len(),
    ensures
        exists|j: int|
            0 <= j < blocked.len() && (#[trigger] blocked[j]).entry == released(blocked, loc)[k]
                && freed_by(blocked[j], loc),
    decreases blocked.len(),
{
    let rest = released(blocked.drop_last(), loc);
    if k < rest.len() {
        lemma_released_from(blocked.drop_last(), loc, k);
    }
}

/// A release neither loses an entry nor makes one up.
pub proof fn lemma_release_keeps_count(blocked: Seq<BlockedView>, loc: OrderIndex)
    ensures
        after_release(blocked, loc).len() + released(blocked, loc).len() == blocked.len(),
    decreases blocked.len(),
{
    if blocked.len() > 0 {
        lemma_release_keeps_count(blocked.drop_last(), loc);
    }
}

/// The positions of `waits` other than `loc`, in their old order.
fn strip(waits: &Vec<OrderIndex>, loc: OrderIndex) -> (kept: Vec<OrderIndex>)
    ensures
        wait_set(kept@) == wait_set(waits@).remove(loc),
        (kept@.len() == 0) == wait_set(waits@).subset_of(set![loc]),
{
    let mut kept: Vec<OrderIndex> = Vec::new();
    let mut i: usize = 0;
    while i < waits.len()
        invariant
            i <= waits@.len(),
            forall|p: OrderIndex| kept@.contains(p) <==> (waits@.take(i as int).contains(p) && p != loc),
        decreases waits@.len() - i,
    {
        let w = waits[i];
        let ghost before = kept@;
        if w != loc {
            kept.push(w);
        }
        proof {
            let t1 = waits@.take(i + 1);
            assert forall|p: OrderIndex| kept@.contains(p) <==> (t1.contains(p) && p != loc) by {
                assert(t1[i as int] == w);
                if w != loc {
                    assert(kept@[before.len() as int] == w);
                    if before.contains(p) {
                        let j = choose|j: int| 0 <= j < before.len() && before[j] == p;
                        assert(kept@[j] == p);
                    }
                }
            }
        }
        i = i + 1;
    }
    proof {
        assert(waits@.take(i as int) =~= waits@);
        if kept@.len() > 0 {
            assert(kept@.contains(kept@[0]));
            assert(wait_set(waits@).contains(kept@[0]));
        }
        if !wait_set(waits@).subset_of(set![loc]) {
            let p = choose|p: OrderIndex| wait_set(waits@).contains(p) && !set![loc].contains(p);
            assert(kept@.contains(p));
        }
    }
    kept
}

impl Blockers {
    pub fn new() -> (blockers: Blockers)
        ensures
            blockers@.len() == 0,
    {
        Blockers { blocked: Vec::new() }
    }

    /// How many entries wait.
    pub fn len(&self) -> (n: usize)
        ensures
            n == self@.len(),
    {
        self.blocked.len()
    }

    /// Keeps `entry` until each of `waits` has been released.
    pub fn block(&mut self, entry: Entry, waits: Vec<OrderIndex>)
        ensures
            final(self)@ == old(self)@.push(
                BlockedView { entry: entry@, waits: wait_set(waits@) },
            ),
    {
        self.blocked.push(Blocked { entry, waits });
    }

    /// Releases `loc`: no entry waits for it any longer. The entries that
    /// waited for nothing else are taken out and handed back, oldest first.
    pub fn release(&mut self, loc: OrderIndex) -> (freed: Vec<Entry>)
        ensures
            final(self)@ == after_release(old(self)@, loc),
            freed@.map_values(|e: Entry| e@) == released(old(self)@, loc),
    {
        let mut freed: Vec<Entry> = Vec::new();
        let mut i: usize = 0;
        let ghost mut done: int = 0;
        let ghost start = self@;
        while i < self.blocked.len()
            invariant
                0 <= done <= start.len(),
                i <= self.blocked@.len(),
                self@.len() == i + (start.len() - done),
                self@.take(i as int) == after_release(start.take(done), loc),
                self@.skip(i as int) == start.skip(done),
                freed@.map_values(|e: Entry| e@) == released(start.take(done), loc),
            decreases start.len() - done,
        {
            let ghost before = self@;
            let ghost b = start[done];
            proof {
                assert(self@[i as int] == self@.skip(i as int)[0]);
                assert(start.take(done + 1).drop_last() =~= start.take(done));
            }
            let kept = strip(&self.blocked[i].waits, loc);
            if kept.len() == 0 {
                let gone = self.blocked.remove(i);
                freed.push(gone.entry);
                proof {
                    assert(self@.skip(i as int) =~= before.skip(i as int).skip(1));
                }
            } else {
                self.blocked[i].waits = kept;
                proof {
                    assert(self@.skip(i + 1) =~= before.skip(i as int).skip(1));
                }
                i = i + 1;
            }
            proof {
                done = done + 1;
            }
        }
        proof {
            assert(start.take(done) =~= start);
        }
        freed
    }
}

} // verus!
