//! The vocabulary in which the engine's contracts are stated: what has been
//! delivered on which chain, when an entry may be delivered, and what a trace
//! of deliveries does to the chains.
use vstd::prelude::*;
use crate::blockers::BlockedView;
use crate::packets::{chains_distinct, EntryView, frames, OrderIndex};
use crate::per_chain::PerChain;

verus! {

/// There is a state for chain `c`.
pub open spec fn has_chain(chains: Seq<PerChain>, c: u32) -> bool {
    exists|i: int| 0 <= i < chains.len() && (#[trigger] chains[i]).chain == c
}

/// Where the state of chain `c` is.
pub open spec fn slot_of(chains: Seq<PerChain>, c: u32) -> int {
    choose|i: int| 0 <= i < chains.len() && (#[trigger] chains[i]).chain == c
}

/// No chain has two states.
pub open spec fn unique_chains(chains: Seq<PerChain>) -> bool {
    forall|i: int, j: int|
        0 <= i < j < chains.len() ==> (#[trigger] chains[i]).chain != (#[trigger] chains[j]).chain
}

/// The highest index delivered on chain `c`; 0 where nothing was.
pub open spec fn cursor(chains: Seq<PerChain>, c: u32) -> u32 {
    if has_chain(chains, c) {
        chains[slot_of(chains, c)].last_returned_to_client
    } else {
        0
    }
}

/// The horizon of chain `c`; 0 for a chain without a state.
pub open spec fn horizon(chains: Seq<PerChain>, c: u32) -> u32 {
    if has_chain(chains, c) {
        chains[slot_of(chains, c)].last_snapshot
    } else {
        0
    }
}

/// Whether entries of chain `c` are handed to the application.
pub open spec fn interesting(chains: Seq<PerChain>, c: u32) -> bool {
    has_chain(chains, c) && chains[slot_of(chains, c)].is_interesting
}

/// Position `p` has been delivered.
pub open spec fn delivered(chains: Seq<PerChain>, p: OrderIndex) -> bool {
    p.1 <= cursor(chains, p.0)
}

/// The position before `p` on its chain.
pub open spec fn predecessor(p: OrderIndex) -> OrderIndex {
    OrderIndex(p.0, (p.1 - 1) as u32)
}

/// From `a` to `b`, every chain kept its place, its name and whether it is
/// interesting; no cursor and no horizon went down; chains may have been
/// added, with nothing delivered on them that was not delivered before.
pub open spec fn chains_advance(a: Seq<PerChain>, b: Seq<PerChain>) -> bool {
    &&& a.len() <= b.len()
    &&& forall|i: int|
        0 <= i < a.len() ==> {
            &&& (#[trigger] b[i]).chain == a[i].chain
            &&& b[i].is_interesting == a[i].is_interesting
            &&& a[i].last_returned_to_client <= b[i].last_returned_to_client
            &&& a[i].last_snapshot <= b[i].last_snapshot
        }
}

/// As [`chains_advance`], and no cursor moved: nothing was delivered.
pub open spec fn chains_rest(a: Seq<PerChain>, b: Seq<PerChain>) -> bool {
    &&& chains_advance(a, b)
    &&& forall|i: int|
        0 <= i < b.len() ==> (#[trigger] b[i]).last_returned_to_client == (if i < a.len() {
            a[i].last_returned_to_client
        } else {
            0
        })
}

/// An entry that the engine can hold: it has a wire form, and it touches no
/// chain twice.
pub open spec fn entry_ok(e: EntryView) -> bool {
    e.encodable() && chains_distinct(e.locs)
}

/// Nothing stands between `e` and its delivery but the horizon: each of its
/// dependencies has been delivered, and each position it occupies is the next
/// one of its chain or an earlier one.
pub open spec fn ready(e: EntryView, chains: Seq<PerChain>) -> bool {
    &&& forall|k: int|
        0 <= k < e.locs.len() && (#[trigger] e.locs[k]).0 != 0 ==> e.locs[k].1 <= cursor(
            chains,
            e.locs[k].0,
        ) + 1
    &&& forall|k: int| 0 <= k < e.deps.len() ==> delivered(chains, #[trigger] e.deps[k])
}

/// `b` waits for whatever stands between its entry and delivery: for each
/// dependency that has not been delivered, and for the predecessor of each
/// position it occupies that is not the next one of its chain.
pub open spec fn held(b: BlockedView, chains: Seq<PerChain>) -> bool {
    &&& forall|k: int|
        0 <= k < b.entry.locs.len() && (#[trigger] b.entry.locs[k]).0 != 0 ==> b.entry.locs[k].1
            <= cursor(chains, b.entry.locs[k].0) + 1 || b.waits.contains(
            predecessor(b.entry.locs[k]),
        )
    &&& forall|k: int|
        0 <= k < b.entry.deps.len() ==> delivered(chains, #[trigger] b.entry.deps[k])
            || b.waits.contains(b.entry.deps[k])
}

/// `b` does wait: for something, and for nothing that has been delivered,
/// but for the positions of `worklist`, whose waiters are about to be
/// released.
pub open spec fn waiting(b: BlockedView, chains: Seq<PerChain>, worklist: Seq<OrderIndex>) -> bool {
    &&& exists|p: OrderIndex| b.waits.contains(p)
    &&& forall|p: OrderIndex|
        b.waits.contains(p) ==> !delivered(chains, p) || worklist.contains(p)
}

/// In a sequence without doubles a state is found where it is.
pub proof fn lemma_slot_of(chains: Seq<PerChain>, i: int)
    requires
        unique_chains(chains),
        0 <= i < chains.len(),
    ensures
        has_chain(chains, chains[i].chain),
        slot_of(chains, chains[i].chain) == i,
        cursor(chains, chains[i].chain) == chains[i].last_returned_to_client,
        horizon(chains, chains[i].chain) == chains[i].last_snapshot,
        interesting(chains, chains[i].chain) == chains[i].is_interesting,
{
}

/// What [`chains_advance`] means for one chain.
pub proof fn lemma_advance_chain(a: Seq<PerChain>, b: Seq<PerChain>, c: u32)
    requires
        unique_chains(a),
        unique_chains(b),
        chains_advance(a, b),
    ensures
        cursor(a, c) <= cursor(b, c),
        horizon(a, c) <= horizon(b, c),
        has_chain(a, c) ==> has_chain(b, c) && slot_of(b, c) == slot_of(a, c) && interesting(b, c)
            == interesting(a, c),
{
    if has_chain(a, c) {
        let i = slot_of(a, c);
        assert(b[i].chain == c);
    }
}

/// What [`chains_rest`] means for one chain.
pub proof fn lemma_rest_chain(a: Seq<PerChain>, b: Seq<PerChain>, c: u32)
    requires
        unique_chains(a),
        unique_chains(b),
        chains_rest(a, b),
    ensures
        cursor(a, c) == cursor(b, c),
{
    if has_chain(a, c) {
        let i = slot_of(a, c);
        assert(b[i].chain == c);
    }
}

/// An entry that was ready stays ready as the chains advance.
pub proof fn lemma_ready_advance(e: EntryView, a: Seq<PerChain>, b: Seq<PerChain>)
    requires
        unique_chains(a),
        unique_chains(b),
        chains_advance(a, b),
        ready(e, a),
    ensures
        ready(e, b),
{
    assert forall|k: int| 0 <= k < e.locs.len() && (#[trigger] e.locs[k]).0 != 0 implies e.locs[k].1
        <= cursor(b, e.locs[k].0) + 1 by {
        lemma_advance_chain(a, b, e.locs[k].0);
    }
    assert forall|k: int| 0 <= k < e.deps.len() implies delivered(b, #[trigger] e.deps[k]) by {
        lemma_advance_chain(a, b, e.deps[k].0);
    }
}

/// An entry that waited for enough still does as the chains advance.
pub proof fn lemma_held_advance(v: BlockedView, a: Seq<PerChain>, b: Seq<PerChain>)
    requires
        unique_chains(a),
        unique_chains(b),
        chains_advance(a, b),
        held(v, a),
    ensures
        held(v, b),
{
    assert forall|k: int|
        0 <= k < v.entry.locs.len() && (#[trigger] v.entry.locs[k]).0 != 0 implies v.entry.locs[k].1
        <= cursor(b, v.entry.locs[k].0) + 1 || v.waits.contains(predecessor(v.entry.locs[k])) by {
        lemma_advance_chain(a, b, v.entry.locs[k].0);
    }
    assert forall|k: int| 0 <= k < v.entry.deps.len() implies delivered(
        b,
        #[trigger] v.entry.deps[k],
    ) || v.waits.contains(v.entry.deps[k]) by {
        lemma_advance_chain(a, b, v.entry.deps[k].0);
    }
}

/// One thing that the engine did for the application.
pub enum Event {
    /// `entry` was delivered: every position it occupies was marked. Its
    /// bytes went to the application where `surfaced` is set.
    Delivered { entry: EntryView, surfaced: bool },
    /// The application was told that a snapshot is complete.
    SnapshotDone,
}

/// For each chain, the highest index delivered on it.
pub open spec fn cursor_map(chains: Seq<PerChain>) -> Map<u32, u32> {
    Map::new(|c: u32| true, |c: u32| cursor(chains, c))
}

/// The cursors `m` after the positions `locs` on real chains were marked.
pub open spec fn mark_all(m: Map<u32, u32>, locs: Seq<OrderIndex>) -> Map<u32, u32>
    decreases locs.len(),
{
    if locs.len() == 0 {
        m
    } else {
        let before = mark_all(m, locs.drop_last());
        if locs.last().0 != 0 {
            before.insert(locs.last().0, locs.last().1)
        } else {
            before
        }
    }
}

/// With the cursors at `m`, `e` may be delivered: each position it occupies
/// is the next of its chain, and each of its dependencies has been delivered.
pub open spec fn deliverable(m: Map<u32, u32>, e: EntryView) -> bool {
    &&& chains_distinct(e.locs)
    &&& forall|k: int|
        0 <= k < e.locs.len() && (#[trigger] e.locs[k]).0 != 0 ==> e.locs[k].1 == m[e.locs[k].0] + 1
    &&& forall|k: int| 0 <= k < e.deps.len() ==> (#[trigger] e.deps[k]).1 <= m[e.deps[k].0]
}

/// The cursors after `event`.
pub open spec fn after_event(m: Map<u32, u32>, event: Event) -> Map<u32, u32> {
    match event {
        Event::Delivered { entry, .. } => mark_all(m, entry.locs),
        Event::SnapshotDone => m,
    }
}

/// The cursors after the events of `trace`, one after the other.
pub open spec fn replay(m: Map<u32, u32>, trace: Seq<Event>) -> Map<u32, u32>
    decreases trace.len(),
{
    if trace.len() == 0 {
        m
    } else {
        after_event(replay(m, trace.drop_last()), trace.last())
    }
}

/// From the cursors `m` on, every delivery of `trace` was of an entry that
/// could be delivered then.
pub open spec fn trace_ok(m: Map<u32, u32>, trace: Seq<Event>) -> bool
    decreases trace.len(),
{
    if trace.len() == 0 {
        true
    } else {
        &&& trace_ok(m, trace.drop_last())
        &&& match trace.last() {
            Event::Delivered { entry, .. } => deliverable(replay(m, trace.drop_last()), entry),
            Event::SnapshotDone => true,
        }
    }
}

/// What the events of `trace` put into the application's queue: an entry for
/// each delivery that was surfaced, and nothing for each snapshot that is
/// complete.
pub open spec fn sink_of(trace: Seq<Event>) -> Seq<Option<EntryView>>
    decreases trace.len(),
{
    if trace.len() == 0 {
        Seq::empty()
    } else {
        let before = sink_of(trace.drop_last());
        match trace.last() {
            Event::Delivered { entry, surfaced } => if surfaced {
                before.push(Some(entry))
            } else {
                before
            },
            Event::SnapshotDone => before.push(None),
        }
    }
}

/// `bytes` is what goes into the application's queue for `item`: the wire
/// form of a delivered entry, or the empty marker.
pub open spec fn is_sink_item(item: Option<EntryView>, bytes: Seq<u8>) -> bool {
    match item {
        Some(e) => frames(e, bytes),
        None => bytes.len() == 0,
    }
}

/// The chains went from `a` to `b` by the events that `t1` has after `t0`,
/// each delivery in order and each allowed when it happened.
pub open spec fn steps(a: Seq<PerChain>, t0: Seq<Event>, b: Seq<PerChain>, t1: Seq<Event>) -> bool {
    &&& t0.len() <= t1.len()
    &&& t1.take(t0.len() as int) == t0
    &&& trace_ok(cursor_map(a), t1.skip(t0.len() as int))
    &&& cursor_map(b) == replay(cursor_map(a), t1.skip(t0.len() as int))
}

/// The events of two traces, one after the other, are replayed one trace
/// after the other.
pub proof fn lemma_replay_concat(m: Map<u32, u32>, s: Seq<Event>, t: Seq<Event>)
    ensures
        replay(m, s + t) == replay(replay(m, s), t),
        trace_ok(m, s + t) == (trace_ok(m, s) && trace_ok(replay(m, s), t)),
    decreases t.len(),
{
    if t.len() > 0 {
        lemma_replay_concat(m, s, t.drop_last());
        assert((s + t).drop_last() =~= s + t.drop_last());
    }
}

/// Steps without an event, on chains whose cursors did not move.
pub proof fn lemma_steps_rest(a: Seq<PerChain>, b: Seq<PerChain>, t: Seq<Event>)
    requires
        unique_chains(a),
        unique_chains(b),
        chains_rest(a, b),
    ensures
        steps(a, t, b, t),
{
    assert(t.take(t.len() as int) =~= t);
    assert forall|c: u32| cursor(a, c) == cursor(b, c) by {
        lemma_rest_chain(a, b, c);
    }
    assert(cursor_map(b) =~= cursor_map(a));
}

/// Steps after steps are steps.
pub proof fn lemma_steps_trans(
    a: Seq<PerChain>,
    t0: Seq<Event>,
    b: Seq<PerChain>,
    t1: Seq<Event>,
    c: Seq<PerChain>,
    t2: Seq<Event>,
)
    requires
        steps(a, t0, b, t1),
        steps(b, t1, c, t2),
    ensures
        steps(a, t0, c, t2),
{
    let d1 = t1.skip(t0.len() as int);
    let d2 = t2.skip(t1.len() as int);
    assert(t2.take(t0.len() as int) =~= t2.take(t1.len() as int).take(t0.len() as int));
    assert(t2.skip(t0.len() as int) =~= d1 + d2);
    lemma_replay_concat(cursor_map(a), d1, d2);
}

/// One more event at the end of a trace.
pub proof fn lemma_steps_push(
    a: Seq<PerChain>,
    t: Seq<Event>,
    b: Seq<PerChain>,
    event: Event,
)
    requires
        cursor_map(b) == after_event(cursor_map(a), event),
        event matches Event::Delivered { entry, .. } ==> deliverable(cursor_map(a), entry),
    ensures
        steps(a, t, b, t.push(event)),
{
    reveal_with_fuel(trace_ok, 2);
    reveal_with_fuel(replay, 2);
    let t1 = t.push(event);
    assert(t1.take(t.len() as int) =~= t);
}

/// `e` occupies a position that has been delivered already.
pub open spec fn is_duplicate(e: EntryView, chains: Seq<PerChain>) -> bool {
    exists|k: int| 0 <= k < e.locs.len() && (#[trigger] e.locs[k]).0 != 0 && delivered(chains, e.locs[k])
}

/// Position `p` is on a real chain whose horizon has not reached it.
pub open spec fn beyond_horizon(chains: Seq<PerChain>, p: OrderIndex) -> bool {
    p.0 != 0 && p.1 > horizon(chains, p.0)
}

/// The last of the positions `locs` that is beyond the horizon of its chain;
/// -1 where none is.
pub open spec fn last_beyond(locs: Seq<OrderIndex>, chains: Seq<PerChain>) -> int
    decreases locs.len(),
{
    if locs.len() == 0 {
        -1
    } else if beyond_horizon(chains, locs.last()) {
        locs.len() - 1
    } else {
        last_beyond(locs.drop_last(), chains)
    }
}

/// `e` occupies a position on an interesting chain.
pub open spec fn touches_interesting(locs: Seq<OrderIndex>, chains: Seq<PerChain>) -> bool {
    exists|k: int| 0 <= k < locs.len() && (#[trigger] locs[k]).0 != 0 && interesting(chains, locs[k].0)
}

/// The positions of `locs` that are on a real chain, in their order.
pub open spec fn real_positions(locs: Seq<OrderIndex>) -> Seq<OrderIndex>
    decreases locs.len(),
{
    if locs.len() == 0 {
        Seq::empty()
    } else if locs.last().0 != 0 {
        real_positions(locs.drop_last()).push(locs.last())
    } else {
        real_positions(locs.drop_last())
    }
}

/// What [`last_beyond`] finds is a position beyond its horizon, and no
/// position after it is.
pub proof fn lemma_last_beyond(locs: Seq<OrderIndex>, chains: Seq<PerChain>)
    ensures
        -1 <= last_beyond(locs, chains) < locs.len(),
        last_beyond(locs, chains) >= 0 ==> beyond_horizon(chains, locs[last_beyond(locs, chains)]),
        forall|k: int|
            last_beyond(locs, chains) < k < locs.len() ==> !beyond_horizon(chains, #[trigger] locs[k]),
    decreases locs.len(),
{
    if locs.len() > 0 && !beyond_horizon(chains, locs.last()) {
        lemma_last_beyond(locs.drop_last(), chains);
        assert forall|k: int| last_beyond(locs, chains) < k < locs.len() implies !beyond_horizon(
            chains,
            #[trigger] locs[k],
        ) by {
            if k < locs.len() - 1 {
                assert(locs.drop_last()[k] == locs[k]);
            }
        }
    }
}

/// Marking positions moves the cursor of no chain that none of them is on.
pub proof fn lemma_mark_all_other(m: Map<u32, u32>, locs: Seq<OrderIndex>, c: u32)
    requires
        forall|k: int| 0 <= k < locs.len() ==> (#[trigger] locs[k]).0 != c || c == 0,
    ensures
        mark_all(m, locs)[c] == m[c],
    decreases locs.len(),
{
    if locs.len() > 0 {
        lemma_mark_all_other(m, locs.drop_last(), c);
    }
}

/// Marking positions on pairwise different chains puts the cursor of each of
/// their chains at the position.
pub proof fn lemma_mark_all_at(m: Map<u32, u32>, locs: Seq<OrderIndex>, k: int)
    requires
        chains_distinct(locs),
        0 <= k < locs.len(),
        locs[k].0 != 0,
    ensures
        mark_all(m, locs)[locs[k].0] == locs[k].1,
    decreases locs.len(),
{
    if k < locs.len() - 1 {
        lemma_mark_all_at(m, locs.drop_last(), k);
    }
}

/// Changing the state of one chain, but not its name, changes what is known
/// of that chain only.
pub proof fn lemma_update_chain(chains: Seq<PerChain>, i: int, pc: PerChain, c: u32)
    requires
        unique_chains(chains),
        0 <= i < chains.len(),
        pc.chain == chains[i].chain,
    ensures
        has_chain(chains.update(i, pc), c) == has_chain(chains, c),
        cursor(chains.update(i, pc), c) == (if c == pc.chain {
            pc.last_returned_to_client
        } else {
            cursor(chains, c)
        }),
        horizon(chains.update(i, pc), c) == (if c == pc.chain {
            pc.last_snapshot
        } else {
            horizon(chains, c)
        }),
        interesting(chains.update(i, pc), c) == (if c == pc.chain {
            pc.is_interesting
        } else {
            interesting(chains, c)
        }),
{
    let b = chains.update(i, pc);
    if has_chain(chains, c) {
        let j = slot_of(chains, c);
        assert(b[j].chain == c);
    }
}

/// The dependencies among `deps` that have not been delivered, in their
/// order.
pub open spec fn dep_waits(deps: Seq<OrderIndex>, chains: Seq<PerChain>) -> Seq<OrderIndex>
    decreases deps.len(),
{
    if deps.len() == 0 {
        Seq::empty()
    } else if !delivered(chains, deps.last()) {
        dep_waits(deps.drop_last(), chains).push(deps.last())
    } else {
        dep_waits(deps.drop_last(), chains)
    }
}

/// Position `p` is on a real chain and beyond the next position of it.
pub open spec fn out_of_turn(chains: Seq<PerChain>, p: OrderIndex) -> bool {
    p.0 != 0 && p.1 > cursor(chains, p.0) + 1
}

/// The predecessors of the positions among `locs` that are beyond the next
/// position of their chain, in their order.
pub open spec fn loc_waits(locs: Seq<OrderIndex>, chains: Seq<PerChain>) -> Seq<OrderIndex>
    decreases locs.len(),
{
    if locs.len() == 0 {
        Seq::empty()
    } else if out_of_turn(chains, locs.last()) {
        loc_waits(locs.drop_last(), chains).push(predecessor(locs.last()))
    } else {
        loc_waits(locs.drop_last(), chains)
    }
}

/// What stands between `e` and its delivery, the horizon aside: each of its
/// dependencies that has not been delivered, and the predecessor of each
/// position it occupies that is not the next one of its chain.
pub open spec fn must_wait_for(e: EntryView, chains: Seq<PerChain>) -> Seq<OrderIndex> {
    dep_waits(e.deps, chains) + loc_waits(e.locs, chains)
}

/// What [`dep_waits`] holds.
pub proof fn lemma_dep_waits(deps: Seq<OrderIndex>, chains: Seq<PerChain>)
    ensures
        forall|p: OrderIndex| dep_waits(deps, chains).contains(p) ==> !delivered(chains, p),
        forall|k: int|
            0 <= k < deps.len() ==> delivered(chains, #[trigger] deps[k]) || dep_waits(
                deps,
                chains,
            ).contains(deps[k]),
    decreases deps.len(),
{
    if deps.len() > 0 {
        let init = deps.drop_last();
        let w0 = dep_waits(init, chains);
        let w = dep_waits(deps, chains);
        lemma_dep_waits(init, chains);
        assert forall|k: int| 0 <= k < deps.len() implies delivered(chains, #[trigger] deps[k])
            || w.contains(deps[k]) by {
            if k < init.len() {
                assert(init[k] == deps[k]);
                if w0.contains(deps[k]) {
                    let x = choose|x: int| 0 <= x < w0.len() && w0[x] == deps[k];
                    assert(w[x] == deps[k]);
                }
            } else if !delivered(chains, deps[k]) {
                assert(w[w0.len() as int] == deps[k]);
            }
        }
    }
}

/// What [`loc_waits`] holds.
pub proof fn lemma_loc_waits(locs: Seq<OrderIndex>, chains: Seq<PerChain>)
    ensures
        forall|p: OrderIndex| loc_waits(locs, chains).contains(p) ==> !delivered(chains, p),
        forall|k: int|
            0 <= k < locs.len() && out_of_turn(chains, #[trigger] locs[k]) ==> loc_waits(
                locs,
                chains,
            ).contains(predecessor(locs[k])),
    decreases locs.len(),
{
    if locs.len() > 0 {
        let init = locs.drop_last();
        let w0 = loc_waits(init, chains);
        let w = loc_waits(locs, chains);
        lemma_loc_waits(init, chains);
        assert forall|k: int| 0 <= k < locs.len()
            && out_of_turn(chains, #[trigger] locs[k]) implies w.contains(
            predecessor(locs[k]),
        ) by {
            if k < init.len() {
                assert(init[k] == locs[k]);
                let x = choose|x: int| 0 <= x < w0.len() && w0[x] == predecessor(locs[k]);
                assert(w[x] == predecessor(locs[k]));
            } else {
                assert(w[w0.len() as int] == predecessor(locs[k]));
            }
        }
    }
}

/// An entry that waits for all of [`must_wait_for`] waits for enough, and
/// for nothing that has been delivered; one for which this is nothing is
/// ready.
pub proof fn lemma_must_wait_for(e: EntryView, chains: Seq<PerChain>)
    ensures
        held(
            BlockedView { entry: e, waits: Set::new(|p: OrderIndex| must_wait_for(e, chains).contains(p)) },
            chains,
        ),
        forall|p: OrderIndex| must_wait_for(e, chains).contains(p) ==> !delivered(chains, p),
        must_wait_for(e, chains).len() == 0 ==> ready(e, chains),
{
    let d = dep_waits(e.deps, chains);
    let l = loc_waits(e.locs, chains);
    let w = must_wait_for(e, chains);
    lemma_dep_waits(e.deps, chains);
    lemma_loc_waits(e.locs, chains);
    assert forall|p: OrderIndex| d.contains(p) implies w.contains(p) by {
        let x = choose|x: int| 0 <= x < d.len() && d[x] == p;
        assert(w[x] == p);
    }
    assert forall|p: OrderIndex| l.contains(p) implies w.contains(p) by {
        let x = choose|x: int| 0 <= x < l.len() && l[x] == p;
        assert(w[d.len() + x] == p);
    }
}

/// How many of the positions `locs` are on a real chain.
pub open spec fn count_real(locs: Seq<OrderIndex>) -> nat
    decreases locs.len(),
{
    if locs.len() == 0 {
        0
    } else if locs.last().0 != 0 {
        count_real(locs.drop_last()) + 1
    } else {
        count_real(locs.drop_last())
    }
}

/// The first of the positions `locs` that is on `chain`; -1 where none is.
pub open spec fn first_on_chain(locs: Seq<OrderIndex>, chain: u32) -> int
    decreases locs.len(),
{
    if locs.len() == 0 {
        -1
    } else if first_on_chain(locs.drop_last(), chain) >= 0 {
        first_on_chain(locs.drop_last(), chain)
    } else if locs.last().0 == chain {
        locs.len() - 1
    } else {
        -1
    }
}

/// What [`first_on_chain`] finds is a position on the chain.
pub proof fn lemma_first_on_chain(locs: Seq<OrderIndex>, chain: u32)
    ensures
        -1 <= first_on_chain(locs, chain) < locs.len(),
        first_on_chain(locs, chain) >= 0 ==> locs[first_on_chain(locs, chain)].0 == chain,
        first_on_chain(locs, chain) < 0 ==> forall|k: int|
            0 <= k < locs.len() ==> (#[trigger] locs[k]).0 != chain,
    decreases locs.len(),
{
    if locs.len() > 0 {
        lemma_first_on_chain(locs.drop_last(), chain);
        if first_on_chain(locs, chain) < 0 {
            assert forall|k: int| 0 <= k < locs.len() implies (#[trigger] locs[k]).0 != chain by {
                if k < locs.len() - 1 {
                    assert(locs.drop_last()[k] == locs[k]);
                }
            }
        }
    }
}

/// How many snapshots the events of `trace` report as complete.
pub open spec fn count_done(trace: Seq<Event>) -> nat
    decreases trace.len(),
{
    if trace.len() == 0 {
        0
    } else if trace.last() is SnapshotDone {
        count_done(trace.drop_last()) + 1
    } else {
        count_done(trace.drop_last())
    }
}

/// The trace `t1` is the trace `t0` with deliveries after it, and nothing
/// else.
pub open spec fn delivers_only(t0: Seq<Event>, t1: Seq<Event>) -> bool {
    &&& t0.len() <= t1.len()
    &&& t1.take(t0.len() as int) == t0
    &&& forall|k: int| t0.len() <= k < t1.len() ==> #[trigger] t1[k] is Delivered
}

/// Deliveries after deliveries are deliveries.
pub proof fn lemma_delivers_only_trans(t0: Seq<Event>, t1: Seq<Event>, t2: Seq<Event>)
    requires
        delivers_only(t0, t1),
        delivers_only(t1, t2),
    ensures
        delivers_only(t0, t2),
{
    assert(t2.take(t0.len() as int) =~= t2.take(t1.len() as int).take(t0.len() as int));
    assert forall|k: int| t0.len() <= k < t2.len() implies #[trigger] t2[k] is Delivered by {
        if k < t1.len() {
            assert(t2.take(t1.len() as int)[k] == t2[k]);
        }
    }
}

/// Deliveries report no snapshot as complete.
pub proof fn lemma_delivers_only_count(t0: Seq<Event>, t1: Seq<Event>)
    requires
        delivers_only(t0, t1),
    ensures
        count_done(t1) == count_done(t0),
    decreases t1.len(),
{
    if t1.len() > t0.len() {
        let init = t1.drop_last();
        assert(init.take(t0.len() as int) =~= t1.take(t0.len() as int));
        lemma_delivers_only_count(t0, init);
    } else {
        assert(t1.take(t0.len() as int) =~= t1);
    }
}

/// The chains `a` and the chains `b` say the same of every chain: what was
/// delivered on it, where its horizon is, and whether it is interesting.
pub open spec fn same_standing(a: Seq<PerChain>, b: Seq<PerChain>) -> bool {
    forall|c: u32|
        #![trigger cursor(b, c)]
        #![trigger horizon(b, c)]
        #![trigger interesting(b, c)]
        cursor(a, c) == cursor(b, c) && horizon(a, c) == horizon(b, c) && interesting(a, c)
            == interesting(b, c)
}

/// Whether and when an entry can be delivered depends on the standing of the
/// chains only.
pub proof fn lemma_same_standing(e: EntryView, a: Seq<PerChain>, b: Seq<PerChain>)
    requires
        same_standing(a, b),
    ensures
        is_duplicate(e, a) == is_duplicate(e, b),
        last_beyond(e.locs, a) == last_beyond(e.locs, b),
        touches_interesting(e.locs, a) == touches_interesting(e.locs, b),
        must_wait_for(e, a) == must_wait_for(e, b),
        ready(e, a) == ready(e, b),
{
    lemma_same_standing_seqs(e.locs, a, b);
    lemma_same_standing_seqs(e.deps, a, b);
}

/// What is found among positions depends on the standing of the chains
/// only.
pub proof fn lemma_same_standing_seqs(ps: Seq<OrderIndex>, a: Seq<PerChain>, b: Seq<PerChain>)
    requires
        same_standing(a, b),
    ensures
        last_beyond(ps, a) == last_beyond(ps, b),
        dep_waits(ps, a) == dep_waits(ps, b),
        loc_waits(ps, a) == loc_waits(ps, b),
    decreases ps.len(),
{
    if ps.len() > 0 {
        lemma_same_standing_seqs(ps.drop_last(), a, b);
    }
}

/// Changing the state of one chain, but not its name, its cursor, its
/// horizon or whether it is interesting, leaves the standing of the chains.
pub proof fn lemma_update_standing(chains: Seq<PerChain>, i: int, pc: PerChain)
    requires
        unique_chains(chains),
        0 <= i < chains.len(),
        pc.chain == chains[i].chain,
        pc.last_returned_to_client == chains[i].last_returned_to_client,
        pc.last_snapshot == chains[i].last_snapshot,
        pc.is_interesting == chains[i].is_interesting,
    ensures
        same_standing(chains, chains.update(i, pc)),
{
    let b = chains.update(i, pc);
    assert forall|c: u32|
        #![trigger cursor(b, c)]
        #![trigger horizon(b, c)]
        #![trigger interesting(b, c)]
        cursor(chains, c) == cursor(b, c) && horizon(chains, c) == horizon(b, c) && interesting(
            chains,
            c,
        ) == interesting(b, c) by {
        lemma_update_chain(chains, i, pc, c);
    }
}

/// From `a` to `b` no chain that `a` knows was fetched on, and none had its
/// horizon moved: its horizon, its read cursor and its count of fetches in
/// flight are as they were.
pub open spec fn fetching_kept(a: Seq<PerChain>, b: Seq<PerChain>) -> bool {
    &&& a.len() <= b.len()
    &&& forall|i: int|
        0 <= i < a.len() ==> (#[trigger] b[i]).last_snapshot == a[i].last_snapshot
            && b[i].last_read_sent_to_server == a[i].last_read_sent_to_server
            && b[i].outstanding_reads == a[i].outstanding_reads
            && b[i].found_but_unused_multiappends == a[i].found_but_unused_multiappends
}

} // verus!
