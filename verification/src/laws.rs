//! What holds of every run of the engine.
//!
//! The engine's functions promise that each of their steps keeps to
//! [`advanced`]: whatever was delivered is on the trace, and was allowed to
//! be delivered when it was. The laws below say what that means for the
//! application: entries of a chain come in order and without gaps, none
//! comes twice, none comes before what it depends on, and an entry on
//! several chains comes on all of them at once.
use vstd::prelude::*;
use crate::effects::{Effects, lemma_grew_refl};
use crate::model::{
    after_event, count_done, deliverable, Event, lemma_last_beyond, lemma_mark_all_at,
    lemma_mark_all_other, lemma_rest_chain, lemma_steps_rest, replay, trace_ok,
};
use crate::packets::{EntryView, OrderIndex};
use crate::thread_log::{
    advanced, Flow, FromClient, FromStore, handled, lemma_advanced_trans, Message, ran, ThreadLog,
};
use crate::thread_log::delivery::{Verdict, verdict_of};
use crate::thread_log::reads::read_completed;
use crate::thread_log::snapshots::snapshot_taken;

verus! {

/// Event `n` of `trace` is the delivery of an entry that occupies position
/// `p`, on a real chain.
pub open spec fn delivers(trace: Seq<Event>, n: int, p: OrderIndex) -> bool {
    &&& 0 <= n < trace.len()
    &&& p.0 != 0
    &&& trace[n] matches Event::Delivered { entry, .. } && entry.locs.contains(p)
}

/// An event of `trace` before event `n` delivers an entry that occupies
/// position `p`, on a real chain.
pub open spec fn delivered_before(trace: Seq<Event>, n: int, p: OrderIndex) -> bool {
    exists|earlier: int| earlier < n && #[trigger] delivers(trace, earlier, p)
}

/// What one allowed event does to the cursor of chain `c`: the delivery of
/// an entry that occupies a position of `c` moves it up by one, to that
/// position; any other event leaves it.
pub proof fn lemma_event_cursor(m: Map<u32, u32>, event: Event, c: u32)
    requires
        event matches Event::Delivered { entry, .. } ==> deliverable(m, entry),
    ensures
        match event {
            Event::Delivered { entry, .. } => if c != 0 && exists|k: int|
                0 <= k < entry.locs.len() && (#[trigger] entry.locs[k]).0 == c {
                after_event(m, event)[c] == m[c] + 1 && entry.locs.contains(
                    OrderIndex(c, after_event(m, event)[c]),
                )
            } else {
                after_event(m, event)[c] == m[c]
            },
            Event::SnapshotDone => after_event(m, event)[c] == m[c],
        },
{
    match event {
        Event::Delivered { entry, .. } => {
            if c != 0 && exists|k: int| 0 <= k < entry.locs.len() && (#[trigger] entry.locs[k]).0 == c {
                let k = choose|k: int| 0 <= k < entry.locs.len() && (#[trigger] entry.locs[k]).0 == c;
                lemma_mark_all_at(m, entry.locs, k);
            } else {
                lemma_mark_all_other(m, entry.locs, c);
            }
        },
        Event::SnapshotDone => {},
    }
}

/// Along an allowed trace no cursor moves down, and every index that a
/// cursor has passed was delivered by an event of the trace.
pub proof fn lemma_trace_cursor(m: Map<u32, u32>, trace: Seq<Event>, c: u32)
    requires
        trace_ok(m, trace),
    ensures
        m[c] <= replay(m, trace)[c],
        forall|j: u32|
            m[c] < j <= replay(m, trace)[c] ==> #[trigger] delivered_before(
                trace,
                trace.len() as int,
                OrderIndex(c, j),
            ),
    decreases trace.len(),
{
    if trace.len() > 0 {
        let init = trace.drop_last();
        let before = replay(m, init);
        lemma_trace_cursor(m, init, c);
        lemma_event_cursor(before, trace.last(), c);
        assert forall|j: u32| m[c] < j <= replay(m, trace)[c] implies #[trigger] delivered_before(
            trace,
            trace.len() as int,
            OrderIndex(c, j),
        ) by {
            if j <= before[c] {
                assert(delivered_before(init, init.len() as int, OrderIndex(c, j)));
                let n = choose|n: int|
                    n < init.len() && #[trigger] delivers(init, n, OrderIndex(c, j));
                assert(delivers(trace, n, OrderIndex(c, j)));
            } else {
                assert(delivers(trace, trace.len() - 1, OrderIndex(c, j)));
            }
        }
    }
}

/// A part of an allowed trace is allowed.
pub proof fn lemma_trace_prefix(m: Map<u32, u32>, trace: Seq<Event>, n: int)
    requires
        trace_ok(m, trace),
        0 <= n <= trace.len(),
    ensures
        trace_ok(m, trace.take(n)),
        n < trace.len() ==> (trace[n] matches Event::Delivered { entry, .. } ==> deliverable(
            replay(m, trace.take(n)),
            entry,
        )),
        n < trace.len() ==> replay(m, trace.take(n + 1)) == after_event(
            replay(m, trace.take(n)),
            trace[n],
        ),
        forall|c: u32| replay(m, trace.take(n))[c] <= replay(m, trace)[c],
    decreases trace.len() - n,
{
    if n == trace.len() {
        assert(trace.take(n) =~= trace);
    } else {
        lemma_trace_prefix(m, trace, n + 1);
        assert(trace.take(n + 1).drop_last() =~= trace.take(n));
        assert forall|c: u32| replay(m, trace.take(n))[c] <= replay(m, trace)[c] by {
            lemma_event_cursor(replay(m, trace.take(n)), trace[n], c);
        }
    }
}

/// The delivery of an entry that occupies position `p` puts the cursor of
/// the chain of `p` at `p`, from just below it.
pub proof fn lemma_delivery_cursor(m: Map<u32, u32>, trace: Seq<Event>, n: int, p: OrderIndex)
    requires
        trace_ok(m, trace),
        delivers(trace, n, p),
    ensures
        p.1 == replay(m, trace.take(n))[p.0] + 1,
        replay(m, trace.take(n + 1))[p.0] == p.1,
{
    lemma_trace_prefix(m, trace, n);
    let before = replay(m, trace.take(n));
    let entry = trace[n]->entry;
    let k = choose|k: int| 0 <= k < entry.locs.len() && entry.locs[k] == p;
    lemma_mark_all_at(before, entry.locs, k);
}

/// Gap-free delivery. Where index `k` is delivered on chain `c` by event `n`
/// of an allowed trace, `k` is the index after the one that the cursor of
/// `c` was at; every index between where the cursor of `c` was at the start
/// of the trace and `k` was delivered on `c` by an earlier event; and no
/// other event delivers `k` on `c`.
pub proof fn law_gap_free_delivery(m: Map<u32, u32>, trace: Seq<Event>, n: int, c: u32, k: u32)
    requires
        trace_ok(m, trace),
        delivers(trace, n, OrderIndex(c, k)),
    ensures
        k >= 1,
        k > m[c],
        forall|j: u32| m[c] < j < k ==> #[trigger] delivered_before(trace, n, OrderIndex(c, j)),
        forall|other: int| delivers(trace, other, OrderIndex(c, k)) ==> other == n,
{
    let p = OrderIndex(c, k);
    lemma_delivery_cursor(m, trace, n, p);
    lemma_trace_prefix(m, trace, n);
    lemma_trace_cursor(m, trace.take(n), c);
    assert forall|j: u32| m[c] < j < k implies #[trigger] delivered_before(
        trace,
        n,
        OrderIndex(c, j),
    ) by {
        assert(delivered_before(trace.take(n), n, OrderIndex(c, j)));
        let earlier = choose|x: int|
            x < n && #[trigger] delivers(trace.take(n), x, OrderIndex(c, j));
        assert(delivers(trace, earlier, OrderIndex(c, j)));
    }
    assert forall|other: int| delivers(trace, other, p) implies other == n by {
        lemma_delivery_cursor(m, trace, other, p);
        if other < n {
            lemma_trace_prefix(m, trace.take(n), other + 1);
            assert(trace.take(n).take(other + 1) =~= trace.take(other + 1));
        }
        if n < other {
            lemma_trace_prefix(m, trace, other);
            lemma_trace_prefix(m, trace.take(other), n + 1);
            assert(trace.take(other).take(n + 1) =~= trace.take(n + 1));
        }
    }
}

/// Horizon respect, of the engine's state: on no chain has anything been
/// delivered beyond the horizon.
pub proof fn law_horizon_respect(log: ThreadLog, c: u32)
    requires
        log.wf(),
    ensures
        log.last_delivered(c) <= log.last_snapshot(c),
{
}

/// Horizon respect, of each delivery: an entry is found deliverable only
/// where the horizon of each chain it touches has reached it.
pub proof fn law_delivered_within_horizon(e: EntryView, log: ThreadLog, k: int)
    requires
        verdict_of(e, log.per_chains@) == Verdict::Deliverable,
        0 <= k < e.locs.len(),
        e.locs[k].0 != 0,
    ensures
        e.locs[k].1 <= log.last_snapshot(e.locs[k].0),
{
    lemma_last_beyond(e.locs, log.per_chains@);
}

/// Dependency ordering. Where an entry that depends on position `dep` is
/// delivered by event `n` of an allowed trace, `dep` had been delivered
/// before the trace began or was delivered by an earlier event.
pub proof fn law_dependency_ordering(m: Map<u32, u32>, trace: Seq<Event>, n: int, dep: OrderIndex)
    requires
        trace_ok(m, trace),
        0 <= n < trace.len(),
        trace[n] matches Event::Delivered { entry, .. } && entry.deps.contains(dep),
    ensures
        dep.1 <= replay(m, trace.take(n))[dep.0],
        dep.1 <= m[dep.0] || delivered_before(trace, n, dep),
{
    lemma_trace_prefix(m, trace, n);
    lemma_trace_cursor(m, trace.take(n), dep.0);
    if dep.1 > m[dep.0] {
        assert(delivered_before(trace.take(n), n, OrderIndex(dep.0, dep.1)));
        let earlier = choose|x: int| x < n && #[trigger] delivers(trace.take(n), x, dep);
        assert(delivers(trace, earlier, dep));
    }
}

/// Multi-append atomicity. The delivery of an entry, by event `n` of an
/// allowed trace, delivers every position that the entry occupies on a real
/// chain, all with that one event: the cursor of each of its chains stood
/// just below the position before the event, and stands at it after.
pub proof fn law_multi_append_atomicity(m: Map<u32, u32>, trace: Seq<Event>, n: int, k: int)
    requires
        trace_ok(m, trace),
        0 <= n < trace.len(),
        trace[n] is Delivered,
        0 <= k < (trace[n]->entry).locs.len(),
        (trace[n]->entry).locs[k].0 != 0,
    ensures
        replay(m, trace.take(n))[(trace[n]->entry).locs[k].0] + 1 == (trace[n]->entry).locs[k].1,
        replay(m, trace.take(n + 1))[(trace[n]->entry).locs[k].0] == (trace[n]->entry).locs[k].1,
{
    let p = (trace[n]->entry).locs[k];
    lemma_delivery_cursor(m, trace, n, p);
}

/// Whatever the engine does with a message that it takes in, it keeps to
/// [`advanced`]; a message that it does not take in changes nothing.
pub proof fn law_handled_advanced(
    pre: ThreadLog,
    pre_fx: Effects,
    msg: Message,
    post: ThreadLog,
    post_fx: Effects,
    flow: Flow,
)
    requires
        pre.quiet(),
        pre_fx.wf(),
        handled(pre, pre_fx, msg, post, post_fx, flow),
    ensures
        advanced(pre, pre_fx, post, post_fx),
        post.quiet(),
{
    lemma_grew_refl(pre_fx);
    match msg {
        Message::FromClient(FromClient::SnapshotAndPrefetch(_)) => {
            lemma_steps_rest(pre.per_chains@, post.per_chains@, pre_fx.trace@);
        },
        Message::FromStore(FromStore::WriteComplete(_, _)) => {
            assert(post_fx.finished_writes@.take(pre_fx.finished_writes@.len() as int)
                =~= pre_fx.finished_writes@);
        },
        _ => {},
    }
}

/// A run of the engine keeps to [`advanced`].
pub proof fn law_ran_advanced(
    pre: ThreadLog,
    pre_fx: Effects,
    msgs: Seq<Message>,
    post: ThreadLog,
    post_fx: Effects,
    flow: Flow,
)
    requires
        pre.quiet(),
        pre_fx.wf(),
        ran(pre, pre_fx, msgs, post, post_fx, flow),
    ensures
        advanced(pre, pre_fx, post, post_fx),
        post.quiet(),
    decreases msgs.len(),
{
    if msgs.len() == 0 {
        lemma_grew_refl(pre_fx);
    } else if flow != Flow::Continue && ran(pre, pre_fx, msgs.drop_last(), post, post_fx, flow) {
        law_ran_advanced(pre, pre_fx, msgs.drop_last(), post, post_fx, flow);
    } else {
        let (mid, mid_fx) = choose|mid: ThreadLog, mid_fx: Effects|
            #![trigger handled(mid, mid_fx, msgs.last(), post, post_fx, flow)]
            ran(pre, pre_fx, msgs.drop_last(), mid, mid_fx, Flow::Continue) && handled(
                mid,
                mid_fx,
                msgs.last(),
                post,
                post_fx,
                flow,
            );
        law_ran_advanced(pre, pre_fx, msgs.drop_last(), mid, mid_fx, Flow::Continue);
        law_handled_advanced(mid, mid_fx, msgs.last(), post, post_fx, flow);
        lemma_advanced_trans(pre, pre_fx, mid, mid_fx, post, post_fx);
    }
}

/// Idempotent re-fetch. Two snapshot requests in a row, with nothing from
/// the storage tier between them, deliver nothing and report nothing: the
/// trace and every cursor stay as they were. Both requests are counted, and
/// once the answer to a read lets the engine report snapshots as complete,
/// it reports every one that was counted, the two among them.
pub proof fn law_idempotent_refetch(
    s0: ThreadLog,
    f0: Effects,
    first: u32,
    s1: ThreadLog,
    f1: Effects,
    second: u32,
    s2: ThreadLog,
    f2: Effects,
    read_loc: OrderIndex,
    answer: Vec<u8>,
    s3: ThreadLog,
    f3: Effects,
    flow: Flow,
)
    requires
        s0.quiet(),
        s1.quiet(),
        s2.quiet(),
        s0.num_snapshots + 2 <= usize::MAX,
        snapshot_taken(s0, f0, first, s1, f1),
        snapshot_taken(s1, f1, second, s2, f2),
        read_completed(s2, f2, read_loc, answer, s3, f3, flow),
        s3.num_snapshots != s2.num_snapshots,
    ensures
        f2.trace@ == f0.trace@,
        forall|c: u32| s2.last_delivered(c) == s0.last_delivered(c),
        s2.num_snapshots == s0.num_snapshots + 2,
        s3.num_snapshots == 0,
        count_done(f3.trace@) == count_done(f0.trace@) + s0.num_snapshots + 2,
{
    assert forall|c: u32| s2.last_delivered(c) == s0.last_delivered(c) by {
        lemma_rest_chain(s0.per_chains@, s1.per_chains@, c);
        lemma_rest_chain(s1.per_chains@, s2.per_chains@, c);
    }
}

} // verus!
