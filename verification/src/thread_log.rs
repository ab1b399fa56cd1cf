//! The engine: it takes one message at a time, decides what to fetch next,
//! and delivers entries in order.
use vstd::prelude::*;
use std::collections::HashMap;
use crate::blockers::Blockers;
use crate::buffer_cache::BufferCache;
use crate::effects::{Effects, lemma_grew_trans, lemma_sent_more_grew};
use crate::model::{
    chains_advance, chains_rest, cursor, delivered, delivers_only, entry_ok, has_chain, held,
    horizon, interesting, lemma_advance_chain, lemma_delivers_only_trans, lemma_held_advance,
    lemma_ready_advance, lemma_steps_rest, lemma_steps_trans, ready, slot_of, steps, unique_chains,
    waiting,
};
use crate::packets::{Entry, OrderIndex};
use crate::per_chain::{marked, PerChain, untouched};
use crate::thread_log::reads::read_completed;
use crate::thread_log::snapshots::client_handled;

pub mod delivery;
pub mod fetching;
pub mod multi_append;
pub mod reads;
pub mod snapshots;

verus! {

/// What comes in from outside.
pub enum Message {
    FromStore(FromStore),
    FromClient(FromClient),
}

/// What the storage tier reports.
pub enum FromStore {
    WriteComplete(u128, Vec<OrderIndex>),
    ReadComplete(OrderIndex, Vec<u8>),
}

/// What the application asks for.
pub enum FromClient {
    SnapshotAndPrefetch(u32),
    PerformAppend(Vec<u8>),
    ReturnBuffer(Vec<u8>),
    Shutdown,
}

/// How the engine goes on after a message.
#[derive(Clone, Copy, Debug, PartialEq, Eq, Structural)]
pub enum Flow {
    /// It takes the next message.
    Continue,
    /// It was told to shut down.
    Shutdown,
    /// The message broke the protocol; the engine did nothing with it, and
    /// whoever runs it has to give up.
    Violation,
}

/// A multi-append of which not every piece has been found.
pub struct MultiSearchState {
    pub val: Entry,
    pub pieces_remaining: usize,
}

/// The engine's state.
pub struct ThreadLog {
    /// The entries that wait for positions to be delivered.
    pub blockers: Blockers,
    /// The multi-appends whose pieces are being looked for, by append id.
    pub blocked_multiappends: HashMap<u128, MultiSearchState>,
    /// The chains, in the order in which they were first referred to.
    pub per_chains: Vec<PerChain>,
    /// The positions that were delivered and whose waiters were not released
    /// yet.
    pub no_longer_blocked: Vec<OrderIndex>,
    pub cache: BufferCache,
    /// The snapshot requests that were not answered yet.
    pub num_snapshots: usize,
}

/// The entry that chain `i` of `chains` keeps for a later horizon can be
/// held, and nothing but the horizon stands between it and its delivery.
pub open spec fn parked_ok(chains: Seq<PerChain>, i: int) -> bool {
    chains[i].blocked_on_new_snapshot matches Some(e) ==> entry_ok(e@) && ready(e@, chains)
}

/// From `a` to `b` no chain was given an entry to keep.
pub open spec fn parked_kept(a: Seq<PerChain>, b: Seq<PerChain>) -> bool {
    forall|i: int|
        0 <= i < b.len() ==> (#[trigger] b[i]).blocked_on_new_snapshot.is_none() || (i < a.len()
            && b[i].blocked_on_new_snapshot == a[i].blocked_on_new_snapshot)
}

impl ThreadLog {
    /// What holds of the engine whenever one of its functions is entered or
    /// left.
    pub open spec fn wf(&self) -> bool {
        self.wf_given(self.no_longer_blocked@)
    }

    /// What [`ThreadLog::wf`] says, with `worklist` as the positions that
    /// were delivered and whose waiters were not released yet.
    pub open spec fn wf_given(&self, worklist: Seq<OrderIndex>) -> bool {
        &&& unique_chains(self.per_chains@)
        &&& forall|i: int| 0 <= i < self.per_chains@.len() ==> (#[trigger] self.per_chains@[i]).wf()
        &&& forall|i: int|
            0 <= i < self.per_chains@.len() ==> #[trigger] parked_ok(self.per_chains@, i)
        &&& forall|k: int|
            0 <= k < self.blockers@.len() ==> entry_ok((#[trigger] self.blockers@[k]).entry)
                && held(self.blockers@[k], self.per_chains@) && waiting(
                self.blockers@[k],
                self.per_chains@,
                worklist,
            )
        &&& forall|k: int|
            0 <= k < worklist.len() ==> delivered(self.per_chains@, #[trigger] worklist[k])
        &&& forall|id: u128| #[trigger]
            self.blocked_multiappends@.contains_key(id) ==> entry_ok(
                self.blocked_multiappends@[id].val@,
            )
        &&& self.cache.wf()
    }

    /// What holds of the engine between two messages: it is well-formed, and
    /// the waiters of every delivered position were released.
    pub open spec fn quiet(&self) -> bool {
        self.wf() && self.no_longer_blocked@.len() == 0
    }

    /// The highest index delivered on chain `c`.
    pub open spec fn last_delivered(&self, c: u32) -> u32 {
        cursor(self.per_chains@, c)
    }

    /// The horizon of chain `c`.
    pub open spec fn last_snapshot(&self, c: u32) -> u32 {
        horizon(self.per_chains@, c)
    }
}

/// The engine stays well-formed where nothing is delivered, no chain is
/// given an entry to keep that is not ready, and the rest of the engine stays
/// as it was.
pub proof fn lemma_wf_rest(pre: ThreadLog, post: ThreadLog)
    requires
        pre.wf(),
        chains_rest(pre.per_chains@, post.per_chains@),
        forall|i: int|
            0 <= i < post.per_chains@.len() ==> #[trigger] parked_ok(post.per_chains@, i) || (
            post.per_chains@[i].blocked_on_new_snapshot.is_none() || (i < pre.per_chains@.len()
                && post.per_chains@[i].blocked_on_new_snapshot
                == pre.per_chains@[i].blocked_on_new_snapshot)),
        unique_chains(post.per_chains@),
        forall|i: int| 0 <= i < post.per_chains@.len() ==> (#[trigger] post.per_chains@[i]).wf(),
        post.blockers@ == pre.blockers@,
        post.no_longer_blocked@ == pre.no_longer_blocked@,
        post.blocked_multiappends@ == pre.blocked_multiappends@,
        post.cache.wf(),
    ensures
        post.wf(),
{
    let a = pre.per_chains@;
    let b = post.per_chains@;
    assert forall|i: int| 0 <= i < b.len() implies #[trigger] parked_ok(b, i) by {
        if !parked_ok(b, i) {
            assert(parked_ok(a, i));
            lemma_ready_advance(a[i].blocked_on_new_snapshot.unwrap()@, a, b);
        }
    }
    assert forall|k: int| 0 <= k < post.blockers@.len() implies entry_ok(
        (#[trigger] post.blockers@[k]).entry,
    ) && held(post.blockers@[k], b) && waiting(post.blockers@[k], b, post.no_longer_blocked@) by {
        lemma_held_advance(pre.blockers@[k], a, b);
    }
    assert forall|k: int| 0 <= k < post.no_longer_blocked@.len() implies delivered(
        b,
        #[trigger] post.no_longer_blocked@[k],
    ) by {
        lemma_advance_chain(a, b, pre.no_longer_blocked@[k].0);
    }
}

/// The engine stays well-formed where one position is marked as delivered
/// and put on the list of positions whose waiters are to be released.
pub proof fn lemma_wf_marked(pre: ThreadLog, post: ThreadLog, i: int, loc: OrderIndex)
    requires
        pre.wf(),
        0 <= i < pre.per_chains@.len(),
        pre.per_chains@[i].chain == loc.0,
        loc.1 == pre.per_chains@[i].last_returned_to_client + 1,
        loc.1 <= pre.per_chains@[i].last_snapshot,
        post.per_chains@ == pre.per_chains@.update(i, post.per_chains@[i]),
        marked(pre.per_chains@[i], post.per_chains@[i], loc.1),
        post.no_longer_blocked@ == pre.no_longer_blocked@.push(loc),
        post.blockers@ == pre.blockers@,
        post.blocked_multiappends@ == pre.blocked_multiappends@,
        post.cache.wf(),
    ensures
        post.wf(),
        chains_advance(pre.per_chains@, post.per_chains@),
{
    let a = pre.per_chains@;
    let b = post.per_chains@;
    assert forall|s: int| 0 <= s < b.len() implies #[trigger] parked_ok(b, s) by {
        assert(parked_ok(a, s));
        if a[s].blocked_on_new_snapshot.is_some() {
            lemma_ready_advance(a[s].blocked_on_new_snapshot.unwrap()@, a, b);
        }
    }
    assert forall|k: int| 0 <= k < post.blockers@.len() implies entry_ok(
        (#[trigger] post.blockers@[k]).entry,
    ) && held(post.blockers@[k], b) && waiting(post.blockers@[k], b, post.no_longer_blocked@) by {
        lemma_held_advance(pre.blockers@[k], a, b);
        assert forall|p: OrderIndex| post.blockers@[k].waits.contains(p) implies !delivered(b, p)
            || post.no_longer_blocked@.contains(p) by {
            if delivered(b, p) {
                if delivered(a, p) {
                    let j = choose|j: int|
                        0 <= j < pre.no_longer_blocked@.len() && pre.no_longer_blocked@[j] == p;
                    assert(post.no_longer_blocked@[j] == p);
                } else {
                    assert(post.no_longer_blocked@[pre.no_longer_blocked@.len() as int] == loc);
                }
            }
        }
    }
    assert forall|k: int| 0 <= k < post.no_longer_blocked@.len() implies delivered(
        b,
        #[trigger] post.no_longer_blocked@[k],
    ) by {
        if k < pre.no_longer_blocked@.len() {
            lemma_advance_chain(a, b, pre.no_longer_blocked@[k].0);
        }
    }
}

impl ThreadLog {
    /// Where the state of `chain` is, if there is one.
    pub fn find_chain(&self, chain: u32) -> (found: Option<usize>)
        ensures
            found.is_some() == has_chain(self.per_chains@, chain),
            found matches Some(i) ==> i < self.per_chains@.len() && self.per_chains@[i as int].chain
                == chain,
    {
        let mut i: usize = 0;
        while i < self.per_chains.len()
            invariant
                i <= self.per_chains@.len(),
                forall|j: int| 0 <= j < i ==> (#[trigger] self.per_chains@[j]).chain != chain,
            decreases self.per_chains@.len() - i,
        {
            if self.per_chains[i].chain == chain {
                return Some(i);
            }
            i = i + 1;
        }
        None
    }

    /// Where the state of `chain` is. A chain that had none gets one, on
    /// which nothing has happened; `wanted` says whether its entries are to
    /// be handed to the application.
    pub fn chain_slot(&mut self, chain: u32, wanted: bool) -> (i: usize)
        requires
            old(self).wf(),
        ensures
            final(self).wf(),
            i < final(self).per_chains@.len(),
            final(self).per_chains@[i as int].chain == chain,
            has_chain(old(self).per_chains@, chain) ==> final(self).per_chains@ == old(
                self,
            ).per_chains@,
            !has_chain(old(self).per_chains@, chain) ==> final(self).per_chains@ == old(
                self,
            ).per_chains@.push(final(self).per_chains@[i as int]) && untouched(
                final(self).per_chains@[i as int],
                chain,
            ) && final(self).per_chains@[i as int].is_interesting == wanted,
            chains_rest(old(self).per_chains@, final(self).per_chains@),
            parked_kept(old(self).per_chains@, final(self).per_chains@),
            final(self).blockers == old(self).blockers,
            final(self).no_longer_blocked == old(self).no_longer_blocked,
            final(self).blocked_multiappends == old(self).blocked_multiappends,
            final(self).cache == old(self).cache,
            final(self).num_snapshots == old(self).num_snapshots,
    {
        match self.find_chain(chain) {
            Some(i) => i,
            None => {
                let pc = if wanted {
                    PerChain::interesting(chain)
                } else {
                    PerChain::new(chain)
                };
                self.per_chains.push(pc);
                proof {
                    lemma_wf_rest(*old(self), *self);
                }
                self.per_chains.len() - 1
            },
        }
    }
}

/// Only chain `i` changed from `pre` to `post`, and neither its name nor
/// what was delivered on it nor the entry it keeps.
pub open spec fn touched_chain(pre: ThreadLog, post: ThreadLog, i: int) -> bool {
    &&& 0 <= i < pre.per_chains@.len()
    &&& post.per_chains@ == pre.per_chains@.update(i, post.per_chains@[i])
    &&& post.per_chains@[i].chain == pre.per_chains@[i].chain
    &&& post.per_chains@[i].is_interesting == pre.per_chains@[i].is_interesting
    &&& post.per_chains@[i].last_returned_to_client == pre.per_chains@[i].last_returned_to_client
    &&& post.per_chains@[i].last_snapshot >= pre.per_chains@[i].last_snapshot
    &&& post.per_chains@[i].blocked_on_new_snapshot.is_none()
        || post.per_chains@[i].blocked_on_new_snapshot
        == pre.per_chains@[i].blocked_on_new_snapshot
    &&& post.blockers == pre.blockers
    &&& post.no_longer_blocked == pre.no_longer_blocked
    &&& post.blocked_multiappends == pre.blocked_multiappends
}

/// The engine stays well-formed where one chain changes as
/// [`touched_chain`] says.
pub proof fn lemma_touched_chain(pre: ThreadLog, post: ThreadLog, i: int)
    requires
        pre.wf(),
        touched_chain(pre, post, i),
        post.cache.wf(),
    ensures
        post.wf(),
        chains_rest(pre.per_chains@, post.per_chains@),
        parked_kept(pre.per_chains@, post.per_chains@),
{
    lemma_wf_rest(pre, post);
}

impl ThreadLog {
    /// What is known of `chain`: the highest index delivered on it, its
    /// horizon, and whether it is interesting.
    pub fn lookup(&self, chain: u32) -> (known: (u32, u32, bool))
        requires
            self.wf(),
        ensures
            known.0 == cursor(self.per_chains@, chain),
            known.1 == horizon(self.per_chains@, chain),
            known.2 == interesting(self.per_chains@, chain),
    {
        match self.find_chain(chain) {
            Some(i) => {
                (
                    self.per_chains[i].last_returned_to_client,
                    self.per_chains[i].last_snapshot,
                    self.per_chains[i].is_interesting,
                )
            },
            None => (0, 0, false),
        }
    }
}

/// What every step of the engine keeps to. From before (`pre`, `pre_fx`) to
/// after (`post`, `post_fx`): the engine stays well-formed; no chain loses
/// its state, a delivery or a part of its horizon; whatever was delivered
/// was allowed to be when it was, and is on the trace; and nothing that was
/// handed out is taken back.
pub open spec fn advanced(pre: ThreadLog, pre_fx: Effects, post: ThreadLog, post_fx: Effects) -> bool {
    &&& post.wf()
    &&& post_fx.wf()
    &&& chains_advance(pre.per_chains@, post.per_chains@)
    &&& steps(pre.per_chains@, pre_fx.trace@, post.per_chains@, post_fx.trace@)
    &&& post_fx.grew_from(pre_fx)
}

/// A step of the engine, as [`advanced`] says, in which no snapshot is
/// asked for and none is reported as complete.
pub open spec fn progressed(pre: ThreadLog, pre_fx: Effects, post: ThreadLog, post_fx: Effects) -> bool {
    &&& advanced(pre, pre_fx, post, post_fx)
    &&& delivers_only(pre_fx.trace@, post_fx.trace@)
    &&& post.num_snapshots == pre.num_snapshots
    &&& post_fx.finished_writes@ == pre_fx.finished_writes@
}

/// Steps of the engine, one after the other, are a step of the engine.
pub proof fn lemma_advanced_trans(
    a: ThreadLog,
    a_fx: Effects,
    b: ThreadLog,
    b_fx: Effects,
    c: ThreadLog,
    c_fx: Effects,
)
    requires
        advanced(a, a_fx, b, b_fx),
        advanced(b, b_fx, c, c_fx),
    ensures
        advanced(a, a_fx, c, c_fx),
{
    lemma_steps_trans(
        a.per_chains@,
        a_fx.trace@,
        b.per_chains@,
        b_fx.trace@,
        c.per_chains@,
        c_fx.trace@,
    );
    lemma_grew_trans(a_fx, b_fx, c_fx);
}

/// Steps of the engine without snapshots, one after the other, are such a
/// step.
pub proof fn lemma_progressed_trans(
    a: ThreadLog,
    a_fx: Effects,
    b: ThreadLog,
    b_fx: Effects,
    c: ThreadLog,
    c_fx: Effects,
)
    requires
        progressed(a, a_fx, b, b_fx),
        progressed(b, b_fx, c, c_fx),
    ensures
        progressed(a, a_fx, c, c_fx),
{
    lemma_advanced_trans(a, a_fx, b, b_fx, c, c_fx);
    lemma_delivers_only_trans(a_fx.trace@, b_fx.trace@, c_fx.trace@);
}

/// A step in which nothing is delivered and nothing but requests to the
/// storage tier is handed out.
pub proof fn lemma_progressed_rest(pre: ThreadLog, pre_fx: Effects, post: ThreadLog, post_fx: Effects)
    requires
        pre.wf(),
        post.wf(),
        post_fx.wf(),
        chains_rest(pre.per_chains@, post.per_chains@),
        post_fx.sent_more(pre_fx),
        post.num_snapshots == pre.num_snapshots,
    ensures
        progressed(pre, pre_fx, post, post_fx),
{
    lemma_steps_rest(pre.per_chains@, post.per_chains@, pre_fx.trace@);
    lemma_sent_more_grew(pre_fx, post_fx);
}

/// The engine `post` is the engine `pre` but for the state of `chain`, which
/// may be new, and for the pool of buffers.
pub open spec fn chain_changed(pre: ThreadLog, chain: u32, post: ThreadLog) -> bool {
    let a = pre.per_chains@;
    let b = post.per_chains@;
    &&& has_chain(b, chain)
    &&& b.len() == (if has_chain(a, chain) {
        a.len()
    } else {
        a.len() + 1
    })
    &&& forall|s: int| 0 <= s < a.len() && s != slot_of(b, chain) ==> #[trigger] b[s] == a[s]
    &&& chains_rest(a, b)
    &&& post.blockers == pre.blockers
    &&& post.no_longer_blocked == pre.no_longer_blocked
    &&& post.blocked_multiappends == pre.blocked_multiappends
    &&& post.num_snapshots == pre.num_snapshots
}

/// What [`ThreadLog::handle_from_store`] does with `msg`.
pub open spec fn store_handled(
    pre: ThreadLog,
    pre_fx: Effects,
    msg: FromStore,
    post: ThreadLog,
    post_fx: Effects,
    flow: Flow,
) -> bool {
    match msg {
        FromStore::WriteComplete(id, locs) => {
            &&& flow == Flow::Continue
            &&& post == pre
            &&& post_fx.finished_writes@ == pre_fx.finished_writes@.push((id, locs))
            &&& post_fx.to_store@ == pre_fx.to_store@
            &&& post_fx.ready_reads@ == pre_fx.ready_reads@
            &&& post_fx.trace@ == pre_fx.trace@
        },
        FromStore::ReadComplete(read_loc, bytes) => read_completed(
            pre,
            pre_fx,
            read_loc,
            bytes,
            post,
            post_fx,
            flow,
        ),
    }
}

/// What [`ThreadLog::handle_message`] does with `msg`: the engine and what
/// it handed out before (`pre`, `pre_fx`) and after (`post`, `post_fx`), and
/// how the engine goes on (`flow`).
pub open spec fn handled(
    pre: ThreadLog,
    pre_fx: Effects,
    msg: Message,
    post: ThreadLog,
    post_fx: Effects,
    flow: Flow,
) -> bool {
    &&& post.quiet()
    &&& post_fx.wf()
    &&& match msg {
        Message::FromClient(m) => client_handled(pre, pre_fx, m, post, post_fx, flow),
        Message::FromStore(m) => store_handled(pre, pre_fx, m, post, post_fx, flow),
    }
}

/// The chains that `ids` name, each once, in the order in which `ids` names
/// them first.
pub open spec fn first_occurrences(ids: Seq<u32>) -> Seq<u32>
    decreases ids.len(),
{
    if ids.len() == 0 {
        Seq::empty()
    } else {
        let before = first_occurrences(ids.drop_last());
        if before.contains(ids.last()) {
            before
        } else {
            before.push(ids.last())
        }
    }
}

impl ThreadLog {
    /// Passes a completed write on to the application, and takes in a
    /// completed read as [`ThreadLog::handle_completed_read`] does.
    pub fn handle_from_store(&mut self, msg: FromStore, fx: &mut Effects) -> (flow: Flow)
        requires
            old(self).quiet(),
            old(fx).wf(),
        ensures
            final(self).quiet(),
            final(fx).wf(),
            store_handled(*old(self), *old(fx), msg, *final(self), *final(fx), flow),
    {
        match msg {
            FromStore::WriteComplete(id, locs) => {
                fx.write_done(id, locs);
                Flow::Continue
            },
            FromStore::ReadComplete(loc, bytes) => self.handle_completed_read(loc, bytes, fx),
        }
    }

    /// Handles one message to completion: what it makes the engine send and
    /// deliver is put into `fx`, in order.
    pub fn handle_message(&mut self, msg: Message, fx: &mut Effects) -> (flow: Flow)
        requires
            old(self).quiet(),
            old(fx).wf(),
        ensures
            handled(*old(self), *old(fx), msg, *final(self), *final(fx), flow),
    {
        match msg {
            Message::FromClient(msg) => self.handle_from_client(msg, fx),
            Message::FromStore(msg) => self.handle_from_store(msg, fx),
        }
    }

    /// An engine on which nothing has happened, with a state for each of
    /// `interesting_chains`: the chains whose entries the application asks
    /// for.
    pub fn new(interesting_chains: Vec<u32>) -> (log: ThreadLog)
        ensures
            log.quiet(),
            log.num_snapshots == 0,
            log.blockers@.len() == 0,
            log.blocked_multiappends@ == Map::<u128, MultiSearchState>::empty(),
            log.cache.count() == 0,
            log.per_chains@.len() == first_occurrences(interesting_chains@).len(),
            forall|i: int|
                0 <= i < log.per_chains@.len() ==> untouched(
                    #[trigger] log.per_chains@[i],
                    first_occurrences(interesting_chains@)[i],
                ) && log.per_chains@[i].is_interesting,
    {
        let mut log = ThreadLog {
            blockers: Blockers::new(),
            blocked_multiappends: HashMap::new(),
            per_chains: Vec::new(),
            no_longer_blocked: Vec::new(),
            cache: BufferCache::new(),
            num_snapshots: 0,
        };
        let mut k: usize = 0;
        while k < interesting_chains.len()
            invariant
                k <= interesting_chains@.len(),
                log.quiet(),
                log.num_snapshots == 0,
                log.blockers@.len() == 0,
                log.blocked_multiappends@ == Map::<u128, MultiSearchState>::empty(),
                log.cache.count() == 0,
                log.per_chains@.len() == first_occurrences(interesting_chains@.take(k as int)).len(),
                forall|i: int|
                    0 <= i < log.per_chains@.len() ==> untouched(
                        #[trigger] log.per_chains@[i],
                        first_occurrences(interesting_chains@.take(k as int))[i],
                    ) && log.per_chains@[i].is_interesting,
            decreases interesting_chains@.len() - k,
        {
            let chain = interesting_chains[k];
            let ghost before = log.per_chains@;
            let ghost ids0 = first_occurrences(interesting_chains@.take(k as int));
            proof {
                assert(interesting_chains@.take(k + 1).drop_last() =~= interesting_chains@.take(
                    k as int,
                ));
                if ids0.contains(chain) {
                    let i = choose|i: int| 0 <= i < ids0.len() && ids0[i] == chain;
                    assert(before[i].chain == chain);
                }
            }
            let _ = log.chain_slot(chain, true);
            k = k + 1;
        }
        proof {
            assert(interesting_chains@.take(k as int) =~= interesting_chains@);
        }
        log
    }

    /// Handles the messages of `inbox` one after the other, each to
    /// completion, until one tells the engine to shut down or breaks the
    /// protocol; the messages after that one are dropped. Says how the
    /// engine goes on: as it was told by the message that stopped it, or on
    /// to the next message where none did.
    pub fn run(&mut self, inbox: Vec<Message>, fx: &mut Effects) -> (flow: Flow)
        requires
            old(self).quiet(),
            old(fx).wf(),
        ensures
            final(self).quiet(),
            final(fx).wf(),
            ran(*old(self), *old(fx), inbox@, *final(self), *final(fx), flow),
    {
        let mut rest = inbox;
        let ghost msgs = rest@;
        let mut pending: Vec<Message> = Vec::new();
        while rest.len() > 0
            invariant
                rest@.len() + pending@.len() == msgs.len(),
                forall|j: int| 0 <= j < rest@.len() ==> rest@[j] == msgs[j],
                forall|j: int|
                    0 <= j < pending@.len() ==> pending@[j] == msgs[msgs.len() - 1 - j],
            decreases rest@.len(),
        {
            let m = rest.pop().unwrap();
            pending.push(m);
        }
        let ghost mut n: int = 0;
        while pending.len() > 0
            invariant
                msgs == inbox@,
                0 <= n,
                n + pending@.len() == msgs.len(),
                forall|j: int|
                    0 <= j < pending@.len() ==> pending@[j] == msgs[msgs.len() - 1 - j],
                self.quiet(),
                fx.wf(),
                ran(*old(self), *old(fx), msgs.take(n), *self, *fx, Flow::Continue),
            decreases pending@.len(),
        {
            let msg = pending.pop().unwrap();
            let flow = self.handle_message(msg, fx);
            proof {
                assert(msgs.take(n + 1).drop_last() =~= msgs.take(n));
                assert(msgs.take(n + 1).last() == msg);
                n = n + 1;
            }
            if flow != Flow::Continue {
                proof {
                    lemma_ran_stopped(*old(self), *old(fx), msgs, n, *self, *fx, flow);
                }
                return flow;
            }
        }
        proof {
            assert(msgs.take(n) =~= msgs);
        }
        Flow::Continue
    }
}

/// What [`ThreadLog::run`] does with the messages `msgs`: each is handled as
/// [`handled`] says, the one after the other, as long as the engine goes
/// on; the messages after one that stops it do nothing.
pub open spec fn ran(
    pre: ThreadLog,
    pre_fx: Effects,
    msgs: Seq<Message>,
    post: ThreadLog,
    post_fx: Effects,
    flow: Flow,
) -> bool
    decreases msgs.len(),
{
    if msgs.len() == 0 {
        post == pre && post_fx == pre_fx && flow == Flow::Continue
    } else {
        ||| (flow != Flow::Continue && ran(pre, pre_fx, msgs.drop_last(), post, post_fx, flow))
        ||| exists|mid: ThreadLog, mid_fx: Effects|
            #![trigger handled(mid, mid_fx, msgs.last(), post, post_fx, flow)]
            ran(pre, pre_fx, msgs.drop_last(), mid, mid_fx, Flow::Continue) && handled(
                mid,
                mid_fx,
                msgs.last(),
                post,
                post_fx,
                flow,
            )
    }
}

/// The messages after one that stopped the engine do nothing.
pub proof fn lemma_ran_stopped(
    pre: ThreadLog,
    pre_fx: Effects,
    msgs: Seq<Message>,
    n: int,
    post: ThreadLog,
    post_fx: Effects,
    flow: Flow,
)
    requires
        0 <= n <= msgs.len(),
        flow != Flow::Continue,
        ran(pre, pre_fx, msgs.take(n), post, post_fx, flow),
    ensures
        ran(pre, pre_fx, msgs, post, post_fx, flow),
    decreases msgs.len() - n,
{
    if n < msgs.len() {
        assert(msgs.take(n + 1).drop_last() =~= msgs.take(n));
        lemma_ran_stopped(pre, pre_fx, msgs, n + 1, post, post_fx, flow);
    } else {
        assert(msgs.take(n) =~= msgs);
    }
}

} // verus!
