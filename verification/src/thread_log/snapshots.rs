//! What the engine does for the application: snapshots, appends, and
//! buffers that are handed back.
use vstd::prelude::*;
use crate::effects::{Effects, is_fetch, lemma_grew_refl, lemma_sent_more_trans};
use crate::model::{chains_rest, has_chain, slot_of};
use crate::packets::{Entry, EntryLayout, HORIZON_PROBE, spec_decode};
use crate::per_chain::{MAX_PREFETCH, PerChain};
use crate::thread_log::{Flow, FromClient, ThreadLog};
use crate::thread_log::fetching::{fetches_at, prefetch_count, prefetched};

verus! {

/// The requests of one snapshot of chain `pc` are in `to_store` from `at` on:
/// the probe of the horizon, and the fetches that read ahead.
pub open spec fn snapshot_sent(to_store: Seq<Vec<u8>>, at: int, pc: PerChain) -> bool {
    &&& 0 <= at
    &&& at + 1 + prefetch_count(pc) <= to_store.len()
    &&& is_fetch(to_store[at]@, pc.chain, HORIZON_PROBE)
    &&& fetches_at(to_store, at + 1, pc.chain, pc.last_read_sent_to_server, prefetch_count(pc))
}

/// How many requests a snapshot of each interesting chain among the first
/// `upto` of `chains` sends.
pub open spec fn requests_before(chains: Seq<PerChain>, upto: int) -> int
    decreases upto,
{
    if upto <= 0 {
        0
    } else if chains[upto - 1].is_interesting {
        requests_before(chains, upto - 1) + 1 + prefetch_count(chains[upto - 1])
    } else {
        requests_before(chains, upto - 1)
    }
}

/// What a snapshot of every interesting chain among the first `upto` does
/// to chain `i`: the chains `a` before, `b` after; the requests are in
/// `to_store` from `base` on, chain after chain.
pub open spec fn chain_snapshotted(
    a: Seq<PerChain>,
    b: Seq<PerChain>,
    i: int,
    upto: int,
    to_store: Seq<Vec<u8>>,
    base: int,
) -> bool {
    if i < upto && a[i].is_interesting {
        &&& prefetched(a[i], b[i], prefetch_count(a[i]))
        &&& snapshot_sent(to_store, base + requests_before(a, i), a[i])
    } else {
        b[i] == a[i]
    }
}

/// What a snapshot of every interesting chain among the first `upto` does:
/// the chains `a` before, `b` after; the requests are in `to_store` from
/// `base` on, chain after chain.
pub open spec fn all_snapshotted(
    a: Seq<PerChain>,
    b: Seq<PerChain>,
    upto: int,
    to_store: Seq<Vec<u8>>,
    base: int,
) -> bool {
    &&& b.len() == a.len()
    &&& forall|i: int| 0 <= i < a.len() ==> #[trigger] chain_snapshotted(a, b, i, upto, to_store, base)
}

/// The requests of a snapshot stay where they are when more is sent.
pub proof fn lemma_snapshot_sent_prefix(t0: Seq<Vec<u8>>, t1: Seq<Vec<u8>>, at: int, pc: PerChain)
    requires
        t0.len() <= t1.len(),
        t1.take(t0.len() as int) == t0,
        snapshot_sent(t0, at, pc),
    ensures
        snapshot_sent(t1, at, pc),
{
    assert forall|k: int| 0 <= k < prefetch_count(pc) implies is_fetch(
        (#[trigger] t1[at + 1 + k])@,
        pc.chain,
        (pc.last_read_sent_to_server + 1 + k) as u32,
    ) by {
        assert(t1.take(t0.len() as int)[at + 1 + k] == t1[at + 1 + k]);
    }
}

/// What [`ThreadLog::handle_from_client`] does with a snapshot request for
/// `chain`: the engine and what it handed out before (`pre`, `pre_fx`) and
/// after (`post`, `post_fx`).
pub open spec fn snapshot_taken(
    pre: ThreadLog,
    pre_fx: Effects,
    chain: u32,
    post: ThreadLog,
    post_fx: Effects,
) -> bool {
    let a = pre.per_chains@;
    let b = post.per_chains@;
    let base = pre_fx.to_store@.len() as int;
    &&& post.num_snapshots == (if pre.num_snapshots < usize::MAX {
        (pre.num_snapshots + 1) as usize
    } else {
        usize::MAX
    })
    &&& chains_rest(a, b)
    &&& same_standing_but_new(a, b)
    &&& post.blockers == pre.blockers
    &&& post.no_longer_blocked == pre.no_longer_blocked
    &&& post.blocked_multiappends == pre.blocked_multiappends
    &&& post_fx.sent_more(pre_fx)
    &&& if chain == 0 {
        &&& all_snapshotted(a, b, a.len() as int, post_fx.to_store@, base)
        &&& post_fx.to_store@.len() == base + requests_before(a, a.len() as int)
    } else {
        let i = slot_of(b, chain);
        &&& has_chain(b, chain)
        &&& is_fetch(post_fx.to_store@[base]@, chain, HORIZON_PROBE)
        &&& forall|s: int| 0 <= s < a.len() && s != i ==> #[trigger] b[s] == a[s]
        &&& if has_chain(a, chain) {
            &&& b.len() == a.len()
            &&& prefetched(a[i], b[i], prefetch_count(a[i]))
            &&& snapshot_sent(post_fx.to_store@, base, a[i])
            &&& post_fx.to_store@.len() == base + 1 + prefetch_count(a[i])
        } else {
            &&& b.len() == a.len() + 1
            &&& b[i].is_interesting
            &&& b[i].last_read_sent_to_server == MAX_PREFETCH
            &&& b[i].outstanding_reads == MAX_PREFETCH
            &&& post_fx.to_store@.len() == base + 1 + MAX_PREFETCH
            &&& fetches_at(post_fx.to_store@, base + 1, chain, 0, MAX_PREFETCH as int)
        }
    }
}

/// The chains `b` say of every chain that `a` knows what `a` says: what was
/// delivered on it and where its horizon is.
pub open spec fn same_standing_but_new(a: Seq<PerChain>, b: Seq<PerChain>) -> bool {
    forall|i: int|
        0 <= i < a.len() && i < b.len() ==> (#[trigger] b[i]).last_snapshot == a[i].last_snapshot
            && b[i].last_returned_to_client == a[i].last_returned_to_client
}

/// What [`ThreadLog::handle_from_client`] does with `msg`: the engine and
/// what it handed out before (`pre`, `pre_fx`) and after (`post`,
/// `post_fx`), and how the engine goes on (`flow`).
pub open spec fn client_handled(
    pre: ThreadLog,
    pre_fx: Effects,
    msg: FromClient,
    post: ThreadLog,
    post_fx: Effects,
    flow: Flow,
) -> bool {
    match msg {
        FromClient::SnapshotAndPrefetch(chain) => {
            &&& flow == Flow::Continue
            &&& snapshot_taken(pre, pre_fx, chain, post, post_fx)
        },
        FromClient::PerformAppend(bytes) => {
            let framed = spec_decode(bytes@) matches Some(e) && (e.kind.layout == EntryLayout::Data
                || e.kind.layout == EntryLayout::Multiput);
            &&& post == pre
            &&& flow == (if framed {
                Flow::Continue
            } else {
                Flow::Violation
            })
            &&& framed ==> post_fx.to_store@ == pre_fx.to_store@.push(bytes)
                && post_fx.sent_more(pre_fx)
            &&& !framed ==> post_fx == pre_fx
        },
        FromClient::ReturnBuffer(_) => {
            &&& flow == Flow::Continue
            &&& post_fx == pre_fx
            &&& post.per_chains == pre.per_chains
            &&& post.blockers == pre.blockers
            &&& post.no_longer_blocked == pre.no_longer_blocked
            &&& post.blocked_multiappends == pre.blocked_multiappends
            &&& post.num_snapshots == pre.num_snapshots
            &&& post.cache.count() == (if pre.cache.count() < crate::buffer_cache::BUFFER_CACHE_CAP {
                pre.cache.count() + 1
            } else {
                pre.cache.count()
            })
        },
        FromClient::Shutdown => {
            &&& flow == Flow::Shutdown
            &&& post == pre
            &&& post_fx == pre_fx
        },
    }
}

impl ThreadLog {
    /// Takes a snapshot of every interesting chain, in the order in which
    /// the chains were first referred to: for each, the horizon is probed and
    /// the chain is read ahead on.
    pub fn snapshot_interesting(&mut self, fx: &mut Effects)
        requires
            old(self).wf(),
            old(fx).wf(),
        ensures
            final(self).wf(),
            final(fx).wf(),
            chains_rest(old(self).per_chains@, final(self).per_chains@),
            same_standing_but_new(old(self).per_chains@, final(self).per_chains@),
            final(self).blockers == old(self).blockers,
            final(self).no_longer_blocked == old(self).no_longer_blocked,
            final(self).blocked_multiappends == old(self).blocked_multiappends,
            final(self).num_snapshots == old(self).num_snapshots,
            final(fx).sent_more(*old(fx)),
            all_snapshotted(
                old(self).per_chains@,
                final(self).per_chains@,
                old(self).per_chains@.len() as int,
                final(fx).to_store@,
                old(fx).to_store@.len() as int,
            ),
            final(fx).to_store@.len() == old(fx).to_store@.len() + requests_before(
                old(self).per_chains@,
                old(self).per_chains@.len() as int,
            ),
    {
        let ghost a = old(self).per_chains@;
        let ghost base = old(fx).to_store@.len() as int;
        let n = self.per_chains.len();
        let mut i: usize = 0;
        proof {
            lemma_grew_refl(*fx);
        }
        while i < n
            invariant
                i <= n,
                n == a.len(),
                a == old(self).per_chains@,
                base == old(fx).to_store@.len(),
                old(self).wf(),
                self.wf(),
                fx.wf(),
                chains_rest(a, self.per_chains@),
                same_standing_but_new(a, self.per_chains@),
                self.blockers == old(self).blockers,
                self.no_longer_blocked == old(self).no_longer_blocked,
                self.blocked_multiappends == old(self).blocked_multiappends,
                self.num_snapshots == old(self).num_snapshots,
                fx.sent_more(*old(fx)),
                all_snapshotted(a, self.per_chains@, i as int, fx.to_store@, base),
                fx.to_store@.len() == base + requests_before(a, i as int),
            decreases n - i,
        {
            let ghost b = self.per_chains@;
            let ghost fx0 = *fx;
            proof {
                assert(chain_snapshotted(a, b, i as int, i as int, fx0.to_store@, base));
            }
            if self.per_chains[i].is_interesting {
                let chain = self.per_chains[i].chain;
                self.fetch_snapshot(chain, fx);
                let ghost fx1 = *fx;
                self.prefetch(chain, fx);
                proof {
                    let c = self.per_chains@;
                    lemma_sent_more_trans(fx0, fx1, *fx);
                    lemma_sent_more_trans(*old(fx), fx0, *fx);
                    assert forall|j: int| 0 <= j < a.len() implies #[trigger] chain_snapshotted(
                        a,
                        c,
                        j,
                        i + 1,
                        fx.to_store@,
                        base,
                    ) by {
                        assert(chain_snapshotted(a, b, j, i as int, fx0.to_store@, base));
                        if j != i {
                            if j < i && a[j].is_interesting {
                                lemma_snapshot_sent_prefix(
                                    fx0.to_store@,
                                    fx.to_store@,
                                    base + requests_before(a, j),
                                    a[j],
                                );
                            }
                        }
                    }
                }
            } else {
                proof {
                    assert forall|j: int| 0 <= j < a.len() implies #[trigger] chain_snapshotted(
                        a,
                        b,
                        j,
                        i + 1,
                        fx.to_store@,
                        base,
                    ) by {
                        assert(chain_snapshotted(a, b, j, i as int, fx0.to_store@, base));
                    }
                }
            }
            i = i + 1;
        }
    }

    /// Does what the application asks for.
    ///
    /// A snapshot request is counted; the horizon of its chain is probed and
    /// the chain is read ahead on; chain 0 stands for every interesting
    /// chain. An append is passed on to the storage tier as it is, where it
    /// is the wire form of a data entry or a multi-append; any other breaks
    /// the protocol. A buffer that is handed back goes to the pool.
    pub fn handle_from_client(&mut self, msg: FromClient, fx: &mut Effects) -> (flow: Flow)
        requires
            old(self).quiet(),
            old(fx).wf(),
        ensures
            final(self).quiet(),
            final(fx).wf(),
            client_handled(*old(self), *old(fx), msg, *final(self), *final(fx), flow),
    {
        match msg {
            FromClient::SnapshotAndPrefetch(chain) => {
                self.num_snapshots = self.num_snapshots.saturating_add(1);
                if chain != 0 {
                    self.fetch_snapshot(chain, fx);
                    let ghost fx1 = *fx;
                    self.prefetch(chain, fx);
                    proof {
                        lemma_sent_more_trans(*old(fx), fx1, *fx);
                    }
                } else {
                    self.snapshot_interesting(fx);
                }
                Flow::Continue
            },
            FromClient::PerformAppend(bytes) => {
                let framed = match Entry::decode(&bytes) {
                    Some(e) => e.kind.layout() == EntryLayout::Data || e.kind.layout()
                        == EntryLayout::Multiput,
                    None => false,
                };
                if framed {
                    fx.send(bytes);
                    Flow::Continue
                } else {
                    Flow::Violation
                }
            },
            FromClient::ReturnBuffer(buffer) => {
                self.cache.cache_buffer(buffer);
                Flow::Continue
            },
            FromClient::Shutdown => Flow::Shutdown,
        }
    }
}

} // verus!
