//! The engine against a storage tier that answers in any order.
use fuzzy_log::effects::Effects;
use fuzzy_log::packets::{Entry, EntryKind, EntryLayout, OrderIndex, HORIZON_PROBE};
use fuzzy_log::thread_log::{Flow, FromClient, FromStore, Message, ThreadLog};

/// A small generator of numbers that look random, the same on every run.
struct Rng(u64);

impl Rng {
    fn next(&mut self) -> u64 {
        self.0 = self.0.wrapping_mul(6364136223846793005).wrapping_add(1442695040888963407);
        self.0 >> 33
    }

    fn below(&mut self, n: usize) -> usize {
        (self.next() % n as u64) as usize
    }
}

/// What is stored at one position.
#[derive(Clone)]
struct Stored {
    layout: EntryLayout,
    id: u128,
    locs: Vec<OrderIndex>,
    deps: Vec<OrderIndex>,
    data: Vec<u8>,
}

impl Stored {
    fn bytes(&self) -> Vec<u8> {
        Entry {
            kind: EntryKind { layout: self.layout, read_success: true },
            id: self.id,
            locs: self.locs.clone(),
            deps: self.deps.clone(),
            data: self.data.clone(),
        }
        .encode(Vec::new())
    }
}

/// Chains 1 to `chains`, each with `len` entries. Every entry depends on a
/// few positions before it; some entries are appends to two chains.
fn fill(rng: &mut Rng, chains: u32, len: u32, with_multi: bool) -> Vec<Vec<Stored>> {
    let mut log: Vec<Vec<Stored>> = (0..=chains).map(|_| Vec::new()).collect();
    let mut next_id: u128 = 1;
    while (1..=chains).any(|c| (log[c as usize].len() as u32) < len) {
        let c = 1 + rng.below(chains as usize) as u32;
        if log[c as usize].len() as u32 >= len {
            continue;
        }
        let index = log[c as usize].len() as u32 + 1;
        let mut deps = Vec::new();
        for _ in 0..rng.below(3) {
            let dc = 1 + rng.below(chains as usize) as u32;
            let have = log[dc as usize].len() as u32;
            if have > 0 {
                deps.push(OrderIndex(dc, 1 + rng.below(have as usize) as u32));
            }
        }
        let id = next_id;
        next_id += 1;
        let other = 1 + rng.below(chains as usize) as u32;
        if with_multi && other != c && (log[other as usize].len() as u32) < len && rng.below(4) == 0
        {
            let other_index = log[other as usize].len() as u32 + 1;
            log[c as usize].push(Stored {
                layout: EntryLayout::Multiput,
                id,
                locs: vec![OrderIndex(c, index), OrderIndex(other, 0)],
                deps,
                data: vec![c as u8, index as u8],
            });
            log[other as usize].push(Stored {
                layout: EntryLayout::Sentinel,
                id,
                locs: vec![OrderIndex(c, 0), OrderIndex(other, other_index)],
                deps: vec![],
                data: vec![],
            });
        } else {
            log[c as usize].push(Stored {
                layout: EntryLayout::Data,
                id,
                locs: vec![OrderIndex(c, index)],
                deps,
                data: vec![c as u8, index as u8],
            });
        }
    }
    log
}

fn answer(log: &[Vec<Stored>], request: &[u8]) -> Message {
    let e = Entry::decode(&request.to_vec()).expect("a request decodes");
    let OrderIndex(chain, index) = e.locs[0];
    let stored = &log[chain as usize];
    let bytes = if index == HORIZON_PROBE {
        Entry {
            kind: EntryKind { layout: EntryLayout::Read, read_success: false },
            id: 0,
            locs: vec![OrderIndex(chain, HORIZON_PROBE)],
            deps: vec![OrderIndex(chain, stored.len() as u32)],
            data: vec![],
        }
        .encode(Vec::new())
    } else if index as usize <= stored.len() && index >= 1 {
        stored[index as usize - 1].bytes()
    } else {
        Entry {
            kind: EntryKind { layout: EntryLayout::Read, read_success: false },
            id: 0,
            locs: vec![OrderIndex(chain, index)],
            deps: vec![],
            data: vec![],
        }
        .encode(Vec::new())
    };
    Message::FromStore(FromStore::ReadComplete(OrderIndex(chain, index), bytes))
}

/// How the storage tier orders its answers.
#[derive(Clone, Copy, PartialEq)]
enum Order {
    /// Any request that is in flight may be answered next.
    Any,
    /// The requests for one chain are answered in the order in which they
    /// were made, as on one connection per chain.
    PerChain,
}

fn chain_of(request: &[u8]) -> u32 {
    Entry::decode(&request.to_vec()).expect("a request decodes").locs[0].0
}

/// Runs a snapshot of every chain against `log`, with the answers of the
/// storage tier in an order that `rng` picks, and hands back what went to
/// the application.
fn snapshot_all(
    rng: &mut Rng,
    log: &[Vec<Stored>],
    chains: u32,
    order: Order,
) -> (ThreadLog, Vec<Vec<u8>>) {
    let mut engine = ThreadLog::new((1..=chains).collect());
    let mut in_flight: Vec<Vec<u8>> = Vec::new();
    let mut delivered: Vec<Vec<u8>> = Vec::new();
    let mut fx = Effects::new();
    let flow = engine.handle_message(Message::FromClient(FromClient::SnapshotAndPrefetch(0)), &mut fx);
    assert_eq!(flow, Flow::Continue);
    in_flight.append(&mut fx.to_store);
    let mut steps = 0;
    while !in_flight.is_empty() {
        steps += 1;
        assert!(steps < 100_000, "the engine does not come to an end");
        let mut pick = rng.below(in_flight.len());
        if order == Order::PerChain {
            let chain = chain_of(&in_flight[pick]);
            pick = in_flight.iter().position(|r| chain_of(r) == chain).unwrap();
        }
        let request = in_flight.remove(pick);
        let mut fx = Effects::new();
        assert_eq!(engine.handle_message(answer(log, &request), &mut fx), Flow::Continue);
        in_flight.append(&mut fx.to_store);
        delivered.append(&mut fx.ready_reads);
    }
    (engine, delivered)
}

fn check(log: &[Vec<Stored>], chains: u32, engine: &ThreadLog, delivered: &[Vec<u8>]) {
    let markers = delivered.iter().filter(|r| r.is_empty()).count();
    assert_eq!(markers, 1, "one snapshot, one marker");
    assert!(delivered.last().unwrap().is_empty(), "the marker comes last");
    let mut cursor: Vec<u32> = vec![0; chains as usize + 1];
    let mut seen_ids = Vec::new();
    for bytes in delivered.iter().filter(|r| !r.is_empty()) {
        let e = Entry::decode(bytes).expect("what is delivered decodes");
        assert!(!seen_ids.contains(&e.id), "an entry is delivered once");
        seen_ids.push(e.id);
        for dep in &e.deps {
            assert!(dep.1 <= cursor[dep.0 as usize], "a dependency comes first");
        }
        for loc in &e.locs {
            assert_eq!(loc.1, cursor[loc.0 as usize] + 1, "no gap, and in order");
            let stored = &log[loc.0 as usize][loc.1 as usize - 1];
            assert_eq!(stored.id, e.id);
        }
        for loc in &e.locs {
            cursor[loc.0 as usize] = loc.1;
        }
        assert_eq!(e.data.len(), 2);
    }
    for c in 1..=chains {
        assert_eq!(cursor[c as usize] as usize, log[c as usize].len(), "everything is delivered");
        let pc = engine.per_chains.iter().find(|pc| pc.chain == c).unwrap();
        assert_eq!(pc.last_returned_to_client, cursor[c as usize]);
        assert!(pc.last_returned_to_client <= pc.last_snapshot);
        assert!(pc.blocked_on_new_snapshot.is_none());
    }
    assert!(engine.blockers.blocked.is_empty());
    assert!(engine.blocked_multiappends.is_empty());
    assert_eq!(engine.num_snapshots, 0);
}

#[test]
fn entries_with_dependencies_come_in_order_whatever_the_order_of_the_answers() {
    for seed in 0..40u64 {
        let mut rng = Rng(seed * 7919 + 1);
        let chains = 1 + (seed % 4) as u32;
        let log = fill(&mut rng, chains, 3 + (seed % 20) as u32, false);
        let (engine, delivered) = snapshot_all(&mut rng, &log, chains, Order::Any);
        check(&log, chains, &engine, &delivered);
    }
}

#[test]
fn appends_to_two_chains_come_once_however_the_chains_take_turns() {
    for seed in 0..40u64 {
        let mut rng = Rng(seed * 104729 + 17);
        let chains = 2 + (seed % 3) as u32;
        let log = fill(&mut rng, chains, 2 + (seed % 15) as u32, true);
        let (engine, delivered) = snapshot_all(&mut rng, &log, chains, Order::PerChain);
        check(&log, chains, &engine, &delivered);
    }
}
