use fuzzy_log::effects::Effects;
use fuzzy_log::packets::{Entry, EntryKind, EntryLayout, OrderIndex, HORIZON_PROBE};
use fuzzy_log::per_chain::MAX_PREFETCH;
use fuzzy_log::thread_log::delivery::Verdict;
use fuzzy_log::thread_log::{Flow, FromClient, FromStore, Message, ThreadLog};

fn data(chain: u32, index: u32, deps: &[(u32, u32)], payload: &[u8]) -> Vec<u8> {
    Entry {
        kind: EntryKind { layout: EntryLayout::Data, read_success: true },
        id: (chain as u128) << 32 | index as u128,
        locs: vec![OrderIndex(chain, index)],
        deps: deps.iter().map(|d| OrderIndex(d.0, d.1)).collect(),
        data: payload.to_vec(),
    }
    .encode(Vec::new())
}

fn multi(layout: EntryLayout, id: u128, locs: &[(u32, u32)], payload: &[u8]) -> Vec<u8> {
    Entry {
        kind: EntryKind { layout, read_success: true },
        id,
        locs: locs.iter().map(|l| OrderIndex(l.0, l.1)).collect(),
        deps: vec![],
        data: payload.to_vec(),
    }
    .encode(Vec::new())
}

/// The answer to a probe of the horizon of `chain`: the tail is at `tail`.
fn horizon(chain: u32, tail: u32) -> Message {
    let bytes = Entry {
        kind: EntryKind { layout: EntryLayout::Read, read_success: false },
        id: 0,
        locs: vec![OrderIndex(chain, HORIZON_PROBE)],
        deps: vec![OrderIndex(chain, tail)],
        data: vec![],
    }
    .encode(Vec::new());
    read(chain, HORIZON_PROBE, bytes)
}

/// The answer to a read beyond the end of `chain`.
fn nothing_at(chain: u32, index: u32) -> Message {
    let bytes = Entry {
        kind: EntryKind { layout: EntryLayout::Read, read_success: false },
        id: 0,
        locs: vec![OrderIndex(chain, index)],
        deps: vec![],
        data: vec![],
    }
    .encode(Vec::new());
    read(chain, index, bytes)
}

fn read(chain: u32, index: u32, bytes: Vec<u8>) -> Message {
    Message::FromStore(FromStore::ReadComplete(OrderIndex(chain, index), bytes))
}

fn snapshot(chain: u32) -> Message {
    Message::FromClient(FromClient::SnapshotAndPrefetch(chain))
}

fn fetched(fx: &Effects) -> Vec<(u32, u32)> {
    fx.to_store
        .iter()
        .map(|bytes| {
            let e = Entry::decode(bytes).expect("a request decodes");
            assert_eq!(e.kind, EntryKind { layout: EntryLayout::Read, read_success: false });
            assert_eq!(e.locs.len(), 1);
            assert!(e.deps.is_empty());
            assert!(e.data.is_empty());
            (e.locs[0].0, e.locs[0].1)
        })
        .collect()
}

fn cursor(log: &ThreadLog, chain: u32) -> u32 {
    log.per_chains
        .iter()
        .find(|pc| pc.chain == chain)
        .map(|pc| pc.last_returned_to_client)
        .unwrap_or(0)
}

fn horizon_of(log: &ThreadLog, chain: u32) -> u32 {
    log.per_chains.iter().find(|pc| pc.chain == chain).map(|pc| pc.last_snapshot).unwrap_or(0)
}

fn step(log: &mut ThreadLog, msg: Message) -> Effects {
    let mut fx = Effects::new();
    assert_eq!(log.handle_message(msg, &mut fx), Flow::Continue);
    fx
}

#[test]
fn a_snapshot_probes_the_horizon_and_reads_ahead() {
    let mut log = ThreadLog::new(vec![5]);
    let fx = step(&mut log, snapshot(5));
    let mut expected = vec![(5, HORIZON_PROBE)];
    for i in 1..=MAX_PREFETCH {
        expected.push((5, i));
    }
    assert_eq!(fetched(&fx), expected);
    assert!(fx.ready_reads.is_empty());
    assert_eq!(log.num_snapshots, 1);
    assert_eq!(log.per_chains[0].outstanding_reads, 8);
    assert_eq!(log.per_chains[0].last_read_sent_to_server, 8);
    assert_eq!(log.per_chains[0].is_being_read.as_ref().unwrap().outstanding_snapshots, 1);
}

#[test]
fn three_entries_read_in_reverse_are_delivered_in_order() {
    // chain 5 holds three entries; they come back as 3, 2, 1
    let mut log = ThreadLog::new(vec![5]);
    step(&mut log, snapshot(5));
    let fx = step(&mut log, horizon(5, 3));
    assert!(fx.ready_reads.is_empty());
    assert_eq!(horizon_of(&log, 5), 3);
    let e1 = data(5, 1, &[], b"one");
    let e2 = data(5, 2, &[], b"two");
    let e3 = data(5, 3, &[], b"three");
    let fx = step(&mut log, read(5, 3, e3.clone()));
    assert!(fx.ready_reads.is_empty());
    let fx = step(&mut log, read(5, 2, e2.clone()));
    assert!(fx.ready_reads.is_empty());
    assert_eq!(cursor(&log, 5), 0);
    let fx = step(&mut log, read(5, 1, e1.clone()));
    assert_eq!(fx.ready_reads, vec![e1, e2, e3, vec![]]);
    assert_eq!(cursor(&log, 5), 3);
    assert_eq!(log.num_snapshots, 0);
    assert!(log.blockers.blocked.is_empty());
}

#[test]
fn reads_beyond_the_end_come_back_without_a_second_marker() {
    let mut log = ThreadLog::new(vec![5]);
    step(&mut log, snapshot(5));
    step(&mut log, horizon(5, 1));
    let e1 = data(5, 1, &[], b"one");
    let fx = step(&mut log, read(5, 1, e1.clone()));
    assert_eq!(fx.ready_reads, vec![e1, vec![]]);
    for i in 2..=8 {
        let fx = step(&mut log, nothing_at(5, i));
        assert!(fx.ready_reads.is_empty());
        assert!(fx.to_store.is_empty());
    }
    assert_eq!(log.per_chains[0].outstanding_reads, 0);
    assert_eq!(log.per_chains[0].last_read_sent_to_server, 1);
}

#[test]
fn a_snapshot_of_an_empty_chain_completes_at_once() {
    let mut log = ThreadLog::new(vec![5]);
    step(&mut log, snapshot(5));
    let fx = step(&mut log, horizon(5, 0));
    assert_eq!(fx.ready_reads, vec![Vec::<u8>::new()]);
    assert_eq!(log.num_snapshots, 0);
}

#[test]
fn a_multi_append_waits_for_its_piece_on_the_other_chain() {
    // an append to chains 5 and 6, of which only chain 5 is asked for; where
    // the append is on chain 6 is unknown
    let mut log = ThreadLog::new(vec![5]);
    step(&mut log, snapshot(5));
    step(&mut log, horizon(5, 1));
    let id = 0xabcdef;
    let piece = multi(EntryLayout::Multiput, id, &[(5, 1), (6, 0)], b"payload");
    let fx = step(&mut log, read(5, 1, piece));
    assert!(fx.ready_reads.is_empty(), "nothing is delivered before chain 6 is resolved");
    assert_eq!(fetched(&fx), vec![(6, 1)], "the search on chain 6 goes on by a fetch");
    assert_eq!(cursor(&log, 5), 0);
    assert_eq!(horizon_of(&log, 6), 1);

    let marker = multi(EntryLayout::Sentinel, id, &[(5, 0), (6, 1)], b"");
    let fx = step(&mut log, read(6, 1, marker));
    assert_eq!(fx.ready_reads.len(), 2);
    let whole = Entry::decode(&fx.ready_reads[0]).unwrap();
    assert_eq!(whole.id, id);
    assert_eq!(whole.locs, vec![OrderIndex(5, 1), OrderIndex(6, 1)]);
    assert_eq!(whole.data, b"payload".to_vec());
    assert!(fx.ready_reads[1].is_empty());
    assert_eq!(cursor(&log, 5), 1);
    assert_eq!(cursor(&log, 6), 1, "both positions are delivered at once");
    assert!(log.blocked_multiappends.is_empty());
}

#[test]
fn a_marker_that_comes_first_is_used_without_a_search() {
    let mut log = ThreadLog::new(vec![5, 6]);
    step(&mut log, snapshot(0));
    step(&mut log, horizon(5, 1));
    step(&mut log, horizon(6, 1));
    let id = 99;
    let marker = multi(EntryLayout::Sentinel, id, &[(5, 0), (6, 1)], b"");
    let fx = step(&mut log, read(6, 1, marker));
    assert!(fx.ready_reads.is_empty());
    assert_eq!(log.per_chains[1].found_but_unused_multiappends.get(&id), Some(&1));
    let piece = multi(EntryLayout::Multiput, id, &[(5, 1), (6, 0)], b"p");
    let fx = step(&mut log, read(5, 1, piece));
    assert!(fx.to_store.is_empty());
    let whole = Entry::decode(&fx.ready_reads[0]).unwrap();
    assert_eq!(whole.locs, vec![OrderIndex(5, 1), OrderIndex(6, 1)]);
    assert_eq!(fx.ready_reads.len(), 2);
    assert!(fx.ready_reads[1].is_empty());
    assert_eq!(cursor(&log, 5), 1);
    assert_eq!(cursor(&log, 6), 1);
    assert!(log.per_chains[1].found_but_unused_multiappends.is_empty());
    assert!(log.blocked_multiappends.is_empty());
}

#[test]
fn an_entry_of_a_chain_that_was_not_asked_for_is_not_handed_on() {
    // entry (5, 1) depends on (7, 1); chain 7 is read for its sake only
    let mut log = ThreadLog::new(vec![5]);
    step(&mut log, snapshot(5));
    step(&mut log, horizon(5, 1));
    let e = data(5, 1, &[(7, 1)], b"mine");
    let fx = step(&mut log, read(5, 1, e.clone()));
    assert!(fx.ready_reads.is_empty());
    assert_eq!(fetched(&fx), vec![(7, 1)]);
    let dep = data(7, 1, &[], b"theirs");
    let fx = step(&mut log, read(7, 1, dep));
    assert_eq!(fx.ready_reads, vec![e, vec![]]);
    assert_eq!(cursor(&log, 7), 1);
    assert_eq!(cursor(&log, 5), 1);
}

#[test]
fn a_returned_buffer_is_used_for_the_next_fetch() {
    let mut log = ThreadLog::new(vec![5]);
    let buffer: Vec<u8> = Vec::with_capacity(4096);
    let address = buffer.as_ptr();
    let mut fx = Effects::new();
    let flow = log.handle_message(Message::FromClient(FromClient::ReturnBuffer(buffer)), &mut fx);
    assert_eq!(flow, Flow::Continue);
    assert_eq!(log.cache.vec_cache.len(), 1);
    let fx = step(&mut log, snapshot(5));
    assert!(fx.to_store[0].capacity() >= 4096);
    assert_eq!(fx.to_store[0].as_ptr(), address);
    assert!(fx.to_store[1].capacity() < 4096);
    assert_eq!(log.cache.vec_cache.len(), 0);
}

#[test]
fn shutdown_stops_the_run_and_drops_what_comes_after() {
    let mut log = ThreadLog::new(vec![5]);
    let mut fx = Effects::new();
    let inbox = vec![
        snapshot(5),
        horizon(5, 2),
        Message::FromClient(FromClient::Shutdown),
        read(5, 1, data(5, 1, &[], b"late")),
        read(5, 2, data(5, 2, &[], b"later")),
    ];
    assert_eq!(log.run(inbox, &mut fx), Flow::Shutdown);
    assert!(fx.ready_reads.is_empty());
    assert_eq!(cursor(&log, 5), 0);
    assert_eq!(log.per_chains[0].outstanding_reads, 8);
}

#[test]
fn a_run_without_shutdown_goes_on() {
    let mut log = ThreadLog::new(vec![5]);
    let mut fx = Effects::new();
    let e1 = data(5, 1, &[], b"a");
    let inbox = vec![snapshot(5), horizon(5, 1), read(5, 1, e1.clone())];
    assert_eq!(log.run(inbox, &mut fx), Flow::Continue);
    assert_eq!(fx.ready_reads, vec![e1, vec![]]);
    assert_eq!(log.run(vec![], &mut fx), Flow::Continue);
    assert_eq!(fx.ready_reads.len(), 2);
}

#[test]
fn no_index_is_delivered_twice() {
    let mut log = ThreadLog::new(vec![5]);
    step(&mut log, snapshot(5));
    step(&mut log, horizon(5, 3));
    let e1 = data(5, 1, &[], b"1");
    let e2 = data(5, 2, &[], b"2");
    let e3 = data(5, 3, &[], b"3");
    let mut seen: Vec<Vec<u8>> = Vec::new();
    for (index, bytes) in [(2, &e2), (2, &e2), (1, &e1), (1, &e1), (3, &e3), (2, &e2), (3, &e3)] {
        let fx = step(&mut log, read(5, index, bytes.clone()));
        seen.extend(fx.ready_reads.into_iter().filter(|r| !r.is_empty()));
    }
    assert_eq!(seen, vec![e1, e2, e3]);
    assert_eq!(cursor(&log, 5), 3);
    assert!(log.blockers.blocked.is_empty());
}

#[test]
fn nothing_is_delivered_beyond_the_horizon() {
    let mut log = ThreadLog::new(vec![5]);
    step(&mut log, snapshot(5));
    step(&mut log, horizon(5, 1));
    let e1 = data(5, 1, &[], b"1");
    let e2 = data(5, 2, &[], b"2");
    let fx = step(&mut log, read(5, 1, e1.clone()));
    assert_eq!(fx.ready_reads, vec![e1, vec![]]);
    let fx = step(&mut log, read(5, 2, e2.clone()));
    assert!(fx.ready_reads.is_empty(), "index 2 is beyond the horizon");
    assert_eq!(cursor(&log, 5), 1);
    assert!(log.per_chains[0].blocked_on_new_snapshot.is_some());
    step(&mut log, snapshot(5));
    let fx = step(&mut log, horizon(5, 2));
    assert_eq!(fx.ready_reads, vec![e2, vec![]]);
    assert_eq!(cursor(&log, 5), 2);
    assert!(log.per_chains[0].blocked_on_new_snapshot.is_none());
}

#[test]
fn the_horizon_never_goes_down() {
    let mut log = ThreadLog::new(vec![5]);
    step(&mut log, snapshot(5));
    step(&mut log, horizon(5, 4));
    step(&mut log, snapshot(5));
    step(&mut log, horizon(5, 2));
    assert_eq!(horizon_of(&log, 5), 4);
}

#[test]
fn an_entry_waits_for_each_of_its_dependencies() {
    let mut log = ThreadLog::new(vec![5, 6, 7]);
    step(&mut log, snapshot(0));
    step(&mut log, horizon(5, 1));
    step(&mut log, horizon(6, 1));
    step(&mut log, horizon(7, 1));
    let e = data(5, 1, &[(6, 1), (7, 1)], b"e");
    let d6 = data(6, 1, &[], b"d6");
    let d7 = data(7, 1, &[(6, 1)], b"d7");
    let fx = step(&mut log, read(5, 1, e.clone()));
    assert!(fx.ready_reads.is_empty());
    let fx = step(&mut log, read(7, 1, d7.clone()));
    assert!(fx.ready_reads.is_empty());
    let fx = step(&mut log, read(6, 1, d6.clone()));
    assert_eq!(fx.ready_reads, vec![d6, d7, e, vec![]]);
}

#[test]
fn two_snapshots_in_a_row_give_two_markers_and_no_entry_twice() {
    let mut log = ThreadLog::new(vec![5]);
    let first = step(&mut log, snapshot(5));
    let second = step(&mut log, snapshot(5));
    assert!(first.ready_reads.is_empty() && second.ready_reads.is_empty());
    assert_eq!(log.num_snapshots, 2);
    assert_eq!(cursor(&log, 5), 0);
    assert_eq!(fetched(&first)[0], (5, HORIZON_PROBE));
    assert_eq!(fetched(&second)[0], (5, HORIZON_PROBE));
    let fx = step(&mut log, horizon(5, 1));
    assert!(fx.ready_reads.is_empty());
    let fx = step(&mut log, horizon(5, 1));
    assert!(fx.ready_reads.is_empty());
    let e1 = data(5, 1, &[], b"1");
    let fx = step(&mut log, read(5, 1, e1.clone()));
    assert_eq!(fx.ready_reads, vec![e1.clone(), vec![], vec![]]);
    let fx = step(&mut log, read(5, 1, e1));
    assert!(fx.ready_reads.is_empty());
    assert_eq!(log.num_snapshots, 0);
}

#[test]
fn a_snapshot_of_chain_zero_is_one_of_every_chain_asked_for() {
    let mut log = ThreadLog::new(vec![5, 6, 5]);
    assert_eq!(log.per_chains.len(), 2);
    let fx = step(&mut log, snapshot(0));
    let got = fetched(&fx);
    assert_eq!(got.len(), 18);
    assert_eq!(got[0], (5, HORIZON_PROBE));
    assert_eq!(got[1], (5, 1));
    assert_eq!(got[9], (6, HORIZON_PROBE));
    assert_eq!(got[17], (6, 8));
    assert_eq!(log.num_snapshots, 1);
}

#[test]
fn a_snapshot_of_an_unknown_chain_makes_it_one_that_is_asked_for() {
    let mut log = ThreadLog::new(vec![]);
    step(&mut log, snapshot(9));
    assert_eq!(log.per_chains.len(), 1);
    assert!(log.per_chains[0].is_interesting);
    step(&mut log, horizon(9, 1));
    let e = data(9, 1, &[], b"x");
    let fx = step(&mut log, read(9, 1, e.clone()));
    assert_eq!(fx.ready_reads, vec![e, vec![]]);
}

#[test]
fn a_completed_write_is_passed_on() {
    let mut log = ThreadLog::new(vec![5]);
    let done = Message::FromStore(FromStore::WriteComplete(42, vec![OrderIndex(5, 1)]));
    let fx = step(&mut log, done);
    assert_eq!(fx.finished_writes, vec![(42u128, vec![OrderIndex(5, 1)])]);
    assert!(fx.to_store.is_empty() && fx.ready_reads.is_empty());
}

#[test]
fn an_append_is_passed_on_as_it_is() {
    let mut log = ThreadLog::new(vec![5]);
    let bytes = data(5, 0, &[], b"new");
    let fx = step(&mut log, Message::FromClient(FromClient::PerformAppend(bytes.clone())));
    assert_eq!(fx.to_store, vec![bytes]);
    let bytes = multi(EntryLayout::Multiput, 3, &[(5, 0), (6, 0)], b"new");
    let fx = step(&mut log, Message::FromClient(FromClient::PerformAppend(bytes.clone())));
    assert_eq!(fx.to_store, vec![bytes]);
}

#[test]
fn an_append_that_is_no_data_entry_breaks_the_protocol() {
    let mut log = ThreadLog::new(vec![5]);
    let mut fx = Effects::new();
    let request = multi(EntryLayout::Read, 0, &[(5, 1)], b"");
    let flow = log.handle_message(Message::FromClient(FromClient::PerformAppend(request)), &mut fx);
    assert_eq!(flow, Flow::Violation);
    assert!(fx.to_store.is_empty());
    let flow =
        log.handle_message(Message::FromClient(FromClient::PerformAppend(vec![1, 2, 3])), &mut fx);
    assert_eq!(flow, Flow::Violation);
    assert!(fx.to_store.is_empty());
}

#[test]
fn a_lock_breaks_the_protocol() {
    let mut log = ThreadLog::new(vec![5]);
    step(&mut log, snapshot(5));
    let mut fx = Effects::new();
    let lock = multi(EntryLayout::Lock, 1, &[(5, 1)], b"");
    assert_eq!(log.handle_message(read(5, 1, lock), &mut fx), Flow::Violation);
    assert_eq!(log.per_chains[0].outstanding_reads, 8);
}

#[test]
fn bytes_that_are_no_entry_break_the_protocol() {
    let mut log = ThreadLog::new(vec![5]);
    let mut fx = Effects::new();
    assert_eq!(log.handle_message(read(5, 1, vec![0xff; 40]), &mut fx), Flow::Violation);
    assert_eq!(log.handle_message(read(5, 1, vec![]), &mut fx), Flow::Violation);
}

#[test]
fn an_entry_twice_on_a_chain_breaks_the_protocol() {
    let mut log = ThreadLog::new(vec![5]);
    let mut fx = Effects::new();
    let twice = multi(EntryLayout::Multiput, 1, &[(5, 1), (5, 2)], b"");
    assert_eq!(log.handle_message(read(5, 1, twice), &mut fx), Flow::Violation);
    let unused_slots = multi(EntryLayout::Data, 1, &[(5, 1), (0, 0), (0, 0)], b"");
    step(&mut log, snapshot(5));
    assert_eq!(log.handle_message(read(5, 1, unused_slots), &mut fx), Flow::Continue);
}

#[test]
fn a_probe_answer_that_says_no_horizon_breaks_the_protocol() {
    let mut log = ThreadLog::new(vec![5]);
    step(&mut log, snapshot(5));
    let mut fx = Effects::new();
    let bytes = Entry {
        kind: EntryKind { layout: EntryLayout::Read, read_success: false },
        id: 0,
        locs: vec![OrderIndex(5, HORIZON_PROBE)],
        deps: vec![],
        data: vec![],
    }
    .encode(Vec::new());
    assert_eq!(log.handle_message(read(5, HORIZON_PROBE, bytes), &mut fx), Flow::Violation);
    assert_eq!(log.run(vec![snapshot(5), read(5, 1, vec![]), snapshot(5)], &mut fx), Flow::Violation);
    assert_eq!(log.num_snapshots, 2);
}

#[test]
fn an_answer_nobody_asked_for_is_taken_as_stale() {
    let mut log = ThreadLog::new(vec![5]);
    let fx = step(&mut log, horizon(5, 3));
    assert!(fx.ready_reads.is_empty());
    assert_eq!(horizon_of(&log, 5), 3);
    assert_eq!(fetched(&fx), vec![(5, 1), (5, 2), (5, 3)]);
    let fx = step(&mut log, nothing_at(5, 2));
    assert!(fx.ready_reads.is_empty());
    assert_eq!(fetched(&fx), vec![(5, 2), (5, 3)], "what was not there is asked for again");
    assert_eq!(log.per_chains[0].outstanding_reads, 4);
}

#[test]
fn a_stale_piece_of_a_multi_append_pulls_the_read_cursor_back() {
    let mut log = ThreadLog::new(vec![5]);
    step(&mut log, snapshot(5));
    let piece = multi(EntryLayout::Multiput, 4, &[(5, 3), (6, 0)], b"p");
    let fx = step(&mut log, read(5, 3, piece));
    assert!(fx.ready_reads.is_empty());
    assert!(log.blocked_multiappends.is_empty());
    assert_eq!(log.per_chains[0].last_read_sent_to_server, 2);
}

#[test]
fn an_entry_on_one_chain_in_the_layout_of_a_multi_append_is_delivered() {
    let mut log = ThreadLog::new(vec![5]);
    step(&mut log, snapshot(5));
    step(&mut log, horizon(5, 1));
    let e = multi(EntryLayout::Multiput, 4, &[(5, 1), (0, 0)], b"p");
    let fx = step(&mut log, read(5, 1, e.clone()));
    assert_eq!(fx.ready_reads, vec![e, vec![]]);
}

#[test]
fn check_entry_tells_duplicates_from_entries_beyond_the_horizon() {
    let mut log = ThreadLog::new(vec![5]);
    step(&mut log, snapshot(5));
    step(&mut log, horizon(5, 2));
    step(&mut log, read(5, 1, data(5, 1, &[], b"a")));
    assert_eq!(cursor(&log, 5), 1);
    let at = |index: u32| Entry::decode(&data(5, index, &[], b"x")).expect("it decodes");
    assert_eq!(log.check_entry(&at(1)), Verdict::Duplicate);
    assert_eq!(log.check_entry(&at(2)), Verdict::Deliverable);
    assert_eq!(log.check_entry(&at(3)), Verdict::Beyond(5));
    let elsewhere = Entry::decode(&data(9, 1, &[], b"x")).expect("it decodes");
    assert_eq!(log.check_entry(&elsewhere), Verdict::Beyond(9));
}
