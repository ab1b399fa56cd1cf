use fuzzy_log::packets::{Entry, EntryKind, EntryLayout, OrderIndex};
use fuzzy_log::per_chain::{PerChain, ReadState, MAX_PIPELINED, MAX_PREFETCH};

fn entry_at(chain: u32, index: u32) -> Entry {
    Entry {
        kind: EntryKind { layout: EntryLayout::Data, read_success: true },
        id: 1,
        locs: vec![OrderIndex(chain, index)],
        deps: vec![],
        data: vec![],
    }
}

#[test]
fn a_new_chain_has_nothing() {
    let pc = PerChain::new(5);
    assert_eq!(pc.chain, 5);
    assert_eq!(pc.last_snapshot, 0);
    assert_eq!(pc.last_read_sent_to_server, 0);
    assert_eq!(pc.outstanding_reads, 0);
    assert_eq!(pc.last_returned_to_client, 0);
    assert!(pc.blocked_on_new_snapshot.is_none());
    assert!(pc.found_but_unused_multiappends.is_empty());
    assert!(pc.is_being_read.is_none());
    assert!(!pc.is_interesting);
    assert!(PerChain::interesting(5).is_interesting);
}

#[test]
fn num_to_fetch_is_what_is_needed_within_the_cap() {
    let mut pc = PerChain::new(1);
    assert_eq!(pc.num_to_fetch(), 0);
    pc.last_snapshot = 10;
    pc.last_read_sent_to_server = 4;
    assert_eq!(pc.num_to_fetch(), 6);
    pc.outstanding_reads = MAX_PIPELINED - 2;
    assert_eq!(pc.num_to_fetch(), 2);
    pc.outstanding_reads = MAX_PIPELINED;
    assert_eq!(pc.num_to_fetch(), 0);
    pc.outstanding_reads = 0;
    pc.last_read_sent_to_server = 10;
    assert_eq!(pc.num_to_fetch(), 0);
    pc.last_read_sent_to_server = 12;
    assert_eq!(pc.num_to_fetch(), 0);
}

#[test]
fn num_to_prefetch_reads_ahead() {
    let mut pc = PerChain::new(1);
    assert_eq!(pc.num_to_prefetch(), MAX_PREFETCH);
    pc.last_snapshot = 100;
    pc.last_read_sent_to_server = 40;
    assert_eq!(pc.num_to_prefetch(), 60);
    pc.last_read_sent_to_server = 97;
    assert_eq!(pc.num_to_prefetch(), 8);
    pc.last_read_sent_to_server = 120;
    assert_eq!(pc.num_to_prefetch(), 8);
    pc.outstanding_reads = MAX_PIPELINED - 3;
    assert_eq!(pc.num_to_prefetch(), 3);
    pc.outstanding_reads = MAX_PIPELINED + 5;
    assert_eq!(pc.num_to_prefetch(), 0);
    pc.outstanding_reads = 0;
    pc.last_snapshot = 5000;
    pc.last_read_sent_to_server = 0;
    assert_eq!(pc.num_to_prefetch(), MAX_PIPELINED);
}

#[test]
fn set_returned_moves_the_cursor_and_ends_the_session() {
    let mut pc = PerChain::new(1);
    pc.last_snapshot = 2;
    pc.increment_outstanding_reads();
    assert!(pc.is_being_read.is_some());
    assert!(pc.can_return(1));
    assert!(!pc.can_return(2));
    pc.set_returned(1);
    assert_eq!(pc.last_returned_to_client, 1);
    assert!(pc.has_returned(1));
    assert!(pc.next_return_is(2));
    assert!(pc.is_being_read.is_some());
    pc.set_returned(2);
    assert_eq!(pc.last_returned_to_client, 2);
    assert!(pc.is_being_read.is_none());
    assert!(pc.is_finished());
}

#[test]
fn set_returned_keeps_a_session_with_a_snapshot_outstanding() {
    let mut pc = PerChain::new(1);
    pc.last_snapshot = 1;
    assert_eq!(pc.increment_outstanding_snapshots(), 1);
    pc.set_returned(1);
    assert!(pc.is_being_read.is_some());
    assert!(!pc.is_finished());
    assert!(!pc.finished_until_snapshot());
    assert_eq!(pc.decrement_outstanding_snapshots(), 0);
    assert!(pc.finished_until_snapshot());
    assert!(pc.is_finished());
}

#[test]
fn next_return_is_never_index_zero() {
    let mut pc = PerChain::new(1);
    assert!(!pc.next_return_is(0));
    assert!(pc.next_return_is(1));
    assert!(pc.has_returned(0));
    pc.last_returned_to_client = u32::MAX;
    assert!(!pc.next_return_is(0));
    assert!(pc.has_returned(u32::MAX));
}

#[test]
fn overread_pulls_the_read_cursor_back() {
    let mut pc = PerChain::new(1);
    pc.last_read_sent_to_server = 8;
    pc.overread_at(4);
    assert_eq!(pc.last_read_sent_to_server, 3);
    pc.overread_at(6);
    assert_eq!(pc.last_read_sent_to_server, 3);
    pc.last_returned_to_client = 3;
    pc.overread_at(2);
    assert_eq!(pc.last_read_sent_to_server, 3);
}

#[test]
fn counters_saturate() {
    let mut pc = PerChain::new(1);
    pc.is_being_read = Some(ReadState {
        outstanding_snapshots: u32::MAX,
        num_multiappends_searching_for: usize::MAX,
    });
    assert_eq!(pc.increment_outstanding_snapshots(), u32::MAX);
    pc.increment_multi_search();
    assert_eq!(pc.is_being_read.as_ref().unwrap().num_multiappends_searching_for, usize::MAX);
    pc.decrement_outstanding_reads();
    assert_eq!(pc.outstanding_reads, 0);
    pc.last_snapshot = u32::MAX;
    pc.last_returned_to_client = 0;
    assert!(pc.increment_horizon().is_none());
    assert_eq!(pc.last_snapshot, u32::MAX);
}

#[test]
fn multi_search_counts_up_and_down() {
    let mut pc = PerChain::new(1);
    assert!(!pc.is_searching_for_multi());
    pc.increment_multi_search();
    pc.increment_multi_search();
    assert!(pc.is_searching_for_multi());
    pc.decrement_multi_search();
    assert!(pc.is_searching_for_multi());
    pc.decrement_multi_search();
    assert!(!pc.is_searching_for_multi());
    assert!(pc.is_being_read.is_some());
}

#[test]
fn update_horizon_never_lowers_the_horizon() {
    let mut pc = PerChain::new(1);
    assert!(pc.update_horizon(5).is_none());
    assert_eq!(pc.last_snapshot, 5);
    assert!(pc.update_horizon(3).is_none());
    assert_eq!(pc.last_snapshot, 5);
    assert!(pc.update_horizon(5).is_none());
    assert_eq!(pc.last_snapshot, 5);
    assert!(pc.is_within_snapshot(5));
    assert!(!pc.is_within_snapshot(6));
}

#[test]
fn update_horizon_pulls_back_a_read_cursor_that_ran_past() {
    let mut pc = PerChain::new(1);
    pc.last_read_sent_to_server = 8;
    pc.update_horizon(3);
    assert_eq!(pc.last_read_sent_to_server, 3);
    pc.update_horizon(10);
    assert_eq!(pc.last_read_sent_to_server, 3);
}

#[test]
fn update_horizon_frees_the_entry_it_reaches() {
    let mut pc = PerChain::new(1);
    pc.block_on_snapshot(entry_at(1, 4));
    assert!(pc.update_horizon(3).is_none());
    assert!(pc.blocked_on_new_snapshot.is_some());
    let freed = pc.update_horizon(4).expect("the horizon reached the entry");
    assert_eq!(freed.locs, vec![OrderIndex(1, 4)]);
    assert!(pc.blocked_on_new_snapshot.is_none());
}

#[test]
fn update_horizon_keeps_an_entry_of_another_chain() {
    let mut pc = PerChain::new(1);
    pc.block_on_snapshot(entry_at(2, 1));
    assert!(pc.update_horizon(9).is_none());
    assert!(pc.blocked_on_new_snapshot.is_some());
}

#[test]
fn a_later_entry_supersedes_the_one_that_was_kept() {
    let mut pc = PerChain::new(1);
    pc.block_on_snapshot(entry_at(1, 4));
    pc.block_on_snapshot(entry_at(1, 5));
    assert_eq!(pc.blocked_on_new_snapshot.as_ref().unwrap().locs, vec![OrderIndex(1, 5)]);
}

#[test]
fn increment_horizon_moves_it_by_one() {
    let mut pc = PerChain::new(1);
    pc.last_snapshot = 6;
    assert!(pc.increment_horizon().is_none());
    assert_eq!(pc.last_snapshot, 7);
}

#[test]
fn early_sentinels_are_taken_once() {
    let mut pc = PerChain::new(1);
    pc.add_early_sentinel(77, 4);
    assert_eq!(pc.take_early_sentinel(78), None);
    assert_eq!(pc.take_early_sentinel(77), Some(4));
    assert_eq!(pc.take_early_sentinel(77), None);
}

#[test]
fn currently_buffering_is_what_was_asked_for_and_not_delivered() {
    let mut pc = PerChain::new(1);
    pc.last_read_sent_to_server = 9;
    pc.last_returned_to_client = 4;
    assert_eq!(pc.currently_buffering(), 5);
    pc.last_returned_to_client = 12;
    assert_eq!(pc.currently_buffering(), 0);
}

#[test]
fn outstanding_reads_are_counted() {
    let mut pc = PerChain::new(1);
    assert!(!pc.has_outstanding_reads());
    pc.increment_outstanding_reads();
    assert!(pc.has_outstanding_reads());
    assert!(!pc.has_outstanding_snapshots());
    pc.decrement_outstanding_reads();
    assert!(!pc.has_outstanding_reads());
}
