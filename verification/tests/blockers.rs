use fuzzy_log::blockers::Blockers;
use fuzzy_log::buffer_cache::{BufferCache, BUFFER_CACHE_CAP};
use fuzzy_log::packets::{Entry, EntryKind, EntryLayout, OrderIndex};

fn entry(id: u128) -> Entry {
    Entry {
        kind: EntryKind { layout: EntryLayout::Data, read_success: true },
        id,
        locs: vec![OrderIndex(1, 9)],
        deps: vec![],
        data: vec![],
    }
}

#[test]
fn release_frees_what_waited_for_nothing_else_oldest_first() {
    let mut b = Blockers::new();
    b.block(entry(1), vec![OrderIndex(5, 1)]);
    b.block(entry(2), vec![OrderIndex(5, 1), OrderIndex(6, 1)]);
    b.block(entry(3), vec![OrderIndex(5, 1), OrderIndex(5, 1)]);
    b.block(entry(4), vec![OrderIndex(7, 1)]);
    assert_eq!(b.len(), 4);
    let freed = b.release(OrderIndex(5, 1));
    assert_eq!(freed.iter().map(|e| e.id).collect::<Vec<_>>(), vec![1, 3]);
    assert_eq!(b.len(), 2);
    assert_eq!(b.blocked[0].entry.id, 2);
    assert_eq!(b.blocked[0].waits, vec![OrderIndex(6, 1)]);
    assert_eq!(b.blocked[1].entry.id, 4);
    let freed = b.release(OrderIndex(6, 1));
    assert_eq!(freed.iter().map(|e| e.id).collect::<Vec<_>>(), vec![2]);
    let freed = b.release(OrderIndex(6, 1));
    assert!(freed.is_empty());
    assert_eq!(b.len(), 1);
}

#[test]
fn the_pool_hands_out_what_was_cached_last() {
    let mut cache = BufferCache::new();
    assert_eq!(cache.alloc_buffer().capacity(), 0);
    cache.cache_buffer(Vec::with_capacity(100));
    cache.cache_buffer(vec![1, 2, 3]);
    let first = cache.alloc_buffer();
    assert!(first.is_empty());
    assert!(first.capacity() >= 3 && first.capacity() < 100);
    let second = cache.alloc_buffer();
    assert!(second.is_empty());
    assert!(second.capacity() >= 100);
    assert_eq!(cache.alloc_buffer().capacity(), 0);
}

#[test]
fn the_pool_keeps_no_more_than_its_cap() {
    let mut cache = BufferCache::new();
    for _ in 0..BUFFER_CACHE_CAP + 20 {
        cache.cache_buffer(Vec::with_capacity(16));
    }
    assert_eq!(cache.vec_cache.len(), BUFFER_CACHE_CAP);
    assert_eq!(BUFFER_CACHE_CAP, 100);
}
