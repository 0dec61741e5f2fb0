use rage_pool::pool::{MemoryHandle, MemoryPool};

#[test]
fn new_pool_is_empty() {
    let pool = MemoryPool::new();
    assert_eq!(pool.active_allocations(), 0);
    assert!(!pool.corruption_enabled());
    assert_eq!(pool.block_len(0), None);
}

#[test]
fn allocate_with_id_stores_zeroed_block_and_counts_it() {
    let mut pool = MemoryPool::new();
    let h = pool.allocate_with_id(7, 5);
    assert_eq!(h.id, 7);
    assert_eq!(pool.block_contents(7), Some(vec![0u8; 5]));
    assert_eq!(pool.active_allocations(), 1);
}

#[test]
fn allocate_draws_an_id_that_holds_the_block() {
    let mut pool = MemoryPool::new();
    let h = pool.allocate(1000);
    assert_eq!(pool.block_len(h.id), Some(1000));
    assert_eq!(pool.block_contents(h.id), Some(vec![0u8; 1000]));
    assert_eq!(pool.active_allocations(), 1);
}

#[test]
fn allocating_an_existing_id_replaces_the_block() {
    let mut pool = MemoryPool::new();
    let h = pool.allocate_with_id(3, 4);
    h.fill_pattern(&mut pool, 4);
    let _again = pool.allocate_with_id(3, 2);
    assert_eq!(pool.block_contents(3), Some(vec![0u8, 0u8]));
    assert_eq!(pool.active_allocations(), 2);
}

#[test]
fn get_mut_without_corruption_changes_nothing() {
    let mut pool = MemoryPool::new();
    let h = pool.allocate_with_id(1, 3);
    h.fill_pattern(&mut pool, 3);
    assert!(h.get_mut(&mut pool, true));
    assert_eq!(pool.block_contents(1), Some(vec![0u8, 1, 2]));
}

#[test]
fn get_mut_reports_missing_block() {
    let mut pool = MemoryPool::new();
    let h = pool.allocate_with_id(1, 3);
    h.corrupt_memory(&mut pool);
    let missing = MemoryHandle { id: 2 };
    assert!(!missing.get_mut(&mut pool, true));
    assert!(!missing.open_with(&mut pool, true, 9));
    assert_eq!(pool.block_len(2), None);
    assert_eq!(pool.block_contents(1), Some(vec![0u8; 3]));
    assert!(h.get_mut(&mut pool, false));
}

#[test]
fn open_with_corruption_and_coin_overwrites_block() {
    let mut pool = MemoryPool::new();
    let h = pool.allocate_with_id(4, 6);
    h.fill_pattern(&mut pool, 6);
    h.corrupt_memory(&mut pool);
    assert!(pool.corruption_enabled());
    assert!(h.open_with(&mut pool, true, 0xAB));
    assert_eq!(pool.block_contents(4), Some(vec![0xABu8; 6]));
}

#[test]
fn open_with_corruption_but_no_coin_keeps_block() {
    let mut pool = MemoryPool::new();
    let h = pool.allocate_with_id(4, 3);
    h.fill_pattern(&mut pool, 3);
    h.corrupt_memory(&mut pool);
    assert!(h.open_with(&mut pool, false, 0xAB));
    assert_eq!(pool.block_contents(4), Some(vec![0u8, 1, 2]));
}

#[test]
fn get_mut_with_corruption_keeps_length() {
    let mut pool = MemoryPool::new();
    let h = pool.allocate_with_id(8, 10);
    h.corrupt_memory(&mut pool);
    assert!(h.get_mut(&mut pool, true));
    let block = pool.block_contents(8).unwrap();
    assert_eq!(block.len(), 10);
    assert!(block.iter().all(|b| *b == block[0]));
}

#[test]
fn fill_pattern_writes_index_mod_256() {
    let mut pool = MemoryPool::new();
    let h = pool.allocate_with_id(1, 300);
    h.fill_pattern(&mut pool, 260);
    let block = pool.block_contents(1).unwrap();
    assert_eq!(block[0], 0);
    assert_eq!(block[255], 255);
    assert_eq!(block[256], 0);
    assert_eq!(block[259], 3);
    assert_eq!(block[260], 0);
    assert_eq!(block[299], 0);
}

#[test]
fn release_with_lock_removes_block_and_counts_down() {
    let mut pool = MemoryPool::new();
    let h = pool.allocate_with_id(5, 2);
    h.release(&mut pool, true);
    assert_eq!(pool.block_len(5), None);
    assert_eq!(pool.active_allocations(), 0);
}

#[test]
fn release_without_lock_keeps_block_but_counts_down() {
    let mut pool = MemoryPool::new();
    let h = pool.allocate_with_id(5, 2);
    h.release(&mut pool, false);
    assert_eq!(pool.block_len(5), Some(2));
    assert_eq!(pool.active_allocations(), 0);
}

#[test]
fn release_undoes_allocate_law() {
    let mut pool = MemoryPool::new();
    let keep = pool.allocate_with_id(1, 4);
    keep.fill_pattern(&mut pool, 4);
    let before = pool.block_contents(1);
    let count = pool.active_allocations();
    let h = pool.allocate_with_id(2, 9);
    h.release(&mut pool, true);
    assert_eq!(pool.block_contents(1), before);
    assert_eq!(pool.block_len(2), None);
    assert_eq!(pool.active_allocations(), count);
}

#[test]
fn counter_goes_negative_on_extra_release() {
    let mut pool = MemoryPool::new();
    let a = pool.allocate_with_id(1, 1);
    let b = pool.allocate_with_id(1, 1);
    a.release(&mut pool, true);
    b.release(&mut pool, true);
    assert_eq!(pool.active_allocations(), 0);
    let c = pool.allocate_with_id(2, 1);
    let stray = MemoryHandle { id: 2 };
    c.release(&mut pool, true);
    stray.release(&mut pool, true);
    assert_eq!(pool.active_allocations(), -1);
}

#[test]
fn counter_tracks_live_handles_over_a_sequence() {
    let mut pool = MemoryPool::new();
    let a = pool.allocate_with_id(1, 2);
    let b = pool.allocate_with_id(2, 2);
    let c = pool.allocate_with_id(3, 2);
    assert_eq!(pool.active_allocations(), 3);
    b.release(&mut pool, false);
    assert_eq!(pool.active_allocations(), 2);
    assert_eq!(pool.block_len(2), Some(2));
    a.release(&mut pool, true);
    assert_eq!(pool.active_allocations(), 1);
    assert_eq!(pool.block_len(1), None);
    assert_eq!(pool.block_len(3), Some(2));
    c.release(&mut pool, true);
    assert_eq!(pool.active_allocations(), 0);
}
