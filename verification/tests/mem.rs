use std::cell::Cell;
use std::rc::Rc;
use userspace_router::mem::freelist::{FreeList, Layout, MIN_BLOCK};
use userspace_router::mem::pool::ObjectPool;
use userspace_router::mem::ring::{channel, SpscRing};
use userspace_router::mem::size::parse_size;

/// Where the test heaps are said to lie.
const BASE: u64 = 0x5000;

fn words(size: usize) -> Vec<u64> {
    vec![0u64; size / 8]
}

#[test]
fn alloc_is_within_arena_and_aligned() {
    let mut mem = words(4096);
    let mut list = FreeList::new(BASE, 4096, &mut mem);
    let layout = Layout::from_size_align(100, 8).unwrap();
    let p = list.allocate(layout);
    assert!(p.is_some());
    assert_eq!(p.unwrap() % 8, 0);
    assert!(p.unwrap() >= BASE && p.unwrap() + 100 <= BASE + 4096);
}

#[test]
fn honours_large_alignment() {
    let mut mem = words(4096);
    let mut list = FreeList::new(BASE, 4096, &mut mem);
    let layout = Layout::from_size_align(200, 64).unwrap();
    let p = list.allocate(layout);
    assert!(p.is_some());
    assert_eq!(p.unwrap() % 64, 0);
}

#[test]
fn distinct_blocks_do_not_overlap() {
    let mut mem = words(4096);
    let mut list = FreeList::new(BASE, 4096, &mut mem);
    let layout = Layout::from_size_align(128, 8).unwrap();
    let a = list.allocate(layout);
    let b = list.allocate(layout);
    assert!(a.is_some() && b.is_some());
    let (a, b) = (a.unwrap(), b.unwrap());
    list.write_word(a, 0x1111);
    list.write_word(b, 0x2222);
    assert_eq!(list.read_word(a), 0x1111);
    assert_eq!(list.read_word(b), 0x2222);
    assert!(a.abs_diff(b) >= 128);
}

#[test]
fn free_then_alloc_coalesces_back_to_full() {
    let mut mem = words(4096);
    let mut list = FreeList::new(BASE, 4096, &mut mem);
    let init = list.free_bytes();
    let layout = Layout::from_size_align(64, 8).unwrap();
    let p = list.allocate(layout);
    assert!(p.is_some());
    assert!(list.free_bytes() < init);
    list.dealloc(p.unwrap(), layout);
    assert_eq!(list.free_bytes(), init);
}

#[test]
fn coalesces_three_freed_blocks() {
    let mut mem = words(4096);
    let mut list = FreeList::new(BASE, 4096, &mut mem);
    let init = list.free_bytes();
    let layout = Layout::from_size_align(64, 8).unwrap();
    let a = list.allocate(layout);
    let b = list.allocate(layout);
    let c = list.allocate(layout);
    assert!(a.is_some() && b.is_some() && c.is_some());

    // Free out of order; the middle free should merge both neighbours.
    list.dealloc(a.unwrap(), layout);
    list.dealloc(c.unwrap(), layout);
    list.dealloc(b.unwrap(), layout);
    assert_eq!(list.free_bytes(), init);

    // The whole region is usable again in one allocation.
    let big = Layout::from_size_align((init - MIN_BLOCK) as usize, 8).unwrap();
    let p = list.allocate(big);
    assert!(p.is_some());
}

#[test]
fn exhaustion_returns_null() {
    let mut mem = words(256);
    let mut list = FreeList::new(BASE, 256, &mut mem);
    let layout = Layout::from_size_align(64, 8).unwrap();
    let mut handed_out = Vec::new();
    loop {
        let p = list.allocate(layout);
        if p.is_none() {
            break;
        }
        handed_out.push(p);
    }
    assert!(!handed_out.is_empty());
    assert!(list.allocate(layout).is_none());
    assert_eq!(handed_out.len(), 4);
}

#[test]
fn an_unaligned_region_is_trimmed() {
    let mut mem = words(64);
    let mut list = FreeList::new(BASE + 3, 70, &mut mem);
    // Five bytes go to the start and one to the end.
    assert_eq!(list.free_bytes(), 64);
    let p = list.allocate(Layout::from_size_align(8, 8).unwrap()).unwrap();
    assert_eq!(p, BASE + 8);
}

#[test]
fn small_blocks_take_a_whole_minimum_block() {
    let mut mem = words(256);
    let mut list = FreeList::new(BASE, 256, &mut mem);
    let layout = Layout::from_size_align(1, 1).unwrap();
    let p = list.allocate(layout).unwrap();
    assert_eq!(list.free_bytes(), 256 - MIN_BLOCK);
    list.dealloc(p, layout);
    assert_eq!(list.free_bytes(), 256);
}

#[test]
fn an_aligned_block_leaves_the_space_before_it_free() {
    let mut mem = words(1024);
    let mut list = FreeList::new(BASE + 16, 1024, &mut mem);
    let layout = Layout::from_size_align(64, 256).unwrap();
    let p = list.allocate(layout).unwrap();
    assert_eq!(p, BASE + 256);
    assert_eq!(list.free_bytes(), 1024 - 64);
    // The gap before it is handed out next.
    let q = list.allocate(Layout::from_size_align(32, 8).unwrap()).unwrap();
    assert!(q < p);
}

#[test]
fn words_of_a_block_survive_other_operations() {
    let mut mem = words(1024);
    let mut list = FreeList::new(BASE, 1024, &mut mem);
    let layout = Layout::from_size_align(64, 8).unwrap();
    let a = list.allocate(layout).unwrap();
    let b = list.allocate(layout).unwrap();
    let c = list.allocate(layout).unwrap();
    for i in 0..8 {
        list.write_word(b + 8 * i, 100 + i);
    }
    list.dealloc(a, layout);
    list.dealloc(c, layout);
    let d = list.allocate(layout).unwrap();
    list.write_word(d, 7);
    for i in 0..8 {
        assert_eq!(list.read_word(b + 8 * i), 100 + i);
    }
}

#[test]
fn layouts_have_power_of_two_alignment() {
    assert!(Layout::from_size_align(8, 0).is_none());
    assert!(Layout::from_size_align(8, 3).is_none());
    assert!(Layout::from_size_align(usize::MAX, 8).is_none());
    assert!(Layout::from_size_align(isize::MAX as usize, 1).is_some());
    assert!(Layout::from_size_align(isize::MAX as usize, 2).is_none());
    let l = Layout::from_size_align(24, 16).unwrap();
    assert_eq!((l.size(), l.align()), (24, 16));
}

/// Increments a shared counter when dropped, so tests can assert exactly how
/// many times values are destroyed.
struct Dropper(Rc<Cell<usize>>);

impl Drop for Dropper {
    fn drop(&mut self) {
        self.0.set(self.0.get() + 1);
    }
}

#[test]
fn many_handles_live_at_once() {
    let mut pool = ObjectPool::new(4);
    let a = pool.allocate(1u32).unwrap();
    let b = pool.allocate(2u32).unwrap();
    let c = pool.allocate(3u32).unwrap();
    assert_eq!(*a.as_ref(&pool) + *b.as_ref(&pool) + *c.as_ref(&pool), 6);
    assert_eq!(pool.available(), 1);
    assert_eq!(pool.capacity(), 4);
}

#[test]
fn slots_in_use_and_free_slots_add_up() {
    let mut pool = ObjectPool::new(3);
    let mut held = vec![];
    while let Some(h) = pool.allocate(held.len()) {
        assert!(h.index() < pool.capacity());
        held.push(h);
        assert_eq!(pool.available() + held.len(), 3);
    }
    assert_eq!(held.len(), 3);
    pool.release(held.remove(1));
    assert_eq!(pool.available() + held.len(), 3);
}

#[test]
fn exhaustion_returns_none() {
    let mut pool = ObjectPool::new(1);
    let _a = pool.allocate(10u32).unwrap();
    assert!(pool.allocate(20u32).is_none());
}

#[test]
fn slot_is_reused_after_drop() {
    let mut pool = ObjectPool::new(1);
    let a = pool.allocate(10u32).unwrap();
    let i = a.index();
    pool.release(a);
    let b = pool.allocate(20u32).unwrap();
    assert_eq!(b.index(), i);
    assert_eq!(*b.as_ref(&pool), 20);
}

#[test]
fn value_dropped_once_on_handle_drop() {
    let n = Rc::new(Cell::new(0));
    let mut pool = ObjectPool::new(2);
    {
        let h = pool.allocate(Dropper(n.clone())).unwrap();
        pool.release(h);
    }
    assert_eq!(n.get(), 1);
}

#[test]
fn pool_drop_releases_leaked_handle() {
    let n = Rc::new(Cell::new(0));
    let mut pool = ObjectPool::new(2);
    let h = pool.allocate(Dropper(n.clone())).unwrap();
    std::mem::forget(h); // slot stays "used"
    assert_eq!(n.get(), 0);
    drop(pool);
    assert_eq!(n.get(), 1); // teardown drops the live value
}

#[test]
fn into_inner_moves_without_double_drop() {
    let n = Rc::new(Cell::new(0));
    let mut pool = ObjectPool::new(2);
    let h = pool.allocate(Dropper(n.clone())).unwrap();
    let v = h.into_inner(&mut pool);
    assert_eq!(n.get(), 0); // not dropped by releasing the slot
    assert_eq!(pool.available(), 2); // slot returned
    drop(v);
    assert_eq!(n.get(), 1); // dropped exactly once, by the caller
}

#[test]
fn objects_can_be_edited_in_place() {
    let mut pool = ObjectPool::new(2);
    let a = pool.allocate(String::from("a")).unwrap();
    let b = pool.allocate(String::from("b")).unwrap();
    a.as_mut(&mut pool).push('!');
    assert_eq!(a.as_ref(&pool), "a!");
    assert_eq!(b.as_ref(&pool), "b");
}

#[test]
fn push_pop_single() {
    let mut ring: SpscRing<u64, 4> = SpscRing::new();
    assert!(ring.is_empty());

    ring.push(42).unwrap();
    assert_eq!(ring.len(), 1);

    let val = ring.pop().unwrap();
    assert_eq!(val, 42);
    assert!(ring.is_empty());
}

#[test]
fn push_until_full() {
    let mut ring: SpscRing<u32, 4> = SpscRing::new();

    // Capacity is N-1 = 3
    ring.push(1).unwrap();
    ring.push(2).unwrap();
    ring.push(3).unwrap();
    assert_eq!(ring.len(), 3);

    // Should fail: the ring is full
    let result = ring.push(4);
    assert!(result.is_err());
    assert_eq!(result.unwrap_err(), 4);
}

#[test]
fn pop_empty() {
    let mut ring: SpscRing<u32, 4> = SpscRing::new();
    assert!(ring.pop().is_none());
}

#[test]
fn fifo_order() {
    let mut ring: SpscRing<u32, 8> = SpscRing::new();

    for i in 0..7 {
        ring.push(i).unwrap();
    }
    for i in 0..7 {
        assert_eq!(ring.pop().unwrap(), i);
    }
}

#[test]
fn wrap_around() {
    let mut ring: SpscRing<u32, 4> = SpscRing::new();

    // Fill and drain multiple times to test wrap-around
    for _ in 0..10 {
        ring.push(1).unwrap();
        ring.push(2).unwrap();
        ring.push(3).unwrap();

        assert_eq!(ring.pop().unwrap(), 1);
        assert_eq!(ring.pop().unwrap(), 2);
        assert_eq!(ring.pop().unwrap(), 3);
        assert!(ring.is_empty());
    }
}

#[test]
fn capacity() {
    let ring: SpscRing<u32, 16> = SpscRing::new();
    assert_eq!(ring.capacity(), 15);
}

#[test]
fn a_ring_of_one_slot_holds_nothing() {
    let mut ring: SpscRing<u32, 1> = SpscRing::new();
    assert_eq!(ring.capacity(), 0);
    assert_eq!(ring.push(9), Err(9));
    assert!(ring.pop().is_none());
}

#[test]
fn a_channel_carries_items_in_order() {
    let (tx, rx) = channel::<u32, 4>();
    assert!(rx.is_empty());
    assert_eq!((tx.capacity(), rx.capacity()), (3, 3));
    assert_eq!(tx.push(1), Ok(()));
    assert_eq!(tx.push(2), Ok(()));
    assert_eq!(tx.push(3), Ok(()));
    assert_eq!(tx.push(4), Err(4));
    assert_eq!((tx.len(), rx.len()), (3, 3));
    assert_eq!(rx.pop(), Some(1));
    assert_eq!(tx.push(4), Ok(()));
    assert_eq!((rx.pop(), rx.pop(), rx.pop(), rx.pop()), (Some(2), Some(3), Some(4), None));
    assert!(tx.is_empty());
}

#[test]
fn a_channel_keeps_order_over_a_whole_run() {
    let (tx, rx) = channel::<u32, 4>();
    let (mut put, mut got) = (vec![], vec![]);
    for i in 0..40u32 {
        // Two pushes for each pop, later two pops for each push.
        let pops = if i < 20 { 1 } else { 2 };
        for k in 0..3 - pops {
            let item = 10 * i + k;
            match tx.push(item) {
                Ok(()) => put.push(item),
                Err(back) => {
                    assert_eq!(back, item);
                    assert_eq!(put.len() - got.len(), 3);
                }
            }
        }
        for _ in 0..pops {
            match rx.pop() {
                Some(item) => got.push(item),
                None => assert_eq!(put, got),
            }
        }
        assert_eq!(rx.len(), put.len() - got.len());
        assert_eq!(put[..got.len()], got);
    }
    assert_eq!(put, got);
}

#[test]
fn each_end_of_a_channel_sees_the_other_close() {
    let (tx, rx) = channel::<u32, 4>();
    assert!(!tx.is_closed() && !rx.is_closed());
    tx.push(5).unwrap();
    drop(tx);
    assert!(rx.is_closed());
    // What was sent before is still received.
    assert_eq!(rx.pop(), Some(5));

    let (tx, rx) = channel::<u32, 4>();
    drop(rx);
    assert!(tx.is_closed());
}

#[test]
fn sizes_have_binary_and_decimal_units() {
    assert_eq!(parse_size("1GiB"), Some(1 << 30));
    assert_eq!(parse_size(" 2 KiB "), Some(2048));
    assert_eq!(parse_size("3MiB"), Some(3 << 20));
    assert_eq!(parse_size("1TiB"), Some(1 << 40));
    assert_eq!(parse_size("5KB"), Some(5000));
    assert_eq!(parse_size("5MB"), Some(5_000_000));
    assert_eq!(parse_size("5GB"), Some(5_000_000_000));
    assert_eq!(parse_size("5TB"), Some(5_000_000_000_000));
    assert_eq!(parse_size("17B"), Some(17));
    assert_eq!(parse_size("+18"), Some(18));
    assert_eq!(parse_size("0"), Some(0));
}

#[test]
fn what_is_not_a_size_is_refused() {
    assert_eq!(parse_size(""), None);
    assert_eq!(parse_size("KiB"), None);
    assert_eq!(parse_size("1.5GiB"), None);
    assert_eq!(parse_size("-1"), None);
    assert_eq!(parse_size("1 PiB"), None);
    assert_eq!(parse_size("1gib"), None);
    assert_eq!(parse_size("18446744073709551616"), None);
    assert_eq!(parse_size("99999999999TiB"), None);
}
