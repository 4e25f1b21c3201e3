use onsen::BasicBox;
use onsen::NaNTagging;
use onsen::Pool;
use onsen::Rc;
use onsen::Slot;
use onsen::Weak;

#[test]
fn accounting_balance() {
    // Live handles plus freelist length plus unused bump slots always
    // account for the whole capacity.
    let mut pool: Pool<u32> = Pool::new();
    let a = pool.allocate(1);
    let b = pool.allocate(2);
    let c = pool.allocate(3);
    pool.dealloc(b);
    let (used, free, capacity) = pool.stat();
    let (reserved, reserved_capacity) = pool.inner.reserved();
    assert_eq!(used, 2);
    assert_eq!(free, 1);
    assert_eq!(capacity, 64);
    assert_eq!(used + free, reserved);
    assert_eq!(capacity, reserved_capacity);
    assert!(reserved <= capacity);
    pool.dealloc(a);
    pool.dealloc(c);
    assert!(pool.is_all_free());
}

#[test]
fn refs_stay_in_one_block() {
    // Every handed-out position names exactly one block, and that block's
    // range never moves while the pool lives.
    let mut pool: Pool<usize> = Pool::new();
    let mut handles = Vec::new();
    for i in 0..130 {
        handles.push(pool.allocate(i));
    }
    for h in &handles {
        let r = h.entry_ref();
        assert!(r.block < pool.inner.blocks.len());
        assert!(r.index < pool.inner.blocks[r.block].capacity);
    }
    for h in handles {
        pool.dealloc(h);
    }
}

#[test]
fn bump_growth() {
    // With a minimum of 64 entries, the 65th allocation creates block 1 of
    // twice the capacity; items 0..=63 lie in block 0, item 64 in block 1.
    let mut pool: Pool<u32> = Pool::new();
    pool.with_min_entries(64);
    let mut handles = Vec::new();
    for i in 0..65 {
        handles.push(pool.allocate(i));
    }
    assert_eq!(pool.inner.blocks.len(), 2);
    assert_eq!(pool.inner.blocks[0].capacity, 64);
    assert!(pool.inner.blocks[1].capacity >= 128);
    for h in handles.iter().take(64) {
        assert_eq!(h.entry_ref().block, 0);
    }
    assert_eq!(handles[64].entry_ref().block, 1);
    for h in handles {
        pool.dealloc(h);
    }
}

#[test]
fn block_count_logarithmic() {
    // 65 allocations starting from capacity 64 need at most
    // ceil(log2(65 / 64)) + 1 = 2 blocks.
    let mut pool: Pool<u32> = Pool::new();
    let mut handles = Vec::new();
    for i in 0..65 {
        handles.push(pool.allocate(i));
    }
    assert_eq!(pool.inner.blocks.len(), 2);
    for h in handles {
        pool.dealloc(h);
    }
}

#[test]
fn first_allocation_creates_block() {
    // The first allocation creates block 0 with at least
    // max(64, min_entries) entries, rounded up to a power of two.
    let mut pool: Pool<u8> = Pool::new();
    pool.with_min_entries(100);
    assert_eq!(pool.inner.blocks.len(), 0);
    let h = pool.allocate(7);
    assert_eq!(pool.inner.blocks.len(), 1);
    assert_eq!(pool.inner.blocks[0].capacity, 128);
    pool.dealloc(h);
}

#[test]
fn growth_never_reallocates() {
    // Filling a block creates a successor; the full block is untouched.
    let mut pool: Pool<u32> = Pool::new();
    let mut handles = Vec::new();
    for i in 0..64 {
        handles.push(pool.allocate(i));
    }
    assert_eq!(pool.inner.blocks.len(), 1);
    let before_capacity = pool.inner.blocks[0].capacity;
    let h = pool.allocate(64);
    assert_eq!(pool.inner.blocks.len(), 2);
    assert_eq!(pool.inner.blocks[0].capacity, before_capacity);
    assert_eq!(pool.inner.blocks[0].entries.len(), 64);
    pool.dealloc(h);
    for h in handles {
        pool.dealloc(h);
    }
}

#[test]
fn single_node_freelist_roundtrip() {
    // A freelist of one node survives an alloc/dealloc pair intact.
    let mut pool: Pool<u32> = Pool::new();
    let a = pool.allocate(1);
    pool.dealloc(a);
    assert_eq!(pool.stat(), (0, 1, 64));
    let b = pool.allocate(2);
    assert_eq!(pool.stat(), (1, 0, 64));
    pool.dealloc(b);
    assert_eq!(pool.stat(), (0, 1, 64));
}

#[test]
fn realloc_same_address() {
    // Allocate, deallocate, reallocate yields the same slot.
    let mut pool: Pool<u32> = Pool::new();
    let p = pool.allocate(1);
    let addr = p.entry_ref();
    pool.dealloc(p);
    let q = pool.allocate(2);
    assert_eq!(q.entry_ref(), addr);
    pool.dealloc(q);
}

#[test]
fn dealloc_restores_stat() {
    // With a warm freelist, an alloc/dealloc pair restores the observable
    // pool state: the stat triple and the next slot to be handed out.
    let mut pool: Pool<u32> = Pool::new();
    let warm = pool.allocate(0);
    pool.dealloc(warm);
    let before = pool.stat();
    let head_before = pool.inner.freelist;
    let p = pool.allocate(1);
    pool.dealloc(p);
    assert_eq!(pool.stat(), before);
    assert_eq!(pool.inner.freelist, head_before);
}

#[test]
fn take_yields_original() {
    // Take-value yields the original: take(alloc(x)) == x.
    let mut pool: Pool<u32> = Pool::new();
    let b = pool.allocate(42);
    assert_eq!(pool.take(b), 42);
    let mut pool2: Pool<String> = Pool::new();
    let s2 = pool2.allocate(String::from("kept"));
    assert_eq!(pool2.take(s2), "kept");
}

#[test]
fn box_into_inner_yields_original() {
    // The owning box hands its value back unchanged.
    let mut pool = Pool::new();
    let b = BasicBox::new(42, &mut pool);
    assert_eq!(BasicBox::into_inner(b, &mut pool), 42);
}

#[test]
fn rc_drop_cycle() {
    // Strong and weak handles wind down to an empty pool.
    let mut pool = Pool::new();
    let r1 = Rc::new("x", &mut pool);
    let r2 = r1.clone(&mut pool);
    let w = Rc::downgrade(&r1, &mut pool);
    Rc::drop(r1, &mut pool);
    assert_eq!(Rc::strong_count(&r2, &pool), 1);
    Rc::drop(r2, &mut pool);
    assert!(w.upgrade(&mut pool).is_none());
    Weak::drop(w, &mut pool);
    assert!(pool.is_all_free());
}

#[test]
fn forget_leaks_value_returns_slot() {
    // Forget leaks the value (no destructor) but recovers the slot.
    struct Droppable {
        flag: std::rc::Rc<std::cell::Cell<bool>>,
    }
    impl Drop for Droppable {
        fn drop(&mut self) {
            self.flag.set(true);
        }
    }
    let flag = std::rc::Rc::new(std::cell::Cell::new(false));
    let mut pool = Pool::new();
    let b = BasicBox::new(Droppable { flag: flag.clone() }, &mut pool);
    BasicBox::forget(b, &mut pool);
    assert!(!flag.get());
    assert_eq!(pool.stat().0, 0);
}

#[test]
fn dealloc_runs_destructor() {
    // A plain dealloc does run the destructor.
    struct Droppable {
        flag: std::rc::Rc<std::cell::Cell<bool>>,
    }
    impl Drop for Droppable {
        fn drop(&mut self) {
            self.flag.set(true);
        }
    }
    let flag = std::rc::Rc::new(std::cell::Cell::new(false));
    let mut pool = Pool::new();
    let b = BasicBox::new(Droppable { flag: flag.clone() }, &mut pool);
    BasicBox::drop(b, &mut pool);
    assert!(flag.get());
    assert_eq!(pool.stat().0, 0);
}

#[test]
fn tagged_identifier_roundtrip() {
    // A slot id is 8-aligned, 48 bits wide, and round-trips, with or
    // without auxiliary tag bits.
    let mut pool: Pool<u32> = Pool::new();
    let slot = pool.alloc_slot(7).for_nantagging();
    let r = slot.entry_ref();
    let id = slot.into_u64();
    assert_eq!(id & 0xffff000000000007, 0);
    let back: Slot<u32, NaNTagging> = Slot::from_u64(id);
    assert_eq!(back.entry_ref(), r);
    let tagged = id | 0xaaa0000000000005;
    let masked: Slot<u32, NaNTagging> = Slot::from_u64_masked(tagged);
    assert_eq!(masked.entry_ref(), r);
    pool.free(back);
}

#[test]
fn freelist_survives_churn() {
    // Heavy alloc/free churn keeps the bookkeeping exact and reuses slots
    // instead of growing new blocks.
    let mut pool: Pool<usize> = Pool::new();
    let mut handles = Vec::new();
    for i in 0..40 {
        handles.push(pool.allocate(i));
    }
    for h in handles.drain(..) {
        pool.dealloc(h);
    }
    assert_eq!(pool.stat(), (0, 40, 64));
    for i in 0..40 {
        handles.push(pool.allocate(1000 + i));
    }
    assert_eq!(pool.stat(), (40, 0, 64));
    let mut refs: Vec<_> = handles.iter().map(|h| h.entry_ref()).collect();
    refs.sort_by_key(|r| (r.block, r.index));
    refs.dedup();
    assert_eq!(refs.len(), 40);
    for (i, h) in handles.drain(..).enumerate() {
        assert_eq!(pool.take(h), 1000 + i);
    }
    assert!(pool.is_all_free());
}

#[test]
fn min_entries_floor() {
    // A minimum below 64 still yields a first block of 64 entries.
    let mut pool: Pool<u8> = Pool::new();
    pool.with_min_entries(0);
    let h = pool.allocate(1);
    assert_eq!(pool.inner.blocks[0].capacity, 64);
    pool.dealloc(h);
}

#[test]
fn freelist_partial_sort_churn() {
    // Frees in mixed position order exercise every branch of the partially
    // address-ordered insert; the bookkeeping stays exact throughout and
    // every slot is reused.
    let mut pool: Pool<usize> = Pool::new();
    let mut handles: Vec<_> = (0..32).map(|i| Some(pool.allocate(i))).collect();
    let order = [0, 31, 16, 1, 30, 15, 2, 29, 14, 17, 3, 28, 13, 18, 4, 27];
    let mut freed = 0;
    for &i in &order {
        pool.dealloc(handles[i].take().unwrap());
        freed += 1;
        let (used, free, capacity) = pool.stat();
        assert_eq!(used, 32 - freed);
        assert_eq!(free, freed);
        assert_eq!(capacity, 64);
    }
    for &i in order.iter().rev() {
        handles[i] = Some(pool.allocate(100 + i));
    }
    assert_eq!(pool.stat(), (32, 0, 64));
    for (i, h) in handles.into_iter().enumerate() {
        let h = h.unwrap();
        let v = pool.take(h);
        assert!(v == i || v == 100 + i);
    }
    assert!(pool.is_all_free());
}
