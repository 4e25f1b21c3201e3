use onsen::Pool;

#[test]
fn base_smoke() {
    let mut pool: Pool<&str> = Pool::new();

    let memory = pool.alloc_slot("Hello Memory");
    pool.free(memory);
}

#[test]
fn leak() {
    let mut pool: Pool<&str> = Pool::new();

    let _memory = pool.alloc_slot("Hello Memory");

    pool.leak();
}

#[test]
fn base_alloc_access() {
    let mut pool: Pool<&str> = Pool::new();

    let memory = pool.alloc_slot("Hello Memory").for_mutation();

    assert_eq!(memory.get(&pool), &"Hello Memory");
    memory.set(&mut pool, "Hello Memory");
    assert_eq!(memory.get(&pool), &"Hello Memory");

    pool.free(memory);
}

#[test]
fn alloc_uninit() {
    let mut pool: Pool<&str> = Pool::new();

    let memory = pool.alloc_uninit();

    pool.write_uninit(&memory, "Hello Init");
    let memory = memory.assume_init();

    assert_eq!(memory.get(&pool), &"Hello Init");

    pool.free(memory);
}
