use onsen::BasicBox;
use onsen::Pool;

#[test]
fn basicbox_smoke() {
    let mut pool = Pool::new();
    let bbox: BasicBox<u64> = BasicBox::default(&mut pool);
    BasicBox::drop(bbox, &mut pool)
}

#[test]
fn basicbox_alloc_access() {
    let mut pool = Pool::new();
    let bbox = BasicBox::new("Hello Memory", &mut pool);
    assert_eq!(bbox.get(&pool), &"Hello Memory");
    BasicBox::drop(bbox, &mut pool)
}

#[test]
fn alloc_mutate() {
    let mut pool = Pool::new();

    let bbox = BasicBox::new(12345, &mut pool);

    assert_eq!(*bbox.get(&pool), 12345);
    bbox.set(&mut pool, 54321);
    assert_eq!(*bbox.get(&pool), 54321);
    BasicBox::drop(bbox, &mut pool)
}
