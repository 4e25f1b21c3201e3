use onsen::Pool;

#[test]
fn pool_smoke() {
    let _pool: Pool<String> = Pool::new();
}
