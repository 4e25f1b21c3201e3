use onsen::Block;

#[test]
fn block_smoke() {
    let block: Block<String> = Block::new_first(0);
    let _block2 = Block::new_next(&block);
}
