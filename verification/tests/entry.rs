use onsen::Entry;

#[test]
fn entry_layout() {
    let mut e: Entry<String> = Entry::Uninit;
    e.write(String::from("Hello"));
    assert!(matches!(e, Entry::Data(ref s) if s == "Hello"));
}
