use onsen::Pool;
use onsen::Sc;

#[test]
fn sc_smoke() {
    let mut pool = Pool::new();
    let _mysc = Sc::new("Sc", &mut pool);
}

#[test]
fn sc_clone() {
    let mut pool = Pool::new();
    let mysc1 = Sc::new("Sc", &mut pool);
    let mysc2 = mysc1.clone(&mut pool);
    let mysc3 = mysc2.clone(&mut pool);

    assert_eq!(mysc1.get(&pool), &"Sc");
    assert_eq!(mysc1.get(&pool), mysc2.get(&pool));
    assert_eq!(mysc2.get(&pool), mysc3.get(&pool));
    assert_eq!(Sc::strong_count(&mysc3, &pool), 3);
}

#[test]
fn sc_deref_mut() {
    let mut pool = Pool::new();
    let mysc = Sc::new("Sc", &mut pool);
    mysc.set(&mut pool, "Changed");
    assert_eq!(mysc.get(&pool), &"Changed");
}
