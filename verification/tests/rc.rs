use onsen::Pool;
use onsen::Rc;

#[test]
fn rc_smoke() {
    let mut pool = Pool::new();
    let _myrc = Rc::new("Rc", &mut pool);
}

#[test]
fn macro_test() {
    let mut pool = Pool::new();
    let myrc = Rc::new("Rc", &mut pool);
    assert_eq!(myrc.get(&pool), &"Rc");
}

#[test]
fn rc_clone() {
    let mut pool = Pool::new();
    let myrc1 = Rc::new("Rc", &mut pool);
    let myrc2 = myrc1.clone(&mut pool);
    let myrc3 = myrc2.clone(&mut pool);

    assert_eq!(myrc1.get(&pool), &"Rc");
    assert_eq!(myrc1.get(&pool), myrc2.get(&pool));
    assert_eq!(myrc2.get(&pool), myrc3.get(&pool));
    assert_eq!(Rc::strong_count(&myrc3, &pool), 3);
}

#[test]
fn rc_deref_mut() {
    let mut pool = Pool::new();
    let myrc = Rc::new("Rc", &mut pool);
    myrc.set(&mut pool, "Changed");
    assert_eq!(myrc.get(&pool), &"Changed");
}

#[test]
fn weak() {
    let mut pool = Pool::new();
    let myrc = Rc::new("Rc", &mut pool);
    let weak = Rc::downgrade(&myrc, &mut pool);
    assert_eq!(weak.strong_count(&pool), 1);
    assert_eq!(weak.weak_count(&pool), 1);
    let strong = weak.upgrade(&mut pool).unwrap();
    assert_eq!(Rc::strong_count(&strong, &pool), 2);
    assert_eq!(myrc.get(&pool), strong.get(&pool));
    assert_eq!(strong.get(&pool), &"Rc");
}
