use asap_core::pending::FastUsizeSet;

#[test]
fn pending_pop_is_lifo() {
    let mut s = FastUsizeSet::new(5);
    s.add(3);
    s.add(1);
    s.add(4);
    assert_eq!(s.pop(), Some(4));
    assert_eq!(s.pop(), Some(1));
    assert_eq!(s.pop(), Some(3));
    assert_eq!(s.pop(), None);
}

#[test]
fn pending_add_is_idempotent() {
    let mut s = FastUsizeSet::new(4);
    s.add(2);
    s.add(2);
    s.add(2);
    assert_eq!(s.pop(), Some(2));
    assert_eq!(s.pop(), None);
}

#[test]
fn pending_readd_after_pop() {
    let mut s = FastUsizeSet::new(3);
    s.add(0);
    s.add(1);
    assert_eq!(s.pop(), Some(1));
    s.add(1);
    s.add(0);
    assert_eq!(s.pop(), Some(1));
    assert_eq!(s.pop(), Some(0));
    assert_eq!(s.pop(), None);
}

#[test]
fn pending_empty_set_pops_none() {
    let mut s = FastUsizeSet::new(0);
    assert_eq!(s.pop(), None);
}

#[test]
fn seed_all_holds_every_id_in_order() {
    let mut s = asap_core::pending::seed_all(3);
    assert_eq!(s.pop(), Some(2));
    assert_eq!(s.pop(), Some(1));
    assert_eq!(s.pop(), Some(0));
    assert_eq!(s.pop(), None);
}
