use rox::lec::Vec as Lec;

#[test]
fn lec_new() {
    let lec: Lec<u8> = Lec::new();

    assert_eq!(0, lec.items.len());
    assert_eq!(0, lec.len());
    assert_eq!(0, lec.capacity());
}

#[test]
fn lec_push_and_pop() {
    let mut lec: Lec<u8> = Lec::new();

    assert_eq!(0, lec.len());
    assert_eq!(0, lec.capacity());
    lec.push(1);
    assert_eq!(1, lec.len());
    assert_eq!(1, lec.capacity());
    lec.push(2);
    assert_eq!(2, lec.len());
    assert_eq!(2, lec.capacity());
    lec.push(3);
    assert_eq!(3, lec.len());
    assert_eq!(4, lec.capacity());
    let value = lec.pop();
    assert_eq!(3, value.unwrap());
    assert_eq!(2, lec.len());
    assert_eq!(4, lec.capacity());
}

#[test]
fn lec_grows_by_doubling() {
    let mut lec: Lec<u32> = Lec::new();
    assert!(lec.is_empty());
    let mut capacities = Vec::new();
    for i in 0..9 {
        lec.push(i);
        capacities.push(lec.capacity());
    }
    assert_eq!(capacities, vec![1, 2, 4, 4, 8, 8, 8, 8, 16]);
    assert!(!lec.is_empty());
    lec.grow();
    assert_eq!(lec.capacity(), 32);
    assert_eq!(lec.len(), 9);
}

#[test]
fn lec_pop_on_empty_gives_nothing() {
    let mut lec: Lec<u8> = Lec::new();
    assert_eq!(lec.pop(), None);
    lec.push(7);
    assert_eq!(lec.pop(), Some(7));
    assert_eq!(lec.pop(), None);
    assert_eq!(lec.capacity(), 1);
}
