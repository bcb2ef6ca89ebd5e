use linked_lists::fourth::{AccessGate, BorrowConflict, List};

#[test]
fn front() {
    let mut list = List::new();
    assert_eq!(list.pop_front(), None);
    list.push_front(1);
    list.push_front(42);
    list.push_front(43);
    assert_eq!(list.pop_front(), Some(43));
    assert_eq!(list.pop_front(), Some(42));

    // Push some more just to make sure nothing's corrupted
    list.push_front(4);
    list.push_front(5);

    // Check normal removal
    assert_eq!(list.pop_front(), Some(5));
    assert_eq!(list.pop_front(), Some(4));

    // Check exhaustion
    assert_eq!(list.pop_front(), Some(1));
    assert_eq!(list.pop_front(), None);
}

#[test]
fn fourth_front_operations_in_order() {
    let mut list = List::new();
    list.push_front(1);
    list.push_front(42);
    list.push_front(43);
    assert_eq!(list.pop_front(), Some(43));
    assert_eq!(list.pop_front(), Some(42));
    assert_eq!(list.pop_front(), Some(1));
    assert_eq!(list.pop_front(), None);

    list.push_front(4);
    list.push_front(5);
    assert_eq!(list.pop_front(), Some(5));
    assert_eq!(list.pop_front(), Some(4));
    assert_eq!(list.pop_front(), None);
}

#[test]
fn fourth_single_element_comes_and_goes() {
    let mut list = List::new();
    for round in 0..3 {
        list.push_front(round);
        assert_eq!(list.pop_front(), Some(round));
        assert_eq!(list.pop_front(), None);
    }
}

#[test]
fn fourth_clear_empties_the_list() {
    let mut list = List::new();
    list.clear();
    assert_eq!(list.pop_front(), None);
    for i in 0..10 {
        list.push_front(i);
    }
    list.clear();
    assert_eq!(list.pop_front(), None);
    list.push_front(7);
    list.push_front(8);
    assert_eq!(list.pop_front(), Some(8));
    assert_eq!(list.pop_front(), Some(7));
    assert_eq!(list.pop_front(), None);
}

#[test]
fn fourth_long_list_is_taken_apart() {
    let mut list = List::new();
    for i in 0..100_000 {
        list.push_front(i);
    }
    list.clear();
    assert_eq!(list.pop_front(), None);
}

#[test]
fn fourth_long_list_is_dropped() {
    let mut list = List::new();
    for i in 0..1_000_000 {
        list.push_front(i);
    }
    assert_eq!(list.pop_front(), Some(999_999));
    drop(list);
}

#[test]
fn fourth_elements_that_own_memory() {
    let mut list = List::new();
    list.push_front(String::from("one"));
    list.push_front(String::from("two"));
    assert_eq!(list.pop_front().as_deref(), Some("two"));
    list.push_front(String::from("three"));
    assert_eq!(list.pop_front().as_deref(), Some("three"));
    assert_eq!(list.pop_front().as_deref(), Some("one"));
    assert_eq!(list.pop_front(), None);
}

#[test]
fn gate_writer_waits_for_reader() {
    let mut gate = AccessGate::new();
    assert_eq!(gate.acquire_shared(), Ok(()));
    assert_eq!(gate.acquire_exclusive(), Err(BorrowConflict));
    gate.release();
    assert_eq!(gate.acquire_exclusive(), Ok(()));
}

#[test]
fn gate_writer_waits_for_writer() {
    let mut gate = AccessGate::new();
    assert_eq!(gate.acquire_exclusive(), Ok(()));
    assert_eq!(gate.acquire_exclusive(), Err(BorrowConflict));
    gate.release();
    assert_eq!(gate.acquire_exclusive(), Ok(()));
}

#[test]
fn gate_reader_waits_for_writer() {
    let mut gate = AccessGate::new();
    assert_eq!(gate.acquire_exclusive(), Ok(()));
    assert_eq!(gate.acquire_shared(), Err(BorrowConflict));
    gate.release();
    assert_eq!(gate.acquire_shared(), Ok(()));
}

#[test]
fn gate_admits_many_readers() {
    let mut gate = AccessGate::new();
    for _ in 0..1000 {
        assert_eq!(gate.acquire_shared(), Ok(()));
    }
    for _ in 0..999 {
        gate.release();
        assert_eq!(gate.acquire_exclusive(), Err(BorrowConflict));
    }
    gate.release();
    assert_eq!(gate.acquire_exclusive(), Ok(()));
}

#[test]
fn gate_refusal_changes_nothing() {
    let mut gate = AccessGate::new();
    assert_eq!(gate.acquire_shared(), Ok(()));
    assert_eq!(gate.acquire_shared(), Ok(()));
    assert_eq!(gate.acquire_exclusive(), Err(BorrowConflict));
    assert_eq!(gate.acquire_exclusive(), Err(BorrowConflict));
    gate.release();
    assert_eq!(gate.acquire_exclusive(), Err(BorrowConflict));
    gate.release();
    assert_eq!(gate.acquire_exclusive(), Ok(()));
}

#[test]
fn gate_release_of_a_free_gate_changes_nothing() {
    let mut gate = AccessGate::new();
    gate.release();
    assert_eq!(gate.acquire_exclusive(), Ok(()));
    gate.release();
    gate.release();
    assert_eq!(gate.acquire_shared(), Ok(()));
}
