use linked_lists::fifth::List;

#[test]
fn basic_push_and_pop() {
    let mut list = List::<u8>::new();
    assert_eq!(list.pop(), None);
    list.push(23);
    list.push(42);
    assert_eq!(list.pop(), Some(23));
    assert_eq!(list.pop(), Some(42));
    assert_eq!(list.pop(), None);
}

#[test]
fn fifth_basics() {
    let mut list = List::new();

    // Check empty list behaves right
    assert_eq!(list.pop(), None);

    // Populate list
    list.push(1);
    list.push(2);
    list.push(3);

    // Check normal removal
    assert_eq!(list.pop(), Some(1));
    assert_eq!(list.pop(), Some(2));

    // Push some more just to make sure nothing's corrupted
    list.push(4);
    list.push(5);

    // Check normal removal
    assert_eq!(list.pop(), Some(3));
    assert_eq!(list.pop(), Some(4));

    // Check exhaustion
    assert_eq!(list.pop(), Some(5));
    assert_eq!(list.pop(), None);

    // Check the exhaustion case fixed the pointer right
    list.push(6);
    list.push(7);

    // Check normal removal
    assert_eq!(list.pop(), Some(6));
    assert_eq!(list.pop(), Some(7));
    assert_eq!(list.pop(), None);
}

#[test]
fn fifth_first_in_first_out() {
    let mut list = List::new();
    list.push('a');
    list.push('b');
    list.push('c');
    assert_eq!(list.pop(), Some('a'));
    assert_eq!(list.pop(), Some('b'));
    assert_eq!(list.pop(), Some('c'));
    assert_eq!(list.pop(), None);

    list.push('d');
    list.push('e');
    assert_eq!(list.pop(), Some('d'));
    assert_eq!(list.pop(), Some('e'));
    assert_eq!(list.pop(), None);
}

#[test]
fn fifth_single_element_comes_and_goes() {
    let mut list = List::new();
    for round in 0..5 {
        list.push(round);
        assert_eq!(list.pop(), Some(round));
        assert_eq!(list.pop(), None);
    }
}

#[test]
fn fifth_keeps_order_while_slots_are_used_again() {
    let mut list = List::new();
    let mut next_in = 0;
    let mut next_out = 0;
    for round in 0..200 {
        for _ in 0..(round % 7) {
            list.push(next_in);
            next_in += 1;
        }
        for _ in 0..(round % 5) {
            if next_out < next_in {
                assert_eq!(list.pop(), Some(next_out));
                next_out += 1;
            } else {
                assert_eq!(list.pop(), None);
            }
        }
    }
    while next_out < next_in {
        assert_eq!(list.pop(), Some(next_out));
        next_out += 1;
    }
    assert_eq!(list.pop(), None);
}

#[test]
fn fifth_elements_that_own_memory() {
    let mut list = List::new();
    list.push(vec![1, 2]);
    list.push(vec![3]);
    assert_eq!(list.pop(), Some(vec![1, 2]));
    list.push(Vec::new());
    assert_eq!(list.pop(), Some(vec![3]));
    assert_eq!(list.pop(), Some(Vec::new()));
    assert_eq!(list.pop(), None);
}

#[test]
fn fifth_long_list_is_dropped() {
    let mut list = List::new();
    for i in 0..1_000_000 {
        list.push(i);
    }
    assert_eq!(list.pop(), Some(0));
    drop(list);
}
