use linked_lists::third::List;

#[test]
fn third_basics() {
    let list = List::new();
    assert_eq!(list.head(), None);

    let list = list.prepend(1).prepend(2).prepend(3);
    assert_eq!(list.head(), Some(&3));

    let list = list.tail();
    assert_eq!(list.head(), Some(&2));

    let list = list.tail();
    assert_eq!(list.head(), Some(&1));

    let list = list.tail();
    assert_eq!(list.head(), None);

    // Make sure empty tail works
    let list = list.tail();
    assert_eq!(list.head(), None);
}

#[test]
fn third_iter() {
    let list = List::new().prepend(1).prepend(2).prepend(3);

    let mut iter = list.iter();
    assert_eq!(iter.next(), Some(&3));
    assert_eq!(iter.next(), Some(&2));
    assert_eq!(iter.next(), Some(&1));
}

fn elements(list: &List<i32>) -> Vec<i32> {
    let mut seen = Vec::new();
    let mut iter = list.iter();
    while let Some(elem) = iter.next() {
        seen.push(*elem);
    }
    seen
}

#[test]
fn third_lists_share_their_suffix() {
    let l1 = List::new().prepend(1).prepend(2).prepend(3);
    let l2 = l1.tail();
    let l3 = l2.tail();
    assert_eq!(elements(&l1), vec![3, 2, 1]);
    assert_eq!(elements(&l2), vec![2, 1]);
    assert_eq!(elements(&l3), vec![1]);
    assert_eq!(l1.head(), Some(&3));
    assert_eq!(l2.head(), Some(&2));
    assert_eq!(l3.head(), Some(&1));
}

#[test]
fn third_tail_of_empty_is_empty() {
    let empty: List<i32> = List::new();
    let tail = empty.tail();
    assert_eq!(tail.head(), None);
    assert_eq!(elements(&tail), Vec::<i32>::new());
    let tail = tail.tail();
    assert_eq!(tail.head(), None);
    assert_eq!(empty.head(), None);
}

#[test]
fn third_prepend_leaves_the_list_as_it_is() {
    let base = List::new().prepend(1).prepend(2);
    let left = base.prepend(10);
    let right = base.prepend(20);
    assert_eq!(elements(&base), vec![2, 1]);
    assert_eq!(elements(&left), vec![10, 2, 1]);
    assert_eq!(elements(&right), vec![20, 2, 1]);
    assert_eq!(elements(&left.tail()), elements(&base));
}

#[test]
fn third_iter_ends_and_stays_ended() {
    let list = List::new().prepend(7);
    let mut iter = list.iter();
    assert_eq!(iter.next(), Some(&7));
    assert_eq!(iter.next(), None);
    assert_eq!(iter.next(), None);
    assert_eq!(list.head(), Some(&7));
}

#[test]
fn third_shared_suffix_outlives_the_list_it_came_from() {
    let l1 = List::new().prepend(1).prepend(2).prepend(3);
    let l2 = l1.tail();
    drop(l1);
    assert_eq!(elements(&l2), vec![2, 1]);
    let l3 = l2.prepend(9);
    drop(l2);
    assert_eq!(elements(&l3), vec![9, 2, 1]);
}

#[test]
fn third_dropping_a_branch_leaves_the_trunk() {
    let trunk = List::new().prepend(1).prepend(2);
    let branch = trunk.prepend(3).prepend(4);
    drop(branch);
    assert_eq!(elements(&trunk), vec![2, 1]);
}

#[test]
fn third_long_list_is_dropped_without_recursion() {
    let mut list = List::new();
    for i in 0..1_000_000 {
        list = list.prepend(i);
    }
    assert_eq!(list.head(), Some(&999_999));
    drop(list);
}

#[test]
fn third_long_shared_list_is_dropped_without_recursion() {
    let mut list = List::new();
    for i in 0..1_000_000 {
        list = list.prepend(i);
    }
    let other = list.tail();
    drop(list);
    assert_eq!(other.head(), Some(&999_998));
    drop(other);
}
