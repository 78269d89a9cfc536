use dt::collections::DoublyLinkedList;

#[test]
fn push_front_pop_front() {
    let mut ll = DoublyLinkedList::new();
    assert!(ll.is_empty());
    assert_eq!(ll.len(), 0);

    ll.push_front(0);
    ll.push_front(1);
    ll.push_front(2);

    assert!(!ll.is_empty());
    assert_eq!(ll.len(), 3);

    assert_eq!(ll.pop_front(), Some(2));
    assert_eq!(ll.pop_front(), Some(1));
    assert_eq!(ll.pop_front(), Some(0));
    assert_eq!(ll.pop_front(), None);

    assert!(ll.is_empty());
    assert_eq!(ll.len(), 0);
}

#[test]
fn push_front_pop_back() {
    let mut ll = DoublyLinkedList::new();
    assert!(ll.is_empty());
    assert_eq!(ll.len(), 0);

    ll.push_front(0);
    ll.push_front(1);
    ll.push_front(2);

    assert!(!ll.is_empty());
    assert_eq!(ll.len(), 3);

    assert_eq!(ll.pop_back(), Some(0));
    assert_eq!(ll.pop_back(), Some(1));
    assert_eq!(ll.pop_back(), Some(2));
    assert_eq!(ll.pop_back(), None);

    assert!(ll.is_empty());
    assert_eq!(ll.len(), 0);
}

#[test]
fn push_back_pop_back() {
    let mut ll = DoublyLinkedList::new();
    assert!(ll.is_empty());
    assert_eq!(ll.len(), 0);

    ll.push_back(0);
    ll.push_back(1);
    ll.push_back(2);

    assert!(!ll.is_empty());
    assert_eq!(ll.len(), 3);

    assert_eq!(ll.pop_back(), Some(2));
    assert_eq!(ll.pop_back(), Some(1));
    assert_eq!(ll.pop_back(), Some(0));
    assert_eq!(ll.pop_back(), None);

    assert!(ll.is_empty());
    assert_eq!(ll.len(), 0);
}

#[test]
fn push_back_pop_front() {
    let mut ll = DoublyLinkedList::new();
    assert!(ll.is_empty());
    assert_eq!(ll.len(), 0);

    ll.push_back(0);
    ll.push_back(1);
    ll.push_back(2);

    assert!(!ll.is_empty());
    assert_eq!(ll.len(), 3);

    assert_eq!(ll.pop_front(), Some(0));
    assert_eq!(ll.pop_front(), Some(1));
    assert_eq!(ll.pop_front(), Some(2));
    assert_eq!(ll.pop_front(), None);

    assert!(ll.is_empty());
    assert_eq!(ll.len(), 0);
}

#[test]
fn append_moves_all_elements() {
    let mut list1 = DoublyLinkedList::new();
    list1.push_back('a');

    let mut list2 = DoublyLinkedList::new();
    list2.push_back('b');
    list2.push_back('c');

    list1.append(&mut list2);

    let mut iter = list1.iter();
    assert_eq!(iter.next(), Some(&'a'));
    assert_eq!(iter.next(), Some(&'b'));
    assert_eq!(iter.next(), Some(&'c'));
    assert!(iter.next().is_none());

    assert!(list2.is_empty());
}

#[test]
fn split_off_keeps_the_front_part() {
    let mut ll = DoublyLinkedList::new();
    ll.push_back(1);
    ll.push_back(2);
    ll.push_back(3);

    let mut split = ll.split_off(2);
    assert_eq!(ll.len(), 2);
    assert_eq!(split.len(), 1);
    assert_eq!(split.pop_front(), Some(3));
    assert_eq!(split.pop_front(), None);
    assert_eq!(ll.pop_back(), Some(2));
    assert_eq!(ll.pop_front(), Some(1));
}

#[test]
fn contains_finds_only_stored_values() {
    let mut list = DoublyLinkedList::new();
    list.push_back(0);
    list.push_back(1);
    list.push_back(2);

    assert_eq!(list.contains(&0), true);
    assert_eq!(list.contains(&10), false);
}

#[test]
fn ends_are_readable_and_writable() {
    let mut dl = DoublyLinkedList::new();
    assert_eq!(dl.front(), None);
    assert_eq!(dl.back(), None);
    assert!(dl.front_mut().is_none());
    assert!(dl.back_mut().is_none());

    dl.push_front(1);
    dl.push_back(9);
    assert_eq!(dl.front(), Some(&1));
    assert_eq!(dl.back(), Some(&9));

    *dl.front_mut().unwrap() = 5;
    *dl.back_mut().unwrap() = 6;
    assert_eq!(dl.front(), Some(&5));
    assert_eq!(dl.back(), Some(&6));

    dl.clear();
    assert!(dl.is_empty());
    assert_eq!(dl.len(), 0);
}
