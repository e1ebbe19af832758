use asyncsync::linked_list::LinkedList;

#[test]
fn test_linked_list_push_front() {
    let mut list = LinkedList::new();

    let node = 0usize;
    list.push_front(node);

    assert_eq!(list.head(), Some(node));
    assert_eq!(list.tail(), Some(node));

    assert_eq!(list.pointers(node).next, None);
    assert_eq!(list.pointers(node).prev, None);

    let node2 = 1usize;
    list.push_front(node2);

    assert_eq!(list.head(), Some(node2));
    assert_eq!(list.tail(), Some(node));

    assert_eq!(list.pointers(node).next, None);
    assert_eq!(list.pointers(node).prev, Some(node2));

    assert_eq!(list.pointers(node2).next, Some(node));
    assert_eq!(list.pointers(node2).prev, None);

    let node3 = 2usize;
    list.push_front(node3);

    assert_eq!(list.head(), Some(node3));
    assert_eq!(list.tail(), Some(node));

    assert_eq!(list.pointers(node).next, None);
    assert_eq!(list.pointers(node).prev, Some(node2));

    assert_eq!(list.pointers(node2).next, Some(node));
    assert_eq!(list.pointers(node2).prev, Some(node3));

    assert_eq!(list.pointers(node3).next, Some(node2));
    assert_eq!(list.pointers(node3).prev, None);
}

#[test]
fn test_linked_list_push_back() {
    let mut list = LinkedList::new();

    let node = 0usize;
    list.push_back(node);

    assert_eq!(list.head(), Some(node));
    assert_eq!(list.tail(), Some(node));

    assert_eq!(list.pointers(node).next, None);
    assert_eq!(list.pointers(node).prev, None);

    let node2 = 1usize;
    list.push_back(node2);

    assert_eq!(list.head(), Some(node));
    assert_eq!(list.tail(), Some(node2));

    assert_eq!(list.pointers(node).next, Some(node2));
    assert_eq!(list.pointers(node).prev, None);

    assert_eq!(list.pointers(node2).next, None);
    assert_eq!(list.pointers(node2).prev, Some(node));

    let node3 = 2usize;
    list.push_back(node3);

    assert_eq!(list.head(), Some(node));
    assert_eq!(list.tail(), Some(node3));

    assert_eq!(list.pointers(node).next, Some(node2));
    assert_eq!(list.pointers(node).prev, None);

    assert_eq!(list.pointers(node2).next, Some(node3));
    assert_eq!(list.pointers(node2).prev, Some(node));

    assert_eq!(list.pointers(node3).next, None);
    assert_eq!(list.pointers(node3).prev, Some(node2));
}

#[test]
fn test_linked_list_remove() {
    let node = 0usize;
    let node2 = 1usize;
    let node3 = 2usize;

    // Remove the first element (the head).
    let mut list = LinkedList::new();
    list.push_back(node);
    list.push_back(node2);
    list.push_back(node3);
    list.remove(node);

    assert_eq!(list.head(), Some(node2));
    assert_eq!(list.tail(), Some(node3));

    assert_eq!(list.pointers(node2).next, Some(node3));
    assert_eq!(list.pointers(node2).prev, None);

    assert_eq!(list.pointers(node3).next, None);
    assert_eq!(list.pointers(node3).prev, Some(node2));

    // Remove the last element (the tail).
    let mut list = LinkedList::new();
    list.push_back(node);
    list.push_back(node2);
    list.push_back(node3);
    list.remove(node3);

    assert_eq!(list.head(), Some(node));
    assert_eq!(list.tail(), Some(node2));

    assert_eq!(list.pointers(node).next, Some(node2));
    assert_eq!(list.pointers(node).prev, None);

    assert_eq!(list.pointers(node2).next, None);
    assert_eq!(list.pointers(node2).prev, Some(node));

    // Remove from the middle.
    let mut list = LinkedList::new();
    list.push_back(node);
    list.push_back(node2);
    list.push_back(node3);
    list.remove(node2);

    assert_eq!(list.head(), Some(node));
    assert_eq!(list.tail(), Some(node3));

    assert_eq!(list.pointers(node).next, Some(node3));
    assert_eq!(list.pointers(node).prev, None);

    assert_eq!(list.pointers(node3).next, None);
    assert_eq!(list.pointers(node3).prev, Some(node));
}

#[test]
fn linked_list_push_back_then_remove_restores() {
    let mut list = LinkedList::new();
    list.push_back(4);
    list.push_back(9);
    let before = list.iter_mut();
    list.push_back(7);
    assert_eq!(list.iter_mut(), vec![4, 9, 7]);
    list.remove(7);
    assert_eq!(list.iter_mut(), before);
    assert_eq!(list.tail(), Some(9));
}

#[test]
fn linked_list_push_front_then_remove_restores() {
    let mut list = LinkedList::new();
    list.push_back(4);
    list.push_back(9);
    list.push_front(7);
    assert_eq!(list.iter_mut(), vec![7, 4, 9]);
    assert_eq!(list.front(), Some(7));
    list.remove(7);
    assert_eq!(list.iter_mut(), vec![4, 9]);
    assert_eq!(list.front(), Some(4));
}

#[test]
fn linked_list_is_empty_and_reuse_of_keys() {
    let mut list = LinkedList::default();
    assert!(list.is_empty());
    assert_eq!(list.front(), None);
    assert_eq!(list.tail(), None);
    list.push_back(100);
    assert!(!list.is_empty());
    list.remove(100);
    assert!(list.is_empty());
    assert_eq!(list.iter_mut(), Vec::<usize>::new());
    list.push_front(100);
    list.push_front(3);
    assert_eq!(list.iter_mut(), vec![3, 100]);
}

#[test]
fn linked_list_iter_follows_links() {
    let mut list = LinkedList::new();
    for k in [5usize, 1, 8, 2, 6] {
        list.push_back(k);
    }
    list.remove(8);
    list.remove(5);
    list.push_front(8);
    assert_eq!(list.iter_mut(), vec![8, 1, 2, 6]);
    assert_eq!(list.pointers(1).prev, Some(8));
    assert_eq!(list.pointers(2).next, Some(6));
}

#[test]
fn linked_list_clone_keeps_order() {
    let mut list = LinkedList::new();
    list.push_back(2);
    list.push_back(3);
    let copy = list.clone();
    list.remove(2);
    assert_eq!(copy.iter_mut(), vec![2, 3]);
    assert_eq!(list.iter_mut(), vec![3]);
}
