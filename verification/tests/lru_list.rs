//! The recency index on its own.

use smart_cache::LruList;

#[test]
fn test_lru_list() {
    let mut list = LruList::new();

    list.push_front(1);
    list.push_front(2);
    list.push_front(3);

    // Should be 3, 2, 1
    let items: Vec<u64> = list.iter();
    assert_eq!(items, vec![3, 2, 1]);

    // Touch 1, should move to front
    list.touch(1);
    let items: Vec<u64> = list.iter();
    assert_eq!(items, vec![1, 3, 2]);

    // Pop back should return 2
    assert_eq!(list.pop_back(), Some(2));
}

#[test]
fn lru_remove_middle_and_ends() {
    let mut list = LruList::new();
    list.push_front(1);
    list.push_front(2);
    list.push_front(3);
    list.push_front(4); // 4, 3, 2, 1

    assert!(list.remove(3)); // middle
    assert_eq!(list.iter(), vec![4, 2, 1]);
    assert!(list.remove(4)); // front
    assert_eq!(list.iter(), vec![2, 1]);
    assert!(list.remove(1)); // back
    assert_eq!(list.iter(), vec![2]);
    assert!(!list.remove(1)); // already gone
    assert_eq!(list.iter(), vec![2]);
}

#[test]
fn lru_touch_absent_is_noop() {
    let mut list = LruList::new();
    list.push_front(1);
    list.push_front(2);
    list.touch(7);
    assert_eq!(list.iter(), vec![2, 1]);
}

#[test]
fn lru_pop_back_empties_the_list() {
    let mut list = LruList::new();
    assert_eq!(list.pop_back(), None);
    list.push_front(5);
    assert_eq!(list.pop_back(), Some(5));
    assert_eq!(list.pop_back(), None);
    assert_eq!(list.iter(), Vec::<u64>::new());
}
