use sparse_set::{Entity, SparseArray};

#[test]
fn sparse_array_insert_get_remove() {
    let mut array = SparseArray::<u32, &str>::new();
    assert!(!array.contains(5));
    assert_eq!(array.get(5), None);
    array.insert(5, "five");
    array.insert(1, "one");
    assert!(array.contains(5));
    assert!(array.contains(1));
    assert!(!array.contains(3));
    assert_eq!(array.get(5), Some(&"five"));
    assert_eq!(array.get(100), None);
    array.insert(5, "FIVE");
    assert_eq!(array.get(5), Some(&"FIVE"));
    assert_eq!(array.remove(5), Some("FIVE"));
    assert_eq!(array.remove(5), None);
    assert_eq!(array.remove(1000), None);
    assert!(!array.contains(5));
    assert_eq!(array.get(1), Some(&"one"));
}

#[test]
fn sparse_array_get_mut() {
    let mut array = SparseArray::<usize, u64>::with_capacity(8);
    assert!(array.get_mut(2).is_none());
    array.insert(2, 40);
    *array.get_mut(2).unwrap() += 2;
    assert_eq!(array.get(2), Some(&42));
}

#[test]
fn sparse_array_get_or_insert_with() {
    let mut array = SparseArray::<u8, u32>::default();
    let mut calls = 0;
    *array.get_or_insert_with(3, || {
        calls += 1;
        7
    }) += 1;
    assert_eq!(array.get(3), Some(&8));
    let v = *array.get_or_insert_with(3, || {
        calls += 1;
        0
    });
    assert_eq!(v, 8);
    assert_eq!(calls, 1);
    // a slot inside the grown range that was never written
    array.insert(9, 1);
    assert_eq!(*array.get_or_insert_with(6, || 66), 66);
    assert_eq!(array.get(6), Some(&66));
}

#[test]
fn sparse_array_clear() {
    let mut array = SparseArray::<Entity, u32>::new();
    array.insert(Entity::from_raw(4), 1);
    array.insert(Entity::from_raw(0), 2);
    array.clear();
    assert!(!array.contains(Entity::from_raw(4)));
    assert_eq!(array.get(Entity::from_raw(0)), None);
}

#[test]
fn sparse_array_get_returns_last_stored() {
    let mut array = SparseArray::<u32, u32>::new();
    array.insert(2, 1);
    array.insert(4, 2);
    array.insert(2, 3);
    assert_eq!(array.get(2), Some(&3));
    array.remove(2);
    assert_eq!(array.get(2), None);
    *array.get_or_insert_with(2, || 5) += 1;
    assert_eq!(array.get(2), Some(&6));
    array.clear();
    assert_eq!(array.get(4), None);
    array.insert(4, 7);
    assert_eq!(array.get(4), Some(&7));
}
