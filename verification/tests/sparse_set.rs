use sparse_set::{Entity, SparseSet};

#[derive(Debug, Eq, PartialEq)]
struct Foo(usize);

#[test]
fn sparse_set() {
    let mut set = SparseSet::<Entity, Foo>::default();
    let e0 = Entity::from_raw(0);
    let e1 = Entity::from_raw(1);
    let e2 = Entity::from_raw(2);
    let e3 = Entity::from_raw(3);
    let e4 = Entity::from_raw(4);

    set.insert(e1, Foo(1));
    set.insert(e2, Foo(2));
    set.insert(e3, Foo(3));

    assert_eq!(set.get(e0), None);
    assert_eq!(set.get(e1), Some(&Foo(1)));
    assert_eq!(set.get(e2), Some(&Foo(2)));
    assert_eq!(set.get(e3), Some(&Foo(3)));
    assert_eq!(set.get(e4), None);

    {
        let iter_results = set.values().collect::<Vec<_>>();
        assert_eq!(iter_results, vec![&Foo(1), &Foo(2), &Foo(3)]);
    }

    assert_eq!(set.remove(e2), Some(Foo(2)));
    assert_eq!(set.remove(e2), None);

    assert_eq!(set.get(e0), None);
    assert_eq!(set.get(e1), Some(&Foo(1)));
    assert_eq!(set.get(e2), None);
    assert_eq!(set.get(e3), Some(&Foo(3)));
    assert_eq!(set.get(e4), None);

    assert_eq!(set.remove(e1), Some(Foo(1)));

    assert_eq!(set.get(e0), None);
    assert_eq!(set.get(e1), None);
    assert_eq!(set.get(e2), None);
    assert_eq!(set.get(e3), Some(&Foo(3)));
    assert_eq!(set.get(e4), None);

    set.insert(e1, Foo(10));

    assert_eq!(set.get(e1), Some(&Foo(10)));

    *set.get_mut(e1).unwrap() = Foo(11);
    assert_eq!(set.get(e1), Some(&Foo(11)));
}

#[test]
fn insert_existing_replaces_in_place() {
    let mut set = SparseSet::<u32, &str>::new();
    set.insert(7, "a");
    set.insert(3, "b");
    set.insert(7, "c");
    assert_eq!(set.len(), 2);
    assert_eq!(set.values().copied().collect::<Vec<_>>(), vec!["c", "b"]);
    assert_eq!(set.indices().copied().collect::<Vec<_>>(), vec![7, 3]);
}

#[test]
fn remove_moves_last_into_hole() {
    let mut set = SparseSet::<usize, char>::with_capacity(4);
    set.insert(10, 'a');
    set.insert(20, 'b');
    set.insert(30, 'c');
    set.insert(40, 'd');
    assert_eq!(set.remove(20), Some('b'));
    assert_eq!(set.indices().copied().collect::<Vec<_>>(), vec![10, 40, 30]);
    assert_eq!(set.values().copied().collect::<Vec<_>>(), vec!['a', 'd', 'c']);
    assert_eq!(set.get(40), Some(&'d'));
    assert_eq!(set.remove(30), Some('c'));
    assert_eq!(set.indices().copied().collect::<Vec<_>>(), vec![10, 40]);
    assert_eq!(set.remove(99), None);
    assert_eq!(set.len(), 2);
}

#[test]
fn remove_after_fresh_insert_restores() {
    let mut set = SparseSet::<u8, u16>::new();
    set.insert(1, 100);
    set.insert(2, 200);
    set.insert(5, 500);
    assert_eq!(set.remove(5), Some(500));
    assert_eq!(set.indices().copied().collect::<Vec<_>>(), vec![1, 2]);
    assert_eq!(set.values().copied().collect::<Vec<_>>(), vec![100, 200]);
    assert!(!set.contains(5));
}

#[test]
fn sparse_set_len_and_empty() {
    let mut set = SparseSet::<u16, i32>::default();
    assert!(set.is_empty());
    assert_eq!(set.len(), 0);
    set.insert(4, -1);
    assert!(!set.is_empty());
    assert!(set.contains(4));
    assert!(!set.contains(5));
    assert!(set.capacity() >= set.len());
    set.remove(4);
    assert!(set.is_empty());
}

#[test]
fn sparse_set_get_or_insert_with() {
    let mut set = SparseSet::<u64, String>::new();
    let mut calls = 0;
    {
        let v = set.get_or_insert_with(3, || {
            calls += 1;
            String::from("x")
        });
        v.push('y');
    }
    assert_eq!(set.get(3).map(|s| s.as_str()), Some("xy"));
    let v = set.get_or_insert_with(3, || String::from("unused"));
    assert_eq!(v.as_str(), "xy");
    assert_eq!(calls, 1);
    assert_eq!(set.len(), 1);
}

#[test]
fn sparse_set_get_mut_absent() {
    let mut set = SparseSet::<u32, u32>::new();
    assert!(set.get_mut(1).is_none());
    set.insert(1, 5);
    *set.get_mut(1).unwrap() += 1;
    assert_eq!(set.get(1), Some(&6));
}

#[test]
fn sparse_set_iter_pairs() {
    let mut set = SparseSet::<u32, char>::new();
    set.insert(9, 'x');
    set.insert(2, 'y');
    let pairs = set.iter();
    assert_eq!(pairs, vec![(&9, &'x'), (&2, &'y')]);
}

#[test]
fn sparse_set_values_mut_and_iter_mut() {
    let mut set = SparseSet::<u32, u32>::new();
    set.insert(1, 10);
    set.insert(2, 20);
    for v in set.values_mut().iter_mut() {
        *v += 1;
    }
    assert_eq!(set.get(1), Some(&11));
    assert_eq!(set.get(2), Some(&21));
    {
        let (indices, values) = set.iter_mut();
        for (i, v) in indices.iter().zip(values.iter_mut()) {
            *v += *i * 100;
        }
    }
    assert_eq!(set.get(1), Some(&111));
    assert_eq!(set.get(2), Some(&221));
}

#[test]
fn sparse_set_capacity_keeps_requested_room() {
    let mut set = SparseSet::<u32, u64>::with_capacity(16);
    assert!(set.capacity() >= 16);
    for i in 0..20u32 {
        set.insert(i, i as u64);
    }
    assert!(set.capacity() >= 20);
    for i in 0..20u32 {
        set.remove(i);
    }
    assert!(set.capacity() >= 16);
    assert!(set.is_empty());
}

#[test]
fn indices_in_first_insertion_order() {
    let mut set = SparseSet::<u32, char>::new();
    set.insert(3, 'a');
    set.insert(1, 'b');
    set.insert(3, 'c');
    set.insert(2, 'd');
    set.insert(1, 'e');
    assert_eq!(set.indices().copied().collect::<Vec<_>>(), vec![3, 1, 2]);
    assert_eq!(set.values().copied().collect::<Vec<_>>(), vec!['c', 'e', 'd']);
}
