use sparse_set::component::MAX_CHANGE_AGE;
use sparse_set::{
    ComponentId, ComponentInfo, ComponentSparseSet, ComponentTicks, Entity, SparseSetIndex,
    SparseSets,
};

fn info(id: usize, size: usize) -> ComponentInfo {
    ComponentInfo::new(ComponentId::new(id), size)
}

#[test]
fn component_sparse_set_insert_get() {
    let mut set = ComponentSparseSet::new(&info(0, 2), 4);
    assert!(set.is_empty());
    let e1 = Entity::from_raw(1);
    let e7 = Entity::from_raw(7);
    set.insert(e7, vec![7, 0], 5);
    set.insert(e1, vec![1, 0], 6);
    assert_eq!(set.len(), 2);
    assert!(set.contains(e7));
    assert!(!set.contains(Entity::from_raw(2)));
    assert_eq!(set.get(e7), Some(&[7u8, 0][..]));
    assert_eq!(set.get(Entity::from_raw(3)), None);
    let ticks = set.get_ticks(e1).unwrap();
    assert_eq!((ticks.added(), ticks.changed()), (6, 6));
    let (bytes, ticks) = set.get_with_ticks(e7).unwrap();
    assert_eq!(bytes, &[7u8, 0][..]);
    assert_eq!(*ticks, ComponentTicks::new(5));
    assert!(set.get_with_ticks(Entity::from_raw(9)).is_none());
    assert!(set.get_ticks(Entity::from_raw(9)).is_none());
}

#[test]
fn component_sparse_set_replace_resets_ticks() {
    let mut set = ComponentSparseSet::new(&info(0, 1), 0);
    let e = Entity::from_raw(3);
    assert_eq!(set.insert(e, vec![1], 10), None);
    assert_eq!(set.insert(e, vec![2], 20), Some(vec![1]));
    assert_eq!(set.len(), 1);
    assert_eq!(set.get(e), Some(&[2u8][..]));
    assert_eq!(set.get_ticks(e), Some(&ComponentTicks::new(20)));
}

#[test]
fn component_sparse_set_remove() {
    let mut set = ComponentSparseSet::new(&info(0, 1), 0);
    for id in 0..4u32 {
        set.insert(Entity::from_raw(id), vec![id as u8 * 10], id);
    }
    assert_eq!(set.remove_and_forget(Entity::from_raw(1)), Some(vec![10]));
    assert_eq!(set.remove_and_forget(Entity::from_raw(1)), None);
    assert_eq!(set.len(), 3);
    // the last entry moved into the hole and is still found
    assert_eq!(set.get(Entity::from_raw(3)), Some(&[30u8][..]));
    assert_eq!(set.get_ticks(Entity::from_raw(3)), Some(&ComponentTicks::new(3)));
    assert_eq!(set.remove(Entity::from_raw(0)), Some(vec![0]));
    assert_eq!(set.remove(Entity::from_raw(0)), None);
    assert_eq!(set.remove(Entity::from_raw(3)), Some(vec![30]));
    assert_eq!(set.get(Entity::from_raw(2)), Some(&[20u8][..]));
    assert_eq!(set.len(), 1);
}

#[test]
fn component_sparse_set_remove_after_insert_restores() {
    let mut set = ComponentSparseSet::new(&info(0, 1), 0);
    set.insert(Entity::from_raw(4), vec![4], 1);
    set.insert(Entity::from_raw(8), vec![8], 2);
    assert_eq!(set.remove(Entity::from_raw(8)), Some(vec![8]));
    assert_eq!(set.len(), 1);
    assert_eq!(set.get(Entity::from_raw(4)), Some(&[4u8][..]));
}

#[test]
fn component_sparse_set_clear() {
    let mut set = ComponentSparseSet::new(&info(0, 1), 0);
    set.insert(Entity::from_raw(4), vec![4], 1);
    set.insert(Entity::from_raw(2), vec![2], 1);
    assert_eq!(set.clear(), vec![vec![4], vec![2]]);
    assert!(set.is_empty());
    assert!(!set.contains(Entity::from_raw(4)));
    set.insert(Entity::from_raw(4), vec![5], 1);
    assert_eq!(set.get(Entity::from_raw(4)), Some(&[5u8][..]));
}

#[test]
fn component_sparse_set_check_change_ticks() {
    let mut set = ComponentSparseSet::new(&info(0, 1), 0);
    let old = Entity::from_raw(0);
    let young = Entity::from_raw(1);
    set.insert(old, vec![0], 0);
    set.insert(young, vec![1], 1000);
    let change_tick = MAX_CHANGE_AGE + 10;
    set.check_change_ticks(change_tick);
    assert_eq!(set.get_ticks(old), Some(&ComponentTicks::new(10)));
    assert_eq!(set.get_ticks(young), Some(&ComponentTicks::new(1000)));
}

#[test]
fn component_ticks_check() {
    let mut ticks = ComponentTicks::new(5);
    ticks.check_ticks(100);
    assert_eq!((ticks.added(), ticks.changed()), (5, 5));
    // wrapped: the current tick is below the recorded one
    let mut wrapped = ComponentTicks::new(u32::MAX);
    wrapped.check_ticks(MAX_CHANGE_AGE - 1);
    assert_eq!(wrapped.added(), u32::MAX);
    wrapped.check_ticks(MAX_CHANGE_AGE);
    assert_eq!(wrapped.added(), 0);
    let mut far = ComponentTicks::new(u32::MAX);
    far.check_ticks(MAX_CHANGE_AGE + 5);
    assert_eq!(far.added(), 5);
    let again = far;
    far.check_ticks(MAX_CHANGE_AGE + 5);
    assert_eq!(far, again);
    assert_eq!(MAX_CHANGE_AGE, 3_258_167_296);
}

#[test]
fn sparse_sets_get_or_insert() {
    let mut sets = SparseSets::default();
    let position = info(3, 8);
    assert!(sets.get(ComponentId::new(3)).is_none());
    {
        let storage = sets.get_or_insert(&position);
        assert!(storage.is_empty());
        storage.insert(Entity::from_raw(2), vec![1; 8], 0);
    }
    {
        let storage = sets.get_or_insert(&position);
        assert_eq!(storage.len(), 1);
    }
    assert_eq!(
        sets.get(ComponentId::new(3)).unwrap().get(Entity::from_raw(2)),
        Some(&[1u8; 8][..])
    );
    assert!(sets.get_mut(ComponentId::new(4)).is_none());
    assert_eq!(
        sets.get_mut(ComponentId::new(3))
            .unwrap()
            .remove(Entity::from_raw(2)),
        Some(vec![1; 8])
    );
    assert!(sets.get(ComponentId::new(3)).unwrap().is_empty());
}

#[test]
fn sparse_sets_clear_and_check_ticks() {
    let mut sets = SparseSets::default();
    sets.get_or_insert(&info(0, 1)).insert(Entity::from_raw(0), vec![9], 0);
    sets.get_or_insert(&info(1, 1)).insert(Entity::from_raw(5), vec![8], 0);
    sets.check_change_ticks(MAX_CHANGE_AGE + 1);
    assert_eq!(
        sets.get(ComponentId::new(1)).unwrap().get_ticks(Entity::from_raw(5)),
        Some(&ComponentTicks::new(1))
    );
    assert_eq!(
        sets.clear(),
        vec![
            (ComponentId::new(0), vec![vec![9]]),
            (ComponentId::new(1), vec![vec![8]])
        ]
    );
    assert!(sets.get(ComponentId::new(0)).unwrap().is_empty());
    assert!(sets.get(ComponentId::new(1)).unwrap().is_empty());
}

#[test]
fn index_round_trips() {
    assert_eq!(200u8.sparse_set_index(), 200);
    assert_eq!(u8::get_sparse_set_index(300), 44);
    assert_eq!(u16::get_sparse_set_index(7), 7);
    assert_eq!(u32::get_sparse_set_index(9).sparse_set_index(), 9);
    assert_eq!(u64::get_sparse_set_index(12345), 12345);
    assert_eq!(usize::get_sparse_set_index(77), 77);
    let e = Entity::get_sparse_set_index(6);
    assert_eq!((e.id(), e.generation()), (6, 0));
    assert_eq!(Entity::from_raw(13).sparse_set_index(), 13);
    assert_eq!(ComponentId::get_sparse_set_index(3), ComponentId::new(3));
    assert_eq!(ComponentId::new(8).sparse_set_index(), 8);
    assert_eq!(ComponentId::new(8).index(), 8);
    let i = info(2, 16);
    assert_eq!((i.id(), i.item_size()), (ComponentId::new(2), 16));
}

#[test]
fn component_sparse_set_ticks_mut() {
    let mut set = ComponentSparseSet::new(&info(0, 1), 0);
    let e = Entity::from_raw(6);
    set.insert(e, vec![1], 3);
    assert!(set.get_ticks_mut(Entity::from_raw(7)).is_none());
    set.get_ticks_mut(e).unwrap().set_changed(9);
    let ticks = set.get_ticks(e).unwrap();
    assert_eq!((ticks.added(), ticks.changed()), (3, 9));
    assert_eq!(set.get(e), Some(&[1u8][..]));
}

#[test]
fn component_sparse_set_keeps_generation() {
    let mut set = ComponentSparseSet::new(&info(0, 1), 0);
    let e = Entity::get_sparse_set_index(4);
    set.insert(e, vec![1], 0);
    assert!(set.contains(e));
    assert_eq!(e.generation(), 0);
    assert_eq!(set.item_size(), 1);
}

#[test]
fn contains_follows_history() {
    let mut set = ComponentSparseSet::new(&info(0, 1), 0);
    let a = Entity::from_raw(1);
    let b = Entity::from_raw(2);
    set.insert(a, vec![1], 0);
    set.insert(b, vec![2], 0);
    set.remove(a);
    assert!(!set.contains(a));
    assert!(set.contains(b));
    assert_eq!(set.len(), 1);
    set.insert(a, vec![3], 0);
    assert!(set.contains(a));
    assert_eq!(set.len(), 2);
    set.clear();
    assert!(!set.contains(a) && !set.contains(b));
    assert_eq!(set.len(), 0);
}

#[test]
fn storages_are_those_requested() {
    let mut sets = SparseSets::default();
    sets.get_or_insert(&info(5, 1));
    sets.get_or_insert(&info(2, 1));
    sets.get_or_insert(&info(5, 1));
    sets.check_change_ticks(0);
    assert!(sets.get(ComponentId::new(5)).is_some());
    assert!(sets.get(ComponentId::new(2)).is_some());
    assert!(sets.get(ComponentId::new(3)).is_none());
}
