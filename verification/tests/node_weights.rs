use traitgraph::dijkstra::epoch_array_dijkstra_node_weight_array::{
    EpochArray, EpochNodeWeightArray,
};
use traitgraph::dijkstra::hashbrown_dijkstra_node_weight_array::{
    HashMapNodeWeightArray, ToOwnedUsize,
};
use traitgraph::dijkstra::node_weight_array::NodeWeightArray;

#[test]
fn epoch_array_marks_and_outdates() {
    let mut epochs = EpochArray::new(4);
    assert!(!epochs.get(2));
    assert!(!epochs.update(2));
    assert!(epochs.get(2));
    assert!(epochs.update(2));
    assert!(!epochs.get_and_update(3));
    assert!(epochs.get_and_update(3));
    assert!(!epochs.get(0));
    epochs.clear();
    for index in 0..4 {
        assert!(!epochs.get(index));
    }
    assert!(!epochs.get_and_update(2));
    assert!(epochs.get(2));
}

#[test]
fn epoch_store_reads_infinity_after_clear() {
    let mut store: EpochNodeWeightArray<u32> = NodeWeightArray::new(5);
    assert_eq!(store.size(), 0);
    for node in 0..5 {
        assert_eq!(store.get(node), u32::MAX);
    }
    store.set(1, 7);
    store.set(3, 9);
    store.set(3, 8);
    assert_eq!(store.size(), 2);
    assert_eq!(store.get(1), 7);
    assert_eq!(store.get(3), 8);
    store.clear();
    assert_eq!(store.size(), 0);
    for node in 0..5 {
        assert_eq!(store.get(node), u32::MAX);
    }
}

#[test]
fn epoch_store_value_is_gone_after_two_clears() {
    let mut store: EpochNodeWeightArray<u64> = NodeWeightArray::new(3);
    store.set(2, 5);
    store.clear();
    store.clear();
    assert_eq!(store.get(2), u64::MAX);
    assert_eq!(store.size(), 0);
    // An entry that is asked for starts at infinity, not at the old value.
    assert_eq!(*store.get_mut(2), u64::MAX);
    assert_eq!(store.size(), 1);
}

#[test]
fn epoch_store_get_mut_materializes_the_entry() {
    let mut store: EpochNodeWeightArray<u64> = NodeWeightArray::new(3);
    {
        let weight = store.get_mut(1);
        assert_eq!(*weight, u64::MAX);
        *weight = 12;
    }
    assert_eq!(store.get(1), 12);
    assert_eq!(store.size(), 1);
    *store.get_mut(1) = 11;
    assert_eq!(store.get(1), 11);
    assert_eq!(store.size(), 1);
}

#[test]
fn epoch_store_survives_many_clears() {
    let mut store: EpochNodeWeightArray<u8> = NodeWeightArray::new(2);
    for round in 0..100_000u32 {
        assert_eq!(store.get(0), u8::MAX);
        store.set(0, (round % 200) as u8);
        assert_eq!(store.get(0), (round % 200) as u8);
        assert_eq!(store.get(1), u8::MAX);
        store.clear();
    }
    assert_eq!(store.size(), 0);
}

#[test]
fn dense_store_holds_every_node() {
    let mut store: Vec<u64> = NodeWeightArray::new(4);
    assert_eq!(NodeWeightArray::size(&store), 4);
    assert_eq!(NodeWeightArray::get(&store, 3), u64::MAX);
    NodeWeightArray::set(&mut store, 3, 2);
    *NodeWeightArray::get_mut(&mut store, 0) = 1;
    assert_eq!(store, vec![1, u64::MAX, u64::MAX, 2]);
    NodeWeightArray::clear(&mut store);
    assert_eq!(store, vec![u64::MAX; 4]);
}

#[test]
fn sparse_store_holds_touched_nodes_only() {
    let mut store: HashMapNodeWeightArray = NodeWeightArray::new(0);
    assert_eq!(store.size(), 0);
    assert_eq!(store.get(1_000_000), u64::MAX);
    assert_eq!(store.size(), 0);
    store.set(1_000_000, 3);
    assert_eq!(store.get(1_000_000), 3);
    assert_eq!(*store.get_mut(1_000_000), 3);
    assert_eq!(store.size(), 1);
    assert_eq!(*store.get_mut(5), u64::MAX);
    assert_eq!(store.size(), 2);
    *store.get_mut(5) = 4;
    assert_eq!(store.get(5), 4);
    store.clear();
    assert_eq!(store.size(), 0);
    assert_eq!(store.get(5), u64::MAX);
}

#[test]
fn to_owned_usize_from_reference() {
    let key = ToOwnedUsize { value: 9 };
    assert_eq!(ToOwnedUsize::from(&key), key);
}

#[test]
fn epoch_store_resets_when_the_epochs_are_used_up() {
    let mut store: EpochNodeWeightArray<u8> = NodeWeightArray::new(3);
    // Written in the first epoch.
    store.set(1, 5);
    assert_eq!(store.get(1), 5);
    // After as many clears as there are epochs, the first epoch is current again.
    for _ in 0..u32::MAX {
        store.clear();
    }
    // The entry of the first epoch has not come back.
    assert_eq!(store.size(), 0);
    for node in 0..3 {
        assert_eq!(store.get(node), u8::MAX);
    }
    store.set(2, 7);
    assert_eq!(*store.get_mut(1), u8::MAX);
    assert_eq!(store.get(2), 7);
    assert_eq!(store.size(), 2);
    store.clear();
    assert_eq!(store.get(2), u8::MAX);
    assert_eq!(store.size(), 0);
}

#[test]
fn epoch_array_resets_when_the_epochs_are_used_up() {
    let mut epochs = EpochArray::new(2);
    assert!(!epochs.update(0));
    for _ in 0..u32::MAX - 1 {
        epochs.clear();
    }
    // The last epoch is current now.
    assert!(!epochs.get(0));
    assert!(!epochs.update(1));
    assert!(epochs.get(1));
    epochs.clear();
    // The first epoch is current again, and no index of the first round is.
    assert!(!epochs.get(0));
    assert!(!epochs.get(1));
    assert!(!epochs.get_and_update(0));
    assert!(epochs.get(0));
}
