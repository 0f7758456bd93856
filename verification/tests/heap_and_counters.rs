use traitgraph::dijkstra::heap::{BinaryMinHeap, DijkstraHeap};
use traitgraph::dijkstra::performance_counters::{
    DijkstraPerformanceCounter, DijkstraPerformanceData, NoopDijkstraPerformanceCounter,
};
use traitgraph::dijkstra::weight::{DijkstraWeight, DijkstraWeightedEdgeData};

#[test]
fn heap_gives_entries_by_weight() {
    let mut heap: BinaryMinHeap<u64, usize> = DijkstraHeap::new_empty();
    assert_eq!(heap.remove_min(), None);
    for (weight, index) in [(5, 0), (3, 1), (8, 2), (1, 3), (3, 4), (9, 5), (0, 6)] {
        heap.insert(weight, index);
    }
    assert_eq!(heap.size(), 7);
    let mut weights = Vec::new();
    while let Some((weight, _)) = heap.remove_min() {
        weights.push(weight);
    }
    assert_eq!(weights, vec![0, 1, 3, 3, 5, 8, 9]);
    assert_eq!(heap.size(), 0);
    heap.insert(2, 2);
    heap.clear();
    assert_eq!(heap.remove_min(), None);
}

#[test]
fn heap_keeps_both_entries_of_one_index() {
    let mut heap: BinaryMinHeap<u32, usize> = DijkstraHeap::new_empty();
    heap.insert(7, 1);
    heap.insert(4, 1);
    assert_eq!(heap.remove_min(), Some((4, 1)));
    assert_eq!(heap.remove_min(), Some((7, 1)));
}

#[test]
fn weights_add_up_to_infinity() {
    assert_eq!(<u8 as DijkstraWeight>::infinity(), 255);
    assert_eq!(<u8 as DijkstraWeight>::zero(), 0);
    assert_eq!(200u8.plus(&55), 255);
    assert_eq!(200u8.plus(&56), 255);
    assert_eq!(200u8.plus(&54), 254);
    assert_eq!(i32::MAX.plus(&1), i32::MAX);
    assert_eq!(3i32.plus(&4), 7);
    assert!(3u64.less_than(&4));
    assert!(!4u64.less_than(&4));
    assert_eq!(DijkstraWeightedEdgeData::<usize>::weight(&6usize), 6);
}

#[test]
fn counter_records_and_finishes() {
    let mut counter = DijkstraPerformanceCounter::new();
    counter.add_iteration();
    counter.add_iteration();
    counter.add_unnecessary_heap_element();
    counter.record_heap_size(4);
    counter.record_heap_size(2);
    counter.record_distance_array_size(7);
    assert_eq!(counter.max_max_heap_size(), Some(0));
    counter.finish_dijkstra();
    counter.record_heap_size(3);
    counter.record_distance_array_size(1);
    counter.finish_dijkstra();
    assert_eq!(counter.iterations(), Some(2));
    assert_eq!(counter.unnecessary_heap_elements(), Some(1));
    assert_eq!(counter.max_max_heap_size(), Some(4));
    assert_eq!(counter.max_max_distance_array_size(), Some(7));
    assert_eq!(counter.average_max_heap_size_parts(), Some((7, 2)));
    assert_eq!(counter.average_max_distance_array_size_parts(), Some((8, 2)));
}

#[test]
fn counters_add_up() {
    let mut a = DijkstraPerformanceCounter::new();
    a.add_iteration();
    a.record_heap_size(5);
    a.finish_dijkstra();
    let mut b = DijkstraPerformanceCounter::new();
    b.add_iteration();
    b.add_iteration();
    b.add_unnecessary_heap_element();
    b.record_heap_size(9);
    b.finish_dijkstra();
    let mut c = DijkstraPerformanceCounter::new();
    c.record_distance_array_size(2);
    c.finish_dijkstra();
    let sum = a + b;
    assert_eq!(sum.iterations(), Some(3));
    assert_eq!(sum.unnecessary_heap_elements(), Some(1));
    assert_eq!(sum.max_max_heap_size(), Some(9));
    assert_eq!(sum.average_max_heap_size_parts(), Some((14, 2)));
    assert_eq!((a + b) + c, a + (b + c));
    let mut d = a;
    d.add_assign(b);
    assert_eq!(d, sum);
}

#[test]
fn counts_wrap_around() {
    let mut counter = DijkstraPerformanceCounter::new();
    counter.iterations = u64::MAX;
    counter.add_iteration();
    assert_eq!(counter.iterations(), Some(0));
}

#[test]
fn noop_counter_records_nothing() {
    let mut counter = NoopDijkstraPerformanceCounter;
    counter.add_iteration();
    counter.add_unnecessary_heap_element();
    counter.record_heap_size(3);
    counter.record_distance_array_size(3);
    counter.finish_dijkstra();
    assert_eq!(counter.iterations(), None);
    assert_eq!(counter.unnecessary_heap_elements(), None);
    assert_eq!(counter.max_max_heap_size(), None);
    assert_eq!(counter.max_max_distance_array_size(), None);
    assert_eq!(counter.average_max_heap_size_parts(), None);
    assert_eq!(counter.average_max_distance_array_size_parts(), None);
    assert_eq!(counter + counter, NoopDijkstraPerformanceCounter);
}
