use indexed_queue::{Id, IndexedMaxQueue, IndexedMinQueue, Reverse, UntypedId, UntypedIndexedMinQueue};

struct Units;

fn id(index: usize) -> Id<Units> {
    Id::new(UntypedId::first(index))
}

fn ids<Arena>(entries: &[(Id<Arena>, u64)]) -> Vec<usize> {
    entries.iter().map(|e| e.0.untyped.index).collect()
}

#[test]
fn scenario_insert_two_and_peek() {
    let mut q: IndexedMinQueue<Units, u64> = IndexedMinQueue::new();
    q.insert(id(0), 3);
    q.insert(id(1), 2);
    assert_eq!(vec![1, 0], ids(&q.iter_sorted()));
    assert_eq!(Some(2), q.peek());
}

#[test]
fn scenario_decrease_then_pop() {
    let mut q: IndexedMinQueue<Units, u64> = IndexedMinQueue::new();
    q.insert(id(0), 3);
    q.insert(id(1), 2);
    q.decrease(id(0), 1);
    assert_eq!(vec![0, 1], ids(&q.iter_sorted()));
    assert_eq!(Some(1), q.peek());

    let (popped, value) = q.pop().unwrap();
    assert_eq!(0, popped.untyped.index);
    assert_eq!(1, value);
    assert_eq!(vec![1], ids(&q.iter_sorted()));
}

#[test]
fn scenario_remove_middle_of_three() {
    let mut q: IndexedMinQueue<Units, u64> = IndexedMinQueue::new();
    q.insert(id(0), 1);
    q.insert(id(1), 2);
    q.insert(id(2), 3);
    let (removed, value) = q.remove(id(1)).unwrap();
    assert_eq!(1, removed.untyped.index);
    assert_eq!(2, value);
    assert_eq!(vec![0, 2], ids(&q.iter_sorted()));
}

#[test]
fn scenario_remove_absent_leaves_queue() {
    let mut q: IndexedMinQueue<Units, u64> = IndexedMinQueue::new();
    assert!(q.remove(id(0)).is_none());
    assert!(q.is_empty());

    q.insert(id(0), 5);
    q.insert(id(1), 4);
    let before = ids(&q.iter_sorted());
    assert!(q.remove(id(7)).is_none());
    assert_eq!(before, ids(&q.iter_sorted()));
    assert_eq!(2, q.len());
}

#[test]
fn scenario_max_queue_increase() {
    let mut q: IndexedMaxQueue<Units, u64> = IndexedMaxQueue::new();
    q.insert(id(0), 3);
    q.insert(id(1), 5);
    assert_eq!(Some(5), q.peek());
    q.increase(id(0), 10);
    assert_eq!(Some(10), q.peek());
    assert_eq!(0, q.peek_id().unwrap().0.untyped.index);
}

#[test]
fn max_queue_decrease_and_pop_order() {
    let mut q: IndexedMaxQueue<Units, u64> = IndexedMaxQueue::default();
    for (i, v) in [4u64, 9, 1, 7, 0, u64::MAX].iter().enumerate() {
        q.insert(id(i), *v);
    }
    q.decrease(id(5), 2);
    q.decrease(id(1), 11);
    assert_eq!(Some(9), q.get(id(1)));
    assert_eq!(Some(2), q.get(id(5)));
    let mut out = vec![];
    while let Some((_, v)) = q.pop() {
        out.push(v);
    }
    assert_eq!(vec![9, 7, 4, 2, 1, 0], out);
    assert!(q.is_empty());
}

#[test]
fn round_trip_insert_remove() {
    let mut q: IndexedMinQueue<Units, u64> = IndexedMinQueue::new();
    q.insert(id(3), 8);
    q.insert(id(4), 6);
    let before = q.len();
    q.insert(id(9), 42);
    let (back, value) = q.remove(id(9)).unwrap();
    assert_eq!(9, back.untyped.index);
    assert_eq!(42, value);
    assert_eq!(before, q.len());
}

#[test]
fn no_op_updates_change_nothing() {
    let mut q: IndexedMinQueue<Units, u64> = IndexedMinQueue::new();
    q.insert(id(0), 5);
    q.insert(id(1), 3);
    q.insert(id(2), 7);
    let before = q.iter_sorted();
    q.decrease(id(0), 5);
    q.decrease(id(0), 6);
    q.decrease(id(8), 0);
    q.increase(id(2), 7);
    q.increase(id(2), 1);
    q.increase(id(8), 100);
    let after = q.iter_sorted();
    assert_eq!(ids(&before), ids(&after));
    assert_eq!(
        before.iter().map(|e| e.1).collect::<Vec<_>>(),
        after.iter().map(|e| e.1).collect::<Vec<_>>()
    );
}

#[test]
fn upsert_keeps_length_and_order() {
    let mut q: IndexedMinQueue<Units, u64> = IndexedMinQueue::new();
    q.insert(id(0), 3);
    q.insert(id(1), 2);
    q.insert(id(1), 4);
    assert_eq!(2, q.len());
    assert_eq!(Some(4), q.get(id(1)));
    assert_eq!(vec![0, 1], ids(&q.iter_sorted()));
    q.insert(id(1), 1);
    assert_eq!(2, q.len());
    assert_eq!(Some(1), q.peek());
}

#[test]
fn upsert_keeps_stored_handle() {
    let mut q: UntypedIndexedMinQueue<u64> = UntypedIndexedMinQueue::new();
    q.insert(UntypedId::new(2, 0), 5);
    q.insert(UntypedId::new(2, 3), 6);
    assert_eq!(1, q.len());
    assert_eq!(Some((UntypedId::new(2, 0), 6)), q.remove(UntypedId::new(2, 3)));
    assert!(q.is_empty());
}

#[test]
fn increase_on_min_queue_sinks() {
    let mut q: IndexedMinQueue<Units, u64> = IndexedMinQueue::new();
    q.insert(id(0), 1);
    q.insert(id(1), 2);
    q.insert(id(2), 3);
    q.increase(id(0), 10);
    assert_eq!(Some(2), q.peek());
    assert_eq!(Some(10), q.get(id(0)));
    assert_eq!(vec![1, 0, 2], ids(&q.iter_sorted()));
}

#[test]
fn length_counts_present_identifiers() {
    let mut q: IndexedMinQueue<Units, u64> = IndexedMinQueue::new();
    for i in 0..20 {
        q.insert(id(i * 3), (i * 7 % 11) as u64);
    }
    assert_eq!(20, q.len());
    let present = (0..60).filter(|i| q.get(id(*i)).is_some()).count();
    assert_eq!(present, q.len());
    q.remove(id(3));
    q.remove(id(4));
    assert_eq!(19, q.len());
}

#[test]
fn pops_come_out_in_order() {
    let mut q: IndexedMinQueue<Units, u64> = IndexedMinQueue::new();
    let values: Vec<u64> = (0..100u64).map(|i| (i * 37 + 11) % 101).collect();
    for (i, v) in values.iter().enumerate() {
        q.insert(id(i), *v);
    }
    let mut sorted = values.clone();
    sorted.sort();
    let mut out = vec![];
    while let Some((_, v)) = q.pop() {
        out.push(v);
    }
    assert_eq!(sorted, out);
}

#[test]
fn empty_queue_edges() {
    let mut q: IndexedMinQueue<Units, u64> = IndexedMinQueue::new();
    assert_eq!(None, q.peek());
    assert!(q.peek_id().is_none());
    assert!(q.pop().is_none());
    assert!(q.remove_position(0).is_none());
    assert_eq!(None, q.get_position(0));
    assert_eq!(None, q.get(id(0)));
    q.insert(id(0), 1);
    assert!(q.remove_position(1).is_none());
    assert!(q.get_position_with_id(1).is_none());
    assert_eq!(Some(1), q.get_position(0));
    assert_eq!(0, q.get_position_with_id(0).unwrap().0.untyped.index);
}

#[test]
fn clear_empties_queue() {
    let mut q: IndexedMinQueue<Units, u64> = IndexedMinQueue::new();
    q.insert(id(0), 1);
    q.insert(id(5), 2);
    q.clear();
    assert!(q.is_empty());
    assert_eq!(None, q.get(id(5)));
    q.insert(id(5), 9);
    assert_eq!(Some(9), q.peek());
}

#[test]
fn equal_priorities_keep_first_child() {
    let mut q: UntypedIndexedMinQueue<u64> = UntypedIndexedMinQueue::new();
    for i in 0..10 {
        q.insert(UntypedId::first(i), 5);
    }
    q.increase(UntypedId::first(0), 6);
    let order: Vec<usize> = q.iter_sorted().iter().map(|e| e.0.index).collect();
    assert_eq!(vec![1, 9, 2, 3, 4, 5, 6, 7, 8, 0], order);
}

#[test]
fn remove_position_restores_order() {
    let mut q: UntypedIndexedMinQueue<u64> = UntypedIndexedMinQueue::new();
    for i in 0..30 {
        q.insert(UntypedId::first(i), ((i * 13) % 17) as u64);
    }
    let (gone, _) = q.remove_position(4).unwrap();
    assert!(q.is_sorted());
    assert_eq!(None, q.get(gone));
    assert_eq!(29, q.len());
}

#[test]
fn reverse_adapter_orders_backwards() {
    let mut q: UntypedIndexedMinQueue<Reverse<i32>> = UntypedIndexedMinQueue::new();
    q.insert(UntypedId::first(0), Reverse(-4));
    q.insert(UntypedId::first(1), Reverse(12));
    q.insert(UntypedId::first(2), Reverse(3));
    assert_eq!(Some(Reverse(12)), q.get_position(0));
    assert_eq!(Some((UntypedId::first(1), Reverse(12))), q.remove_position(0));
    assert_eq!(Some(Reverse(3)), q.get_position(0));
}

#[test]
fn signed_and_char_priorities() {
    let mut q: IndexedMinQueue<Units, i64> = IndexedMinQueue::new();
    q.insert(id(0), 5);
    q.insert(id(1), -7);
    q.insert(id(2), 0);
    assert_eq!(Some(-7), q.peek());
    let mut c: IndexedMinQueue<Units, char> = IndexedMinQueue::new();
    c.insert(id(0), 'q');
    c.insert(id(1), 'b');
    assert_eq!(Some('b'), c.peek());
}

#[test]
fn values_lists_each_slot() {
    let mut q: IndexedMinQueue<Units, u64> = IndexedMinQueue::new();
    q.insert(id(0), 4);
    q.insert(id(3), 1);
    assert_eq!(vec![Some(4), None, None, Some(1)], q.values());
    q.remove(id(0));
    assert_eq!(vec![None, None, None, Some(1)], q.values());

    let mut m: IndexedMaxQueue<Units, u64> = IndexedMaxQueue::new();
    m.insert(id(1), 7);
    assert_eq!(vec![None, Some(7)], m.values());
}

#[test]
fn remove_second_of_four_heap_array() {
    let mut q: UntypedIndexedMinQueue<u32> = UntypedIndexedMinQueue::new();
    for i in 0..4 {
        q.insert(UntypedId::first(i), i as u32 + 1);
    }
    assert_eq!(Some((UntypedId::first(1), 2)), q.remove(UntypedId::first(1)));
    let order: Vec<usize> = q.iter_sorted().iter().map(|e| e.0.index).collect();
    assert_eq!(vec![0, 3, 2], order);
}
