use indexed_queue::{get_children, get_parent, UntypedId, UntypedIndexedMinQueue};

fn new_queue() -> UntypedIndexedMinQueue<u32> {
    UntypedIndexedMinQueue::default()
}

fn get_id(index: usize) -> UntypedId {
    UntypedId::first(index)
}

fn heap_ids(queue: &UntypedIndexedMinQueue<u32>) -> Vec<UntypedId> {
    queue.iter_sorted().iter().map(|e| e.0).collect()
}

#[test]
fn parent_child() {
    assert_eq!(None, get_parent(0, 4));

    assert_eq!(Some(1), get_parent(7, 4));
    assert!(get_children(1, 10, 4).any(|c| c == 7));
}

#[test]
fn insert_out_of_order() {
    let mut queue = new_queue();

    queue.insert(get_id(0), 3);
    assert!(queue.is_sorted());

    queue.insert(get_id(1), 2);
    assert!(queue.is_sorted());

    assert_eq!(vec![get_id(1), get_id(0)], heap_ids(&queue));
}

#[test]
fn insert_in_order() {
    let mut queue = new_queue();

    queue.insert(get_id(0), 3);
    assert!(queue.is_sorted());

    queue.insert(get_id(1), 4);
    assert!(queue.is_sorted());

    assert_eq!(vec![get_id(0), get_id(1)], heap_ids(&queue));
}

#[test]
fn re_insert() {
    let mut queue = new_queue();

    queue.insert(get_id(0), 3);
    assert!(queue.is_sorted());

    queue.insert(get_id(1), 2);
    assert!(queue.is_sorted());

    queue.insert(get_id(1), 4);
    assert!(queue.is_sorted());
}

#[test]
fn remove_from_empty_returns_none() {
    let mut queue = new_queue();

    assert_eq!(None, queue.remove(get_id(0)));
}

#[test]
fn remove_from_3() {
    let mut queue = new_queue();

    queue.insert(get_id(0), 1);
    assert!(queue.is_sorted());

    queue.insert(get_id(1), 2);
    assert!(queue.is_sorted());

    queue.insert(get_id(2), 3);
    assert!(queue.is_sorted());

    queue.remove(get_id(1));
    assert!(queue.is_sorted());

    assert_eq!(vec![get_id(0), get_id(2)], heap_ids(&queue));
}

#[test]
fn remove_from_4() {
    let mut queue = new_queue();

    queue.insert(get_id(0), 1);
    assert!(queue.is_sorted());

    queue.insert(get_id(1), 2);
    assert!(queue.is_sorted());

    queue.insert(get_id(2), 3);
    assert!(queue.is_sorted());

    queue.insert(get_id(3), 4);
    assert!(queue.is_sorted());

    queue.remove(get_id(1));
    assert!(queue.is_sorted());
}

#[test]
fn insert_after_remove() {
    let mut queue = new_queue();

    queue.insert(get_id(0), 0);
    assert!(queue.is_sorted());

    queue.insert(get_id(1), 1);
    assert!(queue.is_sorted());

    queue.insert(get_id(2), 2);
    assert!(queue.is_sorted());

    queue.remove(get_id(1));
    assert!(queue.is_sorted());

    queue.insert(get_id(1), 3);
    assert!(queue.is_sorted());
}

#[test]
fn pop() {
    let mut queue = new_queue();

    queue.insert(get_id(0), 0);

    queue.insert(get_id(1), 1);

    assert_eq!(heap_ids(&queue)[0], get_id(0));

    let (id, value) = queue.remove_position(0).unwrap();
    assert_eq!(id, get_id(0));
    assert_eq!(value, 0);
    assert!(queue.is_sorted());
}

/// A small xorshift generator, so that the random walk below is repeatable.
struct Rng(u64);

impl Rng {
    fn next(&mut self) -> u64 {
        let mut x = self.0;
        x ^= x << 13;
        x ^= x >> 7;
        x ^= x << 17;
        self.0 = x;
        x
    }

    fn below(&mut self, n: usize) -> usize {
        (self.next() % n as u64) as usize
    }
}

/// Hands out fresh identifiers and picks one of those handed out so far.
struct Allocator {
    live: Vec<UntypedId>,
    next_index: usize,
}

impl Allocator {
    fn create(&mut self) -> UntypedId {
        let id = get_id(self.next_index);
        self.next_index += 1;
        self.live.push(id);
        id
    }

    fn pick(&self, rng: &mut Rng) -> Option<UntypedId> {
        if self.live.is_empty() {
            None
        } else {
            Some(self.live[rng.below(self.live.len())])
        }
    }
}

#[test]
fn procedural_test() {
    let rng = &mut Rng(0x9E37_79B9_7F4A_7C15);
    let mut alloc = Allocator { live: vec![], next_index: 0 };
    let mut queue = new_queue();
    let mut empty: Vec<UntypedId> = vec![];

    for _ in 0..10 {
        let id = alloc.create();
        queue.insert(id, rng.next() as u32);
        assert!(queue.is_sorted());
    }

    for _ in 0..1000 {
        match rng.below(4) {
            0 => {
                let id = alloc.create();
                queue.insert(id, rng.next() as u32);
                assert!(queue.is_sorted());
            }
            1 => {
                if let Some(id) = alloc.pick(rng) {
                    queue.insert(id, rng.next() as u32);
                    assert!(queue.is_sorted());
                }
            }
            2 => {
                if let Some(id) = alloc.pick(rng) {
                    empty.push(id);
                    queue.remove(id);
                    assert!(queue.is_sorted());
                }
            }
            _ => {
                if !empty.is_empty() {
                    let id = empty.swap_remove(rng.below(empty.len()));
                    queue.insert(id, rng.next() as u32);
                    assert!(queue.is_sorted());
                }
            }
        }
    }
    assert!(queue.is_sorted());
}

#[test]
fn get_children_test() {
    assert_eq!(
        Vec::<usize>::new(),
        get_children(0, 1, 4).collect::<Vec<_>>()
    );
    assert_eq!(vec![1], get_children(0, 2, 4).collect::<Vec<_>>());
    assert_eq!(vec![1, 2, 3, 4], get_children(0, 5, 4).collect::<Vec<_>>());
    assert_eq!(vec![1, 2, 3, 4], get_children(0, 6, 4).collect::<Vec<_>>());

    assert_eq!(
        vec![9, 10, 11, 12],
        get_children(2, 20, 4).collect::<Vec<_>>()
    );

    assert_eq!(vec![1, 2], get_children(0, 10, 2).collect::<Vec<_>>());
}

#[test]
fn decrease() {
    let mut queue = new_queue();

    queue.insert(get_id(0), 3);
    queue.insert(get_id(1), 2);
    queue.decrease(get_id(0), 1);

    assert!(queue.is_sorted());
    assert_eq!(vec![get_id(0), get_id(1)], heap_ids(&queue));
}

#[test]
fn decrease_given_larger_value() {
    let mut queue = new_queue();

    queue.insert(get_id(0), 3);
    queue.insert(get_id(1), 2);
    queue.decrease(get_id(0), 4);

    assert!(queue.is_sorted());
    assert_eq!(vec![get_id(1), get_id(0)], heap_ids(&queue));
}
