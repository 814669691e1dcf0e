//! The indexed D-ary min-heap: a heap-ordered array of identifiers, the map from
//! identifier to heap position, and the map from identifier to priority.

use crate::id::UntypedId;
use crate::order::{
    child_end, first_min, get_parent, heap_ordered, sunk, swum, lemma_decrease_except_up, lemma_parent,
    lemma_push_except_up, lemma_remove_except_at, lemma_root_is_min, lemma_sink_done,
    lemma_sink_step, lemma_swim_done, lemma_swim_step, lemma_update_except_at, ordered_except_at,
    ordered_except_up, parent, swapped, ARITY,
};
use crate::priority::{lemma_total_order, Priority};
use vstd::prelude::*;

verus! {

/// Largest number of identifiers a queue holds at once: heap positions are
/// recorded as `u32`.
pub const CAPACITY: usize = 0xFFFF_FFFF;

/// What the queue holds after `insert(id, v)` on a queue that held `m`: an
/// identifier already present keeps the handle it was stored with and takes the
/// new priority; a new one is stored with its handle.
pub open spec fn inserted<T>(m: Map<usize, (UntypedId, T)>, id: UntypedId, v: T) -> Map<
    usize,
    (UntypedId, T),
> {
    if m.contains_key(id.index) {
        m.insert(id.index, (m[id.index].0, v))
    } else {
        m.insert(id.index, (id, v))
    }
}

/// The entries after writing `v` as the priority at heap position `p`.
pub open spec fn with_priority<T>(e: Seq<(UntypedId, T)>, p: int, v: T) -> Seq<(UntypedId, T)> {
    e.update(p, (e[p].0, v))
}

/// The entries after removing heap position `p`: the last entry moves into `p`,
/// then order is restored by `sink` and then `swim` from `p`.
pub open spec fn removed_at<T: Priority>(e: Seq<(UntypedId, T)>, p: int) -> Seq<(UntypedId, T)> {
    let q = swapped(e, p, e.len() - 1).drop_last();
    swum(sunk(q, p), p)
}

/// An indexed min priority queue based on a D-ary heap. Storage is keyed by the
/// dense index of an identifier; its generation is carried along, not checked.
#[derive(Debug)]
pub struct UntypedIndexedMinQueue<T> {
    /// Priority of each identifier, by dense index.
    values: Vec<Option<T>>,
    /// Heap position of each identifier, by dense index.
    position_map: Vec<Option<u32>>,
    /// Identifier at each heap position.
    inverse_map: Vec<UntypedId>,
}

impl<T: Priority> UntypedIndexedMinQueue<T> {
    /// The identifiers in heap-array order.
    pub closed spec fn heap_ids(&self) -> Seq<UntypedId> {
        self.inverse_map@
    }

    /// Heap position recorded for dense index `i`.
    pub closed spec fn position_of(&self, i: int) -> Option<int> {
        if 0 <= i < self.position_map@.len() {
            match self.position_map@[i] {
                Some(p) => Some(p as int),
                None => None,
            }
        } else {
            None
        }
    }

    /// Priority recorded for dense index `i`.
    pub closed spec fn value_of(&self, i: int) -> Option<T> {
        if 0 <= i < self.values@.len() {
            self.values@[i]
        } else {
            None
        }
    }

    /// Priority at each heap position.
    pub closed spec fn keys(&self) -> Seq<T> {
        Seq::new(self.inverse_map@.len(), |p: int| self.value_of(self.inverse_map@[p].index as int)->0)
    }

    /// Handle and priority at each heap position.
    pub closed spec fn entries(&self) -> Seq<(UntypedId, T)> {
        Seq::new(self.inverse_map@.len(), |p: int| (self.inverse_map@[p], self.keys()[p]))
    }

    /// Each present dense index with the handle stored for it and its priority.
    pub closed spec fn contents(&self) -> Map<usize, (UntypedId, T)> {
        Map::new(
            |i: usize| self.position_of(i as int).is_some(),
            |i: usize| (self.inverse_map@[self.position_of(i as int)->0], self.value_of(i as int)->0),
        )
    }

    /// The three structures agree: positions and the heap array are inverse to
    /// each other, and an index has a priority exactly when it has a position.
    pub closed spec fn linked(&self) -> bool {
        let ids = self.inverse_map@;
        let pm = self.position_map@;
        &&& self.values@.len() == pm.len()
        &&& ids.len() <= CAPACITY
        &&& forall|p: int|
            0 <= p < ids.len() ==> (#[trigger] ids[p]).index < pm.len() && pm[ids[p].index as int]
                == Some(p as u32)
        &&& forall|i: int|
            0 <= i < pm.len() && (#[trigger] pm[i]).is_some() ==> (pm[i]->0 as int) < ids.len()
                && ids[pm[i]->0 as int].index == i
        &&& forall|i: int| 0 <= i < pm.len() ==> (#[trigger] self.values@[i]).is_some() == pm[i].is_some()
    }

    /// Well-formed: linked, and heap-ordered by priority.
    pub closed spec fn wf(&self) -> bool {
        self.linked() && heap_ordered(self.keys())
    }

    pub closed spec fn len_spec(&self) -> nat {
        self.inverse_map@.len()
    }

    /// An empty queue.
    pub fn new() -> (r: Self)
        ensures
            r.wf(),
            r.len_spec() == 0,
            r.contents() == Map::<usize, (UntypedId, T)>::empty(),
    {
        let r = UntypedIndexedMinQueue {
            values: Vec::new(),
            position_map: Vec::new(),
            inverse_map: Vec::new(),
        };
        assert(r.contents() =~= Map::<usize, (UntypedId, T)>::empty());
        r
    }

    /// Priority at heap position `p`.
    fn value_at(&self, p: usize) -> (r: T)
        requires
            self.linked(),
            p < self.inverse_map@.len(),
        ensures
            r == self.keys()[p as int],
    {
        let id = self.inverse_map[p];
        self.values[id.index].unwrap()
    }

    /// Exchanges the entries at heap positions `a` and `b`, and their recorded
    /// positions; does nothing where either position is out of range.
    fn swap(&mut self, a: usize, b: usize)
        requires
            old(self).linked(),
        ensures
            final(self).linked(),
            final(self).inverse_map@.len() == old(self).inverse_map@.len(),
            final(self).values@ == old(self).values@,
            final(self).contents() == old(self).contents(),
            a < old(self).inverse_map@.len() && b < old(self).inverse_map@.len() ==> {
                &&& final(self).inverse_map@ == old(self).inverse_map@.update(
                    a as int,
                    old(self).inverse_map@[b as int],
                ).update(b as int, old(self).inverse_map@[a as int])
                &&& final(self).keys() == swapped(old(self).keys(), a as int, b as int)
                &&& final(self).entries() == swapped(old(self).entries(), a as int, b as int)
            },
            !(a < old(self).inverse_map@.len() && b < old(self).inverse_map@.len()) ==> *final(self)
                == *old(self),
    {
        if a < self.inverse_map.len() && b < self.inverse_map.len() {
            let id_a = self.inverse_map[a];
            let id_b = self.inverse_map[b];
            self.position_map.set(id_a.index, Some(b as u32));
            self.position_map.set(id_b.index, Some(a as u32));
            self.inverse_map.set(a, id_b);
            self.inverse_map.set(b, id_a);
            proof {
                assert(self.keys() =~= swapped(old(self).keys(), a as int, b as int));
                assert(self.entries() =~= swapped(old(self).entries(), a as int, b as int));
                assert(self.contents() =~= old(self).contents());
            }
        }
    }

    /// The first child of `parent_pos` with the least priority, if it has a
    /// child.
    fn min_child(&self, parent_pos: usize) -> (r: Option<usize>)
        requires
            self.linked(),
        ensures
            r.is_none() <==> parent_pos * ARITY + 1 >= self.keys().len(),
            r.is_none() <==> forall|c: int|
                0 < c < self.keys().len() ==> parent(c) != parent_pos,
            r matches Some(m) ==> {
                &&& parent_pos * ARITY + 1 <= m < self.keys().len()
                &&& m < parent_pos * ARITY + ARITY + 1
                &&& m == first_min(
                    self.entries(),
                    parent_pos * ARITY + 1,
                    child_end(parent_pos as int, self.keys().len() as int),
                )
                &&& parent(m as int) == parent_pos
                &&& forall|c: int|
                    0 < c < self.keys().len() && parent(c) == parent_pos ==> self.keys()[m as int].ord_le(
                        #[trigger] self.keys()[c],
                    )
                &&& forall|c: int|
                    0 < c < m && parent(c) == parent_pos ==> !(#[trigger] self.keys()[c]).ord_le(
                        self.keys()[m as int],
                    )
            },
    {
        let n = self.inverse_map.len();
        let ghost s = self.keys();
        let ghost e = self.entries();
        if n == 0 || parent_pos > (n - 1) / ARITY {
            proof {
                assert(parent_pos * ARITY + 1 >= n) by (nonlinear_arith)
                    requires
                        n == 0 || parent_pos > (n - 1) / 8,
                ;
                assert forall|c: int| 0 < c < s.len() implies parent(c) != parent_pos by {
                    lemma_parent(c, parent_pos as int);
                }
            }
            return None;
        }
        proof {
            assert(parent_pos * ARITY <= n - 1) by (nonlinear_arith)
                requires
                    n > 0,
                    parent_pos <= (n - 1) / 8,
            ;
        }
        let start = parent_pos * ARITY + 1;
        if start >= n {
            proof {
                assert forall|c: int| 0 < c < s.len() implies parent(c) != parent_pos by {
                    lemma_parent(c, parent_pos as int);
                }
            }
            return None;
        }
        let end = if n - start >= ARITY {
            start + ARITY
        } else {
            n
        };
        proof {
            lemma_total_order::<T>();
        }
        let mut min: usize = start;
        let mut min_value: T = self.value_at(min);
        let mut c: usize = start + 1;
        while c < end
            invariant
                start < end <= n,
                start == parent_pos * 8 + 1,
                end == child_end(parent_pos as int, n as int),
                n == s.len(),
                s == self.keys(),
                e == self.entries(),
                self.linked(),
                start <= min < c <= end,
                min_value == s[min as int],
                min == first_min(e, start as int, c as int),
                forall|k: int| start <= k < c ==> min_value.ord_le(#[trigger] s[k]),
                forall|k: int| start <= k < min ==> !(#[trigger] s[k]).ord_le(min_value),
            decreases end - c,
        {
            proof {
                lemma_total_order::<T>();
            }
            let v = self.value_at(c);
            if v.less(&min_value) {
                min = c;
                min_value = v;
            }
            c = c + 1;
        }
        proof {
            lemma_parent(min as int, parent_pos as int);
            assert forall|k: int| 0 < k < s.len() && parent(k) == parent_pos implies s[min as int].ord_le(
                #[trigger] s[k],
            ) by {
                lemma_parent(k, parent_pos as int);
            }
            assert forall|k: int| 0 < k < min && parent(k) == parent_pos implies !(#[trigger] s[k]).ord_le(
                s[min as int],
            ) by {
                lemma_parent(k, parent_pos as int);
            }
        }
        Some(min)
    }

    /// Moves the entry at `index` down while its first least child is strictly
    /// less than it; does nothing where `index` is out of range.
    fn sink(&mut self, index: usize)
        requires
            old(self).linked(),
            index < old(self).inverse_map@.len() ==> ordered_except_at(old(self).keys(), index as int),
        ensures
            final(self).linked(),
            final(self).inverse_map@.len() == old(self).inverse_map@.len(),
            final(self).contents() == old(self).contents(),
            final(self).entries() == sunk(old(self).entries(), index as int),
            index < old(self).inverse_map@.len() ==> {
                &&& ordered_except_up(final(self).keys(), index as int)
                &&& index == 0 || old(self).keys()[parent(index as int)].ord_le(
                    old(self).keys()[index as int],
                ) ==> heap_ordered(final(self).keys())
                &&& final(self).position_of(old(self).heap_ids()[index as int].index as int) is Some
                &&& final(self).position_of(old(self).heap_ids()[index as int].index as int)->0
                    >= index
            },
            index >= old(self).inverse_map@.len() ==> *final(self) == *old(self),
    {
        if index >= self.inverse_map.len() {
            return ;
        }
        let ghost start = self.keys();
        let mut j: usize = index;
        loop
            invariant
                self.linked(),
                self.inverse_map@.len() == old(self).inverse_map@.len(),
                self.contents() == old(self).contents(),
                index < self.inverse_map@.len(),
                start == old(self).keys(),
                index <= j < self.inverse_map@.len(),
                ordered_except_at(self.keys(), j as int),
                j == index ==> self.keys() == start,
                j != index ==> j > 0 && self.keys()[parent(j as int)].ord_le(self.keys()[j as int]),
                sunk(self.entries(), j as int) == sunk(old(self).entries(), index as int),
                self.heap_ids()[j as int] == old(self).heap_ids()[index as int],
            ensures
                self.linked(),
                self.inverse_map@.len() == old(self).inverse_map@.len(),
                self.contents() == old(self).contents(),
                ordered_except_up(self.keys(), index as int),
                index == 0 || start[parent(index as int)].ord_le(start[index as int]) ==> heap_ordered(
                    self.keys(),
                ),
                self.entries() == sunk(old(self).entries(), index as int),
                index <= j < self.inverse_map@.len(),
                self.heap_ids()[j as int] == old(self).heap_ids()[index as int],
            decreases self.inverse_map@.len() - j,
        {
            let ghost s = self.keys();
            let ghost e = self.entries();
            proof {
                lemma_total_order::<T>();
            }
            match self.min_child(j) {
                None => {
                    proof {
                        lemma_sink_done(s, j as int);
                        self.lemma_sink_exit(index as int, j as int, start);
                        assert(sunk(e, j as int) == e);
                    }
                    break ;
                },
                Some(m) => {
                    let child_value = self.value_at(m);
                    let parent_value = self.value_at(j);
                    if child_value.less(&parent_value) {
                        proof {
                            lemma_sink_step(s, j as int, m as int);
                            assert(sunk(e, j as int) == sunk(swapped(e, j as int, m as int), m as int));
                        }
                        self.swap(j, m);
                        j = m;
                    } else {
                        proof {
                            lemma_sink_done(s, j as int);
                            self.lemma_sink_exit(index as int, j as int, start);
                            assert(sunk(e, j as int) == e);
                        }
                        break ;
                    }
                },
            }
        }
        proof {
            assert(self.position_of(self.heap_ids()[j as int].index as int) == Some(j as int));
        }
    }

    /// Where `sink` stops, the order it promises holds of where it started.
    proof fn lemma_sink_exit(&self, index: int, j: int, start: Seq<T>)
        requires
            0 <= index <= j < self.keys().len(),
            ordered_except_up(self.keys(), j),
            j == index ==> self.keys() == start,
            j != index ==> j > 0 && self.keys()[parent(j)].ord_le(self.keys()[j]),
            (j == 0 || self.keys()[parent(j)].ord_le(self.keys()[j])) ==> heap_ordered(self.keys()),
        ensures
            ordered_except_up(self.keys(), index),
            index == 0 || start[parent(index)].ord_le(start[index]) ==> heap_ordered(self.keys()),
    {
        if j != index {
            crate::order::lemma_ordered_except_up(self.keys(), index);
        }
    }

    /// Moves the entry at `index` up while its parent is strictly greater; does
    /// nothing where `index` is out of range.
    fn swim(&mut self, index: usize)
        requires
            old(self).linked(),
            index < old(self).inverse_map@.len() ==> ordered_except_up(old(self).keys(), index as int),
        ensures
            final(self).linked(),
            final(self).inverse_map@.len() == old(self).inverse_map@.len(),
            final(self).contents() == old(self).contents(),
            final(self).entries() == swum(old(self).entries(), index as int),
            index < old(self).inverse_map@.len() ==> {
                &&& heap_ordered(final(self).keys())
                &&& final(self).position_of(old(self).heap_ids()[index as int].index as int) is Some
                &&& final(self).position_of(old(self).heap_ids()[index as int].index as int)->0
                    <= index
            },
            index >= old(self).inverse_map@.len() ==> *final(self) == *old(self),
    {
        if index >= self.inverse_map.len() {
            return ;
        }
        let mut j: usize = index;
        loop
            invariant
                self.linked(),
                self.inverse_map@.len() == old(self).inverse_map@.len(),
                self.contents() == old(self).contents(),
                index < self.inverse_map@.len(),
                j <= index,
                ordered_except_up(self.keys(), j as int),
                swum(self.entries(), j as int) == swum(old(self).entries(), index as int),
                self.heap_ids()[j as int] == old(self).heap_ids()[index as int],
            ensures
                self.linked(),
                self.inverse_map@.len() == old(self).inverse_map@.len(),
                self.contents() == old(self).contents(),
                heap_ordered(self.keys()),
                self.entries() == swum(old(self).entries(), index as int),
                j <= index,
                self.heap_ids()[j as int] == old(self).heap_ids()[index as int],
            decreases j,
        {
            let ghost s = self.keys();
            let ghost e = self.entries();
            proof {
                lemma_total_order::<T>();
            }
            match get_parent(j, ARITY) {
                None => {
                    proof {
                        lemma_swim_done(s, j as int);
                        assert(swum(e, j as int) == e);
                    }
                    break ;
                },
                Some(p) => {
                    proof {
                        lemma_parent(j as int, 0);
                    }
                    let parent_value = self.value_at(p);
                    let child_value = self.value_at(j);
                    if child_value.less(&parent_value) {
                        proof {
                            lemma_swim_step(s, j as int);
                            assert(swum(e, j as int) == swum(swapped(e, j as int, p as int), p as int));
                        }
                        self.swap(j, p);
                        j = p;
                    } else {
                        proof {
                            lemma_swim_done(s, j as int);
                            assert(swum(e, j as int) == e);
                        }
                        break ;
                    }
                },
            }
        }
        proof {
            assert(self.position_of(self.heap_ids()[j as int].index as int) == Some(j as int));
        }
    }
}

impl<T: Priority> UntypedIndexedMinQueue<T> {
    /// Empties the queue.
    pub fn clear(&mut self)
        ensures
            final(self).wf(),
            final(self).len_spec() == 0,
            final(self).contents() == Map::<usize, (UntypedId, T)>::empty(),
    {
        *self = UntypedIndexedMinQueue::new();
    }

    /// Grows the per-identifier storage so that dense index `index` has a slot.
    fn reserve_slot(&mut self, index: usize)
        requires
            old(self).wf(),
        ensures
            final(self).wf(),
            index < final(self).values@.len(),
            final(self).inverse_map@ == old(self).inverse_map@,
            final(self).keys() == old(self).keys(),
            final(self).entries() == old(self).entries(),
            final(self).position_of(index as int) == old(self).position_of(index as int),
            final(self).contents() == old(self).contents(),
    {
        while self.values.len() <= index
            invariant
                self.wf(),
                self.inverse_map@ == old(self).inverse_map@,
                self.keys() == old(self).keys(),
                self.contents() == old(self).contents(),
                self.position_of(index as int) == old(self).position_of(index as int),
            decreases index + 1 - self.values@.len(),
        {
            let ghost prev = *self;
            self.values.push(None);
            self.position_map.push(None);
            proof {
                assert(self.keys() =~= prev.keys());
                assert(self.contents() =~= prev.contents());
            }
        }
        assert(self.entries() =~= old(self).entries());
    }

    /// Sets the priority of `id`: a present identifier takes the new priority, a
    /// new one enters the queue. Order is restored either way.
    pub fn insert(&mut self, id: UntypedId, value: T)
        requires
            old(self).wf(),
            old(self).contents().contains_key(id.index) || old(self).len_spec() < CAPACITY,
        ensures
            final(self).wf(),
            final(self).contents() == inserted(old(self).contents(), id, value),
            final(self).len_spec() == if old(self).contents().contains_key(id.index) {
                old(self).len_spec()
            } else {
                old(self).len_spec() + 1
            },
            final(self).entries() == if old(self).contents().contains_key(id.index) {
                let p = old(self).position_of(id.index as int)->0;
                swum(sunk(with_priority(old(self).entries(), p, value), p), p)
            } else {
                swum(old(self).entries().push((id, value)), old(self).len_spec() as int)
            },
    {
        self.reserve_slot(id.index);
        let ghost before = *self;
        match self.position_map[id.index] {
            Some(index) => {
                let index = index as usize;
                self.values.set(id.index, Some(value));
                proof {
                    assert(self.keys() =~= before.keys().update(index as int, value));
                    assert(self.entries() =~= with_priority(old(self).entries(), index as int, value));
                    lemma_update_except_at(before.keys(), index as int, value);
                    assert(self.contents() =~= inserted(old(self).contents(), id, value));
                }
                self.sink(index);
                self.swim(index);
            },
            None => {
                let index = self.inverse_map.len();
                self.values.set(id.index, Some(value));
                self.position_map.set(id.index, Some(index as u32));
                self.inverse_map.push(id);
                proof {
                    assert(self.keys() =~= before.keys().push(value));
                    assert(self.entries() =~= old(self).entries().push((id, value)));
                    lemma_push_except_up(before.keys(), value);
                    assert(self.contents() =~= inserted(old(self).contents(), id, value));
                }
                self.swim(index);
            },
        }
    }

    /// Removes the entry at heap position `position` and restores order.
    fn remove_at(&mut self, position: usize) -> (r: (UntypedId, T))
        requires
            old(self).wf(),
            position < old(self).inverse_map@.len(),
        ensures
            final(self).wf(),
            r == (old(self).heap_ids()[position as int], old(self).keys()[position as int]),
            final(self).contents() == old(self).contents().remove(r.0.index),
            final(self).len_spec() == old(self).len_spec() - 1,
            final(self).entries() == removed_at(old(self).entries(), position as int),
    {
        let last = self.inverse_map.len() - 1;
        let ghost s0 = self.keys();
        self.swap(position, last);
        let ghost mid = *self;
        let id = self.inverse_map[last];
        let value = self.value_at(last);
        self.inverse_map.pop();
        self.values.set(id.index, None);
        self.position_map.set(id.index, None);
        proof {
            assert(self.keys() =~= swapped(s0, position as int, last as int).drop_last());
            assert(self.entries() =~= swapped(old(self).entries(), position as int, last as int).drop_last());
            assert(self.contents() =~= mid.contents().remove(id.index));
            if position == last {
                assert(heap_ordered(self.keys()));
            }
        }
        if position < last {
            proof {
                lemma_remove_except_at(s0, position as int);
            }
            self.sink(position);
            self.swim(position);
        }
        (id, value)
    }

    /// Removes `id` and returns the handle stored for it and its priority, or
    /// `None`, with the queue unchanged, where it is absent.
    pub fn remove(&mut self, id: UntypedId) -> (r: Option<(UntypedId, T)>)
        requires
            old(self).wf(),
        ensures
            final(self).wf(),
            old(self).contents().contains_key(id.index) ==> r == Some(old(self).contents()[id.index])
                && final(self).contents() == old(self).contents().remove(id.index)
                && final(self).len_spec() == old(self).len_spec() - 1 && final(self).entries()
                == removed_at(old(self).entries(), old(self).position_of(id.index as int)->0),
            !old(self).contents().contains_key(id.index) ==> r.is_none() && *final(self) == *old(self),
    {
        if id.index >= self.position_map.len() {
            return None;
        }
        match self.position_map[id.index] {
            None => None,
            Some(position) => {
                let r = self.remove_at(position as usize);
                Some(r)
            },
        }
    }

    /// Removes the entry at heap position `position`, or returns `None`, with the
    /// queue unchanged, where there is none.
    pub fn remove_position(&mut self, position: usize) -> (r: Option<(UntypedId, T)>)
        requires
            old(self).wf(),
        ensures
            final(self).wf(),
            position < old(self).len_spec() ==> r == Some(
                (old(self).heap_ids()[position as int], old(self).keys()[position as int]),
            ) && final(self).contents() == old(self).contents().remove(
                old(self).heap_ids()[position as int].index,
            ) && final(self).len_spec() == old(self).len_spec() - 1 && final(self).entries()
                == removed_at(old(self).entries(), position as int),
            position >= old(self).len_spec() ==> r.is_none() && *final(self) == *old(self),
    {
        if position < self.inverse_map.len() {
            Some(self.remove_at(position))
        } else {
            None
        }
    }

    /// Lowers the priority of `id` to `value` where `id` is present and `value`
    /// is strictly less than its priority; otherwise changes nothing.
    pub fn decrease(&mut self, id: UntypedId, value: T)
        requires
            old(self).wf(),
        ensures
            final(self).wf(),
            old(self).contents().contains_key(id.index) && !old(self).contents()[id.index].1.ord_le(value)
                ==> final(self).contents() == old(self).contents().insert(
                id.index,
                (old(self).contents()[id.index].0, value),
            ) && final(self).len_spec() == old(self).len_spec(),
            old(self).contents().contains_key(id.index) && !old(self).contents()[id.index].1.ord_le(value)
                ==> {
                let p = old(self).position_of(id.index as int)->0;
                &&& final(self).entries() == swum(with_priority(old(self).entries(), p, value), p)
                &&& final(self).position_of(id.index as int) is Some
                &&& final(self).position_of(id.index as int)->0 <= p
            },
            !(old(self).contents().contains_key(id.index) && !old(self).contents()[id.index].1.ord_le(value))
                ==> *final(self) == *old(self),
    {
        if id.index >= self.values.len() {
            return ;
        }
        if let (Some(current), Some(index)) = (self.values[id.index], self.position_map[id.index]) {
            if value.less(&current) {
                let index = index as usize;
                let ghost before = self.keys();
                self.values.set(id.index, Some(value));
                proof {
                    lemma_total_order::<T>();
                    assert(self.keys() =~= before.update(index as int, value));
                    assert(self.entries() =~= with_priority(old(self).entries(), index as int, value));
                    lemma_decrease_except_up(before, index as int, value);
                    assert(self.contents() =~= old(self).contents().insert(
                        id.index,
                        (old(self).contents()[id.index].0, value),
                    ));
                }
                self.swim(index);
            }
        }
    }

    /// Raises the priority of `id` to `value` where `id` is present and `value`
    /// is strictly greater than its priority; otherwise changes nothing.
    pub fn increase(&mut self, id: UntypedId, value: T)
        requires
            old(self).wf(),
        ensures
            final(self).wf(),
            old(self).contents().contains_key(id.index) && !value.ord_le(old(self).contents()[id.index].1)
                ==> final(self).contents() == old(self).contents().insert(
                id.index,
                (old(self).contents()[id.index].0, value),
            ) && final(self).len_spec() == old(self).len_spec(),
            old(self).contents().contains_key(id.index) && !value.ord_le(old(self).contents()[id.index].1)
                ==> {
                let p = old(self).position_of(id.index as int)->0;
                &&& final(self).entries() == sunk(with_priority(old(self).entries(), p, value), p)
                &&& final(self).position_of(id.index as int) is Some
                &&& final(self).position_of(id.index as int)->0 >= p
            },
            !(old(self).contents().contains_key(id.index) && !value.ord_le(old(self).contents()[id.index].1))
                ==> *final(self) == *old(self),
    {
        if id.index >= self.values.len() {
            return ;
        }
        if let (Some(current), Some(index)) = (self.values[id.index], self.position_map[id.index]) {
            if current.less(&value) {
                let index = index as usize;
                let ghost before = self.keys();
                self.values.set(id.index, Some(value));
                proof {
                    lemma_total_order::<T>();
                    assert(self.keys() =~= before.update(index as int, value));
                    assert(self.entries() =~= with_priority(old(self).entries(), index as int, value));
                    lemma_update_except_at(before, index as int, value);
                    if index > 0 {
                        lemma_parent(index as int, 0);
                        assert(before[parent(index as int)].ord_le(before[index as int]));
                    }
                    assert(self.contents() =~= old(self).contents().insert(
                        id.index,
                        (old(self).contents()[id.index].0, value),
                    ));
                }
                self.sink(index);
            }
        }
    }

    /// Priority at heap position `position`.
    pub fn get_position(&self, position: usize) -> (r: Option<T>)
        requires
            self.wf(),
        ensures
            r == if position < self.len_spec() {
                Some(self.keys()[position as int])
            } else {
                None
            },
    {
        if position < self.inverse_map.len() {
            Some(self.value_at(position))
        } else {
            None
        }
    }

    /// Handle and priority at heap position `position`.
    pub fn get_position_with_id(&self, position: usize) -> (r: Option<(UntypedId, T)>)
        requires
            self.wf(),
        ensures
            r == if position < self.len_spec() {
                Some((self.heap_ids()[position as int], self.keys()[position as int]))
            } else {
                None
            },
    {
        if position < self.inverse_map.len() {
            Some((self.inverse_map[position], self.value_at(position)))
        } else {
            None
        }
    }

    /// Priority of `id`, where it is present.
    pub fn get(&self, id: UntypedId) -> (r: Option<T>)
        requires
            self.wf(),
        ensures
            r == if self.contents().contains_key(id.index) {
                Some(self.contents()[id.index].1)
            } else {
                None
            },
    {
        if id.index < self.values.len() {
            self.values[id.index]
        } else {
            None
        }
    }

    /// The entries, handle and priority, in heap-array order. Only the first is
    /// guaranteed to have the least priority.
    pub fn iter_sorted(&self) -> (r: Vec<(UntypedId, T)>)
        requires
            self.wf(),
        ensures
            r@ == Seq::new(self.len_spec(), |p: int| (self.heap_ids()[p], self.keys()[p])),
    {
        let mut r: Vec<(UntypedId, T)> = Vec::new();
        let mut p: usize = 0;
        while p < self.inverse_map.len()
            invariant
                self.wf(),
                p <= self.inverse_map@.len(),
                r@ == Seq::new(p as nat, |k: int| (self.heap_ids()[k], self.keys()[k])),
            decreases self.inverse_map@.len() - p,
        {
            r.push((self.inverse_map[p], self.value_at(p)));
            p = p + 1;
            proof {
                assert(r@ =~= Seq::new(p as nat, |k: int| (self.heap_ids()[k], self.keys()[k])));
            }
        }
        r
    }

    /// Whether every child's priority in the heap array is at least its
    /// parent's.
    pub fn is_sorted(&self) -> (r: bool)
        requires
            self.linked(),
        ensures
            r == heap_ordered(self.keys()),
    {
        let n = self.inverse_map.len();
        let mut c: usize = 1;
        while c < n
            invariant
                n == self.keys().len(),
                self.linked(),
                1 <= c,
                forall|k: int| 0 < k < c && k < n ==> (#[trigger] self.keys()[parent(k)]).ord_le(self.keys()[k]),
            decreases n - c,
        {
            proof {
                lemma_parent(c as int, 0);
            }
            if self.value_at(c).less(&self.value_at((c - 1) / ARITY)) {
                return false;
            }
            c = c + 1;
        }
        true
    }

    /// The priority slot of each dense index that has storage, in index order:
    /// the priority of a present identifier, `None` for the others.
    pub fn values(&self) -> (r: Vec<Option<T>>)
        requires
            self.wf(),
        ensures
            forall|i: usize|
                i < r@.len() ==> #[trigger] r@[i as int] == if self.contents().contains_key(i) {
                    Some(self.contents()[i].1)
                } else {
                    None
                },
            forall|i: usize| i >= r@.len() ==> !#[trigger] self.contents().contains_key(i),
    {
        let r = copy_vec(&self.values);
        assert forall|i: usize| i < r@.len() implies #[trigger] r@[i as int] == if self.contents().contains_key(
            i,
        ) {
            Some(self.contents()[i].1)
        } else {
            None
        } by {
            assert(self.values@[i as int].is_some() == self.position_map@[i as int].is_some());
        }
        r
    }

    /// Number of identifiers in the queue.
    pub fn len(&self) -> (r: usize)
        ensures
            r == self.len_spec(),
    {
        self.inverse_map.len()
    }

    pub fn is_empty(&self) -> (r: bool)
        ensures
            r == (self.len_spec() == 0),
    {
        self.len() == 0
    }
}

impl<T: Priority> Default for UntypedIndexedMinQueue<T> {
    fn default() -> (r: Self)
        ensures
            r.wf(),
            r.len_spec() == 0,
            r.contents() == Map::<usize, (UntypedId, T)>::empty(),
    {
        UntypedIndexedMinQueue::new()
    }
}

/// A copy of `v`, element by element.
fn copy_vec<V: Copy>(v: &Vec<V>) -> (r: Vec<V>)
    ensures
        r@ == v@,
{
    let mut r: Vec<V> = Vec::new();
    let mut i: usize = 0;
    while i < v.len()
        invariant
            i <= v@.len(),
            r@ == v@.subrange(0, i as int),
        decreases v@.len() - i,
    {
        r.push(v[i]);
        i = i + 1;
        proof {
            assert(r@ =~= v@.subrange(0, i as int));
        }
    }
    proof {
        assert(r@ =~= v@);
    }
    r
}

impl<T: Priority> Clone for UntypedIndexedMinQueue<T> {
    fn clone(&self) -> (r: Self)
        ensures
            r.wf() == self.wf(),
            r.heap_ids() == self.heap_ids(),
            r.keys() == self.keys(),
            r.contents() == self.contents(),
            r.len_spec() == self.len_spec(),
    {
        let r = UntypedIndexedMinQueue {
            values: copy_vec(&self.values),
            position_map: copy_vec(&self.position_map),
            inverse_map: copy_vec(&self.inverse_map),
        };
        proof {
            assert(r.keys() =~= self.keys());
            assert(r.contents() =~= self.contents());
        }
        r
    }
}

/// Heap order: in a well-formed queue every child's priority is at least its
/// parent's, and the priority at each heap position is the one the queue holds
/// for the identifier there.
pub proof fn lemma_heap_order<T: Priority>(q: &UntypedIndexedMinQueue<T>)
    requires
        q.wf(),
    ensures
        q.keys().len() == q.heap_ids().len(),
        q.heap_ids().len() == q.len_spec(),
        heap_ordered(q.keys()),
        forall|p: int|
            0 <= p < q.len_spec() ==> q.contents().contains_key(#[trigger] q.heap_ids()[p].index)
                && q.contents()[q.heap_ids()[p].index] == (q.heap_ids()[p], q.keys()[p]),
        q.entries().len() == q.len_spec(),
        forall|p: int| 0 <= p < q.len_spec() ==> #[trigger] q.entries()[p] == (q.heap_ids()[p], q.keys()[p]),
{
}

/// The least priority sits at the root: the first entry of a non-empty queue
/// has a priority no greater than any identifier's in it.
pub proof fn lemma_root_holds_min<T: Priority>(q: &UntypedIndexedMinQueue<T>)
    requires
        q.wf(),
        q.len_spec() > 0,
    ensures
        forall|i: usize| #[trigger]
            q.contents().contains_key(i) ==> q.keys()[0].ord_le(q.contents()[i].1),
{
    assert forall|i: usize| #[trigger] q.contents().contains_key(i) implies q.keys()[0].ord_le(
        q.contents()[i].1,
    ) by {
        let p = q.position_of(i as int)->0;
        lemma_root_is_min(q.keys(), p);
    }
}

/// The position map and the heap array are inverse to each other: the entry at
/// each position records that position, and each recorded position holds the
/// identifier that records it.
pub proof fn lemma_bijection<T: Priority>(q: &UntypedIndexedMinQueue<T>)
    requires
        q.wf(),
    ensures
        forall|p: int|
            0 <= p < q.len_spec() ==> q.position_of(#[trigger] q.heap_ids()[p].index as int)
                == Some(p),
        forall|i: int|
            (#[trigger] q.position_of(i)).is_some() ==> 0 <= q.position_of(i)->0 < q.len_spec()
                && q.heap_ids()[q.position_of(i)->0].index == i,
{
}

/// The length of a well-formed queue is the number of identifiers it holds.
pub proof fn lemma_len_is_count<T: Priority>(q: &UntypedIndexedMinQueue<T>)
    requires
        q.wf(),
    ensures
        q.contents().dom().finite(),
        q.contents().dom().len() == q.len_spec(),
{
    let ids = q.heap_ids().map_values(|id: UntypedId| id.index);
    assert(ids.no_duplicates()) by {
        assert forall|a: int, b: int| 0 <= a < ids.len() && 0 <= b < ids.len() && a != b implies ids[a]
            != ids[b] by {
            assert(q.position_of(ids[a] as int) == Some(a));
            assert(q.position_of(ids[b] as int) == Some(b));
        }
    }
    assert(ids.to_set() =~= q.contents().dom()) by {
        assert forall|i: usize| q.contents().dom().contains(i) implies ids.to_set().contains(i) by {
            let p = q.position_of(i as int)->0;
            assert(ids[p] == i);
        }
    }
    ids.unique_seq_to_set();
}

/// Inserting an absent identifier and then removing it gives back exactly that
/// handle and priority, and leaves what the queue held before, one fewer entry
/// than after the insertion.
pub proof fn lemma_insert_then_remove<T>(m: Map<usize, (UntypedId, T)>, id: UntypedId, v: T)
    requires
        m.dom().finite(),
        !m.contains_key(id.index),
    ensures
        inserted(m, id, v).contains_key(id.index),
        inserted(m, id, v)[id.index] == (id, v),
        inserted(m, id, v).remove(id.index) == m,
        inserted(m, id, v).dom().len() == m.dom().len() + 1,
{
    assert(inserted(m, id, v).remove(id.index) =~= m);
}

} // verus!
