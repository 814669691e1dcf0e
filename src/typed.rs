//! Queues whose identifiers are bound to one identifier domain, and the
//! max-queue built on the min-queue by reversing the order of priorities.

use crate::id::{Id, UntypedId};
use crate::order::{sunk, swum};
use crate::priority::{Priority, Reverse};
use crate::untyped::{
    inserted, removed_at, with_priority, lemma_bijection, lemma_heap_order, lemma_len_is_count, lemma_root_holds_min,
    UntypedIndexedMinQueue, CAPACITY,
};
use std::marker::PhantomData;
use vstd::prelude::*;

verus! {

/// An entry as handed out, with its identifier seen as an untyped handle.
pub open spec fn untyped_entry<Arena, T>(e: Option<(Id<Arena>, T)>) -> Option<(UntypedId, T)> {
    match e {
        Some((id, v)) => Some((id.untyped, v)),
        None => None,
    }
}

/// An identifier-indexed min priority queue based on a D-ary heap, for the
/// identifiers of the domain `Arena`.
pub struct IndexedMinQueue<Arena, T> {
    inner: UntypedIndexedMinQueue<T>,
    arena: PhantomData<Arena>,
}

impl<Arena, T: Priority> IndexedMinQueue<Arena, T> {
    pub closed spec fn wf(&self) -> bool {
        self.inner.wf()
    }

    /// Each present dense index with the handle stored for it and its priority.
    pub closed spec fn contents(&self) -> Map<usize, (UntypedId, T)> {
        self.inner.contents()
    }

    /// The identifiers in heap-array order.
    pub closed spec fn heap_ids(&self) -> Seq<UntypedId> {
        self.inner.heap_ids()
    }

    /// Priority at each heap position.
    pub closed spec fn keys(&self) -> Seq<T> {
        self.inner.keys()
    }

    pub closed spec fn len_spec(&self) -> nat {
        self.inner.len_spec()
    }

    /// Identifier and priority at each heap position.
    pub closed spec fn entries(&self) -> Seq<(UntypedId, T)> {
        self.inner.entries()
    }

    /// Heap position recorded for dense index `i`.
    pub closed spec fn position_of(&self, i: int) -> Option<int> {
        self.inner.position_of(i)
    }

    /// The entries at heap positions of a well-formed queue are the ones it holds,
    /// and the first has the least priority.
    pub proof fn lemma_model(&self)
        requires
            self.wf(),
        ensures
            self.keys().len() == self.heap_ids().len(),
            self.heap_ids().len() == self.len_spec(),
            forall|p: int|
                0 <= p < self.len_spec() ==> self.contents().contains_key(
                    #[trigger] self.heap_ids()[p].index,
                ) && self.contents()[self.heap_ids()[p].index] == (self.heap_ids()[p], self.keys()[p]),
            self.len_spec() > 0 ==> forall|i: usize| #[trigger]
                self.contents().contains_key(i) ==> self.keys()[0].ord_le(self.contents()[i].1),
            forall|p: int, q: int|
                0 <= p < self.len_spec() && 0 <= q < self.len_spec() && p != q ==> (#[trigger] self.heap_ids()[p]).index
                    != (#[trigger] self.heap_ids()[q]).index,
            self.contents().dom().finite(),
            self.contents().dom().len() == self.len_spec(),
            self.entries().len() == self.len_spec(),
            forall|p: int|
                0 <= p < self.len_spec() ==> #[trigger] self.entries()[p] == (self.heap_ids()[p], self.keys()[p]),
            forall|p: int|
                0 <= p < self.len_spec() ==> self.position_of(#[trigger] self.heap_ids()[p].index as int)
                    == Some(p),
    {
        lemma_heap_order(&self.inner);
        lemma_bijection(&self.inner);
        lemma_len_is_count(&self.inner);
        assert forall|p: int, q: int|
            0 <= p < self.len_spec() && 0 <= q < self.len_spec() && p != q implies (#[trigger] self.heap_ids()[p]).index
                != (#[trigger] self.heap_ids()[q]).index by {
            assert(self.inner.position_of(self.heap_ids()[p].index as int) == Some(p));
            assert(self.inner.position_of(self.heap_ids()[q].index as int) == Some(q));
        }
        if self.len_spec() > 0 {
            lemma_root_holds_min(&self.inner);
        }
    }

    pub fn new() -> (r: Self)
        ensures
            r.wf(),
            r.len_spec() == 0,
            r.contents() == Map::<usize, (UntypedId, T)>::empty(),
    {
        IndexedMinQueue { inner: UntypedIndexedMinQueue::new(), arena: PhantomData }
    }

    pub fn clear(&mut self)
        ensures
            final(self).wf(),
            final(self).len_spec() == 0,
            final(self).contents() == Map::<usize, (UntypedId, T)>::empty(),
    {
        self.inner.clear();
    }

    /// Sets the priority of `id`: a present identifier takes the new priority, a
    /// new one enters the queue.
    pub fn insert(&mut self, id: Id<Arena>, value: T)
        requires
            old(self).wf(),
            old(self).contents().contains_key(id.untyped.index) || old(self).len_spec() < CAPACITY,
        ensures
            final(self).wf(),
            final(self).contents() == inserted(old(self).contents(), id.untyped, value),
            final(self).len_spec() == if old(self).contents().contains_key(id.untyped.index) {
                old(self).len_spec()
            } else {
                old(self).len_spec() + 1
            },
            final(self).entries() == if old(self).contents().contains_key(id.untyped.index) {
                let p = old(self).position_of(id.untyped.index as int)->0;
                swum(sunk(with_priority(old(self).entries(), p, value), p), p)
            } else {
                swum(old(self).entries().push((id.untyped, value)), old(self).len_spec() as int)
            },
    {
        self.inner.insert(id.untyped, value);
    }

    /// Removes `id` and returns its identifier and priority, or `None`, with the
    /// queue unchanged, where it is absent.
    pub fn remove(&mut self, id: Id<Arena>) -> (r: Option<(Id<Arena>, T)>)
        requires
            old(self).wf(),
        ensures
            final(self).wf(),
            old(self).contents().contains_key(id.untyped.index) ==> untyped_entry(r) == Some(
                old(self).contents()[id.untyped.index],
            ) && final(self).contents() == old(self).contents().remove(id.untyped.index)
                && final(self).len_spec() == old(self).len_spec() - 1,
            !old(self).contents().contains_key(id.untyped.index) ==> r.is_none() && *final(self) == *old(self),
            old(self).contents().contains_key(id.untyped.index) ==> final(self).entries() == removed_at(
                old(self).entries(),
                old(self).position_of(id.untyped.index as int)->0,
            ),
    {
        match self.inner.remove(id.untyped) {
            Some((raw, value)) => Some((Id::new(raw), value)),
            None => None,
        }
    }

    /// Least priority in the queue.
    pub fn peek(&self) -> (r: Option<T>)
        requires
            self.wf(),
        ensures
            r == if self.len_spec() > 0 {
                Some(self.keys()[0])
            } else {
                None
            },
            r matches Some(v) ==> forall|i: usize| #[trigger]
                self.contents().contains_key(i) ==> v.ord_le(self.contents()[i].1),
    {
        proof {
            self.lemma_model();
        }
        self.get_position(0)
    }

    /// Identifier and priority at the root.
    pub fn peek_id(&self) -> (r: Option<(Id<Arena>, T)>)
        requires
            self.wf(),
        ensures
            untyped_entry(r) == if self.len_spec() > 0 {
                Some((self.heap_ids()[0], self.keys()[0]))
            } else {
                None
            },
            r matches Some(e) ==> forall|i: usize| #[trigger]
                self.contents().contains_key(i) ==> e.1.ord_le(self.contents()[i].1),
    {
        proof {
            self.lemma_model();
        }
        self.get_position_with_id(0)
    }

    /// Priority at heap position `position`.
    pub fn get_position(&self, position: usize) -> (r: Option<T>)
        requires
            self.wf(),
        ensures
            r == if position < self.len_spec() {
                Some(self.keys()[position as int])
            } else {
                None
            },
    {
        self.inner.get_position(position)
    }

    /// Identifier and priority at heap position `position`.
    pub fn get_position_with_id(&self, position: usize) -> (r: Option<(Id<Arena>, T)>)
        requires
            self.wf(),
        ensures
            untyped_entry(r) == if position < self.len_spec() {
                Some((self.heap_ids()[position as int], self.keys()[position as int]))
            } else {
                None
            },
    {
        match self.inner.get_position_with_id(position) {
            Some((raw, value)) => Some((Id::new(raw), value)),
            None => None,
        }
    }

    /// Removes and returns the entry with the least priority.
    pub fn pop(&mut self) -> (r: Option<(Id<Arena>, T)>)
        requires
            old(self).wf(),
        ensures
            final(self).wf(),
            old(self).len_spec() > 0 ==> untyped_entry(r) == Some(
                (old(self).heap_ids()[0], old(self).keys()[0]),
            ) && final(self).contents() == old(self).contents().remove(old(self).heap_ids()[0].index)
                && final(self).len_spec() == old(self).len_spec() - 1,
            r matches Some(e) ==> forall|i: usize| #[trigger]
                old(self).contents().contains_key(i) ==> e.1.ord_le(old(self).contents()[i].1),
            old(self).len_spec() == 0 ==> r.is_none() && *final(self) == *old(self),
            old(self).len_spec() > 0 ==> final(self).entries() == removed_at(old(self).entries(), 0),
    {
        proof {
            self.lemma_model();
        }
        self.remove_position(0)
    }

    /// Removes the entry at heap position `position`, or returns `None`, with the
    /// queue unchanged, where there is none.
    pub fn remove_position(&mut self, position: usize) -> (r: Option<(Id<Arena>, T)>)
        requires
            old(self).wf(),
        ensures
            final(self).wf(),
            position < old(self).len_spec() ==> untyped_entry(r) == Some(
                (old(self).heap_ids()[position as int], old(self).keys()[position as int]),
            ) && final(self).contents() == old(self).contents().remove(
                old(self).heap_ids()[position as int].index,
            ) && final(self).len_spec() == old(self).len_spec() - 1,
            position >= old(self).len_spec() ==> r.is_none() && *final(self) == *old(self),
            position < old(self).len_spec() ==> final(self).entries() == removed_at(
                old(self).entries(),
                position as int,
            ),
    {
        match self.inner.remove_position(position) {
            Some((raw, value)) => Some((Id::new(raw), value)),
            None => None,
        }
    }

    /// Lowers the priority of `id` to `value` where `id` is present and `value`
    /// is strictly less than its priority; otherwise changes nothing.
    pub fn decrease(&mut self, id: Id<Arena>, value: T)
        requires
            old(self).wf(),
        ensures
            final(self).wf(),
            old(self).contents().contains_key(id.untyped.index) && !old(self).contents()[id.untyped.index].1.ord_le(value) ==> final(self).contents() == old(self).contents().insert(id.untyped.index, (old(self).contents()[id.untyped.index].0, value))
                && final(self).len_spec() == old(self).len_spec(),
            !(old(self).contents().contains_key(id.untyped.index) && !old(self).contents()[id.untyped.index].1.ord_le(value)) ==> *final(self) == *old(self),
            old(self).contents().contains_key(id.untyped.index) && !old(self).contents()[id.untyped.index].1.ord_le(value) ==> {
                let p = old(self).position_of(id.untyped.index as int)->0;
                &&& final(self).entries() == swum(with_priority(old(self).entries(), p, value), p)
                &&& final(self).position_of(id.untyped.index as int) is Some
                &&& final(self).position_of(id.untyped.index as int)->0 <= p
            },
    {
        self.inner.decrease(id.untyped, value);
    }

    /// Raises the priority of `id` to `value` where `id` is present and `value`
    /// is strictly greater than its priority; otherwise changes nothing.
    pub fn increase(&mut self, id: Id<Arena>, value: T)
        requires
            old(self).wf(),
        ensures
            final(self).wf(),
            old(self).contents().contains_key(id.untyped.index) && !value.ord_le(old(self).contents()[id.untyped.index].1) ==> final(self).contents() == old(self).contents().insert(id.untyped.index, (old(self).contents()[id.untyped.index].0, value))
                && final(self).len_spec() == old(self).len_spec(),
            !(old(self).contents().contains_key(id.untyped.index) && !value.ord_le(old(self).contents()[id.untyped.index].1)) ==> *final(self) == *old(self),
            old(self).contents().contains_key(id.untyped.index) && !value.ord_le(old(self).contents()[id.untyped.index].1) ==> {
                let p = old(self).position_of(id.untyped.index as int)->0;
                &&& final(self).entries() == sunk(with_priority(old(self).entries(), p, value), p)
                &&& final(self).position_of(id.untyped.index as int) is Some
                &&& final(self).position_of(id.untyped.index as int)->0 >= p
            },
    {
        self.inner.increase(id.untyped, value);
    }

    /// The entries in heap-array order; only the first is guaranteed least.
    pub fn iter_sorted(&self) -> (r: Vec<(Id<Arena>, T)>)
        requires
            self.wf(),
        ensures
            r@.len() == self.len_spec(),
            forall|p: int|
                0 <= p < self.len_spec() ==> (#[trigger] r@[p]).0.untyped == self.heap_ids()[p]
                    && r@[p].1 == self.keys()[p],
    {
        let raw = self.inner.iter_sorted();
        let mut r: Vec<(Id<Arena>, T)> = Vec::new();
        let mut p: usize = 0;
        while p < raw.len()
            invariant
                raw@ == Seq::new(self.len_spec(), |k: int| (self.heap_ids()[k], self.keys()[k])),
                p <= raw@.len(),
                r@.len() == p,
                forall|k: int|
                    0 <= k < p ==> (#[trigger] r@[k]).0.untyped == self.heap_ids()[k] && r@[k].1
                        == self.keys()[k],
            decreases raw@.len() - p,
        {
            let (raw_id, value) = raw[p];
            r.push((Id::new(raw_id), value));
            p = p + 1;
        }
        r
    }

    /// Priority of `id`, where it is present.
    pub fn get(&self, id: Id<Arena>) -> (r: Option<T>)
        requires
            self.wf(),
        ensures
            r == if self.contents().contains_key(id.untyped.index) {
                Some(self.contents()[id.untyped.index].1)
            } else {
                None
            },
    {
        self.inner.get(id.untyped)
    }

    /// The priority slot of each dense index that has storage, in index order.
    pub fn values(&self) -> (r: Vec<Option<T>>)
        requires
            self.wf(),
        ensures
            forall|i: usize|
                i < r@.len() ==> #[trigger] r@[i as int] == if self.contents().contains_key(i) {
                    Some(self.contents()[i].1)
                } else {
                    None
                },
            forall|i: usize| i >= r@.len() ==> !#[trigger] self.contents().contains_key(i),
    {
        self.inner.values()
    }

    pub fn len(&self) -> (r: usize)
        ensures
            r == self.len_spec(),
    {
        self.inner.len()
    }

    pub fn is_empty(&self) -> (r: bool)
        ensures
            r == (self.len_spec() == 0),
    {
        self.inner.is_empty()
    }
}

impl<Arena, T: Priority> Default for IndexedMinQueue<Arena, T> {
    fn default() -> (r: Self)
        ensures
            r.wf(),
            r.len_spec() == 0,
            r.contents() == Map::<usize, (UntypedId, T)>::empty(),
    {
        IndexedMinQueue::new()
    }
}

impl<Arena, T: Priority> Clone for IndexedMinQueue<Arena, T> {
    fn clone(&self) -> (r: Self)
        ensures
            r.wf() == self.wf(),
            r.heap_ids() == self.heap_ids(),
            r.keys() == self.keys(),
            r.contents() == self.contents(),
            r.len_spec() == self.len_spec(),
    {
        IndexedMinQueue { inner: self.inner.clone(), arena: PhantomData }
    }
}

/// Unwraps the reversed priority of each entry of `m`.
pub open spec fn unreversed<T>(m: Map<usize, (UntypedId, Reverse<T>)>) -> Map<usize, (UntypedId, T)> {
    m.map_values(|e: (UntypedId, Reverse<T>)| (e.0, e.1.0))
}

/// An identifier-indexed max priority queue: a min-queue that holds each
/// priority under the reversed order, so that its root holds the greatest.
pub struct IndexedMaxQueue<Arena, T> {
    inner: IndexedMinQueue<Arena, Reverse<T>>,
}

impl<Arena, T: Priority> IndexedMaxQueue<Arena, T> {
    pub closed spec fn wf(&self) -> bool {
        self.inner.wf()
    }

    /// Each present dense index with the handle stored for it and its priority.
    pub closed spec fn contents(&self) -> Map<usize, (UntypedId, T)> {
        unreversed(self.inner.contents())
    }

    /// The identifiers in heap-array order.
    pub closed spec fn heap_ids(&self) -> Seq<UntypedId> {
        self.inner.heap_ids()
    }

    /// Priority at each heap position.
    pub closed spec fn keys(&self) -> Seq<T> {
        self.inner.keys().map_values(|v: Reverse<T>| v.0)
    }

    pub closed spec fn len_spec(&self) -> nat {
        self.inner.len_spec()
    }

    /// Identifier and reversed priority at each heap position: the array of the
    /// min-queue underneath.
    pub closed spec fn reversed_entries(&self) -> Seq<(UntypedId, Reverse<T>)> {
        self.inner.entries()
    }

    /// Heap position recorded for dense index `i`.
    pub closed spec fn position_of(&self, i: int) -> Option<int> {
        self.inner.position_of(i)
    }

    pub proof fn lemma_model(&self)
        requires
            self.wf(),
        ensures
            self.keys().len() == self.heap_ids().len(),
            self.heap_ids().len() == self.len_spec(),
            forall|p: int|
                0 <= p < self.len_spec() ==> self.contents().contains_key(
                    #[trigger] self.heap_ids()[p].index,
                ) && self.contents()[self.heap_ids()[p].index] == (self.heap_ids()[p], self.keys()[p]),
            self.len_spec() > 0 ==> forall|i: usize| #[trigger]
                self.contents().contains_key(i) ==> self.contents()[i].1.ord_le(self.keys()[0]),
            forall|p: int, q: int|
                0 <= p < self.len_spec() && 0 <= q < self.len_spec() && p != q ==> (#[trigger] self.heap_ids()[p]).index
                    != (#[trigger] self.heap_ids()[q]).index,
            self.contents().dom().finite(),
            self.contents().dom().len() == self.len_spec(),
            self.reversed_entries().len() == self.len_spec(),
            forall|p: int|
                0 <= p < self.len_spec() ==> #[trigger] self.reversed_entries()[p] == (
                    self.heap_ids()[p],
                    Reverse(self.keys()[p]),
                ),
            forall|p: int|
                0 <= p < self.len_spec() ==> self.position_of(#[trigger] self.heap_ids()[p].index as int)
                    == Some(p),
    {
        self.inner.lemma_model();
        assert(self.contents().dom() =~= self.inner.contents().dom());
        if self.len_spec() > 0 {
            assert forall|i: usize| #[trigger]
                self.contents().contains_key(i) implies self.contents()[i].1.ord_le(self.keys()[0]) by {
                assert(self.inner.contents().contains_key(i));
            }
        }
    }

    pub fn new() -> (r: Self)
        ensures
            r.wf(),
            r.len_spec() == 0,
            r.contents() == Map::<usize, (UntypedId, T)>::empty(),
    {
        let r = IndexedMaxQueue { inner: IndexedMinQueue::new() };
        assert(r.contents() =~= Map::<usize, (UntypedId, T)>::empty());
        r
    }

    pub fn clear(&mut self)
        ensures
            final(self).wf(),
            final(self).len_spec() == 0,
            final(self).contents() == Map::<usize, (UntypedId, T)>::empty(),
    {
        self.inner.clear();
        assert(self.contents() =~= Map::<usize, (UntypedId, T)>::empty());
    }

    /// Sets the priority of `id`: a present identifier takes the new priority, a
    /// new one enters the queue.
    pub fn insert(&mut self, id: Id<Arena>, value: T)
        requires
            old(self).wf(),
            old(self).contents().contains_key(id.untyped.index) || old(self).len_spec() < CAPACITY,
        ensures
            final(self).wf(),
            final(self).contents() == inserted(old(self).contents(), id.untyped, value),
            final(self).len_spec() == if old(self).contents().contains_key(id.untyped.index) {
                old(self).len_spec()
            } else {
                old(self).len_spec() + 1
            },
            final(self).reversed_entries() == if old(self).contents().contains_key(id.untyped.index) {
                let p = old(self).position_of(id.untyped.index as int)->0;
                swum(sunk(with_priority(old(self).reversed_entries(), p, Reverse(value)), p), p)
            } else {
                swum(old(self).reversed_entries().push((id.untyped, Reverse(value))), old(self).len_spec() as int)
            },
    {
        self.inner.insert(id, Reverse(value));
        assert(self.contents() =~= inserted(old(self).contents(), id.untyped, value));
    }

    /// Removes `id` and returns its identifier and priority, or `None`, with the
    /// queue unchanged, where it is absent.
    pub fn remove(&mut self, id: Id<Arena>) -> (r: Option<(Id<Arena>, T)>)
        requires
            old(self).wf(),
        ensures
            final(self).wf(),
            old(self).contents().contains_key(id.untyped.index) ==> untyped_entry(r) == Some(
                old(self).contents()[id.untyped.index],
            ) && final(self).contents() == old(self).contents().remove(id.untyped.index)
                && final(self).len_spec() == old(self).len_spec() - 1,
            !old(self).contents().contains_key(id.untyped.index) ==> r.is_none() && *final(self) == *old(self),
            old(self).contents().contains_key(id.untyped.index) ==> final(self).reversed_entries() == removed_at(
                old(self).reversed_entries(),
                old(self).position_of(id.untyped.index as int)->0,
            ),
    {
        let r = match self.inner.remove(id) {
            Some((raw, value)) => Some((raw, value.0)),
            None => None,
        };
        assert(old(self).contents().contains_key(id.untyped.index) ==> self.contents()
            =~= old(self).contents().remove(id.untyped.index));
        r
    }

    /// Greatest priority in the queue.
    pub fn peek(&self) -> (r: Option<T>)
        requires
            self.wf(),
        ensures
            r == if self.len_spec() > 0 {
                Some(self.keys()[0])
            } else {
                None
            },
            r matches Some(v) ==> forall|i: usize| #[trigger]
                self.contents().contains_key(i) ==> self.contents()[i].1.ord_le(v),
    {
        proof {
            self.lemma_model();
        }
        self.get_position(0)
    }

    /// Identifier and priority at the root.
    pub fn peek_id(&self) -> (r: Option<(Id<Arena>, T)>)
        requires
            self.wf(),
        ensures
            untyped_entry(r) == if self.len_spec() > 0 {
                Some((self.heap_ids()[0], self.keys()[0]))
            } else {
                None
            },
            r matches Some(e) ==> forall|i: usize| #[trigger]
                self.contents().contains_key(i) ==> self.contents()[i].1.ord_le(e.1),
    {
        proof {
            self.lemma_model();
        }
        self.get_position_with_id(0)
    }

    /// Priority at heap position `position`.
    pub fn get_position(&self, position: usize) -> (r: Option<T>)
        requires
            self.wf(),
        ensures
            r == if position < self.len_spec() {
                Some(self.keys()[position as int])
            } else {
                None
            },
    {
        proof {
            self.lemma_model();
        }
        match self.inner.get_position(position) {
            Some(v) => Some(v.0),
            None => None,
        }
    }

    /// Identifier and priority at heap position `position`.
    pub fn get_position_with_id(&self, position: usize) -> (r: Option<(Id<Arena>, T)>)
        requires
            self.wf(),
        ensures
            untyped_entry(r) == if position < self.len_spec() {
                Some((self.heap_ids()[position as int], self.keys()[position as int]))
            } else {
                None
            },
    {
        proof {
            self.lemma_model();
        }
        match self.inner.get_position_with_id(position) {
            Some((id, v)) => Some((id, v.0)),
            None => None,
        }
    }

    /// Removes and returns the entry with the greatest priority.
    pub fn pop(&mut self) -> (r: Option<(Id<Arena>, T)>)
        requires
            old(self).wf(),
        ensures
            final(self).wf(),
            old(self).len_spec() > 0 ==> untyped_entry(r) == Some(
                (old(self).heap_ids()[0], old(self).keys()[0]),
            ) && final(self).contents() == old(self).contents().remove(old(self).heap_ids()[0].index)
                && final(self).len_spec() == old(self).len_spec() - 1,
            r matches Some(e) ==> forall|i: usize| #[trigger]
                old(self).contents().contains_key(i) ==> old(self).contents()[i].1.ord_le(e.1),
            old(self).len_spec() == 0 ==> r.is_none() && *final(self) == *old(self),
            old(self).len_spec() > 0 ==> final(self).reversed_entries() == removed_at(old(self).reversed_entries(), 0),
    {
        proof {
            self.lemma_model();
            self.inner.lemma_model();
        }
        let r = match self.inner.pop() {
            Some((id, v)) => Some((id, v.0)),
            None => None,
        };
        assert(old(self).len_spec() > 0 ==> self.contents() =~= old(self).contents().remove(
            old(self).heap_ids()[0].index,
        ));
        r
    }

    /// Raises the priority of `id` to `value` where `id` is present and `value`
    /// is strictly greater than its priority; otherwise changes nothing.
    pub fn increase(&mut self, id: Id<Arena>, value: T)
        requires
            old(self).wf(),
        ensures
            final(self).wf(),
            old(self).contents().contains_key(id.untyped.index) && !value.ord_le(old(self).contents()[id.untyped.index].1) ==> final(self).contents() == old(self).contents().insert(id.untyped.index, (old(self).contents()[id.untyped.index].0, value))
                && final(self).len_spec() == old(self).len_spec(),
            !(old(self).contents().contains_key(id.untyped.index) && !value.ord_le(old(self).contents()[id.untyped.index].1)) ==> *final(self) == *old(self),
            old(self).contents().contains_key(id.untyped.index) && !value.ord_le(old(self).contents()[id.untyped.index].1) ==> {
                let p = old(self).position_of(id.untyped.index as int)->0;
                &&& final(self).reversed_entries() == swum(with_priority(old(self).reversed_entries(), p, Reverse(value)), p)
                &&& final(self).position_of(id.untyped.index as int) is Some
                &&& final(self).position_of(id.untyped.index as int)->0 <= p
            },
    {
        self.inner.decrease(id, Reverse(value));
        assert(old(self).contents().contains_key(id.untyped.index) && !value.ord_le(old(self).contents()[id.untyped.index].1) ==> self.contents() =~= old(self).contents().insert(
            id.untyped.index,
            (old(self).contents()[id.untyped.index].0, value),
        ));
    }

    /// Lowers the priority of `id` to `value` where `id` is present and `value`
    /// is strictly less than its priority; otherwise changes nothing.
    pub fn decrease(&mut self, id: Id<Arena>, value: T)
        requires
            old(self).wf(),
        ensures
            final(self).wf(),
            old(self).contents().contains_key(id.untyped.index) && !old(self).contents()[id.untyped.index].1.ord_le(value) ==> final(self).contents() == old(self).contents().insert(id.untyped.index, (old(self).contents()[id.untyped.index].0, value))
                && final(self).len_spec() == old(self).len_spec(),
            !(old(self).contents().contains_key(id.untyped.index) && !old(self).contents()[id.untyped.index].1.ord_le(value)) ==> *final(self) == *old(self),
            old(self).contents().contains_key(id.untyped.index) && !old(self).contents()[id.untyped.index].1.ord_le(value) ==> {
                let p = old(self).position_of(id.untyped.index as int)->0;
                &&& final(self).reversed_entries() == sunk(with_priority(old(self).reversed_entries(), p, Reverse(value)), p)
                &&& final(self).position_of(id.untyped.index as int) is Some
                &&& final(self).position_of(id.untyped.index as int)->0 >= p
            },
    {
        self.inner.increase(id, Reverse(value));
        assert(old(self).contents().contains_key(id.untyped.index) && !old(self).contents()[id.untyped.index].1.ord_le(value) ==> self.contents() =~= old(self).contents().insert(
            id.untyped.index,
            (old(self).contents()[id.untyped.index].0, value),
        ));
    }

    /// The entries in heap-array order; only the first is guaranteed greatest.
    pub fn iter_sorted(&self) -> (r: Vec<(Id<Arena>, T)>)
        requires
            self.wf(),
        ensures
            r@.len() == self.len_spec(),
            forall|p: int|
                0 <= p < self.len_spec() ==> (#[trigger] r@[p]).0.untyped == self.heap_ids()[p]
                    && r@[p].1 == self.keys()[p],
    {
        proof {
            self.lemma_model();
        }
        let raw = self.inner.iter_sorted();
        let mut r: Vec<(Id<Arena>, T)> = Vec::new();
        let mut p: usize = 0;
        while p < raw.len()
            invariant
                raw@.len() == self.len_spec(),
                self.keys().len() == self.len_spec(),
                forall|k: int|
                    0 <= k < self.len_spec() ==> (#[trigger] raw@[k]).0.untyped == self.heap_ids()[k]
                        && raw@[k].1 == self.inner.keys()[k],
                p <= raw@.len(),
                r@.len() == p,
                forall|k: int|
                    0 <= k < p ==> (#[trigger] r@[k]).0.untyped == self.heap_ids()[k] && r@[k].1
                        == self.keys()[k],
            decreases raw@.len() - p,
        {
            let (id, value) = raw[p];
            r.push((id, value.0));
            p = p + 1;
        }
        r
    }

    /// Priority of `id`, where it is present.
    pub fn get(&self, id: Id<Arena>) -> (r: Option<T>)
        requires
            self.wf(),
        ensures
            r == if self.contents().contains_key(id.untyped.index) {
                Some(self.contents()[id.untyped.index].1)
            } else {
                None
            },
    {
        match self.inner.get(id) {
            Some(v) => Some(v.0),
            None => None,
        }
    }

    /// The priority slot of each dense index that has storage, in index order.
    pub fn values(&self) -> (r: Vec<Option<T>>)
        requires
            self.wf(),
        ensures
            forall|i: usize|
                i < r@.len() ==> #[trigger] r@[i as int] == if self.contents().contains_key(i) {
                    Some(self.contents()[i].1)
                } else {
                    None
                },
            forall|i: usize| i >= r@.len() ==> !#[trigger] self.contents().contains_key(i),
    {
        let raw = self.inner.values();
        let mut r: Vec<Option<T>> = Vec::new();
        let mut i: usize = 0;
        while i < raw.len()
            invariant
                i <= raw@.len(),
                r@.len() == i,
                forall|k: usize|
                    k < raw@.len() ==> #[trigger] raw@[k as int] == if self.inner.contents().contains_key(k) {
                        Some(self.inner.contents()[k].1)
                    } else {
                        None
                    },
                forall|k: usize|
                    k < i ==> #[trigger] r@[k as int] == if self.contents().contains_key(k) {
                        Some(self.contents()[k].1)
                    } else {
                        None
                    },
            decreases raw@.len() - i,
        {
            let v = match raw[i] {
                Some(rv) => Some(rv.0),
                None => None,
            };
            r.push(v);
            i = i + 1;
        }
        assert forall|k: usize| k >= r@.len() implies !#[trigger] self.contents().contains_key(k) by {
            assert(!self.inner.contents().contains_key(k));
        }
        r
    }

    pub fn len(&self) -> (r: usize)
        ensures
            r == self.len_spec(),
    {
        self.inner.len()
    }

    pub fn is_empty(&self) -> (r: bool)
        ensures
            r == (self.len_spec() == 0),
    {
        self.len() == 0
    }
}

impl<Arena, T: Priority> Default for IndexedMaxQueue<Arena, T> {
    fn default() -> (r: Self)
        ensures
            r.wf(),
            r.len_spec() == 0,
            r.contents() == Map::<usize, (UntypedId, T)>::empty(),
    {
        IndexedMaxQueue::new()
    }
}

impl<Arena, T: Priority> Clone for IndexedMaxQueue<Arena, T> {
    fn clone(&self) -> (r: Self)
        ensures
            r.wf() == self.wf(),
            r.heap_ids() == self.heap_ids(),
            r.keys() == self.keys(),
            r.contents() == self.contents(),
            r.len_spec() == self.len_spec(),
    {
        IndexedMaxQueue { inner: self.inner.clone() }
    }
}

} // verus!
