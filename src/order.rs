//! Position arithmetic of a D-ary heap laid out in an array, and the heap-order
//! predicates on the sequence of priorities by position.

use crate::priority::{lemma_total_order, Priority};
use vstd::prelude::*;

verus! {

/// Branching factor of the heap.
pub const ARITY: usize = 8;

/// Parent position of position `c > 0` in a heap of branching factor `ARITY`.
pub open spec fn parent(c: int) -> int {
    (c - 1) / (ARITY as int)
}

/// The parent of `index`, or `None` for the root.
pub fn get_parent(index: usize, arity: usize) -> (r: Option<usize>)
    requires
        arity > 0,
    ensures
        index == 0 ==> r.is_none(),
        index > 0 ==> r == Some(((index - 1) / arity as int) as usize),
{
    if index == 0 {
        None
    } else {
        Some((index - 1) / arity)
    }
}

/// The range of child positions of `index` in an array of length `len`:
/// `[index * arity + 1, min(index * arity + arity + 1, len))`.
pub fn get_children(index: usize, len: usize, arity: usize) -> (r: std::ops::Range<usize>)
    requires
        index * arity + arity + 1 <= usize::MAX,
    ensures
        r.start == index * arity + 1,
        r.end == if index * arity + arity + 1 <= len {
            index * arity + arity + 1
        } else {
            len as int
        },
{
    let i = index * arity;
    let min = i + 1;
    let max = if i + arity + 1 <= len {
        i + arity + 1
    } else {
        len
    };
    min..max
}

/// End of the child range of position `i` in a heap of `n` entries.
pub open spec fn child_end(i: int, n: int) -> int {
    if i * ARITY + ARITY + 1 <= n {
        i * ARITY + ARITY + 1
    } else {
        n
    }
}

/// The first position in `[lo, hi)` whose priority is least: a later position
/// replaces the running minimum only when strictly less.
pub open spec fn first_min<K, T: Priority>(s: Seq<(K, T)>, lo: int, hi: int) -> int
    decreases hi - lo,
{
    if hi - lo <= 1 {
        lo
    } else {
        let m = first_min(s, lo, hi - 1);
        if !s[m].1.ord_le(s[hi - 1].1) {
            hi - 1
        } else {
            m
        }
    }
}

/// The entries after `sink` from position `i`: while `i` has a child, step to
/// the first least child, exchanging the two, where that child is strictly less.
pub open spec fn sunk<K, T: Priority>(s: Seq<(K, T)>, i: int) -> Seq<(K, T)>
    decreases s.len() - i,
{
    if 0 <= i && i * ARITY + 1 < s.len() {
        let m = first_min(s, i * ARITY + 1, child_end(i, s.len() as int));
        if i < m < s.len() && !s[i].1.ord_le(s[m].1) {
            sunk(swapped(s, i, m), m)
        } else {
            s
        }
    } else {
        s
    }
}

/// The entries after `swim` from position `i`: while `i` has a parent that is
/// strictly greater, exchange the two and step to the parent.
pub open spec fn swum<K, T: Priority>(s: Seq<(K, T)>, i: int) -> Seq<(K, T)>
    decreases i,
{
    if 0 < i < s.len() && 0 <= parent(i) < i {
        if !s[parent(i)].1.ord_le(s[i].1) {
            swum(swapped(s, i, parent(i)), parent(i))
        } else {
            s
        }
    } else {
        s
    }
}

/// Every child's priority is at least its parent's.
pub open spec fn heap_ordered<T: Priority>(s: Seq<T>) -> bool {
    forall|c: int| 0 < c < s.len() ==> (#[trigger] s[parent(c)]).ord_le(s[c])
}

/// Order holds for every pair but those that involve position `i`, and the parent
/// of `i` is no greater than the children of `i`.
pub open spec fn ordered_except_at<T: Priority>(s: Seq<T>, i: int) -> bool {
    &&& forall|c: int|
        0 < c < s.len() && c != i && parent(c) != i ==> (#[trigger] s[parent(c)]).ord_le(s[c])
    &&& i > 0 ==> forall|c: int| 0 < c < s.len() && parent(c) == i ==> s[parent(i)].ord_le(#[trigger] s[c])
}

/// Order holds for every pair but the one of `i` and its parent, and the parent
/// of `i` is no greater than the children of `i`.
pub open spec fn ordered_except_up<T: Priority>(s: Seq<T>, i: int) -> bool {
    &&& forall|c: int| 0 < c < s.len() && c != i ==> (#[trigger] s[parent(c)]).ord_le(s[c])
    &&& i > 0 ==> forall|c: int| 0 < c < s.len() && parent(c) == i ==> s[parent(i)].ord_le(#[trigger] s[c])
}

/// The sequence with the entries at `a` and `b` exchanged.
pub open spec fn swapped<T>(s: Seq<T>, a: int, b: int) -> Seq<T> {
    s.update(a, s[b]).update(b, s[a])
}

/// A position's parent lies before it, and the children of `p` are exactly the
/// positions `p * ARITY + 1 ..= p * ARITY + ARITY`.
pub proof fn lemma_parent(c: int, p: int)
    requires
        c > 0,
        p >= 0,
    ensures
        0 <= parent(c) < c,
        parent(c) == p <==> p * ARITY + 1 <= c <= p * ARITY + ARITY,
{
}

/// In an ordered heap the root holds the least priority.
pub proof fn lemma_root_is_min<T: Priority>(s: Seq<T>, p: int)
    requires
        heap_ordered(s),
        0 <= p < s.len(),
    ensures
        s[0].ord_le(s[p]),
    decreases p,
{
    lemma_total_order::<T>();
    if p > 0 {
        lemma_parent(p, 0);
        lemma_root_is_min(s, parent(p));
    }
}

/// One step of `swim`: exchanging `j` with its greater parent moves the single
/// fault one level up.
pub proof fn lemma_swim_step<T: Priority>(s: Seq<T>, j: int)
    requires
        0 < j < s.len(),
        ordered_except_up(s, j),
        !s[parent(j)].ord_le(s[j]),
    ensures
        ordered_except_up(swapped(s, j, parent(j)), parent(j)),
{
    lemma_total_order::<T>();
    let p = parent(j);
    lemma_parent(j, 0);
    let t = swapped(s, j, p);
    assert forall|c: int| 0 < c < t.len() && c != p implies (#[trigger] t[parent(c)]).ord_le(t[c]) by {
        lemma_parent(c, 0);
        if parent(c) == p && c != j {
            assert(s[p].ord_le(s[c]));
        }
    }
    if p > 0 {
        lemma_parent(p, 0);
        assert forall|c: int| 0 < c < t.len() && parent(c) == p implies t[parent(p)].ord_le(
            #[trigger] t[c],
        ) by {
            lemma_parent(c, 0);
            assert(s[parent(p)].ord_le(s[p]));
            if c != j {
                assert(s[p].ord_le(s[c]));
            }
        }
    }
}

/// `swim` may stop where `j` is the root or no less than its parent.
pub proof fn lemma_swim_done<T: Priority>(s: Seq<T>, j: int)
    requires
        0 <= j < s.len(),
        ordered_except_up(s, j),
        j == 0 || s[parent(j)].ord_le(s[j]),
    ensures
        heap_ordered(s),
{
}

/// One step of `sink`: exchanging `j` with its least child `m`, where that child
/// is less than `j`, moves the fault one level down, and leaves `m` no less than
/// its new parent and `j` no less than its own parent.
pub proof fn lemma_sink_step<T: Priority>(s: Seq<T>, j: int, m: int)
    requires
        0 <= j < m < s.len(),
        parent(m) == j,
        ordered_except_at(s, j),
        forall|c: int| 0 < c < s.len() && parent(c) == j ==> s[m].ord_le(#[trigger] s[c]),
        !s[j].ord_le(s[m]),
    ensures
        ordered_except_at(swapped(s, j, m), m),
        swapped(s, j, m)[j].ord_le(swapped(s, j, m)[m]),
        j > 0 ==> swapped(s, j, m)[parent(j)].ord_le(swapped(s, j, m)[j]),
{
    lemma_total_order::<T>();
    let t = swapped(s, j, m);
    lemma_parent(m, j);
    if j > 0 {
        lemma_parent(j, 0);
    }
    assert forall|c: int| 0 < c < t.len() && c != m && parent(c) != m implies (#[trigger] t[parent(
        c,
    )]).ord_le(t[c]) by {
        lemma_parent(c, 0);
    }
    assert forall|c: int| 0 < c < t.len() && parent(c) == m implies t[parent(m)].ord_le(
        #[trigger] t[c],
    ) by {
        lemma_parent(c, 0);
        lemma_parent(c, m);
        assert(s[parent(c)].ord_le(s[c]));
    }
}

/// `sink` may stop where no child of `j` is less than `j`; if it never moved,
/// the parent of the start is still unchecked.
pub proof fn lemma_sink_done<T: Priority>(s: Seq<T>, j: int)
    requires
        0 <= j < s.len(),
        ordered_except_at(s, j),
        forall|c: int| 0 < c < s.len() && parent(c) == j ==> s[j].ord_le(#[trigger] s[c]),
    ensures
        ordered_except_up(s, j),
        (j == 0 || s[parent(j)].ord_le(s[j])) ==> heap_ordered(s),
{
}

/// In an ordered heap every position but `j` is in order with its parent, and
/// the parent of `j` is no greater than the children of `j`.
pub proof fn lemma_ordered_except_up<T: Priority>(s: Seq<T>, j: int)
    requires
        0 <= j < s.len(),
        heap_ordered(s),
    ensures
        ordered_except_up(s, j),
{
    lemma_total_order::<T>();
    if j > 0 {
        lemma_parent(j, 0);
        assert forall|c: int| 0 < c < s.len() && parent(c) == j implies s[parent(j)].ord_le(
            #[trigger] s[c],
        ) by {
            assert(s[parent(j)].ord_le(s[j]));
            assert(s[parent(c)].ord_le(s[c]));
        }
    }
}

/// Writing any priority at `p` of an ordered heap leaves at most the pairs of `p`
/// out of order.
pub proof fn lemma_update_except_at<T: Priority>(s: Seq<T>, p: int, v: T)
    requires
        0 <= p < s.len(),
        heap_ordered(s),
    ensures
        ordered_except_at(s.update(p, v), p),
{
    lemma_total_order::<T>();
    let t = s.update(p, v);
    assert forall|c: int| 0 < c < t.len() && c != p && parent(c) != p implies (#[trigger] t[parent(
        c,
    )]).ord_le(t[c]) by {
        assert(s[parent(c)].ord_le(s[c]));
    }
    if p > 0 {
        lemma_parent(p, 0);
        assert forall|c: int| 0 < c < t.len() && parent(c) == p implies t[parent(p)].ord_le(
            #[trigger] t[c],
        ) by {
            assert(s[parent(p)].ord_le(s[p]));
            assert(s[parent(c)].ord_le(s[c]));
        }
    }
}

/// Lowering the priority at `p` of an ordered heap leaves only `p` and its
/// parent possibly out of order.
pub proof fn lemma_decrease_except_up<T: Priority>(s: Seq<T>, p: int, v: T)
    requires
        0 <= p < s.len(),
        heap_ordered(s),
        v.ord_le(s[p]),
    ensures
        ordered_except_up(s.update(p, v), p),
{
    lemma_total_order::<T>();
    lemma_update_except_at(s, p, v);
    let t = s.update(p, v);
    assert forall|c: int| 0 < c < t.len() && c != p implies (#[trigger] t[parent(c)]).ord_le(t[c]) by {
        assert(s[parent(c)].ord_le(s[c]));
    }
}

/// Appending to an ordered heap leaves only the new last position and its parent
/// possibly out of order.
pub proof fn lemma_push_except_up<T: Priority>(s: Seq<T>, v: T)
    requires
        heap_ordered(s),
    ensures
        ordered_except_up(s.push(v), s.len() as int),
{
    let t = s.push(v);
    let n = s.len() as int;
    assert forall|c: int| 0 < c < t.len() && c != n implies (#[trigger] t[parent(c)]).ord_le(t[c]) by {
        lemma_parent(c, 0);
        assert(s[parent(c)].ord_le(s[c]));
    }
    if n > 0 {
        assert forall|c: int| 0 < c < t.len() && parent(c) == n implies t[parent(n)].ord_le(
            #[trigger] t[c],
        ) by {
            lemma_parent(c, n);
        }
    }
}

/// Moving the last entry of an ordered heap into position `p` and dropping the
/// last position leaves at most the pairs of `p` out of order.
pub proof fn lemma_remove_except_at<T: Priority>(s: Seq<T>, p: int)
    requires
        0 <= p < s.len() - 1,
        heap_ordered(s),
    ensures
        ordered_except_at(swapped(s, p, s.len() - 1).drop_last(), p),
{
    let last = s.len() - 1;
    lemma_update_except_at(s, p, s[last]);
    let t = swapped(s, p, last).drop_last();
    let u = s.update(p, s[last]);
    assert forall|c: int| 0 < c < t.len() && c != p && parent(c) != p implies (#[trigger] t[parent(
        c,
    )]).ord_le(t[c]) by {
        lemma_parent(c, 0);
        assert(t[c] == u[c]);
        assert(t[parent(c)] == u[parent(c)]);
    }
    if p > 0 {
        lemma_parent(p, 0);
        assert forall|c: int| 0 < c < t.len() && parent(c) == p implies t[parent(p)].ord_le(
            #[trigger] t[c],
        ) by {
            lemma_parent(c, 0);
            assert(t[c] == u[c]);
        }
    }
}

} // verus!
