//! Priorities: values under a total order that the heap compares, and the
//! adapter that reverses that order.

use vstd::prelude::*;

verus! {

/// A copyable value under a total order `ord_le`, with an executable strict
/// comparison that agrees with it.
pub trait Priority: Copy + Sized {
    spec fn ord_le(self, other: Self) -> bool;

    /// `ord_le` is reflexive, total and transitive.
    proof fn lemma_ord_le(a: Self, b: Self, c: Self)
        ensures
            a.ord_le(a),
            a.ord_le(b) || b.ord_le(a),
            a.ord_le(b) && b.ord_le(c) ==> a.ord_le(c),
    ;

    /// Whether `self` comes strictly before `other`.
    fn less(&self, other: &Self) -> (r: bool)
        ensures
            r == !other.ord_le(*self),
    ;
}

/// The laws of a total order, for every value of `T`.
pub open spec fn is_total_order<T: Priority>() -> bool {
    &&& forall|a: T| #[trigger] a.ord_le(a)
    &&& forall|a: T, b: T| #[trigger] a.ord_le(b) || b.ord_le(a)
    &&& forall|a: T, b: T, c: T| #[trigger] a.ord_le(b) && #[trigger] b.ord_le(c) ==> a.ord_le(c)
}

pub proof fn lemma_total_order<T: Priority>()
    ensures
        is_total_order::<T>(),
{
    assert forall|a: T| #[trigger] a.ord_le(a) by {
        T::lemma_ord_le(a, a, a);
    }
    assert forall|a: T, b: T| #[trigger] a.ord_le(b) || b.ord_le(a) by {
        T::lemma_ord_le(a, b, b);
    }
    assert forall|a: T, b: T, c: T| #[trigger] a.ord_le(b) && #[trigger] b.ord_le(c) implies a.ord_le(
        c,
    ) by {
        T::lemma_ord_le(a, b, c);
    }
}

/// A priority under the reversed order: the greatest comes first.
#[derive(Debug, PartialEq, Eq, Structural)]
pub struct Reverse<T>(pub T);

impl<T: Copy> Clone for Reverse<T> {
    fn clone(&self) -> (r: Self)
        ensures
            r == *self,
    {
        *self
    }
}

impl<T: Copy> Copy for Reverse<T> {
}

impl<T: Priority> Priority for Reverse<T> {
    open spec fn ord_le(self, other: Self) -> bool {
        other.0.ord_le(self.0)
    }

    proof fn lemma_ord_le(a: Self, b: Self, c: Self) {
        T::lemma_ord_le(c.0, b.0, a.0);
        T::lemma_ord_le(b.0, a.0, a.0);
        T::lemma_ord_le(a.0, a.0, a.0);
    }

    fn less(&self, other: &Self) -> (r: bool) {
        other.0.less(&self.0)
    }
}

impl Priority for u8 {
    open spec fn ord_le(self, other: Self) -> bool {
        self <= other
    }

    proof fn lemma_ord_le(a: Self, b: Self, c: Self) {
    }

    fn less(&self, other: &Self) -> (r: bool) {
        *self < *other
    }
}

impl Priority for u16 {
    open spec fn ord_le(self, other: Self) -> bool {
        self <= other
    }

    proof fn lemma_ord_le(a: Self, b: Self, c: Self) {
    }

    fn less(&self, other: &Self) -> (r: bool) {
        *self < *other
    }
}

impl Priority for u32 {
    open spec fn ord_le(self, other: Self) -> bool {
        self <= other
    }

    proof fn lemma_ord_le(a: Self, b: Self, c: Self) {
    }

    fn less(&self, other: &Self) -> (r: bool) {
        *self < *other
    }
}

impl Priority for u64 {
    open spec fn ord_le(self, other: Self) -> bool {
        self <= other
    }

    proof fn lemma_ord_le(a: Self, b: Self, c: Self) {
    }

    fn less(&self, other: &Self) -> (r: bool) {
        *self < *other
    }
}

impl Priority for u128 {
    open spec fn ord_le(self, other: Self) -> bool {
        self <= other
    }

    proof fn lemma_ord_le(a: Self, b: Self, c: Self) {
    }

    fn less(&self, other: &Self) -> (r: bool) {
        *self < *other
    }
}

impl Priority for usize {
    open spec fn ord_le(self, other: Self) -> bool {
        self <= other
    }

    proof fn lemma_ord_le(a: Self, b: Self, c: Self) {
    }

    fn less(&self, other: &Self) -> (r: bool) {
        *self < *other
    }
}

impl Priority for i8 {
    open spec fn ord_le(self, other: Self) -> bool {
        self <= other
    }

    proof fn lemma_ord_le(a: Self, b: Self, c: Self) {
    }

    fn less(&self, other: &Self) -> (r: bool) {
        *self < *other
    }
}

impl Priority for i16 {
    open spec fn ord_le(self, other: Self) -> bool {
        self <= other
    }

    proof fn lemma_ord_le(a: Self, b: Self, c: Self) {
    }

    fn less(&self, other: &Self) -> (r: bool) {
        *self < *other
    }
}

impl Priority for i32 {
    open spec fn ord_le(self, other: Self) -> bool {
        self <= other
    }

    proof fn lemma_ord_le(a: Self, b: Self, c: Self) {
    }

    fn less(&self, other: &Self) -> (r: bool) {
        *self < *other
    }
}

impl Priority for i64 {
    open spec fn ord_le(self, other: Self) -> bool {
        self <= other
    }

    proof fn lemma_ord_le(a: Self, b: Self, c: Self) {
    }

    fn less(&self, other: &Self) -> (r: bool) {
        *self < *other
    }
}

impl Priority for i128 {
    open spec fn ord_le(self, other: Self) -> bool {
        self <= other
    }

    proof fn lemma_ord_le(a: Self, b: Self, c: Self) {
    }

    fn less(&self, other: &Self) -> (r: bool) {
        *self < *other
    }
}

impl Priority for isize {
    open spec fn ord_le(self, other: Self) -> bool {
        self <= other
    }

    proof fn lemma_ord_le(a: Self, b: Self, c: Self) {
    }

    fn less(&self, other: &Self) -> (r: bool) {
        *self < *other
    }
}

impl Priority for char {
    open spec fn ord_le(self, other: Self) -> bool {
        self <= other
    }

    proof fn lemma_ord_le(a: Self, b: Self, c: Self) {
    }

    fn less(&self, other: &Self) -> (r: bool) {
        *self < *other
    }
}

} // verus!
