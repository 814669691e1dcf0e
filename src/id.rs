//! Identifiers: an untyped handle (a dense index and a generation), and a typed
//! handle that ties it to one identifier domain.

use std::marker::PhantomData;
use vstd::prelude::*;

verus! {

/// A handle minted by an arena: a dense index plus the generation of that slot.
/// The queues key their storage by `index` alone and store the handle as given.
#[derive(Clone, Copy, Debug, PartialEq, Eq, Hash, Structural)]
pub struct UntypedId {
    pub index: usize,
    pub generation: u32,
}

impl UntypedId {
    pub fn new(index: usize, generation: u32) -> (r: UntypedId)
        ensures
            r.index == index,
            r.generation == generation,
    {
        UntypedId { index, generation }
    }

    /// The handle of the first generation of slot `index`.
    pub fn first(index: usize) -> (r: UntypedId)
        ensures
            r.index == index,
            r.generation == 0,
    {
        UntypedId { index, generation: 0 }
    }
}

/// An untyped handle bound, at compile time, to the identifier domain `Arena`.
pub struct Id<Arena> {
    pub untyped: UntypedId,
    pub arena: PhantomData<Arena>,
}

impl<Arena> Id<Arena> {
    pub fn new(untyped: UntypedId) -> (r: Id<Arena>)
        ensures
            r.untyped == untyped,
    {
        Id { untyped, arena: PhantomData }
    }

    pub fn untyped(&self) -> (r: UntypedId)
        ensures
            r == self.untyped,
    {
        self.untyped
    }
}

impl<Arena> Clone for Id<Arena> {
    fn clone(&self) -> (r: Self)
        ensures
            r.untyped == self.untyped,
    {
        Id { untyped: self.untyped, arena: PhantomData }
    }
}

impl<Arena> Copy for Id<Arena> {
}

} // verus!
