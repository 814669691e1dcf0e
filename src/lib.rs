//! Identifier-indexed priority queues built on a D-ary heap.
//!
//! The untyped core keeps a heap-ordered array of identifiers together with the
//! maps from identifier to position and from identifier to priority, and restores order with
//! `sink` and `swim`. The typed facades bind it to one identifier domain, and the
//! max-queue reuses it through the order-reversing `Reverse` adapter.

pub mod id;
pub mod order;
pub mod priority;
pub mod untyped;
pub mod typed;

pub use id::{Id, UntypedId};
pub use typed::{IndexedMaxQueue, IndexedMinQueue};
pub use untyped::UntypedIndexedMinQueue;
pub use order::{get_children, get_parent};
pub use priority::{Priority, Reverse};
