//! Storage kinds a region can be laid over.
//!
//! One set of layout rules serves every storage kind: a borrowed slice
//! shares memory it does not own, while an owned vector keeps its
//! allocation alive for as long as the region lives. Both expose the
//! same small capability: their elements as one flat slice.

use vstd::prelude::*;

verus! {

/// A linear buffer of elements that a region can be laid over.
pub trait Container {
    type Item;

    /// The stored elements, as a mathematical sequence.
    spec fn cview(&self) -> Seq<Self::Item>;

    /// The stored elements, as one flat slice.
    fn as_items(&self) -> (r: &[Self::Item])
        ensures
            r@ == self.cview(),
    ;

    /// The number of stored elements.
    fn length(&self) -> (n: usize)
        ensures
            n == self.cview().len(),
    ;
}

/// A shared borrow: does not own the elements, may be freely duplicated.
impl<'s, T> Container for &'s [T] {
    type Item = T;

    open spec fn cview(&self) -> Seq<T> {
        self@
    }

    fn as_items(&self) -> (r: &[T]) {
        self
    }

    fn length(&self) -> (n: usize) {
        self.len()
    }
}

/// An owned growable buffer: the region keeps the allocation alive.
impl<T> Container for Vec<T> {
    type Item = T;

    open spec fn cview(&self) -> Seq<T> {
        self@
    }

    fn as_items(&self) -> (r: &[T]) {
        self.as_slice()
    }

    fn length(&self) -> (n: usize) {
        self.len()
    }
}

/// An owned fixed-size buffer: like the growable kind, the region keeps
/// the allocation alive.
impl<T> Container for Box<[T]> {
    type Item = T;

    open spec fn cview(&self) -> Seq<T> {
        self@
    }

    fn as_items(&self) -> (r: &[T]) {
        self
    }

    fn length(&self) -> (n: usize) {
        self.len()
    }
}

/// A container whose elements the holder may overwrite: exclusive
/// access to owned storage.
pub trait ContainerMut: Container {
    /// Overwrites element `i`, leaving every other element in place.
    fn set_item(&mut self, i: usize, v: Self::Item)
        requires
            i < old(self).cview().len(),
        ensures
            final(self).cview() == old(self).cview().update(i as int, v),
    ;
}

impl<T> ContainerMut for Vec<T> {
    fn set_item(&mut self, i: usize, v: T) {
        self.set(i, v);
    }
}

} // verus!
