//! Two-dimensional views over flat, linear memory.
//!
//! A region is a rectangle of elements laid out in a one-dimensional
//! buffer, either packed (rows follow each other with no gap) or strided
//! (rows start a fixed number of elements apart, possibly leaving unused
//! padding between the useful end of one row and the start of the next).
//! Regions are constructed only through validated entry points, and every
//! derivation — sub-slicing, splitting by row or column, iteration —
//! is proved to stay inside the parent region and never to touch padding.

use vstd::prelude::*;

pub mod container;
pub mod inner;
pub mod iter;
pub mod range;
pub mod size;
pub mod slice;

pub use container::Container;
pub use container::ContainerMut;
pub use slice::BufRef;
pub use slice::Slice2D;
pub use slice::Slice2DMut;
pub use slice::Stride2D;
pub use slice::Stride2DMut;

verus! {

/// Witness that two type parameters are the same type.
pub trait TypeEq<T, U> {}

impl<T> TypeEq<T, T> for T {}

/// A generic, read-only two-dimensional view: anything that presents a
/// rectangle of rows and answers for its geometry and its rows exactly.
pub trait Img {
    type Item;

    /// The rows of the view, top row first, each `width` items long.
    spec fn rows_spec(&self) -> Seq<Seq<Self::Item>>;

    /// The view's geometry lies inside its buffer.
    spec fn img_wf(&self) -> bool;

    /// Number of items per row.
    spec fn width_spec(&self) -> int;

    /// Number of items per row.
    fn width(&self) -> (r: usize)
        requires
            self.img_wf(),
        ensures
            r == self.width_spec(),
    ;

    /// Number of rows.
    fn height(&self) -> (r: usize)
        requires
            self.img_wf(),
        ensures
            r == self.rows_spec().len(),
    ;

    /// Number of items, `width * height`; padding does not count.
    fn area(&self) -> (r: usize)
        requires
            self.img_wf(),
        ensures
            r == self.width_spec() * self.rows_spec().len(),
    ;

    /// Row `row_index` as a slice, or `None` where the index is out of
    /// range.
    fn row(&self, row_index: usize) -> (r: Option<&[Self::Item]>)
        requires
            self.img_wf(),
        ensures
            match r {
                Some(row) => row_index < self.rows_spec().len() && row@ == self.rows_spec()[row_index as int],
                None => row_index >= self.rows_spec().len(),
            },
    ;
}

/// A two-dimensional view with exclusive access to its elements: it may
/// overwrite one element at a time, touching nothing else.
pub trait ImgMut: Img {
    /// Overwrites the element at column `x` of row `y`; every other
    /// element, and any padding, stays exactly as it was.
    fn set(&mut self, x: usize, y: usize, v: Self::Item)
        requires
            old(self).img_wf(),
            x < old(self).width_spec(),
            y < old(self).rows_spec().len(),
        ensures
            final(self).img_wf(),
            final(self).width_spec() == old(self).width_spec(),
            final(self).rows_spec() == old(self).rows_spec().update(
                y as int,
                old(self).rows_spec()[y as int].update(x as int, v),
            ),
    ;
}

/// A borrowed, read-only strided view.
pub type ImgRef<'s, T> = Stride2D<&'s [T]>;

/// An owned, read-only strided view.
pub type ImgVec<T> = Stride2D<Vec<T>>;

/// An owned strided view with exclusive access to its elements.
pub type ImgRefMut<T> = Stride2DMut<Vec<T>>;

} // verus!
