//! The public view types: packed and strided rectangles, shared or
//! exclusive.
//!
//! A shared view borrows (or owns) its elements read-only and may be
//! duplicated freely; an exclusive view owns its buffer and additionally
//! allows element writes. Every derivation — sub-slicing, splitting,
//! re-borrowing — produces a view whose rows are stated exactly in terms
//! of the parent's rows.

use vstd::prelude::*;
use crate::container::{Container, ContainerMut};
use crate::inner::{RawSlice, RawStride, spec_rows, spec_window, stride_fits};
use crate::iter::{StrideItemIter, StrideRowsIter};
use crate::range::{spec_derange, Span};
use crate::size::Size;

verus! {

/// A contiguous two-dimensional view: `width * height` elements laid out
/// row by row with no gaps.
pub struct Slice2D<C: Container, S: Size = usize> {
    s: RawSlice<C, S>,
}

/// A two-dimensional view whose memory can be non-contiguous: a rectangle
/// cut out of a larger buffer, rows a fixed stride apart.
pub struct Stride2D<C: Container, S: Size = usize> {
    s: RawStride<C, S>,
}

/// The elements of a view made contiguous: either a zero-copy borrow of
/// memory that is already packed, or a freshly packed copy.
pub enum BufRef<'b, T> {
    Borrowed(&'b [T]),
    Owned(Vec<T>),
}

impl<'b, T> View for BufRef<'b, T> {
    type V = Seq<T>;

    open spec fn view(&self) -> Seq<T> {
        match self {
            BufRef::Borrowed(s) => s@,
            BufRef::Owned(v) => v@,
        }
    }
}

impl<C: Container, S: Size> View for Slice2D<C, S> {
    type V = Seq<Seq<C::Item>>;

    closed spec fn view(&self) -> Seq<Seq<C::Item>> {
        self.s@
    }
}

impl<C: Container, S: Size> View for Stride2D<C, S> {
    type V = Seq<Seq<C::Item>>;

    closed spec fn view(&self) -> Seq<Seq<C::Item>> {
        self.s@
    }
}

impl<C: Container, S: Size> Slice2D<C, S> {
    /// The view's geometry lies inside its buffer.
    pub closed spec fn wf(&self) -> bool {
        self.s.wf()
    }

    pub closed spec fn spec_width(&self) -> int {
        self.s.width.as_int()
    }

    pub closed spec fn spec_height(&self) -> int {
        self.s.height.as_int()
    }

    /// Wraps a container as a packed rectangle, keeping ownership of the
    /// container. Fails where the container holds fewer than
    /// `width * height` elements; excess elements are ignored.
    pub fn new(container: C, width: S, height: S) -> (r: Option<Self>)
        ensures
            match r {
                Some(v) => {
                    &&& width.as_int() * height.as_int() <= container.cview().len()
                    &&& v.wf()
                    &&& v.spec_width() == width.as_int()
                    &&& v.spec_height() == height.as_int()
                    &&& v@ == spec_rows(
                        container.cview(),
                        width.as_int(),
                        height.as_int(),
                        width.as_int(),
                    )
                },
                None => width.as_int() > usize::MAX as int || height.as_int() > usize::MAX as int
                    || width.as_int() * height.as_int() > container.cview().len(),
            },
    {
        match RawSlice::new(container, width, height) {
            Some(s) => Some(Slice2D { s }),
            None => None,
        }
    }

    /// Number of elements per row.
    pub fn width(&self) -> (r: usize)
        requires
            self.wf(),
        ensures
            r == self.spec_width(),
    {
        proof {
            self.s.width.lemma_bounds();
        }
        self.s.width.usize()
    }

    /// Number of rows.
    pub fn height(&self) -> (r: usize)
        requires
            self.wf(),
        ensures
            r == self.spec_height(),
            r == self@.len(),
    {
        proof {
            self.s.height.lemma_bounds();
        }
        self.s.height.usize()
    }

    /// Number of elements, `width * height`.
    pub fn area(&self) -> (r: usize)
        requires
            self.wf(),
        ensures
            r == self.spec_width() * self.spec_height(),
    {
        self.s.area()
    }

    /// A packed view has no padding.
    pub fn is_contiguous(&self) -> (r: bool)
        ensures
            r,
    {
        true
    }

    /// The underlying buffer, exactly `width * height` elements long;
    /// element `(x, y)` is at `buf()[y * width + x]`.
    pub fn buf(&self) -> (r: &[C::Item])
        requires
            self.wf(),
        ensures
            r@.len() == self.spec_width() * self.spec_height(),
            spec_rows(r@, self.spec_width(), self.spec_height(), self.spec_width()) == self@,
    {
        let n = self.area();
        let r = vstd::slice::slice_subrange(self.s.data.as_items(), 0, n);
        proof {
            self.s.width.lemma_bounds();
            self.s.height.lemma_bounds();
            crate::inner::lemma_packed_stride_fits(
                self.s.data.cview().len() as int,
                self.spec_width(),
                self.spec_height(),
            );
            lemma_prefix_rows(
                self.s.data.cview(),
                self.spec_width(),
                self.spec_height(),
                self.spec_width(),
            );
        }
        r
    }

    /// Row `index`, or `None` where the index is out of range.
    pub fn row(&self, row_index: usize) -> (r: Option<&[C::Item]>)
        requires
            self.wf(),
        ensures
            match r {
                Some(row) => row_index < self@.len() && row@ == self@[row_index as int],
                None => row_index >= self@.len(),
            },
    {
        proof {
            self.s.height.lemma_bounds();
        }
        if row_index < self.s.height.usize() {
            Some(self.s.row(row_index))
        } else {
            None
        }
    }

    /// Row `index`, for an index already known to be in range.
    pub fn row_unchecked(&self, row_index: usize) -> (r: &[C::Item])
        requires
            self.wf(),
            row_index < self.spec_height(),
        ensures
            r@ == self@[row_index as int],
    {
        self.s.row(row_index)
    }

    /// Iterates over the rows, each a slice of `width` elements. The
    /// iterator yields exactly `height` rows: `self@`, in order.
    pub fn rows(&self) -> (it: StrideRowsIter<C::Item>)
        requires
            self.wf(),
        ensures
            it.wf(),
            it.remaining() == self@,
    {
        proof {
            self.s.width.lemma_bounds();
            self.s.height.lemma_bounds();
            crate::inner::lemma_packed_stride_fits(
                self.s.data.cview().len() as int,
                self.spec_width(),
                self.spec_height(),
            );
        }
        StrideRowsIter::new(
            self.s.data.as_items(),
            self.s.width.usize(),
            self.s.height.usize(),
            self.s.width.usize(),
        )
    }

    /// Iterates over every element, row by row: exactly
    /// `width * height` elements.
    pub fn iter(&self) -> (it: StrideItemIter<C::Item>)
        requires
            self.wf(),
        ensures
            it.wf(),
            it.remaining().len() == self.spec_width() * self.spec_height(),
            forall|k: int|
                0 <= k < it.remaining().len() ==> #[trigger] it.remaining()[k] == self@[k
                    / self.spec_width()][k % self.spec_width()],
    {
        proof {
            self.s.width.lemma_bounds();
            self.s.height.lemma_bounds();
            crate::inner::lemma_packed_stride_fits(
                self.s.data.cview().len() as int,
                self.spec_width(),
                self.spec_height(),
            );
            crate::iter::lemma_items_match_rows(
                self.s.data.cview(),
                self.spec_width(),
                self.spec_height(),
                self.spec_width(),
            );
        }
        StrideItemIter::new(
            self.s.data.as_items(),
            self.s.width.usize(),
            self.s.height.usize(),
            self.s.width.usize(),
        )
    }

    /// The same rectangle viewed as a (possibly non-contiguous) strided
    /// view, borrowing the same memory.
    pub fn as_stride(&self) -> (r: Stride2D<&[C::Item], S>)
        requires
            self.wf(),
        ensures
            r.wf(),
            r.spec_width() == self.spec_width(),
            r.spec_height() == self.spec_height(),
            r@ == self@,
    {
        Stride2D { s: self.s.as_stride() }
    }

    /// The sub-rectangle selected by a horizontal and a vertical
    /// interval; `None` exactly where either interval does not fit.
    pub fn slice(&self, horizontal: Span<S>, vertical: Span<S>) -> (r: Option<
        Stride2D<&[C::Item], S>,
    >)
        requires
            self.wf(),
        ensures
            match r {
                Some(v) => {
                    &&& spec_derange(horizontal, self.spec_width()) is Some
                    &&& spec_derange(vertical, self.spec_height()) is Some
                    &&& {
                        let hd = spec_derange(horizontal, self.spec_width())->Some_0;
                        let vd = spec_derange(vertical, self.spec_height())->Some_0;
                        &&& v.wf()
                        &&& v.spec_width() == hd.1
                        &&& v.spec_height() == vd.1
                        &&& v@ == spec_window(self@, hd.0, hd.1, vd.0, vd.1)
                    }
                },
                None => spec_derange(horizontal, self.spec_width()) is None || spec_derange(
                    vertical,
                    self.spec_height(),
                ) is None,
            },
    {
        match self.s.slice(horizontal, vertical) {
            Some(s) => Some(Stride2D { s }),
            None => None,
        }
    }

    /// Splits into the first `columns` columns and the rest; the halves
    /// recompose the parent's rows side by side. `None` exactly where
    /// `columns` exceeds the width.
    pub fn split_at_col(&self, columns: S) -> (r: Option<
        (Stride2D<&[C::Item], S>, Stride2D<&[C::Item], S>),
    >)
        requires
            self.wf(),
        ensures
            match r {
                Some(p) => {
                    &&& columns.as_int() <= self.spec_width()
                    &&& p.0.wf() && p.1.wf()
                    &&& p.0.spec_width() == columns.as_int()
                    &&& p.1.spec_width() == self.spec_width() - columns.as_int()
                    &&& p.0.spec_height() == self.spec_height()
                    &&& p.1.spec_height() == self.spec_height()
                    &&& p.0@ == spec_window(self@, 0, columns.as_int(), 0, self.spec_height())
                    &&& p.1@ == spec_window(
                        self@,
                        columns.as_int(),
                        self.spec_width() - columns.as_int(),
                        0,
                        self.spec_height(),
                    )
                    &&& forall|i: int| 0 <= i < self.spec_height() ==> p.0@[i] + p.1@[i] == self@[i]
                },
                None => columns.as_int() > self.spec_width(),
            },
    {
        match self.s.split_at_col(columns) {
            Some((a, b)) => Some((Stride2D { s: a }, Stride2D { s: b })),
            None => None,
        }
    }

    /// Splits into the first `rows` rows and the rest; concatenating the
    /// halves' rows reproduces exactly the parent's rows. `None` exactly
    /// where `rows` exceeds the height.
    pub fn split_at_row(&self, rows: S) -> (r: Option<
        (Slice2D<&[C::Item], S>, Slice2D<&[C::Item], S>),
    >)
        requires
            self.wf(),
        ensures
            match r {
                Some(p) => {
                    &&& rows.as_int() <= self.spec_height()
                    &&& p.0.wf() && p.1.wf()
                    &&& p.0.spec_width() == self.spec_width()
                    &&& p.1.spec_width() == self.spec_width()
                    &&& p.0.spec_height() == rows.as_int()
                    &&& p.1.spec_height() == self.spec_height() - rows.as_int()
                    &&& p.0@ == self@.subrange(0, rows.as_int())
                    &&& p.1@ == self@.subrange(rows.as_int(), self.spec_height())
                    &&& p.0@ + p.1@ == self@
                },
                None => rows.as_int() > self.spec_height(),
            },
    {
        match self.s.split_at_row(rows) {
            Some((a, b)) => Some((Slice2D { s: a }, Slice2D { s: b })),
            None => None,
        }
    }

    /// The elements as one contiguous buffer, with the width and height:
    /// packed views are already contiguous, so this is a zero-copy
    /// borrow.
    pub fn to_contiguous_buf(&self) -> (r: (BufRef<C::Item>, usize, usize))
        requires
            self.wf(),
        ensures
            r.1 == self.spec_width(),
            r.2 == self.spec_height(),
            r.0@.len() == self.spec_width() * self.spec_height(),
            spec_rows(r.0@, self.spec_width(), self.spec_height(), self.spec_width()) == self@,
    {
        (BufRef::Borrowed(self.buf()), self.width(), self.height())
    }
}

impl<'s, T, S: Size> Slice2D<&'s [T], S> {
    /// Lays a packed rectangle over a borrowed slice. Fails where the
    /// slice holds fewer than `width * height` elements; excess elements
    /// are ignored.
    pub fn from_slice(slice: &'s [T], width: S, height: S) -> (r: Option<Self>)
        ensures
            match r {
                Some(v) => {
                    &&& width.as_int() * height.as_int() <= slice@.len()
                    &&& v.wf()
                    &&& v.spec_width() == width.as_int()
                    &&& v.spec_height() == height.as_int()
                    &&& v@ == spec_rows(slice@, width.as_int(), height.as_int(), width.as_int())
                },
                None => width.as_int() > usize::MAX as int || height.as_int() > usize::MAX as int
                    || width.as_int() * height.as_int() > slice@.len(),
            },
    {
        match RawSlice::from_slice(slice, width, height) {
            Some(s) => Some(Slice2D { s }),
            None => None,
        }
    }

    /// Lays a packed rectangle over a borrowed slice, deriving the height
    /// from the slice's length: as many whole rows as fit, capped at the
    /// dimension type's maximum. Excess elements are ignored; a zero
    /// width gives a zero height.
    pub fn new_ref(slice: &'s [T], width: S) -> (r: Self)
        requires
            width.as_int() <= usize::MAX as int,
        ensures
            r.wf(),
            r.spec_width() == width.as_int(),
            width.as_int() == 0 ==> r.spec_height() == 0,
            width.as_int() > 0 ==> r.spec_height() == if slice@.len() as int / width.as_int()
                <= S::spec_max() {
                slice@.len() as int / width.as_int()
            } else {
                S::spec_max()
            },
            r@ == spec_rows(slice@, width.as_int(), r.spec_height(), width.as_int()),
    {
        proof {
            width.lemma_bounds();
        }
        let zero = S::zero();
        let height: S = if width.le(zero) {
            zero
        } else {
            let h = slice.len() / width.usize();
            S::from_usize_capped(h)
        };
        proof {
            let gw = width.as_int();
            let gh = height.as_int();
            let gl = slice@.len() as int;
            if gw > 0 {
                vstd::arithmetic::div_mod::lemma_fundamental_div_mod(gl, gw);
                assert(gh <= gl / gw);
                assert(gw * gh <= gw * (gl / gw)) by (nonlinear_arith)
                    requires
                        0 <= gw,
                        gh <= gl / gw,
                ;
                assert(gw * (gl / gw) <= gl);
                height.lemma_bounds();
            }
        }
        match RawSlice::from_slice(slice, width, height) {
            Some(s) => Slice2D { s },
            None => {
                proof {
                    assert(false);
                }
                Slice2D { s: RawSlice { width, height, data: slice } }
            },
        }
    }
}

impl<C: Container, S: Size> Stride2D<C, S> {
    /// The view's geometry lies inside its buffer.
    pub closed spec fn wf(&self) -> bool {
        self.s.wf()
    }

    pub closed spec fn spec_width(&self) -> int {
        self.s.width.as_int()
    }

    pub closed spec fn spec_height(&self) -> int {
        self.s.height.as_int()
    }

    /// The distance between row starts, in elements.
    pub closed spec fn spec_stride(&self) -> int {
        self.s.stride as int
    }

    /// Wraps a container as a strided rectangle, keeping ownership of the
    /// container: rows are `stride` elements apart but only `width`
    /// elements wide. Fails where a row would outrun the stride or the
    /// container — the final row only needs to reach the end of its
    /// `width` elements, not a full stride.
    pub fn new(container: C, width: S, height: S, stride: S) -> (r: Option<Self>)
        ensures
            match r {
                Some(v) => {
                    &&& stride_fits(
                        container.cview().len() as int,
                        width.as_int(),
                        height.as_int(),
                        stride.as_int(),
                    )
                    &&& v.wf()
                    &&& v.spec_width() == width.as_int()
                    &&& v.spec_height() == height.as_int()
                    &&& v.spec_stride() == stride.as_int()
                    &&& v@ == spec_rows(
                        container.cview(),
                        width.as_int(),
                        height.as_int(),
                        stride.as_int(),
                    )
                },
                None => width.as_int() > usize::MAX as int || height.as_int() > usize::MAX as int
                    || stride.as_int() > usize::MAX as int || !stride_fits(
                    container.cview().len() as int,
                    width.as_int(),
                    height.as_int(),
                    stride.as_int(),
                ),
            },
    {
        match RawStride::new(container, width, height, stride) {
            Some(s) => Some(Stride2D { s }),
            None => None,
        }
    }

    /// Number of elements per row.
    pub fn width(&self) -> (r: usize)
        requires
            self.wf(),
        ensures
            r == self.spec_width(),
    {
        proof {
            self.s.width.lemma_bounds();
        }
        self.s.width.usize()
    }

    /// Number of rows.
    pub fn height(&self) -> (r: usize)
        requires
            self.wf(),
        ensures
            r == self.spec_height(),
            r == self@.len(),
    {
        proof {
            self.s.height.lemma_bounds();
        }
        self.s.height.usize()
    }

    /// Number of useful elements, `width * height`; padding does not
    /// count.
    pub fn area(&self) -> (r: usize)
        requires
            self.wf(),
        ensures
            r == self.spec_width() * self.spec_height(),
    {
        self.s.area()
    }

    /// Whether the view is contiguous in memory: its stride equals its
    /// width, leaving no padding.
    pub fn is_contiguous(&self) -> (r: bool)
        requires
            self.wf(),
        ensures
            r <==> self.spec_width() == self.spec_stride(),
    {
        self.s.is_contiguous()
    }

    /// Row `index`, or `None` where the index is out of range.
    pub fn row(&self, row_index: usize) -> (r: Option<&[C::Item]>)
        requires
            self.wf(),
        ensures
            match r {
                Some(row) => row_index < self@.len() && row@ == self@[row_index as int],
                None => row_index >= self@.len(),
            },
    {
        proof {
            self.s.height.lemma_bounds();
        }
        if row_index < self.s.height.usize() {
            Some(self.s.row(row_index))
        } else {
            None
        }
    }

    /// Row `index`, for an index already known to be in range.
    pub fn row_unchecked(&self, row_index: usize) -> (r: &[C::Item])
        requires
            self.wf(),
            row_index < self.spec_height(),
        ensures
            r@ == self@[row_index as int],
    {
        self.s.row(row_index)
    }

    /// Iterates over the rows, each a slice of `width` elements; padding
    /// is stepped over. The iterator yields exactly `height` rows:
    /// `self@`, in order.
    pub fn rows(&self) -> (it: StrideRowsIter<C::Item>)
        requires
            self.wf(),
        ensures
            it.wf(),
            it.remaining() == self@,
    {
        proof {
            self.s.width.lemma_bounds();
            self.s.height.lemma_bounds();
        }
        StrideRowsIter::new(
            self.s.data.as_items(),
            self.s.width.usize(),
            self.s.height.usize(),
            self.s.stride,
        )
    }

    /// Iterates over every element, row by row, skipping the padding:
    /// exactly `width * height` elements.
    pub fn iter(&self) -> (it: StrideItemIter<C::Item>)
        requires
            self.wf(),
        ensures
            it.wf(),
            it.remaining().len() == self.spec_width() * self.spec_height(),
            forall|k: int|
                0 <= k < it.remaining().len() ==> #[trigger] it.remaining()[k] == self@[k
                    / self.spec_width()][k % self.spec_width()],
    {
        proof {
            self.s.width.lemma_bounds();
            self.s.height.lemma_bounds();
            crate::iter::lemma_items_match_rows(
                self.s.data.cview(),
                self.spec_width(),
                self.spec_height(),
                self.spec_stride(),
            );
        }
        StrideItemIter::new(
            self.s.data.as_items(),
            self.s.width.usize(),
            self.s.height.usize(),
            self.s.stride,
        )
    }

    /// Re-borrows the view: the same rectangle over the same memory.
    pub fn as_stride(&self) -> (r: Stride2D<&[C::Item], S>)
        requires
            self.wf(),
        ensures
            r.wf(),
            r.spec_width() == self.spec_width(),
            r.spec_height() == self.spec_height(),
            r.spec_stride() == self.spec_stride(),
            r@ == self@,
    {
        Stride2D { s: self.s.borrowed() }
    }

    /// The sub-rectangle selected by a horizontal and a vertical
    /// interval; the result keeps the parent's stride. `None` exactly
    /// where either interval does not fit.
    pub fn slice(&self, horizontal: Span<S>, vertical: Span<S>) -> (r: Option<
        Stride2D<&[C::Item], S>,
    >)
        requires
            self.wf(),
        ensures
            match r {
                Some(v) => {
                    &&& spec_derange(horizontal, self.spec_width()) is Some
                    &&& spec_derange(vertical, self.spec_height()) is Some
                    &&& {
                        let hd = spec_derange(horizontal, self.spec_width())->Some_0;
                        let vd = spec_derange(vertical, self.spec_height())->Some_0;
                        &&& v.wf()
                        &&& v.spec_width() == hd.1
                        &&& v.spec_height() == vd.1
                        &&& v.spec_stride() == self.spec_stride()
                        &&& v@ == spec_window(self@, hd.0, hd.1, vd.0, vd.1)
                    }
                },
                None => spec_derange(horizontal, self.spec_width()) is None || spec_derange(
                    vertical,
                    self.spec_height(),
                ) is None,
            },
    {
        match self.s.slice(horizontal, vertical) {
            Some(s) => Some(Stride2D { s }),
            None => None,
        }
    }

    /// Splits into the first `columns` columns and the rest; both halves
    /// keep the stride, and side by side their rows recompose the
    /// parent's rows. `None` exactly where `columns` exceeds the width.
    pub fn split_at_col(&self, columns: S) -> (r: Option<
        (Stride2D<&[C::Item], S>, Stride2D<&[C::Item], S>),
    >)
        requires
            self.wf(),
        ensures
            match r {
                Some(p) => {
                    &&& columns.as_int() <= self.spec_width()
                    &&& p.0.wf() && p.1.wf()
                    &&& p.0.spec_width() == columns.as_int()
                    &&& p.1.spec_width() == self.spec_width() - columns.as_int()
                    &&& p.0.spec_height() == self.spec_height()
                    &&& p.1.spec_height() == self.spec_height()
                    &&& p.0.spec_stride() == self.spec_stride()
                    &&& p.1.spec_stride() == self.spec_stride()
                    &&& p.0@ == spec_window(self@, 0, columns.as_int(), 0, self.spec_height())
                    &&& p.1@ == spec_window(
                        self@,
                        columns.as_int(),
                        self.spec_width() - columns.as_int(),
                        0,
                        self.spec_height(),
                    )
                    &&& forall|i: int| 0 <= i < self.spec_height() ==> p.0@[i] + p.1@[i] == self@[i]
                },
                None => columns.as_int() > self.spec_width(),
            },
    {
        match self.s.split_at_col(columns) {
            Some((a, b)) => Some((Stride2D { s: a }, Stride2D { s: b })),
            None => None,
        }
    }

    /// Splits into the first `rows` rows and the rest; both halves keep
    /// the stride, and concatenating their rows reproduces exactly the
    /// parent's rows. `None` exactly where `rows` exceeds the height.
    pub fn split_at_row(&self, rows: S) -> (r: Option<
        (Stride2D<&[C::Item], S>, Stride2D<&[C::Item], S>),
    >)
        requires
            self.wf(),
        ensures
            match r {
                Some(p) => {
                    &&& rows.as_int() <= self.spec_height()
                    &&& p.0.wf() && p.1.wf()
                    &&& p.0.spec_width() == self.spec_width()
                    &&& p.1.spec_width() == self.spec_width()
                    &&& p.0.spec_height() == rows.as_int()
                    &&& p.1.spec_height() == self.spec_height() - rows.as_int()
                    &&& p.0.spec_stride() == self.spec_stride()
                    &&& p.1.spec_stride() == self.spec_stride()
                    &&& p.0@ == self@.subrange(0, rows.as_int())
                    &&& p.1@ == self@.subrange(rows.as_int(), self.spec_height())
                    &&& p.0@ + p.1@ == self@
                },
                None => rows.as_int() > self.spec_height(),
            },
    {
        match self.s.split_at_row(rows) {
            Some((a, b)) => Some((Stride2D { s: a }, Stride2D { s: b })),
            None => None,
        }
    }
}

impl<C: Container, S: Size> Stride2D<C, S> where C::Item: Copy {
    /// The elements as one contiguous buffer, with the width and height:
    /// a zero-copy borrow where the view is already contiguous, otherwise
    /// a freshly packed copy with the padding dropped.
    pub fn to_contiguous_buf(&self) -> (r: (BufRef<C::Item>, usize, usize))
        requires
            self.wf(),
        ensures
            r.1 == self.spec_width(),
            r.2 == self.spec_height(),
            r.0@.len() == self.spec_width() * self.spec_height(),
            spec_rows(r.0@, self.spec_width(), self.spec_height(), self.spec_width()) == self@,
    {
        if self.is_contiguous() {
            let n = self.area();
            proof {
                self.s.width.lemma_bounds();
                self.s.height.lemma_bounds();
                if self.spec_width() > 0 && self.spec_height() > 0 {
                    assert((self.spec_height() - 1) * self.spec_stride() + self.spec_width()
                        == self.spec_width() * self.spec_height()) by (nonlinear_arith)
                        requires
                            self.spec_stride() == self.spec_width(),
                            self.spec_height() > 0,
                    ;
                } else {
                    assert(self.spec_width() * self.spec_height() == 0) by (nonlinear_arith)
                        requires
                            self.spec_width() == 0 || self.spec_height() == 0,
                    ;
                }
                lemma_prefix_rows(
                    self.s.data.cview(),
                    self.spec_width(),
                    self.spec_height(),
                    self.spec_stride(),
                );
            }
            let b = vstd::slice::slice_subrange(self.s.data.as_items(), 0, n);
            (BufRef::Borrowed(b), self.width(), self.height())
        } else {
            (BufRef::Owned(self.s.to_packed_vec()), self.width(), self.height())
        }
    }
}

impl<'s, T, S: Size> Stride2D<&'s [T], S> {
    /// Lays a strided rectangle over a borrowed slice: rows are `stride`
    /// elements apart but only `width` elements wide; the elements in
    /// between belong to no row and are never read. Fails where a row
    /// would outrun the stride or the slice — the final row only needs to
    /// reach the end of its `width` elements, not a full stride.
    pub fn from_slice(slice: &'s [T], width: S, height: S, stride: S) -> (r: Option<Self>)
        ensures
            match r {
                Some(v) => {
                    &&& stride_fits(
                        slice@.len() as int,
                        width.as_int(),
                        height.as_int(),
                        stride.as_int(),
                    )
                    &&& v.wf()
                    &&& v.spec_width() == width.as_int()
                    &&& v.spec_height() == height.as_int()
                    &&& v.spec_stride() == stride.as_int()
                    &&& v@ == spec_rows(slice@, width.as_int(), height.as_int(), stride.as_int())
                },
                None => width.as_int() > usize::MAX as int || height.as_int() > usize::MAX as int
                    || stride.as_int() > usize::MAX as int || !stride_fits(
                    slice@.len() as int,
                    width.as_int(),
                    height.as_int(),
                    stride.as_int(),
                ),
            },
    {
        match RawStride::from_slice(slice, width, height, stride) {
            Some(s) => Some(Stride2D { s }),
            None => None,
        }
    }
}

/// A contiguous two-dimensional view with exclusive access to its
/// elements: it owns its buffer and may overwrite elements in place.
pub struct Slice2DMut<C: Container, S: Size = usize> {
    s: RawSlice<C, S>,
}

/// A strided two-dimensional view with exclusive access to its elements.
pub struct Stride2DMut<C: Container, S: Size = usize> {
    s: RawStride<C, S>,
}

impl<C: Container, S: Size> View for Slice2DMut<C, S> {
    type V = Seq<Seq<C::Item>>;

    closed spec fn view(&self) -> Seq<Seq<C::Item>> {
        self.s@
    }
}

impl<C: Container, S: Size> View for Stride2DMut<C, S> {
    type V = Seq<Seq<C::Item>>;

    closed spec fn view(&self) -> Seq<Seq<C::Item>> {
        self.s@
    }
}

impl<C: Container, S: Size> Slice2DMut<C, S> {
    /// The view's geometry lies inside its buffer.
    pub closed spec fn wf(&self) -> bool {
        self.s.wf()
    }

    pub closed spec fn spec_width(&self) -> int {
        self.s.width.as_int()
    }

    pub closed spec fn spec_height(&self) -> int {
        self.s.height.as_int()
    }

    /// Number of elements per row.
    pub fn width(&self) -> (r: usize)
        requires
            self.wf(),
        ensures
            r == self.spec_width(),
    {
        proof {
            self.s.width.lemma_bounds();
        }
        self.s.width.usize()
    }

    /// Number of rows.
    pub fn height(&self) -> (r: usize)
        requires
            self.wf(),
        ensures
            r == self.spec_height(),
            r == self@.len(),
    {
        proof {
            self.s.height.lemma_bounds();
        }
        self.s.height.usize()
    }

    /// Number of elements, `width * height`.
    pub fn area(&self) -> (r: usize)
        requires
            self.wf(),
        ensures
            r == self.spec_width() * self.spec_height(),
    {
        self.s.area()
    }

    /// A packed view has no padding.
    pub fn is_contiguous(&self) -> (r: bool)
        ensures
            r,
    {
        true
    }

    /// Row `index`, read-only; `None` where the index is out of range.
    pub fn row(&self, row_index: usize) -> (r: Option<&[C::Item]>)
        requires
            self.wf(),
        ensures
            match r {
                Some(row) => row_index < self@.len() && row@ == self@[row_index as int],
                None => row_index >= self@.len(),
            },
    {
        proof {
            self.s.height.lemma_bounds();
        }
        if row_index < self.s.height.usize() {
            Some(self.s.row(row_index))
        } else {
            None
        }
    }

    /// Iterates read-only over the rows: `self@`, in order.
    pub fn rows(&self) -> (it: StrideRowsIter<C::Item>)
        requires
            self.wf(),
        ensures
            it.wf(),
            it.remaining() == self@,
    {
        proof {
            self.s.width.lemma_bounds();
            self.s.height.lemma_bounds();
            crate::inner::lemma_packed_stride_fits(
                self.s.data.cview().len() as int,
                self.spec_width(),
                self.spec_height(),
            );
        }
        StrideRowsIter::new(
            self.s.data.as_items(),
            self.s.width.usize(),
            self.s.height.usize(),
            self.s.width.usize(),
        )
    }

    /// The same rectangle as a shared, read-only view borrowing this
    /// view's buffer.
    pub fn as_shared(&self) -> (r: Slice2D<&[C::Item], S>)
        requires
            self.wf(),
        ensures
            r.wf(),
            r.spec_width() == self.spec_width(),
            r.spec_height() == self.spec_height(),
            r@ == self@,
    {
        Slice2D { s: self.s.borrowed() }
    }

    /// The same rectangle as a shared strided view borrowing this view's
    /// buffer.
    pub fn as_stride(&self) -> (r: Stride2D<&[C::Item], S>)
        requires
            self.wf(),
        ensures
            r.wf(),
            r.spec_width() == self.spec_width(),
            r.spec_height() == self.spec_height(),
            r@ == self@,
    {
        Stride2D { s: self.s.as_stride() }
    }

    /// The sub-rectangle selected by two intervals, as a shared view;
    /// `None` exactly where either interval does not fit.
    pub fn slice(&self, horizontal: Span<S>, vertical: Span<S>) -> (r: Option<
        Stride2D<&[C::Item], S>,
    >)
        requires
            self.wf(),
        ensures
            match r {
                Some(v) => {
                    &&& spec_derange(horizontal, self.spec_width()) is Some
                    &&& spec_derange(vertical, self.spec_height()) is Some
                    &&& {
                        let hd = spec_derange(horizontal, self.spec_width())->Some_0;
                        let vd = spec_derange(vertical, self.spec_height())->Some_0;
                        &&& v.wf()
                        &&& v.spec_width() == hd.1
                        &&& v.spec_height() == vd.1
                        &&& v@ == spec_window(self@, hd.0, hd.1, vd.0, vd.1)
                    }
                },
                None => spec_derange(horizontal, self.spec_width()) is None || spec_derange(
                    vertical,
                    self.spec_height(),
                ) is None,
            },
    {
        match self.s.slice(horizontal, vertical) {
            Some(s) => Some(Stride2D { s }),
            None => None,
        }
    }

    /// The underlying buffer, exactly `width * height` elements long.
    pub fn buf(&self) -> (r: &[C::Item])
        requires
            self.wf(),
        ensures
            r@.len() == self.spec_width() * self.spec_height(),
            spec_rows(r@, self.spec_width(), self.spec_height(), self.spec_width()) == self@,
    {
        let n = self.area();
        let r = vstd::slice::slice_subrange(self.s.data.as_items(), 0, n);
        proof {
            self.s.width.lemma_bounds();
            self.s.height.lemma_bounds();
            crate::inner::lemma_packed_stride_fits(
                self.s.data.cview().len() as int,
                self.spec_width(),
                self.spec_height(),
            );
            lemma_prefix_rows(
                self.s.data.cview(),
                self.spec_width(),
                self.spec_height(),
                self.spec_width(),
            );
        }
        r
    }

    /// Releases the underlying container: the buffer the view was laid
    /// over, unchanged, still holding the view's rows packed at its
    /// front.
    pub fn into_inner(self) -> (r: C)
        requires
            self.wf(),
        ensures
            self.spec_width() * self.spec_height() <= r.cview().len(),
            spec_rows(r.cview(), self.spec_width(), self.spec_height(), self.spec_width())
                == self@,
    {
        self.s.data
    }
}

impl<C: ContainerMut, S: Size> Slice2DMut<C, S> {
    /// Overwrites the element at column `x` of row `y`; every other
    /// element stays exactly as it was.
    pub fn set(&mut self, x: usize, y: usize, v: C::Item)
        requires
            old(self).wf(),
            x < old(self).spec_width(),
            y < old(self).spec_height(),
        ensures
            final(self).wf(),
            final(self).spec_width() == old(self).spec_width(),
            final(self).spec_height() == old(self).spec_height(),
            final(self)@ == old(self)@.update(y as int, old(self)@[y as int].update(x as int, v)),
    {
        self.s.set(x, y, v);
    }
}

impl<T, S: Size> Slice2DMut<Vec<T>, S> {
    /// Wraps an owned buffer as a packed rectangle with exclusive
    /// access. Fails where the buffer holds fewer than `width * height`
    /// elements; excess elements are ignored.
    pub fn from_slice_mut(buffer: Vec<T>, width: S, height: S) -> (r: Option<Self>)
        ensures
            match r {
                Some(v) => {
                    &&& width.as_int() * height.as_int() <= buffer@.len()
                    &&& v.wf()
                    &&& v.spec_width() == width.as_int()
                    &&& v.spec_height() == height.as_int()
                    &&& v@ == spec_rows(buffer@, width.as_int(), height.as_int(), width.as_int())
                },
                None => width.as_int() > usize::MAX as int || height.as_int() > usize::MAX as int
                    || width.as_int() * height.as_int() > buffer@.len(),
            },
    {
        match RawSlice::new(buffer, width, height) {
            Some(s) => Some(Slice2DMut { s }),
            None => None,
        }
    }

    /// Wraps an owned buffer as a packed rectangle, deriving the height
    /// from the buffer's length: as many whole rows as fit, capped at
    /// the dimension type's maximum. Excess elements are ignored; a zero
    /// width gives a zero height.
    pub fn new_mut(buffer: Vec<T>, width: S) -> (r: Self)
        requires
            width.as_int() <= usize::MAX as int,
        ensures
            r.wf(),
            r.spec_width() == width.as_int(),
            width.as_int() == 0 ==> r.spec_height() == 0,
            width.as_int() > 0 ==> r.spec_height() == if buffer@.len() as int / width.as_int()
                <= S::spec_max() {
                buffer@.len() as int / width.as_int()
            } else {
                S::spec_max()
            },
            r@ == spec_rows(buffer@, width.as_int(), r.spec_height(), width.as_int()),
    {
        proof {
            width.lemma_bounds();
        }
        let zero = S::zero();
        let height: S = if width.le(zero) {
            zero
        } else {
            let h = buffer.len() / width.usize();
            S::from_usize_capped(h)
        };
        proof {
            let gw = width.as_int();
            let gh = height.as_int();
            let gl = buffer@.len() as int;
            if gw > 0 {
                vstd::arithmetic::div_mod::lemma_fundamental_div_mod(gl, gw);
                assert(gh <= gl / gw);
                assert(gw * gh <= gw * (gl / gw)) by (nonlinear_arith)
                    requires
                        0 <= gw,
                        gh <= gl / gw,
                ;
                assert(gw * (gl / gw) <= gl);
                height.lemma_bounds();
            }
        }
        match RawSlice::new(buffer, width, height) {
            Some(s) => Slice2DMut { s },
            None => {
                proof {
                    assert(false);
                }
                Slice2DMut { s: RawSlice { width, height, data: Vec::new() } }
            },
        }
    }

    /// The sub-rectangle selected by two intervals, as a fresh exclusive
    /// view: the selected elements are copied out packed, so the result
    /// aliases nothing. `None` exactly where either interval does not
    /// fit.
    pub fn slice_mut(&self, horizontal: Span<S>, vertical: Span<S>) -> (r: Option<
        Stride2DMut<Vec<T>, S>,
    >) where T: Copy
        requires
            self.wf(),
        ensures
            match r {
                Some(v) => {
                    &&& spec_derange(horizontal, self.spec_width()) is Some
                    &&& spec_derange(vertical, self.spec_height()) is Some
                    &&& {
                        let hd = spec_derange(horizontal, self.spec_width())->Some_0;
                        let vd = spec_derange(vertical, self.spec_height())->Some_0;
                        &&& v.wf()
                        &&& v.spec_width() == hd.1
                        &&& v.spec_height() == vd.1
                        &&& v@ == spec_window(self@, hd.0, hd.1, vd.0, vd.1)
                    }
                },
                None => spec_derange(horizontal, self.spec_width()) is None || spec_derange(
                    vertical,
                    self.spec_height(),
                ) is None,
            },
    {
        let cropped = match self.s.slice(horizontal, vertical) {
            Some(c) => c,
            None => {
                return None;
            },
        };
        Some(Stride2DMut { s: pack_owned(&cropped) })
    }

    /// Splits the view at column `columns` into two fresh exclusive
    /// views, copying each half's elements out packed so that the halves
    /// alias nothing; side by side, their rows recompose the parent's
    /// rows. `None` exactly where `columns` exceeds the width.
    pub fn split_at_col_mut(&self, columns: S) -> (r: Option<
        (Stride2DMut<Vec<T>, S>, Stride2DMut<Vec<T>, S>),
    >) where T: Copy
        requires
            self.wf(),
        ensures
            match r {
                Some(p) => {
                    &&& columns.as_int() <= self.spec_width()
                    &&& p.0.wf() && p.1.wf()
                    &&& p.0.spec_width() == columns.as_int()
                    &&& p.1.spec_width() == self.spec_width() - columns.as_int()
                    &&& p.0.spec_height() == self.spec_height()
                    &&& p.1.spec_height() == self.spec_height()
                    &&& p.0@ == spec_window(self@, 0, columns.as_int(), 0, self.spec_height())
                    &&& p.1@ == spec_window(
                        self@,
                        columns.as_int(),
                        self.spec_width() - columns.as_int(),
                        0,
                        self.spec_height(),
                    )
                    &&& forall|i: int| 0 <= i < self.spec_height() ==> p.0@[i] + p.1@[i] == self@[i]
                },
                None => columns.as_int() > self.spec_width(),
            },
    {
        let (a, b) = match self.s.split_at_col(columns) {
            Some(p) => p,
            None => {
                return None;
            },
        };
        Some((Stride2DMut { s: pack_owned(&a) }, Stride2DMut { s: pack_owned(&b) }))
    }

    /// Splits the view at row `rows` into two exclusive, non-overlapping
    /// halves, dividing the owned buffer between them: concatenating the
    /// halves' rows reproduces exactly the parent's rows. `None` exactly
    /// where `rows` exceeds the height.
    pub fn split_at_row_mut(self, rows: S) -> (r: Option<(Self, Self)>)
        requires
            self.wf(),
        ensures
            match r {
                Some(p) => {
                    &&& rows.as_int() <= self.spec_height()
                    &&& p.0.wf() && p.1.wf()
                    &&& p.0.spec_width() == self.spec_width()
                    &&& p.1.spec_width() == self.spec_width()
                    &&& p.0.spec_height() == rows.as_int()
                    &&& p.1.spec_height() == self.spec_height() - rows.as_int()
                    &&& p.0@ == self@.subrange(0, rows.as_int())
                    &&& p.1@ == self@.subrange(rows.as_int(), self.spec_height())
                    &&& p.0@ + p.1@ == self@
                },
                None => rows.as_int() > self.spec_height(),
            },
    {
        proof {
            self.s.width.lemma_bounds();
            self.s.height.lemma_bounds();
        }
        let width = self.s.width;
        let height = self.s.height;
        let rest = match height.checked_limited_sub(rows) {
            Some(v) => v,
            None => {
                return None;
            },
        };
        proof {
            rows.lemma_bounds();
            rest.lemma_bounds();
            let gw = width.as_int();
            let gh = height.as_int();
            let gn = rows.as_int();
            assert(gn * gw <= gh * gw && 0 <= gn * gw) by (nonlinear_arith)
                requires
                    0 <= gn <= gh,
                    0 <= gw,
            ;
            assert(gh * gw == gw * gh) by (nonlinear_arith);
            assert(gw * gn == gn * gw) by (nonlinear_arith);
            assert((gh - gn) * gw == gh * gw - gn * gw) by (nonlinear_arith);
            assert(gw * (gh - gn) == (gh - gn) * gw) by (nonlinear_arith);
        }
        let ghost orig = self@;
        let ghost old_data = self.s.data@;
        let mut front = self.s.data;
        let off = rows.usize() * width.usize();
        let tail = front.split_off(off);
        let a = Slice2DMut { s: RawSlice { width, height: rows, data: front } };
        let b = Slice2DMut { s: RawSlice { width, height: rest, data: tail } };
        proof {
            let gw = width.as_int();
            let gh = height.as_int();
            let gn = rows.as_int();
            assert forall|i: int| 0 <= i < gn implies a@[i] == orig.subrange(0, gn)[i] by {
                assert(i * gw + gw <= gn * gw) by (nonlinear_arith)
                    requires
                        0 <= i <= gn - 1,
                        0 <= gw,
                ;
                assert(0 <= i * gw) by (nonlinear_arith)
                    requires
                        0 <= i,
                        0 <= gw,
                ;
                assert(a@[i] =~= orig[i]);
            }
            assert(a@ =~= orig.subrange(0, gn));
            assert forall|i: int| 0 <= i < gh - gn implies b@[i] == orig.subrange(gn, gh)[i] by {
                assert(i * gw + gw <= (gh - gn) * gw) by (nonlinear_arith)
                    requires
                        0 <= i <= gh - gn - 1,
                        0 <= gw,
                ;
                assert(0 <= i * gw) by (nonlinear_arith)
                    requires
                        0 <= i,
                        0 <= gw,
                ;
                assert((gn + i) * gw == gn * gw + i * gw) by (nonlinear_arith);
                assert(b@[i] =~= orig[gn + i]);
            }
            assert(b@ =~= orig.subrange(gn, gh));
            assert(a@ + b@ =~= orig);
        }
        Some((a, b))
    }
}

impl<C: Container, S: Size> Stride2DMut<C, S> {
    /// The view's geometry lies inside its buffer.
    pub closed spec fn wf(&self) -> bool {
        self.s.wf()
    }

    pub closed spec fn spec_width(&self) -> int {
        self.s.width.as_int()
    }

    pub closed spec fn spec_height(&self) -> int {
        self.s.height.as_int()
    }

    /// The distance between row starts, in elements.
    pub closed spec fn spec_stride(&self) -> int {
        self.s.stride as int
    }

    /// Number of elements per row.
    pub fn width(&self) -> (r: usize)
        requires
            self.wf(),
        ensures
            r == self.spec_width(),
    {
        proof {
            self.s.width.lemma_bounds();
        }
        self.s.width.usize()
    }

    /// Number of rows.
    pub fn height(&self) -> (r: usize)
        requires
            self.wf(),
        ensures
            r == self.spec_height(),
            r == self@.len(),
    {
        proof {
            self.s.height.lemma_bounds();
        }
        self.s.height.usize()
    }

    /// Number of useful elements, `width * height`.
    pub fn area(&self) -> (r: usize)
        requires
            self.wf(),
        ensures
            r == self.spec_width() * self.spec_height(),
    {
        self.s.area()
    }

    /// Whether the view is contiguous in memory: its stride equals its
    /// width, leaving no padding.
    pub fn is_contiguous(&self) -> (r: bool)
        requires
            self.wf(),
        ensures
            r <==> self.spec_width() == self.spec_stride(),
    {
        self.s.is_contiguous()
    }

    /// Row `index`, read-only; `None` where the index is out of range.
    pub fn row(&self, row_index: usize) -> (r: Option<&[C::Item]>)
        requires
            self.wf(),
        ensures
            match r {
                Some(row) => row_index < self@.len() && row@ == self@[row_index as int],
                None => row_index >= self@.len(),
            },
    {
        proof {
            self.s.height.lemma_bounds();
        }
        if row_index < self.s.height.usize() {
            Some(self.s.row(row_index))
        } else {
            None
        }
    }

    /// Iterates read-only over the rows, skipping padding: `self@`, in
    /// order.
    pub fn rows(&self) -> (it: StrideRowsIter<C::Item>)
        requires
            self.wf(),
        ensures
            it.wf(),
            it.remaining() == self@,
    {
        proof {
            self.s.width.lemma_bounds();
            self.s.height.lemma_bounds();
        }
        StrideRowsIter::new(
            self.s.data.as_items(),
            self.s.width.usize(),
            self.s.height.usize(),
            self.s.stride,
        )
    }

    /// Iterates read-only over every element, row by row, skipping the
    /// padding.
    pub fn iter(&self) -> (it: StrideItemIter<C::Item>)
        requires
            self.wf(),
        ensures
            it.wf(),
            it.remaining().len() == self.spec_width() * self.spec_height(),
            forall|k: int|
                0 <= k < it.remaining().len() ==> #[trigger] it.remaining()[k] == self@[k
                    / self.spec_width()][k % self.spec_width()],
    {
        proof {
            self.s.width.lemma_bounds();
            self.s.height.lemma_bounds();
            crate::iter::lemma_items_match_rows(
                self.s.data.cview(),
                self.spec_width(),
                self.spec_height(),
                self.spec_stride(),
            );
        }
        StrideItemIter::new(
            self.s.data.as_items(),
            self.s.width.usize(),
            self.s.height.usize(),
            self.s.stride,
        )
    }

    /// The same rectangle as a shared, read-only view borrowing this
    /// view's buffer.
    pub fn as_shared(&self) -> (r: Stride2D<&[C::Item], S>)
        requires
            self.wf(),
        ensures
            r.wf(),
            r.spec_width() == self.spec_width(),
            r.spec_height() == self.spec_height(),
            r.spec_stride() == self.spec_stride(),
            r@ == self@,
    {
        Stride2D { s: self.s.borrowed() }
    }

    /// The sub-rectangle selected by two intervals, as a shared view;
    /// `None` exactly where either interval does not fit.
    pub fn slice(&self, horizontal: Span<S>, vertical: Span<S>) -> (r: Option<
        Stride2D<&[C::Item], S>,
    >)
        requires
            self.wf(),
        ensures
            match r {
                Some(v) => {
                    &&& spec_derange(horizontal, self.spec_width()) is Some
                    &&& spec_derange(vertical, self.spec_height()) is Some
                    &&& {
                        let hd = spec_derange(horizontal, self.spec_width())->Some_0;
                        let vd = spec_derange(vertical, self.spec_height())->Some_0;
                        &&& v.wf()
                        &&& v.spec_width() == hd.1
                        &&& v.spec_height() == vd.1
                        &&& v@ == spec_window(self@, hd.0, hd.1, vd.0, vd.1)
                    }
                },
                None => spec_derange(horizontal, self.spec_width()) is None || spec_derange(
                    vertical,
                    self.spec_height(),
                ) is None,
            },
    {
        match self.s.slice(horizontal, vertical) {
            Some(s) => Some(Stride2D { s }),
            None => None,
        }
    }

    /// Releases the underlying container: the buffer the view was laid
    /// over, unchanged, still holding the view's rows at the stride they
    /// were laid out with.
    pub fn into_inner(self) -> (r: C)
        requires
            self.wf(),
        ensures
            spec_rows(r.cview(), self.spec_width(), self.spec_height(), self.spec_stride())
                == self@,
    {
        self.s.data
    }
}

impl<C: ContainerMut, S: Size> Stride2DMut<C, S> {
    /// Overwrites the element at column `x` of row `y`. Only that one
    /// element changes: every other row, every other element of row `y`,
    /// and all the padding stay exactly as they were.
    pub fn set(&mut self, x: usize, y: usize, v: C::Item)
        requires
            old(self).wf(),
            x < old(self).spec_width(),
            y < old(self).spec_height(),
        ensures
            final(self).wf(),
            final(self).spec_width() == old(self).spec_width(),
            final(self).spec_height() == old(self).spec_height(),
            final(self).spec_stride() == old(self).spec_stride(),
            final(self)@ == old(self)@.update(y as int, old(self)@[y as int].update(x as int, v)),
    {
        self.s.set(x, y, v);
    }
}

impl<T, S: Size> Stride2DMut<Vec<T>, S> {
    /// Wraps an owned buffer as a strided rectangle with exclusive
    /// access: rows are `stride` elements apart but only `width`
    /// elements wide. Fails where a row would outrun the stride or the
    /// buffer — the final row only needs to reach the end of its `width`
    /// elements, not a full stride.
    pub fn from_slice_mut(buffer: Vec<T>, width: S, height: S, stride: S) -> (r: Option<Self>)
        ensures
            match r {
                Some(v) => {
                    &&& stride_fits(
                        buffer@.len() as int,
                        width.as_int(),
                        height.as_int(),
                        stride.as_int(),
                    )
                    &&& v.wf()
                    &&& v.spec_width() == width.as_int()
                    &&& v.spec_height() == height.as_int()
                    &&& v.spec_stride() == stride.as_int()
                    &&& v@ == spec_rows(buffer@, width.as_int(), height.as_int(), stride.as_int())
                },
                None => width.as_int() > usize::MAX as int || height.as_int() > usize::MAX as int
                    || stride.as_int() > usize::MAX as int || !stride_fits(
                    buffer@.len() as int,
                    width.as_int(),
                    height.as_int(),
                    stride.as_int(),
                ),
            },
    {
        match RawStride::new(buffer, width, height, stride) {
            Some(s) => Some(Stride2DMut { s }),
            None => None,
        }
    }
}

impl<T: Copy, S: Size> Stride2DMut<Vec<T>, S> {
    /// The sub-rectangle selected by two intervals, as a fresh exclusive
    /// view: the selected elements are copied out packed, so the result
    /// aliases nothing. `None` exactly where either interval does not
    /// fit.
    pub fn slice_mut(&self, horizontal: Span<S>, vertical: Span<S>) -> (r: Option<
        Stride2DMut<Vec<T>, S>,
    >)
        requires
            self.wf(),
        ensures
            match r {
                Some(v) => {
                    &&& spec_derange(horizontal, self.spec_width()) is Some
                    &&& spec_derange(vertical, self.spec_height()) is Some
                    &&& {
                        let hd = spec_derange(horizontal, self.spec_width())->Some_0;
                        let vd = spec_derange(vertical, self.spec_height())->Some_0;
                        &&& v.wf()
                        &&& v.spec_width() == hd.1
                        &&& v.spec_height() == vd.1
                        &&& v@ == spec_window(self@, hd.0, hd.1, vd.0, vd.1)
                    }
                },
                None => spec_derange(horizontal, self.spec_width()) is None || spec_derange(
                    vertical,
                    self.spec_height(),
                ) is None,
            },
    {
        let cropped = match self.s.slice(horizontal, vertical) {
            Some(c) => c,
            None => {
                return None;
            },
        };
        Some(Stride2DMut { s: pack_owned(&cropped) })
    }

    /// Splits the view at column `columns` into two fresh exclusive
    /// views, copying each half's elements out packed so that the halves
    /// alias nothing; side by side, their rows recompose the parent's
    /// rows. `None` exactly where `columns` exceeds the width.
    pub fn split_at_col_mut(&self, columns: S) -> (r: Option<
        (Stride2DMut<Vec<T>, S>, Stride2DMut<Vec<T>, S>),
    >)
        requires
            self.wf(),
        ensures
            match r {
                Some(p) => {
                    &&& columns.as_int() <= self.spec_width()
                    &&& p.0.wf() && p.1.wf()
                    &&& p.0.spec_width() == columns.as_int()
                    &&& p.1.spec_width() == self.spec_width() - columns.as_int()
                    &&& p.0.spec_height() == self.spec_height()
                    &&& p.1.spec_height() == self.spec_height()
                    &&& p.0@ == spec_window(self@, 0, columns.as_int(), 0, self.spec_height())
                    &&& p.1@ == spec_window(
                        self@,
                        columns.as_int(),
                        self.spec_width() - columns.as_int(),
                        0,
                        self.spec_height(),
                    )
                    &&& forall|i: int| 0 <= i < self.spec_height() ==> p.0@[i] + p.1@[i] == self@[i]
                },
                None => columns.as_int() > self.spec_width(),
            },
    {
        let (a, b) = match self.s.split_at_col(columns) {
            Some(p) => p,
            None => {
                return None;
            },
        };
        Some((Stride2DMut { s: pack_owned(&a) }, Stride2DMut { s: pack_owned(&b) }))
    }

    /// Splits the view at row `rows` into two exclusive, non-overlapping
    /// halves, dividing the owned buffer between them: concatenating the
    /// halves' rows reproduces exactly the parent's rows. `None` exactly
    /// where `rows` exceeds the height.
    pub fn split_at_row_mut(self, rows: S) -> (r: Option<(Self, Self)>)
        requires
            self.wf(),
        ensures
            match r {
                Some(p) => {
                    &&& rows.as_int() <= self.spec_height()
                    &&& p.0.wf() && p.1.wf()
                    &&& p.0.spec_width() == self.spec_width()
                    &&& p.1.spec_width() == self.spec_width()
                    &&& p.0.spec_height() == rows.as_int()
                    &&& p.1.spec_height() == self.spec_height() - rows.as_int()
                    &&& p.0.spec_stride() == self.spec_stride()
                    &&& p.1.spec_stride() == self.spec_stride()
                    &&& p.0@ == self@.subrange(0, rows.as_int())
                    &&& p.1@ == self@.subrange(rows.as_int(), self.spec_height())
                    &&& p.0@ + p.1@ == self@
                },
                None => rows.as_int() > self.spec_height(),
            },
    {
        proof {
            self.s.width.lemma_bounds();
            self.s.height.lemma_bounds();
        }
        let width = self.s.width;
        let height = self.s.height;
        let stride = self.s.stride;
        let rest = match height.checked_limited_sub(rows) {
            Some(v) => v,
            None => {
                return None;
            },
        };
        proof {
            rows.lemma_bounds();
            rest.lemma_bounds();
        }
        let ghost orig = self@;
        let ghost old_len = self.s.data.cview().len() as int;
        let mut front = self.s.data;
        let off = if rest.usize() > 0 && width.usize() > 0 {
            proof {
                let gs = stride as int;
                let gh = height.as_int();
                let gn = rows.as_int();
                assert(gn * gs <= (gh - 1) * gs && 0 <= gn * gs) by (nonlinear_arith)
                    requires
                        0 <= gn <= gh - 1,
                        0 <= gs,
                ;
            }
            rows.usize() * stride
        } else {
            front.len()
        };
        let tail = front.split_off(off);
        let a = Stride2DMut { s: RawStride { width, height: rows, stride, data: front } };
        let b = Stride2DMut { s: RawStride { width, height: rest, stride, data: tail } };
        proof {
            let gw = width.as_int();
            let gh = height.as_int();
            let gs = stride as int;
            let gn = rows.as_int();
            let grest = rest.as_int();
            if gw > 0 && gn > 0 {
                assert((gn - 1) * gs + gw <= (gh - 1) * gs + gw) by (nonlinear_arith)
                    requires
                        gn <= gh,
                        0 <= gs,
                ;
                if grest > 0 {
                    assert((gn - 1) * gs + gw <= gn * gs) by (nonlinear_arith)
                        requires
                            gw <= gs,
                            1 <= gn,
                            0 <= gs,
                    ;
                }
            }
            if gw > 0 && grest > 0 {
                assert((gh - 1) * gs == gn * gs + (grest - 1) * gs && 0 <= gn * gs)
                    by (nonlinear_arith)
                    requires
                        gh == gn + grest,
                        0 <= gn,
                        0 <= gs,
                        1 <= grest,
                ;
            }
            assert forall|i: int| 0 <= i < gn implies a@[i] == orig.subrange(0, gn)[i] by {
                if gw > 0 {
                    assert(i * gs + gw <= (gn - 1) * gs + gw && 0 <= i * gs) by (nonlinear_arith)
                        requires
                            0 <= i <= gn - 1,
                            0 <= gs,
                    ;
                    if grest > 0 {
                        assert((gn - 1) * gs + gw <= gn * gs) by (nonlinear_arith)
                            requires
                                gw <= gs,
                                0 <= gn - 1,
                                0 <= gs,
                        ;
                    } else {
                        assert((gn - 1) * gs + gw <= (gh - 1) * gs + gw) by (nonlinear_arith)
                            requires
                                gn <= gh,
                                0 <= gs,
                        ;
                    }
                }
                assert(a@[i] =~= orig[i]);
            }
            assert(a@ =~= orig.subrange(0, gn));
            assert forall|i: int| 0 <= i < grest implies b@[i] == orig.subrange(gn, gh)[i] by {
                if gw > 0 {
                    assert(i * gs + gw <= (grest - 1) * gs + gw && 0 <= i * gs)
                        by (nonlinear_arith)
                        requires
                            0 <= i <= grest - 1,
                            0 <= gs,
                    ;
                    assert((gn + i) * gs == gn * gs + i * gs) by (nonlinear_arith);
                    assert(gn * gs + (grest - 1) * gs + gw == (gh - 1) * gs + gw)
                        by (nonlinear_arith)
                        requires
                            gn + grest == gh,
                    ;
                }
                assert(b@[i] =~= orig[gn + i]);
            }
            assert(b@ =~= orig.subrange(gn, gh));
            assert(a@ + b@ =~= orig);
        }
        Some((a, b))
    }
}

/// Copies the useful elements of a borrowed strided layout into a fresh,
/// owned, packed layout with the same rows.
fn pack_owned<T: Copy, S: Size>(src: &RawStride<&[T], S>) -> (r: RawStride<Vec<T>, S>)
    requires
        src.wf(),
    ensures
        r.wf(),
        r.width == src.width,
        r.height == src.height,
        r.stride as int == src.width.as_int(),
        r@ == src@,
{
    proof {
        src.width.lemma_bounds();
        src.height.lemma_bounds();
    }
    let v = src.to_packed_vec();
    let n = v.len();
    let r = RawStride { width: src.width, height: src.height, stride: src.width.usize(), data: v };
    proof {
        crate::inner::lemma_packed_stride_fits(
            n as int,
            src.width.as_int(),
            src.height.as_int(),
        );
    }
    r
}

impl<C: Container, S: Size> crate::Img for Slice2D<C, S> {
    type Item = C::Item;

    open spec fn rows_spec(&self) -> Seq<Seq<C::Item>> {
        self@
    }

    open spec fn img_wf(&self) -> bool {
        self.wf()
    }

    open spec fn width_spec(&self) -> int {
        self.spec_width()
    }

    fn width(&self) -> (r: usize) {
        Slice2D::width(self)
    }

    fn height(&self) -> (r: usize) {
        Slice2D::height(self)
    }

    fn area(&self) -> (r: usize) {
        proof {
            self.s.height.lemma_bounds();
        }
        Slice2D::area(self)
    }

    fn row(&self, row_index: usize) -> (r: Option<&[C::Item]>) {
        Slice2D::row(self, row_index)
    }
}

impl<C: Container, S: Size> crate::Img for Stride2D<C, S> {
    type Item = C::Item;

    open spec fn rows_spec(&self) -> Seq<Seq<C::Item>> {
        self@
    }

    open spec fn img_wf(&self) -> bool {
        self.wf()
    }

    open spec fn width_spec(&self) -> int {
        self.spec_width()
    }

    fn width(&self) -> (r: usize) {
        Stride2D::width(self)
    }

    fn height(&self) -> (r: usize) {
        Stride2D::height(self)
    }

    fn area(&self) -> (r: usize) {
        proof {
            self.s.height.lemma_bounds();
        }
        Stride2D::area(self)
    }

    fn row(&self, row_index: usize) -> (r: Option<&[C::Item]>) {
        Stride2D::row(self, row_index)
    }
}

impl<C: Container, S: Size> crate::Img for Slice2DMut<C, S> {
    type Item = C::Item;

    open spec fn rows_spec(&self) -> Seq<Seq<C::Item>> {
        self@
    }

    open spec fn img_wf(&self) -> bool {
        self.wf()
    }

    open spec fn width_spec(&self) -> int {
        self.spec_width()
    }

    fn width(&self) -> (r: usize) {
        Slice2DMut::width(self)
    }

    fn height(&self) -> (r: usize) {
        Slice2DMut::height(self)
    }

    fn area(&self) -> (r: usize) {
        proof {
            self.s.height.lemma_bounds();
        }
        Slice2DMut::area(self)
    }

    fn row(&self, row_index: usize) -> (r: Option<&[C::Item]>) {
        Slice2DMut::row(self, row_index)
    }
}

impl<C: Container, S: Size> crate::Img for Stride2DMut<C, S> {
    type Item = C::Item;

    open spec fn rows_spec(&self) -> Seq<Seq<C::Item>> {
        self@
    }

    open spec fn img_wf(&self) -> bool {
        self.wf()
    }

    open spec fn width_spec(&self) -> int {
        self.spec_width()
    }

    fn width(&self) -> (r: usize) {
        Stride2DMut::width(self)
    }

    fn height(&self) -> (r: usize) {
        Stride2DMut::height(self)
    }

    fn area(&self) -> (r: usize) {
        proof {
            self.s.height.lemma_bounds();
        }
        Stride2DMut::area(self)
    }

    fn row(&self, row_index: usize) -> (r: Option<&[C::Item]>) {
        Stride2DMut::row(self, row_index)
    }
}

impl<C: ContainerMut, S: Size> crate::ImgMut for Slice2DMut<C, S> {
    fn set(&mut self, x: usize, y: usize, v: C::Item) {
        proof {
            self.s.height.lemma_bounds();
        }
        Slice2DMut::set(self, x, y, v);
    }
}

impl<C: ContainerMut, S: Size> crate::ImgMut for Stride2DMut<C, S> {
    fn set(&mut self, x: usize, y: usize, v: C::Item) {
        proof {
            self.s.height.lemma_bounds();
        }
        Stride2DMut::set(self, x, y, v);
    }
}

/// Rows laid over a prefix of a buffer are the rows laid over the whole
/// buffer, as long as every row lies inside the prefix.
proof fn lemma_prefix_rows<T>(data: Seq<T>, w: int, h: int, s: int)
    requires
        0 <= w,
        0 <= h,
        s == w,
        w * h <= data.len(),
    ensures
        spec_rows(data.subrange(0, w * h), w, h, s) == spec_rows(data, w, h, s),
{
    let pre = data.subrange(0, w * h);
    assert forall|i: int| 0 <= i < h implies spec_rows(pre, w, h, s)[i] == spec_rows(
        data,
        w,
        h,
        s,
    )[i] by {
        if w > 0 {
            assert(i * s + w <= w * h) by (nonlinear_arith)
                requires
                    0 <= i <= h - 1,
                    0 < w,
                    s == w,
            ;
            assert(0 <= i * s) by (nonlinear_arith)
                requires
                    0 <= i,
                    0 <= s,
            ;
            assert(spec_rows(pre, w, h, s)[i] =~= spec_rows(data, w, h, s)[i]);
        } else {
            assert(spec_rows(pre, w, h, s)[i] =~= spec_rows(data, w, h, s)[i]);
        }
    }
    assert(spec_rows(pre, w, h, s) =~= spec_rows(data, w, h, s));
}

} // verus!
