//! The raw layout core: packed and strided rectangles over a container.
//!
//! All offset and length arithmetic of the library lives here. A layout
//! is a triple of geometry values laid over a [`Container`]; its meaning
//! is the sequence of its rows, and every operation is specified against
//! that sequence. Rows of a strided layout start `stride` elements apart,
//! and the elements of a row past `width` — the padding — are never part
//! of any row.

use vstd::prelude::*;
use crate::container::{Container, ContainerMut};
use crate::range::{derange, lemma_derange_in_bounds, spec_derange, Span};
use crate::size::Size;

verus! {

/// Row `i` of a strided layout over `data`: `width` elements starting
/// `i * stride` elements into the buffer.
pub open spec fn spec_row<T>(data: Seq<T>, i: int, width: int, stride: int) -> Seq<T> {
    if width == 0 {
        Seq::empty()
    } else {
        data.subrange(i * stride, i * stride + width)
    }
}

/// The rows of a strided layout, top row first.
pub open spec fn spec_rows<T>(data: Seq<T>, width: int, height: int, stride: int) -> Seq<
    Seq<T>,
> {
    Seq::new(height as nat, |i: int| spec_row(data, i, width, stride))
}

/// A rectangle cut out of a sequence of rows: `height` rows starting at
/// row `top`, each narrowed to `width` elements starting at column `left`.
pub open spec fn spec_window<T>(
    rows: Seq<Seq<T>>,
    left: int,
    width: int,
    top: int,
    height: int,
) -> Seq<Seq<T>> {
    Seq::new(height as nat, |i: int| rows[top + i].subrange(left, left + width))
}

/// Whether a buffer of `len` elements can hold `height` rows of `width`
/// elements spaced `stride` apart. The final row only needs to reach
/// `width`, not a full stride; empty regions need no room at all.
pub open spec fn stride_fits(len: int, width: int, height: int, stride: int) -> bool {
    width == 0 || height == 0 || (width <= stride && (height - 1) * stride + width <= len)
}

/// A packed rectangular layout: `height` rows of `width` elements, one
/// row immediately after the other.
pub struct RawSlice<C: Container, S: Size> {
    pub width: S,
    pub height: S,
    pub data: C,
}

/// A strided rectangular layout: `height` rows of `width` elements, each
/// row starting `stride` elements after the previous one. The elements
/// between the end of a row and the start of the next are padding and are
/// never read through the layout.
pub struct RawStride<C: Container, S: Size> {
    pub width: S,
    pub height: S,
    pub stride: usize,
    pub data: C,
}

impl<C: Container, S: Size> View for RawSlice<C, S> {
    type V = Seq<Seq<C::Item>>;

    open spec fn view(&self) -> Seq<Seq<C::Item>> {
        spec_rows(
            self.data.cview(),
            self.width.as_int(),
            self.height.as_int(),
            self.width.as_int(),
        )
    }
}

impl<C: Container, S: Size> View for RawStride<C, S> {
    type V = Seq<Seq<C::Item>>;

    open spec fn view(&self) -> Seq<Seq<C::Item>> {
        spec_rows(
            self.data.cview(),
            self.width.as_int(),
            self.height.as_int(),
            self.stride as int,
        )
    }
}

impl<C: Container, S: Size> RawSlice<C, S> {
    /// The geometry lies inside the container: `width * height` elements
    /// exist, and the dimensions fit the platform's index type.
    pub open spec fn wf(&self) -> bool {
        &&& self.width.as_int() <= usize::MAX as int
        &&& self.height.as_int() <= usize::MAX as int
        &&& self.width.as_int() * self.height.as_int() <= usize::MAX as int
        &&& self.width.as_int() * self.height.as_int() <= self.data.cview().len()
    }

    /// Creates a packed layout over a container, checking that the
    /// container holds at least `width * height` elements.
    pub fn new(container: C, width: S, height: S) -> (r: Option<Self>)
        ensures
            match r {
                Some(v) => {
                    &&& width.as_int() <= usize::MAX as int
                    &&& height.as_int() <= usize::MAX as int
                    &&& width.as_int() * height.as_int() <= container.cview().len()
                    &&& v.wf()
                    &&& v.width == width
                    &&& v.height == height
                    &&& v.data.cview() == container.cview()
                    &&& v@ == spec_rows(
                        container.cview(),
                        width.as_int(),
                        height.as_int(),
                        width.as_int(),
                    )
                },
                None => width.as_int() > usize::MAX as int || height.as_int() > usize::MAX as int
                    || width.as_int() * height.as_int() > container.cview().len(),
            },
    {
        let n = container.length();
        let w = match width.try_usize() {
            Some(w) => w,
            None => {
                return None;
            },
        };
        let h = match height.try_usize() {
            Some(h) => h,
            None => {
                return None;
            },
        };
        let required = match w.checked_mul(h) {
            Some(v) => v,
            None => {
                return None;
            },
        };
        if n < required {
            return None;
        }
        Some(RawSlice { width, height, data: container })
    }

    /// The number of elements of the layout, `width * height`.
    pub fn area(&self) -> (r: usize)
        requires
            self.wf(),
        ensures
            r == self.width.as_int() * self.height.as_int(),
    {
        proof {
            self.width.lemma_bounds();
            self.height.lemma_bounds();
        }
        self.width.usize() * self.height.usize()
    }

    /// Re-borrows the layout: the same geometry over the same memory,
    /// without consuming or copying the container.
    pub fn borrowed(&self) -> (r: RawSlice<&[C::Item], S>)
        requires
            self.wf(),
        ensures
            r.wf(),
            r.width == self.width,
            r.height == self.height,
            r@ == self@,
    {
        RawSlice { width: self.width, height: self.height, data: self.data.as_items() }
    }

    /// The same packed rectangle viewed as a strided layout whose stride
    /// equals its width: the general shape with no padding.
    pub fn as_stride(&self) -> (r: RawStride<&[C::Item], S>)
        requires
            self.wf(),
        ensures
            r.wf(),
            r.width == self.width,
            r.height == self.height,
            r.stride as int == self.width.as_int(),
            r@ == self@,
    {
        proof {
            self.width.lemma_bounds();
            self.height.lemma_bounds();
            lemma_packed_stride_fits(
                self.data.cview().len() as int,
                self.width.as_int(),
                self.height.as_int(),
            );
        }
        RawStride {
            width: self.width,
            height: self.height,
            stride: self.width.usize(),
            data: self.data.as_items(),
        }
    }

    /// Row `index` of the layout: `width` elements starting `index *
    /// width` elements into the buffer.
    pub fn row(&self, index: usize) -> (r: &[C::Item])
        requires
            self.wf(),
            index < self.height.as_int(),
        ensures
            r@ == self@[index as int],
    {
        proof {
            self.width.lemma_bounds();
            self.height.lemma_bounds();
        }
        let items = self.data.as_items();
        if self.width.usize() == 0 {
            let r = vstd::slice::slice_subrange(items, 0, 0);
            proof {
                assert(r@ =~= self@[index as int]);
            }
            r
        } else {
            proof {
                let gw = self.width.as_int();
                let gh = self.height.as_int();
                assert((index as int) * gw + gw <= gh * gw) by (nonlinear_arith)
                    requires
                        0 <= index as int <= gh - 1,
                        0 <= gw,
                ;
                assert(0 <= (index as int) * gw) by (nonlinear_arith)
                    requires
                        0 <= index as int,
                        0 <= gw,
                ;
                assert(gh * gw == gw * gh) by (nonlinear_arith);
            }
            let off = index * self.width.usize();
            let r = vstd::slice::slice_subrange(items, off, off + self.width.usize());
            proof {
                assert(r@ =~= self@[index as int]);
            }
            r
        }
    }

    /// The sub-rectangle selected by a horizontal and a vertical interval.
    ///
    /// A packed parent generally yields a strided result: removing leading
    /// or trailing columns leaves each row shorter than the parent's row
    /// pitch, so the result inherits the parent's width as its stride.
    /// Fails exactly when either interval does not fit its extent.
    pub fn slice(&self, horizontal: Span<S>, vertical: Span<S>) -> (r: Option<
        RawStride<&[C::Item], S>,
    >)
        requires
            self.wf(),
        ensures
            match r {
                Some(v) => {
                    &&& spec_derange(horizontal, self.width.as_int()) is Some
                    &&& spec_derange(vertical, self.height.as_int()) is Some
                    &&& {
                        let hd = spec_derange(horizontal, self.width.as_int())->Some_0;
                        let vd = spec_derange(vertical, self.height.as_int())->Some_0;
                        &&& v.wf()
                        &&& v.width.as_int() == hd.1
                        &&& v.height.as_int() == vd.1
                        &&& v.stride as int == self.width.as_int()
                        &&& v@ == spec_window(self@, hd.0, hd.1, vd.0, vd.1)
                    }
                },
                None => spec_derange(horizontal, self.width.as_int()) is None || spec_derange(
                    vertical,
                    self.height.as_int(),
                ) is None,
            },
    {
        let (top, hh) = match derange(vertical, self.height) {
            Some(p) => p,
            None => {
                return None;
            },
        };
        let (left, ww) = match derange(horizontal, self.width) {
            Some(p) => p,
            None => {
                return None;
            },
        };
        proof {
            lemma_derange_in_bounds(vertical, self.height.as_int());
            lemma_derange_in_bounds(horizontal, self.width.as_int());
            self.width.lemma_bounds();
            self.height.lemma_bounds();
            lemma_packed_stride_fits(
                self.data.cview().len() as int,
                self.width.as_int(),
                self.height.as_int(),
            );
        }
        Some(
            crop_items(
                self.data.as_items(),
                self.width.usize(),
                left,
                ww,
                top,
                hh,
                Ghost(self.width.as_int()),
                Ghost(self.height.as_int()),
            ),
        )
    }

    /// Splits the layout at column `columns`. Column splitting always
    /// yields the strided shape: each half's rows are narrower than the
    /// parent's row pitch, which both halves inherit as their stride.
    /// Side by side, the halves' rows recompose the parent's rows. Fails
    /// exactly when `columns` exceeds the width.
    pub fn split_at_col(&self, columns: S) -> (r: Option<
        (RawStride<&[C::Item], S>, RawStride<&[C::Item], S>),
    >)
        requires
            self.wf(),
        ensures
            match r {
                Some(p) => {
                    &&& columns.as_int() <= self.width.as_int()
                    &&& p.0.wf() && p.1.wf()
                    &&& p.0.width == columns && p.0.height == self.height
                    &&& p.1.width.as_int() == self.width.as_int() - columns.as_int()
                    &&& p.1.height == self.height
                    &&& p.0.stride as int == self.width.as_int()
                    &&& p.1.stride as int == self.width.as_int()
                    &&& p.0@ == spec_window(self@, 0, columns.as_int(), 0, self.height.as_int())
                    &&& p.1@ == spec_window(
                        self@,
                        columns.as_int(),
                        self.width.as_int() - columns.as_int(),
                        0,
                        self.height.as_int(),
                    )
                    &&& forall|i: int|
                        0 <= i < self.height.as_int() ==> p.0@[i] + p.1@[i] == self@[i]
                },
                None => columns.as_int() > self.width.as_int(),
            },
    {
        proof {
            self.width.lemma_bounds();
            self.height.lemma_bounds();
            lemma_packed_stride_fits(
                self.data.cview().len() as int,
                self.width.as_int(),
                self.height.as_int(),
            );
        }
        let rest = match self.width.checked_limited_sub(columns) {
            Some(v) => v,
            None => {
                return None;
            },
        };
        proof {
            columns.lemma_bounds();
            rest.lemma_bounds();
        }
        let stride = self.width.usize();
        let a = crop_items(
            self.data.as_items(),
            stride,
            S::zero(),
            columns,
            S::zero(),
            self.height,
            Ghost(self.width.as_int()),
            Ghost(self.height.as_int()),
        );
        let b = crop_items(
            self.data.as_items(),
            stride,
            columns,
            rest,
            S::zero(),
            self.height,
            Ghost(self.width.as_int()),
            Ghost(self.height.as_int()),
        );
        proof {
            assert forall|i: int| 0 <= i < self.height.as_int() implies a@[i] + b@[i]
                == self@[i] by {
                lemma_spec_row_len(
                    self.data.cview(),
                    self.width.as_int(),
                    self.height.as_int(),
                    self.width.as_int(),
                    i,
                );
                assert(a@[i] + b@[i] =~= self@[i]);
            }
        }
        Some((a, b))
    }

    /// Splits the layout at row `rows`: both halves stay packed, sharing
    /// the parent's memory without overlapping, and their concatenation
    /// reproduces exactly the rows of the parent. Fails exactly when
    /// `rows` exceeds the height.
    pub fn split_at_row(&self, rows: S) -> (r: Option<
        (RawSlice<&[C::Item], S>, RawSlice<&[C::Item], S>),
    >)
        requires
            self.wf(),
        ensures
            match r {
                Some(p) => {
                    &&& rows.as_int() <= self.height.as_int()
                    &&& p.0.wf() && p.1.wf()
                    &&& p.0.width == self.width && p.0.height == rows
                    &&& p.1.width == self.width
                    &&& p.1.height.as_int() == self.height.as_int() - rows.as_int()
                    &&& p.0@ == self@.subrange(0, rows.as_int())
                    &&& p.1@ == self@.subrange(rows.as_int(), self.height.as_int())
                    &&& p.0@ + p.1@ == self@
                },
                None => rows.as_int() > self.height.as_int(),
            },
    {
        proof {
            self.width.lemma_bounds();
            self.height.lemma_bounds();
        }
        let rest = match self.height.checked_limited_sub(rows) {
            Some(v) => v,
            None => {
                return None;
            },
        };
        proof {
            rows.lemma_bounds();
            rest.lemma_bounds();
            let gw = self.width.as_int();
            let gh = self.height.as_int();
            let gn = rows.as_int();
            assert(gn * gw <= gh * gw && 0 <= gn * gw) by (nonlinear_arith)
                requires
                    0 <= gn <= gh,
                    0 <= gw,
            ;
            assert(gh * gw == gw * gh) by (nonlinear_arith);
            assert(gw * gn == gn * gw) by (nonlinear_arith);
            assert((gh - gn) * gw == gh * gw - gn * gw) by (nonlinear_arith);
            assert(gw * (gh - gn) == (gh - gn) * gw) by (nonlinear_arith);
        }
        let items = self.data.as_items();
        let off = rows.usize() * self.width.usize();
        let end = self.height.usize() * self.width.usize();
        let a = RawSlice {
            width: self.width,
            height: rows,
            data: vstd::slice::slice_subrange(items, 0, off),
        };
        let b = RawSlice {
            width: self.width,
            height: rest,
            data: vstd::slice::slice_subrange(items, off, end),
        };
        proof {
            let gw = self.width.as_int();
            let gh = self.height.as_int();
            let gn = rows.as_int();
            let data = self.data.cview();
            assert forall|i: int| 0 <= i < gn implies a@[i] == self@.subrange(0, gn)[i] by {
                assert(i * gw + gw <= gn * gw) by (nonlinear_arith)
                    requires
                        0 <= i <= gn - 1,
                        0 <= gw,
                ;
                assert(0 <= i * gw) by (nonlinear_arith)
                    requires
                        0 <= i,
                        0 <= gw,
                ;
                assert(a@[i] =~= self@[i]);
            }
            assert(a@ =~= self@.subrange(0, gn));
            assert forall|i: int| 0 <= i < gh - gn implies b@[i] == self@.subrange(gn, gh)[i] by {
                assert(i * gw + gw <= (gh - gn) * gw) by (nonlinear_arith)
                    requires
                        0 <= i <= gh - gn - 1,
                        0 <= gw,
                ;
                assert(0 <= i * gw) by (nonlinear_arith)
                    requires
                        0 <= i,
                        0 <= gw,
                ;
                assert((gn + i) * gw == gn * gw + i * gw) by (nonlinear_arith);
                assert(b@[i] =~= self@[gn + i]);
            }
            assert(b@ =~= self@.subrange(gn, gh));
            assert(a@ + b@ =~= self@);
        }
        Some((a, b))
    }
}

impl<'s, T, S: Size> RawSlice<&'s [T], S> {
    /// Lays a packed rectangle over a borrowed slice, checking that the
    /// slice holds at least `width * height` elements; excess elements
    /// past the rectangle are ignored.
    pub fn from_slice(slice: &'s [T], width: S, height: S) -> (r: Option<Self>)
        ensures
            match r {
                Some(v) => {
                    &&& width.as_int() * height.as_int() <= slice@.len()
                    &&& v.wf()
                    &&& v.width == width
                    &&& v.height == height
                    &&& v@ == spec_rows(slice@, width.as_int(), height.as_int(), width.as_int())
                },
                None => width.as_int() > usize::MAX as int || height.as_int() > usize::MAX as int
                    || width.as_int() * height.as_int() > slice@.len(),
            },
    {
        Self::new(slice, width, height)
    }
}

impl<'s, T, S: Size> RawStride<&'s [T], S> {
    /// Lays a strided rectangle over a borrowed slice: rows are `stride`
    /// elements apart but only `width` elements wide. Checks that the
    /// stride is at least the width and that the slice holds every row —
    /// the final row only up to `width`, not a full stride.
    pub fn from_slice(slice: &'s [T], width: S, height: S, stride: S) -> (r: Option<Self>)
        ensures
            match r {
                Some(v) => {
                    &&& stride_fits(
                        slice@.len() as int,
                        width.as_int(),
                        height.as_int(),
                        stride.as_int(),
                    )
                    &&& v.wf()
                    &&& v.width == width
                    &&& v.height == height
                    &&& v.stride as int == stride.as_int()
                    &&& v@ == spec_rows(slice@, width.as_int(), height.as_int(), stride.as_int())
                },
                None => width.as_int() > usize::MAX as int || height.as_int() > usize::MAX as int
                    || stride.as_int() > usize::MAX as int || !stride_fits(
                    slice@.len() as int,
                    width.as_int(),
                    height.as_int(),
                    stride.as_int(),
                ),
            },
    {
        Self::new(slice, width, height, stride)
    }
}

impl<C: Container, S: Size> RawStride<C, S> {
    /// The geometry lies inside the container: every row of a non-empty
    /// layout fits, rows do not outrun the stride, and the dimensions fit
    /// the platform's index type.
    pub open spec fn wf(&self) -> bool {
        &&& self.width.as_int() <= usize::MAX as int
        &&& self.height.as_int() <= usize::MAX as int
        &&& (self.width.as_int() > 0 && self.height.as_int() > 0 ==> {
            &&& stride_fits(
                self.data.cview().len() as int,
                self.width.as_int(),
                self.height.as_int(),
                self.stride as int,
            )
            &&& (self.height.as_int() - 1) * self.stride + self.width.as_int() <= usize::MAX
                as int
        })
    }

    /// Creates a strided layout over a container, checking that rows are
    /// no wider than the stride and that the container holds every row —
    /// the final row only up to `width`, not a full stride.
    pub fn new(container: C, width: S, height: S, stride: S) -> (r: Option<Self>)
        ensures
            match r {
                Some(v) => {
                    &&& width.as_int() <= usize::MAX as int
                    &&& height.as_int() <= usize::MAX as int
                    &&& stride.as_int() <= usize::MAX as int
                    &&& stride_fits(
                        container.cview().len() as int,
                        width.as_int(),
                        height.as_int(),
                        stride.as_int(),
                    )
                    &&& v.wf()
                    &&& v.width == width
                    &&& v.height == height
                    &&& v.stride as int == stride.as_int()
                    &&& v.data.cview() == container.cview()
                    &&& v@ == spec_rows(
                        container.cview(),
                        width.as_int(),
                        height.as_int(),
                        stride.as_int(),
                    )
                },
                None => width.as_int() > usize::MAX as int || height.as_int() > usize::MAX as int
                    || stride.as_int() > usize::MAX as int || !stride_fits(
                    container.cview().len() as int,
                    width.as_int(),
                    height.as_int(),
                    stride.as_int(),
                ),
            },
    {
        let n = container.length();
        let w = match width.try_usize() {
            Some(w) => w,
            None => {
                return None;
            },
        };
        let h = match height.try_usize() {
            Some(h) => h,
            None => {
                return None;
            },
        };
        let st = match stride.try_usize() {
            Some(st) => st,
            None => {
                return None;
            },
        };
        if w == 0 || h == 0 {
            return Some(RawStride { width, height, stride: st, data: container });
        }
        if st < w {
            return None;
        }
        let rows_part = match (h - 1).checked_mul(st) {
            Some(v) => v,
            None => {
                return None;
            },
        };
        let required = match rows_part.checked_add(w) {
            Some(v) => v,
            None => {
                return None;
            },
        };
        if n < required {
            return None;
        }
        Some(RawStride { width, height, stride: st, data: container })
    }

    /// The number of useful elements of the layout, `width * height`.
    /// Padding does not count.
    pub fn area(&self) -> (r: usize)
        requires
            self.wf(),
        ensures
            r == self.width.as_int() * self.height.as_int(),
    {
        proof {
            self.width.lemma_bounds();
            self.height.lemma_bounds();
            if self.width.as_int() > 0 && self.height.as_int() > 0 {
                lemma_area_le_required(
                    self.width.as_int(),
                    self.height.as_int(),
                    self.stride as int,
                );
            }
        }
        self.width.usize() * self.height.usize()
    }

    /// Whether the layout has no padding: each row starts right after
    /// the previous one.
    pub fn is_contiguous(&self) -> (r: bool)
        requires
            self.wf(),
        ensures
            r <==> self.width.as_int() == self.stride as int,
    {
        proof {
            self.width.lemma_bounds();
        }
        self.width.usize() == self.stride
    }

    /// Re-borrows the layout: the same geometry over the same memory,
    /// without consuming or copying the container.
    pub fn borrowed(&self) -> (r: RawStride<&[C::Item], S>)
        requires
            self.wf(),
        ensures
            r.wf(),
            r.width == self.width,
            r.height == self.height,
            r.stride == self.stride,
            r@ == self@,
    {
        RawStride { width: self.width, height: self.height, stride: self.stride, data: self.data.as_items() }
    }

    /// The rectangle of `height` rows starting at row `top`, each `width`
    /// elements wide starting at column `left`, borrowed from the same
    /// memory. The cut-out never reaches outside the parent: its rows are
    /// sub-ranges of the parent's rows.
    /// The rectangle of `height` rows starting at row `top`, each `width`
    /// elements wide starting at column `left`, borrowed from the same
    /// memory. The cut-out never reaches outside the parent: its rows are
    /// sub-ranges of the parent's rows.
    pub fn crop(&self, left: S, width: S, top: S, height: S) -> (r: RawStride<&[C::Item], S>)
        requires
            self.wf(),
            left.as_int() + width.as_int() <= self.width.as_int(),
            top.as_int() + height.as_int() <= self.height.as_int(),
        ensures
            r.wf(),
            r.width == width,
            r.height == height,
            r.stride == self.stride,
            r@ == spec_window(self@, left.as_int(), width.as_int(), top.as_int(), height.as_int()),
    {
        proof {
            self.width.lemma_bounds();
            self.height.lemma_bounds();
        }
        crop_items(
            self.data.as_items(),
            self.stride,
            left,
            width,
            top,
            height,
            Ghost(self.width.as_int()),
            Ghost(self.height.as_int()),
        )
    }

    /// Row `index` of the layout: exactly `width` elements, borrowed from
    /// the row's start; the padding past them is never touched.
    pub fn row(&self, index: usize) -> (r: &[C::Item])
        requires
            self.wf(),
            index < self.height.as_int(),
        ensures
            r@ == self@[index as int],
    {
        proof {
            self.width.lemma_bounds();
            self.height.lemma_bounds();
        }
        let items = self.data.as_items();
        if self.width.usize() == 0 {
            let r = vstd::slice::slice_subrange(items, 0, 0);
            proof {
                assert(r@ =~= self@[index as int]);
            }
            r
        } else {
            proof {
                assert(index * (self.stride as int) + self.width.as_int() <= (self.height.as_int()
                    - 1) * (self.stride as int) + self.width.as_int()) by (nonlinear_arith)
                    requires
                        0 <= index as int <= self.height.as_int() - 1,
                        0 <= self.stride as int,
                ;
                assert(0 <= (index as int) * (self.stride as int)) by (nonlinear_arith)
                    requires
                        0 <= index as int,
                        0 <= self.stride as int,
                ;
            }
            let off = index * self.stride;
            let r = vstd::slice::slice_subrange(items, off, off + self.width.usize());
            proof {
                assert(r@ =~= self@[index as int]);
            }
            r
        }
    }

    /// The sub-rectangle selected by a horizontal and a vertical interval.
    ///
    /// Both intervals are resolved against the layout's extents; the
    /// result keeps the parent's stride and borrows the parent's memory.
    /// Fails exactly when either interval does not fit its extent.
    pub fn slice(&self, horizontal: Span<S>, vertical: Span<S>) -> (r: Option<
        RawStride<&[C::Item], S>,
    >)
        requires
            self.wf(),
        ensures
            match r {
                Some(v) => {
                    &&& spec_derange(horizontal, self.width.as_int()) is Some
                    &&& spec_derange(vertical, self.height.as_int()) is Some
                    &&& {
                        let hd = spec_derange(horizontal, self.width.as_int())->Some_0;
                        let vd = spec_derange(vertical, self.height.as_int())->Some_0;
                        &&& v.wf()
                        &&& v.width.as_int() == hd.1
                        &&& v.height.as_int() == vd.1
                        &&& v.stride == self.stride
                        &&& v@ == spec_window(self@, hd.0, hd.1, vd.0, vd.1)
                    }
                },
                None => spec_derange(horizontal, self.width.as_int()) is None || spec_derange(
                    vertical,
                    self.height.as_int(),
                ) is None,
            },
    {
        let (top, hh) = match derange(vertical, self.height) {
            Some(p) => p,
            None => {
                return None;
            },
        };
        let (left, ww) = match derange(horizontal, self.width) {
            Some(p) => p,
            None => {
                return None;
            },
        };
        proof {
            lemma_derange_in_bounds(vertical, self.height.as_int());
            lemma_derange_in_bounds(horizontal, self.width.as_int());
        }
        Some(self.crop(left, ww, top, hh))
    }

    /// Splits the layout at column `columns`: the first half holds the
    /// leading `columns` columns, the second the rest. Both halves keep
    /// the parent's stride and borrow the parent's memory without
    /// overlapping; side by side, their rows recompose the parent's rows.
    /// Fails exactly when `columns` exceeds the width. Zero-width halves
    /// are allowed.
    pub fn split_at_col(&self, columns: S) -> (r: Option<
        (RawStride<&[C::Item], S>, RawStride<&[C::Item], S>),
    >)
        requires
            self.wf(),
        ensures
            match r {
                Some(p) => {
                    &&& columns.as_int() <= self.width.as_int()
                    &&& p.0.wf() && p.1.wf()
                    &&& p.0.width == columns && p.0.height == self.height
                    &&& p.1.width.as_int() == self.width.as_int() - columns.as_int()
                    &&& p.1.height == self.height
                    &&& p.0.stride == self.stride && p.1.stride == self.stride
                    &&& p.0@ == spec_window(self@, 0, columns.as_int(), 0, self.height.as_int())
                    &&& p.1@ == spec_window(
                        self@,
                        columns.as_int(),
                        self.width.as_int() - columns.as_int(),
                        0,
                        self.height.as_int(),
                    )
                    &&& forall|i: int|
                        0 <= i < self.height.as_int() ==> p.0@[i] + p.1@[i] == self@[i]
                },
                None => columns.as_int() > self.width.as_int(),
            },
    {
        let rest = match self.width.checked_limited_sub(columns) {
            Some(v) => v,
            None => {
                return None;
            },
        };
        proof {
            columns.lemma_bounds();
            rest.lemma_bounds();
            self.height.lemma_bounds();
        }
        let a = self.crop(S::zero(), columns, S::zero(), self.height);
        let b = self.crop(columns, rest, S::zero(), self.height);
        proof {
            assert forall|i: int| 0 <= i < self.height.as_int() implies a@[i] + b@[i]
                == self@[i] by {
                lemma_row_len(*self, i);
                assert(a@[i] + b@[i] =~= self@[i]);
            }
        }
        Some((a, b))
    }

    /// Splits the layout at row `rows`: the first half holds the leading
    /// `rows` rows, the second the rest. Both halves keep the parent's
    /// stride and borrow the parent's memory without overlapping; their
    /// concatenation reproduces exactly the rows of the parent. Fails
    /// exactly when `rows` exceeds the height. Zero-height halves are
    /// allowed.
    pub fn split_at_row(&self, rows: S) -> (r: Option<
        (RawStride<&[C::Item], S>, RawStride<&[C::Item], S>),
    >)
        requires
            self.wf(),
        ensures
            match r {
                Some(p) => {
                    &&& rows.as_int() <= self.height.as_int()
                    &&& p.0.wf() && p.1.wf()
                    &&& p.0.width == self.width && p.0.height == rows
                    &&& p.1.width == self.width
                    &&& p.1.height.as_int() == self.height.as_int() - rows.as_int()
                    &&& p.0.stride == self.stride && p.1.stride == self.stride
                    &&& p.0@ == self@.subrange(0, rows.as_int())
                    &&& p.1@ == self@.subrange(rows.as_int(), self.height.as_int())
                    &&& p.0@ + p.1@ == self@
                },
                None => rows.as_int() > self.height.as_int(),
            },
    {
        let rest = match self.height.checked_limited_sub(rows) {
            Some(v) => v,
            None => {
                return None;
            },
        };
        proof {
            rows.lemma_bounds();
            rest.lemma_bounds();
            self.width.lemma_bounds();
        }
        let a = self.crop(S::zero(), self.width, S::zero(), rows);
        let b = self.crop(S::zero(), self.width, rows, rest);
        proof {
            assert forall|i: int| 0 <= i < rows.as_int() implies a@[i] == self@.subrange(
                0,
                rows.as_int(),
            )[i] by {
                lemma_row_len(*self, i);
                assert(a@[i] =~= self@[i]);
            }
            assert(a@ =~= self@.subrange(0, rows.as_int()));
            assert forall|i: int| 0 <= i < rest.as_int() implies b@[i] == self@.subrange(
                rows.as_int(),
                self.height.as_int(),
            )[i] by {
                lemma_row_len(*self, rows.as_int() + i);
                assert(b@[i] =~= self@[rows.as_int() + i]);
            }
            assert(b@ =~= self@.subrange(rows.as_int(), self.height.as_int()));
            assert(a@ + b@ =~= self@);
        }
        Some((a, b))
    }

    /// Copies the useful elements into one packed vector, row by row:
    /// laying the result out packed reproduces exactly this layout's
    /// rows. Padding is not copied.
    pub fn to_packed_vec(&self) -> (out: Vec<C::Item>) where C::Item: Copy
        requires
            self.wf(),
        ensures
            out@.len() == self.width.as_int() * self.height.as_int(),
            spec_rows(out@, self.width.as_int(), self.height.as_int(), self.width.as_int())
                == self@,
    {
        proof {
            self.width.lemma_bounds();
            self.height.lemma_bounds();
        }
        let ghost gw = self.width.as_int();
        let ghost gh = self.height.as_int();
        let w = self.width.usize();
        let h = self.height.usize();
        let mut out: Vec<C::Item> = Vec::new();
        let mut i: usize = 0;
        while i < h
            invariant
                self.wf(),
                i <= h,
                w as int == gw,
                h as int == gh,
                gw == self.width.as_int(),
                gh == self.height.as_int(),
                out@.len() == i as int * gw,
                forall|j: int|
                    0 <= j < i as int ==> #[trigger] spec_row(out@, j, gw, gw) == self@[j],
            decreases h - i,
        {
            let row = self.row(i);
            let ghost pre = out@;
            let mut row_vec = vstd::slice::slice_to_vec(row);
            out.append(&mut row_vec);
            proof {
                lemma_row_len(*self, i as int);
                assert((i + 1) as int * gw == i as int * gw + gw) by (nonlinear_arith);
                assert forall|j: int| 0 <= j < i as int + 1 implies #[trigger] spec_row(
                    out@,
                    j,
                    gw,
                    gw,
                ) == self@[j] by {
                    lemma_row_len(*self, j);
                    if j < i as int {
                        assert(j * gw + gw <= i as int * gw && 0 <= j * gw) by (nonlinear_arith)
                            requires
                                0 <= j < i as int,
                                0 <= gw,
                        ;
                        assert(spec_row(out@, j, gw, gw) =~= spec_row(pre, j, gw, gw));
                    } else {
                        assert(j * gw == i as int * gw && 0 <= j * gw) by (nonlinear_arith)
                            requires
                                j == i as int,
                                0 <= i as int,
                                0 <= gw,
                        ;
                        assert(out@ == pre + row@);
                        assert forall|t: int| 0 <= t < gw implies spec_row(out@, j, gw, gw)[t]
                            == row@[t] by {
                            assert((pre + row@)[pre.len() + t] == row@[t]);
                            assert(spec_row(out@, j, gw, gw)[t] == out@[j * gw + t]);
                        }
                        assert(spec_row(out@, j, gw, gw) =~= self@[j]);
                    }
                }
            }
            i = i + 1;
        }
        proof {
            assert(spec_rows(out@, gw, gh, gw) =~= self@);
            assert(i as int * gw == gw * gh) by (nonlinear_arith)
                requires
                    i as int == gh,
            ;
        }
        out
    }

    /// The distance between row starts, in bytes.
    pub fn stride_bytes(&self) -> (r: usize)
        requires
            self.stride * vstd::layout::size_of::<C::Item>() <= usize::MAX as int,
        ensures
            r as int == self.stride * vstd::layout::size_of::<C::Item>(),
    {
        self.stride * core::mem::size_of::<C::Item>()
    }
}

/// The rectangle of `height` rows starting at row `top`, each `width`
/// elements wide starting at column `left`, cut out of the strided layout
/// that `items` holds with the given parent geometry.
fn crop_items<'t, T, S: Size>(
    items: &'t [T],
    stride: usize,
    left: S,
    width: S,
    top: S,
    height: S,
    parent_w: Ghost<int>,
    parent_h: Ghost<int>,
) -> (r: RawStride<&'t [T], S>)
    requires
        0 <= parent_w@ <= usize::MAX as int,
        0 <= parent_h@ <= usize::MAX as int,
        left.as_int() + width.as_int() <= parent_w@,
        top.as_int() + height.as_int() <= parent_h@,
        parent_w@ > 0 && parent_h@ > 0 ==> stride_fits(
            items@.len() as int,
            parent_w@,
            parent_h@,
            stride as int,
        ) && (parent_h@ - 1) * stride + parent_w@ <= usize::MAX as int,
    ensures
        r.wf(),
        r.width == width,
        r.height == height,
        r.stride == stride,
        r@ == spec_window(
            spec_rows(items@, parent_w@, parent_h@, stride as int),
            left.as_int(),
            width.as_int(),
            top.as_int(),
            height.as_int(),
        ),
{
    proof {
        left.lemma_bounds();
        width.lemma_bounds();
        top.lemma_bounds();
        height.lemma_bounds();
    }
    let ghost gl = left.as_int();
    let ghost gw = width.as_int();
    let ghost gt = top.as_int();
    let ghost gh = height.as_int();
    let ghost gbig_w = parent_w@;
    let ghost gbig_h = parent_h@;
    let ghost gs = stride as int;
    let ghost data = items@;
    let ghost rows = spec_rows(items@, gbig_w, gbig_h, gs);
    if width.usize() == 0 || height.usize() == 0 {
        let empty = vstd::slice::slice_subrange(items, 0, 0);
        let r = RawStride { width, height, stride, data: empty };
        proof {
            assert forall|i: int| 0 <= i < gh implies r@[i] == spec_window(
                rows,
                gl,
                gw,
                gt,
                gh,
            )[i] by {
                if gbig_w > 0 {
                    assert((gt + i) * gs + gbig_w <= (gbig_h - 1) * gs + gbig_w)
                        by (nonlinear_arith)
                        requires
                            0 <= gt + i <= gbig_h - 1,
                            0 <= gs,
                    ;
                }
                assert(r@[i] =~= spec_window(rows, gl, gw, gt, gh)[i]);
            }
            assert(r@ =~= spec_window(rows, gl, gw, gt, gh));
        }
        r
    } else {
        proof {
            assert(gt * gs + gl + (gh - 1) * gs + gw <= (gbig_h - 1) * gs + gbig_w)
                by (nonlinear_arith)
                requires
                    0 <= gt,
                    0 <= gl,
                    0 < gw,
                    0 < gh,
                    gt + gh <= gbig_h,
                    gl + gw <= gbig_w,
                    gbig_w <= gs,
            ;
        }
        let off = top.usize() * stride + left.usize();
        let end = off + (height.usize() - 1) * stride + width.usize();
        let sub = vstd::slice::slice_subrange(items, off, end);
        let r = RawStride { width, height, stride, data: sub };
        proof {
            assert forall|i: int| 0 <= i < gh implies r@[i] == spec_window(
                rows,
                gl,
                gw,
                gt,
                gh,
            )[i] by {
                assert((gt + i) * gs == gt * gs + i * gs) by (nonlinear_arith);
                assert(i * gs + gw <= (gh - 1) * gs + gw) by (nonlinear_arith)
                    requires
                        0 <= i <= gh - 1,
                        0 <= gs,
                ;
                assert(0 <= i * gs) by (nonlinear_arith)
                    requires
                        0 <= i,
                        0 <= gs,
                ;
                assert((gt + i) * gs + gbig_w <= (gbig_h - 1) * gs + gbig_w) by (nonlinear_arith)
                    requires
                        0 <= gt + i <= gbig_h - 1,
                        0 <= gs,
                ;
                let lhs = r@[i];
                let rhs = spec_window(rows, gl, gw, gt, gh)[i];
                assert(lhs.len() == gw);
                assert(rhs.len() == gw);
                assert forall|j: int| 0 <= j < gw implies lhs[j] == rhs[j] by {
                    assert(lhs[j] == sub@[i * gs + j]);
                    assert(sub@[i * gs + j] == data[gt * gs + gl + i * gs + j]);
                    assert(rhs[j] == rows[gt + i][gl + j]);
                    assert(rows[gt + i][gl + j] == data[(gt + i) * gs + gl + j]);
                }
                assert(lhs =~= rhs);
            }
            assert(r@ =~= spec_window(rows, gl, gw, gt, gh));
        }
        r
    }
}

impl<C: ContainerMut, S: Size> RawStride<C, S> {
    /// Overwrites the element at column `x` of row `y`. Only that one
    /// element changes: every other row, every other element of row `y`,
    /// and all the padding stay exactly as they were.
    pub fn set(&mut self, x: usize, y: usize, v: C::Item)
        requires
            old(self).wf(),
            x < old(self).width.as_int(),
            y < old(self).height.as_int(),
        ensures
            final(self).wf(),
            final(self).width == old(self).width,
            final(self).height == old(self).height,
            final(self).stride == old(self).stride,
            final(self).data.cview() == old(self).data.cview().update(
                y * old(self).stride + x,
                v,
            ),
            final(self)@ == old(self)@.update(y as int, old(self)@[y as int].update(x as int, v)),
    {
        proof {
            self.width.lemma_bounds();
            self.height.lemma_bounds();
            let gw = self.width.as_int();
            let gh = self.height.as_int();
            let gs = self.stride as int;
            assert((y as int) * gs + x < (gh - 1) * gs + gw) by (nonlinear_arith)
                requires
                    0 <= y as int <= gh - 1,
                    0 <= x < gw,
                    gw <= gs,
                    0 <= gs,
            ;
            assert(0 <= (y as int) * gs) by (nonlinear_arith)
                requires
                    0 <= y as int,
                    0 <= gs,
            ;
        }
        let idx = y * self.stride + x;
        self.data.set_item(idx, v);
        proof {
            let gw = self.width.as_int();
            let gh = self.height.as_int();
            let gs = self.stride as int;
            let gy = y as int;
            let gx = x as int;
            let old_data = old(self).data.cview();
            let target = old(self)@.update(gy, old(self)@[gy].update(gx, v));
            assert forall|j: int| 0 <= j < gh implies self@[j] == target[j] by {
                lemma_spec_row_len(old_data, gw, gh, gs, j);
                assert(j * gs + gw <= (gh - 1) * gs + gw && 0 <= j * gs) by (nonlinear_arith)
                    requires
                        0 <= j <= gh - 1,
                        0 <= gs,
                ;
                if j == gy {
                    assert forall|t: int| 0 <= t < gw implies self@[j][t] == target[j][t] by {
                        assert(self@[j][t] == self.data.cview()[j * gs + t]);
                    }
                    assert(self@[j] =~= target[j]);
                } else {
                    assert forall|t: int| 0 <= t < gw implies self@[j][t] == target[j][t] by {
                        if j < gy {
                            assert(j * gs + t < gy * gs + gx || gx > t - (gy - j) * gs)
                                by (nonlinear_arith)
                                requires
                                    j < gy,
                                    0 <= t < gw,
                                    0 <= gx,
                                    gw <= gs,
                                    0 <= j,
                            ;
                            assert(j * gs + t != gy * gs + gx) by (nonlinear_arith)
                                requires
                                    j + 1 <= gy,
                                    0 <= t < gw,
                                    0 <= gx,
                                    gw <= gs,
                                    0 <= j,
                                    0 <= gs,
                            ;
                        } else {
                            assert(j * gs + t != gy * gs + gx) by (nonlinear_arith)
                                requires
                                    gy + 1 <= j,
                                    0 <= t,
                                    0 <= gx < gw,
                                    gw <= gs,
                                    0 <= gy,
                                    0 <= gs,
                            ;
                        }
                        assert(self@[j][t] == self.data.cview()[j * gs + t]);
                    }
                    assert(self@[j] =~= target[j]);
                }
            }
            assert(self@ =~= target);
        }
    }
}

impl<C: ContainerMut, S: Size> RawSlice<C, S> {
    /// Overwrites the element at column `x` of row `y`, at packed index
    /// `y * width + x`. Only that one element changes.
    pub fn set(&mut self, x: usize, y: usize, v: C::Item)
        requires
            old(self).wf(),
            x < old(self).width.as_int(),
            y < old(self).height.as_int(),
        ensures
            final(self).wf(),
            final(self).width == old(self).width,
            final(self).height == old(self).height,
            final(self).data.cview() == old(self).data.cview().update(
                y * old(self).width.as_int() + x,
                v,
            ),
            final(self)@ == old(self)@.update(y as int, old(self)@[y as int].update(x as int, v)),
    {
        proof {
            self.width.lemma_bounds();
            self.height.lemma_bounds();
            let gw = self.width.as_int();
            let gh = self.height.as_int();
            assert((y as int) * gw + x < gh * gw && 0 <= (y as int) * gw) by (nonlinear_arith)
                requires
                    0 <= y as int <= gh - 1,
                    0 <= x < gw,
            ;
            assert(gh * gw == gw * gh) by (nonlinear_arith);
        }
        let idx = y * self.width.usize() + x;
        self.data.set_item(idx, v);
        proof {
            let gw = self.width.as_int();
            let gh = self.height.as_int();
            let gy = y as int;
            let gx = x as int;
            let old_data = old(self).data.cview();
            let target = old(self)@.update(gy, old(self)@[gy].update(gx, v));
            assert forall|j: int| 0 <= j < gh implies self@[j] == target[j] by {
                assert(j * gw + gw <= gh * gw && 0 <= j * gw) by (nonlinear_arith)
                    requires
                        0 <= j <= gh - 1,
                        0 <= gw,
                ;
                assert(gh * gw == gw * gh) by (nonlinear_arith);
                assert((gh - 1) * gw + gw == gh * gw) by (nonlinear_arith);
                lemma_spec_row_len(old_data, gw, gh, gw, j);
                if j == gy {
                    assert forall|t: int| 0 <= t < gw implies self@[j][t] == target[j][t] by {
                        assert(self@[j][t] == self.data.cview()[j * gw + t]);
                    }
                    assert(self@[j] =~= target[j]);
                } else {
                    assert forall|t: int| 0 <= t < gw implies self@[j][t] == target[j][t] by {
                        if j < gy {
                            assert(j * gw + t != gy * gw + gx) by (nonlinear_arith)
                                requires
                                    j + 1 <= gy,
                                    0 <= t < gw,
                                    0 <= gx,
                                    0 <= j,
                            ;
                        } else {
                            assert(j * gw + t != gy * gw + gx) by (nonlinear_arith)
                                requires
                                    gy + 1 <= j,
                                    0 <= t,
                                    0 <= gx < gw,
                                    0 <= gy,
                            ;
                        }
                        assert(self@[j][t] == self.data.cview()[j * gw + t]);
                    }
                    assert(self@[j] =~= target[j]);
                }
            }
            assert(self@ =~= target);
        }
    }
}

/// The least number of bytes a buffer must hold for `height` rows of
/// `width` elements of `elem` bytes each, rows spaced `stride_bytes`
/// apart: a full stride for every row but the last, which only needs to
/// reach the end of its `width` elements. Empty geometry needs no room at
/// all; a stride shorter than a row, or a size the platform cannot
/// address, is rejected.
pub open spec fn spec_buffer_len_bytes(
    width: int,
    height: int,
    stride_bytes: int,
    elem: int,
) -> Option<int> {
    if width == 0 || height == 0 {
        Some(0)
    } else if width > usize::MAX as int || height > usize::MAX as int {
        None
    } else if width * elem > usize::MAX as int {
        None
    } else if stride_bytes < width * elem {
        None
    } else if stride_bytes * height > usize::MAX as int {
        None
    } else {
        Some(stride_bytes * (height - 1) + width * elem)
    }
}

/// Minimum required buffer size in bytes for the given dimensions, with
/// rows of `T` spaced `stride_bytes` apart.
pub fn buffer_len_bytes<T, S: Size>(width: S, height: S, stride_bytes: usize) -> (r: Option<
    usize,
>)
    ensures
        match r {
            Some(v) => spec_buffer_len_bytes(
                width.as_int(),
                height.as_int(),
                stride_bytes as int,
                vstd::layout::size_of::<T>() as int,
            ) == Some(v as int),
            None => spec_buffer_len_bytes(
                width.as_int(),
                height.as_int(),
                stride_bytes as int,
                vstd::layout::size_of::<T>() as int,
            ) is None,
        },
{
    proof {
        width.lemma_bounds();
        height.lemma_bounds();
    }
    let zero = S::zero();
    if width.le(zero) || height.le(zero) {
        return Some(0);
    }
    let elem = core::mem::size_of::<T>();
    let ghost ge = vstd::layout::size_of::<T>() as int;
    let w = match width.try_usize() {
        Some(v) => v,
        None => {
            return None;
        },
    };
    let h = match height.try_usize() {
        Some(v) => v,
        None => {
            return None;
        },
    };
    let wb = match w.checked_mul(elem) {
        Some(v) => v,
        None => {
            return None;
        },
    };
    if stride_bytes < wb {
        return None;
    }
    let sh = match stride_bytes.checked_mul(h) {
        Some(v) => v,
        None => {
            return None;
        },
    };
    proof {
        let gs = stride_bytes as int;
        let gh = h as int;
        assert(gs * (gh - 1) + gs == gs * gh) by (nonlinear_arith);
        assert(0 <= gs * (gh - 1)) by (nonlinear_arith)
            requires
                0 <= gs,
                1 <= gh,
        ;
    }
    Some(stride_bytes * (h - 1) + wb)
}

/// Every row of a strided layout that fits its buffer holds exactly
/// `width` elements.
pub proof fn lemma_spec_row_len<T>(data: Seq<T>, w: int, h: int, s: int, i: int)
    requires
        0 <= w,
        0 <= i < h,
        0 <= s,
        w > 0 ==> (h - 1) * s + w <= data.len(),
    ensures
        spec_rows(data, w, h, s)[i].len() == w,
{
    if w > 0 {
        assert(i * s + w <= (h - 1) * s + w) by (nonlinear_arith)
            requires
                0 <= i <= h - 1,
                0 <= s,
        ;
        assert(0 <= i * s) by (nonlinear_arith)
            requires
                0 <= i,
                0 <= s,
        ;
    }
}

/// Every row of a well-formed strided layout holds exactly `width`
/// elements: iteration and row access never see more or fewer, whatever
/// the stride leaves between rows.
pub proof fn lemma_row_len<C: Container, S: Size>(r: RawStride<C, S>, i: int)
    requires
        r.wf(),
        0 <= i < r.height.as_int(),
    ensures
        r@[i].len() == r.width.as_int(),
{
    r.width.lemma_bounds();
    r.height.lemma_bounds();
    lemma_spec_row_len(
        r.data.cview(),
        r.width.as_int(),
        r.height.as_int(),
        r.stride as int,
        i,
    );
}

/// Row and element counts are consistent with the geometry: a
/// well-formed strided layout has exactly `height` rows of exactly
/// `width` elements each, so iterating its rows yields `height` slices
/// and iterating its elements yields `width * height` values.
pub proof fn lemma_region_dimensions<C: Container, S: Size>(r: RawStride<C, S>)
    requires
        r.wf(),
    ensures
        r@.len() == r.height.as_int(),
        forall|i: int| 0 <= i < r@.len() ==> (#[trigger] r@[i]).len() == r.width.as_int(),
{
    r.height.lemma_bounds();
    assert forall|i: int| 0 <= i < r@.len() implies (#[trigger] r@[i]).len()
        == r.width.as_int() by {
        lemma_row_len(r, i);
    }
}

/// A packed layout of `width * height` elements, read as a strided layout
/// whose stride equals its width, fits its buffer.
pub proof fn lemma_packed_stride_fits(len: int, w: int, h: int)
    requires
        0 <= w,
        0 <= h,
        w * h <= len,
        w * h <= usize::MAX as int,
    ensures
        w > 0 && h > 0 ==> stride_fits(len, w, h, w) && (h - 1) * w + w <= usize::MAX as int,
{
    if w > 0 && h > 0 {
        assert((h - 1) * w + w == h * w) by (nonlinear_arith);
        assert(h * w == w * h) by (nonlinear_arith);
    }
}

/// Sub-slicing composes: cutting a window out of a window is the one
/// window whose offsets are the sums of the two cuts' offsets. Slicing
/// is offset-additive, so two successive `slice` calls see exactly the
/// elements one combined `slice` call sees.
pub proof fn lemma_window_compose<T>(
    rows: Seq<Seq<T>>,
    l1: int,
    w1: int,
    t1: int,
    h1: int,
    l2: int,
    w2: int,
    t2: int,
    h2: int,
)
    requires
        0 <= l1,
        0 <= t1,
        0 <= l2,
        0 <= t2,
        0 <= w2,
        0 <= h2,
        l2 + w2 <= w1,
        t2 + h2 <= h1,
        t1 + h1 <= rows.len(),
        forall|i: int| 0 <= i < rows.len() ==> l1 + w1 <= #[trigger] rows[i].len(),
    ensures
        spec_window(spec_window(rows, l1, w1, t1, h1), l2, w2, t2, h2) == spec_window(
            rows,
            l1 + l2,
            w2,
            t1 + t2,
            h2,
        ),
{
    let once = spec_window(rows, l1, w1, t1, h1);
    let twice = spec_window(once, l2, w2, t2, h2);
    let direct = spec_window(rows, l1 + l2, w2, t1 + t2, h2);
    assert forall|i: int| 0 <= i < h2 implies twice[i] == direct[i] by {
        let row = rows[t1 + t2 + i];
        assert(once[t2 + i] == row.subrange(l1, l1 + w1));
        assert forall|j: int| 0 <= j < w2 implies twice[i][j] == direct[i][j] by {
            assert(twice[i][j] == row.subrange(l1, l1 + w1)[l2 + j]);
            assert(row.subrange(l1, l1 + w1)[l2 + j] == row[l1 + l2 + j]);
            assert(direct[i][j] == row[l1 + l2 + j]);
        }
        assert(twice[i] =~= direct[i]);
    }
    assert(twice =~= direct);
}

/// The useful area of a strided layout never exceeds the room its rows
/// need: `width * height` is at most `(height - 1) * stride + width`.
pub proof fn lemma_area_le_required(width: int, height: int, stride: int)
    requires
        0 < width <= stride,
        0 < height,
    ensures
        width * height <= (height - 1) * stride + width,
{
    assert(width * height <= (height - 1) * stride + width) by (nonlinear_arith)
        requires
            0 < width <= stride,
            0 < height,
    ;
}

} // verus!
