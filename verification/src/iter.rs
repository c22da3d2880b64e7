//! Iteration over strided layouts: rows and elements.
//!
//! Both iterators walk a borrowed buffer by index, skipping the padding
//! between the useful end of one row and the start of the next. Their
//! contracts are stated against the sequence of rows or elements not yet
//! yielded, so a caller knows exactly which values come out and in what
//! order.

use vstd::prelude::*;
use vstd::arithmetic::div_mod::{lemma_fundamental_div_mod, lemma_fundamental_div_mod_converse};
use crate::inner::{spec_row, spec_rows};

verus! {

/// The elements of a strided layout in row-major order, padding skipped:
/// element `k` lives `k / width` rows down, `k % width` columns in.
pub open spec fn flat_items<T>(data: Seq<T>, width: int, height: int, stride: int) -> Seq<T> {
    Seq::new((width * height) as nat, |k: int| data[(k / width) * stride + k % width])
}

/// Iterator over the rows of a strided layout, from either end.
///
/// Each yielded row is a borrowed slice of exactly `width` elements;
/// padding between rows is stepped over, never yielded.
pub struct StrideRowsIter<'s, T> {
    data: &'s [T],
    width: usize,
    stride: usize,
    /// The next row to yield from the front.
    front: usize,
    /// One past the next row to yield from the back.
    back: usize,
}

impl<'s, T> StrideRowsIter<'s, T> {
    /// The geometry of the rows still to be yielded lies inside the
    /// buffer.
    pub closed spec fn wf(&self) -> bool {
        &&& self.front <= self.back
        &&& (self.width > 0 && self.back > 0 ==> (self.back - 1) * self.stride + self.width
            <= self.data@.len())
    }

    /// The rows not yet yielded, in order.
    pub closed spec fn remaining(&self) -> Seq<Seq<T>> {
        Seq::new(
            (self.back - self.front) as nat,
            |i: int| spec_row(self.data@, self.front + i, self.width as int, self.stride as int),
        )
    }

    /// Starts iteration over all `height` rows of the layout that `data`
    /// holds with the given geometry.
    pub fn new(data: &'s [T], width: usize, height: usize, stride: usize) -> (it: Self)
        requires
            width > 0 && height > 0 ==> (height - 1) * stride + width <= data@.len(),
        ensures
            it.wf(),
            it.remaining() == spec_rows(data@, width as int, height as int, stride as int),
    {
        let it = StrideRowsIter { data, width, stride, front: 0, back: height };
        proof {
            assert(it.remaining() =~= spec_rows(
                data@,
                width as int,
                height as int,
                stride as int,
            ));
        }
        it
    }

    /// How many rows are left.
    pub fn len(&self) -> (r: usize)
        requires
            self.wf(),
        ensures
            r == self.remaining().len(),
    {
        self.back - self.front
    }

    /// Yields the first remaining row, or `None` once all rows are out.
    pub fn next(&mut self) -> (r: Option<&'s [T]>)
        requires
            old(self).wf(),
        ensures
            final(self).wf(),
            match r {
                Some(row) => {
                    &&& old(self).remaining().len() > 0
                    &&& row@ == old(self).remaining()[0]
                    &&& final(self).remaining() == old(self).remaining().drop_first()
                },
                None => old(self).remaining().len() == 0 && *final(self) == *old(self),
            },
    {
        if self.front >= self.back {
            return None;
        }
        let row = row_at(self.data, self.front, self.width, self.stride, Ghost(self.back as int));
        self.front = self.front + 1;
        proof {
            assert(self.remaining() =~= old(self).remaining().drop_first());
        }
        Some(row)
    }

    /// Yields the last remaining row, or `None` once all rows are out.
    /// Walking the rows backwards yields exactly the reverse of walking
    /// them forwards.
    pub fn next_back(&mut self) -> (r: Option<&'s [T]>)
        requires
            old(self).wf(),
        ensures
            final(self).wf(),
            match r {
                Some(row) => {
                    &&& old(self).remaining().len() > 0
                    &&& row@ == old(self).remaining().last()
                    &&& final(self).remaining() == old(self).remaining().drop_last()
                },
                None => old(self).remaining().len() == 0 && *final(self) == *old(self),
            },
    {
        if self.front >= self.back {
            return None;
        }
        let row = row_at(
            self.data,
            self.back - 1,
            self.width,
            self.stride,
            Ghost(self.back as int),
        );
        self.back = self.back - 1;
        proof {
            if self.width > 0 && self.back > 0 {
                assert((self.back - 1) * self.stride <= self.back * self.stride)
                    by (nonlinear_arith)
                    requires
                        0 <= self.back - 1,
                        0 <= self.stride,
                ;
            }
            assert(self.remaining() =~= old(self).remaining().drop_last());
        }
        Some(row)
    }

    /// Skips `n` rows, then yields the next one: row `n` of what was
    /// remaining. `None` where fewer than `n + 1` rows are left.
    pub fn nth(&mut self, n: usize) -> (r: Option<&'s [T]>)
        requires
            old(self).wf(),
        ensures
            final(self).wf(),
            match r {
                Some(row) => {
                    &&& n < old(self).remaining().len()
                    &&& row@ == old(self).remaining()[n as int]
                    &&& final(self).remaining() == old(self).remaining().skip(n as int + 1)
                },
                None => {
                    &&& n >= old(self).remaining().len()
                    &&& final(self).remaining().len() == 0
                },
            },
    {
        if n >= self.back - self.front {
            self.front = self.back;
            proof {
                assert(self.remaining() =~= Seq::<Seq<T>>::empty());
            }
            return None;
        }
        self.front = self.front + n;
        let r = self.next();
        proof {
            assert(self.remaining() =~= old(self).remaining().skip(n as int + 1));
        }
        r
    }

    /// How many rows are left; consumes the iterator.
    pub fn count(self) -> (r: usize)
        requires
            self.wf(),
        ensures
            r == self.remaining().len(),
    {
        self.back - self.front
    }
}

/// The mathematical rows a vector of row vectors holds.
pub open spec fn rows_of_vecs<T>(vs: Seq<Vec<T>>) -> Seq<Seq<T>> {
    vs.map_values(|v: Vec<T>| v@)
}

impl<'s, T: Copy> StrideRowsIter<'s, T> {
    /// Collects the remaining rows, front to back.
    pub fn collect_rows(self) -> (out: Vec<Vec<T>>)
        requires
            self.wf(),
        ensures
            rows_of_vecs(out@) == self.remaining(),
    {
        let ghost orig = self.remaining();
        let mut it = self;
        let mut out: Vec<Vec<T>> = Vec::new();
        proof {
            assert(rows_of_vecs(out@) + it.remaining() =~= orig);
        }
        while it.len() > 0
            invariant
                it.wf(),
                rows_of_vecs(out@) + it.remaining() == orig,
            decreases it.remaining().len(),
        {
            let ghost pre_dv = rows_of_vecs(out@);
            match it.next() {
                Some(row) => {
                    out.push(vstd::slice::slice_to_vec(row));
                    proof {
                        assert(rows_of_vecs(out@) =~= pre_dv.push(row@));
                        assert(rows_of_vecs(out@) + it.remaining() =~= orig);
                    }
                },
                None => {
                    proof {
                        assert(false);
                    }
                },
            }
        }
        proof {
            assert(rows_of_vecs(out@) =~= orig);
        }
        out
    }

    /// Collects the remaining rows, back to front: exactly the reverse
    /// of collecting them front to back.
    pub fn collect_rows_rev(self) -> (out: Vec<Vec<T>>)
        requires
            self.wf(),
        ensures
            rows_of_vecs(out@) == self.remaining().reverse(),
    {
        let ghost orig = self.remaining();
        let mut it = self;
        let mut out: Vec<Vec<T>> = Vec::new();
        proof {
            assert(rows_of_vecs(out@) + it.remaining().reverse() =~= orig.reverse());
        }
        while it.len() > 0
            invariant
                it.wf(),
                rows_of_vecs(out@) + it.remaining().reverse() == orig.reverse(),
            decreases it.remaining().len(),
        {
            let ghost pre_dv = rows_of_vecs(out@);
            match it.next_back() {
                Some(row) => {
                    out.push(vstd::slice::slice_to_vec(row));
                    proof {
                        assert(rows_of_vecs(out@) =~= pre_dv.push(row@));
                        assert(rows_of_vecs(out@) + it.remaining().reverse() =~= orig.reverse());
                    }
                },
                None => {
                    proof {
                        assert(false);
                    }
                },
            }
        }
        proof {
            assert(rows_of_vecs(out@) =~= orig.reverse());
        }
        out
    }
}

/// Row `index` of the strided layout over `data`, for rows known to lie
/// within the first `bound` rows of the buffer.
fn row_at<'s, T>(
    data: &'s [T],
    index: usize,
    width: usize,
    stride: usize,
    bound: Ghost<int>,
) -> (r: &'s [T])
    requires
        index < bound@,
        width > 0 ==> (bound@ - 1) * stride + width <= data@.len(),
    ensures
        r@ == spec_row(data@, index as int, width as int, stride as int),
{
    let n = data.len();
    if width == 0 {
        let r = vstd::slice::slice_subrange(data, 0, 0);
        proof {
            assert(r@ =~= spec_row(data@, index as int, width as int, stride as int));
        }
        r
    } else {
        proof {
            assert((index as int) * stride + width <= (bound@ - 1) * stride + width)
                by (nonlinear_arith)
                requires
                    0 <= index as int <= bound@ - 1,
                    0 <= stride as int,
            ;
            assert(0 <= (index as int) * stride) by (nonlinear_arith)
                requires
                    0 <= index as int,
                    0 <= stride as int,
            ;
        }
        let off = index * stride;
        vstd::slice::slice_subrange(data, off, off + width)
    }
}

/// Iterator over the elements of a strided layout, row-major, padding
/// skipped.
pub struct StrideItemIter<'s, T> {
    data: &'s [T],
    width: usize,
    height: usize,
    stride: usize,
    /// Column of the next element.
    x: usize,
    /// Row of the next element; `height` once exhausted.
    y: usize,
}

impl<'s, T> StrideItemIter<'s, T> {
    /// The cursor points at a real element, or sits one past the last
    /// row, and the layout lies inside the buffer.
    pub closed spec fn wf(&self) -> bool {
        &&& self.y <= self.height
        &&& (self.y < self.height ==> self.x < self.width)
        &&& (self.y == self.height ==> self.x == 0)
        &&& (self.width > 0 && self.height > 0 ==> self.width <= self.stride && (self.height - 1)
            * self.stride + self.width <= self.data@.len())
        &&& (self.width == 0 || self.height == 0 ==> self.y == self.height)
    }

    /// The position of the cursor in row-major element order.
    pub closed spec fn pos(&self) -> int {
        self.y * self.width + self.x
    }

    /// The elements not yet yielded, in row-major order.
    pub closed spec fn remaining(&self) -> Seq<T> {
        flat_items(
            self.data@,
            self.width as int,
            self.height as int,
            self.stride as int,
        ).skip(self.pos())
    }

    /// Starts iteration over all `width * height` elements of the layout
    /// that `data` holds with the given geometry.
    pub fn new(data: &'s [T], width: usize, height: usize, stride: usize) -> (it: Self)
        requires
            width > 0 && height > 0 ==> width <= stride && (height - 1) * stride + width
                <= data@.len(),
        ensures
            it.wf(),
            it.remaining() == flat_items(
                data@,
                width as int,
                height as int,
                stride as int,
            ),
    {
        let y = if width == 0 {
            height
        } else {
            0
        };
        let it = StrideItemIter { data, width, height, stride, x: 0, y };
        proof {
            if width == 0 || height == 0 {
                assert(width as int * height as int == 0) by (nonlinear_arith)
                    requires
                        width as int == 0 || height as int == 0,
                ;
            }
            assert(it.pos() == 0) by (nonlinear_arith)
                requires
                    it.x == 0,
                    it.width as int == 0 || it.y == 0,
            ;
            assert(it.remaining() =~= flat_items(
                data@,
                width as int,
                height as int,
                stride as int,
            ));
        }
        it
    }

    /// How many elements are left: the elements still to come in the
    /// current row, plus `width` for every full row after it.
    pub fn len(&self) -> (r: usize)
        requires
            self.wf(),
        ensures
            r == self.remaining().len(),
    {
        let n = self.data.len();
        proof {
            lemma_pos_in_area(self.width as int, self.height as int, self.x as int, self.y as int);
            lemma_area_bounded(
                self.width as int,
                self.height as int,
                self.stride as int,
                self.data@.len() as int,
            );
            assert((self.height - self.y) * self.width == self.height * self.width - self.y
                * self.width) by (nonlinear_arith);
            assert((self.height - self.y) * self.width <= self.height * self.width)
                by (nonlinear_arith)
                requires
                    0 <= self.y,
                    0 <= self.width,
                    self.y <= self.height,
            ;
            if self.y < self.height {
                assert(self.width <= (self.height - self.y) * self.width) by (nonlinear_arith)
                    requires
                        1 <= self.height - self.y,
                        0 <= self.width,
                ;
            }
            assert(self.width as int * self.height as int == self.height as int
                * self.width as int) by (nonlinear_arith);
        }
        (self.height - self.y) * self.width - self.x
    }

    /// Yields the next element, or `None` once every useful element is
    /// out. Advances along the current row, then jumps over the padding
    /// to the start of the next row.
    pub fn next(&mut self) -> (r: Option<&'s T>)
        requires
            old(self).wf(),
        ensures
            final(self).wf(),
            match r {
                Some(v) => {
                    &&& old(self).remaining().len() > 0
                    &&& *v == old(self).remaining()[0]
                    &&& final(self).remaining() == old(self).remaining().drop_first()
                },
                None => old(self).remaining().len() == 0 && *final(self) == *old(self),
            },
    {
        proof {
            lemma_pos_in_area(self.width as int, self.height as int, self.x as int, self.y as int);
            assert(self.width as int * self.height as int == self.height as int
                * self.width as int) by (nonlinear_arith);
        }
        if self.y >= self.height {
            return None;
        }
        proof {
            let gw = self.width as int;
            let gh = self.height as int;
            let gs = self.stride as int;
            let gy = self.y as int;
            let gx = self.x as int;
            assert(gy * gs + gx < (gh - 1) * gs + gw) by (nonlinear_arith)
                requires
                    0 <= gy <= gh - 1,
                    0 <= gx < gw,
                    gw <= gs,
                    0 < gw,
            ;
            assert(0 <= gy * gs) by (nonlinear_arith)
                requires
                    0 <= gy,
                    0 <= gs,
            ;
            lemma_fundamental_div_mod_converse(gy * gw + gx, gw, gy, gx);
            assert(self.pos() < gw * gh) by (nonlinear_arith)
                requires
                    self.pos() == gy * gw + gx,
                    0 <= gy < gh,
                    0 <= gx < gw,
            ;
        }
        let n = self.data.len();
        let off = self.y * self.stride + self.x;
        let v = vstd::slice::slice_index_get(self.data, off);
        let ghost pre = *self;
        if self.x + 1 < self.width {
            self.x = self.x + 1;
        } else {
            self.x = 0;
            self.y = self.y + 1;
        }
        proof {
            if self.y == pre.y {
                assert(self.pos() == pre.pos() + 1);
            } else {
                assert((pre.y + 1) * pre.width == pre.y * pre.width + pre.width)
                    by (nonlinear_arith);
                assert(self.pos() == pre.pos() + 1);
            }
            lemma_pos_in_area(self.width as int, self.height as int, self.x as int, self.y as int);
            assert(self.remaining() =~= pre.remaining().drop_first());
        }
        Some(v)
    }
}

/// Reverse iteration is symmetric: reversing what backwards iteration
/// yields gives back exactly what forwards iteration yields, for any
/// remaining rows.
pub proof fn lemma_reverse_iteration_symmetry<'s, T>(it: StrideRowsIter<'s, T>)
    ensures
        it.remaining().reverse().reverse() == it.remaining(),
{
    let s = it.remaining();
    assert forall|i: int| 0 <= i < s.len() implies s.reverse().reverse()[i] == s[i] by {
    }
    assert(s.reverse().reverse() =~= s);
}

/// The cursor position of a well-placed element iterator never passes the
/// element count.
proof fn lemma_pos_in_area(width: int, height: int, x: int, y: int)
    requires
        0 <= x,
        0 <= y <= height,
        y < height ==> x < width,
        y == height ==> x == 0,
        0 <= width,
    ensures
        y * width + x <= width * height,
        y < height ==> y * width + x < width * height,
{
    if y < height {
        assert(y * width + x < width * height) by (nonlinear_arith)
            requires
                0 <= x < width,
                0 <= y < height,
        ;
    } else {
        assert(y * width == width * height) by (nonlinear_arith)
            requires
                y == height,
        ;
    }
}

/// Every element the flat, row-major order yields is an element of a
/// row: element `k` is column `k % width` of row `k / width`. Nothing
/// between the useful end of a row and the start of the next — the
/// padding — is ever yielded.
pub proof fn lemma_items_match_rows<T>(data: Seq<T>, w: int, h: int, s: int)
    requires
        0 <= w,
        0 <= s,
        0 <= h,
        w > 0 && h > 0 ==> w <= s && (h - 1) * s + w <= data.len(),
    ensures
        forall|k: int|
            0 <= k < w * h ==> #[trigger] flat_items(data, w, h, s)[k] == spec_rows(
                data,
                w,
                h,
                s,
            )[k / w][k % w],
{
    assert forall|k: int| 0 <= k < w * h implies #[trigger] flat_items(data, w, h, s)[k]
        == spec_rows(data, w, h, s)[k / w][k % w] by {
        assert(w > 0 && h > 0) by (nonlinear_arith)
            requires
                0 <= k < w * h,
                0 <= w,
                0 <= h,
        ;
        lemma_fundamental_div_mod(k, w);
        vstd::arithmetic::div_mod::lemma_mod_bound(k, w);
        let q = k / w;
        let r = k % w;
        assert(0 <= q < h) by (nonlinear_arith)
            requires
                k == w * q + r,
                0 <= r < w,
                k < w * h,
                0 <= k,
                0 < w,
        ;
        assert(q * s + w <= (h - 1) * s + w && 0 <= q * s) by (nonlinear_arith)
            requires
                0 <= q <= h - 1,
                0 <= s,
        ;
        assert(spec_rows(data, w, h, s)[q][r] == data[q * s + r]);
    }
}

/// The flat, row-major order never reads from the padding: the buffer
/// offset it reads for element `k` lies within the first `width`
/// elements past its row's start, never in the `stride - width` padding
/// elements behind them.
pub proof fn lemma_pad_never_read<T>(data: Seq<T>, w: int, h: int, s: int, k: int)
    requires
        0 < w <= s,
        0 <= k < w * h,
    ensures
        flat_items(data, w, h, s)[k] == data[(k / w) * s + k % w],
        0 <= k % w < w,
{
    lemma_fundamental_div_mod(k, w);
    vstd::arithmetic::div_mod::lemma_mod_bound(k, w);
}

/// The element count of a layout that fits its buffer is bounded by the
/// buffer's length.
proof fn lemma_area_bounded(width: int, height: int, stride: int, len: int)
    requires
        width > 0 && height > 0 ==> width <= stride && (height - 1) * stride + width <= len,
        0 <= width,
        0 <= height,
        0 <= stride,
    ensures
        width * height <= len || width == 0 || height == 0,
{
    if width > 0 && height > 0 {
        assert(width * height <= (height - 1) * stride + width) by (nonlinear_arith)
            requires
                0 < width <= stride,
                0 < height,
        ;
    }
}

} // verus!
