use imgref2::range::{derange, Span};
use imgref2::size::Size;
use imgref2::{BufRef, Img, ImgMut, Slice2D, Slice2DMut, Stride2D, Stride2DMut};

fn collect_items<C: imgref2::Container<Item = u8>, S: Size>(img: &Stride2D<C, S>) -> Vec<u8> {
    let mut out = Vec::new();
    let mut it = img.iter();
    while let Some(v) = it.next() {
        out.push(*v);
    }
    out
}

fn collect_rows<C: imgref2::Container<Item = u8>, S: Size>(img: &Stride2D<C, S>) -> Vec<Vec<u8>> {
    let mut out = Vec::new();
    let mut it = img.rows();
    while let Some(r) = it.next() {
        out.push(r.to_vec());
    }
    out
}

#[test]
fn strided_rows_and_sub_slice() {
    let buf = [1u8, 2, 3, 4, 5, 6, 7, 8, 9];
    let img = Stride2D::<&[u8], usize>::from_slice(&buf, 3, 2, 4).unwrap();
    assert_eq!(img.row(0), Some(&[1u8, 2, 3][..]));
    assert_eq!(img.row(1), Some(&[5u8, 6, 7][..]));
    assert_eq!(img.row(2), None);

    let sub = img.slice(Span::range(1, 3), Span::range(1, 2)).unwrap();
    assert_eq!(sub.width(), 2);
    assert_eq!(sub.height(), 1);
    assert_eq!(sub.row(0), Some(&[6u8, 7][..]));
}

#[test]
fn stride_shorter_than_width_is_rejected() {
    let buf = [1u8, 2, 3, 4];
    assert!(Stride2D::<&[u8], usize>::from_slice(&buf, 2, 1, 1).is_none());
    assert!(Stride2DMut::<Vec<u8>, usize>::from_slice_mut(buf.to_vec(), 2, 1, 1).is_none());
}

#[test]
fn empty_regions_allow_empty_operations() {
    let buf: [u8; 0] = [];
    let zero_h = Stride2D::<&[u8], usize>::from_slice(&buf, 3, 0, 3).unwrap();
    assert_eq!(zero_h.height(), 0);
    assert!(zero_h.slice(Span::range(0, 0), Span::range(0, 0)).is_some());
    assert!(zero_h.split_at_row(0).is_some());
    assert!(zero_h.split_at_col(0).is_some());
    assert!(zero_h.rows().next().is_none());
    assert!(zero_h.iter().next().is_none());

    let zero_w = Stride2D::<&[u8], usize>::from_slice(&buf, 0, 4, 0).unwrap();
    assert_eq!(zero_w.width(), 0);
    assert_eq!(zero_w.height(), 4);
    assert!(zero_w.slice(Span::range(0, 0), Span::range(0, 4)).is_some());
    let (a, b) = zero_w.split_at_col(0).unwrap();
    assert_eq!(a.width(), 0);
    assert_eq!(b.width(), 0);
    assert_eq!(zero_w.rows().count(), 4);
    assert!(zero_w.iter().next().is_none());
    assert_eq!(zero_w.iter().len(), 0);
}

#[test]
fn padding_sentinel_never_yielded() {
    // Pad bytes hold the sentinel 99; no iterator may ever yield it.
    let buf = [1u8, 2, 3, 99, 4, 5, 6, 99];
    let img = Stride2D::<&[u8], usize>::from_slice(&buf, 3, 2, 4).unwrap();
    let items = collect_items(&img);
    assert_eq!(items, vec![1, 2, 3, 4, 5, 6]);
    assert!(!items.contains(&99));
    for row in collect_rows(&img) {
        assert!(!row.contains(&99));
    }
}

#[test]
fn counts_match_geometry() {
    let buf = [7u8; 23];
    let img = Stride2D::<&[u8], usize>::from_slice(&buf, 4, 5, 4).unwrap();
    assert_eq!(img.rows().count(), 5);
    assert_eq!(img.iter().len(), 20);
    assert_eq!(collect_items(&img).len(), 4 * 5);
    assert_eq!(img.area(), 20);
}

#[test]
fn split_rows_round_trip() {
    let buf = [1u8, 2, 3, 0, 4, 5, 6, 0, 7, 8, 9, 0, 10, 11, 12];
    let img = Stride2D::<&[u8], usize>::from_slice(&buf, 3, 4, 4).unwrap();
    for n in 0..5usize {
        let (a, b) = img.split_at_row(n).unwrap();
        let mut rows = collect_rows_borrowed(&a);
        rows.extend(collect_rows_borrowed(&b));
        assert_eq!(rows, collect_rows(&img));
    }
    assert!(img.split_at_row(5).is_none());
}

fn collect_rows_borrowed<S: Size>(img: &Stride2D<&[u8], S>) -> Vec<Vec<u8>> {
    let mut out = Vec::new();
    let mut it = img.rows();
    while let Some(r) = it.next() {
        out.push(r.to_vec());
    }
    out
}

#[test]
fn split_cols_recompose_rows() {
    let buf = [1u8, 2, 3, 4, 5, 6, 7, 8, 9, 10, 11, 12];
    let img = Stride2D::<&[u8], usize>::from_slice(&buf, 4, 3, 4).unwrap();
    let (a, b) = img.split_at_col(1).unwrap();
    let left = collect_rows_borrowed(&a);
    let right = collect_rows_borrowed(&b);
    let whole = collect_rows(&img);
    for i in 0..3 {
        let mut joined = left[i].clone();
        joined.extend(&right[i]);
        assert_eq!(joined, whole[i]);
    }
}

#[test]
fn slice_composition_is_offset_additive() {
    let buf: Vec<u8> = (0..36).collect();
    let img = Stride2D::<&[u8], usize>::from_slice(&buf, 6, 6, 6).unwrap();
    let once = img.slice(Span::range(1, 5), Span::range(2, 6)).unwrap();
    let twice = once.slice(Span::range(1, 3), Span::range(1, 3)).unwrap();
    let direct = img.slice(Span::range(2, 4), Span::range(3, 5)).unwrap();
    assert_eq!(collect_rows_borrowed(&twice), collect_rows_borrowed(&direct));
}

#[test]
fn reverse_iteration_symmetry() {
    let buf = [1u8, 2, 0, 3, 4, 0, 5, 6];
    let img = Stride2D::<&[u8], usize>::from_slice(&buf, 2, 3, 3).unwrap();
    let forward = img.rows().collect_rows();
    let mut backward = img.rows().collect_rows_rev();
    backward.reverse();
    assert_eq!(forward, backward);
    assert_eq!(forward, vec![vec![1, 2], vec![3, 4], vec![5, 6]]);

    let mut it = img.rows();
    assert_eq!(it.next_back().unwrap(), &[5u8, 6][..]);
    assert_eq!(it.next().unwrap(), &[1u8, 2][..]);
    assert_eq!(it.next_back().unwrap(), &[3u8, 4][..]);
    assert!(it.next().is_none());
}

#[test]
fn range_resolution_boundaries() {
    let max = 10u32;
    assert_eq!(derange(Span::range(0, max), max), Some((0, 10)));
    assert_eq!(derange(Span::range(max, max), max), Some((10, 0)));
    assert_eq!(derange(Span::range_inclusive(0, max - 1), max), Some((0, 10)));
    assert_eq!(derange(Span::range_inclusive(0, max), max), None);
}

#[test]
fn packed_views_and_buf() {
    let buf = [1u8, 2, 3, 4, 5, 6, 7];
    let img = Slice2D::<&[u8], usize>::from_slice(&buf, 3, 2).unwrap();
    assert_eq!(img.width(), 3);
    assert_eq!(img.height(), 2);
    assert_eq!(img.area(), 6);
    assert!(img.is_contiguous());
    assert_eq!(img.buf(), &[1u8, 2, 3, 4, 5, 6][..]);
    assert_eq!(img.row(1), Some(&[4u8, 5, 6][..]));
    assert_eq!(img.row_unchecked(0), &[1u8, 2, 3][..]);

    let st = img.as_stride();
    assert!(st.is_contiguous());
    assert_eq!(st.row(0), Some(&[1u8, 2, 3][..]));

    assert!(Slice2D::<&[u8], usize>::from_slice(&buf, 4, 2).is_none());

    let auto = Slice2D::<&[u8], usize>::new_ref(&buf, 2);
    assert_eq!(auto.height(), 3);
    assert_eq!(auto.row(2), Some(&[5u8, 6][..]));
    let auto8 = Slice2D::<&[u8], u8>::new_ref(&buf, 2u8);
    assert_eq!(auto8.height(), 3);
    let empty = Slice2D::<&[u8], usize>::new_ref(&buf, 0);
    assert_eq!(empty.height(), 0);
}

#[test]
fn packed_split_and_slice() {
    let buf = [1u8, 2, 3, 4, 5, 6];
    let img = Slice2D::<&[u8], usize>::from_slice(&buf, 3, 2).unwrap();
    let (top, bottom) = img.split_at_row(1).unwrap();
    assert_eq!(top.row(0), Some(&[1u8, 2, 3][..]));
    assert_eq!(bottom.row(0), Some(&[4u8, 5, 6][..]));

    let (l, r) = img.split_at_col(2).unwrap();
    assert_eq!(l.row(1), Some(&[4u8, 5][..]));
    assert_eq!(r.row(1), Some(&[6u8][..]));

    let sub = img.slice(Span::range(1, 3), Span::range(0, 2)).unwrap();
    assert_eq!(sub.row(0), Some(&[2u8, 3][..]));
    assert_eq!(sub.row(1), Some(&[5u8, 6][..]));
    assert!(!sub.is_contiguous());

    assert!(img.slice(Span::range(0, 4), Span::range(0, 2)).is_none());
    assert!(img.slice(Span::range(0, 3), Span::range(1, 3)).is_none());
    assert!(img.split_at_col(4).is_none());
    assert!(img.split_at_row(3).is_none());
}

#[test]
fn contiguous_buf_borrowed_or_copied() {
    let buf = [1u8, 2, 3, 4, 5, 6, 9];
    let packed = Stride2D::<&[u8], usize>::from_slice(&buf, 3, 2, 3).unwrap();
    let (b, w, h) = packed.to_contiguous_buf();
    assert_eq!((w, h), (3, 2));
    match b {
        BufRef::Borrowed(s) => assert_eq!(s, &[1u8, 2, 3, 4, 5, 6][..]),
        BufRef::Owned(_) => panic!("contiguous view must borrow"),
    }

    let padded = Stride2D::<&[u8], usize>::from_slice(&buf, 2, 2, 3).unwrap();
    let (b, w, h) = padded.to_contiguous_buf();
    assert_eq!((w, h), (2, 2));
    match b {
        BufRef::Owned(v) => assert_eq!(v, vec![1u8, 2, 4, 5]),
        BufRef::Borrowed(_) => panic!("padded view must copy"),
    }
}

#[test]
fn owned_views_and_writes() {
    let img = Slice2DMut::<Vec<u8>, usize>::from_slice_mut(vec![1, 2, 3, 4], 2, 2).unwrap();
    let mut img = img;
    img.set(1, 0, 9);
    assert_eq!(img.row(0), Some(&[1u8, 9][..]));
    assert_eq!(img.row(1), Some(&[3u8, 4][..]));
    assert_eq!(img.into_inner(), vec![1, 9, 3, 4]);

    let mut st =
        Stride2DMut::<Vec<u8>, usize>::from_slice_mut(vec![1, 2, 99, 3, 4], 2, 2, 3).unwrap();
    st.set(0, 1, 7);
    assert_eq!(st.row(0), Some(&[1u8, 2][..]));
    assert_eq!(st.row(1), Some(&[7u8, 4][..]));
    // the padding byte is untouched by writes
    assert_eq!(st.into_inner(), vec![1, 2, 99, 7, 4]);
}

#[test]
fn owned_split_rows_divides_buffer() {
    let img = Slice2DMut::<Vec<u8>, usize>::from_slice_mut(vec![1, 2, 3, 4, 5, 6], 2, 3).unwrap();
    let (a, b) = img.split_at_row_mut(1).unwrap();
    assert_eq!(a.row(0), Some(&[1u8, 2][..]));
    assert_eq!(b.row(0), Some(&[3u8, 4][..]));
    assert_eq!(b.row(1), Some(&[5u8, 6][..]));
    assert_eq!(a.into_inner(), vec![1, 2]);
    assert_eq!(b.into_inner(), vec![3, 4, 5, 6]);

    let st = Stride2DMut::<Vec<u8>, usize>::from_slice_mut(vec![1, 2, 0, 3, 4], 2, 2, 3).unwrap();
    let (c, d) = st.split_at_row_mut(1).unwrap();
    assert_eq!(c.row(0), Some(&[1u8, 2][..]));
    assert_eq!(d.row(0), Some(&[3u8, 4][..]));
}

#[test]
fn owned_copying_derivations() {
    let st = Stride2DMut::<Vec<u8>, usize>::from_slice_mut(
        vec![1, 2, 3, 0, 4, 5, 6, 0, 7, 8, 9],
        3,
        3,
        4,
    )
    .unwrap();
    let sub = st.slice_mut(Span::range(1, 3), Span::range(1, 3)).unwrap();
    assert_eq!(sub.row(0), Some(&[5u8, 6][..]));
    assert_eq!(sub.row(1), Some(&[8u8, 9][..]));

    let (l, r) = st.split_at_col_mut(1).unwrap();
    assert_eq!(l.row(2), Some(&[7u8][..]));
    assert_eq!(r.row(2), Some(&[8u8, 9][..]));

    let img = Slice2DMut::<Vec<u8>, usize>::from_slice_mut(vec![1, 2, 3, 4], 2, 2).unwrap();
    let sub = img.slice_mut(Span::range(1, 2), Span::range(0, 2)).unwrap();
    assert_eq!(sub.row(0), Some(&[2u8][..]));
    assert_eq!(sub.row(1), Some(&[4u8][..]));
    let (l, r) = img.split_at_col_mut(1).unwrap();
    assert_eq!(l.row(0), Some(&[1u8][..]));
    assert_eq!(r.row(0), Some(&[2u8][..]));

    let auto = Slice2DMut::<Vec<u8>, usize>::new_mut(vec![1, 2, 3, 4, 5], 2);
    assert_eq!(auto.height(), 2);
}

#[test]
fn size_arithmetic() {
    assert_eq!(250u8.checked_limited_add(10), None);
    assert_eq!(250u8.checked_limited_add(5), Some(255));
    assert_eq!(3u8.checked_limited_sub(5), None);
    assert_eq!(5u8.checked_limited_sub(3), Some(2));
    assert_eq!(7u32.mul_size_of(4), Some(28));
    assert_eq!(usize::MAX.mul_size_of(2), None);
    assert_eq!(0u64.mul_size_of(8), Some(0));
    assert_eq!(<u16 as Size>::from_usize_capped(70_000), u16::MAX);
    assert_eq!(<u16 as Size>::from_usize_capped(7), 7);
    assert_eq!(9u8.try_usize(), Some(9));
    assert_eq!(<u8 as Size>::max_value(), 255);
    assert_eq!(<u8 as Size>::one(), 1);
    assert_eq!(300u64.usize(), 300);
    assert_eq!(0u32.non_zero(), None);
    assert_eq!(6u32.non_zero(), Some(6));
}

#[test]
fn owned_shared_region() {
    let img = Stride2D::<Vec<u8>, usize>::new(vec![1, 2, 0, 3, 4, 0], 2, 2, 3).unwrap();
    assert_eq!(img.row(0), Some(&[1u8, 2][..]));
    assert_eq!(img.row(1), Some(&[3u8, 4][..]));
    assert!(!img.is_contiguous());

    let packed = Slice2D::<Vec<u8>, usize>::new(vec![1, 2, 3, 4], 2, 2).unwrap();
    assert_eq!(packed.row(1), Some(&[3u8, 4][..]));
    assert!(Slice2D::<Vec<u8>, usize>::new(vec![1, 2, 3], 2, 2).is_none());
}

fn dims_of<I: Img>(img: &I) -> (usize, usize, usize) {
    (img.width(), img.height(), img.area())
}

#[test]
fn generic_view_interface() {
    let buf = [1u8, 2, 3, 4, 5, 6, 7];
    let packed = Slice2D::<&[u8], usize>::from_slice(&buf, 3, 2).unwrap();
    assert_eq!(dims_of(&packed), (3, 2, 6));
    let strided = Stride2D::<&[u8], usize>::from_slice(&buf, 3, 2, 4).unwrap();
    assert_eq!(dims_of(&strided), (3, 2, 6));
    assert_eq!(Img::row(&strided, 1), Some(&[5u8, 6, 7][..]));

    let mut owned = Slice2DMut::<Vec<u8>, usize>::from_slice_mut(vec![0; 4], 2, 2).unwrap();
    ImgMut::set(&mut owned, 0, 1, 8);
    assert_eq!(dims_of(&owned), (2, 2, 4));
    assert_eq!(Img::row(&owned, 1), Some(&[8u8, 0][..]));

    let mut st = Stride2DMut::<Vec<u8>, usize>::from_slice_mut(vec![0; 5], 2, 2, 3).unwrap();
    ImgMut::set(&mut st, 1, 1, 9);
    assert_eq!(Img::row(&st, 1), Some(&[0u8, 9][..]));
}

#[test]
fn rows_iterator_nth_jumps() {
    let buf = [1u8, 2, 0, 3, 4, 0, 5, 6, 0, 7, 8];
    let img = Stride2D::<&[u8], usize>::from_slice(&buf, 2, 4, 3).unwrap();
    let mut it = img.rows();
    assert_eq!(it.nth(2).unwrap(), &[5u8, 6][..]);
    assert_eq!(it.len(), 1);
    assert_eq!(it.next().unwrap(), &[7u8, 8][..]);
    let mut it2 = img.rows();
    assert!(it2.nth(4).is_none());
    assert_eq!(it2.len(), 0);
}
