use imgref2::inner::{buffer_len_bytes, RawSlice, RawStride};
use imgref2::range::{derange, Bound, Span};
use imgref2::size::Size;

#[test]
fn ranges() {
    assert_eq!(0u16.checked_limited_sub(<u16 as Size>::zero()), Some(0));

    assert_eq!(derange(Span::full(), 10u64), Some((0, 10)));
    assert_eq!(derange(Span::full(), 0u16), Some((0, 0)));
    assert_eq!(derange(Span::range_to(10), 10u16), Some((0, 10)));
    assert_eq!(derange(Span::range_to(5), 10u16), Some((0, 5)));

    assert_eq!(derange(Span::range(1u8, 5), 10), Some((1, 4)));
    assert_eq!(
        derange(Span::new(Bound::Excluded(0u8), Bound::Unbounded), 10),
        Some((1, 9))
    );
    assert_eq!(
        derange(Span::new(Bound::Excluded(8u8), Bound::Included(9)), 10),
        Some((9, 1))
    );
    assert_eq!(derange(Span::range(1u8, 5), 5), Some((1, 4)));
    assert_eq!(derange(Span::range(4u8, 5), 10), Some((4, 1)));
    assert_eq!(derange(Span::range(1u8, 5), 4), None);
    assert_eq!(derange(Span::range(2u8, 1), 4), None);
    assert_eq!(derange(Span::range(5u8, 5), 10), Some((5, 0)));
    assert_eq!(derange(Span::range(255u8, 255), 255), Some((255, 0)));
    assert_eq!(derange(Span::range(254u8, 255), 255), Some((254, 1)));
    assert_eq!(derange(Span::range(0u32, 0), 10), Some((0, 0)));

    assert_eq!(derange(Span::range_inclusive(11u8, 11), 255), Some((11, 1)));
    assert_eq!(derange(Span::range_inclusive(1u8, 4), 10), Some((1, 4)));
    assert_eq!(derange(Span::range_inclusive(1u8, 4), 5), Some((1, 4)));
    assert_eq!(derange(Span::range_inclusive(4u8, 4), 10), Some((4, 1)));
    assert_eq!(derange(Span::range_inclusive(1u8, 4), 4), None);
    assert_eq!(derange(Span::range_inclusive(2u8, 0), 4), None);
    assert_eq!(derange(Span::range_inclusive(5u8, 4), 10), None);
    assert_eq!(derange(Span::range_inclusive(255u8, 255), 255), None);
    assert_eq!(derange(Span::range_inclusive(254u8, 254), 255), Some((254, 1)));
    assert_eq!(derange(Span::range_inclusive(0u32, 0), 10), Some((0, 1)));
}

#[test]
fn buflen_1() {
    assert_eq!(buffer_len_bytes::<u8, _>(254u8, 253, 255), Some(252 * 255 + 254));
    assert_eq!(buffer_len_bytes::<u8, _>(25u16, 34, 50), Some(33 * 50 + 25));
    assert_eq!(buffer_len_bytes::<u8, _>(325u32, 1, 325), Some(325));
    assert_eq!(buffer_len_bytes::<u8, _>(325u32, 0, 325), Some(0));
    assert_eq!(buffer_len_bytes::<u8, _>(0u32, 123, 325), Some(0));
    assert_eq!(buffer_len_bytes::<u8, _>(0usize, 123, 0), Some(0));
    assert_eq!(buffer_len_bytes::<u8, _>(0u64, 0, 0), Some(0));

    assert_eq!(buffer_len_bytes::<u8, _>(10u64, 1, 1), None);
    assert_eq!(buffer_len_bytes::<u8, _>(10u8, 1, 9), None);
}

#[test]
fn buflen_4() {
    assert_eq!(
        buffer_len_bytes::<u32, _>(254u8, 253, 255 * 4),
        Some(252 * (255 * 4) + 254 * 4)
    );
    assert_eq!(buffer_len_bytes::<u32, _>(25u16, 34, 50 * 4), Some(4 * 33 * 50 + 25 * 4));
    assert_eq!(buffer_len_bytes::<u32, _>(325u32, 1, 325 * 4), Some(4 * 325));
    assert_eq!(buffer_len_bytes::<u32, _>(325u32, 0, 325 * 4), Some(0));
    assert_eq!(buffer_len_bytes::<u32, _>(0u32, 123, 325 * 4), Some(0));
    assert_eq!(buffer_len_bytes::<u32, _>(0usize, 123, 0 * 4), Some(0));
    assert_eq!(buffer_len_bytes::<u32, _>(0u64, 0, 0 * 4), Some(0));

    assert_eq!(buffer_len_bytes::<u32, _>(10u64, 1, 4), None);
    assert_eq!(buffer_len_bytes::<u32, _>(10u8, 1, 9 * 4), None);
}

#[test]
fn stride_buf() {
    assert!(RawSlice::from_slice(&[1u8], 1u8, 1).is_some());
    assert!(RawSlice::from_slice(&[1u8], 0u8, 1).is_some());
    assert!(RawSlice::from_slice(&[1u8], 0u8, 1).is_some());
    assert!(RawSlice::from_slice(&[1u8], 0u8, 0).is_some());

    assert!(RawSlice::from_slice(&[1u8], 2u8, 1).is_none());
    assert!(RawSlice::from_slice(&[1u8], 1u8, 2).is_none());
    assert!(RawSlice::<&[u8], u8>::from_slice(&[], 1u8, 1).is_none());

    assert!(RawStride::from_slice(&[1u8], 1u8, 1, 1u8).is_some());
    assert!(RawStride::from_slice(&[1u8], 0u8, 1, 0u8).is_some());
    assert!(RawStride::from_slice(&[1u8], 0u8, 1, 0u8).is_some());
    assert!(RawStride::from_slice(&[1u8], 0u8, 0, 0u8).is_some());
    assert!(RawStride::<&[u8], u8>::from_slice(&[], 0u8, 0, 99).is_some());
    assert!(RawStride::<&[u8], u8>::from_slice(&[], 0u8, 0, 0).is_some());

    assert!(RawStride::from_slice(&[1u8], 2u8, 1, 2u8).is_none());
    assert!(RawStride::from_slice(&[1u8], 1u8, 2, 1u8).is_none());
    assert!(RawStride::from_slice(&[1u8], 1u8, 2, 100).is_none());
    assert!(RawStride::<&[u8], u8>::from_slice(&[], 1u8, 1, 1).is_none());

    let buf = [1u8; 20];
    assert_eq!(RawSlice::from_slice(&buf, 2u8, 3).unwrap().area(), 6);
}

#[test]
fn splits() {
    let buf = [1u8; 20];
    let s = RawStride::from_slice(&buf, 4u8, 3, 5).unwrap();
    assert_eq!(s.width, 4);
    assert_eq!(s.height, 3);
    assert_eq!(s.stride_bytes(), 5);

    let (r1, r2) = s.split_at_row(1).unwrap();
    assert_eq!(r1.width, 4);
    assert_eq!(r1.stride_bytes(), 5);
    assert_eq!(r1.height, 1);
    assert_eq!(r2.width, 4);
    assert_eq!(r2.stride_bytes(), 5);
    assert_eq!(r2.height, 2);

    let (c1, c2) = s.split_at_col(1).unwrap();
    assert_eq!(c1.height, 3);
    assert_eq!(c2.height, 3);
    assert_eq!(c1.width, 1);
    assert_eq!(c2.width, 3);
    assert_eq!(c1.stride_bytes(), 5);
    assert_eq!(c2.stride_bytes(), 5);
}

#[test]
fn splits_u32() {
    let buf = [1u32; 20];
    let s = RawStride::from_slice(&buf, 4u8, 3, 5).unwrap();
    assert_eq!(s.width, 4);
    assert_eq!(s.height, 3);
    assert_eq!(s.stride_bytes(), 4 * 5);

    let (r1, r2) = s.split_at_row(1).unwrap();
    assert_eq!(r1.width, 4);
    assert_eq!(r1.stride_bytes(), 4 * 5);
    assert_eq!(r1.height, 1);
    assert_eq!(r2.width, 4);
    assert_eq!(r2.stride_bytes(), 4 * 5);
    assert_eq!(r2.height, 2);

    let (c1, c2) = s.split_at_col(1).unwrap();
    assert_eq!(c1.height, 3);
    assert_eq!(c2.height, 3);
    assert_eq!(c1.width, 1);
    assert_eq!(c2.width, 3);
    assert_eq!(c1.stride_bytes(), 4 * 5);
    assert_eq!(c2.stride_bytes(), 4 * 5);
}

#[test]
fn iter() {
    let img = imgref2::Slice2D::<Vec<u8>, usize>::new(vec![1u8, 2], 1, 2).unwrap();
    let mut it = img.iter();
    assert_eq!(Some(1), it.next().copied());
    assert_eq!(Some(2), it.next().copied());
    assert_eq!(None, it.next().copied());

    let buf = [1u8; (16 + 3) * (8 + 1)];
    for width in 1..16 {
        for height in 1..8 {
            for pad in 0..3 {
                let stride = width + pad;
                let img = imgref2::Stride2D::<&[u8], usize>::from_slice(
                    &buf[..stride * height + stride - width],
                    width,
                    height,
                    stride,
                )
                .unwrap();

                let mut sum: usize = 0;
                let mut count: usize = 0;
                let mut it = img.iter();
                while let Some(px) = it.next() {
                    sum += *px as usize;
                    count += 1;
                }
                assert_eq!(width * height, sum, "{width}x{height}");
                assert_eq!(width * height, count, "{width}x{height}");
                assert_eq!(height, img.rows().count());

                let mut iter1 = img.iter();
                let mut left = width * height;
                while let Some(_px) = iter1.next() {
                    left -= 1;
                    assert_eq!(left, iter1.len());
                }
                assert_eq!(0, iter1.len());
                iter1.next();
                assert_eq!(0, iter1.len());

                let mut iter2 = img.rows();
                match iter2.next() {
                    Some(_) => {
                        assert_eq!(height - 1, iter2.len());
                        assert_eq!(height - 1, iter2.count());
                    }
                    None => {
                        assert_eq!(height, 0);
                    }
                };
            }
        }
    }
}
