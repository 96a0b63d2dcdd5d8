use range2d::{Idx, Range2D};
use std::fmt::Debug;

fn drain_front<I: Idx>(mut r: Range2D<I>) -> Vec<(I, I)> {
    let mut out = Vec::new();
    while let Some(c) = r.next() {
        out.push(c);
    }
    out
}

fn drain_back<I: Idx>(mut r: Range2D<I>) -> Vec<(I, I)> {
    let mut out = Vec::new();
    while let Some(c) = r.next_back() {
        out.push(c);
    }
    out
}

#[test]
fn readme_example_row_major() {
    let coords = Range2D::new(0..2, 0..3).to_vec();
    assert_eq!(coords, vec![(0, 0), (0, 1), (0, 2), (1, 0), (1, 1), (1, 2)]);
}

#[test]
fn len_doc_example() {
    let mut iter = Range2D::new(2..4, 5..7);
    assert_eq!(iter.len(), 4);
    assert_eq!(iter.next(), Some((2, 5)));
    assert_eq!(iter.len(), 3);
}

#[test]
fn split_doc_example_counts() {
    let iter = Range2D::new(0..2, 0..4);
    let (left, right) = iter.split();
    assert_eq!(drain_front(left).len(), 4);
    assert_eq!(drain_front(right).len(), 4);
}

#[test]
fn split_odd_length_rounds_left_down() {
    let mut iter = Range2D::new(0..1, 0..8);
    iter.next();
    let (left, right) = iter.split();
    assert_eq!(left.len(), 3);
    assert_eq!(right.len(), 4);
    let mut all = left.to_vec();
    all.extend(right.to_vec());
    assert_eq!(all, iter.to_vec());
}

#[test]
fn split_of_exhausted_walk_is_empty() {
    let mut iter = Range2D::new(0..1, 0..2);
    assert_eq!(iter.nth(5), None);
    let (left, right) = iter.split();
    assert!(left.is_empty());
    assert!(right.is_empty());
}

#[test]
fn next_drains_in_to_vec_order() {
    let r = Range2D::new(3..6, 1..5);
    let expected = r.to_vec();
    assert_eq!(drain_front(r), expected);
}

#[test]
fn next_back_drains_in_reverse_order() {
    let r = Range2D::new(3..6, 1..5);
    let mut expected = r.to_vec();
    expected.reverse();
    assert_eq!(r.to_vec_rev(), expected);
    assert_eq!(drain_back(r), expected);
}

#[test]
fn fused_after_exhaustion() {
    let mut iter = Range2D::new(0..1, 0..1);
    assert_eq!(iter.next(), Some((0, 0)));
    assert_eq!(iter.next(), None);
    assert_eq!(iter.next(), None);
    assert_eq!(iter.next_back(), None);
    assert_eq!(iter.len(), 0);
}

#[test]
fn reset_restores_full_walk() {
    let mut iter = Range2D::new(1..3, 4..7);
    let full = iter.to_vec();
    iter.next();
    iter.next_back();
    assert_eq!(iter.nth(1), Some((1, 6)));
    assert_eq!(iter.len(), 2);
    iter.reset();
    assert_eq!(iter.len(), 6);
    assert_eq!(iter.to_vec(), full);
}

#[test]
fn reset_after_overshooting_nth() {
    let mut iter = Range2D::new(0..2, 0..2);
    assert_eq!(iter.nth(usize::MAX), None);
    assert!(iter.is_empty());
    iter.reset();
    assert_eq!(iter.to_vec(), vec![(0, 0), (0, 1), (1, 0), (1, 1)]);
}

#[test]
fn total_len_ignores_progress() {
    let mut iter = Range2D::new(0..2, 0..3);
    assert_eq!(iter.total_len(), 6);
    iter.next();
    iter.next_back();
    assert_eq!(iter.total_len(), 6);
    assert_eq!(iter.len(), 4);
}

#[test]
fn size_hint_is_exact() {
    let mut iter = Range2D::new(0..2, 0..3);
    assert_eq!(iter.size_hint(), (6, Some(6)));
    iter.next();
    assert_eq!(iter.size_hint(), (5, Some(5)));
}

#[test]
fn is_empty_tracks_len() {
    let mut iter = Range2D::new(0..1, 0..2);
    assert!(!iter.is_empty());
    iter.next();
    iter.next();
    assert!(iter.is_empty());
    assert!(Range2D::new(4..4, 0..3).is_empty());
}

#[test]
fn reversed_ranges_are_empty() {
    assert!(Range2D::new(5..2, 0..3).to_vec().is_empty());
    assert!(Range2D::new(0i32..3, 2..-2).to_vec().is_empty());
    assert_eq!(Range2D::new(5..2, 0..3).total_len(), 0);
}

#[test]
fn nth_zero_is_next_and_nth_skips() {
    let mut a = Range2D::new(0..3, 0..3);
    let mut b = Range2D::new(0..3, 0..3);
    assert_eq!(a.nth(0), b.next());
    assert_eq!(a.nth(3), Some((1, 1)));
    assert_eq!(a.len(), 4);
    assert_eq!(a.nth(2), Some((2, 1)));
    assert_eq!(a.nth(0), Some((2, 2)));
    assert_eq!(a.nth(0), None);
}

#[test]
fn split_into_sizes_and_order() {
    let iter = Range2D::new(0..3, 0..4); // 12 cells
    let chunks = iter.split_into(5);
    let sizes: Vec<usize> = chunks.iter().map(|c| c.len()).collect();
    assert_eq!(sizes, vec![3, 3, 2, 2, 2]);
    let all: Vec<(usize, usize)> = chunks.iter().flat_map(|c| c.to_vec()).collect();
    assert_eq!(all, iter.to_vec());
}

#[test]
fn split_into_more_parts_than_cells() {
    let iter = Range2D::new(0..1, 0..2);
    let chunks = iter.split_into(4);
    let sizes: Vec<usize> = chunks.iter().map(|c| c.len()).collect();
    assert_eq!(sizes, vec![1, 1, 0, 0]);
}

#[test]
fn split_into_zero_parts_is_empty() {
    assert!(Range2D::new(0..2, 0..2).split_into(0).is_empty());
}

#[test]
fn chunks_of_fixed_size() {
    let iter = Range2D::new(0..2, 0..4); // 8 cells
    let chunks = iter.chunks_of(3);
    let sizes: Vec<usize> = chunks.iter().map(|c| c.len()).collect();
    assert_eq!(sizes, vec![3, 3, 2]);
    let all: Vec<(usize, usize)> = chunks.iter().flat_map(|c| c.to_vec()).collect();
    assert_eq!(all, iter.to_vec());
}

#[test]
fn chunks_of_exact_and_oversized() {
    let iter = Range2D::new(0..2, 0..3);
    let sizes: Vec<usize> = iter.chunks_of(2).iter().map(|c| c.len()).collect();
    assert_eq!(sizes, vec![2, 2, 2]);
    let sizes: Vec<usize> = iter.chunks_of(100).iter().map(|c| c.len()).collect();
    assert_eq!(sizes, vec![6]);
    assert!(iter.chunks_of(0).is_empty());
    assert!(Range2D::new(0..0, 0..3).chunks_of(2).is_empty());
}

#[test]
fn chunks_of_after_progress() {
    let mut iter = Range2D::new(0..1, 0..5);
    iter.next();
    let chunks = iter.chunks_of(3);
    assert_eq!(chunks[0].to_vec(), vec![(0, 1), (0, 2), (0, 3)]);
    assert_eq!(chunks[1].to_vec(), vec![(0, 4)]);
    assert_eq!(chunks.len(), 2);
}

#[test]
fn clone_keeps_window() {
    let mut iter = Range2D::new(0..2, 0..2);
    iter.next();
    let copy = iter.clone();
    assert_eq!(copy.to_vec(), iter.to_vec());
    assert_eq!(copy.len(), 3);
}

#[test]
fn every_cell_visited_once_in_row_major() {
    let coords = Range2D::new(-3i64..2, 7..10).to_vec();
    assert_eq!(coords.len(), 15);
    let mut k = 0;
    for y in -3i64..2 {
        for x in 7i64..10 {
            assert_eq!(coords[k], (y, x));
            k += 1;
        }
    }
}

#[test]
fn full_with_signed_type() {
    let coords = Range2D::<i32>::full(2, 2).to_vec();
    assert_eq!(coords, vec![(0, 0), (0, 1), (1, 0), (1, 1)]);
    assert!(Range2D::<i32>::full(-2, 3).is_empty());
}

#[test]
fn small_type_extreme_coordinates() {
    let coords = Range2D::<u8>::new(254..255, 253..255).to_vec();
    assert_eq!(coords, vec![(254, 253), (254, 254)]);
    let coords = Range2D::<i8>::new(-128..-127, 125..127).to_vec_rev();
    assert_eq!(coords, vec![(-128, 126), (-128, 125)]);
}

fn smoke<T: Idx + Debug + PartialEq>() {
    let z = T::zero();
    let o = T::one();
    assert_eq!(z.to_usize(), 0);
    assert_eq!(o.to_usize(), 1);
    assert_eq!(T::from_usize(42).to_usize(), 42);
    let a = T::from_usize(7);
    let b = T::from_usize(5);
    assert_eq!(Idx::saturating_sub(a, b).to_usize(), 2);
    assert_eq!(Idx::saturating_sub(b, a), z);
    assert_eq!((a + b).to_usize(), 12);
    assert_eq!((a - b).to_usize(), 2);
    assert_eq!((a * b).to_usize(), 35);

    let two = T::from_usize(2);
    let three = T::from_usize(3);
    let r = Range2D::<T>::new(z..two, z..three);
    let expected = vec![(z, z), (z, o), (z, two), (o, z), (o, o), (o, two)];
    assert_eq!(r.to_vec(), expected);
    let mut rev = expected.clone();
    rev.reverse();
    assert_eq!(r.to_vec_rev(), rev);
    assert_eq!(r.size_hint(), (6, Some(6)));
    let mut r = r;
    assert_eq!(r.nth(1), Some((z, o)));
}

#[test]
fn idx_smoke_all_types() {
    smoke::<usize>();
    smoke::<isize>();
    smoke::<u128>();
    smoke::<i128>();
    smoke::<u64>();
    smoke::<i64>();
    smoke::<u32>();
    smoke::<i32>();
    smoke::<u16>();
    smoke::<i16>();
    smoke::<u8>();
    smoke::<i8>();
}

#[test]
fn idx_conversions_wrap_and_saturate() {
    assert_eq!(<u8 as Idx>::from_usize(300), 44);
    assert_eq!(<i8 as Idx>::from_usize(200), -56);
    assert_eq!(<i8 as Idx>::to_usize(-1), usize::MAX);
    assert_eq!(<i8 as Idx>::saturating_sub(-3, 5), 0);
    assert_eq!(<i8 as Idx>::saturating_sub(100, -100), 127);
    assert_eq!(<i8 as Idx>::saturating_sub(-100, -120), 20);
    assert_eq!(<u8 as Idx>::saturating_sub(3, 5), 0);
}
