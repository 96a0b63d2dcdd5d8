use range2d::Range2D;

#[test]
fn test_full_tile_chunk_bounds() {
    let h = 3;
    let w = 4;
    let coords: Vec<(usize, usize)> = Range2D::full(h, w).to_vec();

    let expected: Vec<(usize, usize)> =
        (0..h).flat_map(|y| (0..w).map(move |x| (y, x))).collect();

    assert_eq!(coords, expected);
}

#[test]
fn test_custom_ranges() {
    let coords: Vec<_> = Range2D::new(2..4, 5..7).to_vec();
    let expected = vec![(2, 5), (2, 6), (3, 5), (3, 6)];
    assert_eq!(coords, expected);
}

#[test]
fn test_empty_x_range() {
    let coords: Vec<_> = Range2D::new(0..5, 3..3).to_vec();
    assert!(coords.is_empty());
}

#[test]
fn test_empty_y_range() {
    let coords: Vec<_> = Range2D::new(2..2, 0..10).to_vec();
    assert!(coords.is_empty());
}

#[test]
fn test_single_element() {
    let coords: Vec<_> = Range2D::new(3..4, 7..8).to_vec();
    assert_eq!(coords, vec![(3, 7)]);
}

#[test]
fn test_iter_next_behavior() {
    let mut iter = Range2D::new(1..3, 0..2);
    assert_eq!(iter.next(), Some((1, 0)));
    assert_eq!(iter.next(), Some((1, 1)));
    assert_eq!(iter.next(), Some((2, 0)));
    assert_eq!(iter.next(), Some((2, 1)));
    assert_eq!(iter.next(), None);
}

#[test]
fn test_next_back_only() {
    let iter = Range2D::new(0..2, 0..3); // 6 tiles
    let coords: Vec<_> = iter.to_vec_rev();

    let expected = vec![(1, 2), (1, 1), (1, 0), (0, 2), (0, 1), (0, 0)];
    assert_eq!(coords, expected);
}

#[test]
fn test_next_neg_back_only() {
    let iter = Range2D::new(-2..0, -3..0); // 6 tiles
    let coords: Vec<_> = iter.to_vec_rev();

    let expected = vec![(-1, -1), (-1, -2), (-1, -3), (-2, -1), (-2, -2), (-2, -3)];
    assert_eq!(coords, expected);
}

#[test]
fn test_mixed_next_and_next_back() {
    let mut iter = Range2D::new(0..2, 0..3); // 6 tiles

    assert_eq!(iter.next(), Some((0, 0))); // forward
    assert_eq!(iter.next_back(), Some((1, 2))); // backward
    assert_eq!(iter.next(), Some((0, 1)));
    assert_eq!(iter.next_back(), Some((1, 1)));
    assert_eq!(iter.next(), Some((0, 2)));
    assert_eq!(iter.next_back(), Some((1, 0)));
    assert_eq!(iter.next(), None); // exhausted
    assert_eq!(iter.next_back(), None);
}

#[test]
fn test_double_ended_len_and_exhaustion() {
    let mut iter = Range2D::new(5..6, 10..14); // 4 tiles: (5,10..14)

    assert_eq!(iter.len(), 4);
    iter.next(); // (5,10)
    assert_eq!(iter.len(), 3);
    iter.next_back(); // (5,13)
    assert_eq!(iter.len(), 2);
    iter.next(); // (5,11)
    iter.next(); // (5,12)
    assert_eq!(iter.len(), 0);
    assert_eq!(iter.next(), None);
    assert_eq!(iter.next_back(), None);
}

#[test]
fn test_split_preserves_order() {
    let range = Range2D::new(0..2, 0..4); // 8 tiles
    let (left, right) = range.split();

    let mut all: Vec<_> = left.to_vec();
    all.extend(right.to_vec());

    let expected = vec![
        (0, 0),
        (0, 1),
        (0, 2),
        (0, 3),
        (1, 0),
        (1, 1),
        (1, 2),
        (1, 3),
    ];
    assert_eq!(all, expected);
}

#[test]
fn test_split_into_chunks() {
    let iter = Range2D::new(0..2, 0..4); // 8 tiles
    let chunks = iter.split_into(3);
    let sizes: Vec<_> = chunks.iter().map(|c| c.len()).collect();
    assert_eq!(sizes, vec![3, 3, 2]);

    let all: Vec<_> = chunks.into_iter().flat_map(|c| c.to_vec()).collect();
    let expected = vec![
        (0, 0),
        (0, 1),
        (0, 2),
        (0, 3),
        (1, 0),
        (1, 1),
        (1, 2),
        (1, 3),
    ];
    assert_eq!(all, expected);
}

#[test]
fn test_nth() {
    let mut iter = Range2D::new(1..3, 4..8); // 8 tiles
    assert_eq!(iter.nth(0), Some((1, 4)));
    assert_eq!(iter.nth(2), Some((1, 7))); // skip two, get (1,7)
    assert_eq!(iter.nth(10), None); // too far, exhausted
}
