//! A two-dimensional range: the cells `(y, x)` of a rectangle, visited row by
//! row from top to bottom and, within a row, from left to right.

mod grid;
mod idx;
mod laws;

pub use self::grid::{
    cells, chunk_count, chunk_window, extent, lemma_coord_in_rect, min_of, split_point, GridView,
};
use self::grid::{
    lemma_chunk_count, lemma_remaining_back, lemma_remaining_concat, lemma_remaining_front,
    lemma_remaining_skip, lemma_split_point,
};
pub use self::idx::{clamp_diff, Idx};
pub use self::laws::{
    lemma_cell_position, lemma_coord_injective, lemma_fresh_covers_rect, lemma_restart_is_fresh,
    lemma_row_major_step,
};

use std::ops::Range;
use vstd::arithmetic::mul::lemma_mul_inequality;
use vstd::prelude::*;

verus! {

/// A walk over the `(y, x)` cells of the rectangle `y_range` by `x_range`.
///
/// The cells are numbered row by row; `start..end` is the window of that
/// numbering that is still to be visited, from the front and from the back.
#[derive(Debug)]
pub struct Range2D<I: Idx = usize> {
    y_range: Range<I>,
    x_range: Range<I>,
    start: usize,
    end: usize,
}

impl<I: Idx> View for Range2D<I> {
    type V = GridView;

    closed spec fn view(&self) -> GridView {
        GridView {
            y_start: self.y_range.start.as_int(),
            y_end: self.y_range.end.as_int(),
            x_start: self.x_range.start.as_int(),
            x_end: self.x_range.end.as_int(),
            start: self.start as int,
            end: self.end as int,
        }
    }
}

/// The cells still to be visited by each walk of a sequence, in order.
pub open spec fn cells_of<I: Idx>(walks: Seq<Range2D<I>>) -> Seq<Seq<(int, int)>> {
    walks.map_values(|w: Range2D<I>| w@.remaining())
}

/// The pair of integers that a pair of coordinates stands for.
pub open spec fn pair_int<I: Idx>(p: (I, I)) -> (int, int) {
    (p.0.as_int(), p.1.as_int())
}

impl<I: Idx> Range2D<I> {
    /// The extents of both ranges fit in `I`, the number of cells fits in
    /// `usize`, and a nonempty window lies within the numbering.
    #[verifier::type_invariant]
    spec fn inv(self) -> bool {
        &&& self@.y_end - self@.y_start <= I::max_int()
        &&& self@.x_end - self@.x_start <= I::max_int()
        &&& self@.total() <= usize::MAX
        &&& self@.window_in_rect()
    }

    /// The conditions under which `new(y_range, x_range)` is defined: the
    /// extent `end - start` of each range is a value of `I` (the coordinates are
    /// computed in `I` from it), and the number of cells of the rectangle is a
    /// value of `usize` (the walk counts its positions in `usize`).
    pub open spec fn accepts(y_range: Range<I>, x_range: Range<I>) -> bool {
        &&& y_range.end.as_int() - y_range.start.as_int() <= I::max_int()
        &&& x_range.end.as_int() - x_range.start.as_int() <= I::max_int()
        &&& extent(y_range.start.as_int(), y_range.end.as_int()) * extent(
            x_range.start.as_int(),
            x_range.end.as_int(),
        ) <= usize::MAX
    }

    /// Creates a walk over every cell of the rectangle `y_range` by `x_range`.
    pub fn new(y_range: Range<I>, x_range: Range<I>) -> (r: Self)
        requires
            Self::accepts(y_range, x_range),
        ensures
            r@ == GridView::fresh(
                y_range.start.as_int(),
                y_range.end.as_int(),
                x_range.start.as_int(),
                x_range.end.as_int(),
            ),
    {
        let ghost h = extent(y_range.start.as_int(), y_range.end.as_int());
        let ghost w = extent(x_range.start.as_int(), x_range.end.as_int());
        let height = y_range.end.saturating_sub(y_range.start).to_usize();
        let width = x_range.end.saturating_sub(x_range.start).to_usize();
        proof {
            if h == 0 || w == 0 {
                assert(height * width == 0) by (nonlinear_arith)
                    requires height == 0 || width == 0;
                assert(h * w == 0) by (nonlinear_arith)
                    requires h == 0 || w == 0;
            } else {
                lemma_mul_inequality(1, w, h);
                lemma_mul_inequality(1, h, w);
                assert(height == h);
                assert(width == w);
            }
        }
        let total = height * width;
        let r = Self { y_range, x_range, start: 0, end: total };
        proof {
            lemma_extent_product_nonneg(r@);
        }
        r
    }

    /// Creates a walk over the rectangle `0..height` by `0..width`.
    pub fn full(height: I, width: I) -> (r: Self)
        requires
            extent(0, height.as_int()) * extent(0, width.as_int()) <= usize::MAX,
        ensures
            r@ == GridView::fresh(0, height.as_int(), 0, width.as_int()),
    {
        proof {
            I::lemma_bounds();
            height.lemma_in_bounds();
            width.lemma_in_bounds();
        }
        Self::new(I::zero()..height, I::zero()..width)
    }

    /// The number of cells of the rectangle, computed in `I`, where it fits.
    pub fn total_len(&self) -> (r: usize)
        requires
            self@.total() <= I::max_int(),
        ensures
            r == self@.total(),
    {
        proof {
            use_type_invariant(self);
            lemma_extent_product_nonneg(self@);
            I::lemma_bounds();
        }
        let height = self.y_range.end.saturating_sub(self.y_range.start);
        let width = self.x_range.end.saturating_sub(self.x_range.start);
        proof {
            I::lemma_arith(height, width);
        }
        (height * width).to_usize()
    }

    /// Rewinds the walk to every cell of its rectangle.
    pub fn reset(&mut self)
        requires
            old(self)@.total() <= I::max_int(),
        ensures
            final(self)@ == old(self)@.restarted(),
    {
        proof {
            use_type_invariant(&*self);
        }
        let total = self.total_len();
        self.end = total;
        self.start = 0;
    }

    /// The number of cells still to be visited.
    pub fn len(&self) -> (r: usize)
        ensures
            r == self@.len(),
            r == self@.remaining().len(),
    {
        self.end.saturating_sub(self.start)
    }

    /// Whether no cell is left to visit.
    pub fn is_empty(&self) -> (r: bool)
        ensures
            r == (self@.len() == 0),
    {
        self.len() == 0
    }

    /// A walk over the same rectangle with the window `start..end`.
    fn window(&self, start: usize, end: usize) -> (r: Self)
        requires
            start < end ==> end <= self@.total(),
        ensures
            r@ == self@.with_window(start as int, end as int),
    {
        proof {
            use_type_invariant(self);
        }
        Self {
            y_range: self.y_range.start..self.y_range.end,
            x_range: self.x_range.start..self.x_range.end,
            start,
            end,
        }
    }

    /// Splits the window in two halves, the first holding half of the cells
    /// still to be visited, rounded down, and the second the rest.
    pub fn split(&self) -> (r: (Self, Self))
        ensures
            ({
                let mid = self@.start + self@.len() / 2;
                &&& r.0@ == self@.with_window(self@.start, mid)
                &&& r.1@ == self@.with_window(mid, self@.end)
            }),
            r.0@.len() == self@.len() / 2,
            r.1@.len() == self@.len() - self@.len() / 2,
            r.0@.remaining() + r.1@.remaining() == self@.remaining(),
    {
        proof {
            use_type_invariant(self);
        }
        let mid = self.start + self.len() / 2;
        let left = self.window(self.start, mid);
        let right = self.window(mid, self.end);
        proof {
            if self.start < self.end {
                lemma_remaining_concat(self@, mid as int);
            } else {
                assert(right@.remaining() =~= self@.remaining());
                assert(left@.remaining() =~= Seq::<(int, int)>::empty());
            }
        }
        (left, right)
    }

    /// Splits the window into `n` consecutive parts of nearly equal size:
    /// each holds `len / n` positions and the first `len % n` one more.
    pub fn split_into(&self, n: usize) -> (r: Vec<Self>)
        ensures
            r.len() == n,
            forall|i: int|
                0 <= i < n ==> #[trigger] r[i]@ == self@.with_window(
                    split_point(self@, n as int, i),
                    split_point(self@, n as int, i + 1),
                ),
            forall|i: int|
                0 <= i < n ==> #[trigger] r[i]@.len() == self@.len() / (n as int) + (if i < self@.len()
                    % (n as int) {
                    1int
                } else {
                    0int
                }),
            n > 0 ==> cells_of(r@).flatten() == self@.remaining(),
    {
        proof {
            use_type_invariant(self);
        }
        if n == 0 {
            return Vec::new();
        }
        let total = self.len();
        let base = total / n;
        let rem = total % n;
        let ghost v = self@;

        let mut result: Vec<Self> = Vec::new();
        let mut current_start = self.start;
        proof {
            lemma_split_point(v, n as int, 0);
            assert(cells_of(result@).flatten() =~= cells(v, v.start, v.start));
        }
        for i in 0..n
            invariant
                n > 0,
                v == self@,
                v.window_in_rect(),
                base == v.len() / (n as int),
                rem == v.len() % (n as int),
                result.len() == i,
                current_start == split_point(v, n as int, i as int),
                forall|j: int|
                    0 <= j < i ==> #[trigger] result[j]@ == v.with_window(
                        split_point(v, n as int, j),
                        split_point(v, n as int, j + 1),
                    ),
                cells_of(result@).flatten() == cells(v, v.start, current_start as int),
        {
            proof {
                lemma_split_point(v, n as int, i as int);
            }
            let chunk_len = base + if i < rem {
                1
            } else {
                0
            };
            let chunk_end = current_start + chunk_len;
            let chunk = self.window(current_start, chunk_end);
            proof {
                let w = v.with_window(v.start, chunk_end as int);
                lemma_remaining_concat(w, current_start as int);
                assert(cells_of(result@.push(chunk)) =~= cells_of(result@).push(chunk@.remaining()));
                cells_of(result@).lemma_flatten_push(chunk@.remaining());
            }
            result.push(chunk);
            current_start = chunk_end;
        }
        proof {
            lemma_split_point(v, n as int, 0);
            assert(cells(v, v.start, current_start as int) =~= v.remaining());
            assert forall|i: int| 0 <= i < n implies #[trigger] result[i]@.len() == v.len() / (
            n as int) + (if i < v.len() % (n as int) {
                1int
            } else {
                0int
            }) by {
                lemma_split_point(v, n as int, i);
            }
        }
        result
    }

    /// Splits the window into consecutive parts of `chunk_size` positions,
    /// the last of which may hold fewer.
    pub fn chunks_of(&self, chunk_size: usize) -> (r: Vec<Self>)
        requires
            chunk_size > 0 ==> self@.start + chunk_count(self@.len(), chunk_size as int)
                * chunk_size <= usize::MAX,
        ensures
            chunk_size == 0 ==> r.len() == 0,
            chunk_size > 0 ==> r.len() == chunk_count(self@.len(), chunk_size as int),
            forall|i: int|
                0 <= i < r.len() ==> #[trigger] r[i]@ == chunk_window(self@, chunk_size as int, i),
            forall|i: int| 0 <= i < r.len() ==> 0 < #[trigger] r[i]@.len() <= chunk_size,
            forall|i: int| 0 <= i < r.len() - 1 ==> #[trigger] r[i]@.len() == chunk_size,
            chunk_size > 0 ==> cells_of(r@).flatten() == self@.remaining(),
    {
        proof {
            use_type_invariant(self);
        }
        if chunk_size == 0 {
            return Vec::new();
        }
        let ghost v = self@;
        let ghost c = chunk_size as int;
        let ghost count = chunk_count(v.len(), c);

        let mut result: Vec<Self> = Vec::new();
        let mut current_start = self.start;
        proof {
            lemma_chunk_count(v.len(), c, 0);
            assert(cells_of(result@).flatten() =~= cells(v, v.start, v.start));
            if count == 0 {
                assert(cells(v, v.start, v.start) =~= v.remaining());
            }
        }
        while current_start < self.end
            invariant
                v == self@,
                c == chunk_size,
                c > 0,
                count == chunk_count(v.len(), c),
                v.start + count * c <= usize::MAX,
                v.window_in_rect(),
                result.len() <= count,
                result.len() < count ==> current_start == v.start + result.len() * c,
                (current_start < v.end) == (result.len() < count),
                forall|j: int|
                    0 <= j < result.len() ==> #[trigger] result[j]@ == chunk_window(v, c, j),
                forall|j: int| 0 <= j < result.len() ==> 0 < #[trigger] result[j]@.len() <= c,
                forall|j: int|
                    0 <= j < result.len() - 1 ==> #[trigger] result[j]@.len() == c,
                result.len() < count ==> forall|j: int|
                    0 <= j < result.len() ==> #[trigger] result[j]@.len() == c,
                cells_of(result@).flatten() == cells(v, v.start, current_start as int),
                result.len() == count ==> cells(v, v.start, current_start as int) == v.remaining(),
            decreases v.end - current_start,
        {
            let ghost k = result.len() as int;
            proof {
                lemma_chunk_count(v.len(), c, k);
                lemma_chunk_count(v.len(), c, k + 1);
                assert((k + 1) * c <= count * c) by (nonlinear_arith)
                    requires
                        k + 1 <= count,
                        c > 0,
                ;
            }
            let chunk_end = (current_start + chunk_size).min(self.end);
            let chunk = self.window(current_start, chunk_end);
            proof {
                let w = v.with_window(v.start, chunk_end as int);
                lemma_remaining_concat(w, current_start as int);
                assert(cells_of(result@.push(chunk)) =~= cells_of(result@).push(chunk@.remaining()));
                cells_of(result@).lemma_flatten_push(chunk@.remaining());
            }
            result.push(chunk);
            current_start = chunk_end;
        }
        result
    }

    /// The cells still to be visited, front to back, without visiting them.
    pub fn to_vec(&self) -> (r: Vec<(I, I)>)
        ensures
            r.len() == self@.len(),
            forall|j: int| 0 <= j < r.len() ==> pair_int(#[trigger] r[j]) == self@.remaining()[j],
    {
        proof {
            use_type_invariant(self);
        }
        let mut result: Vec<(I, I)> = Vec::new();
        let mut k = self.start;
        while k < self.end
            invariant
                self@.window_in_rect(),
                self.start <= k,
                self.start < self.end ==> k <= self.end,
                self.start >= self.end ==> k == self.start,
                result.len() == k - self.start,
                forall|j: int|
                    0 <= j < result.len() ==> pair_int(#[trigger] result[j]) == self@.coord(
                        self.start + j,
                    ),
            decreases self.end - k,
        {
            result.push(self.index_to_coord(k));
            k += 1;
        }
        assert(result.len() == self@.len());
        assert forall|j: int| 0 <= j < result.len() implies pair_int(#[trigger] result[j])
            == self@.remaining()[j] by {}
        result
    }

    /// The cells still to be visited, back to front, without visiting them.
    pub fn to_vec_rev(&self) -> (r: Vec<(I, I)>)
        ensures
            r.len() == self@.len(),
            forall|j: int|
                0 <= j < r.len() ==> pair_int(#[trigger] r[j]) == self@.remaining().reverse()[j],
    {
        proof {
            use_type_invariant(self);
        }
        let mut result: Vec<(I, I)> = Vec::new();
        let mut k = self.end;
        while k > self.start
            invariant
                self@.window_in_rect(),
                self.start < self.end ==> self.start <= k <= self.end,
                self.start >= self.end ==> k == self.end,
                result.len() == self.end - k,
                forall|j: int|
                    0 <= j < result.len() ==> pair_int(#[trigger] result[j]) == self@.coord(
                        self.end - 1 - j,
                    ),
            decreases k - self.start,
        {
            k -= 1;
            result.push(self.index_to_coord(k));
        }
        assert(result.len() == self@.len());
        assert forall|j: int| 0 <= j < result.len() implies pair_int(#[trigger] result[j])
            == self@.remaining().reverse()[j] by {}
        result
    }

    /// The cell at position `index` of the row-by-row numbering.
    fn index_to_coord(&self, index: usize) -> (r: (I, I))
        requires
            index < self@.total(),
        ensures
            pair_int(r) == self@.coord(index as int),
    {
        proof {
            use_type_invariant(self);
            lemma_coord_in_rect(self@, index as int);
            I::lemma_bounds();
            self.y_range.start.lemma_in_bounds();
            self.x_range.start.lemma_in_bounds();
            self.y_range.end.lemma_in_bounds();
            self.x_range.end.lemma_in_bounds();
            assert(self@.width() <= self@.total()) by (nonlinear_arith)
                requires
                    self@.height() > 0,
                    self@.width() > 0,
                    self@.total() == self@.height() * self@.width(),
            ;
        }
        proof {
            I::lemma_arith(self.x_range.end, self.x_range.start);
        }
        let width = (self.x_range.end - self.x_range.start).to_usize();
        if width == 0 {
            return (I::zero(), I::zero());
        }
        proof {
            I::lemma_from_usize_fits(index / width);
            I::lemma_from_usize_fits(index % width);
        }
        let dy = I::from_usize(index / width);
        let dx = I::from_usize(index % width);
        proof {
            I::lemma_arith(self.y_range.start, dy);
            I::lemma_arith(self.x_range.start, dx);
        }
        let y = self.y_range.start + dy;
        let x = self.x_range.start + dx;
        (y, x)
    }

    /// Visits the front cell of the window, if any: the first of the cells
    /// still to be visited, which is then no longer to be visited.
    pub fn next(&mut self) -> (r: Option<(I, I)>)
        ensures
            old(self)@.len() == 0 ==> r is None && final(self)@ == old(self)@,
            old(self)@.len() > 0 ==> {
                &&& r is Some
                &&& pair_int(r.unwrap()) == old(self)@.coord(old(self)@.start)
                &&& final(self)@ == old(self)@.with_window(old(self)@.start + 1, old(self)@.end)
            },
            r is None <==> old(self)@.remaining().len() == 0,
            r is Some ==> pair_int(r.unwrap()) == old(self)@.remaining()[0]
                && final(self)@.remaining() == old(self)@.remaining().drop_first(),
    {
        proof {
            use_type_invariant(&*self);
        }
        if self.start >= self.end {
            return None;
        }
        proof {
            lemma_remaining_front(self@);
        }
        let coord = self.index_to_coord(self.start);
        self.start += 1;
        Some(coord)
    }

    /// The number of cells still to be visited, as the lower and upper bound.
    pub fn size_hint(&self) -> (r: (usize, Option<usize>))
        ensures
            r.0 == self@.len(),
            r.1 == Some(r.0),
    {
        let len = self.len();
        (len, Some(len))
    }

    /// Skips `n` cells, then visits the front cell of the window, if any: the
    /// cell at index `n` of the cells still to be visited.
    pub fn nth(&mut self, n: usize) -> (r: Option<(I, I)>)
        ensures
            ({
                let s = if old(self)@.start + n <= usize::MAX {
                    old(self)@.start + n
                } else {
                    usize::MAX as int
                };
                &&& s < old(self)@.end ==> {
                    &&& r is Some
                    &&& pair_int(r.unwrap()) == old(self)@.coord(s)
                    &&& final(self)@ == old(self)@.with_window(s + 1, old(self)@.end)
                }
                &&& s >= old(self)@.end ==> r is None && final(self)@ == old(self)@.with_window(
                    s,
                    old(self)@.end,
                )
            }),
            r is None <==> n >= old(self)@.remaining().len(),
            r is Some ==> pair_int(r.unwrap()) == old(self)@.remaining()[n as int]
                && final(self)@.remaining() == old(self)@.remaining().skip(n + 1),
            r is None ==> final(self)@.remaining().len() == 0,
    {
        proof {
            use_type_invariant(&*self);
            lemma_remaining_skip(self@, n as int);
            lemma_remaining_skip(self@, n + 1);
        }
        self.start = self.start.saturating_add(n);
        self.next()
    }

    /// Visits the back cell of the window, if any: the last of the cells still
    /// to be visited, which is then no longer to be visited.
    pub fn next_back(&mut self) -> (r: Option<(I, I)>)
        ensures
            old(self)@.len() == 0 ==> r is None && final(self)@ == old(self)@,
            old(self)@.len() > 0 ==> {
                &&& r is Some
                &&& pair_int(r.unwrap()) == old(self)@.coord(old(self)@.end - 1)
                &&& final(self)@ == old(self)@.with_window(old(self)@.start, old(self)@.end - 1)
            },
            r is None <==> old(self)@.remaining().len() == 0,
            r is Some ==> pair_int(r.unwrap()) == old(self)@.remaining().last()
                && final(self)@.remaining() == old(self)@.remaining().drop_last(),
    {
        proof {
            use_type_invariant(&*self);
        }
        if self.start >= self.end {
            return None;
        }
        proof {
            lemma_remaining_back(self@);
        }
        self.end -= 1;
        Some(self.index_to_coord(self.end))
    }
}

impl<I: Idx> Clone for Range2D<I> {
    /// A walk over the same rectangle with the same window.
    fn clone(&self) -> (r: Self)
        ensures
            r@ == self@,
    {
        proof {
            use_type_invariant(self);
        }
        self.window(self.start, self.end)
    }
}

/// The number of cells of a rectangle is never negative.
proof fn lemma_extent_product_nonneg(v: GridView)
    ensures
        v.total() >= 0,
{
    assert(v.height() * v.width() >= 0) by (nonlinear_arith)
        requires v.height() >= 0, v.width() >= 0;
}

} // verus!
