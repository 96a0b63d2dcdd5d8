use vstd::prelude::*;

verus! {

/// The number of integers in `lo..hi`: `hi - lo`, or zero for an empty range.
pub open spec fn extent(lo: int, hi: int) -> int {
    if lo < hi {
        hi - lo
    } else {
        0
    }
}

/// The abstract state of a `Range2D`: the rectangle `y_start..y_end` by
/// `x_start..x_end`, numbered row by row, and the window `start..end` of
/// positions in that numbering that are still to be visited.
pub struct GridView {
    pub y_start: int,
    pub y_end: int,
    pub x_start: int,
    pub x_end: int,
    pub start: int,
    pub end: int,
}

impl GridView {
    /// The number of rows of the rectangle.
    pub open spec fn height(self) -> int {
        extent(self.y_start, self.y_end)
    }

    /// The number of columns of the rectangle.
    pub open spec fn width(self) -> int {
        extent(self.x_start, self.x_end)
    }

    /// The number of cells of the rectangle.
    pub open spec fn total(self) -> int {
        self.height() * self.width()
    }

    /// The number of positions still to be visited.
    pub open spec fn len(self) -> int {
        extent(self.start, self.end)
    }

    /// The cell at position `k` of the row-by-row numbering: `(y, x)`.
    pub open spec fn coord(self, k: int) -> (int, int) {
        (self.y_start + k / self.width(), self.x_start + k % self.width())
    }

    /// The cells still to be visited, in order.
    pub open spec fn remaining(self) -> Seq<(int, int)> {
        Seq::new(self.len() as nat, |i: int| self.coord(self.start + i))
    }

    /// The same rectangle with the window `start..end`.
    pub open spec fn with_window(self, start: int, end: int) -> GridView {
        GridView { start, end, ..self }
    }

    /// The same rectangle with its whole numbering as the window.
    pub open spec fn restarted(self) -> GridView {
        self.with_window(0, self.total())
    }

    /// The window can be walked: every position in it names a cell.
    pub open spec fn window_in_rect(self) -> bool {
        self.start < self.end ==> 0 <= self.start && self.end <= self.total()
    }

    /// The fresh state for a rectangle: every cell still to be visited.
    pub open spec fn fresh(y_start: int, y_end: int, x_start: int, x_end: int) -> GridView {
        GridView {
            y_start,
            y_end,
            x_start,
            x_end,
            start: 0,
            end: extent(y_start, y_end) * extent(x_start, x_end),
        }
    }
}

/// The smaller of two integers.
pub open spec fn min_of(a: int, b: int) -> int {
    if a < b {
        a
    } else {
        b
    }
}

/// Where the `i`-th of `n` nearly equal parts of the window of `v` begins:
/// every part holds `len / n` positions, and the first `len % n` parts one more.
pub open spec fn split_point(v: GridView, n: int, i: int) -> int {
    v.start + i * (v.len() / n) + min_of(i, v.len() % n)
}

/// The number of parts of at most `c` positions that `len` positions make.
pub open spec fn chunk_count(len: int, c: int) -> int {
    (len + c - 1) / c
}

/// The window of the `i`-th part of at most `c` positions of the window of `v`.
pub open spec fn chunk_window(v: GridView, c: int, i: int) -> GridView {
    v.with_window(v.start + i * c, min_of(v.start + (i + 1) * c, v.end))
}

/// The cells of a numbering window `start..end` of a rectangle.
pub open spec fn cells(v: GridView, start: int, end: int) -> Seq<(int, int)> {
    v.with_window(start, end).remaining()
}

/// Every position of the row-by-row numbering of a nonempty rectangle names a
/// cell of the rectangle: its row lies in `y_start..y_end` and its column in
/// `x_start..x_end`.
pub proof fn lemma_coord_in_rect(v: GridView, k: int)
    requires
        0 <= k < v.total(),
    ensures
        v.height() > 0,
        v.width() > 0,
        0 <= k / v.width() < v.height(),
        0 <= k % v.width() < v.width(),
        v.y_start <= v.coord(k).0 < v.y_end,
        v.x_start <= v.coord(k).1 < v.x_end,
{
    let h = v.height();
    let w = v.width();
    assert(h > 0 && w > 0) by (nonlinear_arith)
        requires
            0 <= k < h * w,
            h >= 0,
            w >= 0,
    ;
    assert(0 <= k / w < h) by (nonlinear_arith)
        requires
            0 <= k < h * w,
            h > 0,
            w > 0,
    ;
    assert(0 <= k % w < w) by (nonlinear_arith)
        requires
            w > 0,
    ;
}

/// Taking the front position off a nonempty window takes the first cell off
/// the cells still to be visited.
pub(crate) proof fn lemma_remaining_front(v: GridView)
    requires
        v.len() > 0,
    ensures
        v.remaining().len() > 0,
        v.remaining()[0] == v.coord(v.start),
        v.with_window(v.start + 1, v.end).remaining() == v.remaining().drop_first(),
{
    assert(v.with_window(v.start + 1, v.end).remaining() =~= v.remaining().drop_first());
}

/// Taking the back position off a nonempty window takes the last cell off
/// the cells still to be visited.
pub(crate) proof fn lemma_remaining_back(v: GridView)
    requires
        v.len() > 0,
    ensures
        v.remaining().len() > 0,
        v.remaining().last() == v.coord(v.end - 1),
        v.with_window(v.start, v.end - 1).remaining() == v.remaining().drop_last(),
{
    assert(v.with_window(v.start, v.end - 1).remaining() =~= v.remaining().drop_last());
}

/// Moving the front of the window `n` positions forward skips the first `n`
/// cells still to be visited.
pub(crate) proof fn lemma_remaining_skip(v: GridView, n: int)
    requires
        0 <= n,
    ensures
        n <= v.len() ==> v.with_window(v.start + n, v.end).remaining() == v.remaining().skip(n),
        n >= v.len() ==> v.with_window(v.start + n, v.end).remaining().len() == 0,
{
    if n <= v.len() {
        assert(v.with_window(v.start + n, v.end).remaining() =~= v.remaining().skip(n));
    }
}

/// The cells of two adjacent windows, one after the other, are the cells of
/// the window that they make together.
pub(crate) proof fn lemma_remaining_concat(v: GridView, m: int)
    requires
        v.start <= m <= v.end,
    ensures
        v.with_window(v.start, m).remaining() + v.with_window(m, v.end).remaining()
            == v.remaining(),
{
    assert(v.with_window(v.start, m).remaining() + v.with_window(m, v.end).remaining()
        =~= v.remaining());
}

/// The `n` nearly equal parts follow one another and end where the window ends.
pub(crate) proof fn lemma_split_point(v: GridView, n: int, i: int)
    requires
        n > 0,
        0 <= i < n,
    ensures
        split_point(v, n, 0) == v.start,
        split_point(v, n, n) == v.start + v.len(),
        split_point(v, n, i + 1) == split_point(v, n, i) + v.len() / n + (if i < v.len() % n {
            1int
        } else {
            0int
        }),
        v.start <= split_point(v, n, i) <= split_point(v, n, i + 1) <= v.start + v.len(),
{
    let len = v.len();
    let base = len / n;
    let rem = len % n;
    assert(0 <= base && 0 <= rem < n && n * base + rem == len) by (nonlinear_arith)
        requires
            n > 0,
            len >= 0,
            base == len / n,
            rem == len % n,
    ;
    assert((i + 1) * base == i * base + base && 0 <= i * base && (i + 1) * base <= n * base)
        by (nonlinear_arith)
        requires
            0 <= i < n,
            base >= 0,
    ;
}

/// `k` whole parts of `c` positions stay below `len` exactly when `k` is less
/// than the number of parts that `len` positions make.
pub(crate) proof fn lemma_chunk_count(len: int, c: int, k: int)
    requires
        c > 0,
        len >= 0,
        k >= 0,
    ensures
        (k * c < len) == (k < chunk_count(len, c)),
        chunk_count(len, c) >= 0,
        (k + 1) * c == k * c + c,
{
    let q = chunk_count(len, c);
    let r = (len + c - 1) % c;
    assert(len + c - 1 == q * c + r && 0 <= r < c && q >= 0) by (nonlinear_arith)
        requires
            c > 0,
            len >= 0,
            q == (len + c - 1) / c,
            r == (len + c - 1) % c,
    ;
    if k < q {
        assert(k * c <= q * c - c) by (nonlinear_arith)
            requires
                k < q,
                c > 0,
        ;
    } else {
        assert(k * c >= q * c) by (nonlinear_arith)
            requires
                k >= q,
                c > 0,
        ;
    }
    assert((k + 1) * c == k * c + c) by (nonlinear_arith);
}

} // verus!
