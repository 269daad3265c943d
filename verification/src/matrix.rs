use vstd::prelude::*;

use crate::math::grid_bounded;
use crate::math::lemma_mul_cell_bound;
use crate::math::mul_cell;
use crate::math::Point;
use crate::math::ENTRY_LIMIT;

verus! {

/// A plain fixed-dimension matrix: `W` columns of `H` entries, filled
/// column by column.
pub struct ConstMatrix<const W: usize, const H: usize> {
    arr: Vec<Vec<i64>>,
}

impl<const W: usize, const H: usize> ConstMatrix<W, H> {
    /// The grid, as a sequence of columns.
    pub closed spec fn grid_of(self) -> Seq<Seq<i64>> {
        Seq::new(self.arr@.len() as nat, |c: int| self.arr@[c]@)
    }

    /// The storage holds exactly `W` columns of `H` entries each.
    pub open spec fn wf(self) -> bool {
        &&& self.grid_of().len() == W as int
        &&& forall|c: int|
            0 <= c < self.grid_of().len() ==> (#[trigger] self.grid_of()[c]).len() == H as int
    }

    /// The entry at column `col`, row `row`.
    pub open spec fn entry(self, col: int, row: int) -> i64 {
        self.grid_of()[col][row]
    }

    /// Builds the all-zero matrix.
    pub fn new() -> (m: Self)
        ensures
            m.wf(),
            forall|c: int, r: int| 0 <= c < W && 0 <= r < H ==> m.entry(c, r) == 0i64,
    {
        let mut cols: Vec<Vec<i64>> = Vec::new();
        let mut c: usize = 0;
        while c < W
            invariant
                c <= W,
                cols@.len() == c,
                forall|cc: int| 0 <= cc < c ==> (#[trigger] cols@[cc])@.len() == H as int,
                forall|cc: int, r: int| 0 <= cc < c && 0 <= r < H ==> cols@[cc]@[r] == 0i64,
            decreases W - c,
        {
            let mut col: Vec<i64> = Vec::new();
            let mut r: usize = 0;
            while r < H
                invariant
                    r <= H,
                    col@.len() == r,
                    forall|rr: int| 0 <= rr < r ==> col@[rr] == 0i64,
                decreases H - r,
            {
                col.push(0);
                r = r + 1;
            }
            cols.push(col);
            c = c + 1;
        }
        let m = ConstMatrix { arr: cols };
        proof {
            assert forall|c: int, r: int| 0 <= c < W && 0 <= r < H implies m.entry(c, r)
                == 0i64 by {
                assert(m.grid_of()[c] == m.arr@[c]@);
            }
        }
        m
    }

    /// Reads the entry at `(col, row)`; out-of-bounds access is a caller
    /// error.
    pub fn get(&self, col: usize, row: usize) -> (v: i64)
        requires
            self.wf(),
            col < W,
            row < H,
        ensures
            v == self.entry(col as int, row as int),
    {
        proof {
            assert(self.grid_of()[col as int] == self.arr@[col as int]@);
        }
        let c: &Vec<i64> = &self.arr[col];
        c[row]
    }

    /// Replaces column `col_num` with the given entries. An out-of-range
    /// column is a caller error.
    #[verifier::loop_isolation(false)]
    pub fn set_col(&mut self, col_num: usize, col: &[i64; H])
        requires
            old(self).wf(),
            col_num < W,
        ensures
            final(self).wf(),
            final(self).grid_of() == old(self).grid_of().update(col_num as int, col@),
    {
        let mut newcol: Vec<i64> = Vec::new();
        let mut r: usize = 0;
        while r < H
            invariant
                r <= H,
                newcol@.len() == r,
                forall|rr: int| 0 <= rr < r ==> newcol@[rr] == col@[rr],
            decreases H - r,
        {
            newcol.push(col[r]);
            r = r + 1;
        }
        proof {
            assert(newcol@ =~= col@);
        }
        self.arr[col_num] = newcol;
        proof {
            assert(self.grid_of() =~= old(self).grid_of().update(col_num as int, col@));
        }
    }
}

/// A plain growable matrix: a sequence of point columns, each of `height`
/// entries, extended one point at a time.
pub struct Matrix {
    width: usize,
    height: usize,
    arr: Vec<Point>,
}

impl Matrix {
    /// The grid, as a sequence of columns.
    pub closed spec fn grid_of(self) -> Seq<Seq<i64>> {
        Seq::new(self.arr@.len() as nat, |c: int| self.arr@[c]@)
    }

    /// The current number of columns.
    pub closed spec fn width_of(self) -> int {
        self.width as int
    }

    /// The number of rows.
    pub closed spec fn height_of(self) -> int {
        self.height as int
    }

    /// The storage holds exactly `width` columns of `height` entries each.
    pub open spec fn wf(self) -> bool {
        &&& self.grid_of().len() == self.width_of()
        &&& forall|c: int|
            0 <= c < self.grid_of().len() ==> (#[trigger] self.grid_of()[c]).len()
                == self.height_of()
    }

    /// The entry at column `col`, row `row`.
    pub open spec fn entry(self, col: int, row: int) -> i64 {
        self.grid_of()[col][row]
    }

    /// Builds a `width` by `height` all-zero matrix.
    #[verifier::loop_isolation(false)]
    pub fn new(width: usize, height: usize) -> (m: Self)
        ensures
            m.wf(),
            m.width_of() == width,
            m.height_of() == height,
            forall|c: int, r: int| 0 <= c < width && 0 <= r < height ==> m.entry(c, r) == 0i64,
    {
        let mut cols: Vec<Point> = Vec::new();
        let mut c: usize = 0;
        while c < width
            invariant
                c <= width,
                cols@.len() == c,
                forall|cc: int| 0 <= cc < c ==> (#[trigger] cols@[cc])@.len() == height as int,
                forall|cc: int, r: int|
                    0 <= cc < c && 0 <= r < height ==> cols@[cc]@[r] == 0i64,
            decreases width - c,
        {
            let mut col: Point = Vec::new();
            let mut r: usize = 0;
            while r < height
                invariant
                    r <= height,
                    col@.len() == r,
                    forall|rr: int| 0 <= rr < r ==> col@[rr] == 0i64,
                decreases height - r,
            {
                col.push(0);
                r = r + 1;
            }
            cols.push(col);
            c = c + 1;
        }
        let m = Matrix { width, height, arr: cols };
        proof {
            assert forall|c: int, r: int| 0 <= c < width && 0 <= r < height implies m.entry(c, r)
                == 0i64 by {
                assert(m.grid_of()[c] == m.arr@[c]@);
            }
        }
        m
    }

    /// Replaces column `x` with the given point. An out-of-range column or a
    /// point of the wrong height is a caller error.
    pub fn set_inner(&mut self, x: usize, p: Point)
        requires
            old(self).wf(),
            x < old(self).width_of(),
            p@.len() == old(self).height_of(),
        ensures
            final(self).wf(),
            final(self).width_of() == old(self).width_of(),
            final(self).height_of() == old(self).height_of(),
            final(self).grid_of() == old(self).grid_of().update(x as int, p@),
    {
        let ghost pview = p@;
        self.arr[x] = p;
        proof {
            assert(self.grid_of() =~= old(self).grid_of().update(x as int, pview));
        }
    }

    /// Appends one point column.
    pub fn add_point(&mut self, p: Point)
        requires
            old(self).wf(),
            p@.len() == old(self).height_of(),
            old(self).width_of() < usize::MAX,
        ensures
            final(self).wf(),
            final(self).height_of() == old(self).height_of(),
            final(self).width_of() == old(self).width_of() + 1,
            final(self).grid_of() == old(self).grid_of().push(p@),
    {
        let ghost pview = p@;
        self.arr.push(p);
        self.width = self.width + 1;
        proof {
            assert(self.grid_of() =~= old(self).grid_of().push(pview));
        }
    }

    /// Appends the directed segment from `p1` to `p2` as one column pair,
    /// keeping the column count even.
    pub fn add_edge(&mut self, p1: Point, p2: Point)
        requires
            old(self).wf(),
            p1@.len() == old(self).height_of(),
            p2@.len() == old(self).height_of(),
            old(self).width_of() + 2 <= usize::MAX,
        ensures
            final(self).wf(),
            final(self).height_of() == old(self).height_of(),
            final(self).width_of() == old(self).width_of() + 2,
            final(self).width_of() % 2 == old(self).width_of() % 2,
            final(self).grid_of() == old(self).grid_of().push(p1@).push(p2@),
    {
        let ghost v1 = p1@;
        let ghost v2 = p2@;
        self.add_point(p1);
        self.add_point(p2);
    }
}

/// Multiplies the fixed matrix `a` onto the point set `b`, returning a new
/// matrix of `b`'s shape whose cell `(col r, row m)` is the dot product of
/// row `m` of `a` with column `r` of `b`. The column count of `a` must equal
/// the row count of `b`; a mismatch is a caller error. Entries must stay
/// within `ENTRY_LIMIT` so that the dot products cannot overflow.
#[verifier::loop_isolation(false)]
pub fn const_multi<const W: usize, const H: usize>(
    a: ConstMatrix<W, H>,
    b: &Matrix,
) -> (c: Matrix)
    requires
        a.wf(),
        b.wf(),
        b.height_of() == W,
        W <= H,
        W <= 4,
        grid_bounded(a.grid_of(), ENTRY_LIMIT as int),
        grid_bounded(b.grid_of(), ENTRY_LIMIT as int),
    ensures
        c.wf(),
        c.width_of() == b.width_of(),
        c.height_of() == b.height_of(),
        forall|r: int, m: int|
            0 <= r < b.width_of() && 0 <= m < b.height_of() ==> c.entry(r, m) == mul_cell(
                a.grid_of(),
                b.grid_of(),
                r,
                m,
                W as int,
            ),
{
    let ghost ag = a.grid_of();
    let ghost bg = b.grid_of();
    let width: usize = b.width;
    let height: usize = b.height;
    let mut cols: Vec<Point> = Vec::new();
    let mut r: usize = 0;
    while r < width
        invariant
            r <= width,
            cols@.len() == r,
            forall|rr: int| 0 <= rr < r ==> (#[trigger] cols@[rr])@.len() == height as int,
            forall|rr: int, m: int|
                0 <= rr < r && 0 <= m < height ==> cols@[rr]@[m] == mul_cell(
                    ag,
                    bg,
                    rr,
                    m,
                    W as int,
                ),
        decreases width - r,
    {
        let mut col: Point = Vec::new();
        let mut m: usize = 0;
        while m < height
            invariant
                m <= height,
                col@.len() == m,
                forall|mm: int|
                    0 <= mm < m ==> col@[mm] == mul_cell(ag, bg, r as int, mm, W as int),
            decreases height - m,
        {
            let mut acc: i64 = 0;
            let mut k: usize = 0;
            while k < W
                invariant
                    k <= W,
                    acc as int == mul_cell(ag, bg, r as int, m as int, k as int),
                decreases W - k,
            {
                proof {
                    assert forall|kk: int| 0 <= kk < W implies (m as int) < (
                    #[trigger] ag[kk]).len() by {
                        assert(ag[kk].len() == H as int);
                    }
                    lemma_mul_cell_bound(ag, bg, r as int, m as int, k as int, ENTRY_LIMIT as int);
                    let x = ag[k as int][m as int];
                    let y = bg[r as int][k as int];
                    assert(ag[k as int].len() == H as int);
                    assert(bg[r as int].len() == height as int);
                    assert(-(ENTRY_LIMIT as int) <= x <= ENTRY_LIMIT as int);
                    assert(-(ENTRY_LIMIT as int) <= y <= ENTRY_LIMIT as int);
                    assert(-(ENTRY_LIMIT as int) * (ENTRY_LIMIT as int) <= x * y <= (
                    ENTRY_LIMIT as int) * (ENTRY_LIMIT as int)) by (nonlinear_arith)
                        requires
                            -(ENTRY_LIMIT as int) <= x <= ENTRY_LIMIT as int,
                            -(ENTRY_LIMIT as int) <= y <= ENTRY_LIMIT as int,
                    ;
                }
                proof {
                    assert(a.grid_of()[k as int] == a.arr@[k as int]@);
                }
                let arow: &Vec<i64> = &a.arr[k];
                let av: i64 = arow[m];
                let bv: i64 = b.col_entry(r, k);
                acc = acc + av * bv;
                k = k + 1;
            }
            col.push(acc);
            m = m + 1;
        }
        cols.push(col);
        r = r + 1;
    }
    let c = Matrix { width, height, arr: cols };
    proof {
        assert forall|r: int, m: int| 0 <= r < b.width_of() && 0 <= m < b.height_of() implies c
            .entry(r, m) == mul_cell(ag, bg, r, m, W as int) by {
            assert(c.grid_of()[r] == c.arr@[r]@);
        }
    }
    c
}

impl Matrix {
    /// The current number of columns.
    pub fn width(&self) -> (w: usize)
        ensures
            w == self.width_of(),
    {
        self.width
    }

    /// The number of rows.
    pub fn height(&self) -> (h: usize)
        ensures
            h == self.height_of(),
    {
        self.height
    }

    /// Reads the entry at `(col, row)`; out-of-bounds access is a caller
    /// error.
    pub fn col_entry(&self, col: usize, row: usize) -> (v: i64)
        requires
            self.wf(),
            col < self.width_of(),
            row < self.height_of(),
        ensures
            v == self.entry(col as int, row as int),
    {
        proof {
            assert(self.grid_of()[col as int] == self.arr@[col as int]@);
        }
        let c: &Vec<i64> = &self.arr[col];
        c[row]
    }
}

/// Fills the matrix with the identity pattern: 1 where the column and row
/// indices agree, 0 elsewhere.
#[verifier::loop_isolation(false)]
pub fn identity<const W: usize, const H: usize>(array: &mut ConstMatrix<W, H>)
    ensures
        final(array).wf(),
        forall|c: int, r: int|
            0 <= c < W && 0 <= r < H ==> final(array).entry(c, r) == (if c == r {
                1i64
            } else {
                0i64
            }),
{
    let mut cols: Vec<Vec<i64>> = Vec::new();
    let mut c: usize = 0;
    while c < W
        invariant
            c <= W,
            cols@.len() == c,
            forall|cc: int| 0 <= cc < c ==> (#[trigger] cols@[cc])@.len() == H as int,
            forall|cc: int, r: int|
                0 <= cc < c && 0 <= r < H ==> cols@[cc]@[r] == (if cc == r {
                    1i64
                } else {
                    0i64
                }),
        decreases W - c,
    {
        let mut col: Vec<i64> = Vec::new();
        let mut r: usize = 0;
        while r < H
            invariant
                r <= H,
                col@.len() == r,
                forall|rr: int|
                    0 <= rr < r ==> col@[rr] == (if c == rr {
                        1i64
                    } else {
                        0i64
                    }),
            decreases H - r,
        {
            if r == c {
                col.push(1);
            } else {
                col.push(0);
            }
            r = r + 1;
        }
        cols.push(col);
        c = c + 1;
    }
    array.arr = cols;
    proof {
        assert forall|c: int, r: int| 0 <= c < W && 0 <= r < H implies array.entry(c, r) == (if c
            == r {
            1i64
        } else {
            0i64
        }) by {
            assert(array.grid_of()[c] == array.arr@[c]@);
        }
    }
}

/// Builds a homogeneous position: `w` is fixed at 1.
pub fn new_point(x: i64, y: i64, z: i64) -> (p: Point)
    ensures
        p@ == seq![x, y, z, 1i64],
{
    let mut p: Point = Vec::new();
    p.push(x);
    p.push(y);
    p.push(z);
    p.push(1);
    proof {
        assert(p@ =~= seq![x, y, z, 1i64]);
    }
    p
}

} // verus!
