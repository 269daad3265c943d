use vstd::prelude::*;

use crate::math::const_matrix::ConstMatrix;
use crate::math::math::Point;
use crate::math::matrix::{grid_bounded, lemma_mul_cell_bound, mul_cell, Matrix, ENTRY_LIMIT};

verus! {

/// A dynamic-width column-major matrix of `i64` scalars. Used as the edge
/// list: the row count is fixed at 4 (homogeneous points) and columns grow
/// as endpoints are appended, adjacent columns `2k` and `2k + 1` forming one
/// segment.
pub struct DynMatrix {
    width: usize,
    height: usize,
    matrix: Vec<Vec<i64>>,
}

impl DynMatrix {
    /// The grid, as a sequence of columns.
    pub closed spec fn grid_of(self) -> Seq<Seq<i64>> {
        Seq::new(self.matrix@.len() as nat, |c: int| self.matrix@[c]@)
    }

    /// The current number of columns.
    pub closed spec fn width_of(self) -> int {
        self.width as int
    }

    /// The number of rows.
    pub closed spec fn height_of(self) -> int {
        self.height as int
    }

    /// The storage holds exactly `width` columns of `height` entries each.
    pub open spec fn wf(self) -> bool {
        &&& self.grid_of().len() == self.width_of()
        &&& forall|c: int|
            0 <= c < self.grid_of().len() ==> (#[trigger] self.grid_of()[c]).len()
                == self.height_of()
    }

    /// The entry at column `col`, row `row`.
    pub open spec fn entry(self, col: int, row: int) -> i64 {
        self.grid_of()[col][row]
    }

    /// Builds a `width` by `height` all-zero matrix.
    #[verifier::loop_isolation(false)]
    pub fn new(width: usize, height: usize) -> (m: Self)
        ensures
            m.wf(),
            m.width_of() == width,
            m.height_of() == height,
            forall|c: int, r: int| 0 <= c < width && 0 <= r < height ==> m.entry(c, r) == 0i64,
    {
        let mut cols: Vec<Vec<i64>> = Vec::new();
        let mut c: usize = 0;
        while c < width
            invariant
                c <= width,
                cols@.len() == c,
                forall|cc: int| 0 <= cc < c ==> (#[trigger] cols@[cc])@.len() == height as int,
                forall|cc: int, r: int|
                    0 <= cc < c && 0 <= r < height ==> cols@[cc]@[r] == 0i64,
            decreases width - c,
        {
            let mut col: Vec<i64> = Vec::new();
            let mut r: usize = 0;
            while r < height
                invariant
                    r <= height,
                    col@.len() == r,
                    forall|rr: int| 0 <= rr < r ==> col@[rr] == 0i64,
                decreases height - r,
            {
                col.push(0);
                r = r + 1;
            }
            cols.push(col);
            c = c + 1;
        }
        let m = DynMatrix { width, height, matrix: cols };
        proof {
            assert forall|c: int, r: int| 0 <= c < width && 0 <= r < height implies m.entry(c, r)
                == 0i64 by {
                assert(m.grid_of()[c] == m.matrix@[c]@);
            }
        }
        m
    }

    /// Builds a square identity matrix: 1 on the diagonal, 0 elsewhere.
    /// Asking a non-square shape for an identity is a caller error.
    #[verifier::loop_isolation(false)]
    pub fn identity(width: usize, height: usize) -> (m: Self)
        requires
            width == height,
        ensures
            m.wf(),
            m.width_of() == width,
            m.height_of() == height,
            forall|c: int, r: int|
                0 <= c < width && 0 <= r < height ==> m.entry(c, r) == (if c == r {
                    1i64
                } else {
                    0i64
                }),
    {
        let mut cols: Vec<Vec<i64>> = Vec::new();
        let mut c: usize = 0;
        while c < width
            invariant
                c <= width,
                cols@.len() == c,
                forall|cc: int| 0 <= cc < c ==> (#[trigger] cols@[cc])@.len() == height as int,
                forall|cc: int, r: int|
                    0 <= cc < c && 0 <= r < height ==> cols@[cc]@[r] == (if cc == r {
                        1i64
                    } else {
                        0i64
                    }),
            decreases width - c,
        {
            let mut col: Vec<i64> = Vec::new();
            let mut r: usize = 0;
            while r < height
                invariant
                    r <= height,
                    col@.len() == r,
                    forall|rr: int|
                        0 <= rr < r ==> col@[rr] == (if c == rr {
                            1i64
                        } else {
                            0i64
                        }),
                decreases height - r,
            {
                if r == c {
                    col.push(1);
                } else {
                    col.push(0);
                }
                r = r + 1;
            }
            cols.push(col);
            c = c + 1;
        }
        let m = DynMatrix { width, height, matrix: cols };
        proof {
            assert forall|c: int, r: int| 0 <= c < width && 0 <= r < height implies m.entry(c, r)
                == (if c == r {
                1i64
            } else {
                0i64
            }) by {
                assert(m.grid_of()[c] == m.matrix@[c]@);
            }
        }
        m
    }

    /// Appends one column holding the entries of `p`. A point of the wrong
    /// height is a caller error.
    pub fn add_col(&mut self, p: &Point)
        requires
            old(self).wf(),
            p@.len() == old(self).height_of(),
            old(self).width_of() < usize::MAX,
        ensures
            final(self).wf(),
            final(self).height_of() == old(self).height_of(),
            final(self).width_of() == old(self).width_of() + 1,
            final(self).grid_of() == old(self).grid_of().push(p@),
    {
        let col: Vec<i64> = p.clone();
        proof {
            assert(col@ == p@);
        }
        self.matrix.push(col);
        self.width = self.width + 1;
        proof {
            assert(self.grid_of() =~= old(self).grid_of().push(p@));
        }
    }

    /// Appends the directed segment from `p1` to `p2` as one column pair,
    /// keeping the column count even.
    pub fn add_edge(&mut self, p1: &Point, p2: &Point)
        requires
            old(self).wf(),
            p1@.len() == old(self).height_of(),
            p2@.len() == old(self).height_of(),
            old(self).width_of() + 2 <= usize::MAX,
        ensures
            final(self).wf(),
            final(self).height_of() == old(self).height_of(),
            final(self).width_of() == old(self).width_of() + 2,
            final(self).width_of() % 2 == old(self).width_of() % 2,
            final(self).grid_of() == old(self).grid_of().push(p1@).push(p2@),
    {
        self.add_col(p1);
        self.add_col(p2);
    }

    /// Resets the edge list to zero columns.
    pub fn clear(&mut self)
        requires
            old(self).wf(),
        ensures
            final(self).wf(),
            final(self).height_of() == old(self).height_of(),
            final(self).width_of() == 0,
            final(self).grid_of() == Seq::<Seq<i64>>::empty(),
    {
        self.matrix = Vec::new();
        self.width = 0;
        proof {
            assert(self.grid_of() =~= Seq::<Seq<i64>>::empty());
        }
    }

    /// Replaces `self` with the composition `other * self`: applies the
    /// finished cumulative transform `other` onto this point set. The column
    /// count of `other` must equal the row count of `self`; a mismatch is a
    /// caller error. Entries must stay within `ENTRY_LIMIT` so that the
    /// four-term dot products cannot overflow.
    #[verifier::loop_isolation(false)]
    pub fn multiply<const MW: usize, const MH: usize>(&mut self, other: &ConstMatrix<MW, MH>)
        requires
            old(self).wf(),
            other.wf(),
            MW == old(self).height_of(),
            MW <= MH,
            MW <= 4,
            grid_bounded(old(self).grid_of(), ENTRY_LIMIT as int),
            grid_bounded(other.grid_of(), ENTRY_LIMIT as int),
        ensures
            final(self).wf(),
            final(self).width_of() == old(self).width_of(),
            final(self).height_of() == old(self).height_of(),
            forall|j: int, i: int|
                0 <= j < old(self).width_of() && 0 <= i < old(self).height_of()
                    ==> final(self).entry(j, i) == mul_cell(
                    other.grid_of(),
                    old(self).grid_of(),
                    j,
                    i,
                    old(self).height_of(),
                ),
    {
        let ghost ag = other.grid_of();
        let ghost mg = self.grid_of();
        let width: usize = self.width;
        let height: usize = self.height;
        let mut cols: Vec<Vec<i64>> = Vec::new();
        let mut j: usize = 0;
        while j < width
            invariant
                j <= width,
                cols@.len() == j,
                forall|jj: int| 0 <= jj < j ==> (#[trigger] cols@[jj])@.len() == height as int,
                forall|jj: int, i: int|
                    0 <= jj < j && 0 <= i < height ==> cols@[jj]@[i] == mul_cell(
                        ag,
                        mg,
                        jj,
                        i,
                        height as int,
                    ),
            decreases width - j,
        {
            let mut col: Vec<i64> = Vec::new();
            let mut i: usize = 0;
            while i < height
                invariant
                    i <= height,
                    col@.len() == i,
                    forall|ii: int|
                        0 <= ii < i ==> col@[ii] == mul_cell(ag, mg, j as int, ii, height as int),
                decreases height - i,
            {
                let mut acc: i64 = 0;
                let mut k: usize = 0;
                while k < height
                    invariant
                        k <= height,
                        acc as int == mul_cell(ag, mg, j as int, i as int, k as int),
                    decreases height - k,
                {
                    proof {
                        assert forall|kk: int| 0 <= kk < height implies i < (
                        #[trigger] ag[kk]).len() by {
                            assert(ag[kk].len() == MH as int);
                        }
                        lemma_mul_cell_bound(
                            ag,
                            mg,
                            j as int,
                            i as int,
                            k as int,
                            ENTRY_LIMIT as int,
                        );
                        let x = ag[k as int][i as int];
                        let y = mg[j as int][k as int];
                        assert(ag[k as int].len() == MH as int);
                        assert(mg[j as int].len() == height as int);
                        assert(-(ENTRY_LIMIT as int) <= x <= ENTRY_LIMIT as int);
                        assert(-(ENTRY_LIMIT as int) <= y <= ENTRY_LIMIT as int);
                        assert(-(ENTRY_LIMIT as int) * (ENTRY_LIMIT as int) <= x * y <= (
                        ENTRY_LIMIT as int) * (ENTRY_LIMIT as int)) by (nonlinear_arith)
                            requires
                                -(ENTRY_LIMIT as int) <= x <= ENTRY_LIMIT as int,
                                -(ENTRY_LIMIT as int) <= y <= ENTRY_LIMIT as int,
                        ;
                    }
                    acc = acc + other.get(k, i) * self.get(j, k);
                    k = k + 1;
                }
                col.push(acc);
                i = i + 1;
            }
            cols.push(col);
            j = j + 1;
        }
        self.matrix = cols;
        proof {
            assert forall|j: int, i: int|
                0 <= j < old(self).width_of() && 0 <= i < old(self).height_of() implies self.entry(
                j,
                i,
            ) == mul_cell(ag, mg, j, i, old(self).height_of()) by {
                assert(self.grid_of()[j] == self.matrix@[j]@);
            }
        }
    }
}

impl Matrix for DynMatrix {
    open spec fn width_spec(&self) -> int {
        self.width_of()
    }

    open spec fn height_spec(&self) -> int {
        self.height_of()
    }

    open spec fn grid(&self) -> Seq<Seq<i64>> {
        self.grid_of()
    }

    open spec fn inv(&self) -> bool {
        self.wf()
    }

    fn get(&self, col: usize, row: usize) -> (v: i64) {
        proof {
            assert(self.grid_of()[col as int] == self.matrix@[col as int]@);
        }
        let c: &Vec<i64> = &self.matrix[col];
        c[row]
    }

    fn set(&mut self, col: usize, row: usize, val: i64) {
        proof {
            assert(self.grid_of()[col as int] == self.matrix@[col as int]@);
        }
        let c: &mut Vec<i64> = &mut self.matrix[col];
        c[row] = val;
        proof {
            let oldg = old(self).grid_of();
            let target = oldg.update(col as int, oldg[col as int].update(row as int, val));
            assert forall|cc: int| 0 <= cc < self.grid_of().len() implies self.grid_of()[cc]
                == target[cc] by {
                assert(self.grid_of()[cc] == self.matrix@[cc]@);
                assert(oldg[cc] == old(self).matrix@[cc]@);
            }
            assert(self.grid_of() =~= target);
        }
    }

    fn width(&self) -> (w: usize) {
        self.width
    }

    fn height(&self) -> (h: usize) {
        self.height
    }
}

impl Default for DynMatrix {
    /// A fresh empty edge list: zero columns of four rows.
    fn default() -> (m: Self)
        ensures
            m.wf(),
            m.width_of() == 0,
            m.height_of() == 4,
            m.grid_of() == Seq::<Seq<i64>>::empty(),
    {
        let m = DynMatrix { width: 0, height: 4, matrix: Vec::new() };
        proof {
            assert(m.grid_of() =~= Seq::<Seq<i64>>::empty());
        }
        m
    }
}

} // verus!
