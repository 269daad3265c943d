use vstd::prelude::*;

use crate::math::matrix::{
    grid_bounded, grid_wf, lemma_mul_cell_bound, mul_cell, Matrix, ENTRY_LIMIT,
};

verus! {

/// A fixed-dimension column-major matrix of `i64` scalars: `W` columns of
/// `H` rows, both fixed at compile time. Transform matrices are the 4-by-4
/// instance.
pub struct ConstMatrix<const W: usize, const H: usize> {
    matrix: Vec<Vec<i64>>,
}

impl<const W: usize, const H: usize> ConstMatrix<W, H> {
    /// The grid, as a sequence of `W` columns of `H` entries.
    pub closed spec fn grid_of(self) -> Seq<Seq<i64>> {
        Seq::new(self.matrix@.len() as nat, |c: int| self.matrix@[c]@)
    }

    /// The storage holds exactly `W` columns of `H` entries each.
    pub open spec fn wf(self) -> bool {
        &&& self.grid_of().len() == W as int
        &&& grid_wf(self.grid_of(), H as int)
    }

    /// The entry at column `col`, row `row`.
    pub open spec fn entry(self, col: int, row: int) -> i64 {
        self.grid_of()[col][row]
    }

    /// Builds the matrix holding the given columns of entries.
    pub fn from(arr: [[i64; H]; W]) -> (m: Self)
        ensures
            m.wf(),
            forall|c: int, r: int|
                0 <= c < W && 0 <= r < H ==> m.entry(c, r) == arr@[c]@[r],
    {
        let mut cols: Vec<Vec<i64>> = Vec::new();
        let mut c: usize = 0;
        while c < W
            invariant
                c <= W,
                cols@.len() == c,
                forall|cc: int| 0 <= cc < c ==> (#[trigger] cols@[cc])@.len() == H as int,
                forall|cc: int, r: int|
                    0 <= cc < c && 0 <= r < H ==> cols@[cc]@[r] == arr@[cc]@[r],
            decreases W - c,
        {
            let src = arr[c];
            let mut col: Vec<i64> = Vec::new();
            let mut r: usize = 0;
            while r < H
                invariant
                    r <= H,
                    col@.len() == r,
                    forall|rr: int| 0 <= rr < r ==> col@[rr] == src@[rr],
                decreases H - r,
            {
                col.push(src[r]);
                r = r + 1;
            }
            cols.push(col);
            c = c + 1;
        }
        let m = ConstMatrix { matrix: cols };
        proof {
            assert forall|c: int, r: int| 0 <= c < W && 0 <= r < H implies m.entry(c, r)
                == arr@[c]@[r] by {
                assert(m.grid_of()[c] == m.matrix@[c]@);
            }
        }
        m
    }

    /// Builds the identity matrix: 1 on the diagonal, 0 elsewhere. Asking a
    /// non-square shape for an identity is a caller error.
    pub fn identity() -> (m: Self)
        requires
            W == H,
        ensures
            m.wf(),
            forall|c: int, r: int|
                0 <= c < W && 0 <= r < H ==> m.entry(c, r) == (if c == r {
                    1i64
                } else {
                    0i64
                }),
    {
        let mut cols: Vec<Vec<i64>> = Vec::new();
        let mut c: usize = 0;
        while c < W
            invariant
                c <= W,
                cols@.len() == c,
                forall|cc: int| 0 <= cc < c ==> (#[trigger] cols@[cc])@.len() == H as int,
                forall|cc: int, r: int|
                    0 <= cc < c && 0 <= r < H ==> cols@[cc]@[r] == (if cc == r {
                        1i64
                    } else {
                        0i64
                    }),
            decreases W - c,
        {
            let mut col: Vec<i64> = Vec::new();
            let mut r: usize = 0;
            while r < H
                invariant
                    r <= H,
                    col@.len() == r,
                    forall|rr: int|
                        0 <= rr < r ==> col@[rr] == (if c == rr {
                            1i64
                        } else {
                            0i64
                        }),
                decreases H - r,
            {
                if r == c {
                    col.push(1);
                } else {
                    col.push(0);
                }
                r = r + 1;
            }
            cols.push(col);
            c = c + 1;
        }
        let m = ConstMatrix { matrix: cols };
        proof {
            assert forall|c: int, r: int| 0 <= c < W && 0 <= r < H implies m.entry(c, r) == (if c
                == r {
                1i64
            } else {
                0i64
            }) by {
                assert(m.grid_of()[c] == m.matrix@[c]@);
            }
        }
        m
    }

    /// Replaces `self` with the composition `other * self`: `other` is the
    /// new outer transform, `self` the previously accumulated one. The
    /// column count of `other` must equal the row count of `self`; a
    /// mismatch is a caller error. Entries must stay within `ENTRY_LIMIT`
    /// so that the four-term dot products cannot overflow.
    #[verifier::loop_isolation(false)]
    pub fn multiply<const MW: usize, const MH: usize>(&mut self, other: &ConstMatrix<MW, MH>)
        requires
            old(self).wf(),
            other.wf(),
            MW == H,
            MW <= MH,
            H <= 4,
            grid_bounded(old(self).grid_of(), ENTRY_LIMIT as int),
            grid_bounded(other.grid_of(), ENTRY_LIMIT as int),
        ensures
            final(self).wf(),
            forall|j: int, i: int|
                0 <= j < W && 0 <= i < H ==> final(self).entry(j, i) == mul_cell(
                    other.grid_of(),
                    old(self).grid_of(),
                    j,
                    i,
                    H as int,
                ),
    {
        let ghost ag = other.grid_of();
        let ghost mg = self.grid_of();
        let mut cols: Vec<Vec<i64>> = Vec::new();
        let mut j: usize = 0;
        while j < W
            invariant
                j <= W,
                cols@.len() == j,
                forall|jj: int| 0 <= jj < j ==> (#[trigger] cols@[jj])@.len() == H as int,
                forall|jj: int, i: int|
                    0 <= jj < j && 0 <= i < H ==> cols@[jj]@[i] == mul_cell(
                        ag,
                        mg,
                        jj,
                        i,
                        H as int,
                    ),
            decreases W - j,
        {
            let mut col: Vec<i64> = Vec::new();
            let mut i: usize = 0;
            while i < H
                invariant
                    i <= H,
                    col@.len() == i,
                    forall|ii: int|
                        0 <= ii < i ==> col@[ii] == mul_cell(ag, mg, j as int, ii, H as int),
                decreases H - i,
            {
                let mut acc: i64 = 0;
                let mut k: usize = 0;
                while k < H
                    invariant
                        k <= H,
                        acc as int == mul_cell(ag, mg, j as int, i as int, k as int),
                    decreases H - k,
                {
                    proof {
                        assert forall|kk: int| 0 <= kk < H implies i < (
                        #[trigger] ag[kk]).len() by {
                            assert(ag[kk].len() == MH as int);
                        }
                        lemma_mul_cell_bound(
                            ag,
                            mg,
                            j as int,
                            i as int,
                            k as int,
                            ENTRY_LIMIT as int,
                        );
                        let x = ag[k as int][i as int];
                        let y = mg[j as int][k as int];
                        assert(ag[k as int].len() == MH as int);
                        assert(mg[j as int].len() == H as int);
                        assert(-(ENTRY_LIMIT as int) <= x <= ENTRY_LIMIT as int);
                        assert(-(ENTRY_LIMIT as int) <= y <= ENTRY_LIMIT as int);
                        assert(-(ENTRY_LIMIT as int) * (ENTRY_LIMIT as int) <= x * y <= (
                        ENTRY_LIMIT as int) * (ENTRY_LIMIT as int)) by (nonlinear_arith)
                            requires
                                -(ENTRY_LIMIT as int) <= x <= ENTRY_LIMIT as int,
                                -(ENTRY_LIMIT as int) <= y <= ENTRY_LIMIT as int,
                        ;
                    }
                    acc = acc + other.get(k, i) * self.get(j, k);
                    k = k + 1;
                }
                col.push(acc);
                i = i + 1;
            }
            cols.push(col);
            j = j + 1;
        }
        self.matrix = cols;
        proof {
            assert forall|j: int, i: int| 0 <= j < W && 0 <= i < H implies self.entry(j, i)
                == mul_cell(ag, mg, j, i, H as int) by {
                assert(self.grid_of()[j] == self.matrix@[j]@);
            }
        }
    }
}

impl<const W: usize, const H: usize> Matrix for ConstMatrix<W, H> {
    open spec fn width_spec(&self) -> int {
        W as int
    }

    open spec fn height_spec(&self) -> int {
        H as int
    }

    open spec fn grid(&self) -> Seq<Seq<i64>> {
        self.grid_of()
    }

    open spec fn inv(&self) -> bool {
        self.wf()
    }

    fn get(&self, col: usize, row: usize) -> (v: i64) {
        proof {
            assert(self.grid_of()[col as int] == self.matrix@[col as int]@);
        }
        let c: &Vec<i64> = &self.matrix[col];
        c[row]
    }

    fn set(&mut self, col: usize, row: usize, val: i64) {
        proof {
            assert(self.grid_of()[col as int] == self.matrix@[col as int]@);
        }
        let c: &mut Vec<i64> = &mut self.matrix[col];
        c[row] = val;
        proof {
            let oldg = old(self).grid_of();
            let target = oldg.update(col as int, oldg[col as int].update(row as int, val));
            assert forall|cc: int| 0 <= cc < self.grid_of().len() implies self.grid_of()[cc]
                == target[cc] by {
                assert(self.grid_of()[cc] == self.matrix@[cc]@);
                assert(oldg[cc] == old(self).matrix@[cc]@);
            }
            assert(self.grid_of() =~= target);
        }
    }

    fn width(&self) -> (w: usize) {
        W
    }

    fn height(&self) -> (h: usize) {
        H
    }
}

impl<const W: usize, const H: usize> Default for ConstMatrix<W, H> {
    /// The all-zero matrix.
    fn default() -> (m: Self)
        ensures
            m.wf(),
            forall|c: int, r: int| 0 <= c < W && 0 <= r < H ==> m.entry(c, r) == 0i64,
    {
        let mut cols: Vec<Vec<i64>> = Vec::new();
        let mut c: usize = 0;
        while c < W
            invariant
                c <= W,
                cols@.len() == c,
                forall|cc: int| 0 <= cc < c ==> (#[trigger] cols@[cc])@.len() == H as int,
                forall|cc: int, r: int| 0 <= cc < c && 0 <= r < H ==> cols@[cc]@[r] == 0i64,
            decreases W - c,
        {
            let mut col: Vec<i64> = Vec::new();
            let mut r: usize = 0;
            while r < H
                invariant
                    r <= H,
                    col@.len() == r,
                    forall|rr: int| 0 <= rr < r ==> col@[rr] == 0i64,
                decreases H - r,
            {
                col.push(0);
                r = r + 1;
            }
            cols.push(col);
            c = c + 1;
        }
        let m = ConstMatrix { matrix: cols };
        proof {
            assert forall|c: int, r: int| 0 <= c < W && 0 <= r < H implies m.entry(c, r)
                == 0i64 by {
                assert(m.grid_of()[c] == m.matrix@[c]@);
            }
        }
        m
    }
}

} // verus!
