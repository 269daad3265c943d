use vstd::prelude::*;

verus! {

/// Entry bound under which a four-term dot product of `i64` entries cannot
/// overflow: `4 * ENTRY_LIMIT * ENTRY_LIMIT < i64::MAX`.
pub const ENTRY_LIMIT: i64 = 0x4000_0000;

/// A grid given as a sequence of columns, each of height `h`.
pub open spec fn grid_wf(g: Seq<Seq<i64>>, h: int) -> bool {
    forall|c: int| 0 <= c < g.len() ==> (#[trigger] g[c]).len() == h
}

/// Every entry of the grid lies in `[-bound, bound]`.
pub open spec fn grid_bounded(g: Seq<Seq<i64>>, bound: int) -> bool {
    forall|c: int, r: int|
        0 <= c < g.len() && 0 <= r < g[c].len() ==> -bound <= #[trigger] g[c][r] <= bound
}

/// Entry `(col j, row i)` of the matrix product `a * m`: the sum over `k` in
/// `[0, n)` of `a(k, i) * m(j, k)`, where a grid is indexed `[column][row]`.
pub open spec fn mul_cell(a: Seq<Seq<i64>>, m: Seq<Seq<i64>>, j: int, i: int, n: int) -> int
    decreases n,
{
    if n <= 0 {
        0
    } else {
        mul_cell(a, m, j, i, n - 1) + a[n - 1][i] * m[j][n - 1]
    }
}

/// A dot product of `n` entries, each bounded by `bound`, is bounded by
/// `n * bound * bound`.
pub proof fn lemma_mul_cell_bound(
    a: Seq<Seq<i64>>,
    m: Seq<Seq<i64>>,
    j: int,
    i: int,
    n: int,
    bound: int,
)
    requires
        0 <= n,
        0 <= bound,
        grid_bounded(a, bound),
        grid_bounded(m, bound),
        n <= a.len(),
        0 <= i,
        forall|k: int| 0 <= k < n ==> i < (#[trigger] a[k]).len(),
        0 <= j < m.len(),
        n <= m[j].len(),
    ensures
        -(n * bound * bound) <= mul_cell(a, m, j, i, n) <= n * bound * bound,
    decreases n,
{
    if n > 0 {
        lemma_mul_cell_bound(a, m, j, i, n - 1, bound);
        let x = a[n - 1][i];
        let y = m[j][n - 1];
        assert(i < a[n - 1].len());
        assert(-bound <= x <= bound);
        assert(-bound <= y <= bound);
        assert(-(bound * bound) <= x * y <= bound * bound) by (nonlinear_arith)
            requires
                -bound <= x <= bound,
                -bound <= y <= bound,
        ;
        assert((n - 1) * bound * bound + bound * bound == n * bound * bound) by (nonlinear_arith);
    }
}

/// Multiplying by an identity grid on the left leaves each cell unchanged:
/// if column `k` of `a` is 1 at row `k` and 0 elsewhere, then cell `(j, i)`
/// of `a * m` is `m[j][i]`.
pub proof fn lemma_mul_cell_identity(a: Seq<Seq<i64>>, m: Seq<Seq<i64>>, j: int, i: int, n: int)
    requires
        0 <= i < n,
        forall|k: int, r: int|
            0 <= k < n && 0 <= r < n ==> #[trigger] a[k][r] == (if k == r {
                1i64
            } else {
                0i64
            }),
    ensures
        mul_cell(a, m, j, i, n) == m[j][i],
    decreases n,
{
    if i == n - 1 {
        lemma_mul_cell_zero(a, m, j, i, n - 1);
        assert(a[n - 1][i] * m[j][n - 1] == m[j][i]) by (nonlinear_arith)
            requires
                a[n - 1][i] == 1,
                m[j][n - 1] == m[j][i],
        ;
    } else {
        lemma_mul_cell_identity(a, m, j, i, n - 1);
        assert(a[n - 1][i] * m[j][n - 1] == 0) by (nonlinear_arith)
            requires
                a[n - 1][i] == 0,
        ;
    }
}

/// A dot product over columns of `a` that are all zero at row `i` is zero.
proof fn lemma_mul_cell_zero(a: Seq<Seq<i64>>, m: Seq<Seq<i64>>, j: int, i: int, n: int)
    requires
        forall|k: int| 0 <= k < n ==> #[trigger] a[k][i] == 0i64,
    ensures
        mul_cell(a, m, j, i, n) == 0,
    decreases n,
{
    if n > 0 {
        lemma_mul_cell_zero(a, m, j, i, n - 1);
        assert(a[n - 1][i] * m[j][n - 1] == 0) by (nonlinear_arith)
            requires
                a[n - 1][i] == 0,
        ;
    }
}

/// Multiplying by an identity grid on the right also leaves each cell
/// unchanged: if column `j` of the inner grid `m` is 1 at row `j` and 0
/// elsewhere, then cell `(j, i)` of `a * m` is `a[j][i]`.
pub proof fn lemma_mul_cell_identity_right(
    a: Seq<Seq<i64>>,
    m: Seq<Seq<i64>>,
    j: int,
    i: int,
    n: int,
)
    requires
        0 <= j < n,
        forall|k: int|
            0 <= k < n ==> #[trigger] m[j][k] == (if k == j {
                1i64
            } else {
                0i64
            }),
    ensures
        mul_cell(a, m, j, i, n) == a[j][i],
    decreases n,
{
    if j == n - 1 {
        lemma_mul_cell_zero_right(a, m, j, i, n - 1);
        assert(a[n - 1][i] * m[j][n - 1] == a[j][i]) by (nonlinear_arith)
            requires
                m[j][n - 1] == 1,
                a[n - 1][i] == a[j][i],
        ;
    } else {
        lemma_mul_cell_identity_right(a, m, j, i, n - 1);
        assert(a[n - 1][i] * m[j][n - 1] == 0) by (nonlinear_arith)
            requires
                m[j][n - 1] == 0,
        ;
    }
}

/// A dot product against a zero column of the inner grid is zero.
proof fn lemma_mul_cell_zero_right(a: Seq<Seq<i64>>, m: Seq<Seq<i64>>, j: int, i: int, n: int)
    requires
        forall|k: int| 0 <= k < n ==> #[trigger] m[j][k] == 0i64,
    ensures
        mul_cell(a, m, j, i, n) == 0,
    decreases n,
{
    if n > 0 {
        lemma_mul_cell_zero_right(a, m, j, i, n - 1);
        assert(a[n - 1][i] * m[j][n - 1] == 0) by (nonlinear_arith)
            requires
                m[j][n - 1] == 0,
        ;
    }
}

/// Identity law, left side: with the identity grid as the outer factor,
/// every cell of the product equals the matching cell of the inner matrix
/// (`identity * M == M`).
pub proof fn lemma_identity_law(a: Seq<Seq<i64>>, m: Seq<Seq<i64>>, n: int)
    requires
        forall|k: int, r: int|
            0 <= k < n && 0 <= r < n ==> #[trigger] a[k][r] == (if k == r {
                1i64
            } else {
                0i64
            }),
    ensures
        forall|j: int, i: int| 0 <= i < n ==> #[trigger] mul_cell(a, m, j, i, n) == m[j][i],
{
    assert forall|j: int, i: int| 0 <= i < n implies #[trigger] mul_cell(a, m, j, i, n)
        == m[j][i] by {
        lemma_mul_cell_identity(a, m, j, i, n);
    }
}

/// Identity law, right side: with the identity grid as the inner factor,
/// every cell of the product equals the matching cell of the outer matrix
/// (`M * identity == M`).
pub proof fn lemma_identity_law_right(a: Seq<Seq<i64>>, m: Seq<Seq<i64>>, n: int)
    requires
        forall|j: int, k: int|
            0 <= j < n && 0 <= k < n ==> #[trigger] m[j][k] == (if k == j {
                1i64
            } else {
                0i64
            }),
    ensures
        forall|j: int, i: int| 0 <= j < n ==> #[trigger] mul_cell(a, m, j, i, n) == a[j][i],
{
    assert forall|j: int, i: int| 0 <= j < n implies #[trigger] mul_cell(a, m, j, i, n)
        == a[j][i] by {
        assert(forall|k: int|
            0 <= k < n ==> #[trigger] m[j][k] == (if k == j {
                1i64
            } else {
                0i64
            }));
        lemma_mul_cell_identity_right(a, m, j, i, n);
    }
}

/// The shared contract of the two matrix shapes: indexed reads and writes
/// over a column-major grid of `i64` scalars.
pub trait Matrix: Sized {
    /// The number of columns.
    spec fn width_spec(&self) -> int;

    /// The number of rows.
    spec fn height_spec(&self) -> int;

    /// The grid, as a sequence of columns.
    spec fn grid(&self) -> Seq<Seq<i64>>;

    /// Structural well-formedness of the storage.
    spec fn inv(&self) -> bool;

    /// Reads the entry at `(col, row)`; out-of-bounds access is a caller
    /// error.
    fn get(&self, col: usize, row: usize) -> (v: i64)
        requires
            self.inv(),
            0 <= col < self.width_spec(),
            0 <= row < self.height_spec(),
        ensures
            v == self.grid()[col as int][row as int],
    ;

    /// Writes `val` at `(col, row)`; out-of-bounds access is a caller error.
    fn set(&mut self, col: usize, row: usize, val: i64)
        requires
            old(self).inv(),
            0 <= col < old(self).width_spec(),
            0 <= row < old(self).height_spec(),
        ensures
            final(self).inv(),
            final(self).width_spec() == old(self).width_spec(),
            final(self).height_spec() == old(self).height_spec(),
            final(self).grid() == old(self).grid().update(
                col as int,
                old(self).grid()[col as int].update(row as int, val),
            ),
    ;

    /// The current number of columns.
    fn width(&self) -> (w: usize)
        requires
            self.inv(),
        ensures
            w == self.width_spec(),
    ;

    /// The current number of rows.
    fn height(&self) -> (h: usize)
        requires
            self.inv(),
        ensures
            h == self.height_spec(),
    ;
}

/// The text of the first `n` entries of row `r`: each entry's decimal text
/// followed by one space.
pub open spec fn row_text(g: Seq<Seq<i64>>, r: int, n: int) -> Seq<char>
    decreases n,
{
    if n <= 0 {
        Seq::empty()
    } else {
        row_text(g, r, n - 1) + crate::ppm::int_text(g[n - 1][r] as int) + seq![' ']
    }
}

/// The text of the first `rc` rows of the grid: one newline-terminated line
/// per row, columns space-separated.
pub open spec fn rows_text(g: Seq<Seq<i64>>, w: int, rc: int) -> Seq<char>
    decreases rc,
{
    if rc <= 0 {
        Seq::empty()
    } else {
        rows_text(g, w, rc - 1) + row_text(g, rc - 1, w) + seq!['\n']
    }
}

/// Renders a matrix as text for diagnostics: one line per row, the columns'
/// decimal values space-separated.
#[verifier::loop_isolation(false)]
pub fn matrix_text<M: Matrix>(m: &M) -> (s: String)
    requires
        m.inv(),
        0 <= m.width_spec(),
        0 <= m.height_spec(),
    ensures
        s@ == rows_text(m.grid(), m.width_spec(), m.height_spec()),
{
    let ghost g = m.grid();
    let mut out = String::new();
    proof {
        reveal_strlit(" ");
        reveal_strlit("\n");
        assert(out@ =~= rows_text(g, m.width_spec(), 0));
    }
    let w: usize = m.width();
    let h: usize = m.height();
    let mut r: usize = 0;
    while r < h
        invariant
            r <= h,
            out@ == rows_text(g, w as int, r as int),
        decreases h - r,
    {
        let ghost line_start = out@;
        let mut c: usize = 0;
        proof {
            assert(out@ =~= line_start + row_text(g, r as int, 0));
        }
        while c < w
            invariant
                c <= w,
                out@ == line_start + row_text(g, r as int, c as int),
            decreases w - c,
        {
            crate::ppm::push_int(&mut out, m.get(c, r));
            out.append(" ");
            proof {
                reveal_strlit(" ");
                assert(out@ =~= line_start + row_text(g, r as int, c as int + 1));
            }
            c = c + 1;
        }
        out.append("\n");
        proof {
            reveal_strlit("\n");
            assert(out@ =~= rows_text(g, w as int, r as int + 1));
        }
        r = r + 1;
    }
    out
}

} // verus!
