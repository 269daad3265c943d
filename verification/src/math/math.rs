use vstd::prelude::*;

use crate::math::const_matrix::ConstMatrix;
use crate::math::dyn_matrix::DynMatrix;
use crate::math::matrix::{mul_cell, Matrix};

verus! {

/// A point in homogeneous coordinates: a 4-element column `(x, y, z, w)`.
pub type Point = Vec<i64>;

/// The axis a rotation turns about.
#[derive(Clone, Copy, Debug, PartialEq, Eq, Structural)]
pub enum RotationAxis {
    X,
    Y,
    Z,
}

/// The basis a cubic curve is generated with.
#[allow(non_camel_case_types)]
#[derive(Clone, Copy, Debug, PartialEq, Eq, Structural)]
pub enum Curve {
    HERMITE,
    BEZIER,
}

/// Builds a homogeneous position: `w` is fixed at 1.
pub fn new_point(x: i64, y: i64, z: i64) -> (p: Point)
    ensures
        p@ == seq![x, y, z, 1i64],
{
    let mut p: Point = Vec::new();
    p.push(x);
    p.push(y);
    p.push(z);
    p.push(1);
    proof {
        assert(p@ =~= seq![x, y, z, 1i64]);
    }
    p
}

/// Entry `(col, row)` of the identity matrix.
pub open spec fn ident_entry(col: int, row: int) -> int {
    if col == row {
        1
    } else {
        0
    }
}

/// Entry `(col, row)` of the translation by `(a, b, c)`: the identity with
/// column 3 carrying the offsets in rows 0 to 2.
pub open spec fn translate_entry(a: i64, b: i64, c: i64, col: int, row: int) -> int {
    if col == 3 && row == 0 {
        a as int
    } else if col == 3 && row == 1 {
        b as int
    } else if col == 3 && row == 2 {
        c as int
    } else {
        ident_entry(col, row)
    }
}

/// Entry `(col, row)` of the scale by `(a, b, c)`: the identity with the
/// first three diagonal entries replaced.
pub open spec fn scale_entry(a: i64, b: i64, c: i64, col: int, row: int) -> int {
    if col == 0 && row == 0 {
        a as int
    } else if col == 1 && row == 1 {
        b as int
    } else if col == 2 && row == 2 {
        c as int
    } else {
        ident_entry(col, row)
    }
}

/// Entry `(col, row)` of the rotation about `axis` whose cosine and sine are
/// `c` and `s`: the identity with the 2-by-2 block of the two other axes
/// replaced by the right-handed rotation block (X turns Y into Z, Y turns Z
/// into X, Z turns X into Y).
pub open spec fn rotate_entry(axis: RotationAxis, c: i64, s: i64, col: int, row: int) -> int {
    match axis {
        RotationAxis::X => {
            if col == 1 && row == 1 {
                c as int
            } else if col == 2 && row == 1 {
                -(s as int)
            } else if col == 1 && row == 2 {
                s as int
            } else if col == 2 && row == 2 {
                c as int
            } else {
                ident_entry(col, row)
            }
        },
        RotationAxis::Y => {
            if col == 0 && row == 0 {
                c as int
            } else if col == 2 && row == 0 {
                s as int
            } else if col == 0 && row == 2 {
                -(s as int)
            } else if col == 2 && row == 2 {
                c as int
            } else {
                ident_entry(col, row)
            }
        },
        RotationAxis::Z => {
            if col == 0 && row == 0 {
                c as int
            } else if col == 1 && row == 0 {
                -(s as int)
            } else if col == 0 && row == 1 {
                s as int
            } else if col == 1 && row == 1 {
                c as int
            } else {
                ident_entry(col, row)
            }
        },
    }
}

impl<const W: usize, const H: usize> ConstMatrix<W, H> {
    /// Builds the translation matrix moving positions by `(a, b, c)`.
    pub fn make_translate(a: i64, b: i64, c: i64) -> (m: Self)
        requires
            W == H,
            4 <= W,
        ensures
            m.wf(),
            forall|col: int, row: int|
                0 <= col < W && 0 <= row < H ==> m.entry(col, row) as int == translate_entry(
                    a,
                    b,
                    c,
                    col,
                    row,
                ),
    {
        let mut m = ConstMatrix::<W, H>::identity();
        let ghost m0 = m;
        m.set(3, 0, a);
        m.set(3, 1, b);
        m.set(3, 2, c);
        proof {
            assert forall|col: int, row: int| 0 <= col < W && 0 <= row < H implies m.entry(
                col,
                row,
            ) as int == translate_entry(a, b, c, col, row) by {
                assert(m0.entry(col, row) as int == ident_entry(col, row));
                assert(m0.entry(3, row) as int == ident_entry(3, row));
            }
        }
        m
    }

    /// Builds the scale matrix stretching positions by `(a, b, c)`.
    pub fn make_scale(a: i64, b: i64, c: i64) -> (m: Self)
        requires
            W == H,
            3 <= W,
        ensures
            m.wf(),
            forall|col: int, row: int|
                0 <= col < W && 0 <= row < H ==> m.entry(col, row) as int == scale_entry(
                    a,
                    b,
                    c,
                    col,
                    row,
                ),
    {
        let mut m = ConstMatrix::<W, H>::identity();
        let ghost m0 = m;
        m.set(0, 0, a);
        m.set(1, 1, b);
        m.set(2, 2, c);
        proof {
            assert forall|col: int, row: int| 0 <= col < W && 0 <= row < H implies m.entry(
                col,
                row,
            ) as int == scale_entry(a, b, c, col, row) by {
                assert(m0.entry(col, row) as int == ident_entry(col, row));
                assert(m0.entry(0, row) as int == ident_entry(0, row));
                assert(m0.entry(1, row) as int == ident_entry(1, row));
                assert(m0.entry(2, row) as int == ident_entry(2, row));
            }
        }
        m
    }

    /// Builds the rotation matrix about `axis` from the cosine and sine of
    /// the angle, placing the signed block by the right-hand convention.
    pub fn make_rotate(axis: RotationAxis, cos_t: i64, sin_t: i64) -> (m: Self)
        requires
            W == H,
            3 <= W,
            -0x4000_0000 <= sin_t <= 0x4000_0000,
        ensures
            m.wf(),
            forall|col: int, row: int|
                0 <= col < W && 0 <= row < H ==> m.entry(col, row) as int == rotate_entry(
                    axis,
                    cos_t,
                    sin_t,
                    col,
                    row,
                ),
    {
        let mut m = ConstMatrix::<W, H>::identity();
        let ghost m0 = m;
        match axis {
            RotationAxis::X => {
                m.set(1, 1, cos_t);
                m.set(2, 1, -sin_t);
                m.set(1, 2, sin_t);
                m.set(2, 2, cos_t);
            },
            RotationAxis::Y => {
                m.set(0, 0, cos_t);
                m.set(2, 0, sin_t);
                m.set(0, 2, -sin_t);
                m.set(2, 2, cos_t);
            },
            RotationAxis::Z => {
                m.set(0, 0, cos_t);
                m.set(1, 0, -sin_t);
                m.set(0, 1, sin_t);
                m.set(1, 1, cos_t);
            },
        }
        proof {
            assert forall|col: int, row: int| 0 <= col < W && 0 <= row < H implies m.entry(
                col,
                row,
            ) as int == rotate_entry(axis, cos_t, sin_t, col, row) by {
                assert(m0.entry(col, row) as int == ident_entry(col, row));
                assert(m0.entry(0, row) as int == ident_entry(0, row));
                assert(m0.entry(1, row) as int == ident_entry(1, row));
                assert(m0.entry(2, row) as int == ident_entry(2, row));
            }
        }
        m
    }
}

/// A homogeneous point as a column of entries.
pub open spec fn box_point(x: int, y: int, z: int) -> Seq<i64> {
    seq![x as i64, y as i64, z as i64, 1i64]
}

/// The 24 endpoint columns of the box wireframe grown from `(x, y, z)`: the
/// box extends `w` toward +x, `h` toward -y and `d` toward -z, and its 12
/// edges are emitted in a fixed order, one column pair per edge.
pub open spec fn box_columns(x: int, y: int, z: int, w: int, h: int, d: int) -> Seq<Seq<i64>> {
    let p0 = box_point(x, y, z);
    let p1 = box_point(x + w, y, z);
    let p2 = box_point(x, y - h, z);
    let p3 = box_point(x + w, y - h, z);
    let p4 = box_point(x, y, z - d);
    let p5 = box_point(x + w, y, z - d);
    let p6 = box_point(x, y - h, z - d);
    let p7 = box_point(x + w, y - h, z - d);
    seq![
        p0, p1, p0, p2, p2, p3, p3, p1, p0, p4, p1, p5, p3, p7, p2, p6, p4, p5, p4, p6, p6, p7,
        p7, p5,
    ]
}

/// The two columns agree on coordinate `i`.
pub open spec fn same_coord(a: Seq<i64>, b: Seq<i64>, i: int) -> bool {
    a[i] == b[i]
}

/// The segment between the two columns is axis-aligned: it varies in at most
/// one of the three coordinates.
pub open spec fn axis_aligned(a: Seq<i64>, b: Seq<i64>) -> bool {
    ||| same_coord(a, b, 0) && same_coord(a, b, 1)
    ||| same_coord(a, b, 0) && same_coord(a, b, 2)
    ||| same_coord(a, b, 1) && same_coord(a, b, 2)
}

/// Box law: the generator emits exactly 12 edges, and every one of them is
/// axis-aligned.
pub proof fn lemma_box_axis_aligned(x: int, y: int, z: int, w: int, h: int, d: int)
    ensures
        box_columns(x, y, z, w, h, d).len() == 24,
        forall|k: int|
            0 <= k < 12 ==> axis_aligned(
                #[trigger] box_columns(x, y, z, w, h, d)[2 * k],
                box_columns(x, y, z, w, h, d)[2 * k + 1],
            ),
{
    let cols = box_columns(x, y, z, w, h, d);
    assert forall|k: int| 0 <= k < 12 implies axis_aligned(#[trigger] cols[2 * k], cols[2 * k
        + 1]) by {
        assert(0 <= 2 * k && 2 * k + 1 < 24);
    }
}

impl DynMatrix {
    /// Appends the 12 wireframe edges of the axis-aligned box grown from
    /// `p0`: `width` toward +x, `height` toward -y and `depth` toward -z.
    pub fn add_box(&mut self, p0: &Point, width: i64, height: i64, depth: i64)
        requires
            old(self).wf(),
            old(self).height_of() == 4,
            p0@.len() == 4,
            old(self).width_of() + 24 <= usize::MAX,
            i64::MIN <= p0@[0] + width <= i64::MAX,
            i64::MIN <= p0@[1] - height <= i64::MAX,
            i64::MIN <= p0@[2] - depth <= i64::MAX,
        ensures
            final(self).wf(),
            final(self).height_of() == 4,
            final(self).width_of() == old(self).width_of() + 24,
            final(self).width_of() % 2 == old(self).width_of() % 2,
            final(self).grid_of() == old(self).grid_of() + box_columns(
                p0@[0] as int,
                p0@[1] as int,
                p0@[2] as int,
                width as int,
                height as int,
                depth as int,
            ),
    {
        let x = p0[0];
        let y = p0[1];
        let z = p0[2];
        let c0 = new_point(x, y, z);
        let c1 = new_point(x + width, y, z);
        let c2 = new_point(x, y - height, z);
        let c3 = new_point(x + width, y - height, z);
        let c4 = new_point(x, y, z - depth);
        let c5 = new_point(x + width, y, z - depth);
        let c6 = new_point(x, y - height, z - depth);
        let c7 = new_point(x + width, y - height, z - depth);

        self.add_edge(&c0, &c1);
        self.add_edge(&c0, &c2);
        self.add_edge(&c2, &c3);
        self.add_edge(&c3, &c1);
        self.add_edge(&c0, &c4);
        self.add_edge(&c1, &c5);
        self.add_edge(&c3, &c7);
        self.add_edge(&c2, &c6);
        self.add_edge(&c4, &c5);
        self.add_edge(&c4, &c6);
        self.add_edge(&c6, &c7);
        self.add_edge(&c7, &c5);
        proof {
            assert(self.grid_of() =~= old(self).grid_of() + box_columns(
                p0@[0] as int,
                p0@[1] as int,
                p0@[2] as int,
                width as int,
                height as int,
                depth as int,
            ));
        }
    }
}

/// A dot product whose inner column is a unit column `e_j` reduces to the
/// single outer entry `a[j][i]`; one that is a single scaled unit column
/// reduces to one product.
proof fn lemma_mul_cell_single(a: Seq<Seq<i64>>, m: Seq<Seq<i64>>, j: int, i: int, n: int, k0: int)
    requires
        0 <= k0 < n,
        forall|k: int| 0 <= k < n && k != k0 ==> #[trigger] m[j][k] == 0i64,
    ensures
        mul_cell(a, m, j, i, n) == a[k0][i] * m[j][k0],
    decreases n,
{
    if n - 1 == k0 {
        lemma_mul_cell_all_zero(a, m, j, i, n - 1);
    } else {
        lemma_mul_cell_single(a, m, j, i, n - 1, k0);
        assert(a[n - 1][i] * m[j][n - 1] == 0) by (nonlinear_arith)
            requires
                m[j][n - 1] == 0,
        ;
    }
}

/// A dot product whose inner column has two possibly nonzero entries, at
/// `k0` and `k1`, reduces to the two products.
proof fn lemma_mul_cell_pair(
    a: Seq<Seq<i64>>,
    m: Seq<Seq<i64>>,
    j: int,
    i: int,
    n: int,
    k0: int,
    k1: int,
)
    requires
        0 <= k0 < k1 < n,
        forall|k: int| 0 <= k < n && k != k0 && k != k1 ==> #[trigger] m[j][k] == 0i64,
    ensures
        mul_cell(a, m, j, i, n) == a[k0][i] * m[j][k0] + a[k1][i] * m[j][k1],
    decreases n,
{
    if n - 1 == k1 {
        lemma_mul_cell_single(a, m, j, i, n - 1, k0);
    } else {
        lemma_mul_cell_pair(a, m, j, i, n - 1, k0, k1);
        assert(a[n - 1][i] * m[j][n - 1] == 0) by (nonlinear_arith)
            requires
                m[j][n - 1] == 0,
        ;
    }
}

/// A dot product against an all-zero inner column is zero.
proof fn lemma_mul_cell_all_zero(a: Seq<Seq<i64>>, m: Seq<Seq<i64>>, j: int, i: int, n: int)
    requires
        forall|k: int| 0 <= k < n ==> #[trigger] m[j][k] == 0i64,
    ensures
        mul_cell(a, m, j, i, n) == 0,
    decreases n,
{
    if n > 0 {
        lemma_mul_cell_all_zero(a, m, j, i, n - 1);
        assert(a[n - 1][i] * m[j][n - 1] == 0) by (nonlinear_arith)
            requires
                m[j][n - 1] == 0,
        ;
    }
}

/// A grid whose entries are those of `translate_entry` for the given
/// offsets.
pub open spec fn is_translate_grid(g: Seq<Seq<i64>>, a: i64, b: i64, c: i64) -> bool {
    forall|col: int, row: int|
        0 <= col < 4 && 0 <= row < 4 ==> #[trigger] g[col][row] as int == translate_entry(
            a,
            b,
            c,
            col,
            row,
        )
}

/// Transform inverse law for translation: composing the translation by
/// `(a, b, c)` with the translation by the negated offsets, in either
/// order, gives the identity in every cell.
pub proof fn lemma_translate_inverse(
    a: i64,
    b: i64,
    c: i64,
    na: i64,
    nb: i64,
    nc: i64,
    g1: Seq<Seq<i64>>,
    g2: Seq<Seq<i64>>,
)
    requires
        a + na == 0,
        b + nb == 0,
        c + nc == 0,
        is_translate_grid(g1, a, b, c),
        is_translate_grid(g2, na, nb, nc),
    ensures
        forall|j: int, i: int|
            0 <= j < 4 && 0 <= i < 4 ==> #[trigger] mul_cell(g2, g1, j, i, 4) == ident_entry(
                j,
                i,
            ),
{
    assert forall|j: int, i: int| 0 <= j < 4 && 0 <= i < 4 implies #[trigger] mul_cell(
        g2,
        g1,
        j,
        i,
        4,
    ) == ident_entry(j, i) by {
        if j < 3 {
            assert(forall|k: int|
                0 <= k < 4 ==> #[trigger] g1[j][k] == (if k == j {
                    1i64
                } else {
                    0i64
                }));
            crate::math::matrix::lemma_mul_cell_identity_right(g2, g1, j, i, 4);
        } else {
            reveal_with_fuel(mul_cell, 5);
            let x0 = g2[0][i] as int;
            let x1 = g2[1][i] as int;
            let x2 = g2[2][i] as int;
            let x3 = g2[3][i] as int;
            assert(mul_cell(g2, g1, 3, i, 4) == x0 * (a as int) + x1 * (b as int) + x2 * (
            c as int) + x3 * 1) by (nonlinear_arith)
                requires
                    mul_cell(g2, g1, 3, i, 4) == mul_cell(g2, g1, 3, i, 3) + g2[3][i] as int
                        * (g1[3][3] as int),
                    mul_cell(g2, g1, 3, i, 3) == mul_cell(g2, g1, 3, i, 2) + g2[2][i] as int
                        * (g1[3][2] as int),
                    mul_cell(g2, g1, 3, i, 2) == mul_cell(g2, g1, 3, i, 1) + g2[1][i] as int
                        * (g1[3][1] as int),
                    mul_cell(g2, g1, 3, i, 1) == mul_cell(g2, g1, 3, i, 0) + g2[0][i] as int
                        * (g1[3][0] as int),
                    mul_cell(g2, g1, 3, i, 0) == 0,
                    g1[3][0] == a,
                    g1[3][1] == b,
                    g1[3][2] == c,
                    g1[3][3] == 1i64,
                    x0 == g2[0][i] as int,
                    x1 == g2[1][i] as int,
                    x2 == g2[2][i] as int,
                    x3 == g2[3][i] as int,
            ;
            if i == 0 {
                assert(x0 * (a as int) + x1 * (b as int) + x2 * (c as int) + x3 * 1 == 0)
                    by (nonlinear_arith)
                    requires
                        x0 == 1,
                        x1 == 0,
                        x2 == 0,
                        x3 + a == 0,
                ;
            } else if i == 1 {
                assert(x0 * (a as int) + x1 * (b as int) + x2 * (c as int) + x3 * 1 == 0)
                    by (nonlinear_arith)
                    requires
                        x0 == 0,
                        x1 == 1,
                        x2 == 0,
                        x3 + b == 0,
                ;
            } else if i == 2 {
                assert(x0 * (a as int) + x1 * (b as int) + x2 * (c as int) + x3 * 1 == 0)
                    by (nonlinear_arith)
                    requires
                        x0 == 0,
                        x1 == 0,
                        x2 == 1,
                        x3 + c == 0,
                ;
            } else {
                assert(x0 * (a as int) + x1 * (b as int) + x2 * (c as int) + x3 * 1 == 1)
                    by (nonlinear_arith)
                    requires
                        x0 == 0,
                        x1 == 0,
                        x2 == 0,
                        x3 == 1,
                ;
            }
        }
    }
}

/// A grid whose entries are those of `scale_entry` for the given factors.
pub open spec fn is_scale_grid(g: Seq<Seq<i64>>, a: i64, b: i64, c: i64) -> bool {
    forall|col: int, row: int|
        0 <= col < 4 && 0 <= row < 4 ==> #[trigger] g[col][row] as int == scale_entry(
            a,
            b,
            c,
            col,
            row,
        )
}

/// Transform inverse law for scaling: composing the scale by `(a, b, c)`
/// with the scale by reciprocal factors gives the identity in every cell.
/// Over exact scalars the reciprocal hypothesis is `a * ra == 1` and so on.
pub proof fn lemma_scale_inverse(
    a: i64,
    b: i64,
    c: i64,
    ra: i64,
    rb: i64,
    rc: i64,
    g1: Seq<Seq<i64>>,
    g2: Seq<Seq<i64>>,
)
    requires
        a * ra == 1,
        b * rb == 1,
        c * rc == 1,
        is_scale_grid(g1, a, b, c),
        is_scale_grid(g2, ra, rb, rc),
    ensures
        forall|j: int, i: int|
            0 <= j < 4 && 0 <= i < 4 ==> #[trigger] mul_cell(g2, g1, j, i, 4) == ident_entry(
                j,
                i,
            ),
{
    assert forall|j: int, i: int| 0 <= j < 4 && 0 <= i < 4 implies #[trigger] mul_cell(
        g2,
        g1,
        j,
        i,
        4,
    ) == ident_entry(j, i) by {
        assert(forall|k: int| 0 <= k < 4 && k != j ==> #[trigger] g1[j][k] == 0i64);
        lemma_mul_cell_single(g2, g1, j, i, 4, j);
        let u = g2[j][i] as int;
        let v = g1[j][j] as int;
        if i == j {
            assert(u * v == 1) by (nonlinear_arith)
                requires
                    (j == 0 && u == ra as int && v == a as int && (a as int) * (ra as int) == 1)
                        || (j == 1 && u == rb as int && v == b as int && (b as int) * (rb as int)
                        == 1) || (j == 2 && u == rc as int && v == c as int && (c as int) * (
                    rc as int) == 1) || (j == 3 && u == 1 && v == 1),
            ;
        } else {
            assert(u * v == 0) by (nonlinear_arith)
                requires
                    u == 0,
            ;
        }
    }
}

/// A grid whose entries are those of `rotate_entry` for the given axis,
/// cosine and sine.
pub open spec fn is_rotate_grid(g: Seq<Seq<i64>>, axis: RotationAxis, c: i64, s: i64) -> bool {
    forall|col: int, row: int|
        0 <= col < 4 && 0 <= row < 4 ==> #[trigger] g[col][row] as int == rotate_entry(
            axis,
            c,
            s,
            col,
            row,
        )
}

/// Transform inverse law for rotation: on the unit circle
/// (`c * c + s * s == 1`, as for the cosine and sine of any angle),
/// composing the rotation for angle theta with the rotation for minus theta
/// (same cosine, negated sine) gives the identity in every cell.
pub proof fn lemma_rotate_inverse(
    axis: RotationAxis,
    c: i64,
    s: i64,
    ns: i64,
    g1: Seq<Seq<i64>>,
    g2: Seq<Seq<i64>>,
)
    requires
        (c as int) * (c as int) + (s as int) * (s as int) == 1,
        s + ns == 0,
        is_rotate_grid(g1, axis, c, s),
        is_rotate_grid(g2, axis, c, ns),
    ensures
        forall|j: int, i: int|
            0 <= j < 4 && 0 <= i < 4 ==> #[trigger] mul_cell(g2, g1, j, i, 4) == ident_entry(
                j,
                i,
            ),
{
    let ci = c as int;
    let si = s as int;
    // Block coordinates: the rotation touches columns and rows u0 and u1,
    // and within the block, column u0 of the inner grid is (ci, sg) with the
    // axis-dependent sign sg.
    let (u0, u1) = match axis {
        RotationAxis::X => (1int, 2int),
        RotationAxis::Y => (0int, 2int),
        RotationAxis::Z => (0int, 1int),
    };
    let sg: int = match axis {
        RotationAxis::X => si,
        RotationAxis::Y => -si,
        RotationAxis::Z => si,
    };
    assert(ci * ci + sg * sg == 1) by (nonlinear_arith)
        requires
            ci * ci + si * si == 1,
            sg == si || sg == -si,
    ;
    assert forall|j: int, i: int| 0 <= j < 4 && 0 <= i < 4 implies #[trigger] mul_cell(
        g2,
        g1,
        j,
        i,
        4,
    ) == ident_entry(j, i) by {
        if j != u0 && j != u1 {
            assert(forall|k: int|
                0 <= k < 4 ==> #[trigger] g1[j][k] == (if k == j {
                    1i64
                } else {
                    0i64
                }));
            crate::math::matrix::lemma_mul_cell_identity_right(g2, g1, j, i, 4);
        } else {
            assert(forall|k: int|
                0 <= k < 4 && k != u0 && k != u1 ==> #[trigger] g1[j][k] == 0i64);
            lemma_mul_cell_pair(g2, g1, j, i, 4, u0, u1);
            let p = g2[u0][i] as int;
            let q = g2[u1][i] as int;
            let v = g1[j][u0] as int;
            let w = g1[j][u1] as int;
            assert((j == u0 && v == ci && w == sg) || (j == u1 && v == -sg && w == ci));
            if i == u0 || i == u1 {
                assert((i == u0 && p == ci && q == sg) || (i == u1 && p == -sg && q == ci));
                assert(p * v + q * w == ident_entry(j, i)) by (nonlinear_arith)
                    requires
                        ci * ci + sg * sg == 1,
                        (j == u0 && v == ci && w == sg) || (j == u1 && v == -sg && w == ci),
                        (i == u0 && p == ci && q == sg) || (i == u1 && p == -sg && q == ci),
                        ident_entry(j, i) == (if j == i {
                            1int
                        } else {
                            0int
                        }),
                        u0 != u1,
                        j == u0 || j == u1,
                        i == u0 || i == u1,
                ;
            } else {
                assert(p == 0 && q == 0);
                assert(p * v + q * w == 0) by (nonlinear_arith)
                    requires
                        p == 0,
                        q == 0,
                ;
            }
        }
    }
}

/// The dot product of rows `r1` and `r2` of the 3-by-3 rotation block.
pub open spec fn rotate_row_dot(axis: RotationAxis, c: i64, s: i64, r1: int, r2: int) -> int {
    rotate_entry(axis, c, s, 0, r1) * rotate_entry(axis, c, s, 0, r2) + rotate_entry(
        axis,
        c,
        s,
        1,
        r1,
    ) * rotate_entry(axis, c, s, 1, r2) + rotate_entry(axis, c, s, 2, r1) * rotate_entry(
        axis,
        c,
        s,
        2,
        r2,
    )
}

/// The dot product of columns `c1` and `c2` of the 3-by-3 rotation block.
pub open spec fn rotate_col_dot(axis: RotationAxis, c: i64, s: i64, c1: int, c2: int) -> int {
    rotate_entry(axis, c, s, c1, 0) * rotate_entry(axis, c, s, c2, 0) + rotate_entry(
        axis,
        c,
        s,
        c1,
        1,
    ) * rotate_entry(axis, c, s, c2, 1) + rotate_entry(axis, c, s, c1, 2) * rotate_entry(
        axis,
        c,
        s,
        c2,
        2,
    )
}

/// Rotation orthonormality law: on the unit circle (`c * c + s * s == 1`,
/// as for the cosine and sine of any angle), the rows and the columns of
/// the 3-by-3 rotation block are unit length and mutually orthogonal.
pub proof fn lemma_rotate_orthonormal(axis: RotationAxis, c: i64, s: i64)
    requires
        (c as int) * (c as int) + (s as int) * (s as int) == 1,
    ensures
        forall|r1: int, r2: int|
            0 <= r1 < 3 && 0 <= r2 < 3 ==> #[trigger] rotate_row_dot(axis, c, s, r1, r2)
                == ident_entry(r1, r2),
        forall|c1: int, c2: int|
            0 <= c1 < 3 && 0 <= c2 < 3 ==> #[trigger] rotate_col_dot(axis, c, s, c1, c2)
                == ident_entry(c1, c2),
{
    let ci = c as int;
    let si = s as int;
    lemma_product_identities(ci, si);
    assert forall|r1: int, r2: int| 0 <= r1 < 3 && 0 <= r2 < 3 implies #[trigger] rotate_row_dot(
        axis,
        c,
        s,
        r1,
        r2,
    ) == ident_entry(r1, r2) by {
        lemma_product_identities(ci, si);
    }
    assert forall|c1: int, c2: int| 0 <= c1 < 3 && 0 <= c2 < 3 implies #[trigger] rotate_col_dot(
        axis,
        c,
        s,
        c1,
        c2,
    ) == ident_entry(c1, c2) by {
        lemma_product_identities(ci, si);
    }
}

/// The product rearrangements that the orthonormality cases need, over the
/// mathematical cosine and sine.
proof fn lemma_product_identities(ci: int, si: int)
    ensures
        (-si) * (-si) == si * si,
        ci * si == si * ci,
        ci * (-si) == -(si * ci),
        (-si) * ci == -(si * ci),
        si * (-si) == -(si * si),
        (-si) * si == -(si * si),
        ci * 0 == 0,
        0 * ci == 0,
        si * 0 == 0,
        0 * si == 0,
        (-si) * 0 == 0,
        0 * (-si) == 0,
        ci * 1 == ci,
        1 * ci == ci,
        si * 1 == si,
        1 * si == si,
{
    assert((-si) * (-si) == si * si && ci * si == si * ci && ci * (-si) == -(si * ci) && (-si)
        * ci == -(si * ci) && si * (-si) == -(si * si) && (-si) * si == -(si * si) && ci * 0 == 0
        && 0 * ci == 0 && si * 0 == 0 && 0 * si == 0 && (-si) * 0 == 0 && 0 * (-si) == 0 && ci * 1
        == ci && 1 * ci == ci && si * 1 == si && 1 * si == si) by (nonlinear_arith);
}

} // verus!
