use vstd::prelude::*;

use crate::color::Color;
use crate::math::DynMatrix;
use crate::math::Matrix;
use crate::ppm::{ppm_header, ppm_text, push_color, push_dec, raster_text};

verus! {

/// Upper bound on raster dimensions. It keeps every coordinate delta below
/// `2^28`, so that all of the rasterizer's doubled-error terms (at most eight
/// times a delta) stay within `i32`.
pub const DIM_LIMIT: usize = 0x1000_0000;

/// Flat storage index of pixel `(x, y)` in a raster of `w` columns and `h`
/// rows. `y` counts up from the image's geometric bottom, while row 0 of the
/// stored (and serialized) raster is the top scan row, so `y` is inverted
/// against the height.
pub open spec fn flat_index(w: int, h: int, x: int, y: int) -> int {
    x + (h - 1 - y) * w
}

/// The raster `r` after plotting every pixel of `pts`, in order, with color
/// `c`, under the `flat_index` convention for a `w` by `h` raster.
pub open spec fn paint(r: Seq<Color>, w: int, h: int, pts: Seq<(int, int)>, c: Color) -> Seq<Color>
    decreases pts.len(),
{
    if pts.len() == 0 {
        r
    } else {
        paint(r.update(flat_index(w, h, pts[0].0, pts[0].1), c), w, h, pts.drop_first(), c)
    }
}

/// The octant class of the segment from `(x0, y0)` to `(x1, y1)`, selected
/// from the sign and magnitude of the slope `m = (y1 - y0) / (x1 - x0)`:
/// class 0 when the slope is undefined (vertical), class 1 when `0 <= m <= 1`,
/// class 2 when `m > 1`, class 3 when `m < -1`, class 4 when `-1 <= m < 0`.
/// The comparisons are stated exactly, multiplied through by `(x1 - x0)^2`.
pub open spec fn octant_class(x0: int, y0: int, x1: int, y1: int) -> int {
    if x0 == x1 {
        0
    } else {
        let p = (y1 - y0) * (x1 - x0);
        let q = (x1 - x0) * (x1 - x0);
        if p > q {
            2
        } else if 0 <= p && p <= q {
            1
        } else if p < 0 && p >= -q {
            4
        } else {
            3
        }
    }
}

/// Pixels of a vertical line: `y` steps from `y0` up to `y1` at fixed `x`.
pub open spec fn pixels_class0(x: int, y: int, y1: int) -> Seq<(int, int)>
    decreases y1 - y + 1,
{
    if y > y1 {
        Seq::empty()
    } else {
        seq![(x, y)] + pixels_class0(x, y + 1, y1)
    }
}

/// Pixels of a shallow rising line (`0 <= m <= 1`): `x` is the major axis.
/// `a` is the error increment per `x` step, `b` the adjustment per `y` step;
/// `y` advances when the error `d` is positive.
pub open spec fn pixels_class1(x: int, y: int, x1: int, d: int, a: int, b: int) -> Seq<(int, int)>
    decreases x1 - x + 1,
{
    if x > x1 {
        Seq::empty()
    } else if d > 0 {
        seq![(x, y)] + pixels_class1(x + 1, y + 1, x1, d + b + a, a, b)
    } else {
        seq![(x, y)] + pixels_class1(x + 1, y, x1, d + a, a, b)
    }
}

/// Pixels of a steep rising line (`m > 1`): `y` is the major axis and `x`
/// advances when the error `d` is negative.
pub open spec fn pixels_class2(x: int, y: int, y1: int, d: int, a: int, b: int) -> Seq<(int, int)>
    decreases y1 - y + 1,
{
    if y > y1 {
        Seq::empty()
    } else if d < 0 {
        seq![(x, y)] + pixels_class2(x + 1, y + 1, y1, d + a + b, a, b)
    } else {
        seq![(x, y)] + pixels_class2(x, y + 1, y1, d + b, a, b)
    }
}

/// Pixels of a steep falling line (`m < -1`): `y` is the major axis and
/// decreases; `x` advances when the error `d` is positive.
pub open spec fn pixels_class3(x: int, y: int, y1: int, d: int, a: int, b: int) -> Seq<(int, int)>
    decreases y - y1 + 1,
{
    if y < y1 {
        Seq::empty()
    } else if d > 0 {
        seq![(x, y)] + pixels_class3(x + 1, y - 1, y1, d + a - b, a, b)
    } else {
        seq![(x, y)] + pixels_class3(x, y - 1, y1, d - b, a, b)
    }
}

/// Pixels of a shallow falling line (`-1 <= m < 0`): `x` is the major axis;
/// `y` steps down when the error `d` is negative, and the walk also stops if
/// `y` would leave the bottom of the raster.
pub open spec fn pixels_class4(x: int, y: int, x1: int, d: int, a: int, b: int) -> Seq<(int, int)>
    decreases x1 - x + 1,
{
    if x > x1 || y < 0 {
        Seq::empty()
    } else if d < 0 {
        seq![(x, y)] + pixels_class4(x + 1, y - 1, x1, d - b + a, a, b)
    } else {
        seq![(x, y)] + pixels_class4(x + 1, y, x1, d + a, a, b)
    }
}

/// The exact pixel walk of the incremental rasterizer from `(x0, y0)` to
/// `(x1, y1)` before canonicalization: the octant class picks the major axis
/// and the sign conventions; the doubled-error term starts at
/// `2 * (2 * (y1 - y0)) + 2 * (x0 - x1)`.
pub open spec fn help_pixels(x0: int, y0: int, x1: int, y1: int) -> Seq<(int, int)> {
    let a = 4 * (y1 - y0);
    let b = 4 * (x0 - x1);
    let d0 = 2 * (2 * (y1 - y0)) + 2 * (x0 - x1);
    let cls = octant_class(x0, y0, x1, y1);
    if cls == 0 {
        pixels_class0(x0, y0, y1)
    } else if cls == 1 {
        pixels_class1(x0, y0, x1, d0, a, b)
    } else if cls == 2 {
        pixels_class2(x0, y0, y1, d0, a, b)
    } else if cls == 3 {
        pixels_class3(x0, y0, y1, d0, a, b)
    } else {
        pixels_class4(x0, y0, x1, d0, a, b)
    }
}

/// The pixels drawn for the segment from `(x0, y0)` to `(x1, y1)`: the
/// endpoints are first canonicalized so that the walk starts at the lower-x
/// endpoint.
pub open spec fn line_pixels(x0: int, y0: int, x1: int, y1: int) -> Seq<(int, int)> {
    if x0 > x1 {
        help_pixels(x1, y1, x0, y0)
    } else {
        help_pixels(x0, y0, x1, y1)
    }
}

/// The raster after drawing the segments of edge pairs `a` to `b - 1` of the
/// edge-list grid `g` (columns `2k` and `2k + 1` are the endpoints of edge
/// `k`; rows 0 and 1 carry x and y).
pub open spec fn paint_edges(
    r: Seq<Color>,
    w: int,
    h: int,
    g: Seq<Seq<i64>>,
    a: int,
    b: int,
    c: Color,
) -> Seq<Color>
    decreases b - a,
{
    if a >= b {
        r
    } else {
        paint_edges(
            paint(
                r,
                w,
                h,
                line_pixels(
                    g[2 * a][0] as int,
                    g[2 * a][1] as int,
                    g[2 * a + 1][0] as int,
                    g[2 * a + 1][1] as int,
                ),
                c,
            ),
            w,
            h,
            g,
            a + 1,
            b,
            c,
        )
    }
}

/// Drawing one more edge at the end extends the painted prefix.
proof fn lemma_paint_edges_snoc(
    r: Seq<Color>,
    w: int,
    h: int,
    g: Seq<Seq<i64>>,
    a: int,
    b: int,
    c: Color,
)
    requires
        a <= b,
    ensures
        paint_edges(r, w, h, g, a, b + 1, c) == paint(
            paint_edges(r, w, h, g, a, b, c),
            w,
            h,
            line_pixels(
                g[2 * b][0] as int,
                g[2 * b][1] as int,
                g[2 * b + 1][0] as int,
                g[2 * b + 1][1] as int,
            ),
            c,
        ),
    decreases b - a,
{
    let pr = paint(
        r,
        w,
        h,
        line_pixels(
            g[2 * a][0] as int,
            g[2 * a][1] as int,
            g[2 * a + 1][0] as int,
            g[2 * a + 1][1] as int,
        ),
        c,
    );
    if a == b {
        assert(paint_edges(r, w, h, g, a, b, c) == r);
        assert(paint_edges(pr, w, h, g, a + 1, b + 1, c) == pr);
    } else {
        lemma_paint_edges_snoc(pr, w, h, g, a + 1, b, c);
    }
}

/// A raster of colors, `width` by `height`, stored flat with row 0 of storage
/// holding the top scan row (`y` in the plotting interface counts up from the
/// geometric bottom).
pub struct Image {
    width: usize,
    height: usize,
    raster: Vec<Color>,
}

impl Image {
    /// The number of pixel columns.
    pub closed spec fn width_spec(self) -> int {
        self.width as int
    }

    /// The number of pixel rows.
    pub closed spec fn height_spec(self) -> int {
        self.height as int
    }

    /// The stored pixels, flat, in serialization order.
    pub closed spec fn raster_spec(self) -> Seq<Color> {
        self.raster@
    }

    /// The raster always holds exactly `width * height` pixels, and both
    /// dimensions stay below the rasterizer's arithmetic limit.
    pub open spec fn wf(self) -> bool {
        &&& self.raster_spec().len() == self.width_spec() * self.height_spec()
        &&& self.width_spec() <= DIM_LIMIT as int
        &&& self.height_spec() <= DIM_LIMIT as int
    }

    /// Storage index of pixel `(x, y)`.
    pub open spec fn pix_index(self, x: int, y: int) -> int {
        flat_index(self.width_spec(), self.height_spec(), x, y)
    }

    /// Allocates a `width` by `height` raster with every pixel set to `color`.
    pub fn new(width: usize, height: usize, color: Color) -> (img: Image)
        requires
            width <= DIM_LIMIT,
            height <= DIM_LIMIT,
            width * height <= usize::MAX,
        ensures
            img.wf(),
            img.width_spec() == width,
            img.height_spec() == height,
            forall|i: int| 0 <= i < img.raster_spec().len() ==> img.raster_spec()[i] == color,
    {
        let n: usize = width * height;
        let mut raster: Vec<Color> = Vec::new();
        let mut i: usize = 0;
        while i < n
            invariant
                i <= n,
                raster@.len() == i,
                forall|j: int| 0 <= j < i ==> raster@[j] == color,
            decreases n - i,
        {
            raster.push(color);
            i = i + 1;
        }
        Image { width, height, raster }
    }

    /// The number of pixel columns.
    pub fn width(&self) -> (w: usize)
        ensures
            w == self.width_spec(),
    {
        self.width
    }

    /// The number of pixel rows.
    pub fn height(&self) -> (h: usize)
        ensures
            h == self.height_spec(),
    {
        self.height
    }

    /// Reads the pixel at `(x, y)`.
    pub fn get_pixel(&self, x: i32, y: i32) -> (c: Color)
        requires
            self.wf(),
            0 <= x < self.width_spec(),
            0 <= y < self.height_spec(),
        ensures
            c == self.raster_spec()[self.pix_index(x as int, y as int)],
    {
        let idx: usize = self.offset_of(x, y);
        self.raster[idx]
    }

    /// Computes the storage offset of an in-bounds pixel.
    fn offset_of(&self, x: i32, y: i32) -> (idx: usize)
        requires
            self.wf(),
            0 <= x < self.width_spec(),
            0 <= y < self.height_spec(),
        ensures
            idx == self.pix_index(x as int, y as int),
            idx < self.raster_spec().len(),
    {
        let xu: usize = x as usize;
        let yu: usize = y as usize;
        let n: usize = self.raster.len();
        proof {
            lemma_flat_index_in_range(
                self.width_spec(),
                self.height_spec(),
                x as int,
                y as int,
            );
            assert(n == self.width_spec() * self.height_spec());
        }
        xu + (self.height - 1 - yu) * self.width
    }

    /// Overwrites the pixel at `(x, y)` with `color`. Out-of-bounds
    /// coordinates are a caller error: there is no clipping.
    pub fn plot(&mut self, x: i32, y: i32, color: Color)
        requires
            old(self).wf(),
            0 <= x < old(self).width_spec(),
            0 <= y < old(self).height_spec(),
        ensures
            final(self).wf(),
            final(self).width_spec() == old(self).width_spec(),
            final(self).height_spec() == old(self).height_spec(),
            final(self).raster_spec() == old(self).raster_spec().update(
                old(self).pix_index(x as int, y as int),
                color,
            ),
    {
        let idx: usize = self.offset_of(x, y);
        self.raster[idx] = color;
    }

    /// Draws the segment from `(x0, y0)` to `(x1, y1)` in `color`, walking
    /// pixels with the octant-classified incremental-error rule. The walk
    /// starts at the given first endpoint: callers wanting the canonical
    /// ascending-x orientation swap the endpoints first (`draw_line` does).
    #[verifier::loop_isolation(false)]
    #[verifier::rlimit(60)]
    pub fn draw_line_help(&mut self, x0: i32, y0: i32, x1: i32, y1: i32, color: Color)
        requires
            old(self).wf(),
            0 <= x0 < old(self).width_spec(),
            0 <= y0 < old(self).height_spec(),
            0 <= x1 < old(self).width_spec(),
            0 <= y1 < old(self).height_spec(),
        ensures
            final(self).wf(),
            final(self).width_spec() == old(self).width_spec(),
            final(self).height_spec() == old(self).height_spec(),
            final(self).raster_spec() == paint(
                old(self).raster_spec(),
                old(self).width_spec(),
                old(self).height_spec(),
                help_pixels(x0 as int, y0 as int, x1 as int, y1 as int),
                color,
            ),
    {
        let ghost w: int = old(self).width_spec();
        let ghost h: int = old(self).height_spec();
        let ghost r0: Seq<Color> = old(self).raster_spec();
        let ghost pix: Seq<(int, int)> = help_pixels(x0 as int, y0 as int, x1 as int, y1 as int);
        let ghost ddx: int = x1 as int - x0 as int;
        let ghost ddy: int = y1 as int - y0 as int;

        let quad: i32 = if x0 == x1 {
            0
        } else {
            let dyl: i64 = (y1 as i64) - (y0 as i64);
            let dxl: i64 = (x1 as i64) - (x0 as i64);
            proof {
                assert(dyl * dxl <= 0x2000_0000 * 0x2000_0000 && dyl * dxl >= -(0x2000_0000
                    * 0x2000_0000) && dxl * dxl <= 0x2000_0000 * 0x2000_0000 && dxl * dxl >= 0)
                    by (nonlinear_arith)
                    requires
                        -0x2000_0000 <= dyl <= 0x2000_0000,
                        -0x2000_0000 <= dxl <= 0x2000_0000,
                ;
            }
            let p: i64 = dyl * dxl;
            let q: i64 = dxl * dxl;
            if p > q {
                2
            } else if 0 <= p && p <= q {
                1
            } else if p < 0 && p >= -q {
                4
            } else {
                3
            }
        };
        proof {
            assert(quad == octant_class(x0 as int, y0 as int, x1 as int, y1 as int));
        }

        let mut x: i32 = x0;
        let mut y: i32 = y0;
        let dx: i32 = 2 * (y1 - y0);
        let dy: i32 = 2 * (x0 - x1);
        let mut d: i32 = 2 * dx + dy;
        let ghost a: int = 2 * (dx as int);
        let ghost b: int = 2 * (dy as int);
        proof {
            assert(d as int == 4 * ddy * ((x as int - x0 as int) + 1) + 4 * ddx * (
            y0 as int - y as int) - 2 * ddx) by (nonlinear_arith)
                requires
                    d as int == 4 * ddy - 2 * ddx,
                    x == x0,
                    y == y0,
            ;
        }

        match quad {
            0 => {
                while y <= y1
                    invariant
                        self.wf(),
                        self.width_spec() == w,
                        self.height_spec() == h,
                        x == x0,
                        y0 <= y,
                        paint(r0, w, h, pix, color) == paint(
                            self.raster_spec(),
                            w,
                            h,
                            pixels_class0(x as int, y as int, y1 as int),
                            color,
                        ),
                    decreases y1 + 1 - y,
                {
                    let ghost pre = self.raster_spec();
                    let ghost rest = pixels_class0(x as int, y as int + 1, y1 as int);
                    proof {
                        assert(pixels_class0(x as int, y as int, y1 as int) == seq![
                            (x as int, y as int),
                        ] + rest);
                    }
                    self.plot(x, y, color);
                    proof {
                        lemma_paint_step(pre, w, h, (x as int, y as int), rest, color);
                    }
                    y = y + 1;
                }
            },
            1 => {
                proof {
                    assert(0 < ddx ==> (0 <= ddy && ddy <= ddx)) by (nonlinear_arith)
                        requires
                            0 <= ddy * ddx,
                            ddy * ddx <= ddx * ddx,
                    ;
                }
                while x <= x1
                    invariant
                        self.wf(),
                        self.width_spec() == w,
                        self.height_spec() == h,
                        x0 <= x,
                        y0 <= y,
                        x0 <= x1 ==> x <= x1 + 1,
                        d as int == 4 * ddy * ((x as int - x0 as int) + 1) + 4 * ddx * (
                        y0 as int - y as int) - 2 * ddx,
                        x0 <= x1 ==> 2 * ddx * (y as int - y0 as int) <= 2 * ddy * (
                        x as int - x0 as int) + ddx,
                        x0 <= x1 ==> -4 * ddx <= d as int <= 4 * ddx,
                        paint(r0, w, h, pix, color) == paint(
                            self.raster_spec(),
                            w,
                            h,
                            pixels_class1(x as int, y as int, x1 as int, d as int, a, b),
                            color,
                        ),
                    decreases x1 + 1 - x,
                {
                    proof {
                        lemma_class1_step(
                            ddx,
                            ddy,
                            x as int - x0 as int,
                            y as int - y0 as int,
                            d as int,
                        );
                    }
                    let ghost pre = self.raster_spec();
                    self.plot(x, y, color);
                    if d > 0 {
                        let ghost rest = pixels_class1(
                            x as int + 1,
                            y as int + 1,
                            x1 as int,
                            d as int + b + a,
                            a,
                            b,
                        );
                        proof {
                            assert(pixels_class1(x as int, y as int, x1 as int, d as int, a, b)
                                == seq![(x as int, y as int)] + rest);
                            lemma_paint_step(pre, w, h, (x as int, y as int), rest, color);
                            lemma_error_identity_step(
                                ddx,
                                ddy,
                                x as int - x0 as int,
                                y0 as int - y as int,
                                d as int,
                                1,
                                -1,
                            );
                        }
                        y = y + 1;
                        d = d + 2 * dy;
                    } else {
                        let ghost rest = pixels_class1(
                            x as int + 1,
                            y as int,
                            x1 as int,
                            d as int + a,
                            a,
                            b,
                        );
                        proof {
                            assert(pixels_class1(x as int, y as int, x1 as int, d as int, a, b)
                                == seq![(x as int, y as int)] + rest);
                            lemma_paint_step(pre, w, h, (x as int, y as int), rest, color);
                            lemma_error_identity_step(
                                ddx,
                                ddy,
                                x as int - x0 as int,
                                y0 as int - y as int,
                                d as int,
                                1,
                                0,
                            );
                        }
                    }
                    x = x + 1;
                    d = d + 2 * dx;
                }
            },
            2 => {
                proof {
                    assert(0 < ddx ==> ddx < ddy) by (nonlinear_arith)
                        requires
                            ddy * ddx > ddx * ddx,
                    ;
                }
                while y <= y1
                    invariant
                        self.wf(),
                        self.width_spec() == w,
                        self.height_spec() == h,
                        x0 <= x,
                        y0 <= y,
                        d as int == 4 * ddy * ((x as int - x0 as int) + 1) + 4 * ddx * (
                        y0 as int - y as int) - 2 * ddx,
                        x0 <= x1 ==> 2 * ddy * (x as int - x0 as int) <= 2 * ddx * (
                        y as int - y0 as int) + ddx,
                        x0 <= x1 ==> b <= d as int <= a,
                        paint(r0, w, h, pix, color) == paint(
                            self.raster_spec(),
                            w,
                            h,
                            pixels_class2(x as int, y as int, y1 as int, d as int, a, b),
                            color,
                        ),
                    decreases y1 + 1 - y,
                {
                    proof {
                        assert(0 < ddx) by (nonlinear_arith)
                            requires
                                ddx != 0,
                                0 <= ddy,
                                ddy * ddx > ddx * ddx,
                        ;
                        lemma_class2_step(
                            ddx,
                            ddy,
                            x as int - x0 as int,
                            y as int - y0 as int,
                            d as int,
                        );
                    }
                    let ghost pre = self.raster_spec();
                    self.plot(x, y, color);
                    if d < 0 {
                        let ghost rest = pixels_class2(
                            x as int + 1,
                            y as int + 1,
                            y1 as int,
                            d as int + a + b,
                            a,
                            b,
                        );
                        proof {
                            assert(pixels_class2(x as int, y as int, y1 as int, d as int, a, b)
                                == seq![(x as int, y as int)] + rest);
                            lemma_paint_step(pre, w, h, (x as int, y as int), rest, color);
                            lemma_error_identity_step(
                                ddx,
                                ddy,
                                x as int - x0 as int,
                                y0 as int - y as int,
                                d as int,
                                1,
                                -1,
                            );
                        }
                        x = x + 1;
                        d = d + 2 * dx;
                    } else {
                        let ghost rest = pixels_class2(
                            x as int,
                            y as int + 1,
                            y1 as int,
                            d as int + b,
                            a,
                            b,
                        );
                        proof {
                            assert(pixels_class2(x as int, y as int, y1 as int, d as int, a, b)
                                == seq![(x as int, y as int)] + rest);
                            lemma_paint_step(pre, w, h, (x as int, y as int), rest, color);
                            lemma_error_identity_step(
                                ddx,
                                ddy,
                                x as int - x0 as int,
                                y0 as int - y as int,
                                d as int,
                                0,
                                -1,
                            );
                        }
                    }
                    y = y + 1;
                    d = d + 2 * dy;
                }
            },
            3 => {
                proof {
                    assert(0 < ddx ==> ddx < -ddy) by (nonlinear_arith)
                        requires
                            ddy * ddx < -(ddx * ddx),
                    ;
                }
                while y >= y1
                    invariant
                        self.wf(),
                        self.width_spec() == w,
                        self.height_spec() == h,
                        x0 <= x,
                        y <= y0,
                        y1 - 1 <= y || y == y0,
                        d as int == 4 * ddy * ((x as int - x0 as int) + 1) + 4 * ddx * (
                        y0 as int - y as int) - 2 * ddx,
                        x0 <= x1 ==> (x == x0 || 2 * (-ddy) * (x as int - x0 as int) <= 2 * ddx
                            * (y0 as int - y as int) - ddx),
                        x0 <= x1 ==> 4 * ddy - 2 * ddx <= d as int <= 4 * ddx,
                        paint(r0, w, h, pix, color) == paint(
                            self.raster_spec(),
                            w,
                            h,
                            pixels_class3(x as int, y as int, y1 as int, d as int, a, b),
                            color,
                        ),
                    decreases y + 1 - y1,
                {
                    proof {
                        assert(0 < ddx) by (nonlinear_arith)
                            requires
                                ddx != 0,
                                ddy <= 0,
                                ddy * ddx < -(ddx * ddx),
                        ;
                        lemma_class3_step(
                            ddx,
                            ddy,
                            x as int - x0 as int,
                            y0 as int - y as int,
                            d as int,
                        );
                    }
                    let ghost pre = self.raster_spec();
                    self.plot(x, y, color);
                    if d > 0 {
                        let ghost rest = pixels_class3(
                            x as int + 1,
                            y as int - 1,
                            y1 as int,
                            d as int + a - b,
                            a,
                            b,
                        );
                        proof {
                            assert(pixels_class3(x as int, y as int, y1 as int, d as int, a, b)
                                == seq![(x as int, y as int)] + rest);
                            lemma_paint_step(pre, w, h, (x as int, y as int), rest, color);
                            lemma_error_identity_step(
                                ddx,
                                ddy,
                                x as int - x0 as int,
                                y0 as int - y as int,
                                d as int,
                                1,
                                1,
                            );
                        }
                        x = x + 1;
                        d = d + 2 * dx;
                    } else {
                        let ghost rest = pixels_class3(
                            x as int,
                            y as int - 1,
                            y1 as int,
                            d as int - b,
                            a,
                            b,
                        );
                        proof {
                            assert(pixels_class3(x as int, y as int, y1 as int, d as int, a, b)
                                == seq![(x as int, y as int)] + rest);
                            lemma_paint_step(pre, w, h, (x as int, y as int), rest, color);
                            lemma_error_identity_step(
                                ddx,
                                ddy,
                                x as int - x0 as int,
                                y0 as int - y as int,
                                d as int,
                                0,
                                1,
                            );
                        }
                    }
                    y = y - 1;
                    d = d - 2 * dy;
                }
            },
            4 => {
                proof {
                    assert(0 < ddx ==> (-ddx <= ddy && ddy < 0)) by (nonlinear_arith)
                        requires
                            ddy * ddx < 0,
                            ddy * ddx >= -(ddx * ddx),
                    ;
                }
                while x <= x1 && y >= 0
                    invariant
                        self.wf(),
                        self.width_spec() == w,
                        self.height_spec() == h,
                        x0 <= x,
                        y <= y0,
                        x0 <= x1 ==> x <= x1 + 1,
                        -1 <= y,
                        d as int == 4 * ddy * ((x as int - x0 as int) + 1) + 4 * ddx * (
                        y0 as int - y as int) - 2 * ddx,
                        x0 <= x1 ==> 4 * ddy - 2 * ddx <= d as int <= 4 * ddx,
                        paint(r0, w, h, pix, color) == paint(
                            self.raster_spec(),
                            w,
                            h,
                            pixels_class4(x as int, y as int, x1 as int, d as int, a, b),
                            color,
                        ),
                    decreases x1 + 1 - x,
                {
                    proof {
                        assert(0 < ddx);
                    }
                    let ghost pre = self.raster_spec();
                    self.plot(x, y, color);
                    if d < 0 {
                        let ghost rest = pixels_class4(
                            x as int + 1,
                            y as int - 1,
                            x1 as int,
                            d as int - b + a,
                            a,
                            b,
                        );
                        proof {
                            assert(pixels_class4(x as int, y as int, x1 as int, d as int, a, b)
                                == seq![(x as int, y as int)] + rest);
                            lemma_paint_step(pre, w, h, (x as int, y as int), rest, color);
                            lemma_error_identity_step(
                                ddx,
                                ddy,
                                x as int - x0 as int,
                                y0 as int - y as int,
                                d as int,
                                1,
                                1,
                            );
                        }
                        y = y - 1;
                        d = d - 2 * dy;
                    } else {
                        let ghost rest = pixels_class4(
                            x as int + 1,
                            y as int,
                            x1 as int,
                            d as int + a,
                            a,
                            b,
                        );
                        proof {
                            assert(pixels_class4(x as int, y as int, x1 as int, d as int, a, b)
                                == seq![(x as int, y as int)] + rest);
                            lemma_paint_step(pre, w, h, (x as int, y as int), rest, color);
                            lemma_error_identity_step(
                                ddx,
                                ddy,
                                x as int - x0 as int,
                                y0 as int - y as int,
                                d as int,
                                1,
                                0,
                            );
                        }
                    }
                    x = x + 1;
                    d = d + 2 * dx;
                }
            },
            _ => {
                proof {
                    assert(false);
                }
            },
        }
    }

    /// Draws the segment from `(x0, y0)` to `(x1, y1)` in `color`. The
    /// endpoints are canonicalized to ascending x before the walk, so only
    /// the vertical class ever sees a descending major axis.
    pub fn draw_line(&mut self, x0: i32, y0: i32, x1: i32, y1: i32, color: Color)
        requires
            old(self).wf(),
            0 <= x0 < old(self).width_spec(),
            0 <= y0 < old(self).height_spec(),
            0 <= x1 < old(self).width_spec(),
            0 <= y1 < old(self).height_spec(),
        ensures
            final(self).wf(),
            final(self).width_spec() == old(self).width_spec(),
            final(self).height_spec() == old(self).height_spec(),
            final(self).raster_spec() == paint(
                old(self).raster_spec(),
                old(self).width_spec(),
                old(self).height_spec(),
                line_pixels(x0 as int, y0 as int, x1 as int, y1 as int),
                color,
            ),
    {
        if x0 > x1 {
            self.draw_line_help(x1, y1, x0, y0, color);
        } else {
            self.draw_line_help(x0, y0, x1, y1, color);
        }
    }

    /// Draws every segment of the edge list into the raster: columns `2k`
    /// and `2k + 1` are one segment's endpoints, read from rows 0 (x) and
    /// 1 (y). The column count must be even, and every endpoint must lie
    /// within the raster.
    #[verifier::loop_isolation(false)]
    pub fn draw_lines(&mut self, edges: &DynMatrix, color: Color)
        requires
            old(self).wf(),
            edges.wf(),
            edges.height_of() == 4,
            edges.width_of() % 2 == 0,
            forall|j: int|
                0 <= j < edges.width_of() ==> 0 <= #[trigger] edges.entry(j, 0) < old(
                    self,
                ).width_spec() && 0 <= edges.entry(j, 1) < old(self).height_spec(),
        ensures
            final(self).wf(),
            final(self).width_spec() == old(self).width_spec(),
            final(self).height_spec() == old(self).height_spec(),
            final(self).raster_spec() == paint_edges(
                old(self).raster_spec(),
                old(self).width_spec(),
                old(self).height_spec(),
                edges.grid_of(),
                0,
                edges.width_of() / 2,
                color,
            ),
    {
        let ghost w: int = old(self).width_spec();
        let ghost h: int = old(self).height_spec();
        let ghost r0: Seq<Color> = old(self).raster_spec();
        let ghost g: Seq<Seq<i64>> = edges.grid_of();
        let n: usize = edges.width() / 2;
        let mut k: usize = 0;
        while k < n
            invariant
                k <= n,
                self.wf(),
                self.width_spec() == w,
                self.height_spec() == h,
                self.raster_spec() == paint_edges(r0, w, h, g, 0, k as int, color),
            decreases n - k,
        {
            proof {
                assert(0 <= edges.entry(2 * (k as int), 0) < w);
                assert(0 <= edges.entry(2 * (k as int), 1) < h);
                assert(0 <= edges.entry(2 * (k as int) + 1, 0) < w);
                assert(0 <= edges.entry(2 * (k as int) + 1, 1) < h);
            }
            let x0 = edges.get(2 * k, 0);
            let y0 = edges.get(2 * k, 1);
            let x1 = edges.get(2 * k + 1, 0);
            let y1 = edges.get(2 * k + 1, 1);
            self.draw_line(x0 as i32, y0 as i32, x1 as i32, y1 as i32, color);
            proof {
                lemma_paint_edges_snoc(r0, w, h, g, 0, k as int, color);
            }
            k = k + 1;
        }
    }

    /// Serializes the raster to the plain pixel-triple text format: the
    /// header declaring the format name, the dimensions and the maximum
    /// channel value, then every pixel's channels in storage order.
    #[verifier::loop_isolation(false)]
    pub fn to_ppm(&self) -> (out: String)
        requires
            self.wf(),
        ensures
            out@ == ppm_text(
                self.width_spec() as nat,
                self.height_spec() as nat,
                self.raster_spec(),
            ),
    {
        let mut out = String::new();
        proof {
            reveal_strlit("P3\n");
            reveal_strlit(" ");
            reveal_strlit("\n");
        }
        out.append("P3\n");
        push_dec(&mut out, self.width as u64);
        out.append(" ");
        push_dec(&mut out, self.height as u64);
        out.append("\n");
        push_dec(&mut out, 255);
        out.append("\n");
        proof {
            assert(out@ =~= ppm_header(self.width_spec() as nat, self.height_spec() as nat));
        }
        let ghost hdr = out@;
        let n: usize = self.raster.len();
        let mut i: usize = 0;
        proof {
            assert(self.raster_spec().take(0) =~= Seq::<Color>::empty());
            assert(out@ =~= hdr + raster_text(self.raster_spec().take(0)));
        }
        while i < n
            invariant
                i <= n,
                out@ == hdr + raster_text(self.raster_spec().take(i as int)),
            decreases n - i,
        {
            let c = self.raster[i];
            push_color(&mut out, c);
            proof {
                let s = self.raster_spec();
                assert(s.take(i as int + 1).drop_last() =~= s.take(i as int));
                assert(s.take(i as int + 1).last() == s[i as int]);
                assert(out@ =~= hdr + raster_text(s.take(i as int + 1)));
            }
            i = i + 1;
        }
        proof {
            assert(self.raster_spec().take(n as int) =~= self.raster_spec());
        }
        out
    }

    /// Overwrites every pixel with `color`.
    pub fn reset(&mut self, color: Color)
        requires
            old(self).wf(),
        ensures
            final(self).wf(),
            final(self).width_spec() == old(self).width_spec(),
            final(self).height_spec() == old(self).height_spec(),
            final(self).raster_spec().len() == old(self).raster_spec().len(),
            forall|i: int|
                0 <= i < final(self).raster_spec().len() ==> final(self).raster_spec()[i]
                    == color,
    {
        let n: usize = self.raster.len();
        let mut i: usize = 0;
        while i < n
            invariant
                i <= n,
                self.raster@.len() == n,
                self.width == old(self).width,
                self.height == old(self).height,
                forall|j: int| 0 <= j < i ==> self.raster@[j] == color,
            decreases n - i,
        {
            self.raster[i] = color;
            i = i + 1;
        }
    }
}

/// Painting one pixel and then the rest of a walk equals painting the whole
/// walk.
proof fn lemma_paint_step(r: Seq<Color>, w: int, h: int, p: (int, int), rest: Seq<(int, int)>, c: Color)
    ensures
        paint(r, w, h, seq![p] + rest, c) == paint(
            r.update(flat_index(w, h, p.0, p.1), c),
            w,
            h,
            rest,
            c,
        ),
{
    let pts = seq![p] + rest;
    assert(pts[0] == p);
    assert(pts.drop_first() =~= rest);
}

/// The doubled error term equals its closed form in the step counts: `xx`
/// steps along x and a net `ss` rows down from the start. Stepping x by `sx`
/// and the downward count by `sy` moves the error by `4*ddy*sx + 4*ddx*sy`.
proof fn lemma_error_identity_step(
    ddx: int,
    ddy: int,
    xx: int,
    ss: int,
    d: int,
    sx: int,
    sy: int,
)
    requires
        d == 4 * ddy * (xx + 1) + 4 * ddx * ss - 2 * ddx,
    ensures
        d + 4 * ddy * sx + 4 * ddx * sy == 4 * ddy * ((xx + sx) + 1) + 4 * ddx * (ss + sy) - 2
            * ddx,
{
    assert(4 * ddy * ((xx + sx) + 1) == 4 * ddy * (xx + 1) + 4 * ddy * sx) by (nonlinear_arith);
    assert(4 * ddx * (ss + sy) == 4 * ddx * ss + 4 * ddx * sy) by (nonlinear_arith);
}

/// Octant class 1 (`0 <= m <= 1`, ascending x): the deltas satisfy
/// `0 <= ddy <= ddx`, the minor axis never overtakes the line (`yy <= ddy`
/// at every plotted column), and one step of the walk preserves the rounding
/// invariant `2*ddx*yy <= 2*ddy*xx + ddx`.
proof fn lemma_class1_step(ddx: int, ddy: int, xx: int, yy: int, d: int)
    requires
        0 < ddx,
        0 <= ddy * ddx,
        ddy * ddx <= ddx * ddx,
        0 <= xx <= ddx,
        0 <= yy,
        d == 4 * ddy * (xx + 1) + 4 * ddx * (-yy) - 2 * ddx,
        2 * ddx * yy <= 2 * ddy * xx + ddx,
    ensures
        0 <= ddy <= ddx,
        yy <= ddy,
        d > 0 ==> 2 * ddx * (yy + 1) <= 2 * ddy * (xx + 1) + ddx,
        d <= 0 ==> 2 * ddx * yy <= 2 * ddy * (xx + 1) + ddx,
{
    assert(0 <= ddy && ddy <= ddx) by (nonlinear_arith)
        requires
            0 < ddx,
            0 <= ddy * ddx,
            ddy * ddx <= ddx * ddx,
    ;
    assert(yy <= ddy) by (nonlinear_arith)
        requires
            0 < ddx,
            0 <= ddy,
            0 <= yy,
            xx <= ddx,
            2 * ddx * yy <= 2 * ddy * xx + ddx,
    ;
    if d > 0 {
        assert(2 * ddx * (yy + 1) <= 2 * ddy * (xx + 1) + ddx) by (nonlinear_arith)
            requires
                d == 4 * ddy * (xx + 1) + 4 * ddx * (-yy) - 2 * ddx,
                d > 0,
                0 < ddx,
        ;
    } else {
        assert(2 * ddx * yy <= 2 * ddy * (xx + 1) + ddx) by (nonlinear_arith)
            requires
                2 * ddx * yy <= 2 * ddy * xx + ddx,
                0 <= ddy,
        ;
    }
}

/// Octant class 2 (`m > 1`, ascending y): the deltas satisfy
/// `0 < ddx < ddy`, the minor axis stays within the span (`xx <= ddx` at
/// every plotted row), and one step preserves the rounding invariant
/// `2*ddy*xx <= 2*ddx*ss + ddx`.
proof fn lemma_class2_step(ddx: int, ddy: int, xx: int, ss: int, d: int)
    requires
        ddx != 0,
        0 <= ddy,
        ddy * ddx > ddx * ddx,
        0 <= xx,
        0 <= ss <= ddy,
        d == 4 * ddy * (xx + 1) + 4 * ddx * (-ss) - 2 * ddx,
        2 * ddy * xx <= 2 * ddx * ss + ddx,
    ensures
        0 < ddx < ddy,
        xx <= ddx,
        d < 0 ==> 2 * ddy * (xx + 1) <= 2 * ddx * (ss + 1) + ddx,
        d >= 0 ==> 2 * ddy * xx <= 2 * ddx * (ss + 1) + ddx,
{
    assert(0 < ddx && ddx < ddy) by (nonlinear_arith)
        requires
            ddx != 0,
            0 <= ddy,
            ddy * ddx > ddx * ddx,
    ;
    assert(xx <= ddx) by (nonlinear_arith)
        requires
            0 < ddx < ddy,
            0 <= xx,
            ss <= ddy,
            2 * ddy * xx <= 2 * ddx * ss + ddx,
    ;
    if d < 0 {
        assert(2 * ddy * (xx + 1) <= 2 * ddx * (ss + 1) + ddx) by (nonlinear_arith)
            requires
                d == 4 * ddy * (xx + 1) + 4 * ddx * (-ss) - 2 * ddx,
                d < 0,
                0 < ddx,
    ;
    } else {
        assert(2 * ddy * xx <= 2 * ddx * (ss + 1) + ddx) by (nonlinear_arith)
            requires
                2 * ddy * xx <= 2 * ddx * ss + ddx,
                0 < ddx,
        ;
    }
}

/// Octant class 3 (`m < -1`, descending y): the deltas satisfy
/// `0 < ddx < -ddy`, the minor axis stays within the span (`xx <= ddx` at
/// every plotted row), and one step preserves the rounding invariant
/// `xx == 0 || 2*(-ddy)*xx <= 2*ddx*ss - ddx`.
proof fn lemma_class3_step(ddx: int, ddy: int, xx: int, ss: int, d: int)
    requires
        ddx != 0,
        ddy <= 0,
        ddy * ddx < -(ddx * ddx),
        0 <= xx,
        0 <= ss <= -ddy,
        d == 4 * ddy * (xx + 1) + 4 * ddx * ss - 2 * ddx,
        xx == 0 || 2 * (-ddy) * xx <= 2 * ddx * ss - ddx,
    ensures
        0 < ddx < -ddy,
        xx <= ddx,
        d > 0 ==> 2 * (-ddy) * (xx + 1) <= 2 * ddx * (ss + 1) - ddx,
        d <= 0 ==> (xx == 0 || 2 * (-ddy) * xx <= 2 * ddx * (ss + 1) - ddx),
{
    assert(0 < ddx && ddx < -ddy) by (nonlinear_arith)
        requires
            ddx != 0,
            ddy <= 0,
            ddy * ddx < -(ddx * ddx),
    ;
    if xx == 0 {
        assert(xx <= ddx);
    } else {
        assert(xx <= ddx) by (nonlinear_arith)
            requires
                0 < ddx < -ddy,
                0 < xx,
                ss <= -ddy,
                2 * (-ddy) * xx <= 2 * ddx * ss - ddx,
        ;
    }
    if d > 0 {
        assert(2 * (-ddy) * (xx + 1) <= 2 * ddx * (ss + 1) - ddx) by (nonlinear_arith)
            requires
                d == 4 * ddy * (xx + 1) + 4 * ddx * ss - 2 * ddx,
                d > 0,
                0 < ddx,
        ;
    } else {
        if xx != 0 {
            assert(2 * (-ddy) * xx <= 2 * ddx * (ss + 1) - ddx) by (nonlinear_arith)
                requires
                    2 * (-ddy) * xx <= 2 * ddx * ss - ddx,
                    0 < ddx,
            ;
        }
    }
}

/// Octant class 4 (`-1 <= m < 0`): the deltas satisfy `-ddx <= ddy < 0`.
proof fn lemma_class4_facts(ddx: int, ddy: int)
    requires
        ddx != 0,
        0 < ddx,
        ddy * ddx < 0,
        ddy * ddx >= -(ddx * ddx),
    ensures
        -ddx <= ddy < 0,
{
    assert(-ddx <= ddy && ddy < 0) by (nonlinear_arith)
        requires
            0 < ddx,
            ddy * ddx < 0,
            ddy * ddx >= -(ddx * ddx),
    ;
}

/// Rasterizer symmetry law: for any non-vertical segment, drawing it in
/// either direction walks exactly the same pixels, because both directions
/// canonicalize to the same ascending-x walk.
pub proof fn lemma_line_symmetry(x0: int, y0: int, x1: int, y1: int)
    requires
        x0 != x1,
    ensures
        line_pixels(x0, y0, x1, y1) == line_pixels(x1, y1, x0, y0),
{
}

/// Horizontal endpoint inclusion law: a horizontal segment walked left to
/// right plots both endpoints and every intermediate column exactly once,
/// with y constant.
pub proof fn lemma_horizontal_pixels(x0: int, y0: int, x1: int)
    requires
        x0 <= x1,
    ensures
        line_pixels(x0, y0, x1, y0) == Seq::new((x1 - x0 + 1) as nat, |i: int| (x0 + i, y0)),
{
    if x0 == x1 {
        assert(pixels_class0(x0, y0 + 1, y0) == Seq::<(int, int)>::empty());
        assert(pixels_class0(x0, y0, y0) =~= Seq::new(1nat, |i: int| (x0 + i, y0)));
    } else {
        assert(octant_class(x0, y0, x1, y0) == 1);
        lemma_flat_class1_pixels(x0, y0, x1, 2 * (x0 - x1), 4 * (x0 - x1));
        assert(line_pixels(x0, y0, x1, y0) =~= Seq::new((x1 - x0 + 1) as nat, |i: int| (x0 + i, y0)));
    }
}

/// Start-pixel inclusion law: every class plots the starting pixel before it
/// first tests the error term, so any walk whose major-axis loop runs at all
/// begins at its first endpoint. In particular a zero-length segment still
/// plots its start pixel.
pub proof fn lemma_start_pixel(x0: int, y0: int, x1: int, y1: int)
    requires
        0 <= y0,
        x0 < x1 || (x0 == x1 && y0 <= y1),
    ensures
        line_pixels(x0, y0, x1, y1).len() >= 1,
        line_pixels(x0, y0, x1, y1)[0] == (x0, y0),
{
    if x0 == x1 {
        assert(pixels_class0(x0, y0, y1)[0] == (x0, y0));
    } else {
        let ddx = x1 - x0;
        let ddy = y1 - y0;
        let cls = octant_class(x0, y0, x1, y1);
        if cls == 2 {
            assert(ddy > ddx) by (nonlinear_arith)
                requires
                    0 < ddx,
                    ddy * ddx > ddx * ddx,
            ;
        } else if cls == 3 {
            assert(ddy < -ddx) by (nonlinear_arith)
                requires
                    0 < ddx,
                    ddy * ddx < -(ddx * ddx),
            ;
        }
    }
}

/// A class-1 walk with a zero x-step increment and a nonpositive error term
/// never moves off its row.
proof fn lemma_flat_class1_pixels(x: int, y: int, x1: int, d: int, b: int)
    requires
        x <= x1 + 1,
        d <= 0,
    ensures
        pixels_class1(x, y, x1, d, 0, b) =~= Seq::new((x1 + 1 - x) as nat, |i: int| (x + i, y)),
    decreases x1 + 1 - x,
{
    if x <= x1 {
        lemma_flat_class1_pixels(x + 1, y, x1, d, b);
    }
}

/// An in-bounds pixel has an in-bounds storage index.
proof fn lemma_flat_index_in_range(w: int, h: int, x: int, y: int)
    requires
        0 <= x < w,
        0 <= y < h,
    ensures
        0 <= flat_index(w, h, x, y) < w * h,
        (h - 1 - y) * w <= (h - 1) * w,
{
    assert((h - 1 - y) * w <= (h - 1) * w && (h - 1) * w + w == h * w) by (nonlinear_arith)
        requires
            0 <= y,
            0 <= w,
    ;
}

} // verus!
