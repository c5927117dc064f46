//! Triangle scan-conversion: exact barycentric coverage, depth
//! interpolation, and affine texture sampling.

use vstd::prelude::*;

use crate::geometry::{minmax, Point3};
use crate::num::{
    lemma_mul_bound2, round_half_spec, round_ratio, Rat, COORD_LIMIT, SCALE,
};
use crate::render::{color, scaled_channel, Color, Depth, Intensity, Texture, PNG};

verus! {

/// The first cross-product component of the barycentric setup at `(x, y)`:
/// the numerator of the weight of vertex `c` over the common denominator
/// `bary_rz`.
pub open spec fn bary_rx(a: Point3, b: Point3, x: int, y: int) -> int {
    (b.x - a.x) * (a.y - y) - (a.x - x) * (b.y - a.y)
}

/// The second cross-product component: the numerator of the weight of
/// vertex `b`.
pub open spec fn bary_ry(a: Point3, c: Point3, x: int, y: int) -> int {
    (a.x - x) * (c.y - a.y) - (c.x - a.x) * (a.y - y)
}

/// The third cross-product component: twice the signed area, the common
/// denominator of the barycentric weights.  Independent of the pixel.
pub open spec fn bary_rz(a: Point3, b: Point3, c: Point3) -> int {
    (c.x - a.x) * (b.y - a.y) - (b.x - a.x) * (c.y - a.y)
}

/// A texture coordinate interpolated by the barycentric weight numerators.
pub open spec fn tex_interp(t0: int, t1: int, t2: int, rx: int, ry: int, rz: int) -> int {
    t0 * (rz - rx - ry) + t1 * ry + t2 * rx
}

/// A triangle to rasterize: three screen-space vertices, a texture with the
/// face's texture coordinates, and a flat light intensity.
pub struct Triangle<'a> {
    pub a: Point3,
    pub b: Point3,
    pub c: Point3,
    pub texture: &'a Texture,
    pub texture_vertices: &'a Vec<Point3>,
    pub intensity: Intensity,
}

impl<'a> Triangle<'a> {
    pub open spec fn wf(self) -> bool {
        &&& self.a.in_range()
        &&& self.b.in_range()
        &&& self.c.in_range()
        &&& self.texture.wf()
        &&& self.texture_vertices@.len() >= 3
        &&& forall|i: int|
            0 <= i < self.texture_vertices@.len() ==> (#[trigger] self.texture_vertices@[i]).in_range()
        &&& self.intensity.wf()
    }

    /// The smallest x over the three vertices; likewise the other bounds.
    pub open spec fn min3_x(self) -> int {
        let m = if self.a.x <= self.b.x {
            self.a.x
        } else {
            self.b.x
        };
        if self.c.x <= m {
            self.c.x as int
        } else {
            m as int
        }
    }

    pub open spec fn max3_x(self) -> int {
        let m = if self.a.x >= self.b.x {
            self.a.x
        } else {
            self.b.x
        };
        if self.c.x >= m {
            self.c.x as int
        } else {
            m as int
        }
    }

    pub open spec fn min3_y(self) -> int {
        let m = if self.a.y <= self.b.y {
            self.a.y
        } else {
            self.b.y
        };
        if self.c.y <= m {
            self.c.y as int
        } else {
            m as int
        }
    }

    pub open spec fn max3_y(self) -> int {
        let m = if self.a.y >= self.b.y {
            self.a.y
        } else {
            self.b.y
        };
        if self.c.y >= m {
            self.c.y as int
        } else {
            m as int
        }
    }

    /// The rasterizer covers the point `(x, y)`: it lies in the margin-padded
    /// bounding box, the triangle is not degenerate at the one-pixel-area
    /// threshold, and all three barycentric weights are nonnegative (their
    /// numerators share the sign of the common denominator).
    pub open spec fn covered(self, x: int, y: int) -> bool {
        let rx = bary_rx(self.a, self.b, x, y);
        let ry = bary_ry(self.a, self.c, x, y);
        let rz = bary_rz(self.a, self.b, self.c);
        &&& self.min3_x() - (SCALE as int) <= x <= self.max3_x() + (SCALE as int)
        &&& self.min3_y() - (SCALE as int) <= y <= self.max3_y() + (SCALE as int)
        &&& (if rz >= 0 {
            rz
        } else {
            -rz
        }) >= (SCALE as int) * (SCALE as int)
        &&& (if rz > 0 {
            rx >= 0 && ry >= 0 && rz - rx - ry >= 0
        } else {
            rx <= 0 && ry <= 0 && rz - rx - ry <= 0
        })
    }

    /// Numerator of the interpolated depth `a.z*w0 + b.z*w1 + c.z*w2` at
    /// `(x, y)`, sign-normalized so `depth_den` is positive.
    pub open spec fn depth_num(self, x: int, y: int) -> int {
        let rx = bary_rx(self.a, self.b, x, y);
        let ry = bary_ry(self.a, self.c, x, y);
        let rz = bary_rz(self.a, self.b, self.c);
        let n = self.a.z * (rz - rx - ry) + self.b.z * ry + self.c.z * rx;
        if rz >= 0 {
            n
        } else {
            -n
        }
    }

    /// Denominator of the interpolated depth: the magnitude of twice the
    /// signed area.
    pub open spec fn depth_den(self) -> int {
        let rz = bary_rz(self.a, self.b, self.c);
        if rz >= 0 {
            rz
        } else {
            -rz
        }
    }

    /// The texture sample for weight numerators `(rx, ry, rz)`: texture
    /// coordinates are interpolated, scaled to texture pixels, rounded to
    /// nearest, and sampled; out-of-bounds samples fall back to white.
    pub open spec fn sample_spec(self, rx: int, ry: int, rz: int) -> Color {
        let t0 = self.texture_vertices@[0];
        let t1 = self.texture_vertices@[1];
        let t2 = self.texture_vertices@[2];
        let tw = self.texture.width as int;
        let th = self.texture.height as int;
        let ix = tex_interp(t0.x as int, t1.x as int, t2.x as int, rx, ry, rz);
        let iy = tex_interp(t0.y as int, t1.y as int, t2.y as int, rx, ry, rz);
        let sd0 = (SCALE as int) * rz;
        let sxn = if rz >= 0 {
            tw * ix
        } else {
            -(tw * ix)
        };
        let syn = if rz >= 0 {
            th * iy
        } else {
            -(th * iy)
        };
        let sd = if rz >= 0 {
            sd0
        } else {
            -sd0
        };
        let px = round_half_spec(sxn, sd);
        let py = round_half_spec(syn, sd);
        if 0 <= px < tw && 0 <= py < th {
            self.texture.color_at(px, py)
        } else {
            Color { r: 255, g: 255, b: 255 }
        }
    }

    /// The color the rasterizer writes at `(x, y)`: the texture sample for
    /// that point's weights, scaled by the face intensity.
    pub open spec fn shade(self, x: int, y: int) -> Color {
        let rx = bary_rx(self.a, self.b, x, y);
        let ry = bary_ry(self.a, self.c, x, y);
        let rz = bary_rz(self.a, self.b, self.c);
        let sample = self.sample_spec(rx, ry, rz);
        Color {
            r: scaled_channel(sample.r as int, self.intensity) as u8,
            g: scaled_channel(sample.g as int, self.intensity) as u8,
            b: scaled_channel(sample.b as int, self.intensity) as u8,
        }
    }

    pub fn new(
        a: Point3,
        b: Point3,
        c: Point3,
        texture: &'a Texture,
        texture_vertices: &'a Vec<Point3>,
        intensity: Intensity,
    ) -> (t: Triangle<'a>)
        requires
            a.in_range(),
            b.in_range(),
            c.in_range(),
            texture.wf(),
            texture_vertices@.len() >= 3,
            forall|i: int|
                0 <= i < texture_vertices@.len() ==> (#[trigger] texture_vertices@[i]).in_range(),
            intensity.wf(),
        ensures
            t.wf(),
            t.a == a,
            t.b == b,
            t.c == c,
            t.texture == texture,
            t.texture_vertices == texture_vertices,
            t.intensity == intensity,
    {
        Triangle { a, b, c, texture, texture_vertices, intensity }
    }

    /// The three cross-product components of the barycentric computation at
    /// `(x, y)`: the weight numerators over the common denominator `rz`.
    fn barycentric(&self, x: i64, y: i64) -> (r: (i128, i128, i128))
        requires
            self.wf(),
            -0x500000 <= x <= 0x500000,
            -0x500000 <= y <= 0x500000,
        ensures
            r.0 == bary_rx(self.a, self.b, x as int, y as int),
            r.1 == bary_ry(self.a, self.c, x as int, y as int),
            r.2 == bary_rz(self.a, self.b, self.c),
            -0x1000000000000 <= r.0 <= 0x1000000000000,
            -0x1000000000000 <= r.1 <= 0x1000000000000,
            -0x1000000000000 <= r.2 <= 0x1000000000000,
    {
        let abx: i128 = (self.b.x as i128) - (self.a.x as i128);
        let aby: i128 = (self.b.y as i128) - (self.a.y as i128);
        let acx: i128 = (self.c.x as i128) - (self.a.x as i128);
        let acy: i128 = (self.c.y as i128) - (self.a.y as i128);
        let pax: i128 = (self.a.x as i128) - (x as i128);
        let pay: i128 = (self.a.y as i128) - (y as i128);
        proof {
            lemma_mul_bound2(abx as int, pay as int, 0x800000, 0xa00000);
            lemma_mul_bound2(pax as int, aby as int, 0xa00000, 0x800000);
            lemma_mul_bound2(pax as int, acy as int, 0xa00000, 0x800000);
            lemma_mul_bound2(acx as int, pay as int, 0x800000, 0xa00000);
            lemma_mul_bound2(acx as int, aby as int, 0x800000, 0x800000);
            lemma_mul_bound2(abx as int, acy as int, 0x800000, 0x800000);
        }
        let rx: i128 = abx * pay - pax * aby;
        let ry: i128 = pax * acy - acx * pay;
        let rz: i128 = acx * aby - abx * acy;
        (rx, ry, rz)
    }

    /// The texture-space color for the barycentric weight numerators
    /// `barycenter = (rx, ry, rz)`, before intensity scaling.
    pub fn get_color(&self, barycenter: (i128, i128, i128)) -> (col: Color)
        requires
            self.wf(),
            barycenter.2 != 0,
            -0x1000000000000 <= barycenter.0 <= 0x1000000000000,
            -0x1000000000000 <= barycenter.1 <= 0x1000000000000,
            -0x1000000000000 <= barycenter.2 <= 0x1000000000000,
        ensures
            col == self.sample_spec(barycenter.0 as int, barycenter.1 as int, barycenter.2 as int),
    {
        let (rx, ry, rz) = barycenter;
        let t0 = self.texture_vertices[0];
        let t1 = self.texture_vertices[1];
        let t2 = self.texture_vertices[2];
        let w0n: i128 = rz - rx - ry;
        proof {
            lemma_mul_bound2(t0.x as int, w0n as int, 0x400000, 0x3000000000000);
            lemma_mul_bound2(t1.x as int, ry as int, 0x400000, 0x1000000000000);
            lemma_mul_bound2(t2.x as int, rx as int, 0x400000, 0x1000000000000);
            lemma_mul_bound2(t0.y as int, w0n as int, 0x400000, 0x3000000000000);
            lemma_mul_bound2(t1.y as int, ry as int, 0x400000, 0x1000000000000);
            lemma_mul_bound2(t2.y as int, rx as int, 0x400000, 0x1000000000000);
        }
        let ix: i128 = (t0.x as i128) * w0n + (t1.x as i128) * ry + (t2.x as i128) * rx;
        let iy: i128 = (t0.y as i128) * w0n + (t1.y as i128) * ry + (t2.y as i128) * rx;
        proof {
            lemma_mul_bound2(self.texture.width as int, ix as int, 0x4000, 0x20000000000000000000);
            lemma_mul_bound2(self.texture.height as int, iy as int, 0x4000, 0x20000000000000000000);
            lemma_mul_bound2(SCALE as int, rz as int, 0x100, 0x1000000000000);
        }
        let sxn0: i128 = (self.texture.width as i128) * ix;
        let syn0: i128 = (self.texture.height as i128) * iy;
        let sd0: i128 = (SCALE as i128) * rz;
        let (sxn, syn, sd): (i128, i128, i128) = if rz >= 0 {
            (sxn0, syn0, sd0)
        } else {
            (-sxn0, -syn0, -sd0)
        };
        proof {
            assert(sd > 0) by (nonlinear_arith)
                requires
                    sd == if rz >= 0 { (SCALE as i128) * rz } else { -((SCALE as i128) * rz) },
                    rz != 0,
                    SCALE == 256,
            ;
        }
        let px = round_ratio(sxn, sd);
        let py = round_ratio(syn, sd);
        let tw = self.texture.width;
        let th = self.texture.height;
        if px >= 0 && px < tw as i128 && py >= 0 && py < th as i128 {
            self.texture.get_pixel(px as u32, py as u32)
        } else {
            Color::white()
        }
    }
}


/// A write at depth `num / den` (den positive) beats the stored cell.
pub open spec fn depth_passes_int(d: Depth, num: int, den: int) -> bool {
    match d {
        Depth::Empty => true,
        Depth::Val(w) => w.num * den < num * w.den,
    }
}

/// What rasterizing `tri` does to one framebuffer cell: a covered pixel
/// whose interpolated depth beats the stored depth takes the triangle's
/// shaded color and exact depth; every other cell is untouched.
pub open spec fn pixel_done(tri: Triangle, before: PNG, after: PNG, r: int, c: int) -> bool {
    let x = c * (SCALE as int);
    let y = r * (SCALE as int);
    if tri.covered(x, y) && depth_passes_int(before.depth_at(r, c), tri.depth_num(x, y), tri.depth_den()) {
        &&& after.color_at(r, c) == tri.shade(x, y)
        &&& (match after.depth_at(r, c) {
            Depth::Val(w) => w.num == tri.depth_num(x, y) && w.den == tri.depth_den(),
            Depth::Empty => false,
        })
    } else {
        &&& after.color_at(r, c) == before.color_at(r, c)
        &&& after.depth_at(r, c) == before.depth_at(r, c)
    }
}

/// The full effect of rasterizing `tri` into a framebuffer: dimensions are
/// kept and every cell follows the per-pixel rule.
pub open spec fn render_rel(tri: Triangle, before: PNG, after: PNG) -> bool {
    &&& after.width == before.width
    &&& after.height == before.height
    &&& forall|r: int, c: int|
        0 <= r < before.height && 0 <= c < before.width ==> #[trigger] pixel_done(
            tri,
            before,
            after,
            r,
            c,
        )
}

/// The cell keeps its color and depth between two framebuffer states.
pub open spec fn pixel_untouched(before: PNG, after: PNG, r: int, c: int) -> bool {
    &&& after.color_at(r, c) == before.color_at(r, c)
    &&& after.depth_at(r, c) == before.depth_at(r, c)
}

/// One cell's obligation while the walk of `Triangle::render` is at column
/// `col`, row `row`: cells the walk has passed follow the pixel rule
/// relative to the starting framebuffer state, all others are untouched.
pub open spec fn cell_ok(
    tri: Triangle,
    orig: PNG,
    cur: PNG,
    col_lo: int,
    row_lo: int,
    col: int,
    row: int,
    r: int,
    c: int,
) -> bool {
    if col_lo <= c < col || (c == col && row_lo <= r < row) {
        pixel_done(tri, orig, cur, r, c)
    } else {
        pixel_untouched(orig, cur, r, c)
    }
}

/// The per-pixel loop invariant of `Triangle::render`.
pub open spec fn loop_state(
    tri: Triangle,
    orig: PNG,
    cur: PNG,
    col_lo: int,
    row_lo: int,
    col: int,
    row: int,
) -> bool {
    forall|r: int, c: int|
        0 <= r < orig.height && 0 <= c < orig.width ==> #[trigger] cell_ok(
            tri,
            orig,
            cur,
            col_lo,
            row_lo,
            col,
            row,
            r,
            c,
        )
}

/// One written pixel advances the loop invariant: after a `set_pixel` call
/// at the covered pixel `(col, row)` with its exact depth and shaded color,
/// the walk has also finished that cell.
proof fn lemma_render_write_step(
    tri: Triangle,
    orig: PNG,
    pre: PNG,
    cur: PNG,
    z: Rat,
    shaded: Color,
    col: int,
    row: int,
    col_lo: int,
    row_lo: int,
)
    requires
        tri.wf(),
        pre.width == orig.width,
        pre.height == orig.height,
        cur.width == pre.width,
        cur.height == pre.height,
        loop_state(tri, orig, pre, col_lo, row_lo, col, row),
        row_lo <= row,
        col_lo <= col,
        tri.covered(col * (SCALE as int), row * (SCALE as int)),
        z.num == tri.depth_num(col * (SCALE as int), row * (SCALE as int)),
        z.den == tri.depth_den(),
        z.den > 0,
        shaded == tri.shade(col * (SCALE as int), row * (SCALE as int)),
        forall|r: int, c: int|
            0 <= r < pre.height && 0 <= c < pre.width ==> #[trigger] cur.color_at(r, c) == if pre.writes(
                col * (SCALE as int),
                row * (SCALE as int),
                z,
                r,
                c,
            ) {
                shaded
            } else {
                pre.color_at(r, c)
            },
        forall|r: int, c: int|
            0 <= r < pre.height && 0 <= c < pre.width ==> #[trigger] cur.depth_at(r, c) == if pre.writes(
                col * (SCALE as int),
                row * (SCALE as int),
                z,
                r,
                c,
            ) {
                Depth::Val(z)
            } else {
                pre.depth_at(r, c)
            },
    ensures
        loop_state(tri, orig, cur, col_lo, row_lo, col, row + 1),
{
    let x = col * (SCALE as int);
    let y = row * (SCALE as int);
    assert forall|r: int, c: int|
        0 <= r < orig.height && 0 <= c < orig.width implies #[trigger] cell_ok(
        tri,
        orig,
        cur,
        col_lo,
        row_lo,
        col,
        row + 1,
        r,
        c,
    ) by {
        let trig_pre = cell_ok(tri, orig, pre, col_lo, row_lo, col, row, r, c);
        let trig_col = cur.color_at(r, c);
        let trig_dep = cur.depth_at(r, c);
        if x >= 0 && y >= 0 {
            assert(col >= 0 && row >= 0) by (nonlinear_arith)
                requires
                    x == col * (SCALE as int),
                    y == row * (SCALE as int),
                    x >= 0,
                    y >= 0,
                    SCALE == 256,
            ;
            vstd::arithmetic::div_mod::lemma_div_by_multiple(col, SCALE as int);
            vstd::arithmetic::div_mod::lemma_div_by_multiple(row, SCALE as int);
            assert(x / (SCALE as int) == col && y / (SCALE as int) == row);
        }
        if r == row && c == col {
            // the freshly processed cell
            assert(pixel_untouched(orig, pre, r, c));
            assert((SCALE as int) > 0);
            assert(0 <= x && x <= (pre.width - 1) * (SCALE as int) && 0 <= y && y <= (pre.height
                - 1) * (SCALE as int)) by (nonlinear_arith)
                requires
                    x == col * (SCALE as int),
                    y == row * (SCALE as int),
                    0 <= col < pre.width,
                    0 <= row < pre.height,
                    SCALE == 256,
            ;
            assert(pre.pix_in_bounds(x, y));
            if depth_passes_int(orig.depth_at(r, c), tri.depth_num(x, y), tri.depth_den()) {
                assert(pre.depth_at(r, c).passes(z));
                assert(pre.writes(x, y, z, r, c));
                assert(pixel_done(tri, orig, cur, r, c));
            } else {
                assert(!pre.depth_at(r, c).passes(z));
                assert(!pre.writes(x, y, z, r, c));
                assert(pixel_done(tri, orig, cur, r, c));
            }
        } else {
            // any other cell: this write cannot touch it
            assert(!pre.writes(x, y, z, r, c)) by {
                if pre.writes(x, y, z, r, c) {
                    assert(x >= 0 && y >= 0);
                    assert(r == row && c == col);
                }
            }
            assert(cur.color_at(r, c) == pre.color_at(r, c));
            assert(cur.depth_at(r, c) == pre.depth_at(r, c));
        }
    }
}

/// A skipped pixel advances the loop invariant: an uncovered cell is simply
/// marked done, untouched.
proof fn lemma_render_skip_step(
    tri: Triangle,
    orig: PNG,
    pre: PNG,
    cur: PNG,
    col: int,
    row: int,
    col_lo: int,
    row_lo: int,
)
    requires
        cur == pre,
        pre.width == orig.width,
        pre.height == orig.height,
        loop_state(tri, orig, pre, col_lo, row_lo, col, row),
        row_lo <= row,
        col_lo <= col,
        !tri.covered(col * (SCALE as int), row * (SCALE as int)),
    ensures
        loop_state(tri, orig, cur, col_lo, row_lo, col, row + 1),
{
    assert forall|r: int, c: int|
        0 <= r < orig.height && 0 <= c < orig.width implies #[trigger] cell_ok(
        tri,
        orig,
        cur,
        col_lo,
        row_lo,
        col,
        row + 1,
        r,
        c,
    ) by {
        let trig_pre = cell_ok(tri, orig, pre, col_lo, row_lo, col, row, r, c);
        if r == row && c == col {
            assert(pixel_untouched(orig, pre, r, c));
            assert(pixel_done(tri, orig, cur, r, c));
        }
    }
}

/// A pixel center inside the margin-padded bounding box lies within the
/// padded column (or row) range that the rasterization loop walks.
proof fn lemma_pixel_in_loop(v: int, w: int, lo: int, hi: int, c: int)
    requires
        lo == v / (SCALE as int) - 1,
        hi == w / (SCALE as int) + 1,
        v - (SCALE as int) <= c * (SCALE as int) <= w + (SCALE as int),
    ensures
        lo <= c <= hi,
{
    vstd::arithmetic::div_mod::lemma_fundamental_div_mod(v, SCALE as int);
    vstd::arithmetic::div_mod::lemma_mod_division_less_than_divisor(v, SCALE as int);
    vstd::arithmetic::div_mod::lemma_fundamental_div_mod(w, SCALE as int);
    vstd::arithmetic::div_mod::lemma_mod_division_less_than_divisor(w, SCALE as int);
    assert(lo <= c) by (nonlinear_arith)
        requires
            v == (SCALE as int) * (v / (SCALE as int)) + v % (SCALE as int),
            0 <= v % (SCALE as int) < (SCALE as int),
            lo == v / (SCALE as int) - 1,
            v - (SCALE as int) <= c * (SCALE as int),
            SCALE == 256,
    ;
    assert(c <= hi) by (nonlinear_arith)
        requires
            w == (SCALE as int) * (w / (SCALE as int)) + w % (SCALE as int),
            0 <= w % (SCALE as int) < (SCALE as int),
            hi == w / (SCALE as int) + 1,
            c * (SCALE as int) <= w + (SCALE as int),
            SCALE == 256,
    ;
}

impl<'a> Triangle<'a> {
    /// Rasterizes the triangle: walks the margin-padded pixel bounding box,
    /// computes exact barycentric weights per pixel center, skips pixels
    /// outside the triangle or on a degenerate triangle, and writes each
    /// covered pixel through the renderer's depth test with its exact
    /// interpolated depth and its intensity-scaled texture color.
    pub fn render(&self, renderer: &mut PNG)
        requires
            self.wf(),
            old(renderer).wf(),
        ensures
            final(renderer).wf(),
            render_rel(*self, *old(renderer), *final(renderer)),
    {
        let mut pts: Vec<Point3> = Vec::new();
        pts.push(self.a);
        pts.push(self.b);
        pts.push(self.c);
        proof {
            assert(pts@[0] == self.a && pts@[1] == self.b && pts@[2] == self.c);
        }
        let (min, max) = minmax(pts.as_slice());
        proof {
            assert(min.x as int == self.min3_x() && max.x as int == self.max3_x()
                && min.y as int == self.min3_y() && max.y as int == self.max3_y());
        }
        let col_lo: i64 = crate::num::div_floor_scale(min.x) - 1;
        let col_hi: i64 = crate::num::div_floor_scale(max.x) + 1;
        let row_lo: i64 = crate::num::div_floor_scale(min.y) - 1;
        let row_hi: i64 = crate::num::div_floor_scale(max.y) + 1;
        let mut col: i64 = col_lo;
        while col <= col_hi
            invariant
                self.wf(),
                renderer.wf(),
                renderer.width == old(renderer).width,
                renderer.height == old(renderer).height,
                -COORD_LIMIT <= min.x <= COORD_LIMIT && -COORD_LIMIT <= max.x <= COORD_LIMIT,
                -COORD_LIMIT <= min.y <= COORD_LIMIT && -COORD_LIMIT <= max.y <= COORD_LIMIT,
                min.x as int == self.min3_x() && max.x as int == self.max3_x(),
                min.y as int == self.min3_y() && max.y as int == self.max3_y(),
                col_lo == self.min3_x() / (SCALE as int) - 1,
                col_hi == self.max3_x() / (SCALE as int) + 1,
                row_lo == self.min3_y() / (SCALE as int) - 1,
                row_hi == self.max3_y() / (SCALE as int) + 1,
                -0x4002 <= col_lo <= 0x4001 && -0x4002 <= col_hi <= 0x4001,
                -0x4002 <= row_lo <= 0x4001 && -0x4002 <= row_hi <= 0x4001,
                col_lo <= col <= col_hi + 1,
                loop_state(
                    *self,
                    *old(renderer),
                    *renderer,
                    col_lo as int,
                    row_lo as int,
                    col as int,
                    row_lo as int,
                ),
            decreases col_hi + 1 - col,
        {
            let mut row: i64 = row_lo;
            while row <= row_hi
                invariant
                    self.wf(),
                    renderer.wf(),
                    renderer.width == old(renderer).width,
                    renderer.height == old(renderer).height,
                    -COORD_LIMIT <= min.x <= COORD_LIMIT && -COORD_LIMIT <= max.x <= COORD_LIMIT,
                    -COORD_LIMIT <= min.y <= COORD_LIMIT && -COORD_LIMIT <= max.y <= COORD_LIMIT,
                    min.x as int == self.min3_x() && max.x as int == self.max3_x(),
                    min.y as int == self.min3_y() && max.y as int == self.max3_y(),
                    col_lo == self.min3_x() / (SCALE as int) - 1,
                    col_hi == self.max3_x() / (SCALE as int) + 1,
                    row_lo == self.min3_y() / (SCALE as int) - 1,
                    row_hi == self.max3_y() / (SCALE as int) + 1,
                    -0x4002 <= col_lo <= 0x4001 && -0x4002 <= col_hi <= 0x4001,
                    -0x4002 <= row_lo <= 0x4001 && -0x4002 <= row_hi <= 0x4001,
                    col_lo <= col <= col_hi,
                    row_lo <= row <= row_hi + 1,
                    loop_state(
                        *self,
                        *old(renderer),
                        *renderer,
                        col_lo as int,
                        row_lo as int,
                        col as int,
                        row as int,
                    ),
                decreases row_hi + 1 - row,
            {
                let ghost pre = *renderer;
                proof {
                    lemma_mul_bound2(col as int, SCALE as int, 0x4002, 256);
                    lemma_mul_bound2(row as int, SCALE as int, 0x4002, 256);
                }
                let x: i64 = col * SCALE;
                let y: i64 = row * SCALE;
                let (rx, ry, rz) = self.barycentric(x, y);
                let rza: i128 = if rz >= 0 {
                    rz
                } else {
                    -rz
                };
                let in_bbox: bool = min.x - SCALE <= x && x <= max.x + SCALE && min.y - SCALE <= y
                    && y <= max.y + SCALE;
                let inside: bool = in_bbox && rza >= 65536 && (if rz > 0 {
                    rx >= 0 && ry >= 0 && rz - rx - ry >= 0
                } else {
                    rx <= 0 && ry <= 0 && rz - rx - ry <= 0
                });
                proof {
                    assert(inside == self.covered(x as int, y as int));
                }
                if inside {
                    let w0n: i128 = rz - rx - ry;
                    proof {
                        lemma_mul_bound2(self.a.z as int, w0n as int, 0x400000, 0x3000000000000);
                        lemma_mul_bound2(self.b.z as int, ry as int, 0x400000, 0x1000000000000);
                        lemma_mul_bound2(self.c.z as int, rx as int, 0x400000, 0x1000000000000);
                    }
                    let zn: i128 = (self.a.z as i128) * w0n + (self.b.z as i128) * ry + (self.c.z
                        as i128) * rx;
                    let (dn, dd): (i128, i128) = if rz >= 0 {
                        (zn, rz)
                    } else {
                        (-zn, -rz)
                    };
                    let depth = Rat::new(dn, dd);
                    let sample = self.get_color((rx, ry, rz));
                    let shaded = color(sample, &self.intensity);
                    renderer.set_pixel(x, y, depth, shaded);
                    proof {
                        assert(depth.num == self.depth_num(x as int, y as int) && depth.den
                            == self.depth_den());
                        lemma_render_write_step(
                            *self,
                            *old(renderer),
                            pre,
                            *renderer,
                            depth,
                            shaded,
                            col as int,
                            row as int,
                            col_lo as int,
                            row_lo as int,
                        );
                    }
                } else {
                    proof {
                        lemma_render_skip_step(
                            *self,
                            *old(renderer),
                            pre,
                            *renderer,
                            col as int,
                            row as int,
                            col_lo as int,
                            row_lo as int,
                        );
                    }
                }
                row = row + 1;
            }
            proof {
                assert forall|r: int, c: int|
                    0 <= r < old(renderer).height && 0 <= c < old(renderer).width implies #[trigger] cell_ok(
                    *self,
                    *old(renderer),
                    *renderer,
                    col_lo as int,
                    row_lo as int,
                    col + 1,
                    row_lo as int,
                    r,
                    c,
                ) by {
                    let trig_pre = cell_ok(
                        *self,
                        *old(renderer),
                        *renderer,
                        col_lo as int,
                        row_lo as int,
                        col as int,
                        row as int,
                        r,
                        c,
                    );
                    if c == col && !(row_lo <= r < row) {
                        let x = c * (SCALE as int);
                        let y = r * (SCALE as int);
                        assert(pixel_untouched(*old(renderer), *renderer, r, c));
                        if self.covered(x, y) {
                            lemma_pixel_in_loop(
                                self.min3_y(),
                                self.max3_y(),
                                row_lo as int,
                                row_hi as int,
                                r,
                            );
                        }
                        assert(pixel_done(*self, *old(renderer), *renderer, r, c));
                    }
                }
            }
            col = col + 1;
        }
        proof {
            assert forall|r: int, c: int|
                0 <= r < old(renderer).height && 0 <= c < old(renderer).width implies #[trigger] pixel_done(
                *self,
                *old(renderer),
                *renderer,
                r,
                c,
            ) by {
                let trig_pre = cell_ok(
                    *self,
                    *old(renderer),
                    *renderer,
                    col_lo as int,
                    row_lo as int,
                    col as int,
                    row_lo as int,
                    r,
                    c,
                );
                if !(col_lo <= c < col) {
                    let x = c * (SCALE as int);
                    let y = r * (SCALE as int);
                    if self.covered(x, y) {
                        lemma_pixel_in_loop(
                            self.min3_x(),
                            self.max3_x(),
                            col_lo as int,
                            col_hi as int,
                            c,
                        );
                    }
                }
            }
        }
    }
}


/// The edge function of the directed edge `p -> q` at `(x, y)`: positive on
/// one side of the edge's line, zero on it, negative on the other.
pub open spec fn edge(p: Point3, q: Point3, x: int, y: int) -> int {
    (q.x - p.x) * (y - p.y) - (q.y - p.y) * (x - p.x)
}

/// `(x, y)` lies strictly inside the triangle: strictly on the same side of
/// all three directed edges.
pub open spec fn strictly_inside(a: Point3, b: Point3, c: Point3, x: int, y: int) -> bool {
    ||| (edge(a, b, x, y) > 0 && edge(b, c, x, y) > 0 && edge(c, a, x, y) > 0)
    ||| (edge(a, b, x, y) < 0 && edge(b, c, x, y) < 0 && edge(c, a, x, y) < 0)
}

/// Every point strictly inside a triangle has all three barycentric weights
/// nonnegative (each numerator shares the sign of the common denominator,
/// which is nonzero there), and the three weights sum to one: their
/// numerators sum to the common denominator.
pub proof fn lemma_inside_weights(a: Point3, b: Point3, c: Point3, x: int, y: int)
    requires
        strictly_inside(a, b, c, x, y),
    ensures
        bary_rz(a, b, c) != 0,
        bary_rx(a, b, x, y) * bary_rz(a, b, c) >= 0,
        bary_ry(a, c, x, y) * bary_rz(a, b, c) >= 0,
        (bary_rz(a, b, c) - bary_rx(a, b, x, y) - bary_ry(a, c, x, y)) * bary_rz(a, b, c) >= 0,
        (bary_rz(a, b, c) - bary_rx(a, b, x, y) - bary_ry(a, c, x, y)) + bary_ry(a, c, x, y)
            + bary_rx(a, b, x, y) == bary_rz(a, b, c),
{
    let e1 = edge(a, b, x, y);
    let e2 = edge(b, c, x, y);
    let e3 = edge(c, a, x, y);
    let rx = bary_rx(a, b, x, y);
    let ry = bary_ry(a, c, x, y);
    let rz = bary_rz(a, b, c);
    assert((b.x - a.x) * (y - a.y) - (b.y - a.y) * (x - a.x) == -((b.x - a.x) * (a.y - y) - (a.x
        - x) * (b.y - a.y))) by (nonlinear_arith);
    assert(e1 == -rx);
    assert((a.x - c.x) * (y - c.y) - (a.y - c.y) * (x - c.x) == -((a.x - x) * (c.y - a.y) - (c.x
        - a.x) * (a.y - y))) by (nonlinear_arith);
    assert(e3 == -ry);
    assert((b.x - a.x) * (y - a.y) == b.x * y - b.x * a.y - a.x * y + a.x * a.y)
        by (nonlinear_arith);
    assert((b.y - a.y) * (x - a.x) == b.y * x - b.y * a.x - a.y * x + a.y * a.x)
        by (nonlinear_arith);
    assert((c.x - b.x) * (y - b.y) == c.x * y - c.x * b.y - b.x * y + b.x * b.y)
        by (nonlinear_arith);
    assert((c.y - b.y) * (x - b.x) == c.y * x - c.y * b.x - b.y * x + b.y * b.x)
        by (nonlinear_arith);
    assert((a.x - c.x) * (y - c.y) == a.x * y - a.x * c.y - c.x * y + c.x * c.y)
        by (nonlinear_arith);
    assert((a.y - c.y) * (x - c.x) == a.y * x - a.y * c.x - c.y * x + c.y * c.x)
        by (nonlinear_arith);
    assert((c.x - a.x) * (b.y - a.y) == c.x * b.y - c.x * a.y - a.x * b.y + a.x * a.y)
        by (nonlinear_arith);
    assert((b.x - a.x) * (c.y - a.y) == b.x * c.y - b.x * a.y - a.x * c.y + a.x * a.y)
        by (nonlinear_arith);
    assert(b.y * a.x == a.x * b.y && c.y * b.x == b.x * c.y && a.y * c.x == c.x * a.y)
        by (nonlinear_arith);
    assert(e1 + e2 + e3 == -rz);
    assert(rx * rz >= 0 && ry * rz >= 0 && (rz - rx - ry) * rz >= 0) by (nonlinear_arith)
        requires
            rx == -e1,
            ry == -e3,
            rz == -(e1 + e2 + e3),
            (e1 > 0 && e2 > 0 && e3 > 0) || (e1 < 0 && e2 < 0 && e3 < 0),
    ;
}

/// The depth value the rasterizer stores for a pixel is exactly the
/// barycentric interpolation `a.z*w0 + b.z*w1 + c.z*w2` of the vertex
/// depths with that pixel's weights: as rationals over the common
/// denominator, cross-multiplied.
pub proof fn lemma_depth_is_interpolation(tri: Triangle, x: int, y: int)
    ensures
        tri.depth_num(x, y) * bary_rz(tri.a, tri.b, tri.c) == (tri.a.z * (bary_rz(
            tri.a,
            tri.b,
            tri.c,
        ) - bary_rx(tri.a, tri.b, x, y) - bary_ry(tri.a, tri.c, x, y)) + tri.b.z * bary_ry(
            tri.a,
            tri.c,
            x,
            y,
        ) + tri.c.z * bary_rx(tri.a, tri.b, x, y)) * tri.depth_den(),
{
    let rz = bary_rz(tri.a, tri.b, tri.c);
    let n = tri.a.z * (rz - bary_rx(tri.a, tri.b, x, y) - bary_ry(tri.a, tri.c, x, y)) + tri.b.z
        * bary_ry(tri.a, tri.c, x, y) + tri.c.z * bary_rx(tri.a, tri.b, x, y);
    if rz >= 0 {
        assert(tri.depth_num(x, y) == n && tri.depth_den() == rz);
    } else {
        assert(tri.depth_num(x, y) == -n && tri.depth_den() == -rz);
        assert((-n) * rz == n * (-rz)) by (nonlinear_arith);
    }
}

/// Depth-test idempotence: rasterizing the same triangle a second time
/// leaves the framebuffer exactly as the first pass left it.
pub proof fn lemma_render_idempotent(tri: Triangle, s0: PNG, s1: PNG, s2: PNG)
    requires
        render_rel(tri, s0, s1),
        render_rel(tri, s1, s2),
    ensures
        forall|r: int, c: int|
            0 <= r < s0.height && 0 <= c < s0.width ==> #[trigger] pixel_untouched(s1, s2, r, c),
{
    assert forall|r: int, c: int|
        0 <= r < s0.height && 0 <= c < s0.width implies #[trigger] pixel_untouched(
        s1,
        s2,
        r,
        c,
    ) by {
        let t1 = pixel_done(tri, s0, s1, r, c);
        let t2 = pixel_done(tri, s1, s2, r, c);
        let x = c * (SCALE as int);
        let y = r * (SCALE as int);
        if tri.covered(x, y) {
            if depth_passes_int(s0.depth_at(r, c), tri.depth_num(x, y), tri.depth_den()) {
                assert(!depth_passes_int(s1.depth_at(r, c), tri.depth_num(x, y), tri.depth_den()));
            } else {
                assert(s1.depth_at(r, c) == s0.depth_at(r, c));
            }
        }
    }
}

/// Depth-test ordering invariance: for two triangles both covering a pixel
/// of an untouched framebuffer, with `ta` strictly nearer there than `tb`,
/// the pixel ends with `ta`'s color whichever triangle is rasterized first.
pub proof fn lemma_depth_order_invariance(
    ta: Triangle,
    tb: Triangle,
    s0: PNG,
    s1: PNG,
    s2: PNG,
    t1: PNG,
    t2: PNG,
    r: int,
    c: int,
)
    requires
        render_rel(ta, s0, s1),
        render_rel(tb, s1, s2),
        render_rel(tb, s0, t1),
        render_rel(ta, t1, t2),
        0 <= r < s0.height,
        0 <= c < s0.width,
        ta.covered(c * (SCALE as int), r * (SCALE as int)),
        tb.covered(c * (SCALE as int), r * (SCALE as int)),
        s0.depth_at(r, c) == Depth::Empty,
        ta.depth_num(c * (SCALE as int), r * (SCALE as int)) * tb.depth_den() > tb.depth_num(
            c * (SCALE as int),
            r * (SCALE as int),
        ) * ta.depth_den(),
    ensures
        s2.color_at(r, c) == ta.shade(c * (SCALE as int), r * (SCALE as int)),
        t2.color_at(r, c) == ta.shade(c * (SCALE as int), r * (SCALE as int)),
{
    let x = c * (SCALE as int);
    let y = r * (SCALE as int);
    let pd1 = pixel_done(ta, s0, s1, r, c);
    let pd2 = pixel_done(tb, s1, s2, r, c);
    let pd3 = pixel_done(tb, s0, t1, r, c);
    let pd4 = pixel_done(ta, t1, t2, r, c);
    assert(depth_passes_int(s0.depth_at(r, c), ta.depth_num(x, y), ta.depth_den()));
    assert(!depth_passes_int(s1.depth_at(r, c), tb.depth_num(x, y), tb.depth_den()));
    assert(depth_passes_int(t1.depth_at(r, c), ta.depth_num(x, y), ta.depth_den()));
}

} // verus!
