//! Line segments: rasterization by x-stepping, bounds testing, and exact
//! 2D segment intersection.

use vstd::prelude::*;

use crate::geometry::Point3;
use crate::num::{lemma_mul_bound2, lemma_rat_int_bounds, Rat, COORD_LIMIT, SCALE};
use crate::render::{Color, Depth, PNG};

verus! {

/// A 2D point with exact rational coordinates, as produced by line
/// intersection.
#[derive(Clone, Copy, Debug, PartialEq, Eq, Structural)]
pub struct RatPoint {
    pub x: Rat,
    pub y: Rat,
}

/// The failure of `Line::intersect`: the segments are parallel, one of them
/// is vertical, or the crossing point of their infinite lines falls outside
/// one of the segments.
#[derive(Clone, Copy, Debug, PartialEq, Eq, Structural)]
pub struct IntersectError;

/// A straight segment between two endpoints, with the color it is drawn in.
/// The slope and y-intercept are precomputed exactly; both are `None` for
/// vertical segments, whose slope is undefined.
pub struct Line {
    pub vertex0: Point3,
    pub vertex1: Point3,
    pub slope: Option<Rat>,
    pub y_intercept: Option<Rat>,
    pub color: Color,
    pub vertices_sorted_x: Vec<Point3>,
    pub vertices_sorted_y: Vec<Point3>,
}

/// The slope `(v0.y - v1.y) / (v0.x - v1.x)` as a rational with positive
/// denominator; `None` when the segment is vertical.
pub open spec fn make_slope(v0: Point3, v1: Point3) -> Option<Rat> {
    let dy = v0.y - v1.y;
    let dx = v0.x - v1.x;
    if dx == 0 {
        Option::None
    } else if dx > 0 {
        Option::Some(Rat { num: dy as i128, den: dx as i128 })
    } else {
        Option::Some(Rat { num: (-dy) as i128, den: (-dx) as i128 })
    }
}

/// The y-intercept `v0.y - v0.x * slope` as a rational with positive
/// denominator; `None` when the segment is vertical.
pub open spec fn make_y_intercept(v0: Point3, v1: Point3) -> Option<Rat> {
    let dy = v0.y - v1.y;
    let dx = v0.x - v1.x;
    let b = v0.y * dx - v0.x * dy;
    if dx == 0 {
        Option::None
    } else if dx > 0 {
        Option::Some(Rat { num: b as i128, den: dx as i128 })
    } else {
        Option::Some(Rat { num: (-b) as i128, den: (-dx) as i128 })
    }
}

impl Line {
    pub open spec fn wf(self) -> bool {
        &&& self.vertex0.in_range()
        &&& self.vertex1.in_range()
        &&& self.slope == make_slope(self.vertex0, self.vertex1)
        &&& self.y_intercept == make_y_intercept(self.vertex0, self.vertex1)
        &&& (self.vertices_sorted_x@ == seq![self.vertex0, self.vertex1]
            || self.vertices_sorted_x@ == seq![self.vertex1, self.vertex0])
        &&& self.vertices_sorted_x@[0].x <= self.vertices_sorted_x@[1].x
        &&& (self.vertices_sorted_y@ == seq![self.vertex0, self.vertex1]
            || self.vertices_sorted_y@ == seq![self.vertex1, self.vertex0])
        &&& self.vertices_sorted_y@[0].y <= self.vertices_sorted_y@[1].y
    }

    /// The segment is not vertical, so its slope is defined.
    pub open spec fn slope_defined(self) -> bool {
        self.vertex0.x != self.vertex1.x
    }

    pub open spec fn min_x(self) -> int {
        if self.vertex0.x <= self.vertex1.x {
            self.vertex0.x as int
        } else {
            self.vertex1.x as int
        }
    }

    pub open spec fn max_x(self) -> int {
        if self.vertex0.x <= self.vertex1.x {
            self.vertex1.x as int
        } else {
            self.vertex0.x as int
        }
    }

    pub open spec fn min_y(self) -> int {
        if self.vertex0.y <= self.vertex1.y {
            self.vertex0.y as int
        } else {
            self.vertex1.y as int
        }
    }

    pub open spec fn max_y(self) -> int {
        if self.vertex0.y <= self.vertex1.y {
            self.vertex1.y as int
        } else {
            self.vertex0.y as int
        }
    }

    /// `p` falls inside the segment's axis-aligned bounds.
    pub open spec fn contains_spec(self, p: RatPoint) -> bool {
        &&& p.x.ge_int_spec(self.min_x())
        &&& p.x.le_int_spec(self.max_x())
        &&& p.y.ge_int_spec(self.min_y())
        &&& p.y.le_int_spec(self.max_y())
    }

    pub fn new(vertex0: Point3, vertex1: Point3, color: Color) -> (line: Line)
        requires
            vertex0.in_range(),
            vertex1.in_range(),
        ensures
            line.wf(),
            line.vertex0 == vertex0,
            line.vertex1 == vertex1,
            line.color == color,
            line.slope == make_slope(vertex0, vertex1),
            line.y_intercept == make_y_intercept(vertex0, vertex1),
    {
        let dy: i64 = vertex0.y - vertex1.y;
        let dx: i64 = vertex0.x - vertex1.x;
        let slope: Option<Rat> = if dx == 0 {
            Option::None
        } else if dx > 0 {
            Option::Some(Rat::new(dy as i128, dx as i128))
        } else {
            Option::Some(Rat::new(-(dy as i128), -(dx as i128)))
        };
        proof {
            lemma_mul_bound2(vertex0.y as int, dx as int, COORD_LIMIT as int, 2 * COORD_LIMIT as int);
            lemma_mul_bound2(vertex0.x as int, dy as int, COORD_LIMIT as int, 2 * COORD_LIMIT as int);
        }
        let b: i128 = (vertex0.y as i128) * (dx as i128) - (vertex0.x as i128) * (dy as i128);
        let y_intercept: Option<Rat> = if dx == 0 {
            Option::None
        } else if dx > 0 {
            Option::Some(Rat::new(b, dx as i128))
        } else {
            Option::Some(Rat::new(-b, -(dx as i128)))
        };
        let mut vertices_sorted_x: Vec<Point3> = Vec::new();
        if vertex0.x <= vertex1.x {
            vertices_sorted_x.push(vertex0);
            vertices_sorted_x.push(vertex1);
        } else {
            vertices_sorted_x.push(vertex1);
            vertices_sorted_x.push(vertex0);
        }
        let mut vertices_sorted_y: Vec<Point3> = Vec::new();
        if vertex0.y <= vertex1.y {
            vertices_sorted_y.push(vertex0);
            vertices_sorted_y.push(vertex1);
        } else {
            vertices_sorted_y.push(vertex1);
            vertices_sorted_y.push(vertex0);
        }
        proof {
            assert(vertices_sorted_x@ == seq![vertex0, vertex1] || vertices_sorted_x@ == seq![
                vertex1,
                vertex0,
            ]);
            assert(vertices_sorted_y@ == seq![vertex0, vertex1] || vertices_sorted_y@ == seq![
                vertex1,
                vertex0,
            ]);
        }
        Line { vertex0, vertex1, slope, y_intercept, color, vertices_sorted_x, vertices_sorted_y }
    }

    /// Bounds test: true iff `p.x` lies within the segment's x-extent and
    /// `p.y` within its y-extent.
    pub fn in_line(&self, p: &RatPoint) -> (r: bool)
        requires
            self.wf(),
            p.x.wf(),
            p.y.wf(),
            p.x.point_bounded(),
            p.y.point_bounded(),
        ensures
            r == self.contains_spec(*p),
    {
        let sx0 = self.vertices_sorted_x[0].x;
        let sx1 = self.vertices_sorted_x[1].x;
        if !p.x.ge_int(sx0) || !p.x.le_int(sx1) {
            false
        } else {
            let sy0 = self.vertices_sorted_y[0].y;
            let sy1 = self.vertices_sorted_y[1].y;
            p.y.ge_int(sy0) && p.y.le_int(sy1)
        }
    }
}


/// Both slopes are defined and denote the same value: the infinite lines
/// are parallel (or coincident).
pub open spec fn slopes_equal(a: Line, b: Line) -> bool {
    let m0 = a.slope->Some_0;
    let m1 = b.slope->Some_0;
    m0.num * m1.den == m1.num * m0.den
}

/// The crossing point of the two infinite lines, solved from
/// `slope0 * x + y_intercept0 == slope1 * x + y_intercept1`.  Because slope
/// and intercept share a denominator, the solution reduces to the ratio of
/// the intercept difference to the slope difference.  Meaningful when both
/// slopes are defined and distinct.
pub open spec fn isect_point(a: Line, b: Line) -> RatPoint {
    let m0 = a.slope->Some_0;
    let b0 = a.y_intercept->Some_0;
    let m1 = b.slope->Some_0;
    let b1 = b.y_intercept->Some_0;
    let bn = b0.num * b1.den - b1.num * b0.den;
    let mn = m1.num * m0.den - m0.num * m1.den;
    let x = if mn >= 0 {
        Rat { num: bn as i128, den: mn as i128 }
    } else {
        Rat { num: (-bn) as i128, den: (-mn) as i128 }
    };
    let yn = m0.num * x.num + b0.num * x.den;
    let y = Rat { num: yn as i128, den: (m0.den * x.den) as i128 };
    RatPoint { x, y }
}

/// `p` lies on the infinite line through `l`: `p.y == slope * p.x +
/// y_intercept`, cross-multiplied.  Meaningful when the slope is defined.
pub open spec fn on_line(l: Line, p: RatPoint) -> bool {
    let m = l.slope->Some_0;
    let b = l.y_intercept->Some_0;
    p.y.num * (m.den * p.x.den) == (m.num * p.x.num + b.num * p.x.den) * p.y.den
}

/// Bounds on the stored slope and intercept of a well-formed line: both
/// denominators are positive and every field is small enough for the
/// intersection arithmetic.
pub proof fn lemma_line_field_bounds(l: Line)
    requires
        l.wf(),
    ensures
        l.slope is Some <==> l.slope_defined(),
        l.y_intercept is Some <==> l.slope_defined(),
        l.slope matches Some(m) ==> -0x800000 <= m.num <= 0x800000 && 0 < m.den <= 0x800000,
        l.y_intercept matches Some(b) ==> -0x400000000000 <= b.num <= 0x400000000000 && 0 < b.den
            <= 0x800000,
        l.slope matches Some(m) ==> l.y_intercept matches Some(b) && b.den == m.den,
{
    let v0 = l.vertex0;
    let v1 = l.vertex1;
    let dy = v0.y - v1.y;
    let dx = v0.x - v1.x;
    lemma_mul_bound2(v0.y as int, dx, COORD_LIMIT as int, 2 * COORD_LIMIT as int);
    lemma_mul_bound2(v0.x as int, dy, COORD_LIMIT as int, 2 * COORD_LIMIT as int);
}

impl Line {
    /// The exact crossing point of this segment with another, when the
    /// infinite lines cross at a point inside both segments' bounds; the
    /// error otherwise (parallel or vertical lines included).
    pub fn intersect(&self, line: &Line) -> (r: Result<RatPoint, IntersectError>)
        requires
            self.wf(),
            line.wf(),
        ensures
            r matches Ok(p) ==> {
                &&& p == isect_point(*self, *line)
                &&& p.x.wf() && p.y.wf()
                &&& p.x.point_bounded() && p.y.point_bounded()
                &&& -(COORD_LIMIT as i128) * p.x.den <= p.x.num <= (COORD_LIMIT as i128) * p.x.den
                &&& -(COORD_LIMIT as i128) * p.y.den <= p.y.num <= (COORD_LIMIT as i128) * p.y.den
                &&& self.contains_spec(p)
                &&& line.contains_spec(p)
            },
            (r matches Ok(p)) <==> {
                &&& self.slope_defined()
                &&& line.slope_defined()
                &&& !slopes_equal(*self, *line)
                &&& self.contains_spec(isect_point(*self, *line))
                &&& line.contains_spec(isect_point(*self, *line))
            },
    {
        proof {
            lemma_line_field_bounds(*self);
            lemma_line_field_bounds(*line);
        }
        let m0 = match self.slope {
            Option::Some(m) => m,
            Option::None => {
                return Result::Err(IntersectError);
            },
        };
        let b0 = match self.y_intercept {
            Option::Some(b) => b,
            Option::None => {
                return Result::Err(IntersectError);
            },
        };
        let m1 = match line.slope {
            Option::Some(m) => m,
            Option::None => {
                return Result::Err(IntersectError);
            },
        };
        let b1 = match line.y_intercept {
            Option::Some(b) => b,
            Option::None => {
                return Result::Err(IntersectError);
            },
        };
        proof {
            lemma_mul_bound2(m1.num as int, m0.den as int, 0x800000, 0x800000);
            lemma_mul_bound2(m0.num as int, m1.den as int, 0x800000, 0x800000);
            lemma_mul_bound2(b0.num as int, b1.den as int, 0x400000000000, 0x800000);
            lemma_mul_bound2(b1.num as int, b0.den as int, 0x400000000000, 0x800000);
        }
        let mn: i128 = m1.num * m0.den - m0.num * m1.den;
        if mn == 0 {
            return Result::Err(IntersectError);
        }
        let bn: i128 = b0.num * b1.den - b1.num * b0.den;
        let x: Rat = if mn > 0 {
            Rat::new(bn, mn)
        } else {
            Rat::new(-bn, -mn)
        };
        proof {
            lemma_mul_bound2(m0.num as int, x.num as int, 0x800000, 0x400000000000000000);
            lemma_mul_bound2(b0.num as int, x.den as int, 0x400000000000, 0x800000000000);
            lemma_mul_bound2(m0.den as int, x.den as int, 0x800000, 0x800000000000);
            assert(m0.den * x.den > 0) by (nonlinear_arith)
                requires
                    m0.den > 0,
                    x.den > 0,
            ;
        }
        let yn: i128 = m0.num * x.num + b0.num * x.den;
        let yd: i128 = m0.den * x.den;
        let y: Rat = Rat::new(yn, yd);
        let p = RatPoint { x, y };
        assert(p == isect_point(*self, *line));
        if self.in_line(&p) {
            if line.in_line(&p) {
                proof {
                    lemma_rat_int_bounds(p.x, self.min_x(), self.max_x());
                    lemma_rat_int_bounds(p.y, self.min_y(), self.max_y());
                }
                return Result::Ok(p);
            }
        }
        Result::Err(IntersectError)
    }
}

/// The point that `intersect` returns solves both line equations exactly:
/// it is the analytic crossing point of the two infinite lines.
pub proof fn lemma_intersect_on_lines(a: Line, b: Line)
    requires
        a.wf(),
        b.wf(),
        a.slope_defined(),
        b.slope_defined(),
        !slopes_equal(a, b),
    ensures
        on_line(a, isect_point(a, b)),
        on_line(b, isect_point(a, b)),
{
    lemma_line_field_bounds(a);
    lemma_line_field_bounds(b);
    let m0 = a.slope->Some_0;
    let b0 = a.y_intercept->Some_0;
    let m1 = b.slope->Some_0;
    let b1 = b.y_intercept->Some_0;
    let bn = b0.num * b1.den - b1.num * b0.den;
    let mn = m1.num * m0.den - m0.num * m1.den;
    lemma_mul_bound2(b0.num as int, b1.den as int, 0x400000000000, 0x800000);
    lemma_mul_bound2(b1.num as int, b0.den as int, 0x400000000000, 0x800000);
    lemma_mul_bound2(m1.num as int, m0.den as int, 0x800000, 0x800000);
    lemma_mul_bound2(m0.num as int, m1.den as int, 0x800000, 0x800000);
    let p = isect_point(a, b);
    let xn = p.x.num as int;
    let xd = p.x.den as int;
    assert(xn == if mn >= 0 { bn } else { -bn });
    assert(xd == if mn >= 0 { mn } else { -mn });
    lemma_mul_bound2(m0.num as int, xn, 0x800000, 0x400000000000000000);
    lemma_mul_bound2(b0.num as int, xd, 0x400000000000, 0x800000000000);
    lemma_mul_bound2(m0.den as int, xd, 0x800000, 0x800000000000);
    let yn = m0.num * xn + b0.num * xd;
    let yd = m0.den * xd;
    assert(p.y.num == yn);
    assert(p.y.den == yd);
    assert(p.y.num * (m0.den * p.x.den) == (m0.num * p.x.num + b0.num * p.x.den) * p.y.den)
        by (nonlinear_arith)
        requires
            p.y.num == m0.num * p.x.num + b0.num * p.x.den,
            p.y.den == m0.den * p.x.den,
    ;
    lemma_cross_core(
        b0.num as int,
        b1.num as int,
        m0.num as int,
        m0.den as int,
        m1.num as int,
        m1.den as int,
        bn,
        mn,
    );
    assert(xn * mn == bn * xd) by (nonlinear_arith)
        requires
            xn == if mn >= 0 { bn } else { -bn },
            xd == if mn >= 0 { mn } else { -mn },
    ;
    lemma_cross_transfer(
        b0.num as int,
        b1.num as int,
        m0.num as int,
        m0.den as int,
        m1.num as int,
        m1.den as int,
        bn,
        mn,
        xn,
        xd,
    );
}

/// The algebraic core of line intersection: at the solved x-value both line
/// equations give the same y, over the common denominators.
proof fn lemma_cross_core(
    b0n: int,
    b1n: int,
    m0n: int,
    m0d: int,
    m1n: int,
    m1d: int,
    bn: int,
    mn: int,
)
    requires
        bn == b0n * m1d - b1n * m0d,
        mn == m1n * m0d - m0n * m1d,
    ensures
        (m0n * bn + b0n * mn) * m1d == (m1n * bn + b1n * mn) * m0d,
{
    assert((m0n * bn + b0n * mn) * m1d == (m0n * bn) * m1d + (b0n * mn) * m1d)
        by (nonlinear_arith);
    assert((m1n * bn + b1n * mn) * m0d == (m1n * bn) * m0d + (b1n * mn) * m0d)
        by (nonlinear_arith);
    assert((m0n * bn) * m1d == bn * (m0n * m1d)) by (nonlinear_arith);
    assert((m1n * bn) * m0d == bn * (m1n * m0d)) by (nonlinear_arith);
    assert((b0n * mn) * m1d == mn * (b0n * m1d)) by (nonlinear_arith);
    assert((b1n * mn) * m0d == mn * (b1n * m0d)) by (nonlinear_arith);
    assert(bn * (m0n * m1d) - bn * (m1n * m0d) == bn * ((m0n * m1d) - (m1n * m0d)))
        by (nonlinear_arith);
    assert(mn * (b0n * m1d) - mn * (b1n * m0d) == mn * ((b0n * m1d) - (b1n * m0d)))
        by (nonlinear_arith);
    assert(bn * ((m0n * m1d) - (m1n * m0d)) == bn * (-mn));
    assert(mn * ((b0n * m1d) - (b1n * m0d)) == mn * bn);
    assert(bn * (-mn) == -(bn * mn)) by (nonlinear_arith);
    assert(mn * bn == bn * mn) by (nonlinear_arith);
}

/// Transfers the core identity from the reduced x-value `bn / mn` to the
/// sign-normalized pair `(xn, xd)` and the derived y-value.
proof fn lemma_cross_transfer(
    b0n: int,
    b1n: int,
    m0n: int,
    m0d: int,
    m1n: int,
    m1d: int,
    bn: int,
    mn: int,
    xn: int,
    xd: int,
)
    requires
        xn * mn == bn * xd,
        mn != 0,
        (m0n * bn + b0n * mn) * m1d == (m1n * bn + b1n * mn) * m0d,
    ensures
        (m0n * xn + b0n * xd) * (m1d * xd) == (m1n * xn + b1n * xd) * (m0d * xd),
{
    let ya = m0n * xn + b0n * xd;
    let yb = m1n * xn + b1n * xd;
    let ca = m0n * bn + b0n * mn;
    let cb = m1n * bn + b1n * mn;
    assert(ya * mn == ca * xd) by (nonlinear_arith)
        requires
            ya == m0n * xn + b0n * xd,
            ca == m0n * bn + b0n * mn,
            xn * mn == bn * xd,
    ;
    assert(yb * mn == cb * xd) by (nonlinear_arith)
        requires
            yb == m1n * xn + b1n * xd,
            cb == m1n * bn + b1n * mn,
            xn * mn == bn * xd,
    ;
    assert((ya * (m1d * xd)) * mn == ((ya * mn) * m1d) * xd) by (nonlinear_arith);
    assert(((ya * mn) * m1d) * xd == ((ca * xd) * m1d) * xd);
    assert(((ca * xd) * m1d) * xd == ((ca * m1d) * xd) * xd) by (nonlinear_arith);
    assert(((ca * m1d) * xd) * xd == ((cb * m0d) * xd) * xd);
    assert(((cb * m0d) * xd) * xd == ((cb * xd) * m0d) * xd) by (nonlinear_arith);
    assert(((cb * xd) * m0d) * xd == ((yb * mn) * m0d) * xd);
    assert(((yb * mn) * m0d) * xd == (yb * (m0d * xd)) * mn) by (nonlinear_arith);
    assert(ya * (m1d * xd) == yb * (m0d * xd)) by (nonlinear_arith)
        requires
            (ya * (m1d * xd)) * mn == (yb * (m0d * xd)) * mn,
            mn != 0,
    ;
}

/// The depth every line pixel is written at: zero.
pub open spec fn line_depth() -> Rat {
    Rat { num: 0, den: 1 }
}

/// The inverse slope `(v0.x - v1.x) / (v0.y - v1.y)` as a rational with
/// positive denominator, used to interpolate x on steep segments; `None`
/// when the segment is horizontal.
pub open spec fn make_inv_slope(v0: Point3, v1: Point3) -> Option<Rat> {
    let dx = v0.x - v1.x;
    let dy = v0.y - v1.y;
    if dy == 0 {
        Option::None
    } else if dy > 0 {
        Option::Some(Rat { num: dx as i128, den: dy as i128 })
    } else {
        Option::Some(Rat { num: (-dx) as i128, den: (-dy) as i128 })
    }
}

impl Line {
    /// The segment is steep: its y-extent strictly exceeds its x-extent, so
    /// the rasterizer steps along y instead of x.  Vertical segments, whose
    /// slope is undefined, are the limiting case.
    pub open spec fn is_steep(self) -> bool {
        let dx = self.vertex0.x - self.vertex1.x;
        let dy = self.vertex0.y - self.vertex1.y;
        (if dy >= 0 {
            dy as int
        } else {
            -(dy as int)
        }) > (if dx >= 0 {
            dx as int
        } else {
            -(dx as int)
        })
    }

    /// How many steps the rasterizer takes: one per whole pixel of the
    /// segment's extent along its stepping axis (y if steep, x otherwise).
    pub open spec fn steps_count(self) -> int {
        let steps = if self.is_steep() {
            self.vertex0.y - self.vertex1.y
        } else {
            self.vertex0.x - self.vertex1.x
        };
        (if steps >= 0 {
            steps as int
        } else {
            -(steps as int)
        }) / (SCALE as int)
    }

    /// The x-coordinate (in units) of step `i`: stepped directly on a
    /// shallow segment, interpolated from the inverse slope and truncated
    /// toward zero on a steep one.
    pub open spec fn step_x(self, i: int) -> int {
        if self.is_steep() {
            let mi = make_inv_slope(self.vertex0, self.vertex1)->Some_0;
            let steps = self.vertex0.y - self.vertex1.y;
            let vx = if self.vertex0.y < self.vertex1.y {
                self.vertex0.x as int
            } else {
                self.vertex1.x as int
            };
            let dlt = if self.vertex0.y < self.vertex1.y {
                i * (SCALE as int)
            } else {
                steps - i * (SCALE as int)
            };
            (Rat { num: (vx * mi.den + dlt * mi.num) as i128, den: mi.den }).trunc_spec()
        } else {
            if self.vertex0.x < self.vertex1.x {
                self.vertex0.x + i * (SCALE as int)
            } else {
                self.vertex0.x - i * (SCALE as int)
            }
        }
    }

    /// The y-coordinate (in units) of step `i`: stepped directly on a steep
    /// segment, interpolated from the slope and truncated toward zero on a
    /// shallow one.
    pub open spec fn step_y(self, i: int) -> int {
        if self.is_steep() {
            if self.vertex0.y < self.vertex1.y {
                self.vertex0.y + i * (SCALE as int)
            } else {
                self.vertex0.y - i * (SCALE as int)
            }
        } else {
            let m = self.slope->Some_0;
            let steps = self.vertex0.x - self.vertex1.x;
            let vy = if self.vertex0.x < self.vertex1.x {
                self.vertex0.y as int
            } else {
                self.vertex1.y as int
            };
            let dlt = if self.vertex0.x < self.vertex1.x {
                i * (SCALE as int)
            } else {
                steps - i * (SCALE as int)
            };
            (Rat { num: (vy * m.den + dlt * m.num) as i128, den: m.den }).trunc_spec()
        }
    }

    /// Step `i` of this segment lands on the framebuffer cell in row `r`,
    /// column `c` of a target with `png`'s bounds.
    pub open spec fn step_hits(self, png: PNG, i: int, r: int, c: int) -> bool {
        let x = self.step_x(i);
        let y = self.step_y(i);
        &&& png.pix_in_bounds(x, y)
        &&& r == y / (SCALE as int)
        &&& c == x / (SCALE as int)
    }
}

/// What rasterizing the segment does to one framebuffer cell: a cell that
/// some step lands on, and whose stored depth loses to depth zero, takes
/// the line's color at depth zero; every other cell is untouched.
pub open spec fn line_cell_done(l: Line, before: PNG, after: PNG, n: int, r: int, c: int) -> bool {
    if (exists|i: int| 0 <= i < n && l.step_hits(before, i, r, c)) && before.depth_at(r, c).passes(
        line_depth(),
    ) {
        &&& after.color_at(r, c) == l.color
        &&& after.depth_at(r, c) == Depth::Val(line_depth())
    } else {
        &&& after.color_at(r, c) == before.color_at(r, c)
        &&& after.depth_at(r, c) == before.depth_at(r, c)
    }
}

impl Line {
    /// Rasterizes the segment by stepping one pixel at a time along its
    /// longer axis, interpolating the other coordinate from the slope: a
    /// steep segment (vertical included) steps over y, any other over x.
    /// Every cell of the target either keeps its color and depth, or takes
    /// the line's color at depth zero after winning the depth test.
    pub fn render(&self, renderer: &mut PNG)
        requires
            self.wf(),
            old(renderer).wf(),
        ensures
            final(renderer).wf(),
            final(renderer).width == old(renderer).width,
            final(renderer).height == old(renderer).height,
            forall|r: int, c: int|
                0 <= r < old(renderer).height && 0 <= c < old(renderer).width
                    ==> #[trigger] line_cell_done(
                    *self,
                    *old(renderer),
                    *final(renderer),
                    self.steps_count(),
                    r,
                    c,
                ),
    {
        let dx: i64 = self.vertex0.x - self.vertex1.x;
        let dy: i64 = self.vertex0.y - self.vertex1.y;
        let adx: i64 = if dx >= 0 {
            dx
        } else {
            -dx
        };
        let ady: i64 = if dy >= 0 {
            dy
        } else {
            -dy
        };
        let zero = Rat::from_int(0);
        if ady > adx {
            // steep: one pixel per y-step, x interpolated from the inverse slope
            let mi: Rat = if dy > 0 {
                Rat::new(dx as i128, dy as i128)
            } else {
                Rat::new(-(dx as i128), -(dy as i128))
            };
            let n: i64 = ady / SCALE;
            proof {
                vstd::arithmetic::div_mod::lemma_fundamental_div_mod(ady as int, SCALE as int);
                vstd::arithmetic::div_mod::lemma_mod_division_less_than_divisor(
                    ady as int,
                    SCALE as int,
                );
                assert(Option::Some(mi) == make_inv_slope(self.vertex0, self.vertex1));
                assert(mi.den == ady as i128);
            }
            let mut index: i64 = 0;
            while index < n
                invariant
                    0 <= index <= n || n < 0,
                    0 <= n <= 0x8000,
                    (SCALE as int) * (n as int) <= ady,
                    0 <= ady <= 2 * COORD_LIMIT,
                    ady == if dy >= 0 { dy as int } else { -(dy as int) },
                    dy == self.vertex0.y - self.vertex1.y,
                    dx == self.vertex0.x - self.vertex1.x,
                    self.is_steep(),
                    self.wf(),
                    Option::Some(mi) == make_inv_slope(self.vertex0, self.vertex1),
                    mi.den == ady as i128,
                    -0x800000 <= mi.num <= 0x800000,
                    0 < mi.den <= 0x800000,
                    zero == (Rat { num: 0, den: 1 }),
                    n == self.steps_count(),
                    renderer.wf(),
                    renderer.width == old(renderer).width,
                    renderer.height == old(renderer).height,
                    forall|r: int, c: int|
                        0 <= r < old(renderer).height && 0 <= c < old(renderer).width
                            ==> #[trigger] line_cell_done(
                            *self,
                            *old(renderer),
                            *renderer,
                            index as int,
                            r,
                            c,
                        ),
                decreases n - index,
            {
                proof {
                    crate::num::lemma_mul_bound(
                        index as int,
                        SCALE as int,
                        n as int,
                        SCALE as int,
                    );
                    assert((index as int) * (SCALE as int) <= (n as int) * (SCALE as int) && 0 <= (
                    index as int) * (SCALE as int)) by (nonlinear_arith)
                        requires
                            0 <= index <= n,
                            SCALE > 0,
                    ;
                    assert((n as int) * (SCALE as int) == (SCALE as int) * (n as int))
                        by (nonlinear_arith);
                }
                let delta: i64 = index * SCALE;
                let (y, vx, dlt): (i64, i64, i64) = if self.vertex0.y < self.vertex1.y {
                    (self.vertex0.y + delta, self.vertex0.x, delta)
                } else {
                    (self.vertex0.y - delta, self.vertex1.x, dy - delta)
                };
                proof {
                    lemma_mul_bound2(vx as int, mi.den as int, COORD_LIMIT as int, 0x800000);
                    lemma_mul_bound2(dlt as int, mi.num as int, 2 * COORD_LIMIT as int, 0x800000);
                }
                let dnum: i128 = (vx as i128) * mi.den + (dlt as i128) * mi.num;
                proof {
                    assert(-(0xC00000 as i128) * mi.den <= dnum <= (0xC00000 as i128) * mi.den)
                        by (nonlinear_arith)
                        requires
                            dnum == (vx as i128) * mi.den + (dlt as i128) * mi.num,
                            -0x400000 <= vx <= 0x400000,
                            -(mi.den) <= dlt as i128 <= mi.den,
                            -0x800000 <= mi.num <= 0x800000,
                            mi.den > 0,
                    ;
                }
                let xr = Rat::new(dnum, mi.den);
                let x: i64 = xr.trunc_bounded(0xC00000);
                proof {
                    assert(x as int == self.step_x(index as int));
                    assert(y as int == self.step_y(index as int));
                }
                let ghost pre = *renderer;
                renderer.set_pixel(x, y, zero, self.color);
                proof {
                    lemma_line_step(
                        *self,
                        *old(renderer),
                        pre,
                        *renderer,
                        zero,
                        index as int,
                        x as int,
                        y as int,
                    );
                }
                index = index + 1;
            }
            return ;
        }
        let m = match self.slope {
            Option::Some(m) => m,
            Option::None => {
                proof {
                    // not steep and vertical: a single point, nothing to step
                    assert(self.steps_count() == 0) by {
                        assert(self.vertex0.x == self.vertex1.x);
                        assert(self.vertex0.y == self.vertex1.y);
                        vstd::arithmetic::div_mod::lemma_basic_div(0, SCALE as int);
                    }
                }
                return ;
            },
        };
        proof {
            lemma_line_field_bounds(*self);
        }
        let steps: i64 = dx;
        let steps_abs: i64 = adx;
        let n: i64 = steps_abs / SCALE;
        proof {
            vstd::arithmetic::div_mod::lemma_fundamental_div_mod(steps_abs as int, SCALE as int);
            vstd::arithmetic::div_mod::lemma_mod_division_less_than_divisor(
                steps_abs as int,
                SCALE as int,
            );
            assert(m.den == steps_abs as i128);
        }
        let mut index: i64 = 0;
        while index < n
            invariant
                0 <= index <= n || n < 0,
                0 <= n <= 0x8000,
                (SCALE as int) * (n as int) <= steps_abs,
                0 <= steps_abs <= 2 * COORD_LIMIT,
                steps_abs == if steps >= 0 { steps as int } else { -(steps as int) },
                steps == self.vertex0.x - self.vertex1.x,
                !self.is_steep(),
                self.wf(),
                self.slope == Option::Some(m),
                m.den == steps_abs as i128,
                -0x800000 <= m.num <= 0x800000,
                0 < m.den <= 0x800000,
                zero == (Rat { num: 0, den: 1 }),
                n == self.steps_count(),
                renderer.wf(),
                renderer.width == old(renderer).width,
                renderer.height == old(renderer).height,
                forall|r: int, c: int|
                    0 <= r < old(renderer).height && 0 <= c < old(renderer).width
                        ==> #[trigger] line_cell_done(
                        *self,
                        *old(renderer),
                        *renderer,
                        index as int,
                        r,
                        c,
                    ),
            decreases n - index,
        {
            proof {
                crate::num::lemma_mul_bound(index as int, SCALE as int, n as int, SCALE as int);
                assert((index as int) * (SCALE as int) <= (n as int) * (SCALE as int)
                    && 0 <= (index as int) * (SCALE as int)) by (nonlinear_arith)
                    requires
                        0 <= index <= n,
                        SCALE > 0,
                ;
                assert((n as int) * (SCALE as int) == (SCALE as int) * (n as int))
                    by (nonlinear_arith);
            }
            let delta: i64 = index * SCALE;
            let (x, vy, dlt): (i64, i64, i64) = if self.vertex0.x < self.vertex1.x {
                (self.vertex0.x + delta, self.vertex0.y, delta)
            } else {
                (self.vertex0.x - delta, self.vertex1.y, steps - delta)
            };
            proof {
                lemma_mul_bound2(vy as int, m.den as int, COORD_LIMIT as int, 0x800000);
                lemma_mul_bound2(dlt as int, m.num as int, 2 * COORD_LIMIT as int, 0x800000);
            }
            let dnum: i128 = (vy as i128) * m.den + (dlt as i128) * m.num;
            proof {
                assert(-(0xC00000 as i128) * m.den <= dnum <= (0xC00000 as i128) * m.den)
                    by (nonlinear_arith)
                    requires
                        dnum == (vy as i128) * m.den + (dlt as i128) * m.num,
                        -0x400000 <= vy <= 0x400000,
                        -(m.den) <= dlt as i128 <= m.den,
                        -0x800000 <= m.num <= 0x800000,
                        m.den > 0,
                ;
            }
            let yr = Rat::new(dnum, m.den);
            let y: i64 = yr.trunc_bounded(0xC00000);
            proof {
                assert(x as int == self.step_x(index as int));
                assert(y as int == self.step_y(index as int));
            }
            let ghost pre = *renderer;
            renderer.set_pixel(x, y, zero, self.color);
            proof {
                lemma_line_step(
                    *self,
                    *old(renderer),
                    pre,
                    *renderer,
                    zero,
                    index as int,
                    x as int,
                    y as int,
                );
            }
            index = index + 1;
        }
    }
}

/// One drawn step advances the per-cell account of `Line::render`.
proof fn lemma_line_step(
    l: Line,
    orig: PNG,
    pre: PNG,
    cur: PNG,
    zero: Rat,
    i: int,
    x: int,
    y: int,
)
    requires
        zero == line_depth(),
        pre.width == orig.width,
        pre.height == orig.height,
        cur.width == pre.width,
        cur.height == pre.height,
        x == l.step_x(i),
        y == l.step_y(i),
        0 <= i,
        forall|r: int, c: int|
            0 <= r < orig.height && 0 <= c < orig.width ==> #[trigger] line_cell_done(
                l,
                orig,
                pre,
                i,
                r,
                c,
            ),
        forall|r: int, c: int|
            0 <= r < pre.height && 0 <= c < pre.width ==> #[trigger] cur.color_at(r, c) == if pre.writes(
                x,
                y,
                zero,
                r,
                c,
            ) {
                l.color
            } else {
                pre.color_at(r, c)
            },
        forall|r: int, c: int|
            0 <= r < pre.height && 0 <= c < pre.width ==> #[trigger] cur.depth_at(r, c) == if pre.writes(
                x,
                y,
                zero,
                r,
                c,
            ) {
                Depth::Val(zero)
            } else {
                pre.depth_at(r, c)
            },
    ensures
        forall|r: int, c: int|
            0 <= r < orig.height && 0 <= c < orig.width ==> #[trigger] line_cell_done(
                l,
                orig,
                cur,
                i + 1,
                r,
                c,
            ),
{
    assert forall|r: int, c: int|
        0 <= r < orig.height && 0 <= c < orig.width implies #[trigger] line_cell_done(
        l,
        orig,
        cur,
        i + 1,
        r,
        c,
    ) by {
        let trig_pre = line_cell_done(l, orig, pre, i, r, c);
        let trig_col = cur.color_at(r, c);
        let trig_dep = cur.depth_at(r, c);
        if pre.pix_in_bounds(x, y) && r == y / (SCALE as int) && c == x / (SCALE as int) {
            // this step lands on cell (r, c)
            assert(l.step_hits(orig, i, r, c));
            if orig.depth_at(r, c).passes(line_depth()) {
                if pre.depth_at(r, c) == orig.depth_at(r, c) {
                    assert(pre.writes(x, y, zero, r, c));
                } else {
                    // an earlier step already drew this cell
                    assert(pre.depth_at(r, c) == Depth::Val(line_depth()));
                    assert(!pre.depth_at(r, c).passes(zero));
                    assert(!pre.writes(x, y, zero, r, c));
                }
                assert(cur.color_at(r, c) == l.color && cur.depth_at(r, c) == Depth::Val(
                    line_depth(),
                ));
            } else {
                assert(pre.depth_at(r, c) == orig.depth_at(r, c));
                assert(!pre.writes(x, y, zero, r, c));
            }
        } else {
            // this step does not land here: the cell keeps its account
            assert(!pre.writes(x, y, zero, r, c));
            assert(cur.color_at(r, c) == pre.color_at(r, c) && cur.depth_at(r, c) == pre.depth_at(
                r,
                c,
            ));
        }
    }
}

} // verus!
