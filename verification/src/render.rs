//! The framebuffer: a grid of colors with a parallel depth grid, the
//! depth-tested pixel write that resolves visibility, and intensity-scaled
//! color computation.

use vstd::prelude::*;

use crate::num::{
    isqrt, isqrt_spec, is_isqrt, lemma_isqrt_spec_is_isqrt, lemma_isqrt_unique, Rat, SCALE,
};

verus! {

/// Largest framebuffer width or height, in pixels.  Bounded so that pixel
/// coordinates in units stay within the coordinate budget.
pub const MAX_DIM: u32 = 16384;

/// Bound on the numerator of an `Intensity` (2^47).
pub const INTENSITY_NUM_LIMIT: i128 = 0x800000000000;

/// Bound on the squared norm of an `Intensity` (2^96).
pub const INTENSITY_NORM2_LIMIT: i128 = 0x1000000000000000000000000;

/// An RGB color with 8-bit channels.
#[derive(Clone, Copy, Debug, PartialEq, Eq, Structural)]
pub struct Color {
    pub r: u8,
    pub g: u8,
    pub b: u8,
}

impl Color {
    pub fn new(r: u8, g: u8, b: u8) -> (c: Color)
        ensures
            c.r == r,
            c.g == g,
            c.b == b,
    {
        Color { r, g, b }
    }

    pub fn black() -> (c: Color)
        ensures
            c == (Color { r: 0, g: 0, b: 0 }),
    {
        Color { r: 0, g: 0, b: 0 }
    }

    pub fn white() -> (c: Color)
        ensures
            c == (Color { r: 255, g: 255, b: 255 }),
    {
        Color { r: 255, g: 255, b: 255 }
    }
}

/// A Lambertian light intensity, held exactly as `num / sqrt(norm2)`:
/// `num` is the negated z-component of a face normal and `norm2` the squared
/// length of that normal, so the value lies in [0, 1].
#[derive(Clone, Copy, Debug, PartialEq, Eq, Structural)]
pub struct Intensity {
    pub num: i128,
    pub norm2: i128,
}

impl Intensity {
    pub open spec fn wf(self) -> bool {
        &&& 0 <= self.num <= INTENSITY_NUM_LIMIT
        &&& 0 < self.norm2 <= INTENSITY_NORM2_LIMIT
        &&& self.num * self.num <= self.norm2
    }

    /// Full brightness: the value 1.
    pub fn one() -> (r: Intensity)
        ensures
            r.wf(),
            r.num == 1,
            r.norm2 == 1,
    {
        Intensity { num: 1, norm2: 1 }
    }
}

/// One channel scaled by an intensity: the integer part of
/// `ch * num / sqrt(norm2)`.
pub open spec fn scaled_channel(ch: int, it: Intensity) -> int {
    let a = ch * (it.num as int);
    isqrt_spec(((a * a) / (it.norm2 as int)) as nat) as int
}

/// `m * m * norm2 <= a * a` with `a <= ch * num` and `num^2 <= norm2`
/// forces `m <= ch`: the scaled channel never exceeds the input channel.
proof fn lemma_scaled_le_channel(ch: int, num: int, norm2: int, t: int, m: int)
    requires
        ch >= 0,
        num >= 0,
        norm2 > 0,
        num * num <= norm2,
        t == ((ch * num) * (ch * num)) / norm2,
        is_isqrt(t, m),
    ensures
        m <= ch,
{
    let a = ch * num;
    assert(a >= 0 && a * a >= 0) by (nonlinear_arith)
        requires
            ch >= 0,
            num >= 0,
            a == ch * num,
    ;
    vstd::arithmetic::div_mod::lemma_fundamental_div_mod(a * a, norm2);
    vstd::arithmetic::div_mod::lemma_mod_division_less_than_divisor(a * a, norm2);
    assert(norm2 * t <= a * a);
    assert(m <= ch) by (nonlinear_arith)
        requires
            m >= 0,
            ch >= 0,
            num >= 0,
            norm2 > 0,
            m * m <= t,
            norm2 * t <= a * a,
            a == ch * num,
            num * num <= norm2,
    ;
}

/// A color scaled per-channel by a light intensity; each channel takes the
/// integer part of its scaled value.
pub fn color(base: Color, intensity: &Intensity) -> (r: Color)
    requires
        intensity.wf(),
    ensures
        r.r == scaled_channel(base.r as int, *intensity),
        r.g == scaled_channel(base.g as int, *intensity),
        r.b == scaled_channel(base.b as int, *intensity),
        r.r <= base.r,
        r.g <= base.g,
        r.b <= base.b,
{
    let r = scale_channel(base.r, intensity);
    let g = scale_channel(base.g, intensity);
    let b = scale_channel(base.b, intensity);
    Color { r, g, b }
}

/// One 8-bit channel scaled by an intensity.
fn scale_channel(ch: u8, intensity: &Intensity) -> (r: u8)
    requires
        intensity.wf(),
    ensures
        r == scaled_channel(ch as int, *intensity),
        r <= ch,
{
    proof {
        crate::num::lemma_mul_bound(ch as int, intensity.num as int, 255, INTENSITY_NUM_LIMIT as int);
    }
    let a: i128 = (ch as i128) * intensity.num;
    proof {
        assert(0 <= a && a * a <= 0x7f800000000000 * 0x7f800000000000) by (nonlinear_arith)
            requires
                0 <= a <= 0x7f800000000000,
        ;
    }
    let t: u128 = ((a * a) as u128) / (intensity.norm2 as u128);
    proof {
        vstd::arithmetic::div_mod::lemma_div_is_ordered_by_denominator(a * a, 1, intensity.norm2 as int);
        vstd::arithmetic::div_mod::lemma_div_basics(a * a);
    }
    let m = isqrt(t);
    proof {
        lemma_isqrt_spec_is_isqrt(t as nat);
        lemma_isqrt_unique(t as int, m as int, isqrt_spec(t as nat) as int);
        lemma_scaled_le_channel(ch as int, intensity.num as int, intensity.norm2 as int, t as int, m as int);
    }
    m as u8
}

/// A decoded RGB texture image: a width x height grid of colors, row-major,
/// already flipped vertically to the sampling convention.
#[derive(Debug)]
pub struct Texture {
    pub width: u32,
    pub height: u32,
    pub pixels: Vec<Color>,
}

impl Texture {
    pub open spec fn wf(self) -> bool {
        &&& 1 <= self.width <= MAX_DIM
        &&& 1 <= self.height <= MAX_DIM
        &&& self.pixels@.len() == (self.height as int) * (self.width as int)
    }

    /// The color of the texture pixel in row `y`, column `x`.
    pub open spec fn color_at(self, x: int, y: int) -> Color {
        self.pixels@[y * (self.width as int) + x]
    }

    pub fn new(width: u32, height: u32, pixels: Vec<Color>) -> (t: Texture)
        requires
            1 <= width <= MAX_DIM,
            1 <= height <= MAX_DIM,
            pixels@.len() == (height as int) * (width as int),
        ensures
            t.wf(),
            t.width == width,
            t.height == height,
            t.pixels == pixels,
    {
        Texture { width, height, pixels }
    }

    /// The sample at texture pixel `(x, y)`.
    pub fn get_pixel(&self, x: u32, y: u32) -> (c: Color)
        requires
            self.wf(),
            x < self.width,
            y < self.height,
        ensures
            c == self.color_at(x as int, y as int),
    {
        proof {
            lemma_grid_bounds(y as int, x as int, self.width as int, self.height as int);
        }
        let idx: usize = (y as usize) * (self.width as usize) + (x as usize);
        self.pixels[idx]
    }
}

/// A depth-buffer cell: `Empty` until the first write lands, as if holding
/// negative infinity, then the exact depth of the nearest write so far.
#[derive(Clone, Copy, Debug, PartialEq, Eq, Structural)]
pub enum Depth {
    Empty,
    Val(Rat),
}

impl Depth {
    pub open spec fn wf(self) -> bool {
        match self {
            Depth::Empty => true,
            Depth::Val(w) => w.wf() && w.depth_bounded(),
        }
    }

    /// A write at depth `z` beats this cell: anything beats `Empty`, and a
    /// stored depth is beaten exactly when it is strictly smaller.
    pub open spec fn passes(self, z: Rat) -> bool {
        match self {
            Depth::Empty => true,
            Depth::Val(w) => w.lt(z),
        }
    }

    /// The executable depth test.
    pub fn passes_exec(&self, z: &Rat) -> (r: bool)
        requires
            self.wf(),
            z.depth_bounded(),
        ensures
            r == self.passes(*z),
    {
        match self {
            Depth::Empty => true,
            Depth::Val(w) => w.lt_exec(z),
        }
    }
}

/// The render target: a width x height grid of colors and a parallel depth
/// grid, plus the single depth-tested write used for every pixel.
#[derive(Debug)]
pub struct PNG {
    pub width: u32,
    pub height: u32,
    pub zindex: Vec<Depth>,
    pub image: Vec<Vec<Color>>,
}

/// `0 <= r < h` and `0 <= c < w` place the linear index `r * w + c` inside
/// the grid.
pub proof fn lemma_grid_index(r: int, c: int, w: int, h: int)
    by (nonlinear_arith)
    requires
        0 <= r < h,
        0 <= c < w,
    ensures
        0 <= r * w + c < h * w,
{
}

/// In-grid indices stay within the allocation and within usize.
pub proof fn lemma_grid_bounds(r: int, c: int, w: int, h: int)
    by (nonlinear_arith)
    requires
        0 <= r < h,
        0 <= c < w,
        h <= 16384,
        w <= 16384,
    ensures
        0 <= r * w,
        r * w + c < h * w,
        h * w <= 0x10000000,
{
}

/// Distinct in-grid cells have distinct linear indices.
pub proof fn lemma_grid_index_injective(r1: int, c1: int, r2: int, c2: int, w: int)
    by (nonlinear_arith)
    requires
        0 <= c1 < w,
        0 <= c2 < w,
        0 <= r1,
        0 <= r2,
        r1 * w + c1 == r2 * w + c2,
    ensures
        r1 == r2,
        c1 == c2,
{
}

impl PNG {
    pub open spec fn wf(self) -> bool {
        &&& 1 <= self.width <= MAX_DIM
        &&& 1 <= self.height <= MAX_DIM
        &&& self.zindex@.len() == (self.height as int) * (self.width as int)
        &&& self.image@.len() == self.height
        &&& forall|r: int|
            0 <= r < self.height ==> (#[trigger] self.image@[r])@.len() == self.width
        &&& forall|i: int| 0 <= i < self.zindex@.len() ==> (#[trigger] self.zindex@[i]).wf()
    }

    /// The color currently stored for the pixel in row `r`, column `c`.
    pub open spec fn color_at(self, r: int, c: int) -> Color {
        self.image@[r]@[c]
    }

    /// The depth currently stored for the pixel in row `r`, column `c`.
    pub open spec fn depth_at(self, r: int, c: int) -> Depth {
        self.zindex@[r * (self.width as int) + c]
    }

    /// The point `(x, y)` in units lands inside the image.  Any fraction
    /// beyond the last pixel center is rejected.
    pub open spec fn pix_in_bounds(self, x: int, y: int) -> bool {
        &&& 0 <= x <= (self.width - 1) * (SCALE as int)
        &&& 0 <= y <= (self.height - 1) * (SCALE as int)
    }

    /// A `set_pixel(x, y, z, _)` call on state `self` writes the cell at
    /// row `r`, column `c`: the point is in bounds, truncates to that cell,
    /// and beats the stored depth.
    pub open spec fn writes(self, x: int, y: int, z: Rat, r: int, c: int) -> bool {
        &&& self.pix_in_bounds(x, y)
        &&& r == y / (SCALE as int)
        &&& c == x / (SCALE as int)
        &&& self.depth_at(r, c).passes(z)
    }

    pub fn new(width: u32, height: u32) -> (png: PNG)
        requires
            1 <= width <= MAX_DIM,
            1 <= height <= MAX_DIM,
        ensures
            png.wf(),
            png.width == width,
            png.height == height,
            forall|r: int, c: int|
                0 <= r < height && 0 <= c < width ==> #[trigger] png.color_at(r, c) == (Color {
                    r: 0,
                    g: 0,
                    b: 0,
                }),
            forall|r: int, c: int|
                0 <= r < height && 0 <= c < width ==> #[trigger] png.depth_at(r, c)
                    == Depth::Empty,
    {
        proof {
            crate::num::lemma_mul_bound(width as int, height as int, 16384, 16384);
            assert((width as int) * (height as int) == (height as int) * (width as int))
                by (nonlinear_arith);
        }
        let size: usize = (width as usize) * (height as usize);
        let mut zindex: Vec<Depth> = Vec::new();
        while zindex.len() < size
            invariant
                zindex@.len() <= size,
                forall|i: int| 0 <= i < zindex@.len() ==> #[trigger] zindex@[i] == Depth::Empty,
            decreases size - zindex@.len(),
        {
            zindex.push(Depth::Empty);
        }
        let mut image: Vec<Vec<Color>> = Vec::new();
        while image.len() < (height as usize)
            invariant
                image@.len() <= height,
                forall|r: int|
                    0 <= r < image@.len() ==> (#[trigger] image@[r])@.len() == width,
                forall|r: int, c: int|
                    0 <= r < image@.len() && 0 <= c < width ==> #[trigger] image@[r]@[c] == (Color {
                        r: 0,
                        g: 0,
                        b: 0,
                    }),
            decreases height - image@.len(),
        {
            let mut row: Vec<Color> = Vec::new();
            while row.len() < (width as usize)
                invariant
                    row@.len() <= width,
                    forall|c: int| 0 <= c < row@.len() ==> #[trigger] row@[c] == (Color {
                        r: 0,
                        g: 0,
                        b: 0,
                    }),
                decreases width - row@.len(),
            {
                row.push(Color { r: 0, g: 0, b: 0 });
            }
            image.push(row);
        }
        let png = PNG { width, height, zindex, image };
        proof {
            assert forall|r: int, c: int|
                0 <= r < height && 0 <= c < width implies #[trigger] png.depth_at(r, c)
                == Depth::Empty by {
                lemma_grid_index(r, c, width as int, height as int);
            }
        }
        png
    }

    pub fn get_size(&self) -> (size: (u32, u32))
        ensures
            size.0 == self.width,
            size.1 == self.height,
    {
        (self.width, self.height)
    }

    /// The single visibility rule: bounds-check the point, truncate it to a
    /// pixel, and overwrite color and depth only where the new depth beats
    /// the stored one.  Out-of-bounds points are ignored.
    pub fn set_pixel(&mut self, x: i64, y: i64, z: Rat, color: Color)
        requires
            old(self).wf(),
            z.wf(),
            z.depth_bounded(),
        ensures
            final(self).wf(),
            final(self).width == old(self).width,
            final(self).height == old(self).height,
            forall|r: int, c: int|
                0 <= r < old(self).height && 0 <= c < old(self).width ==> #[trigger] final(self).color_at(r, c) == if old(self).writes(x as int, y as int, z, r, c) {
                    color
                } else {
                    old(self).color_at(r, c)
                },
            forall|r: int, c: int|
                0 <= r < old(self).height && 0 <= c < old(self).width ==> #[trigger] final(self).depth_at(r, c) == if old(self).writes(x as int, y as int, z, r, c) {
                    Depth::Val(z)
                } else {
                    old(self).depth_at(r, c)
                },
    {
        if x < 0 || x > ((self.width - 1) as i64) * SCALE || y < 0 || y > ((self.height - 1)
            as i64) * SCALE {
            return ;
        }
        let col: usize = (x / SCALE) as usize;
        let row: usize = (y / SCALE) as usize;
        proof {
            crate::num::lemma_div_bound(x as int, SCALE as int, (self.width - 1) as int);
            crate::num::lemma_div_bound(y as int, SCALE as int, (self.height - 1) as int);
            lemma_grid_bounds(row as int, col as int, self.width as int, self.height as int);
        }
        let idx: usize = row * (self.width as usize) + col;
        let stored = self.zindex[idx];
        if stored.passes_exec(&z) {
            self.zindex[idx] = Depth::Val(z);
            self.image[row][col] = color;
        }
        proof {
            assert forall|r: int, c: int|
                0 <= r < self.height && 0 <= c < self.width implies #[trigger] self.depth_at(r, c)
                == if old(self).writes(x as int, y as int, z, r, c) {
                Depth::Val(z)
            } else {
                old(self).depth_at(r, c)
            } by {
                lemma_grid_index(r, c, self.width as int, self.height as int);
                if r * (self.width as int) + c == idx {
                    lemma_grid_index_injective(
                        r,
                        c,
                        row as int,
                        col as int,
                        self.width as int,
                    );
                }
            }
        }
    }

    /// Finalizes the framebuffer: flips the row order so model-space "up"
    /// maps to image "top", then encodes the flattened bytes as a PNG and
    /// returns them.
    pub fn render(&mut self) -> (r: Option<Vec<u8>>)
        requires
            old(self).wf(),
        ensures
            final(self).wf(),
            final(self).width == old(self).width,
            final(self).height == old(self).height,
            final(self).zindex == old(self).zindex,
            final(self).image@.len() == old(self).image@.len(),
            forall|i: int|
                0 <= i < old(self).image@.len() ==> final(self).image@[i] == old(self).image@[old(
                    self,
                ).image@.len() - 1 - i],
            r is Some,
            r matches Some(bytes) ==> bytes@ == png_encoding(
                grid_bytes(final(self).image@),
                old(self).width as int,
                old(self).height as int,
            ),
    {
        let flat = flatten(&mut self.image);
        proof {
            lemma_grid_bytes_len(self.image@, self.width as int);
            assert((self.height as int) * (3 * (self.width as int)) == (self.width as int) * (3
                * (self.height as int))) by (nonlinear_arith);
        }
        encode_png(&flat, self.width, self.height)
    }

    /// The color stored for the pixel at column `x`, row `y`.
    pub fn pixel_color(&self, x: u32, y: u32) -> (c: Color)
        requires
            self.wf(),
            x < self.width,
            y < self.height,
        ensures
            c == self.color_at(y as int, x as int),
    {
        self.image[y as usize][x as usize]
    }

    /// The depth stored for the pixel at column `x`, row `y`.
    pub fn pixel_depth(&self, x: u32, y: u32) -> (d: Depth)
        requires
            self.wf(),
            x < self.width,
            y < self.height,
        ensures
            d == self.depth_at(y as int, x as int),
    {
        proof {
            lemma_grid_bounds(y as int, x as int, self.width as int, self.height as int);
        }
        let idx: usize = (y as usize) * (self.width as usize) + (x as usize);
        self.zindex[idx]
    }
}


/// The byte sequence of one row of colors: R, G, B per pixel, left to right.
pub open spec fn row_bytes(row: Seq<Color>) -> Seq<u8>
    decreases row.len(),
{
    if row.len() == 0 {
        Seq::empty()
    } else {
        row_bytes(row.drop_last()) + seq![row.last().r, row.last().g, row.last().b]
    }
}

/// The byte sequence of a whole grid of colors, rows in order.
pub open spec fn grid_bytes(rows: Seq<Vec<Color>>) -> Seq<u8>
    decreases rows.len(),
{
    if rows.len() == 0 {
        Seq::empty()
    } else {
        grid_bytes(rows.drop_last()) + row_bytes(rows.last()@)
    }
}

/// Extending a row prefix by one color appends its three bytes.
proof fn lemma_row_bytes_snoc(row: Seq<Color>, n: int)
    requires
        0 <= n < row.len(),
    ensures
        row_bytes(row.subrange(0, n + 1)) == row_bytes(row.subrange(0, n)) + seq![
            row[n].r,
            row[n].g,
            row[n].b,
        ],
{
    let pre = row.subrange(0, n + 1);
    assert(pre.drop_last() =~= row.subrange(0, n));
    assert(pre.last() == row[n]);
}

/// Extending a grid prefix by one row appends that row's bytes.
proof fn lemma_grid_bytes_snoc(rows: Seq<Vec<Color>>, n: int)
    requires
        0 <= n < rows.len(),
    ensures
        grid_bytes(rows.subrange(0, n + 1)) == grid_bytes(rows.subrange(0, n)) + row_bytes(
            rows[n]@,
        ),
{
    let pre = rows.subrange(0, n + 1);
    assert(pre.drop_last() =~= rows.subrange(0, n));
    assert(pre.last() == rows[n]);
}

/// A row of `w` colors flattens to `3 * w` bytes.
proof fn lemma_row_bytes_len(row: Seq<Color>)
    ensures
        row_bytes(row).len() == 3 * row.len(),
    decreases row.len(),
{
    if row.len() > 0 {
        lemma_row_bytes_len(row.drop_last());
    }
}

/// A rectangular grid of rows of width `w` flattens to `3 * w` bytes per row.
pub proof fn lemma_grid_bytes_len(rows: Seq<Vec<Color>>, w: int)
    requires
        forall|i: int| 0 <= i < rows.len() ==> (#[trigger] rows[i])@.len() == w,
    ensures
        grid_bytes(rows).len() == rows.len() * (3 * w),
    decreases rows.len(),
{
    if rows.len() > 0 {
        lemma_grid_bytes_len(rows.drop_last(), w);
        lemma_row_bytes_len(rows.last()@);
        assert((rows.len() - 1) * (3 * w) + 3 * w == rows.len() * (3 * w)) by (nonlinear_arith);
    }
}

/// The bottom-to-top, row-major byte buffer of the image grid: the rows in
/// reverse order, each flattened to R, G, B bytes.  The single axis flip of
/// the pipeline happens here.
pub fn flatten(data: &mut Vec<Vec<Color>>) -> (flat: Vec<u8>)
    ensures
        final(data)@.len() == old(data)@.len(),
        forall|i: int|
            0 <= i < old(data)@.len() ==> final(data)@[i] == old(data)@[old(data)@.len() - 1 - i],
        flat@ == grid_bytes(final(data)@),
{
    let ghost orig = data@;
    let mut reversed: Vec<Vec<Color>> = Vec::new();
    while data.len() > 0
        invariant
            data@.len() + reversed@.len() == orig.len(),
            data@ =~= orig.subrange(0, data@.len() as int),
            forall|i: int|
                0 <= i < reversed@.len() ==> reversed@[i] == orig[orig.len() - 1 - i],
        decreases data@.len(),
    {
        let row = data.pop().unwrap();
        reversed.push(row);
    }
    *data = reversed;
    let ghost flipped = data@;
    let mut flat: Vec<u8> = Vec::new();
    let mut r: usize = 0;
    while r < data.len()
        invariant
            data@ == flipped,
            r <= flipped.len(),
            flat@ == grid_bytes(flipped.subrange(0, r as int)),
        decreases flipped.len() - r,
    {
        let ghost row_snap = data@[r as int]@;
        let mut c: usize = 0;
        while c < data[r].len()
            invariant
                data@ == flipped,
                r < flipped.len(),
                row_snap == flipped[r as int]@,
                c <= row_snap.len(),
                flat@ == grid_bytes(flipped.subrange(0, r as int)) + row_bytes(
                    row_snap.subrange(0, c as int),
                ),
            decreases row_snap.len() - c,
        {
            let pixel = data[r][c];
            flat.push(pixel.r);
            flat.push(pixel.g);
            flat.push(pixel.b);
            proof {
                lemma_row_bytes_snoc(row_snap, c as int);
            }
            c = c + 1;
        }
        proof {
            assert(row_snap.subrange(0, row_snap.len() as int) =~= row_snap);
            lemma_grid_bytes_snoc(flipped, r as int);
        }
        r = r + 1;
    }
    proof {
        assert(flipped.subrange(0, flipped.len() as int) =~= flipped);
    }
    flat
}

/// The PNG encoding of a row-major RGB8 byte buffer with the given
/// dimensions.  The encoder is deterministic, so the result is a function of
/// its arguments alone; nothing more is assumed about it.
pub uninterp spec fn png_encoding(data: Seq<u8>, width: int, height: int) -> Seq<u8>;

/// Relies on image's `PngEncoder::write_image`: encodes an RGB8 buffer of
/// exactly `3 * width * height` bytes (its length assertion rules out any
/// other length) into PNG bytes, writing only into the returned vector.
/// The call cannot fail here: with nonzero dimensions, a valid color
/// depth, no animation fields and an in-memory `Vec` writer, every error
/// path of the encoder is a write error of the writer, and writes into a
/// `Vec` are infallible.
#[verifier::external_body]
fn encode_png(data: &Vec<u8>, width: u32, height: u32) -> (r: Option<Vec<u8>>)
    requires
        data@.len() == (width as int) * (3 * (height as int)),
        width >= 1,
        height >= 1,
    ensures
        r is Some,
        r matches Some(bytes) ==> bytes@ == png_encoding(data@, width as int, height as int),
{
    let mut out: Vec<u8> = Vec::new();
    let encoder = image::codecs::png::PngEncoder::new(&mut out);
    match image::ImageEncoder::write_image(encoder, data, width, height, image::ExtendedColorType::Rgb8) {
        Ok(()) => Some(out),
        Err(_) => None,
    }
}

} // verus!
