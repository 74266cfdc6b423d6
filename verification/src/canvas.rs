//! An RGB raster and the two primitives the simulated camera draws the arm with:
//! filled discs and thick line segments.

use vstd::prelude::*;

verus! {

/// One RGB pixel.
#[derive(Debug, Clone, Copy, PartialEq, Eq, Structural)]
pub struct Color {
    pub r: u8,
    pub g: u8,
    pub b: u8,
}

/// A `width` x `height` raster stored row by row.
pub struct Canvas {
    width: u32,
    height: u32,
    pixels: Vec<Color>,
}

/// Index of pixel `(x, y)` in a row-major raster `w` pixels wide.
pub open spec fn pixel_index(w: int, x: int, y: int) -> int {
    y * w + x
}

/// `(x, y)` lies on the raster.
pub open spec fn on_raster(w: int, h: int, x: int, y: int) -> bool {
    0 <= x < w && 0 <= y < h
}

/// `(x, y)` lies in the closed disc of radius `r` around `(cx, cy)`; a negative
/// radius covers nothing.
pub open spec fn in_disc(x: int, y: int, cx: int, cy: int, r: int) -> bool {
    r >= 0 && (x - cx) * (x - cx) + (y - cy) * (y - cy) <= r * r
}

/// Pixel `i` of interleaved bytes with `channels` bytes per pixel: the first three
/// are red, green and blue.
pub open spec fn byte_pixel(bytes: Seq<u8>, channels: int, i: int) -> Color {
    Color { r: bytes[channels * i], g: bytes[channels * i + 1], b: bytes[channels * i + 2] }
}

/// A raster as interleaved RGB bytes, pixel by pixel.
pub open spec fn rgb_bytes(raster: Seq<Color>) -> Seq<u8> {
    Seq::new(
        raster.len() * 3,
        |k: int|
            if k % 3 == 0 {
                raster[k / 3].r
            } else if k % 3 == 1 {
                raster[k / 3].g
            } else {
                raster[k / 3].b
            },
    )
}

/// Reading interleaved RGB bytes back gives the raster they were written from.
pub proof fn lemma_rgb_bytes_round_trip(raster: Seq<Color>)
    ensures
        forall|i: int| 0 <= i < raster.len() ==> #[trigger] byte_pixel(rgb_bytes(raster), 3, i) == raster[i],
{
    assert forall|i: int| 0 <= i < raster.len() implies #[trigger] byte_pixel(rgb_bytes(raster), 3, i) == raster[i] by {
        let b = rgb_bytes(raster);
        assert(b[3 * i] == raster[i].r);
        assert(b[3 * i + 1] == raster[i].g);
        assert(b[3 * i + 2] == raster[i].b);
    }
}

/// Two distinct on-raster pixels have distinct indices, and each index is in range.
pub proof fn lemma_pixel_index(w: int, h: int, x: int, y: int, x2: int, y2: int)
    requires
        on_raster(w, h, x, y),
        on_raster(w, h, x2, y2),
    ensures
        0 <= pixel_index(w, x, y) < w * h,
        (x != x2 || y != y2) ==> pixel_index(w, x, y) != pixel_index(w, x2, y2),
{
    assert(0 <= y * w + x < w * h) by (nonlinear_arith)
        requires
            0 <= x < w,
            0 <= y < h,
    ;
    if y < y2 {
        assert(y * w + x < y2 * w + x2) by (nonlinear_arith)
            requires
                y < y2,
                0 <= x < w,
                0 <= x2,
        ;
    } else if y2 < y {
        assert(y2 * w + x2 < y * w + x) by (nonlinear_arith)
            requires
                y2 < y,
                0 <= x2 < w,
                0 <= x,
        ;
    }
}

/// A point of the disc lies in its bounding box.
proof fn lemma_disc_box(x: int, y: int, cx: int, cy: int, r: int)
    requires
        in_disc(x, y, cx, cy, r),
    ensures
        cx - r <= x <= cx + r,
        cy - r <= y <= cy + r,
{
    assert((x - cx) * (x - cx) <= r * r ==> -r <= x - cx <= r) by (nonlinear_arith)
        requires
            r >= 0,
    ;
    assert((y - cy) * (y - cy) <= r * r ==> -r <= y - cy <= r) by (nonlinear_arith)
        requires
            r >= 0,
    ;
    assert((x - cx) * (x - cx) >= 0 && (y - cy) * (y - cy) >= 0) by (nonlinear_arith);
}

impl Canvas {
    /// One colour per pixel.
    pub closed spec fn well_formed(&self) -> bool {
        self.pixels@.len() == self.width * self.height
    }

    pub closed spec fn width(&self) -> int {
        self.width as int
    }

    pub closed spec fn height(&self) -> int {
        self.height as int
    }

    /// The raster row by row.
    pub closed spec fn raster(&self) -> Seq<Color> {
        self.pixels@
    }

    /// The colour of pixel `(x, y)`.
    pub open spec fn pixel_at(&self, x: int, y: int) -> Color {
        self.raster()[pixel_index(self.width(), x, y)]
    }

    /// A raster of `width` x `height` pixels given row by row; none when the number of
    /// pixels does not match.
    pub fn from_pixels(width: u32, height: u32, pixels: Vec<Color>) -> (c: Option<Canvas>)
        ensures
            c is Some <==> pixels@.len() == width * height,
            c matches Some(c) ==> c.well_formed() && c.width() == width && c.height() == height
                && c.raster() == pixels@,
    {
        let w: u64 = width as u64;
        let h: u64 = height as u64;
        assert(w * h <= 0xFFFF_FFFF * 0xFFFF_FFFF) by (nonlinear_arith)
            requires
                w <= 0xFFFF_FFFF,
                h <= 0xFFFF_FFFF,
        ;
        let area: u64 = w * h;
        if pixels.len() as u64 != area {
            return None;
        }
        Some(Canvas { width, height, pixels })
    }

    /// The pixels row by row.
    pub fn into_pixels(self) -> (p: Vec<Color>)
        ensures
            p@ == self.raster(),
    {
        self.pixels
    }

    pub fn width_px(&self) -> (w: u32)
        ensures
            w == self.width(),
    {
        self.width
    }

    pub fn height_px(&self) -> (h: u32)
        ensures
            h == self.height(),
    {
        self.height
    }

    /// A well-formed raster holds one colour per pixel.
    pub proof fn lemma_raster_len(&self)
        requires
            self.well_formed(),
        ensures
            self.raster().len() == self.width() * self.height(),
            0 <= self.width() <= u32::MAX,
            0 <= self.height() <= u32::MAX,
    {
    }

    /// The colour of pixel `(x, y)`.
    pub fn pixel(&self, x: u32, y: u32) -> (c: Color)
        requires
            self.well_formed(),
            x < self.width(),
            y < self.height(),
        ensures
            c == self.pixel_at(x as int, y as int),
    {
        proof {
            lemma_pixel_index(self.width(), self.height(), x as int, y as int, x as int, y as int);
            assert(self.pixels@.len() == self.pixels.len());
            assert((y as int) * (self.width as int) >= 0) by (nonlinear_arith);
        }
        let i: usize = (y as usize) * (self.width as usize) + (x as usize);
        self.pixels[i]
    }

    /// A raster of `width` x `height` pixels read from interleaved bytes, `channels`
    /// bytes per pixel (3 for RGB, 4 for RGBA, whose alpha is dropped); bytes past the
    /// last pixel are ignored.
    pub fn from_bytes(width: u32, height: u32, bytes: &Vec<u8>, channels: usize) -> (c: Canvas)
        requires
            3 <= channels <= 4,
            bytes@.len() >= width * height * channels,
        ensures
            c.well_formed(),
            c.width() == width,
            c.height() == height,
            forall|i: int| 0 <= i < width * height ==> #[trigger] c.raster()[i] == byte_pixel(bytes@, channels as int, i),
    {
        let len: usize = bytes.len();
        proof {
            assert((width as int) * (height as int) <= (width as int) * (height as int) * channels) by (nonlinear_arith)
                requires
                    channels >= 3,
            ;
        }
        let n: usize = (width as usize) * (height as usize);
        let mut px: Vec<Color> = Vec::new();
        let mut i: usize = 0;
        while i < n
            invariant
                n == width * height,
                len == bytes@.len(),
                len >= n * channels,
                3 <= channels <= 4,
                i <= n,
                px@.len() == i,
                forall|j: int| 0 <= j < i ==> #[trigger] px@[j] == byte_pixel(bytes@, channels as int, j),
            decreases n - i,
        {
            proof {
                assert(channels * i + channels <= len) by (nonlinear_arith)
                    requires
                        i < n,
                        channels >= 0,
                        len >= n * channels,
                ;
            }
            let k: usize = channels * i;
            px.push(Color { r: bytes[k], g: bytes[k + 1], b: bytes[k + 2] });
            i = i + 1;
        }
        Canvas { width, height, pixels: px }
    }

    /// The raster as interleaved RGB bytes, row by row.
    pub fn to_rgb_bytes(&self) -> (bytes: Vec<u8>)
        requires
            self.well_formed(),
        ensures
            bytes@ == rgb_bytes(self.raster()),
            forall|i: int| 0 <= i < self.raster().len() ==> #[trigger] byte_pixel(bytes@, 3, i) == self.raster()[i],
    {
        let mut out: Vec<u8> = Vec::new();
        let mut i: usize = 0;
        while i < self.pixels.len()
            invariant
                i <= self.pixels@.len(),
                out@.len() == i * 3,
                forall|j: int| 0 <= j < i ==> #[trigger] byte_pixel(out@, 3, j) == self.pixels@[j],
            decreases self.pixels@.len() - i,
        {
            let c: Color = self.pixels[i];
            let ghost before = out@;
            out.push(c.r);
            out.push(c.g);
            out.push(c.b);
            proof {
                assert forall|j: int| 0 <= j < i + 1 implies #[trigger] byte_pixel(out@, 3, j) == self.pixels@[j] by {
                    if j < i {
                        assert(byte_pixel(before, 3, j) == self.pixels@[j]);
                        assert(out@[3 * j] == before[3 * j]);
                        assert(out@[3 * j + 1] == before[3 * j + 1]);
                        assert(out@[3 * j + 2] == before[3 * j + 2]);
                    }
                }
            }
            i = i + 1;
        }
        proof {
            assert forall|k: int| 0 <= k < out@.len() implies #[trigger] out@[k] == rgb_bytes(self.pixels@)[k] by {
                let p = k / 3;
                assert(byte_pixel(out@, 3, p) == self.pixels@[p]);
                assert(k == 3 * p + k % 3);
            }
            assert(out@ =~= rgb_bytes(self.pixels@));
        }
        out
    }

    /// Paint every on-raster pixel of the disc of radius `r` around `(cx, cy)`.
    fn paint_disc(&mut self, cx: i64, cy: i64, r: i64, color: Color)
        requires
            old(self).well_formed(),
            -0x8000_0000_0000 <= cx < 0x8000_0000_0000,
            -0x8000_0000_0000 <= cy < 0x8000_0000_0000,
            -0x8000_0000_0000 <= r < 0x8000_0000_0000,
        ensures
            final(self).well_formed(),
            final(self).width() == old(self).width(),
            final(self).height() == old(self).height(),
            forall|x: int, y: int|
                on_raster(old(self).width(), old(self).height(), x, y) ==> #[trigger] final(self).pixel_at(x, y) == if in_disc(x, y, cx as int, cy as int, r as int) {
                    color
                } else {
                    old(self).pixel_at(x, y)
                },
    {
        let w: i64 = self.width as i64;
        let h: i64 = self.height as i64;
        let ghost before = *self;
        let y_lo: i64 = if cy - r > 0 { cy - r } else { 0 };
        let y_hi: i64 = if cy + r < h - 1 { cy + r } else { h - 1 };
        let x_lo: i64 = if cx - r > 0 { cx - r } else { 0 };
        let x_hi: i64 = if cx + r < w - 1 { cx + r } else { w - 1 };
        let mut y: i64 = y_lo;
        proof {
            assert forall|px: int, py: int|
                on_raster(w as int, h as int, px, py) implies #[trigger] self.pixel_at(px, py) == if py
                < y && in_disc(px, py, cx as int, cy as int, r as int) {
                color
            } else {
                before.pixel_at(px, py)
            } by {
                if in_disc(px, py, cx as int, cy as int, r as int) {
                    lemma_disc_box(px, py, cx as int, cy as int, r as int);
                }
            }
        }
        while y <= y_hi
            invariant
                self.width == before.width,
                self.height == before.height,
                self.pixels@.len() == self.width * self.height,
                w == self.width,
                h == self.height,
                0 <= y_lo <= y,
                y <= y_hi + 1 || y == y_lo,
                y_hi <= h - 1,
                y_hi <= cy + r,
                y_lo >= cy - r,
                y_hi == if cy + r < h - 1 { cy + r } else { h - 1 },
                y_lo == if cy - r > 0 { cy - r } else { 0 },
                0 <= x_lo,
                x_lo >= cx - r,
                x_hi <= w - 1,
                x_hi == if cx + r < w - 1 { cx + r } else { w - 1 },
                x_lo == if cx - r > 0 { cx - r } else { 0 },
                -0x8000_0000_0000 <= cx < 0x8000_0000_0000,
                -0x8000_0000_0000 <= cy < 0x8000_0000_0000,
                -0x8000_0000_0000 <= r < 0x8000_0000_0000,
                forall|px: int, py: int|
                    on_raster(w as int, h as int, px, py) ==> #[trigger] self.pixel_at(px, py) == if py
                        < y && in_disc(px, py, cx as int, cy as int, r as int) {
                        color
                    } else {
                        before.pixel_at(px, py)
                    },
            decreases y_hi + 1 - y,
        {
            let mut x: i64 = x_lo;
            proof {
                assert forall|px: int, py: int|
                    on_raster(w as int, h as int, px, py) implies #[trigger] self.pixel_at(px, py) == if (py
                    < y || (py == y && px < x)) && in_disc(px, py, cx as int, cy as int, r as int) {
                    color
                } else {
                    before.pixel_at(px, py)
                } by {
                    if in_disc(px, py, cx as int, cy as int, r as int) {
                        lemma_disc_box(px, py, cx as int, cy as int, r as int);
                    }
                }
            }
            while x <= x_hi
                invariant
                    self.width == before.width,
                    self.height == before.height,
                    self.pixels@.len() == self.width * self.height,
                    w == self.width,
                    h == self.height,
                    0 <= y_lo <= y <= y_hi,
                    y_hi <= h - 1,
                    0 <= x_lo <= x,
                    x <= x_hi + 1 || x == x_lo,
                    x_hi <= w - 1,
                    x_lo >= cx - r,
                    x_hi == if cx + r < w - 1 { cx + r } else { w - 1 },
                    -0x8000_0000_0000 <= cx < 0x8000_0000_0000,
                    -0x8000_0000_0000 <= cy < 0x8000_0000_0000,
                    -0x8000_0000_0000 <= r < 0x8000_0000_0000,
                    forall|px: int, py: int|
                        on_raster(w as int, h as int, px, py) ==> #[trigger] self.pixel_at(px, py)
                            == if (py < y || (py == y && px < x)) && in_disc(
                            px,
                            py,
                            cx as int,
                            cy as int,
                            r as int,
                        ) {
                            color
                        } else {
                            before.pixel_at(px, py)
                        },
                decreases x_hi + 1 - x,
            {
                let dx: i128 = (x - cx) as i128;
                let dy: i128 = (y - cy) as i128;
                let rr: i128 = r as i128;
                assert(0 <= dx * dx <= 0x4_0000_0000_0000_0000_0000_0000 && 0 <= dy * dy
                    <= 0x4_0000_0000_0000_0000_0000_0000 && 0 <= rr * rr
                    <= 0x4_0000_0000_0000_0000_0000_0000) by (nonlinear_arith)
                    requires
                        -0x2_0000_0000_0000 <= dx <= 0x2_0000_0000_0000,
                        -0x2_0000_0000_0000 <= dy <= 0x2_0000_0000_0000,
                        -0x2_0000_0000_0000 <= rr <= 0x2_0000_0000_0000,
                ;
                let inside: bool = r >= 0 && dx * dx + dy * dy <= rr * rr;
                if inside {
                    let ghost mid = *self;
                    let total: usize = self.pixels.len();
                    proof {
                        lemma_pixel_index(w as int, h as int, x as int, y as int, 0, 0);
                        assert(0 <= (y as int) * (w as int) <= (y as int) * (w as int) + (x as int))
                            by (nonlinear_arith)
                            requires
                                0 <= x,
                                0 <= y,
                                0 <= w,
                        ;
                    }
                    let idx: usize = (y as usize) * (self.width as usize) + (x as usize);
                    proof {
                        assert(pixel_index(w as int, x as int, y as int) == idx) by (nonlinear_arith)
                            requires
                                idx == (y as int) * (w as int) + (x as int),
                        ;
                    }
                    self.pixels.set(idx, color);
                    proof {
                        assert forall|px: int, py: int|
                            on_raster(w as int, h as int, px, py) implies #[trigger] self.pixel_at(px, py)
                            == if (py < y || (py == y && px < x + 1)) && in_disc(
                            px,
                            py,
                            cx as int,
                            cy as int,
                            r as int,
                        ) {
                            color
                        } else {
                            before.pixel_at(px, py)
                        } by {
                            lemma_pixel_index(w as int, h as int, px, py, x as int, y as int);
                            assert(mid.pixel_at(px, py) == mid.pixels@[pixel_index(w as int, px, py)]);
                        }
                    }
                } else {
                    proof {
                        assert forall|px: int, py: int|
                            on_raster(w as int, h as int, px, py) implies #[trigger] self.pixel_at(px, py)
                            == if (py < y || (py == y && px < x + 1)) && in_disc(
                            px,
                            py,
                            cx as int,
                            cy as int,
                            r as int,
                        ) {
                            color
                        } else {
                            before.pixel_at(px, py)
                        } by {
                            if px == x && py == y {
                                assert(!in_disc(px, py, cx as int, cy as int, r as int));
                            }
                        }
                    }
                }
                x = x + 1;
            }
            proof {
                assert forall|px: int, py: int|
                    on_raster(w as int, h as int, px, py) implies #[trigger] self.pixel_at(px, py) == if py
                    < y + 1 && in_disc(px, py, cx as int, cy as int, r as int) {
                    color
                } else {
                    before.pixel_at(px, py)
                } by {
                    if py == y && px >= x && in_disc(px, py, cx as int, cy as int, r as int) {
                        lemma_disc_box(px, py, cx as int, cy as int, r as int);
                    }
                }
            }
            y = y + 1;
        }
        proof {
            assert forall|px: int, py: int|
                on_raster(w as int, h as int, px, py) implies #[trigger] self.pixel_at(px, py) == if in_disc(
                px,
                py,
                cx as int,
                cy as int,
                r as int,
            ) {
                color
            } else {
                before.pixel_at(px, py)
            } by {
                if py >= y && in_disc(px, py, cx as int, cy as int, r as int) {
                    lemma_disc_box(px, py, cx as int, cy as int, r as int);
                }
            }
        }
    }
}

/// Fill the disc of radius `r` around `(cx, cy)` with `color`, clipped to the raster.
pub fn draw_disc(img: &mut Canvas, cx: i32, cy: i32, r: i32, color: Color)
    requires
        old(img).well_formed(),
    ensures
        final(img).well_formed(),
        final(img).width() == old(img).width(),
        final(img).height() == old(img).height(),
        forall|x: int, y: int|
            on_raster(old(img).width(), old(img).height(), x, y) ==> #[trigger] final(img).pixel_at(x, y)
                == if in_disc(x, y, cx as int, cy as int, r as int) {
                color
            } else {
                old(img).pixel_at(x, y)
            },
{
    img.paint_disc(cx as i64, cy as i64, r as i64, color);
}

/// `n / s` rounded to the nearest integer, halves away from zero.
pub open spec fn round_div(n: int, s: int) -> int {
    if n >= 0 {
        (2 * n + s) / (2 * s)
    } else {
        -((-2 * n + s) / (2 * s))
    }
}

pub open spec fn abs(v: int) -> int {
    if v < 0 {
        -v
    } else {
        v
    }
}

/// Number of steps a segment from `a` to `b` is drawn in: its longer side, at least one.
pub open spec fn line_steps(a: (i32, i32), b: (i32, i32)) -> int {
    let dx = abs(a.0 - b.0);
    let dy = abs(a.1 - b.1);
    let m = if dx > dy {
        dx
    } else {
        dy
    };
    if m > 1 {
        m
    } else {
        1
    }
}

/// Centre of the `i`-th disc of the segment: `a + (b - a) * i / steps`, rounded.
pub open spec fn line_point(a: (i32, i32), b: (i32, i32), i: int) -> (int, int) {
    let s = line_steps(a, b);
    (round_div(a.0 * s + (b.0 - a.0) * i, s), round_div(a.1 * s + (b.1 - a.1) * i, s))
}

/// Pixel `(x, y)` is covered by the segment drawn with discs of radius `thickness`.
pub open spec fn on_thick_line(a: (i32, i32), b: (i32, i32), thickness: int, x: int, y: int) -> bool {
    exists|i: int|
        0 <= i <= line_steps(a, b) && #[trigger] in_disc(
            x,
            y,
            line_point(a, b, i).0,
            line_point(a, b, i).1,
            thickness,
        )
}

fn round_div_exec(n: i128, s: i128) -> (q: i64)
    requires
        s > 0,
        -0x8000_0000 <= n / s <= 0x8000_0000,
        -0x1_0000_0000_0000_0000_0000 <= n <= 0x1_0000_0000_0000_0000_0000,
        s <= 0x1_0000_0000,
    ensures
        q == round_div(n as int, s as int),
        -0x8000_0001 <= q <= 0x8000_0001,
{
    if n >= 0 {
        let q: i128 = (2 * n + s) / (2 * s);
        assert(q <= n / s + 1) by (nonlinear_arith)
            requires
                q == (2 * n + s) / (2 * s),
                s > 0,
                n >= 0,
        ;
        assert(q >= 0) by (nonlinear_arith)
            requires
                q == (2 * n + s) / (2 * s),
                s > 0,
                n >= 0,
        ;
        q as i64
    } else {
        let q: i128 = (-2 * n + s) / (2 * s);
        assert(q <= (-(n as int)) / (s as int) + 1) by (nonlinear_arith)
            requires
                q == (-2 * n + s) / (2 * s),
                s > 0,
                n < 0,
        ;
        assert(q >= 0) by (nonlinear_arith)
            requires
                q == (-2 * n + s) / (2 * s),
                s > 0,
                n < 0,
        ;
        assert((-(n as int)) / (s as int) <= -(n / s)) by (nonlinear_arith)
            requires
                s > 0,
                n < 0,
        ;
        -(q as i64)
    }
}

/// Draw the segment from `a` to `b` as a run of discs of radius `thickness`, one per
/// step along its longer side.
pub fn draw_thick_line(img: &mut Canvas, a: (i32, i32), b: (i32, i32), thickness: i32, color: Color)
    requires
        old(img).well_formed(),
    ensures
        final(img).well_formed(),
        final(img).width() == old(img).width(),
        final(img).height() == old(img).height(),
        forall|x: int, y: int|
            on_raster(old(img).width(), old(img).height(), x, y) ==> #[trigger] final(img).pixel_at(x, y)
                == if on_thick_line(a, b, thickness as int, x, y) {
                color
            } else {
                old(img).pixel_at(x, y)
            },
{
    let ghost before = *img;
    let dx: i64 = if a.0 > b.0 { a.0 as i64 - b.0 as i64 } else { b.0 as i64 - a.0 as i64 };
    let dy: i64 = if a.1 > b.1 { a.1 as i64 - b.1 as i64 } else { b.1 as i64 - a.1 as i64 };
    let longer: i64 = if dx > dy { dx } else { dy };
    let steps: i64 = if longer > 1 { longer } else { 1 };
    assert(steps == line_steps(a, b));
    let mut i: i64 = 0;
    while i <= steps
        invariant
            steps == line_steps(a, b),
            1 <= steps <= 0x1_0000_0000,
            0 <= i <= steps + 1,
            img.well_formed(),
            img.width() == before.width(),
            img.height() == before.height(),
            forall|x: int, y: int|
                on_raster(before.width(), before.height(), x, y) ==> #[trigger] img.pixel_at(x, y)
                    == if exists|k: int|
                    0 <= k < i && #[trigger] in_disc(
                        x,
                        y,
                        line_point(a, b, k).0,
                        line_point(a, b, k).1,
                        thickness as int,
                    ) {
                    color
                } else {
                    before.pixel_at(x, y)
                },
        decreases steps + 1 - i,
    {
        let s: i128 = steps as i128;
        let ii: i128 = i as i128;
        proof {
            assert(-0x8000_0000 * 0x1_0000_0000 <= (a.0 as int) * s <= 0x8000_0000 * 0x1_0000_0000)
                by (nonlinear_arith)
                requires
                    -0x8000_0000 <= a.0 < 0x8000_0000,
                    0 < s <= 0x1_0000_0000,
            ;
            assert(-0x1_0000_0000 * 0x1_0000_0000 <= ((b.0 as int) - (a.0 as int)) * ii <= 0x1_0000_0000
                * 0x1_0000_0000) by (nonlinear_arith)
                requires
                    -0x8000_0000 <= a.0 < 0x8000_0000,
                    -0x8000_0000 <= b.0 < 0x8000_0000,
                    0 <= ii <= 0x1_0000_0001,
            ;
            assert(-0x8000_0000 * 0x1_0000_0000 <= (a.1 as int) * s <= 0x8000_0000 * 0x1_0000_0000)
                by (nonlinear_arith)
                requires
                    -0x8000_0000 <= a.1 < 0x8000_0000,
                    0 < s <= 0x1_0000_0000,
            ;
            assert(-0x1_0000_0000 * 0x1_0000_0000 <= ((b.1 as int) - (a.1 as int)) * ii <= 0x1_0000_0000
                * 0x1_0000_0000) by (nonlinear_arith)
                requires
                    -0x8000_0000 <= a.1 < 0x8000_0000,
                    -0x8000_0000 <= b.1 < 0x8000_0000,
                    0 <= ii <= 0x1_0000_0001,
            ;
        }
        let nx: i128 = (a.0 as i128) * s + ((b.0 as i128) - (a.0 as i128)) * ii;
        let ny: i128 = (a.1 as i128) * s + ((b.1 as i128) - (a.1 as i128)) * ii;
        proof {
            assert(-0x8000_0000 * s <= nx <= 0x8000_0000 * s) by (nonlinear_arith)
                requires
                    nx == (a.0 as int) * s + ((b.0 as int) - (a.0 as int)) * ii,
                    -0x8000_0000 <= a.0 < 0x8000_0000,
                    -0x8000_0000 <= b.0 < 0x8000_0000,
                    0 <= ii <= s,
            ;
            assert(-0x8000_0000 * s <= ny <= 0x8000_0000 * s) by (nonlinear_arith)
                requires
                    ny == (a.1 as int) * s + ((b.1 as int) - (a.1 as int)) * ii,
                    -0x8000_0000 <= a.1 < 0x8000_0000,
                    -0x8000_0000 <= b.1 < 0x8000_0000,
                    0 <= ii <= s,
            ;
            assert(-0x8000_0000 <= nx / s <= 0x8000_0000) by (nonlinear_arith)
                requires
                    -0x8000_0000 * s <= nx <= 0x8000_0000 * s,
                    s > 0,
            ;
            assert(-0x8000_0000 <= ny / s <= 0x8000_0000) by (nonlinear_arith)
                requires
                    -0x8000_0000 * s <= ny <= 0x8000_0000 * s,
                    s > 0,
            ;
            assert(0x8000_0000 * s <= 0x8000_0000 * 0x1_0000_0000) by (nonlinear_arith)
                requires
                    s <= 0x1_0000_0000,
            ;
        }
        let cx: i64 = round_div_exec(nx, s);
        let cy: i64 = round_div_exec(ny, s);
        let ghost mid = *img;
        img.paint_disc(cx, cy, thickness as i64, color);
        proof {
            assert forall|x: int, y: int|
                on_raster(before.width(), before.height(), x, y) implies #[trigger] img.pixel_at(x, y)
                == if exists|k: int|
                0 <= k < i + 1 && #[trigger] in_disc(
                    x,
                    y,
                    line_point(a, b, k).0,
                    line_point(a, b, k).1,
                    thickness as int,
                ) {
                color
            } else {
                before.pixel_at(x, y)
            } by {
                assert(line_point(a, b, i as int) == (cx as int, cy as int));
                if in_disc(x, y, cx as int, cy as int, thickness as int) {
                    assert(in_disc(
                        x,
                        y,
                        line_point(a, b, i as int).0,
                        line_point(a, b, i as int).1,
                        thickness as int,
                    ));
                } else {
                    if exists|k: int|
                        0 <= k < i + 1 && #[trigger] in_disc(
                            x,
                            y,
                            line_point(a, b, k).0,
                            line_point(a, b, k).1,
                            thickness as int,
                        ) {
                        let k = choose|k: int|
                            0 <= k < i + 1 && #[trigger] in_disc(
                                x,
                                y,
                                line_point(a, b, k).0,
                                line_point(a, b, k).1,
                                thickness as int,
                            );
                        assert(k < i);
                    }
                }
            }
        }
        i = i + 1;
    }
}

} // verus!
