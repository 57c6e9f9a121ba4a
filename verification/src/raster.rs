//! Raster buffers: premultiplied RGBA pixels, integer rectangles, and the
//! bounded 2D surface that filter primitives draw into.

use vstd::prelude::*;

verus! {

/// Largest width or height the backend will allocate a fresh buffer for.
pub const MAX_DIMENSION: usize = 32767;

/// One pixel, as premultiplied RGBA channels.
#[derive(Clone, Copy, PartialEq, Eq, Structural, Debug)]
pub struct Pixel {
    pub r: u8,
    pub g: u8,
    pub b: u8,
    pub a: u8,
}

impl Pixel {
    /// The fully transparent pixel, the initial content of every buffer.
    pub open spec fn transparent() -> Pixel {
        Pixel { r: 0, g: 0, b: 0, a: 0 }
    }

    /// One colour channel premultiplied by the alpha channel.
    pub open spec fn premul_channel(c: u8, a: u8) -> u8 {
        ((c * a) / 255) as u8
    }

    /// The premultiplied pixel for straight channels `(r, g, b)` at alpha `a`.
    pub open spec fn premultiplied(r: u8, g: u8, b: u8, a: u8) -> Pixel {
        Pixel {
            r: Pixel::premul_channel(r, a),
            g: Pixel::premul_channel(g, a),
            b: Pixel::premul_channel(b, a),
            a: a,
        }
    }

    /// Computes the premultiplied pixel for straight channels at alpha `a`.
    pub fn premultiply(r: u8, g: u8, b: u8, a: u8) -> (p: Pixel)
        ensures
            p == Pixel::premultiplied(r, g, b, a),
    {
        Pixel {
            r: Pixel::premultiply_channel(r, a),
            g: Pixel::premultiply_channel(g, a),
            b: Pixel::premultiply_channel(b, a),
            a: a,
        }
    }

    /// Computes one premultiplied channel.
    pub fn premultiply_channel(c: u8, a: u8) -> (r: u8)
        ensures
            r == Pixel::premul_channel(c, a),
    {
        proof {
            assert(c * a <= 255 * 255) by (nonlinear_arith)
                requires
                    c <= 255,
                    a <= 255,
            ;
            assert((c * a) / 255 <= (255 * 255) / 255) by (nonlinear_arith)
                requires
                    c * a <= 255 * 255,
            ;
        }
        (((c as u32) * (a as u32)) / 255) as u8
    }
}

/// A half-open integer rectangle: the points `(x, y)` with
/// `x0 <= x < x1` and `y0 <= y < y1`. When `x1 <= x0` or `y1 <= y0` the
/// rectangle is empty.
#[derive(Clone, Copy, PartialEq, Eq, Structural, Debug)]
pub struct IRect {
    pub x0: i32,
    pub y0: i32,
    pub x1: i32,
    pub y1: i32,
}

impl IRect {
    /// Whether the point `(x, y)` lies inside the rectangle.
    pub open spec fn contains(self, x: int, y: int) -> bool {
        self.x0 <= x && x < self.x1 && self.y0 <= y && y < self.y1
    }

    /// Decides whether the point `(x, y)` lies inside the rectangle.
    pub fn contains_point(&self, x: i64, y: i64) -> (r: bool)
        ensures
            r == self.contains(x as int, y as int),
    {
        (self.x0 as i64) <= x && x < (self.x1 as i64) && (self.y0 as i64) <= y && y < (self.y1
            as i64)
    }
}

/// A 2D pixel surface stored row-major.
pub struct Raster {
    pub width: usize,
    pub height: usize,
    pub pixels: Vec<Pixel>,
}

/// Index positions `(x1, y1)` and `(x2, y2)` in the same row-major layout of
/// row length `w` coincide only for the same point.
proof fn lemma_cell_index_unique(w: int, x1: int, y1: int, x2: int, y2: int)
    by (nonlinear_arith)
    requires
        0 <= x1 < w,
        0 <= x2 < w,
        0 <= y1,
        0 <= y2,
        y1 * w + x1 == y2 * w + x2,
    ensures
        x1 == x2,
        y1 == y2,
{
}

/// A cell of a row-major grid lies below the grid's total size.
pub proof fn lemma_cell_index_bound(w: int, h: int, x: int, y: int)
    by (nonlinear_arith)
    requires
        0 <= x < w,
        0 <= y < h,
    ensures
        0 <= y * w + x < w * h,
{
}

impl Raster {
    /// Shape invariant: the pixel vector holds exactly one pixel per cell and
    /// both dimensions fit a signed 32-bit coordinate.
    pub open spec fn wf(self) -> bool {
        &&& self.pixels@.len() == self.width * self.height
        &&& self.width <= i32::MAX
        &&& self.height <= i32::MAX
    }

    /// The pixel stored at `(x, y)`.
    pub open spec fn pixel_at(self, x: int, y: int) -> Pixel {
        self.pixels@[y * self.width + x]
    }

    /// Whether every pixel of `self` is the given one.
    pub open spec fn all_pixels(self, p: Pixel) -> bool {
        forall|x: int, y: int|
            0 <= x < self.width && 0 <= y < self.height ==> self.pixel_at(x, y) == p
    }

    /// Allocates a fully transparent surface, refusing dimensions beyond
    /// what the backend supports; refusal models buffer-allocation failure.
    pub fn create(width: usize, height: usize) -> (r: Option<Raster>)
        ensures
            r is Some <==> (width <= MAX_DIMENSION && height <= MAX_DIMENSION),
            r is Some ==> {
                &&& r->Some_0.wf()
                &&& r->Some_0.width == width
                &&& r->Some_0.height == height
                &&& r->Some_0.all_pixels(Pixel::transparent())
            },
    {
        if width > MAX_DIMENSION || height > MAX_DIMENSION {
            return None;
        }
        proof {
            assert(width * height <= 32767 * 32767) by (nonlinear_arith)
                requires
                    width <= 32767,
                    height <= 32767,
            ;
        }
        let n: usize = width * height;
        let mut pixels: Vec<Pixel> = Vec::new();
        let mut i: usize = 0;
        while i < n
            invariant
                i <= n,
                pixels@.len() == i,
                forall|k: int| 0 <= k < i ==> pixels@[k] == Pixel::transparent(),
            decreases n - i,
        {
            pixels.push(Pixel { r: 0, g: 0, b: 0, a: 0 });
            i = i + 1;
        }
        let r = Raster { width, height, pixels };
        proof {
            assert forall|x: int, y: int|
                0 <= x < r.width && 0 <= y < r.height implies r.pixel_at(x, y)
                == Pixel::transparent() by {
                lemma_cell_index_bound(r.width as int, r.height as int, x, y);
            }
        }
        Some(r)
    }

    /// Wraps externally produced pixel data as a surface. The source graphic
    /// of a filter chain enters this way; it may exceed the dimensions that
    /// `create` would allocate.
    pub fn from_pixels(width: usize, height: usize, pixels: Vec<Pixel>) -> (r: Raster)
        requires
            pixels@.len() == width * height,
            width <= i32::MAX,
            height <= i32::MAX,
        ensures
            r.wf(),
            r.width == width,
            r.height == height,
            r.pixels@ == pixels@,
    {
        Raster { width, height, pixels }
    }

    /// Reads the pixel at `(x, y)`.
    pub fn get_pixel(&self, x: usize, y: usize) -> (p: Pixel)
        requires
            self.wf(),
            x < self.width,
            y < self.height,
        ensures
            p == self.pixel_at(x as int, y as int),
    {
        let len = self.pixels.len();
        proof {
            lemma_cell_index_bound(self.width as int, self.height as int, x as int, y as int);
            assert(y * self.width + x < len);
        }
        let idx: usize = y * self.width + x;
        self.pixels[idx]
    }

    /// Overwrites every pixel inside `rect` (clipped to the surface) with
    /// `px`; pixels outside `rect` keep their value.
    pub fn fill_rect(&mut self, rect: IRect, px: Pixel)
        requires
            old(self).wf(),
        ensures
            final(self).wf(),
            final(self).width == old(self).width,
            final(self).height == old(self).height,
            forall|x: int, y: int|
                0 <= x < old(self).width && 0 <= y < old(self).height ==> final(self).pixel_at(
                    x,
                    y,
                ) == (if rect.contains(x, y) {
                    px
                } else {
                    old(self).pixel_at(x, y)
                }),
    {
        let ghost orig = *self;
        let w = self.width;
        let h = self.height;
        let mut y: usize = 0;
        while y < h
            invariant
                self.width == w,
                self.height == h,
                self.wf(),
                orig.wf(),
                orig.width == w,
                orig.height == h,
                y <= h,
                forall|xx: int, yy: int|
                    0 <= xx < w && 0 <= yy < h ==> #[trigger] self.pixel_at(xx, yy) == (if yy < y
                        && rect.contains(xx, yy) {
                        px
                    } else {
                        orig.pixel_at(xx, yy)
                    }),
            decreases h - y,
        {
            let mut x: usize = 0;
            while x < w
                invariant
                    self.width == w,
                    self.height == h,
                    self.wf(),
                    orig.wf(),
                    orig.width == w,
                    orig.height == h,
                    y < h,
                    x <= w,
                    forall|xx: int, yy: int|
                        0 <= xx < w && 0 <= yy < h ==> #[trigger] self.pixel_at(xx, yy) == (if (yy < y || (yy
                            == y && xx < x)) && rect.contains(xx, yy) {
                            px
                        } else {
                            orig.pixel_at(xx, yy)
                        }),
                decreases w - x,
            {
                if rect.contains_point(x as i64, y as i64) {
                    let len = self.pixels.len();
                    proof {
                        lemma_cell_index_bound(w as int, h as int, x as int, y as int);
                        assert(y * w + x < len);
                    }
                    let ghost before = *self;
                    let idx: usize = y * w + x;
                    self.pixels[idx] = px;
                    proof {
                        assert forall|xx: int, yy: int|
                            0 <= xx < w && 0 <= yy < h implies #[trigger] self.pixel_at(xx, yy)
                            == (if (yy < y || (yy == y && xx < x + 1)) && rect.contains(xx, yy) {
                            px
                        } else {
                            orig.pixel_at(xx, yy)
                        }) by {
                            lemma_cell_index_bound(w as int, h as int, xx, yy);
                            if yy * w + xx == y * w + x {
                                lemma_cell_index_unique(w as int, xx, yy, x as int, y as int);
                            }
                            assert(before.pixel_at(xx, yy) == (if (yy < y || (yy == y && xx < x))
                                && rect.contains(xx, yy) {
                                px
                            } else {
                                orig.pixel_at(xx, yy)
                            }));
                        }
                    }
                }
                x = x + 1;
            }
            y = y + 1;
        }
    }
}

/// The mathematical content of a surface.
#[verifier::ext_equal]
pub ghost struct RasterV {
    pub width: nat,
    pub height: nat,
    pub pixels: Seq<Pixel>,
}

impl RasterV {
    /// The pixel stored at `(x, y)`.
    pub open spec fn pixel_at(self, x: int, y: int) -> Pixel {
        self.pixels[y * self.width + x]
    }
}

impl View for Raster {
    type V = RasterV;

    open spec fn view(&self) -> RasterV {
        RasterV { width: self.width as nat, height: self.height as nat, pixels: self.pixels@ }
    }
}

/// Decomposes a row-major index into its column `k % w` and row `k / w`.
pub proof fn lemma_cell_decompose(w: int, h: int, k: int)
    requires
        0 < w,
        0 <= h,
        0 <= k < w * h,
    ensures
        0 <= k % w < w,
        0 <= k / w < h,
        (k / w) * w + (k % w) == k,
{
    vstd::arithmetic::div_mod::lemma_fundamental_div_mod(k, w);
    vstd::arithmetic::div_mod::lemma_mod_division_less_than_divisor(k, w);
    let q = k / w;
    let r = k % w;
    if q < 0 {
        assert(w * q <= -w) by (nonlinear_arith)
            requires
                0 < w,
                q <= -1,
        ;
        assert(false);
    }
    if q >= h {
        assert(w * q >= w * h) by (nonlinear_arith)
            requires
                0 < w,
                q >= h,
        ;
        assert(false);
    }
    assert(q * w == w * q) by (nonlinear_arith);
}

} // verus!
