//! The 2-D pixel buffer and its rectangle views: a row-major `Vec` of
//! pixels with width and height, bulk copy/draw/map operations, and
//! clipped variants that truncate to the overlapping area.

use vstd::prelude::*;

verus! {

/// Row-major raster of pixels.
#[derive(Clone)]
pub struct Raster<P> {
    pub width: usize,
    pub height: usize,
    pub pixels: Vec<P>,
}

/// A rectangle inside a raster: position and size.  The clipped region
/// operations compute one that never leaves the backing extents.
#[derive(Copy, Clone, PartialEq, Eq, Structural, Debug)]
pub struct RasterRegion {
    pub x: usize,
    pub y: usize,
    pub width: usize,
    pub height: usize,
}

/// Positions in a row-major grid index distinct cells distinctly.
pub proof fn lemma_grid_index_injective(w: int, x1: int, y1: int, x2: int, y2: int)
    requires
        0 <= x1 < w,
        0 <= x2 < w,
        0 <= y1,
        0 <= y2,
        !(x1 == x2 && y1 == y2),
    ensures
        y1 * w + x1 != y2 * w + x2,
{
    if y1 == y2 {
    } else if y1 < y2 {
        assert(y1 * w + w <= y2 * w) by (nonlinear_arith)
            requires
                y1 < y2,
                w > 0,
        ;
    } else {
        assert(y2 * w + w <= y1 * w) by (nonlinear_arith)
            requires
                y2 < y1,
                w > 0,
        ;
    }
}

/// A row-major cell index stays inside the grid's storage.
pub proof fn lemma_grid_index_bound(w: int, h: int, x: int, y: int)
    requires
        0 <= x < w,
        0 <= y < h,
    ensures
        0 <= y * w + x < h * w,
{
    assert(y * w + w <= h * w) by (nonlinear_arith)
        requires
            y < h,
            w > 0,
    ;
    assert(y * w >= 0) by (nonlinear_arith)
        requires
            y >= 0,
            w >= 0,
    ;
}

impl<P> Raster<P> {
    /// The storage holds exactly one pixel for every grid cell.
    pub open spec fn wf(&self) -> bool {
        &&& self.pixels@.len() == self.width * self.height
        &&& self.width * self.height <= usize::MAX
    }

    /// The pixel of cell `(x, y)`.
    pub open spec fn spec_pixel(&self, x: int, y: int) -> P {
        self.pixels@[y * self.width + x]
    }

    /// Row `y` as a sequence.
    pub open spec fn spec_row(&self, y: int) -> Seq<P> {
        self.pixels@.subrange(y * self.width, y * self.width + self.width)
    }

    /// Both dimensions match another raster's.
    pub open spec fn same_dims(&self, other: &Raster<P>) -> bool {
        self.width == other.width && self.height == other.height
    }

    /// A row indexes into the storage like the pixels it holds.
    pub proof fn lemma_row_index(&self, x: int, y: int)
        requires
            self.wf(),
            0 <= x < self.width || x == 0,
            0 <= y < self.height,
        ensures
            self.spec_row(y).len() == self.width,
            0 <= x < self.width ==> self.spec_row(y)[x] == self.spec_pixel(x, y),
    {
        assert(y * self.width + self.width <= self.height * self.width) by (nonlinear_arith)
            requires
                0 <= y < self.height,
                self.width >= 0,
        ;
        assert(self.height * self.width == self.width * self.height) by (nonlinear_arith);
        assert(y * self.width >= 0) by (nonlinear_arith)
            requires
                y >= 0,
                self.width >= 0,
        ;
    }

    /// Two rasters of the same shape whose pixels all agree have equal
    /// storage.
    pub proof fn lemma_pixels_eq(&self, other: &Raster<P>)
        requires
            self.wf(),
            other.wf(),
            self.width == other.width,
            self.height == other.height,
            forall|x: int, y: int|
                0 <= x < self.width && 0 <= y < self.height ==> self.spec_pixel(x, y)
                    == other.spec_pixel(x, y),
        ensures
            self.pixels@ == other.pixels@,
    {
        assert forall|idx: int| 0 <= idx < self.pixels@.len() implies self.pixels@[idx]
            == other.pixels@[idx] by {
            let w = self.width as int;
            if self.width == 0 {
                assert(self.width * self.height == 0) by (nonlinear_arith)
                    requires
                        self.width == 0,
                ;
            }
            assert(w > 0);
            let x = idx % w;
            let y = idx / w;
            vstd::arithmetic::div_mod::lemma_fundamental_div_mod(idx, w);
            vstd::arithmetic::div_mod::lemma_mod_bound(idx, w);
            assert(y < self.height) by (nonlinear_arith)
                requires
                    idx < self.width * self.height,
                    idx == w * y + x,
                    w == self.width,
                    0 <= x < w,
                    y >= 0,
            ;
            assert(self.spec_pixel(x, y) == other.spec_pixel(x, y));
            assert(y * w + x == idx);
        }
        assert(self.pixels@ =~= other.pixels@);
    }

    /// Gets the width.
    #[inline]
    pub fn width(&self) -> (r: usize)
        ensures
            r == self.width,
    {
        self.width
    }

    /// Gets the height.
    #[inline]
    pub fn height(&self) -> (r: usize)
        ensures
            r == self.height,
    {
        self.height
    }

    /// Returns true if the given point is in range.
    #[inline]
    pub fn in_range(&self, x: usize, y: usize) -> (r: bool)
        ensures
            r == (x < self.width && y < self.height),
    {
        x < self.width && y < self.height
    }

    /// Returns true if the given signed point is in range.
    #[inline]
    pub fn in_range_signed(&self, x: isize, y: isize) -> (r: bool)
        ensures
            r == (0 <= x < self.width && 0 <= y < self.height),
    {
        x >= 0 && y >= 0 && (x as usize) < self.width && (y as usize) < self.height
    }
}

impl Raster<u16> {
    /// New raster of packed samples, zero-filled.
    pub fn new(width: usize, height: usize) -> (r: Raster<u16>)
        requires
            width * height <= usize::MAX,
        ensures
            r.wf(),
            r.width == width,
            r.height == height,
            forall|x: int, y: int|
                0 <= x < width && 0 <= y < height ==> #[trigger] r.spec_pixel(x, y) == 0u16,
    {
        let r = Self::new_filled(width, height, 0u16);
        proof {
            assert forall|x: int, y: int|
                0 <= x < width && 0 <= y < height implies #[trigger] r.spec_pixel(x, y)
                == 0u16 by {
                lemma_grid_index_bound(width as int, height as int, x, y);
                assert((height as int) * (width as int) == (width as int) * (height as int))
                    by (nonlinear_arith);
            }
        }
        r
    }
}

impl<P: Copy> Raster<P> {
    /// New raster with the given fill pixel everywhere.
    pub fn new_filled(width: usize, height: usize, fill_colour: P) -> (r: Raster<P>)
        requires
            width * height <= usize::MAX,
        ensures
            r.wf(),
            r.width == width,
            r.height == height,
            forall|i: int| 0 <= i < r.pixels@.len() ==> r.pixels@[i] == fill_colour,
    {
        proof {
            assert(width * height <= usize::MAX) by (nonlinear_arith)
                requires
                    width * height <= usize::MAX,
            ;
        }
        let total = width * height;
        let mut pixels: Vec<P> = Vec::new();
        let mut i: usize = 0;
        while i < total
            invariant
                i <= total,
                pixels@.len() == i,
                forall|k: int| 0 <= k < i ==> pixels@[k] == fill_colour,
            decreases total - i,
        {
            pixels.push(fill_colour);
            i += 1;
        }
        Raster { width, height, pixels }
    }

    /// Builds a raster by calling `f(x, y)` for every cell in row-major
    /// order.
    pub fn generate<F: Fn(usize, usize) -> P>(width: usize, height: usize, f: &F) -> (r: Raster<P>)
        requires
            width * height <= usize::MAX,
            forall|x: usize, y: usize| x < width && y < height ==> call_requires(*f, (x, y)),
        ensures
            r.wf(),
            r.width == width,
            r.height == height,
            forall|x: usize, y: usize|
                x < width && y < height ==> call_ensures(
                    *f,
                    (x, y),
                    #[trigger] r.spec_pixel(x as int, y as int),
                ),
    {
        let mut pixels: Vec<P> = Vec::new();
        let mut y: usize = 0;
        while y < height
            invariant
                y <= height,
                width * height <= usize::MAX,
                pixels@.len() == y * width,
                forall|x: usize, yy: usize| x < width && yy < height ==> call_requires(*f, (x, yy)),
                forall|xi: int, yi: int|
                    0 <= xi < width && 0 <= yi < y ==> call_ensures(
                        *f,
                        (xi as usize, yi as usize),
                        #[trigger] pixels@[yi * width + xi],
                    ),
            decreases height - y,
        {
            let mut x: usize = 0;
            proof {
                assert((y + 1) * width <= height * width) by (nonlinear_arith)
                    requires
                        y < height,
                        width >= 0,
                ;
                assert(height * width == width * height) by (nonlinear_arith);
            }
            while x < width
                invariant
                    x <= width,
                    y < height,
                    width * height <= usize::MAX,
                    (y + 1) * width <= width * height,
                    pixels@.len() == y * width + x,
                    forall|xx: usize, yy: usize|
                        xx < width && yy < height ==> call_requires(*f, (xx, yy)),
                    forall|xi: int, yi: int|
                        0 <= xi < width && 0 <= yi < y ==> call_ensures(
                            *f,
                            (xi as usize, yi as usize),
                            #[trigger] pixels@[yi * width + xi],
                        ),
                    forall|xi: int|
                        0 <= xi < x ==> call_ensures(
                            *f,
                            (xi as usize, y),
                            #[trigger] pixels@[y * width + xi],
                        ),
                decreases width - x,
            {
                let ghost pre = pixels@;
                let v = f(x, y);
                pixels.push(v);
                proof {
                    assert forall|xi: int, yi: int|
                        0 <= xi < width && 0 <= yi < y implies call_ensures(
                        *f,
                        (xi as usize, yi as usize),
                        #[trigger] pixels@[yi * width + xi],
                    ) by {
                        assert(0 <= yi * width + xi < y * width) by (nonlinear_arith)
                            requires
                                0 <= xi < width,
                                0 <= yi < y,
                        ;
                        assert(pixels@[yi * width + xi] == pre[yi * width + xi]);
                        assert(call_ensures(*f, (xi as usize, yi as usize), pre[yi * width + xi]));
                    }
                }
                x += 1;
            }
            proof {
                assert((y + 1) * width == y * width + width) by (nonlinear_arith);
                assert forall|xi: int, yi: int|
                    0 <= xi < width && 0 <= yi < y + 1 implies call_ensures(
                    *f,
                    (xi as usize, yi as usize),
                    #[trigger] pixels@[yi * width + xi],
                ) by {
                    if yi == y {
                        assert(call_ensures(*f, (xi as usize, y), pixels@[y * width + xi]));
                        assert((xi as usize, y) == (xi as usize, yi as usize));
                    }
                }
            }
            y += 1;
        }
        let r = Raster { width, height, pixels };
        proof {
            assert(height * width == width * height) by (nonlinear_arith);
            assert forall|x: usize, yy: usize| x < width && yy < height implies call_ensures(
                *f,
                (x, yy),
                r.spec_pixel(x as int, yy as int),
            ) by {
                assert(call_ensures(*f, (x, yy), pixels@[yy as int * width + x as int]));
            }
        }
        r
    }

    /// Gets a pixel.
    #[inline]
    pub fn pixel(&self, x: usize, y: usize) -> (r: P)
        requires
            self.wf(),
            x < self.width,
            y < self.height,
        ensures
            r == self.spec_pixel(x as int, y as int),
    {
        proof {
            lemma_grid_index_bound(
                self.width as int,
                self.height as int,
                x as int,
                y as int,
            );
            assert(self.height * self.width == self.width * self.height) by (nonlinear_arith);
        }
        self.pixels[y * self.width + x]
    }

    /// Gets a pixel, or nothing when the signed coordinates fall outside.
    #[inline]
    pub fn pixel_checked_signed(&self, x: isize, y: isize) -> (r: Option<P>)
        requires
            self.wf(),
        ensures
            match r {
                Some(p) => 0 <= x < self.width && 0 <= y < self.height && p == self.spec_pixel(
                    x as int,
                    y as int,
                ),
                None => !(0 <= x < self.width && 0 <= y < self.height),
            },
    {
        if self.in_range_signed(x, y) {
            Some(self.pixel(x as usize, y as usize))
        } else {
            None
        }
    }

    /// Sets a pixel.
    #[inline]
    pub fn set_pixel(&mut self, x: usize, y: usize, v: P)
        requires
            old(self).wf(),
            x < old(self).width,
            y < old(self).height,
        ensures
            final(self).wf(),
            final(self).width == old(self).width,
            final(self).height == old(self).height,
            final(self).pixels@ == old(self).pixels@.update(y * old(self).width + x, v),
            final(self).spec_pixel(x as int, y as int) == v,
            forall|xi: int, yi: int|
                0 <= xi < old(self).width && 0 <= yi < old(self).height && !(xi == x && yi == y)
                    ==> final(self).spec_pixel(xi, yi) == old(self).spec_pixel(xi, yi),
    {
        proof {
            lemma_grid_index_bound(
                self.width as int,
                self.height as int,
                x as int,
                y as int,
            );
            assert(self.height * self.width == self.width * self.height) by (nonlinear_arith);
        }
        let idx = y * self.width + x;
        self.pixels.set(idx, v);
        proof {
            assert forall|xi: int, yi: int|
                0 <= xi < self.width && 0 <= yi < self.height && !(xi == x as int && yi
                    == y as int) implies self.spec_pixel(xi, yi) == old(self).spec_pixel(
                xi,
                yi,
            ) by {
                lemma_grid_index_injective(self.width as int, xi, yi, x as int, y as int);
                lemma_grid_index_bound(self.width as int, self.height as int, xi, yi);
                assert(self.height * self.width == self.width * self.height) by (nonlinear_arith);
            }
        }
    }

    /// Copies row `y` out as a vector.
    pub fn row(&self, y: usize) -> (r: Vec<P>)
        requires
            self.wf(),
            y < self.height,
        ensures
            r@ == self.spec_row(y as int),
            r@.len() == self.width,
    {
        self.span(0, y, self.width)
    }

    /// Copies the `width`-long span starting at `(x, y)` out as a vector.
    pub fn span(&self, x: usize, y: usize, width: usize) -> (r: Vec<P>)
        requires
            self.wf(),
            y < self.height,
            x + width <= self.width,
        ensures
            r@.len() == width,
            forall|i: int| 0 <= i < width ==> r@[i] == self.spec_pixel(x + i, y as int),
            x == 0 && width == self.width ==> r@ == self.spec_row(y as int),
    {
        let mut r: Vec<P> = Vec::new();
        let mut i: usize = 0;
        while i < width
            invariant
                i <= width,
                self.wf(),
                y < self.height,
                x + width <= self.width,
                r@.len() == i,
                forall|k: int| 0 <= k < i ==> r@[k] == self.spec_pixel(x + k, y as int),
            decreases width - i,
        {
            r.push(self.pixel(x + i, y));
            i += 1;
        }
        proof {
            if x == 0 && width == self.width {
                assert(r@ =~= self.spec_row(y as int)) by {
                    assert(y * self.width + self.width <= self.height * self.width)
                        by (nonlinear_arith)
                        requires
                            y < self.height,
                            self.width >= 0,
                    ;
                    assert(self.height * self.width == self.width * self.height)
                        by (nonlinear_arith);
                }
            }
        }
        r
    }

    /// Extracts the rectangle at `(x, y)` of size `width` by `height` as
    /// a fresh raster.
    pub fn subraster(&self, x: usize, y: usize, width: usize, height: usize) -> (r: Raster<P>)
        requires
            self.wf(),
            x + width <= self.width,
            y + height <= self.height,
        ensures
            r.wf(),
            r.width == width,
            r.height == height,
            forall|xi: int, yi: int|
                0 <= xi < width && 0 <= yi < height ==> r.spec_pixel(xi, yi) == self.spec_pixel(
                    x + xi,
                    y + yi,
                ),
    {
        proof {
            assert(width * height <= self.width * self.height) by (nonlinear_arith)
                requires
                    width <= self.width,
                    height <= self.height,
            ;
        }
        let r = Raster::generate(
            width,
            height,
            &(|xi: usize, yi: usize| -> (p: P)
                requires
                    self.wf(),
                    xi < width,
                    yi < height,
                    x + width <= self.width,
                    y + height <= self.height,
                ensures
                    p == self.spec_pixel(x + xi, y + yi),
                { self.pixel(x + xi, y + yi) }),
        );
        r
    }

    /// Computes the clipped region at `(x, y)` of requested size: empty
    /// when the position falls outside the extents, else clamped to what
    /// remains of them.  A caller can therefore always request an
    /// out-of-bounds rectangle without its own bounds checking.
    pub fn region_clipped(&self, x: usize, y: usize, width: usize, height: usize) -> (r:
        RasterRegion)
        ensures
            r.x + r.width <= self.width,
            r.y + r.height <= self.height,
            x >= self.width || y >= self.height ==> r == (RasterRegion {
                x: 0,
                y: 0,
                width: 0,
                height: 0,
            }),
            x < self.width && y < self.height ==> {
                &&& r.x == x
                &&& r.y == y
                &&& r.width == if width > self.width - x {
                    self.width - x
                } else {
                    width as int
                }
                &&& r.height == if height > self.height - y {
                    self.height - y
                } else {
                    height as int
                }
            },
    {
        if x >= self.width || y >= self.height {
            RasterRegion { x: 0, y: 0, width: 0, height: 0 }
        } else {
            let remaining_w = self.width - x;
            let remaining_h = self.height - y;
            RasterRegion {
                x,
                y,
                width: if width > remaining_w {
                    remaining_w
                } else {
                    width
                },
                height: if height > remaining_h {
                    remaining_h
                } else {
                    height
                },
            }
        }
    }

    /// Copies the whole source onto this raster at `(x, y)`.  The caller
    /// guarantees the source fits; see [`Raster::copy_clipped`] for the
    /// truncating variant.
    pub fn copy(&mut self, source: &Raster<P>, x: usize, y: usize)
        requires
            old(self).wf(),
            source.wf(),
            x + source.width <= old(self).width,
            y + source.height <= old(self).height,
        ensures
            final(self).wf(),
            final(self).width == old(self).width,
            final(self).height == old(self).height,
            forall|a: int, b: int|
                0 <= a < source.width && 0 <= b < source.height ==> final(self).spec_pixel(
                    x + a,
                    y + b,
                ) == source.spec_pixel(a, b),
            forall|i: int, j: int|
                0 <= i < old(self).width && 0 <= j < old(self).height && !(x <= i < x
                    + source.width && y <= j < y + source.height) ==> final(self).spec_pixel(i, j)
                    == old(self).spec_pixel(i, j),
    {
        let mut sy: usize = 0;
        while sy < source.height
            invariant
                sy <= source.height,
                self.wf(),
                source.wf(),
                self.width == old(self).width,
                self.height == old(self).height,
                x + source.width <= self.width,
                y + source.height <= self.height,
                forall|a: int, b: int|
                    0 <= a < source.width && 0 <= b < sy ==> self.spec_pixel(x + a, y + b)
                        == source.spec_pixel(a, b),
                forall|i: int, j: int|
                    0 <= i < self.width && 0 <= j < self.height && !(x <= i < x + source.width && y
                        <= j < y + sy) ==> self.spec_pixel(i, j) == old(self).spec_pixel(i, j),
            decreases source.height - sy,
        {
            let mut sx: usize = 0;
            while sx < source.width
                invariant
                    sx <= source.width,
                    sy < source.height,
                    self.wf(),
                    source.wf(),
                    self.width == old(self).width,
                    self.height == old(self).height,
                    x + source.width <= self.width,
                    y + source.height <= self.height,
                    forall|a: int, b: int|
                        0 <= a < source.width && 0 <= b < sy ==> self.spec_pixel(x + a, y + b)
                            == source.spec_pixel(a, b),
                    forall|a: int|
                        0 <= a < sx ==> self.spec_pixel(x + a, y + sy) == source.spec_pixel(
                            a,
                            sy as int,
                        ),
                    forall|i: int, j: int|
                        0 <= i < self.width && 0 <= j < self.height && !(x <= i < x + source.width
                            && y <= j < y + sy) && !(x <= i < x + sx && j == y + sy) ==> self
                            .spec_pixel(i, j) == old(self).spec_pixel(i, j),
                decreases source.width - sx,
            {
                let v = source.pixel(sx, sy);
                self.set_pixel(x + sx, y + sy, v);
                sx += 1;
            }
            sy += 1;
        }
    }

    /// Copies the source at `(x, y)`, truncated to the overlapping area.
    pub fn copy_clipped(&mut self, source: &Raster<P>, x: usize, y: usize)
        requires
            old(self).wf(),
            source.wf(),
        ensures
            final(self).wf(),
            final(self).width == old(self).width,
            final(self).height == old(self).height,
            forall|a: int, b: int|
                0 <= a < source.width && 0 <= b < source.height && x + a < old(self).width && y + b
                    < old(self).height ==> final(self).spec_pixel(x + a, y + b)
                    == source.spec_pixel(a, b),
            forall|i: int, j: int|
                0 <= i < old(self).width && 0 <= j < old(self).height && !(x <= i < x
                    + source.width && y <= j < y + source.height) ==> final(self).spec_pixel(i, j)
                    == old(self).spec_pixel(i, j),
    {
        let region = self.region_clipped(x, y, source.width(), source.height());
        if region.width == 0 || region.height == 0 {
            return ;
        }
        let clipped = source.subraster(0, 0, region.width, region.height);
        self.copy(&clipped, region.x, region.y);
        proof {
            assert forall|a: int, b: int|
                0 <= a < source.width && 0 <= b < source.height && x + a < old(self).width && y + b
                    < old(self).height implies self.spec_pixel(x + a, y + b) == source.spec_pixel(
                a,
                b,
            ) by {
                assert(a < region.width && b < region.height);
                assert(self.spec_pixel(region.x + a, region.y + b) == clipped.spec_pixel(a, b));
                assert(clipped.spec_pixel(a, b) == source.spec_pixel(a, b));
            }
        }
    }

    /// Draws the source at `(x, y)`, combining each source pixel with the
    /// pixel under it through `blit(src, dst)`.  The caller guarantees
    /// the source fits; see [`Raster::draw_clipped`].
    pub fn draw<F: Fn(P, P) -> P>(&mut self, source: &Raster<P>, x: usize, y: usize, blit: &F)
        requires
            old(self).wf(),
            source.wf(),
            x + source.width <= old(self).width,
            y + source.height <= old(self).height,
            forall|s: P, d: P| call_requires(*blit, (s, d)),
        ensures
            final(self).wf(),
            final(self).width == old(self).width,
            final(self).height == old(self).height,
            forall|a: int, b: int|
                0 <= a < source.width && 0 <= b < source.height ==> call_ensures(
                    *blit,
                    (source.spec_pixel(a, b), old(self).spec_pixel(x + a, y + b)),
                    #[trigger] final(self).spec_pixel(x + a, y + b),
                ),
            forall|i: int, j: int|
                0 <= i < old(self).width && 0 <= j < old(self).height && !(x <= i < x
                    + source.width && y <= j < y + source.height) ==> final(self).spec_pixel(i, j)
                    == old(self).spec_pixel(i, j),
    {
        let mut sy: usize = 0;
        while sy < source.height
            invariant
                sy <= source.height,
                self.wf(),
                source.wf(),
                self.width == old(self).width,
                self.height == old(self).height,
                x + source.width <= self.width,
                y + source.height <= self.height,
                forall|s: P, d: P| call_requires(*blit, (s, d)),
                forall|a: int, b: int|
                    0 <= a < source.width && 0 <= b < sy ==> call_ensures(
                        *blit,
                        (source.spec_pixel(a, b), old(self).spec_pixel(x + a, y + b)),
                        #[trigger] self.spec_pixel(x + a, y + b),
                    ),
                forall|i: int, j: int|
                    0 <= i < self.width && 0 <= j < self.height && !(x <= i < x + source.width && y
                        <= j < y + sy) ==> self.spec_pixel(i, j) == old(self).spec_pixel(i, j),
            decreases source.height - sy,
        {
            let mut sx: usize = 0;
            while sx < source.width
                invariant
                    sx <= source.width,
                    sy < source.height,
                    self.wf(),
                    source.wf(),
                    self.width == old(self).width,
                    self.height == old(self).height,
                    x + source.width <= self.width,
                    y + source.height <= self.height,
                    forall|s: P, d: P| call_requires(*blit, (s, d)),
                    forall|a: int, b: int|
                        0 <= a < source.width && 0 <= b < sy ==> call_ensures(
                            *blit,
                            (source.spec_pixel(a, b), old(self).spec_pixel(x + a, y + b)),
                            #[trigger] self.spec_pixel(x + a, y + b),
                        ),
                    forall|a: int|
                        0 <= a < sx ==> call_ensures(
                            *blit,
                            (source.spec_pixel(a, sy as int), old(self).spec_pixel(x + a, y + sy)),
                            #[trigger] self.spec_pixel(x + a, y + sy),
                        ),
                    forall|i: int, j: int|
                        0 <= i < self.width && 0 <= j < self.height && !(x <= i < x + source.width
                            && y <= j < y + sy) && !(x <= i < x + sx && j == y + sy) ==> self
                            .spec_pixel(i, j) == old(self).spec_pixel(i, j),
                decreases source.width - sx,
            {
                let s = source.pixel(sx, sy);
                let d = self.pixel(x + sx, y + sy);
                let v = blit(s, d);
                self.set_pixel(x + sx, y + sy, v);
                sx += 1;
            }
            sy += 1;
        }
    }

    /// Draws the source at `(x, y)` through `blit`, truncated to the
    /// overlapping area.
    pub fn draw_clipped<F: Fn(P, P) -> P>(
        &mut self,
        source: &Raster<P>,
        x: usize,
        y: usize,
        blit: &F,
    )
        requires
            old(self).wf(),
            source.wf(),
            forall|s: P, d: P| call_requires(*blit, (s, d)),
        ensures
            final(self).wf(),
            final(self).width == old(self).width,
            final(self).height == old(self).height,
            forall|a: int, b: int|
                0 <= a < source.width && 0 <= b < source.height && x + a < old(self).width && y + b
                    < old(self).height ==> call_ensures(
                    *blit,
                    (source.spec_pixel(a, b), old(self).spec_pixel(x + a, y + b)),
                    #[trigger] final(self).spec_pixel(x + a, y + b),
                ),
            forall|i: int, j: int|
                0 <= i < old(self).width && 0 <= j < old(self).height && !(x <= i < x
                    + source.width && y <= j < y + source.height) ==> final(self).spec_pixel(i, j)
                    == old(self).spec_pixel(i, j),
    {
        let region = self.region_clipped(x, y, source.width(), source.height());
        if region.width == 0 || region.height == 0 {
            return ;
        }
        let clipped = source.subraster(0, 0, region.width, region.height);
        self.draw(&clipped, region.x, region.y, blit);
    }

    /// Remaps every pixel through `f(x, y, pixel)` into a new raster.
    pub fn map<R: Copy, F: Fn(usize, usize, P) -> R>(&self, f: &F) -> (r: Raster<R>)
        requires
            self.wf(),
            forall|x: usize, y: usize|
                x < self.width && y < self.height ==> call_requires(
                    *f,
                    (x, y, self.spec_pixel(x as int, y as int)),
                ),
        ensures
            r.wf(),
            r.width == self.width,
            r.height == self.height,
            forall|x: usize, y: usize|
                x < self.width && y < self.height ==> call_ensures(
                    *f,
                    (x, y, self.spec_pixel(x as int, y as int)),
                    #[trigger] r.spec_pixel(x as int, y as int),
                ),
    {
        let r = Raster::generate(
            self.width,
            self.height,
            &(|x: usize, y: usize| -> (p: R)
                requires
                    self.wf(),
                    x < self.width,
                    y < self.height,
                    forall|xx: usize, yy: usize|
                        xx < self.width && yy < self.height ==> call_requires(
                            *f,
                            (xx, yy, self.spec_pixel(xx as int, yy as int)),
                        ),
                ensures
                    call_ensures(*f, (x, y, self.spec_pixel(x as int, y as int)), p),
                { f(x, y, self.pixel(x, y)) }),
        );
        r
    }

    /// Remaps every pixel through `f(x, y, pixel)` in place.
    pub fn map_inplace<F: Fn(usize, usize, P) -> P>(&mut self, f: &F)
        requires
            old(self).wf(),
            forall|x: usize, y: usize|
                x < old(self).width && y < old(self).height ==> call_requires(
                    *f,
                    (x, y, old(self).spec_pixel(x as int, y as int)),
                ),
        ensures
            final(self).wf(),
            final(self).width == old(self).width,
            final(self).height == old(self).height,
            forall|x: usize, y: usize|
                x < old(self).width && y < old(self).height ==> call_ensures(
                    *f,
                    (x, y, old(self).spec_pixel(x as int, y as int)),
                    #[trigger] final(self).spec_pixel(x as int, y as int),
                ),
    {
        let mut y: usize = 0;
        while y < self.height
            invariant
                y <= self.height,
                self.wf(),
                self.width == old(self).width,
                self.height == old(self).height,
                forall|xx: usize, yy: usize|
                    xx < self.width && yy < self.height ==> call_requires(
                        *f,
                        (xx, yy, old(self).spec_pixel(xx as int, yy as int)),
                    ),
                forall|xi: usize, yi: usize|
                    xi < self.width && yi < y ==> call_ensures(
                        *f,
                        (xi, yi, old(self).spec_pixel(xi as int, yi as int)),
                        #[trigger] self.spec_pixel(xi as int, yi as int),
                    ),
                forall|i: int, j: int|
                    0 <= i < self.width && y <= j < self.height ==> self.spec_pixel(i, j) == old(
                        self,
                    ).spec_pixel(i, j),
            decreases self.height - y,
        {
            let mut x: usize = 0;
            while x < self.width
                invariant
                    x <= self.width,
                    y < self.height,
                    self.wf(),
                    self.width == old(self).width,
                    self.height == old(self).height,
                    forall|xx: usize, yy: usize|
                        xx < self.width && yy < self.height ==> call_requires(
                            *f,
                            (xx, yy, old(self).spec_pixel(xx as int, yy as int)),
                        ),
                    forall|xi: usize, yi: usize|
                        xi < self.width && yi < y ==> call_ensures(
                            *f,
                            (xi, yi, old(self).spec_pixel(xi as int, yi as int)),
                            #[trigger] self.spec_pixel(xi as int, yi as int),
                        ),
                    forall|xi: usize|
                        xi < x ==> call_ensures(
                            *f,
                            (xi, y, old(self).spec_pixel(xi as int, y as int)),
                            #[trigger] self.spec_pixel(xi as int, y as int),
                        ),
                    forall|i: int, j: int|
                        0 <= i < self.width && y <= j < self.height && !(j == y && i < x) ==> self
                            .spec_pixel(i, j) == old(self).spec_pixel(i, j),
                decreases self.width - x,
            {
                let v = self.pixel(x, y);
                let nv = f(x, y, v);
                self.set_pixel(x, y, nv);
                x += 1;
            }
            y += 1;
        }
    }
}

} // verus!
