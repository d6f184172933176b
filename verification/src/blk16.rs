//! The tiled background (BLK) format: frames partitioned into fixed
//! 128-by-128 tiles, the tile-grid header with its deliberately
//! non-byte-accurate per-tile base fields, and reading and building
//! whole files.

use vstd::prelude::*;
use vstd::arithmetic::div_mod::{
    lemma_fundamental_div_mod, lemma_mod_bound, lemma_multiply_divide_lt,
};
use crate::endian::{spec_u16_at, spec_u16_bytes, spec_u32_at, spec_u32_bytes, Endianness};
use crate::cs16::{spec_frame_pixel_bytes, spec_u16s_bytes};
use crate::raster::Raster;
use crate::spritefile::{CS16Type, S16Frame, S16Type};

verus! {

/// Size of a BLK tile.
pub const BLK_TILE_SIZE: usize = 128;

/// BLK types are flat-sheet types: the file inherits its endianness and
/// colour model from them.
pub type BLK16Type = S16Type;

/// BLK tiles are fixed 128-by-128 rasters.
pub type BLK16Tile = Raster<u16>;

/// The number of tiles needed to cover `n` pixels.
pub open spec fn spec_tiles_for(n: int) -> int {
    if n % 128 != 0 {
        n / 128 + 1
    } else {
        n / 128
    }
}

/// BLK file data: the variant and the tile grid, row-major by tile
/// position.
pub struct BLK16 {
    /// Type of flat sheet whose endianness and colour model apply.
    pub variant: BLK16Type,
    /// Tile-grid width.
    pub tiles_w: usize,
    /// Tile-grid height.
    pub tiles_h: usize,
    /// The tiles, row-major by tile position.
    pub blocks: Vec<BLK16Tile>,
}

impl BLK16 {
    /// The grid is filled with well-formed 128-by-128 tiles and its
    /// dimensions fit the header's 16-bit fields.
    pub open spec fn wf(&self) -> bool {
        &&& self.tiles_w <= 0xFFFF
        &&& self.tiles_h <= 0xFFFF
        &&& self.tiles_w * self.tiles_h * 16384 <= usize::MAX
        &&& self.blocks@.len() == self.tiles_w * self.tiles_h
        &&& forall|k: int|
            0 <= k < self.blocks@.len() ==> {
                let t = #[trigger] self.blocks@[k];
                t.wf() && t.width == 128 && t.height == 128
            }
    }

    /// The tile at grid position `(tx, ty)`.
    pub open spec fn spec_tile(&self, tx: int, ty: int) -> BLK16Tile {
        self.blocks@[ty * self.tiles_w + tx]
    }

    /// The tiles cover the frame: each tile pixel carries the frame pixel
    /// under it, or zero past the frame's far edges.
    pub open spec fn spec_covers(&self, value: &Raster<u16>) -> bool {
        &&& self.tiles_w == spec_tiles_for(value.width as int)
        &&& self.tiles_h == spec_tiles_for(value.height as int)
        &&& forall|tx: int, ty: int, i: int, j: int|
            0 <= tx < self.tiles_w && 0 <= ty < self.tiles_h && 0 <= i < 128 && 0 <= j < 128
                ==> #[trigger] self.spec_tile(tx, ty).spec_pixel(i, j) == (if tx * 128 + i
                < value.width && ty * 128 + j < value.height {
                value.spec_pixel(tx * 128 + i, ty * 128 + j)
            } else {
                0u16
            })
    }

    /// Splits a frame into a tile grid; edge tiles are zero-padded on the
    /// far side.
    pub fn split(variant: BLK16Type, value: &S16Frame) -> (r: BLK16)
        requires
            value.wf(),
            value.width <= 128 * 0xFFFF,
            value.height <= 128 * 0xFFFF,
            spec_tiles_for(value.width as int) * spec_tiles_for(value.height as int) * 16384
                <= usize::MAX,
        ensures
            r.wf(),
            r.variant == variant,
            r.spec_covers(value),
    {
        let grid = Self::split_raster(value);
        let r = BLK16 { variant, tiles_w: grid.0, tiles_h: grid.1, blocks: grid.2 };
        proof {
            assert forall|tx: int, ty: int, i: int, j: int|
                0 <= tx < r.tiles_w && 0 <= ty < r.tiles_h && 0 <= i < 128 && 0 <= j < 128
                    implies #[trigger] r.spec_tile(tx, ty).spec_pixel(i, j) == (if tx * 128 + i
                < value.width && ty * 128 + j < value.height {
                value.spec_pixel(tx * 128 + i, ty * 128 + j)
            } else {
                0u16
            }) by {
                assert(r.spec_tile(tx, ty) == r.blocks@[ty * r.tiles_w + tx]);
            }
        }
        r
    }

    /// Joins the tile grid back into one frame of the grid's full
    /// (128-aligned) size.
    pub fn join(&self) -> (r: S16Frame)
        requires
            self.wf(),
        ensures
            r.wf(),
            r.width == self.tiles_w * 128,
            r.height == self.tiles_h * 128,
            forall|x: int, y: int|
                0 <= x < r.width && 0 <= y < r.height ==> #[trigger] r.spec_pixel(x, y)
                    == self.spec_tile(x / 128, y / 128).spec_pixel(x % 128, y % 128),
    {
        Self::join_raster(self.tiles_w, self.tiles_h, &self.blocks)
    }

    /// Splits a frame into its tile grid: the grid dimensions and the
    /// tiles, row-major by tile position.
    pub fn split_raster(value: &S16Frame) -> (r: (usize, usize, Vec<BLK16Tile>))
        requires
            value.wf(),
            value.width <= 128 * 0xFFFF,
            value.height <= 128 * 0xFFFF,
        ensures
            r.0 == spec_tiles_for(value.width as int),
            r.1 == spec_tiles_for(value.height as int),
            r.0 <= 0xFFFF && r.1 <= 0xFFFF,
            r.2@.len() == r.0 * r.1,
            forall|k: int|
                0 <= k < r.2@.len() ==> {
                    let t = #[trigger] r.2@[k];
                    t.wf() && t.width == 128 && t.height == 128
                },
            forall|tx: int, ty: int, i: int, j: int|
                0 <= tx < r.0 && 0 <= ty < r.1 && 0 <= i < 128 && 0 <= j < 128
                    ==> #[trigger] r.2@[ty * r.0 + tx].spec_pixel(i, j) == (if tx * 128 + i
                    < value.width && ty * 128 + j < value.height {
                    value.spec_pixel(tx * 128 + i, ty * 128 + j)
                } else {
                    0u16
                }),
    {
        let bw = if value.width() % BLK_TILE_SIZE != 0 {
            value.width() / BLK_TILE_SIZE + 1
        } else {
            value.width() / BLK_TILE_SIZE
        };
        let bh = if value.height() % BLK_TILE_SIZE != 0 {
            value.height() / BLK_TILE_SIZE + 1
        } else {
            value.height() / BLK_TILE_SIZE
        };
        proof {
            lemma_multiply_divide_lt(value.width as int, 128, 0x10000int);
            lemma_multiply_divide_lt(value.height as int, 128, 0x10000int);
            if value.width % 128 != 0 {
                assert(value.width as int != 128 * 0xFFFF) by (nonlinear_arith)
                    requires
                        value.width % 128 != 0,
                ;
                assert(value.width < 128 * 0xFFFF);
                lemma_multiply_divide_lt(value.width as int, 128, 0xFFFF as int);
            }
            if value.height % 128 != 0 {
                assert(value.height as int != 128 * 0xFFFF) by (nonlinear_arith)
                    requires
                        value.height % 128 != 0,
                ;
                assert(value.height < 128 * 0xFFFF);
                lemma_multiply_divide_lt(value.height as int, 128, 0xFFFF as int);
            }
            assert(bw * bh <= 0xFFFF * 0xFFFF) by (nonlinear_arith)
                requires
                    bw <= 0xFFFF,
                    bh <= 0xFFFF,
            ;
        }
        let mut blocks: Vec<BLK16Tile> = Vec::new();
        let mut ty: usize = 0;
        while ty < bh
            invariant
                ty <= bh,
                value.wf(),
                bw <= 0xFFFF,
                bh <= 0xFFFF,
                bw == spec_tiles_for(value.width as int),
                bh == spec_tiles_for(value.height as int),
                blocks@.len() == ty * bw,
                forall|k: int|
                    0 <= k < blocks@.len() ==> {
                        let t = #[trigger] blocks@[k];
                        t.wf() && t.width == 128 && t.height == 128
                    },
                forall|txi: int, tyi: int, i: int, j: int|
                    0 <= txi < bw && 0 <= tyi < ty && 0 <= i < 128 && 0 <= j < 128
                        ==> #[trigger] blocks@[tyi * bw + txi].spec_pixel(i, j) == (if txi * 128
                        + i < value.width && tyi * 128 + j < value.height {
                        value.spec_pixel(txi * 128 + i, tyi * 128 + j)
                    } else {
                        0u16
                    }),
            decreases bh - ty,
        {
            let mut tx: usize = 0;
            proof {
                assert((ty + 1) * bw == ty * bw + bw) by (nonlinear_arith);
                assert((ty + 1) * bw <= bh * bw) by (nonlinear_arith)
                    requires
                        ty < bh,
                        bw >= 0,
                ;
            }
            while tx < bw
                invariant
                    tx <= bw,
                    ty < bh,
                    value.wf(),
                    bw <= 0xFFFF,
                    bh <= 0xFFFF,
                    bw == spec_tiles_for(value.width as int),
                    bh == spec_tiles_for(value.height as int),
                    blocks@.len() == ty * bw + tx,
                    forall|k: int|
                        0 <= k < blocks@.len() ==> {
                            let t = #[trigger] blocks@[k];
                            t.wf() && t.width == 128 && t.height == 128
                        },
                    forall|txi: int, tyi: int, i: int, j: int|
                        0 <= txi < bw && 0 <= tyi < ty && 0 <= i < 128 && 0 <= j < 128
                            ==> #[trigger] blocks@[tyi * bw + txi].spec_pixel(i, j) == (if txi
                            * 128 + i < value.width && tyi * 128 + j < value.height {
                            value.spec_pixel(txi * 128 + i, tyi * 128 + j)
                        } else {
                            0u16
                        }),
                    forall|txi: int, i: int, j: int|
                        0 <= txi < tx && 0 <= i < 128 && 0 <= j < 128 ==> #[trigger] blocks@[ty
                            * bw + txi].spec_pixel(i, j) == (if txi * 128 + i < value.width && ty
                            * 128 + j < value.height {
                            value.spec_pixel(txi * 128 + i, ty * 128 + j)
                        } else {
                            0u16
                        }),
                decreases bw - tx,
            {
                let mut tile: BLK16Tile = Raster::new_filled(BLK_TILE_SIZE, BLK_TILE_SIZE, 0u16);
                proof {
                    assert forall|i: int, j: int|
                        0 <= i < 128 && 0 <= j < 128 implies tile.spec_pixel(i, j) == 0u16 by {
                        crate::raster::lemma_grid_index_bound(128, 128, i, j);
                    }
                    // the tile's top-left corner lies inside the frame
                    if value.width % 128 != 0 {
                        assert(tx * 128 < value.width) by (nonlinear_arith)
                            requires
                                tx < spec_tiles_for(value.width as int),
                                spec_tiles_for(value.width as int) == value.width as int / 128 + 1,
                                value.width as int == 128 * (value.width as int / 128) + (
                                value.width as int % 128),
                                value.width % 128 != 0,
                                0 <= value.width as int % 128 < 128,
                        ;
                    } else {
                        assert(tx * 128 < value.width) by (nonlinear_arith)
                            requires
                                tx < spec_tiles_for(value.width as int),
                                spec_tiles_for(value.width as int) == value.width as int / 128,
                                value.width as int == 128 * (value.width as int / 128),
                        ;
                    }
                    if value.height % 128 != 0 {
                        assert(ty * 128 < value.height) by (nonlinear_arith)
                            requires
                                ty < spec_tiles_for(value.height as int),
                                spec_tiles_for(value.height as int) == value.height as int / 128
                                    + 1,
                                value.height as int == 128 * (value.height as int / 128) + (
                                value.height as int % 128),
                                value.height % 128 != 0,
                                0 <= value.height as int % 128 < 128,
                        ;
                    } else {
                        assert(ty * 128 < value.height) by (nonlinear_arith)
                            requires
                                ty < spec_tiles_for(value.height as int),
                                spec_tiles_for(value.height as int) == value.height as int / 128,
                                value.height as int == 128 * (value.height as int / 128),
                        ;
                    }
                    lemma_fundamental_div_mod(value.width as int, 128);
                    lemma_fundamental_div_mod(value.height as int, 128);
                }
                let region = value.region_clipped(
                    tx * BLK_TILE_SIZE,
                    ty * BLK_TILE_SIZE,
                    BLK_TILE_SIZE,
                    BLK_TILE_SIZE,
                );
                let sub = value.subraster(region.x, region.y, region.width, region.height);
                tile.copy(&sub, 0, 0);
                proof {
                    assert forall|i: int, j: int|
                        0 <= i < 128 && 0 <= j < 128 implies #[trigger] tile.spec_pixel(i, j) == (
                        if tx * 128 + i < value.width && ty * 128 + j < value.height {
                            value.spec_pixel(tx * 128 + i, ty * 128 + j)
                        } else {
                            0u16
                        }) by {
                        if i < region.width && j < region.height {
                            assert(tile.spec_pixel(i, j) == sub.spec_pixel(i, j));
                        }
                    }
                }
                blocks.push(tile);
                tx += 1;
                proof {
                    assert forall|txi: int, tyi: int, i: int, j: int|
                        0 <= txi < bw && 0 <= tyi < ty && 0 <= i < 128 && 0 <= j < 128
                            implies #[trigger] blocks@[tyi * bw + txi].spec_pixel(i, j) == (if txi
                            * 128 + i < value.width && tyi * 128 + j < value.height {
                        value.spec_pixel(txi * 128 + i, tyi * 128 + j)
                    } else {
                        0u16
                    }) by {
                        assert(tyi * bw + txi < ty * bw) by (nonlinear_arith)
                            requires
                                0 <= txi < bw,
                                0 <= tyi < ty,
                        ;
                        assert(blocks@[tyi * bw + txi] == blocks@.drop_last()[tyi * bw + txi]);
                    }
                    assert forall|txi: int, i: int, j: int|
                        0 <= txi < tx && 0 <= i < 128 && 0 <= j < 128 implies #[trigger] blocks@[ty
                        * bw + txi].spec_pixel(i, j) == (if txi * 128 + i < value.width && ty * 128
                        + j < value.height {
                        value.spec_pixel(txi * 128 + i, ty * 128 + j)
                    } else {
                        0u16
                    }) by {
                        if txi < tx - 1 {
                            assert(blocks@[ty * bw + txi] == blocks@.drop_last()[ty * bw + txi]);
                        }
                    }
                }
            }
            ty += 1;
            proof {
                assert(ty * bw == (ty - 1) * bw + bw) by (nonlinear_arith);
                assert forall|txi: int, tyi: int, i: int, j: int|
                    0 <= txi < bw && 0 <= tyi < ty && 0 <= i < 128 && 0 <= j < 128
                        implies #[trigger] blocks@[tyi * bw + txi].spec_pixel(i, j) == (if txi
                        * 128 + i < value.width && tyi * 128 + j < value.height {
                    value.spec_pixel(txi * 128 + i, tyi * 128 + j)
                } else {
                    0u16
                }) by {
                    if tyi == ty - 1 {
                        assert(blocks@[(ty - 1) * bw + txi].spec_pixel(i, j) == (if txi * 128 + i
                            < value.width && (ty - 1) * 128 + j < value.height {
                            value.spec_pixel(txi * 128 + i, (ty - 1) * 128 + j)
                        } else {
                            0u16
                        }));
                    }
                }
            }
        }
        proof {
            assert(bh * bw == bw * bh) by (nonlinear_arith);
        }
        (bw, bh, blocks)
    }

    /// Joins a tile grid into one frame by copying each tile at its
    /// grid-scaled position.
    pub fn join_raster(tiles_w: usize, tiles_h: usize, blocks: &Vec<BLK16Tile>) -> (r: S16Frame)
        requires
            tiles_w <= 0xFFFF,
            tiles_h <= 0xFFFF,
            blocks@.len() == tiles_w * tiles_h,
            tiles_w * tiles_h * 16384 <= usize::MAX,
            forall|k: int|
                0 <= k < blocks@.len() ==> {
                    let t = #[trigger] blocks@[k];
                    t.wf() && t.width == 128 && t.height == 128
                },
        ensures
            r.wf(),
            r.width == tiles_w * 128,
            r.height == tiles_h * 128,
            forall|x: int, y: int|
                0 <= x < r.width && 0 <= y < r.height ==> #[trigger] r.spec_pixel(x, y)
                    == blocks@[(y / 128) * tiles_w + (x / 128)].spec_pixel(x % 128, y % 128),
    {
        proof {
            assert((tiles_w * 128) * (tiles_h * 128) == tiles_w * tiles_h * 16384)
                by (nonlinear_arith);
            assert(tiles_w * tiles_h <= tiles_w * tiles_h * 16384) by (nonlinear_arith);
        }
        let w = tiles_w * 128;
        let h = tiles_h * 128;
        let mut raster: S16Frame = Raster::new_filled(w, h, 0u16);
        let mut ty: usize = 0;
        while ty < tiles_h
            invariant
                ty <= tiles_h,
                w == tiles_w * 128,
                h == tiles_h * 128,
                blocks@.len() == tiles_w * tiles_h,
                tiles_w * tiles_h * 16384 <= usize::MAX,
                forall|k: int|
                    0 <= k < blocks@.len() ==> {
                        let t = #[trigger] blocks@[k];
                        t.wf() && t.width == 128 && t.height == 128
                    },
                raster.wf(),
                raster.width == w,
                raster.height == h,
                forall|x: int, y: int|
                    0 <= x < w && 0 <= y < ty * 128 ==> #[trigger] raster.spec_pixel(x, y)
                        == blocks@[(y / 128) * tiles_w + (x / 128)].spec_pixel(x % 128, y % 128),
            decreases tiles_h - ty,
        {
            let mut tx: usize = 0;
            while tx < tiles_w
                invariant
                    tx <= tiles_w,
                    ty < tiles_h,
                    w == tiles_w * 128,
                    h == tiles_h * 128,
                    blocks@.len() == tiles_w * tiles_h,
                    tiles_w * tiles_h * 16384 <= usize::MAX,
                    forall|k: int|
                        0 <= k < blocks@.len() ==> {
                            let t = #[trigger] blocks@[k];
                            t.wf() && t.width == 128 && t.height == 128
                        },
                    raster.wf(),
                    raster.width == w,
                    raster.height == h,
                    forall|x: int, y: int|
                        0 <= x < w && 0 <= y < ty * 128 ==> #[trigger] raster.spec_pixel(x, y)
                            == blocks@[(y / 128) * tiles_w + (x / 128)].spec_pixel(
                            x % 128,
                            y % 128,
                        ),
                    forall|x: int, y: int|
                        0 <= x < tx * 128 && ty * 128 <= y < ty * 128 + 128
                            ==> #[trigger] raster.spec_pixel(x, y) == blocks@[(y / 128) * tiles_w
                            + (x / 128)].spec_pixel(x % 128, y % 128),
                decreases tiles_w - tx,
            {
                proof {
                    crate::raster::lemma_grid_index_bound(
                        tiles_w as int,
                        tiles_h as int,
                        tx as int,
                        ty as int,
                    );
                    assert((tiles_h as int) * (tiles_w as int) == (tiles_w as int) * (tiles_h
                        as int)) by (nonlinear_arith);
                    assert(tx * 128 + 128 <= tiles_w * 128) by (nonlinear_arith)
                        requires
                            tx < tiles_w,
                    ;
                    assert(ty * 128 + 128 <= tiles_h * 128) by (nonlinear_arith)
                        requires
                            ty < tiles_h,
                    ;
                }
                proof {
                    assert(ty * tiles_w + tx < tiles_h * tiles_w) by (nonlinear_arith)
                        requires
                            0 <= tx < tiles_w,
                            0 <= ty < tiles_h,
                    ;
                    assert(tiles_h * tiles_w == tiles_w * tiles_h) by (nonlinear_arith);
                }
                let tile = &blocks[ty * tiles_w + tx];
                let ghost pre = raster;
                raster.copy(tile, tx * BLK_TILE_SIZE, ty * BLK_TILE_SIZE);
                tx += 1;
                proof {
                    assert forall|x: int, y: int|
                        0 <= x < tx * 128 && ty * 128 <= y < ty * 128 + 128
                            implies #[trigger] raster.spec_pixel(x, y) == blocks@[(y / 128)
                            * tiles_w + (x / 128)].spec_pixel(x % 128, y % 128) by {
                        let txp = (tx - 1) as int;
                        if x >= txp * 128 {
                            // the tile just written
                            let i = x - txp * 128;
                            let j = y - ty * 128;
                            assert(raster.spec_pixel(txp * 128 + i, ty * 128 + j)
                                == blocks@[ty as int * tiles_w + txp].spec_pixel(i, j));
                            assert(x / 128 == txp && x % 128 == i) by (nonlinear_arith)
                                requires
                                    x == txp * 128 + i,
                                    0 <= i < 128,
                            ;
                            assert(y / 128 == ty as int && y % 128 == j) by (nonlinear_arith)
                                requires
                                    y == ty as int * 128 + j,
                                    0 <= j < 128,
                            ;
                        } else {
                            // untouched by this copy
                            assert(raster.spec_pixel(x, y) == pre.spec_pixel(x, y));
                            assert(x < txp * 128);
                        }
                    }
                    assert forall|x: int, y: int|
                        0 <= x < w && 0 <= y < ty * 128 implies #[trigger] raster.spec_pixel(x, y)
                            == blocks@[(y / 128) * tiles_w + (x / 128)].spec_pixel(
                            x % 128,
                            y % 128,
                        ) by {
                        assert(raster.spec_pixel(x, y) == pre.spec_pixel(x, y));
                    }
                }
            }
            ty += 1;
            proof {
                assert forall|x: int, y: int|
                    0 <= x < w && 0 <= y < ty * 128 implies #[trigger] raster.spec_pixel(x, y)
                        == blocks@[(y / 128) * tiles_w + (x / 128)].spec_pixel(
                        x % 128,
                        y % 128,
                    ) by {
                    assert((ty - 1) * 128 + 128 == ty * 128) by (nonlinear_arith);
                    if y >= (ty - 1) * 128 {
                        assert(raster.spec_pixel(x, y) == blocks@[(y / 128) * tiles_w + (x
                            / 128)].spec_pixel(x % 128, y % 128));
                    }
                }
            }
        }
        raster
    }
}

/// Splitting a frame into tiles and joining them back reproduces the
/// frame exactly where it reached, zero beyond its far edges, in a frame
/// whose dimensions are the frame's rounded up to tile multiples.  For
/// dimensions already aligned to the tile size the round trip is exact.
pub proof fn lemma_blk_round_trip(value: &Raster<u16>, blk: &BLK16, joined: &Raster<u16>)
    requires
        value.wf(),
        blk.wf(),
        joined.wf(),
        blk.spec_covers(value),
        joined.width == blk.tiles_w * 128,
        joined.height == blk.tiles_h * 128,
        forall|x: int, y: int|
            0 <= x < joined.width && 0 <= y < joined.height ==> #[trigger] joined.spec_pixel(x, y)
                == blk.spec_tile(x / 128, y / 128).spec_pixel(x % 128, y % 128),
    ensures
        value.width <= joined.width && value.height <= joined.height,
        forall|x: int, y: int|
            0 <= x < value.width && 0 <= y < value.height ==> #[trigger] joined.spec_pixel(x, y)
                == value.spec_pixel(x, y),
        forall|x: int, y: int|
            0 <= x < joined.width && 0 <= y < joined.height && !(x < value.width && y
                < value.height) ==> #[trigger] joined.spec_pixel(x, y) == 0u16,
        value.width % 128 == 0 && value.height % 128 == 0 ==> joined.width == value.width
            && joined.height == value.height && joined.pixels@ == value.pixels@,
{
    lemma_fundamental_div_mod(value.width as int, 128);
    lemma_fundamental_div_mod(value.height as int, 128);
    assert(value.width <= spec_tiles_for(value.width as int) * 128) by (nonlinear_arith)
        requires
            value.width as int == 128 * (value.width as int / 128) + (value.width as int % 128),
            0 <= value.width as int % 128 < 128,
            spec_tiles_for(value.width as int) == (if value.width as int % 128 != 0 {
                value.width as int / 128 + 1
            } else {
                value.width as int / 128
            }),
    ;
    assert(value.height <= spec_tiles_for(value.height as int) * 128) by (nonlinear_arith)
        requires
            value.height as int == 128 * (value.height as int / 128) + (value.height as int % 128),
            0 <= value.height as int % 128 < 128,
            spec_tiles_for(value.height as int) == (if value.height as int % 128 != 0 {
                value.height as int / 128 + 1
            } else {
                value.height as int / 128
            }),
    ;
    assert forall|x: int, y: int|
        0 <= x < joined.width && 0 <= y < joined.height implies #[trigger] joined.spec_pixel(x, y)
        == (if x < value.width && y < value.height {
        value.spec_pixel(x, y)
    } else {
        0u16
    }) by {
        let tx = x / 128;
        let ty = y / 128;
        let i = x % 128;
        let j = y % 128;
        lemma_fundamental_div_mod(x, 128);
        lemma_fundamental_div_mod(y, 128);
        lemma_mod_bound(x, 128);
        lemma_mod_bound(y, 128);
        lemma_multiply_divide_lt(x, 128, blk.tiles_w as int);
        lemma_multiply_divide_lt(y, 128, blk.tiles_h as int);
        assert(x == tx * 128 + i && y == ty * 128 + j);
        assert(joined.spec_pixel(x, y) == blk.spec_tile(tx, ty).spec_pixel(i, j));
    }
    if value.width % 128 == 0 && value.height % 128 == 0 {
        assert(joined.width == value.width && joined.height == value.height);
        joined.lemma_pixels_eq(value);
    }
}


/// Identifies a BLK by its magic: BLK files use the flat-sheet magics.
pub fn identify(data: &[u8]) -> (r: Option<BLK16Type>)
    ensures
        r == (if data@.len() >= 4 {
            match CS16Type::spec_of_magic(spec_u32_at(Endianness::Little, data@, 0)) {
                Some(CS16Type::S16(s)) => Some(s),
                _ => None::<BLK16Type>,
            }
        } else {
            None::<BLK16Type>
        }),
{
    if let Ok(val) = Endianness::Little.r_u32(data, 0) {
        if let Some(CS16Type::S16(val)) = CS16Type::of_magic(val) {
            Some(val)
        } else {
            None
        }
    } else {
        None
    }
}

/// BLK header: the variant and the tile-grid dimensions.  The redundant
/// per-tile fields of the stored form are ignored on reading.
pub struct BLK16Header {
    pub variant: BLK16Type,
    pub width: u16,
    pub height: u16,
}

/// The stored per-tile entries: a base field that deliberately walks in
/// sample counts rather than bytes (kept for compatibility with readers
/// that never consult it), and the fixed tile dimensions.
pub open spec fn spec_blk_entries_bytes(e: Endianness, i: int) -> Seq<u8>
    decreases i,
{
    if i <= 0 {
        Seq::empty()
    } else {
        spec_blk_entries_bytes(e, i - 1) + spec_u32_bytes(e, (6 + (i - 1) * 16384) as u32)
            + spec_u16_bytes(e, 128) + spec_u16_bytes(e, 128)
    }
}

/// Stored entries take eight bytes each.
pub proof fn lemma_blk_entries_bytes_len(e: Endianness, i: int)
    requires
        i >= 0,
    ensures
        spec_blk_entries_bytes(e, i).len() == i * 8,
    decreases i,
{
    if i > 0 {
        lemma_blk_entries_bytes_len(e, i - 1);
    }
}

impl BLK16Header {
    /// The header's byte order.
    pub open spec fn spec_endianness(&self) -> Endianness {
        if self.variant.spec_is_be() {
            Endianness::Big
        } else {
            Endianness::Little
        }
    }

    /// The serialized header: the magic (always little-endian), the grid
    /// dimensions, the tile count, then one entry per tile.
    pub open spec fn spec_bytes(&self) -> Seq<u8> {
        let e = self.spec_endianness();
        spec_u32_bytes(Endianness::Little, self.variant.spec_magic()) + spec_u16_bytes(
            e,
            self.width,
        ) + spec_u16_bytes(e, self.height) + spec_u16_bytes(
            e,
            (self.width * self.height) as u16,
        ) + spec_blk_entries_bytes(e, self.width as int * self.height as int)
    }

    /// Gets the size of the serialized header.
    pub fn size(&self) -> (r: usize)
        requires
            self.width * self.height <= 0xFFFF,
        ensures
            r == 10 + (self.width as int) * (self.height as int) * 8,
            r == self.spec_bytes().len(),
    {
        proof {
            lemma_blk_entries_bytes_len(
                self.spec_endianness(),
                self.width as int * self.height as int,
            );
        }
        10 + ((self.width as usize) * (self.height as usize) * 8)
    }

    /// Header as bytes.
    pub fn to_bytes(&self) -> (r: Vec<u8>)
        requires
            self.width * self.height <= 0xFFFF,
        ensures
            r@ == self.spec_bytes(),
    {
        let endianness = if self.variant.is_be() {
            Endianness::Big
        } else {
            Endianness::Little
        };
        let mut data: Vec<u8> = Vec::new();
        Endianness::Little.push_u32(&mut data, self.variant.magic());
        let imgc = (self.width as usize) * (self.height as usize);
        endianness.push_u16(&mut data, self.width);
        endianness.push_u16(&mut data, self.height);
        endianness.push_u16(&mut data, imgc as u16);
        let ghost prefix = data@;
        let mut calculated_base: usize = 6;
        let mut i: usize = 0;
        proof {
            assert(data@ =~= prefix + spec_blk_entries_bytes(endianness, 0));
        }
        while i < imgc
            invariant
                i <= imgc,
                imgc <= 0xFFFF,
                endianness == self.spec_endianness(),
                calculated_base == 6 + i * 16384,
                data@ == prefix + spec_blk_entries_bytes(endianness, i as int),
            decreases imgc - i,
        {
            proof {
                assert(6 + (i + 1) * 16384 <= 6 + 0x10000 * 16384) by (nonlinear_arith)
                    requires
                        i < 0x10000,
                ;
                assert((i + 1) * 16384 == i * 16384 + 16384) by (nonlinear_arith);
            }
            endianness.push_u32(&mut data, calculated_base as u32);
            endianness.push_u16(&mut data, 128);
            endianness.push_u16(&mut data, 128);
            calculated_base = calculated_base + 16384;
            i += 1;
            proof {
                assert(data@ =~= prefix + spec_blk_entries_bytes(endianness, i as int));
            }
        }
        proof {
            assert(data@ =~= self.spec_bytes());
        }
        data
    }
}

/// Reads the header of a BLK file.  Fails exactly when the dimension
/// fields run past the end of the data.
pub fn headers(t: BLK16Type, data: &[u8]) -> (r: Result<BLK16Header, ()>)
    ensures
        match r {
            Ok(h) => {
                let e = h.spec_endianness();
                &&& data@.len() >= 8
                &&& h.variant == t
                &&& h.width == spec_u16_at(e, data@, 4)
                &&& h.height == spec_u16_at(e, data@, 6)
            },
            Err(_) => data@.len() < 8,
        },
{
    let endianness = t.endianness();
    let width = match endianness.r_u16(data, 4) {
        Ok(v) => v,
        Err(_) => {
            return Err(());
        },
    };
    let height = match endianness.r_u16(data, 6) {
        Ok(v) => v,
        Err(_) => {
            return Err(());
        },
    };
    Ok(BLK16Header { variant: t, width, height })
}

/// The byte position of pixel `(i, j)` of the tile at grid position
/// `(tx, ty)` in a BLK file whose tile payload starts at `hsize`: tiles
/// are stored column by column, pixels row-major inside each tile.
pub open spec fn spec_blk_pixel_pos(hsize: int, tiles_h: int, tx: int, ty: int, i: int, j: int) -> int {
    hsize + (tx * tiles_h + ty) * 32768 + (j * 128 + i) * 2
}

/// Reads the tiles of a BLK file.  Fails exactly when the payload the
/// header promises runs past the end of the data.
pub fn read_blk(header: &BLK16Header, data: &[u8]) -> (r: Result<BLK16, ()>)
    requires
        header.width * header.height <= 0xFFFF,
    ensures
        match r {
            Ok(blk) => {
                let e = header.spec_endianness();
                let hsize = 10 + (header.width as int) * (header.height as int) * 8;
                &&& blk.wf()
                &&& blk.variant == header.variant
                &&& blk.tiles_w == header.width
                &&& blk.tiles_h == header.height
                &&& forall|tx: int, ty: int, i: int, j: int|
                    0 <= tx < blk.tiles_w && 0 <= ty < blk.tiles_h && 0 <= i < 128 && 0 <= j < 128
                        ==> #[trigger] blk.spec_tile(tx, ty).spec_pixel(i, j) == spec_u16_at(
                        e,
                        data@,
                        spec_blk_pixel_pos(hsize, blk.tiles_h as int, tx, ty, i, j),
                    )
            },
            Err(_) => 10 + (header.width as int) * (header.height as int) * 8 + (header.width
                as int) * (header.height as int) * 32768 > data@.len(),
        },
{
    let e = header.variant.endianness();
    let w = header.width as usize;
    let h = header.height as usize;
    let imgc: u64 = (w as u64) * (h as u64);
    let need: u64 = 10 + imgc * 8 + imgc * 32768;
    if (data.len() as u64) < need {
        return Err(());
    }
    proof {
        assert(w * h * 16384 <= usize::MAX);
        assert(w * h <= w * h * 16384) by (nonlinear_arith);
    }
    let hsize = 10 + w * h * 8;
    let dlen = data.len();
    // start with an all-zero grid, then fill each tile in file order
    let mut blocks: Vec<BLK16Tile> = Vec::new();
    let mut k: usize = 0;
    while k < w * h
        invariant
            k <= w * h,
            w * h <= 0xFFFF,
            blocks@.len() == k,
            forall|q: int|
                0 <= q < blocks@.len() ==> {
                    let tl = #[trigger] blocks@[q];
                    tl.wf() && tl.width == 128 && tl.height == 128
                },
        decreases w * h - k,
    {
        let tile: BLK16Tile = Raster::new_filled(128, 128, 0u16);
        blocks.push(tile);
        k += 1;
    }
    let ghost hs = hsize as int;
    let mut x: usize = 0;
    while x < w
        invariant
            x <= w,
            w == header.width as usize,
            h == header.height as usize,
            w * h <= 0xFFFF,
            hsize == 10 + w * h * 8,
            data@.len() == dlen,
            hs == hsize as int,
            10 + (w as int) * (h as int) * 8 + (w as int) * (h as int) * 32768 <= data@.len(),
            e == header.spec_endianness(),
            blocks@.len() == w * h,
            forall|q: int|
                0 <= q < blocks@.len() ==> {
                    let tl = #[trigger] blocks@[q];
                    tl.wf() && tl.width == 128 && tl.height == 128
                },
            forall|txi: int, tyi: int, i: int, j: int|
                0 <= txi < x && 0 <= tyi < h && 0 <= i < 128 && 0 <= j < 128
                    ==> #[trigger] blocks@[tyi * w + txi].spec_pixel(i, j) == spec_u16_at(
                    e,
                    data@,
                    spec_blk_pixel_pos(hs, h as int, txi, tyi, i, j),
                ),
        decreases w - x,
    {
        let mut y: usize = 0;
        while y < h
            invariant
                y <= h,
                x < w,
                w == header.width as usize,
                h == header.height as usize,
                w * h <= 0xFFFF,
                hsize == 10 + w * h * 8,
                data@.len() == dlen,
                hs == hsize as int,
                10 + (w as int) * (h as int) * 8 + (w as int) * (h as int) * 32768 <= data@.len(),
                e == header.spec_endianness(),
                blocks@.len() == w * h,
                forall|q: int|
                    0 <= q < blocks@.len() ==> {
                        let tl = #[trigger] blocks@[q];
                        tl.wf() && tl.width == 128 && tl.height == 128
                    },
                forall|txi: int, tyi: int, i: int, j: int|
                    0 <= txi < x && 0 <= tyi < h && 0 <= i < 128 && 0 <= j < 128
                        ==> #[trigger] blocks@[tyi * w + txi].spec_pixel(i, j) == spec_u16_at(
                        e,
                        data@,
                        spec_blk_pixel_pos(hs, h as int, txi, tyi, i, j),
                    ),
                forall|tyi: int, i: int, j: int|
                    0 <= tyi < y && 0 <= i < 128 && 0 <= j < 128 ==> #[trigger] blocks@[tyi * w
                        + x].spec_pixel(i, j) == spec_u16_at(
                        e,
                        data@,
                        spec_blk_pixel_pos(hs, h as int, x as int, tyi, i, j),
                    ),
            decreases h - y,
        {
            proof {
                assert(x * h + y < w * h) by (nonlinear_arith)
                    requires
                        0 <= x < w,
                        0 <= y < h,
                ;
                assert((x * h + y) * 32768 + 32768 <= (w as int) * (h as int) * 32768)
                    by (nonlinear_arith)
                    requires
                        x * h + y < (w as int) * (h as int),
                ;
            }
            let tbase = hsize + (x * h + y) * 32768;
            let mut tile: BLK16Tile = Raster::new_filled(128, 128, 0u16);
            proof {
                assert forall|i: int, j: int|
                    0 <= i < 128 && 0 <= j < 128 implies tile.spec_pixel(i, j) == 0u16 by {
                    crate::raster::lemma_grid_index_bound(128, 128, i, j);
                }
            }
            let mut j: usize = 0;
            while j < 128
                invariant
                    j <= 128,
                    tbase == hs + (x as int * h + y) * 32768,
                    tbase + 32768 <= data@.len(),
                    data@.len() == dlen,
                    e == header.spec_endianness(),
                    tile.wf(),
                    tile.width == 128,
                    tile.height == 128,
                    forall|ii: int, jj: int|
                        0 <= ii < 128 && 0 <= jj < j ==> #[trigger] tile.spec_pixel(ii, jj)
                            == spec_u16_at(e, data@, tbase + (jj * 128 + ii) * 2),
                decreases 128 - j,
            {
                let mut i: usize = 0;
                while i < 128
                    invariant
                        i <= 128,
                        j < 128,
                        tbase == hs + (x as int * h + y) * 32768,
                        tbase + 32768 <= data@.len(),
                        data@.len() == dlen,
                        e == header.spec_endianness(),
                        tile.wf(),
                        tile.width == 128,
                        tile.height == 128,
                        forall|ii: int, jj: int|
                            0 <= ii < 128 && 0 <= jj < j ==> #[trigger] tile.spec_pixel(ii, jj)
                                == spec_u16_at(e, data@, tbase + (jj * 128 + ii) * 2),
                        forall|ii: int|
                            0 <= ii < i ==> #[trigger] tile.spec_pixel(ii, j as int)
                                == spec_u16_at(e, data@, tbase + (j as int * 128 + ii) * 2),
                    decreases 128 - i,
                {
                    let pos = tbase + (j * 128 + i) * 2;
                    let v = match e.r_u16(data, pos) {
                        Ok(v) => v,
                        Err(_) => {
                            proof {
                                assert(false);
                            }
                            return Err(());
                        },
                    };
                    tile.set_pixel(i, j, v);
                    i += 1;
                }
                j += 1;
            }
            let ghost pre = blocks@;
            proof {
                crate::raster::lemma_grid_index_bound(w as int, h as int, x as int, y as int);
                assert((h as int) * (w as int) == (w as int) * (h as int)) by (nonlinear_arith);
            }
            blocks.set(y * w + x, tile);
            y += 1;
            proof {
                assert forall|txi: int, tyi: int, i: int, j: int|
                    0 <= txi < x && 0 <= tyi < h && 0 <= i < 128 && 0 <= j < 128
                        implies #[trigger] blocks@[tyi * w + txi].spec_pixel(i, j) == spec_u16_at(
                    e,
                    data@,
                    spec_blk_pixel_pos(hs, h as int, txi, tyi, i, j),
                ) by {
                    crate::raster::lemma_grid_index_injective(
                        w as int,
                        txi,
                        tyi,
                        x as int,
                        (y - 1) as int,
                    );
                    crate::raster::lemma_grid_index_bound(w as int, h as int, txi, tyi);
                    assert((h as int) * (w as int) == (w as int) * (h as int))
                        by (nonlinear_arith);
                    assert(blocks@[tyi * w + txi] == pre[tyi * w + txi]);
                }
                assert forall|tyi: int, i: int, j: int|
                    0 <= tyi < y && 0 <= i < 128 && 0 <= j < 128 implies #[trigger] blocks@[tyi * w
                    + x].spec_pixel(i, j) == spec_u16_at(
                    e,
                    data@,
                    spec_blk_pixel_pos(hs, h as int, x as int, tyi, i, j),
                ) by {
                    if tyi < y - 1 {
                        crate::raster::lemma_grid_index_injective(
                            w as int,
                            x as int,
                            tyi,
                            x as int,
                            (y - 1) as int,
                        );
                        crate::raster::lemma_grid_index_bound(w as int, h as int, x as int, tyi);
                        assert((h as int) * (w as int) == (w as int) * (h as int))
                            by (nonlinear_arith);
                        assert(blocks@[tyi * w + x] == pre[tyi * w + x]);
                    }
                }
            }
        }
        x += 1;
    }
    let blk = BLK16 { variant: header.variant, tiles_w: w, tiles_h: h, blocks };
    proof {
        assert forall|tx: int, ty: int, i: int, j: int|
            0 <= tx < blk.tiles_w && 0 <= ty < blk.tiles_h && 0 <= i < 128 && 0 <= j < 128
                implies #[trigger] blk.spec_tile(tx, ty).spec_pixel(i, j) == spec_u16_at(
            e,
            data@,
            spec_blk_pixel_pos(hs, h as int, tx, ty, i, j),
        ) by {
            assert(blk.spec_tile(tx, ty) == blocks@[ty * w + tx]);
        }
    }
    Ok(blk)
}

/// The stored bytes of the first `k` tiles in file (column-major) order.
pub open spec fn spec_blk_payload(e: Endianness, blk: BLK16, k: int) -> Seq<u8>
    decreases k,
{
    if k <= 0 {
        Seq::empty()
    } else {
        spec_blk_payload(e, blk, k - 1) + spec_frame_pixel_bytes(
            e,
            blk.spec_tile((k - 1) / (blk.tiles_h as int), (k - 1) % (blk.tiles_h as int)),
            128,
        )
    }
}

/// The bytes a BLK file builds to: the header, then the tiles column by
/// column, each tile's pixels row-major.
pub open spec fn spec_build_blk(blk: BLK16) -> Seq<u8> {
    let e = if blk.variant.spec_is_be() {
        Endianness::Big
    } else {
        Endianness::Little
    };
    (BLK16Header {
        variant: blk.variant,
        width: blk.tiles_w as u16,
        height: blk.tiles_h as u16,
    }).spec_bytes() + spec_blk_payload(e, blk, blk.tiles_w as int * blk.tiles_h as int)
}

/// Builds the bytes of a BLK file.
pub fn build_blk(blk: BLK16) -> (r: Vec<u8>)
    requires
        blk.wf(),
        blk.tiles_w * blk.tiles_h <= 0xFFFF,
    ensures
        r@ == spec_build_blk(blk),
{
    let header = BLK16Header {
        variant: blk.variant,
        width: blk.tiles_w as u16,
        height: blk.tiles_h as u16,
    };
    let mut data = header.to_bytes();
    let endianness = blk.variant.endianness();
    let ghost e = header.spec_endianness();
    let ghost prefix = data@;
    let w = blk.tiles_w;
    let h = blk.tiles_h;
    let mut x: usize = 0;
    proof {
        assert(data@ =~= prefix + spec_blk_payload(e, blk, 0));
        assert(0 * (h as int) == 0) by (nonlinear_arith);
    }
    while x < w
        invariant
            x <= w,
            w == blk.tiles_w,
            h == blk.tiles_h,
            blk.wf(),
            w * h <= 0xFFFF,
            endianness == e,
            data@ == prefix + spec_blk_payload(e, blk, (x as int) * (h as int)),
        decreases w - x,
    {
        let mut y: usize = 0;
        while y < h
            invariant
                y <= h,
                x < w,
                w == blk.tiles_w,
                h == blk.tiles_h,
                blk.wf(),
                w * h <= 0xFFFF,
                endianness == e,
                data@ == prefix + spec_blk_payload(e, blk, (x as int) * (h as int) + y),
            decreases h - y,
        {
            proof {
                crate::raster::lemma_grid_index_bound(w as int, h as int, x as int, y as int);
                assert((h as int) * (w as int) == (w as int) * (h as int)) by (nonlinear_arith);
                assert((x as int) * (h as int) + y < (w as int) * (h as int)) by (nonlinear_arith)
                    requires
                        0 <= x < w,
                        0 <= y < h,
                ;
            }
            let tile = &blk.blocks[y * w + x];
            let ghost tprefix = data@;
            let ghost k = (x as int) * (h as int) + y + 1;
            proof {
                vstd::arithmetic::div_mod::lemma_fundamental_div_mod_converse(
                    k - 1,
                    h as int,
                    x as int,
                    y as int,
                );
                assert(blk.spec_tile((k - 1) / (h as int), (k - 1) % (h as int)) == blk.spec_tile(
                    x as int,
                    y as int,
                ));
                assert(blk.spec_tile(x as int, y as int) == blk.blocks@[(y as int) * w + x]);
                assert(data@ =~= tprefix + spec_frame_pixel_bytes(e, *tile, 0));
            }
            let mut yy: usize = 0;
            while yy < 128
                invariant
                    yy <= 128,
                    endianness == e,
                    tile.wf(),
                    tile.width == 128,
                    tile.height == 128,
                    data@ == tprefix + spec_frame_pixel_bytes(e, *tile, yy as int),
                decreases 128 - yy,
            {
                let rowv = tile.row(yy);
                let ghost rprefix = data@;
                let mut kk: usize = 0;
                proof {
                    assert(rowv@.take(0) =~= Seq::<u16>::empty());
                    assert(data@ =~= rprefix + spec_u16s_bytes(e, rowv@.take(0)));
                }
                while kk < rowv.len()
                    invariant
                        kk <= rowv@.len(),
                        endianness == e,
                        data@ == rprefix + spec_u16s_bytes(e, rowv@.take(kk as int)),
                    decreases rowv@.len() - kk,
                {
                    endianness.push_u16(&mut data, rowv[kk]);
                    kk += 1;
                    proof {
                        let tk = rowv@.take(kk as int);
                        assert(tk.drop_last() =~= rowv@.take(kk - 1));
                        assert(tk.last() == rowv@[kk - 1]);
                        assert(data@ =~= rprefix + spec_u16s_bytes(e, tk));
                    }
                }
                yy += 1;
                proof {
                    assert(rowv@.take(rowv@.len() as int) =~= rowv@);
                    assert(rowv@ == tile.spec_row(yy - 1));
                }
            }
            y += 1;
            proof {
                assert(data@ =~= prefix + spec_blk_payload(e, blk, (x as int) * (h as int) + y));
            }
        }
        x += 1;
        proof {
            assert((x as int) * (h as int) == (x - 1) * (h as int) + h) by (nonlinear_arith);
        }
    }
    proof {
        assert(data@ =~= spec_build_blk(blk));
    }
    data
}

} // verus!
