//! Ordered dithering: dither patterns (threshold matrices, multiplicative
//! composition, and a deterministic hash pattern) and the bit-depth
//! reduction methods built on them.

use vstd::prelude::*;
use vstd::arithmetic::power2::pow2;
use vstd::arithmetic::div_mod::{
    lemma_div_by_multiple, lemma_mod_multiples_basic, lemma_multiply_divide_le,
    lemma_multiply_divide_lt,
};
use vstd::std_specs::hash::DefaultHasherAdditionalSpecFns;
use std::collections::hash_map::DefaultHasher;
use std::hash::Hasher;
use crate::bitcopy::{
    bitcopy_interpolation_table, spec_bitcopy, spec_field, BitCopyField, BitCopyInterpolation,
};
use crate::raster::{lemma_grid_index_bound, Raster};

verus! {

/// The `n` little-endian bytes of `v`.
pub open spec fn spec_le_bytes(v: nat, n: nat) -> Seq<u8>
    decreases n,
{
    if n == 0 {
        Seq::empty()
    } else {
        seq![(v % 256) as u8] + spec_le_bytes(v / 256, (n - 1) as nat)
    }
}

/// The deterministic hash that the random pattern derives from a
/// position and a level: the standard hasher run over their byte
/// renderings in that order, which makes it order-sensitive.
pub open spec fn spec_coord_hash(x: nat, y: nat, level: nat) -> u64 {
    DefaultHasher::spec_finish(
        seq![spec_le_bytes(x, 8), spec_le_bytes(y, 8), spec_le_bytes(level, 8)],
    )
}

/// The eight little-endian bytes of a word.
fn le_bytes(v: u64) -> (r: Vec<u8>)
    ensures
        r@ == spec_le_bytes(v as nat, 8),
{
    let mut out: Vec<u8> = Vec::new();
    let mut t: u64 = v;
    let mut i: usize = 0;
    while i < 8
        invariant
            i <= 8,
            out@.len() == i,
            spec_le_bytes(v as nat, 8) == out@ + spec_le_bytes(t as nat, (8 - i) as nat),
        decreases 8 - i,
    {
        let ghost pre = out@;
        let ghost pre_t = t as nat;
        out.push((t % 256) as u8);
        t = t / 256;
        i += 1;
        proof {
            assert(spec_le_bytes(pre_t, (8 - i + 1) as nat) == seq![(pre_t % 256) as u8]
                + spec_le_bytes(pre_t / 256, (8 - i) as nat));
            assert(out@ + spec_le_bytes(t as nat, (8 - i) as nat) =~= pre + spec_le_bytes(
                pre_t,
                (8 - i + 1) as nat,
            ));
        }
    }
    proof {
        assert(out@ =~= spec_le_bytes(v as nat, 8));
    }
    out
}

/// Hashes a position and level deterministically; relies on the standard
/// hasher's documented property that hashers made by `new` behave alike.
fn coord_hash(x: usize, y: usize, level: usize) -> (r: u64)
    ensures
        r == spec_coord_hash(x as nat, y as nat, level as nat),
{
    let mut sh = DefaultHasher::new();
    let xb = le_bytes(x as u64);
    let yb = le_bytes(y as u64);
    let lb = le_bytes(level as u64);
    sh.write(xb.as_slice());
    sh.write(yb.as_slice());
    sh.write(lb.as_slice());
    proof {
        assert(sh@ =~= seq![
            spec_le_bytes(x as nat, 8),
            spec_le_bytes(y as nat, 8),
            spec_le_bytes(level as nat, 8),
        ]);
    }
    sh.finish()
}

/// A dither pattern: a spatial rule that decides, for a position and a
/// quantization level, whether to round up.  Levels run from 0 (never
/// round up) to `levels()` inclusive (always round up).
pub enum DitherPattern {
    /// A fixed tile of thresholds with the given period, looked up at
    /// `(x mod tile_w, y mod tile_h)` and compared against the level.
    Static { tile_w: usize, tile_h: usize, cells: Vec<usize> },
    /// The product of an outer and an inner pattern: the inner pattern
    /// decides whether the outer base level is nudged up one step.
    Multiply(Box<DitherPattern>, Box<DitherPattern>),
    /// A deterministic 256-level pattern driven by a positional hash.
    Random,
}

impl DitherPattern {
    /// Thresholds fill the tile exactly and stay within `1 ..= levels`,
    /// and level counts stay small enough for the level arithmetic.
    pub open spec fn wf(&self) -> bool
        decreases self,
    {
        match self {
            DitherPattern::Static { tile_w, tile_h, cells } => {
                &&& *tile_w >= 1
                &&& *tile_h >= 1
                &&& (*tile_w) * (*tile_h) <= 0xFFFF
                &&& cells@.len() == (*tile_w) * (*tile_h)
                &&& forall|i: int|
                    0 <= i < cells@.len() ==> 1 <= #[trigger] cells@[i] <= (*tile_w) * (*tile_h)
            },
            DitherPattern::Multiply(a, b) => {
                &&& a.wf()
                &&& b.wf()
                &&& a.spec_levels() * b.spec_levels() <= 0xFFFF
            },
            DitherPattern::Random => true,
        }
    }

    /// The number of levels of this pattern.
    pub open spec fn spec_levels(&self) -> nat
        decreases self,
    {
        match self {
            DitherPattern::Static { tile_w, tile_h, .. } => ((*tile_w) * (*tile_h)) as nat,
            DitherPattern::Multiply(a, b) => a.spec_levels() * b.spec_levels(),
            DitherPattern::Random => 256,
        }
    }

    /// Whether position `(x, y)` rounds up at the given level.
    pub open spec fn spec_get(&self, x: nat, y: nat, level: nat) -> bool
        decreases self,
    {
        match self {
            DitherPattern::Static { tile_w, tile_h, cells } => {
                level >= cells@[(x % (*tile_w as nat) + (y % (*tile_h as nat)) * (*tile_w
                    as nat)) as int]
            },
            DitherPattern::Multiply(a, b) => {
                let div = b.spec_levels();
                let inner = b.spec_get(x, y, level % div);
                let outer_base = level / div;
                if inner {
                    a.spec_get(x, y, outer_base + 1)
                } else {
                    a.spec_get(x, y, outer_base)
                }
            },
            DitherPattern::Random => level > (spec_coord_hash(x, y, level) & 0xFF),
        }
    }

    /// A well-formed pattern has at least one level.
    pub proof fn lemma_levels_pos(&self)
        requires
            self.wf(),
        ensures
            1 <= self.spec_levels() <= 0xFFFF,
        decreases self,
    {
        match self {
            DitherPattern::Static { tile_w, tile_h, .. } => {
                assert((*tile_w) * (*tile_h) >= 1) by (nonlinear_arith)
                    requires
                        *tile_w >= 1,
                        *tile_h >= 1,
                ;
            },
            DitherPattern::Multiply(a, b) => {
                a.lemma_levels_pos();
                b.lemma_levels_pos();
                assert(a.spec_levels() * b.spec_levels() >= 1) by (nonlinear_arith)
                    requires
                        a.spec_levels() >= 1,
                        b.spec_levels() >= 1,
                ;
            },
            DitherPattern::Random => {},
        }
    }

    /// Amount of levels in this pattern.
    pub fn levels(&self) -> (r: usize)
        requires
            self.wf(),
        ensures
            r == self.spec_levels(),
            1 <= r <= 0xFFFF,
        decreases self,
    {
        proof {
            self.lemma_levels_pos();
        }
        match self {
            DitherPattern::Static { tile_w, tile_h, .. } => *tile_w * *tile_h,
            DitherPattern::Multiply(a, b) => a.levels() * b.levels(),
            DitherPattern::Random => 256,
        }
    }

    /// For the given absolute position (looping is handled internally)
    /// and a level in `0 ..= levels()`, returns the pattern's decision.
    pub fn get(&self, x: usize, y: usize, level: usize) -> (r: bool)
        requires
            self.wf(),
            level <= self.spec_levels(),
        ensures
            r == self.spec_get(x as nat, y as nat, level as nat),
        decreases self,
    {
        match self {
            DitherPattern::Static { tile_w, tile_h, cells } => {
                proof {
                    lemma_grid_index_bound(
                        *tile_w as int,
                        *tile_h as int,
                        (x % *tile_w) as int,
                        (y % *tile_h) as int,
                    );
                    assert((*tile_h as int) * (*tile_w as int) == (*tile_w as int) * (*tile_h
                        as int)) by (nonlinear_arith);
                }
                level >= cells[(x % *tile_w) + ((y % *tile_h) * *tile_w)]
            },
            DitherPattern::Multiply(a, b) => {
                proof {
                    a.lemma_levels_pos();
                    b.lemma_levels_pos();
                }
                let div = b.levels();
                let inner_bool = b.get(x, y, level % div);
                let outer_level_base = level / div;
                proof {
                    assert(a.spec_levels() * div == div * a.spec_levels()) by (nonlinear_arith);
                    lemma_multiply_divide_le(
                        level as int,
                        div as int,
                        a.spec_levels() as int,
                    );
                }
                if inner_bool {
                    proof {
                        // the inner pattern rejects level 0, so a true inner
                        // decision means the level is not a multiple boundary
                        b.lemma_dither_pattern_bounds(x as nat, y as nat);
                        assert(level % div != 0);
                        lemma_mod_multiples_basic(a.spec_levels() as int, div as int);
                        assert(level < a.spec_levels() * div) by {
                            assert(level != a.spec_levels() * div);
                        }
                        assert(level < div * a.spec_levels()) by (nonlinear_arith)
                            requires
                                level < a.spec_levels() * div,
                        ;
                        lemma_multiply_divide_lt(
                            level as int,
                            div as int,
                            a.spec_levels() as int,
                        );
                    }
                    a.get(x, y, outer_level_base + 1)
                } else {
                    a.get(x, y, outer_level_base)
                }
            },
            DitherPattern::Random => {
                let h = coord_hash(x, y, level);
                (level as u64) > (h & 0xFF)
            },
        }
    }

    /// At level 0 a pattern never rounds up; at its full level count it
    /// always does.  This holds of every well-formed pattern at every
    /// position.
    pub proof fn lemma_dither_pattern_bounds(&self, x: nat, y: nat)
        requires
            self.wf(),
        ensures
            !self.spec_get(x, y, 0),
            self.spec_get(x, y, self.spec_levels()),
        decreases self,
    {
        match self {
            DitherPattern::Static { tile_w, tile_h, cells } => {
                let w = *tile_w as nat;
                let h = *tile_h as nat;
                lemma_grid_index_bound(w as int, h as int, (x % w) as int, (y % h) as int);
                assert((h as int) * (w as int) == (w as int) * (h as int)) by (nonlinear_arith);
                assert(1 <= cells@[(x % w + (y % h) * w) as int] <= (*tile_w) * (*tile_h));
            },
            DitherPattern::Multiply(a, b) => {
                a.lemma_levels_pos();
                b.lemma_levels_pos();
                a.lemma_dither_pattern_bounds(x, y);
                b.lemma_dither_pattern_bounds(x, y);
                let al = a.spec_levels();
                let bl = b.spec_levels();
                lemma_mod_multiples_basic(al as int, bl as int);
                lemma_div_by_multiple(al as int, bl as int);
                assert((al * bl) % bl == 0);
                assert((al * bl) / bl == al);
            },
            DitherPattern::Random => {
                let h0 = spec_coord_hash(x, y, 0);
                let hl = spec_coord_hash(x, y, 256);
                assert(hl & 0xFF < 256) by (bit_vector);
            },
        }
    }
}

/// The level a fractional interpolation position maps to in a pattern's
/// level space, rounded to the nearest level (half rounds up).
pub open spec fn spec_dither_level(levels: nat, e: BitCopyInterpolation) -> nat {
    ((((e.frac_num * levels * 2) as int / (e.frac_div as int)) + 1) / 2) as nat
}

/// What one 8-bit sample becomes under a pattern dither to the given bit
/// depth: the bracket endpoint that the pattern picks at this position.
pub open spec fn spec_dithered(
    p: DitherPattern,
    bits: usize,
    is_alpha: bool,
    x: nat,
    y: nat,
    v: u8,
) -> u8 {
    let e = spec_field(bits, 8).spec_interpolation(v as nat, !is_alpha);
    if p.spec_get(x, y, spec_dither_level(p.spec_levels(), e)) {
        e.to as u8
    } else {
        e.from as u8
    }
}

/// A method of dithering an 8-bit channel down to a bit count.  The
/// result always consists of bitcopied (replicated) values, so decoded
/// previews match a lossless round trip.
pub enum BitDitherMethod {
    /// Always emits the bitcopy-floored value; lossless on decode output.
    Floor,
    /// Runs a dither pattern over the interpolation table.
    Pattern(DitherPattern),
}

impl BitDitherMethod {
    /// The pattern inside, if any, is well formed.
    pub open spec fn wf(&self) -> bool {
        match self {
            BitDitherMethod::Floor => true,
            BitDitherMethod::Pattern(p) => p.wf(),
        }
    }

    /// What one sample becomes under this method.
    pub open spec fn spec_run_pixel(&self, bits: usize, is_alpha: bool, x: nat, y: nat, v: u8) -> u8 {
        match self {
            BitDitherMethod::Floor => spec_bitcopy(bits as nat, 8, v as nat) as u8,
            BitDitherMethod::Pattern(p) => spec_dithered(*p, bits, is_alpha, x, y, v),
        }
    }

    /// Dithers an 8-bit channel down to `bits` bits.  Colour channels
    /// interpolate in linear light; alpha channels (`is_alpha`)
    /// interpolate directly.
    pub fn run(&self, input: Raster<u8>, bits: u8, is_alpha: bool) -> (r: Raster<u8>)
        requires
            self.wf(),
            input.wf(),
            bits <= 8,
        ensures
            r.wf(),
            r.width == input.width,
            r.height == input.height,
            forall|x: int, y: int|
                0 <= x < input.width && 0 <= y < input.height ==> #[trigger] r.spec_pixel(x, y)
                    == self.spec_run_pixel(
                    bits as usize,
                    is_alpha,
                    x as nat,
                    y as nat,
                    input.spec_pixel(x, y),
                ),
    {
        let mut work = input;
        match self {
            BitDitherMethod::Floor => {
                let bcf = BitCopyField::new(bits as usize, 8);
                proof {
                    vstd::arithmetic::power2::lemma2_to64();
                }
                let f = |x: usize, y: usize, v: u8| -> (p: u8)
                    requires
                        bcf.wf(),
                        bcf.bits == bits as usize,
                        bcf.container == 8,
                        pow2(8) == 256,
                    ensures
                        p == spec_bitcopy(bits as nat, 8, v as nat) as u8,
                    { bcf.bitcopy(v as usize) as u8 };
                work.map_inplace(&f);
                proof {
                    assert forall|x: int, y: int|
                        0 <= x < work.width && 0 <= y < work.height implies #[trigger] work
                        .spec_pixel(x, y) == self.spec_run_pixel(
                        bits as usize,
                        is_alpha,
                        x as nat,
                        y as nat,
                        input.spec_pixel(x, y),
                    ) by {
                        assert(call_ensures(
                            f,
                            (x as usize, y as usize, input.spec_pixel(x, y)),
                            work.spec_pixel(x, y),
                        ));
                    }
                }
            },
            BitDitherMethod::Pattern(p) => {
                let table = bitcopy_interpolation_table(bits as usize, !is_alpha);
                let levels = p.levels();
                let f = |x: usize, y: usize, v: u8| -> (res: u8)
                    requires
                        p.wf(),
                        levels == p.spec_levels(),
                        1 <= levels <= 0xFFFF,
                        table@.len() == 256,
                        forall|i: int|
                            0 <= i < 256 ==> table@[i] == spec_field(
                                bits as usize,
                                8,
                            ).spec_interpolation(i as nat, !is_alpha),
                        forall|i: int|
                            0 <= i < 256 ==> {
                                let e = #[trigger] table@[i];
                                &&& e.frac_num <= e.frac_div
                                &&& 1 <= e.frac_div <= 256
                                &&& e.from < 256
                                &&& e.to < 256
                            },
                    ensures
                        res == spec_dithered(*p, bits as usize, is_alpha, x as nat, y as nat, v),
                    {
                        let ie = table[v as usize];
                        proof {
                            assert(ie.frac_num * levels <= 256 * 0xFFFF) by (nonlinear_arith)
                                requires
                                    ie.frac_num <= 256,
                                    levels <= 0xFFFF,
                            ;
                            assert(ie.frac_num * levels * 2 <= ie.frac_div * (levels * 2))
                                by (nonlinear_arith)
                                requires
                                    ie.frac_num <= ie.frac_div,
                                    levels >= 0,
                            ;
                            lemma_multiply_divide_le(
                                (ie.frac_num * levels * 2) as int,
                                ie.frac_div as int,
                                (levels * 2) as int,
                            );
                        }
                        let level = ((ie.frac_num * levels * 2) / ie.frac_div + 1) / 2;
                        if p.get(x, y, level) {
                            ie.to as u8
                        } else {
                            ie.from as u8
                        }
                    };
                work.map_inplace(&f);
                proof {
                    assert forall|x: int, y: int|
                        0 <= x < work.width && 0 <= y < work.height implies #[trigger] work
                        .spec_pixel(x, y) == self.spec_run_pixel(
                        bits as usize,
                        is_alpha,
                        x as nat,
                        y as nat,
                        input.spec_pixel(x, y),
                    ) by {
                        assert(call_ensures(
                            f,
                            (x as usize, y as usize, input.spec_pixel(x, y)),
                            work.spec_pixel(x, y),
                        ));
                    }
                }
            },
        }
        work
    }
}

/// The nearest-value threshold tile.
pub open spec fn spec_nearest_cells() -> Seq<usize> {
    seq![1]
}

/// The checkerboard threshold tile.
pub open spec fn spec_checkers_cells() -> Seq<usize> {
    seq![3, 1, 1, 3]
}

/// The Bayer 2-by-2 threshold tile.
pub open spec fn spec_bayer2_cells() -> Seq<usize> {
    seq![1, 3, 4, 2]
}

/// The Bayer 4-by-4 threshold tile.
pub open spec fn spec_bayer4_cells() -> Seq<usize> {
    seq![1, 9, 3, 11, 13, 5, 15, 7, 4, 12, 2, 10, 16, 8, 14, 6]
}

/// The 9-by-9 blue-noise threshold tile.
pub open spec fn spec_bluenoise9_cells() -> Seq<usize> {
    seq![
        56, 7, 18, 67, 55, 12, 34, 20, 52, 77, 61, 36, 51, 25, 63, 79, 71, 15, 24, 40, 2, 75, 29,
        42, 8, 48, 32, 44, 11, 70, 46, 14, 21, 60, 4, 68, 28, 64, 19, 78, 57, 39, 73, 35, 54, 13,
        50, 33, 5, 53, 9, 65, 17, 80, 59, 37, 72, 62, 26, 31, 49, 23, 1, 74, 10, 22, 43, 16, 69,
        76, 45, 41, 66, 30, 47, 81, 3, 38, 58, 6, 27,
    ]
}

/// The 15-by-15 blue-noise threshold tile.
pub open spec fn spec_bluenoise15_cells() -> Seq<usize> {
    seq![
        80, 9, 146, 190, 99, 216, 113, 151, 67, 88, 189, 142, 111, 60, 125, 18, 91, 222, 59, 161,
        45, 141, 56, 104, 23, 154, 5, 74, 30, 155, 194, 166, 128, 24, 85, 122, 181, 31, 223, 174,
        39, 97, 218, 179, 209, 103, 66, 37, 176, 207, 14, 197, 79, 159, 116, 202, 135, 84, 120, 44,
        7, 115, 201, 143, 106, 70, 133, 94, 8, 49, 64, 191, 15, 55, 149, 137, 183, 77, 53, 2, 168,
        42, 213, 184, 145, 130, 27, 163, 175, 90, 33, 21, 158, 96, 220, 150, 119, 22, 101, 75, 217,
        110, 71, 198, 224, 62, 208, 131, 188, 28, 63, 192, 54, 160, 32, 171, 4, 41, 100, 124, 81,
        167, 47, 114, 89, 173, 136, 82, 206, 126, 87, 210, 140, 153, 12, 107, 144, 16, 72, 36, 214,
        6, 108, 17, 182, 58, 112, 187, 51, 203, 93, 193, 221, 180, 152, 123, 199, 68, 147, 46, 156,
        13, 76, 29, 177, 38, 57, 134, 10, 102, 48, 165, 26, 225, 95, 196, 132, 219, 121, 162, 69,
        118, 25, 83, 204, 61, 92, 138, 117, 178, 34, 65, 86, 148, 1, 200, 172, 212, 157, 129, 185,
        169, 40, 78, 11, 164, 105, 20, 215, 98, 139, 50, 109, 35, 73, 19, 3, 195, 211, 127, 52,
        205, 170, 43, 186,
    ]
}

/// `p` is the fixed tile of the given period and thresholds.
pub open spec fn spec_static_pattern(p: DitherPattern, w: int, h: int, cs: Seq<usize>) -> bool {
    match p {
        DitherPattern::Static { tile_w, tile_h, cells } => tile_w == w && tile_h == h && cells@
            == cs,
        _ => false,
    }
}

/// `p` is the given outer pattern composed with the random pattern.
pub open spec fn spec_multiply_random(p: DitherPattern, outer: DitherPattern) -> bool {
    match p {
        DitherPattern::Multiply(a, b) => *a == outer && (*b) is Random,
        _ => false,
    }
}

/// The 1-by-1 pattern that always rounds to the nearest value.
pub fn dither_pattern_nearest() -> (r: DitherPattern)
    ensures
        r.wf(),
        r.spec_levels() == 1,
        spec_static_pattern(r, 1, 1, spec_nearest_cells()),
{
    let cells: Vec<usize> = vec![1];
    proof {
        assert(cells@ =~= spec_nearest_cells());
    }
    DitherPattern::Static { tile_w: 1, tile_h: 1, cells }
}

/// The 2-by-2 checkerboard pattern, active in the middle of the range.
pub fn dither_pattern_checkers() -> (r: DitherPattern)
    ensures
        r.wf(),
        r.spec_levels() == 4,
        spec_static_pattern(r, 2, 2, spec_checkers_cells()),
{
    let cells: Vec<usize> = vec![3, 1, 1, 3];
    proof {
        assert(cells@ =~= spec_checkers_cells());
    }
    DitherPattern::Static { tile_w: 2, tile_h: 2, cells }
}

/// The Bayer 2-by-2 ordered matrix.
pub fn dither_pattern_bayer2() -> (r: DitherPattern)
    ensures
        r.wf(),
        r.spec_levels() == 4,
        spec_static_pattern(r, 2, 2, spec_bayer2_cells()),
{
    let cells: Vec<usize> = vec![1, 3, 4, 2];
    proof {
        assert(cells@ =~= spec_bayer2_cells());
    }
    DitherPattern::Static { tile_w: 2, tile_h: 2, cells }
}

/// The Bayer 4-by-4 ordered matrix.
pub fn dither_pattern_bayer4() -> (r: DitherPattern)
    ensures
        r.wf(),
        r.spec_levels() == 16,
        spec_static_pattern(r, 4, 4, spec_bayer4_cells()),
{
    let cells: Vec<usize> = vec![1, 9, 3, 11, 13, 5, 15, 7, 4, 12, 2, 10, 16, 8, 14, 6];
    proof {
        assert(cells@ =~= spec_bayer4_cells());
    }
    DitherPattern::Static { tile_w: 4, tile_h: 4, cells }
}

/// A 9-by-9 blue-noise threshold matrix.
pub fn dither_pattern_bluenoise9() -> (r: DitherPattern)
    ensures
        r.wf(),
        r.spec_levels() == 81,
        spec_static_pattern(r, 9, 9, spec_bluenoise9_cells()),
{
    let cells: Vec<usize> = vec![
        56, 7, 18, 67, 55, 12, 34, 20, 52, 77, 61, 36, 51, 25, 63, 79, 71, 15, 24, 40, 2, 75, 29,
        42, 8, 48, 32, 44, 11, 70, 46, 14, 21, 60, 4, 68, 28, 64, 19, 78, 57, 39, 73, 35, 54, 13,
        50, 33, 5, 53, 9, 65, 17, 80, 59, 37, 72, 62, 26, 31, 49, 23, 1, 74, 10, 22, 43, 16, 69,
        76, 45, 41, 66, 30, 47, 81, 3, 38, 58, 6, 27,
    ];
    proof {
        assert(cells@ =~= spec_bluenoise9_cells());
    }
    DitherPattern::Static { tile_w: 9, tile_h: 9, cells }
}

/// A 15-by-15 blue-noise threshold matrix.
pub fn dither_pattern_bluenoise15() -> (r: DitherPattern)
    ensures
        r.wf(),
        r.spec_levels() == 225,
        spec_static_pattern(r, 15, 15, spec_bluenoise15_cells()),
{
    let cells: Vec<usize> = vec![
        80, 9, 146, 190, 99, 216, 113, 151, 67, 88, 189, 142, 111, 60, 125, 18, 91, 222, 59, 161,
        45, 141, 56, 104, 23, 154, 5, 74, 30, 155, 194, 166, 128, 24, 85, 122, 181, 31, 223, 174,
        39, 97, 218, 179, 209, 103, 66, 37, 176, 207, 14, 197, 79, 159, 116, 202, 135, 84, 120, 44,
        7, 115, 201, 143, 106, 70, 133, 94, 8, 49, 64, 191, 15, 55, 149, 137, 183, 77, 53, 2, 168,
        42, 213, 184, 145, 130, 27, 163, 175, 90, 33, 21, 158, 96, 220, 150, 119, 22, 101, 75, 217,
        110, 71, 198, 224, 62, 208, 131, 188, 28, 63, 192, 54, 160, 32, 171, 4, 41, 100, 124, 81,
        167, 47, 114, 89, 173, 136, 82, 206, 126, 87, 210, 140, 153, 12, 107, 144, 16, 72, 36, 214,
        6, 108, 17, 182, 58, 112, 187, 51, 203, 93, 193, 221, 180, 152, 123, 199, 68, 147, 46, 156,
        13, 76, 29, 177, 38, 57, 134, 10, 102, 48, 165, 26, 225, 95, 196, 132, 219, 121, 162, 69,
        118, 25, 83, 204, 61, 92, 138, 117, 178, 34, 65, 86, 148, 1, 200, 172, 212, 157, 129, 185,
        169, 40, 78, 11, 164, 105, 20, 215, 98, 139, 50, 109, 35, 73, 19, 3, 195, 211, 127, 52,
        205, 170, 43, 186,
    ];
    proof {
        assert(cells@ =~= spec_bluenoise15_cells());
    }
    DitherPattern::Static { tile_w: 15, tile_h: 15, cells }
}

/// The deterministic hash-driven pattern.
pub fn dither_pattern_random() -> (r: DitherPattern)
    ensures
        r.wf(),
        r.spec_levels() == 256,
        r is Random,
{
    DitherPattern::Random
}

/// Composes a pattern with the random pattern to break up banding.
pub fn dither_pattern_with_random(outer: DitherPattern) -> (r: DitherPattern)
    requires
        outer.wf(),
        outer.spec_levels() * 256 <= 0xFFFF,
    ensures
        r.wf(),
        r.spec_levels() == outer.spec_levels() * 256,
        spec_multiply_random(r, outer),
{
    let ghost o = outer;
    let ba = Box::new(outer);
    let bb = Box::new(DitherPattern::Random);
    let r = DitherPattern::Multiply(ba, bb);
    proof {
        assert(*ba == o);
        assert((*bb) is Random);
        assert((*bb).wf());
        assert((*bb).spec_levels() == 256);
        assert(r.wf());
        assert(r.spec_levels() == o.spec_levels() * 256);
    }
    r
}

/// The method at one entry of the shipped table is the given fixed tile.
pub open spec fn spec_method_static(m: BitDitherMethod, w: int, h: int, cs: Seq<usize>) -> bool {
    match m {
        BitDitherMethod::Pattern(p) => spec_static_pattern(p, w, h, cs),
        _ => false,
    }
}

/// The method at one entry of the shipped table is the given fixed tile
/// composed with the random pattern.
pub open spec fn spec_method_static_random(
    m: BitDitherMethod,
    w: int,
    h: int,
    cs: Seq<usize>,
) -> bool {
    match m {
        BitDitherMethod::Pattern(DitherPattern::Multiply(a, b)) => spec_static_pattern(*a, w, h, cs)
            && (*b) is Random,
        _ => false,
    }
}

/// The shipped method table: fourteen entries, each name paired with the
/// exact method it stands for.
pub open spec fn spec_all_bitdither_methods_ok(r: Seq<(&'static str, BitDitherMethod)>) -> bool {
    &&& r.len() == 14
    &&& r[0].0@ == "floor"@ && (r[0].1 is Floor)
    &&& r[1].0@ == "nearest"@ && spec_method_static(r[1].1, 1, 1, spec_nearest_cells())
    &&& r[2].0@ == "checkers"@ && spec_method_static(r[2].1, 2, 2, spec_checkers_cells())
    &&& r[3].0@ == "bayer2"@ && spec_method_static(r[3].1, 2, 2, spec_bayer2_cells())
    &&& r[4].0@ == "bayer4"@ && spec_method_static(r[4].1, 4, 4, spec_bayer4_cells())
    &&& r[5].0@ == "bluenoise9"@ && spec_method_static(r[5].1, 9, 9, spec_bluenoise9_cells())
    &&& r[6].0@ == "bluenoise15"@ && spec_method_static(r[6].1, 15, 15, spec_bluenoise15_cells())
    &&& r[7].0@ == "random"@ && (match r[7].1 {
        BitDitherMethod::Pattern(p) => p is Random,
        _ => false,
    })
    &&& r[8].0@ == "nearest-random"@ && spec_method_static_random(
        r[8].1,
        1,
        1,
        spec_nearest_cells(),
    )
    &&& r[9].0@ == "checkers-random"@ && spec_method_static_random(
        r[9].1,
        2,
        2,
        spec_checkers_cells(),
    )
    &&& r[10].0@ == "bayer2-random"@ && spec_method_static_random(
        r[10].1,
        2,
        2,
        spec_bayer2_cells(),
    )
    &&& r[11].0@ == "bayer4-random"@ && spec_method_static_random(
        r[11].1,
        4,
        4,
        spec_bayer4_cells(),
    )
    &&& r[12].0@ == "bluenoise9-random"@ && spec_method_static_random(
        r[12].1,
        9,
        9,
        spec_bluenoise9_cells(),
    )
    &&& r[13].0@ == "bluenoise15-random"@ && spec_method_static_random(
        r[13].1,
        15,
        15,
        spec_bluenoise15_cells(),
    )
}

/// All shipped bit-dither methods, each under its command-line name.
pub fn all_bitdither_methods() -> (r: Vec<(&'static str, BitDitherMethod)>)
    ensures
        r@.len() == 14,
        forall|i: int| 0 <= i < r@.len() ==> (#[trigger] r@[i].1).wf(),
        spec_all_bitdither_methods_ok(r@),
{
    let mut r: Vec<(&'static str, BitDitherMethod)> = Vec::new();
    r.push(("floor", BitDitherMethod::Floor));
    r.push(("nearest", BitDitherMethod::Pattern(dither_pattern_nearest())));
    r.push(("checkers", BitDitherMethod::Pattern(dither_pattern_checkers())));
    r.push(("bayer2", BitDitherMethod::Pattern(dither_pattern_bayer2())));
    r.push(("bayer4", BitDitherMethod::Pattern(dither_pattern_bayer4())));
    r.push(("bluenoise9", BitDitherMethod::Pattern(dither_pattern_bluenoise9())));
    r.push(("bluenoise15", BitDitherMethod::Pattern(dither_pattern_bluenoise15())));
    r.push(("random", BitDitherMethod::Pattern(dither_pattern_random())));
    r.push(
        ("nearest-random", BitDitherMethod::Pattern(dither_pattern_with_random(
            dither_pattern_nearest(),
        ))),
    );
    r.push(
        ("checkers-random", BitDitherMethod::Pattern(dither_pattern_with_random(
            dither_pattern_checkers(),
        ))),
    );
    r.push(
        ("bayer2-random", BitDitherMethod::Pattern(dither_pattern_with_random(
            dither_pattern_bayer2(),
        ))),
    );
    r.push(
        ("bayer4-random", BitDitherMethod::Pattern(dither_pattern_with_random(
            dither_pattern_bayer4(),
        ))),
    );
    r.push(
        ("bluenoise9-random", BitDitherMethod::Pattern(dither_pattern_with_random(
            dither_pattern_bluenoise9(),
        ))),
    );
    r.push(
        ("bluenoise15-random", BitDitherMethod::Pattern(dither_pattern_with_random(
            dither_pattern_bluenoise15(),
        ))),
    );
    r
}

} // verus!
