//! Colour models: the 32-bit pixel with alpha, the 24-bit colour, and the
//! packed 16-bit RGB layouts (5-6-5, 1-5-5-5, 5-5-5-1) with their
//! transparency handling.

use vstd::prelude::*;
use vstd::arithmetic::power2::{
    pow2, lemma_pow2_adds, lemma_pow2_pos, lemma_pow2_strictly_increases, lemma2_to64,
};
use vstd::bits::{lemma_u16_shl_is_mul, lemma_u16_shr_is_div};
use crate::bitcopy::{spec_rep, spec_field, BitCopyField};
use crate::raster::Raster;

verus! {

/// RGB24 value
#[derive(Copy, Clone, Eq, PartialEq, Structural, Debug)]
pub struct RGB24(pub u8, pub u8, pub u8);

/// ARGB32 value
#[derive(Copy, Clone, Eq, PartialEq, Structural, Debug)]
pub struct ARGB32(pub u8, pub RGB24);

impl ARGB32 {
    /// Separates the A channel into its own raster.
    pub fn raster_a(source: &Raster<ARGB32>) -> (r: Raster<u8>)
        requires
            source.wf(),
        ensures
            r.wf(),
            r.width == source.width,
            r.height == source.height,
            forall|x: int, y: int|
                0 <= x < source.width && 0 <= y < source.height ==> #[trigger] r.spec_pixel(x, y)
                    == source.spec_pixel(x, y).0,
    {
        let f = |x: usize, y: usize, v: ARGB32| -> (p: u8)
            ensures
                p == v.0,
            { v.0 };
        let r = source.map(&f);
        proof {
            assert forall|x: int, y: int|
                0 <= x < source.width && 0 <= y < source.height implies #[trigger] r.spec_pixel(
                x,
                y,
            ) == source.spec_pixel(x, y).0 by {
                assert(call_ensures(
                    f,
                    (x as usize, y as usize, source.spec_pixel(x, y)),
                    r.spec_pixel(x, y),
                ));
            }
        }
        r
    }

    /// Separates the RGB channels into their own raster.
    pub fn raster_rgb(source: &Raster<ARGB32>) -> (r: Raster<RGB24>)
        requires
            source.wf(),
        ensures
            r.wf(),
            r.width == source.width,
            r.height == source.height,
            forall|x: int, y: int|
                0 <= x < source.width && 0 <= y < source.height ==> #[trigger] r.spec_pixel(x, y)
                    == source.spec_pixel(x, y).1,
    {
        let f = |x: usize, y: usize, v: ARGB32| -> (p: RGB24)
            ensures
                p == v.1,
            { v.1 };
        let r = source.map(&f);
        proof {
            assert forall|x: int, y: int|
                0 <= x < source.width && 0 <= y < source.height implies #[trigger] r.spec_pixel(
                x,
                y,
            ) == source.spec_pixel(x, y).1 by {
                assert(call_ensures(
                    f,
                    (x as usize, y as usize, source.spec_pixel(x, y)),
                    r.spec_pixel(x, y),
                ));
            }
        }
        r
    }

    /// Combines an alpha raster and a colour raster into one.
    pub fn combine_channels(a: &Raster<u8>, rgb: &Raster<RGB24>) -> (r: Raster<ARGB32>)
        requires
            a.wf(),
            rgb.wf(),
            a.width == rgb.width,
            a.height == rgb.height,
        ensures
            r.wf(),
            r.width == a.width,
            r.height == a.height,
            forall|x: int, y: int|
                0 <= x < a.width && 0 <= y < a.height ==> #[trigger] r.spec_pixel(x, y) == ARGB32(
                    a.spec_pixel(x, y),
                    rgb.spec_pixel(x, y),
                ),
    {
        let f = |x: usize, y: usize| -> (p: ARGB32)
            requires
                a.wf(),
                rgb.wf(),
                a.width == rgb.width,
                a.height == rgb.height,
                x < a.width,
                y < a.height,
            ensures
                p == ARGB32(a.spec_pixel(x as int, y as int), rgb.spec_pixel(x as int, y as int)),
            { ARGB32(a.pixel(x, y), rgb.pixel(x, y)) };
        let r = Raster::generate(a.width(), a.height(), &f);
        proof {
            assert forall|x: int, y: int|
                0 <= x < a.width && 0 <= y < a.height implies #[trigger] r.spec_pixel(x, y)
                == ARGB32(a.spec_pixel(x, y), rgb.spec_pixel(x, y)) by {
                assert(call_ensures(f, (x as usize, y as usize), r.spec_pixel(x, y)));
            }
        }
        r
    }

    /// Adds an opaque alpha channel to a colour raster.
    pub fn opaque(rgb: &Raster<RGB24>) -> (r: Raster<ARGB32>)
        requires
            rgb.wf(),
        ensures
            r.wf(),
            r.width == rgb.width,
            r.height == rgb.height,
            forall|x: int, y: int|
                0 <= x < rgb.width && 0 <= y < rgb.height ==> #[trigger] r.spec_pixel(x, y)
                    == ARGB32(255u8, rgb.spec_pixel(x, y)),
    {
        let f = |x: usize, y: usize, v: RGB24| -> (p: ARGB32)
            ensures
                p == ARGB32(255u8, v),
            { ARGB32(255, v) };
        let r = rgb.map(&f);
        proof {
            assert forall|x: int, y: int|
                0 <= x < rgb.width && 0 <= y < rgb.height implies #[trigger] r.spec_pixel(x, y)
                == ARGB32(255u8, rgb.spec_pixel(x, y)) by {
                assert(call_ensures(
                    f,
                    (x as usize, y as usize, rgb.spec_pixel(x, y)),
                    r.spec_pixel(x, y),
                ));
            }
        }
        r
    }
}

impl RGB24 {
    /// Separates the three channels into three rasters, for use with the
    /// bit-depth ditherers.
    pub fn separate_channels(source: &Raster<RGB24>) -> (r: (Raster<u8>, Raster<u8>, Raster<u8>))
        requires
            source.wf(),
        ensures
            r.0.wf() && r.1.wf() && r.2.wf(),
            r.0.width == source.width && r.0.height == source.height,
            r.1.width == source.width && r.1.height == source.height,
            r.2.width == source.width && r.2.height == source.height,
            forall|x: int, y: int|
                0 <= x < source.width && 0 <= y < source.height ==> #[trigger] r.0.spec_pixel(x, y)
                    == source.spec_pixel(x, y).0,
            forall|x: int, y: int|
                0 <= x < source.width && 0 <= y < source.height ==> #[trigger] r.1.spec_pixel(x, y)
                    == source.spec_pixel(x, y).1,
            forall|x: int, y: int|
                0 <= x < source.width && 0 <= y < source.height ==> #[trigger] r.2.spec_pixel(x, y)
                    == source.spec_pixel(x, y).2,
    {
        let f0 = |x: usize, y: usize, v: RGB24| -> (p: u8)
            ensures
                p == v.0,
            { v.0 };
        let f1 = |x: usize, y: usize, v: RGB24| -> (p: u8)
            ensures
                p == v.1,
            { v.1 };
        let f2 = |x: usize, y: usize, v: RGB24| -> (p: u8)
            ensures
                p == v.2,
            { v.2 };
        let r0 = source.map(&f0);
        let r1 = source.map(&f1);
        let r2 = source.map(&f2);
        proof {
            assert forall|x: int, y: int|
                0 <= x < source.width && 0 <= y < source.height implies #[trigger] r0.spec_pixel(
                x,
                y,
            ) == source.spec_pixel(x, y).0 && #[trigger] r1.spec_pixel(x, y) == source.spec_pixel(
                x,
                y,
            ).1 && #[trigger] r2.spec_pixel(x, y) == source.spec_pixel(x, y).2 by {
                assert(call_ensures(
                    f0,
                    (x as usize, y as usize, source.spec_pixel(x, y)),
                    r0.spec_pixel(x, y),
                ));
                assert(call_ensures(
                    f1,
                    (x as usize, y as usize, source.spec_pixel(x, y)),
                    r1.spec_pixel(x, y),
                ));
                assert(call_ensures(
                    f2,
                    (x as usize, y as usize, source.spec_pixel(x, y)),
                    r2.spec_pixel(x, y),
                ));
            }
        }
        (r0, r1, r2)
    }

    /// Combines three channel rasters into one colour raster.
    pub fn combine_channels(r: &Raster<u8>, g: &Raster<u8>, b: &Raster<u8>) -> (res: Raster<RGB24>)
        requires
            r.wf(),
            g.wf(),
            b.wf(),
            g.width == r.width && g.height == r.height,
            b.width == r.width && b.height == r.height,
        ensures
            res.wf(),
            res.width == r.width,
            res.height == r.height,
            forall|x: int, y: int|
                0 <= x < r.width && 0 <= y < r.height ==> #[trigger] res.spec_pixel(x, y) == RGB24(
                    r.spec_pixel(x, y),
                    g.spec_pixel(x, y),
                    b.spec_pixel(x, y),
                ),
    {
        let f = |x: usize, y: usize| -> (p: RGB24)
            requires
                r.wf(),
                g.wf(),
                b.wf(),
                g.width == r.width && g.height == r.height,
                b.width == r.width && b.height == r.height,
                x < r.width,
                y < r.height,
            ensures
                p == RGB24(
                    r.spec_pixel(x as int, y as int),
                    g.spec_pixel(x as int, y as int),
                    b.spec_pixel(x as int, y as int),
                ),
            { RGB24(r.pixel(x, y), g.pixel(x, y), b.pixel(x, y)) };
        let res = Raster::generate(r.width(), r.height(), &f);
        proof {
            assert forall|x: int, y: int|
                0 <= x < r.width && 0 <= y < r.height implies #[trigger] res.spec_pixel(x, y)
                == RGB24(r.spec_pixel(x, y), g.spec_pixel(x, y), b.spec_pixel(x, y)) by {
                assert(call_ensures(f, (x as usize, y as usize), res.spec_pixel(x, y)));
            }
        }
        res
    }
}

/// One packed 16-bit RGB layout: per-channel bit positions, widths, and
/// masks, the smallest non-zero encodable ("nudge") sample, and the mask
/// whose bits decide opacity.
#[derive(Clone, Copy)]
pub struct ColourModelRGB16 {
    pub r_pos: u8,
    pub g_pos: u8,
    pub b_pos: u8,
    pub r_bits: BitCopyField,
    pub g_bits: BitCopyField,
    pub b_bits: BitCopyField,
    pub r_mask: u16,
    pub g_mask: u16,
    pub b_mask: u16,
    pub nudge: u16,
    pub transparency_check_mask: u16,
}

impl ColourModelRGB16 {
    /// The channels are 8-bit-container fields laid out disjointly, blue
    /// lowest then green then red, and each mask matches its field.
    pub open spec fn wf(&self) -> bool {
        &&& self.r_bits.wf() && self.r_bits.container == 8 && self.r_bits.bits >= 1
        &&& self.g_bits.wf() && self.g_bits.container == 8 && self.g_bits.bits >= 1
        &&& self.b_bits.wf() && self.b_bits.container == 8 && self.b_bits.bits >= 1
        &&& self.b_pos + self.b_bits.bits <= self.g_pos
        &&& self.g_pos + self.g_bits.bits <= self.r_pos
        &&& self.r_pos + self.r_bits.bits <= 16
        &&& self.r_mask == ((pow2(self.r_bits.bits as nat) - 1) * pow2(self.r_pos as nat)) as u16
        &&& (pow2(self.r_bits.bits as nat) - 1) * pow2(self.r_pos as nat) <= u16::MAX
        &&& self.g_mask == ((pow2(self.g_bits.bits as nat) - 1) * pow2(self.g_pos as nat)) as u16
        &&& (pow2(self.g_bits.bits as nat) - 1) * pow2(self.g_pos as nat) <= u16::MAX
        &&& self.b_mask == ((pow2(self.b_bits.bits as nat) - 1) * pow2(self.b_pos as nat)) as u16
        &&& (pow2(self.b_bits.bits as nat) - 1) * pow2(self.b_pos as nat) <= u16::MAX
    }

    /// The sample-scale value a channel of `data` carries.
    pub open spec fn spec_channel_low(data: u16, mask: u16, pos: u8) -> nat {
        ((data & mask) as nat) / pow2(pos as nat)
    }

    /// The decoded 8-bit value of one channel: the channel's sample
    /// replicated up to 8 bits.
    pub open spec fn spec_channel8(data: u16, mask: u16, pos: u8, f: BitCopyField) -> nat {
        spec_rep(Self::spec_channel_low(data, mask, pos), f.bits as nat, f.shift as nat)
    }

    /// The colour a packed sample decodes to.
    pub open spec fn spec_decode(&self, data: u16) -> RGB24 {
        RGB24(
            Self::spec_channel8(data, self.r_mask, self.r_pos, self.r_bits) as u8,
            Self::spec_channel8(data, self.g_mask, self.g_pos, self.g_bits) as u8,
            Self::spec_channel8(data, self.b_mask, self.b_pos, self.b_bits) as u8,
        )
    }

    /// The packed sample a colour encodes to: each 8-bit channel floored
    /// to its sample scale and placed at its bit position.
    pub open spec fn spec_encode(&self, v: RGB24) -> u16 {
        (((v.0 as nat) / pow2(self.r_bits.shift as nat)) * pow2(self.r_pos as nat) + ((
        v.1 as nat) / pow2(self.g_bits.shift as nat)) * pow2(self.g_pos as nat) + ((v.2 as nat)
            / pow2(self.b_bits.shift as nat)) * pow2(self.b_pos as nat)) as u16
    }

    /// A sample is opaque iff any transparency-relevant bit is set.
    pub open spec fn spec_opaque(&self, data: u16) -> bool {
        (self.transparency_check_mask & data) != 0
    }

    /// Returns true if the given sample would be opaque in a sprite
    /// context.
    #[inline]
    pub fn opaque(&self, data: u16) -> (r: bool)
        ensures
            r == self.spec_opaque(data),
    {
        (self.transparency_check_mask & data) != 0
    }

    /// One channel of `data`, masked, shifted down and replicated up to
    /// 8 bits.
    fn channel8(data: u16, mask: u16, pos: u8, f: BitCopyField) -> (r: u8)
        requires
            f.wf(),
            f.container == 8,
            f.bits >= 1,
            pos < 16,
            mask == ((pow2(f.bits as nat) - 1) * pow2(pos as nat)) as u16,
            (pow2(f.bits as nat) - 1) * pow2(pos as nat) <= u16::MAX,
        ensures
            r == Self::spec_channel8(data, mask, pos, f),
    {
        proof {
            lemma_u16_shr_is_div((data & mask) as u16, pos as u16);
            lemma_pow2_pos(pos as nat);
            lemma_pow2_pos(f.bits as nat);
            assert(data & mask <= mask) by (bit_vector);
            vstd::arithmetic::div_mod::lemma_div_is_ordered(
                (data & mask) as int,
                mask as int,
                pow2(pos as nat) as int,
            );
            vstd::arithmetic::div_mod::lemma_div_by_multiple(
                (pow2(f.bits as nat) - 1) as int,
                pow2(pos as nat) as int,
            );
            lemma2_to64();
            lemma_pow2_strictly_increases(f.bits as nat, 32);
        }
        let raw = ((data & mask) >> (pos as u16)) as usize;
        let r8 = f.shiftup(raw);
        proof {
            crate::bitcopy::lemma_rep_bounds(raw as nat, f.bits as nat, f.shift as nat);
            lemma_pow2_adds(f.bits as nat, f.shift as nat);
        }
        r8 as u8
    }

    /// Converts a packed sample to an RGB24 colour.  Bits outside the
    /// channel masks are ignored.
    pub fn decode(&self, data: u16) -> (r: RGB24)
        requires
            self.wf(),
        ensures
            r == self.spec_decode(data),
    {
        let r8 = Self::channel8(data, self.r_mask, self.r_pos, self.r_bits);
        let g8 = Self::channel8(data, self.g_mask, self.g_pos, self.g_bits);
        let b8 = Self::channel8(data, self.b_mask, self.b_pos, self.b_bits);
        RGB24(r8, g8, b8)
    }

    /// Converts an RGB24 colour to a packed sample by flooring each
    /// channel; the naive ("floor") conversion that every dither method
    /// refines.  It is lossless for any colour `decode` returns.
    pub fn encode(&self, v: RGB24) -> (r: u16)
        requires
            self.wf(),
        ensures
            r == self.spec_encode(v),
    {
        proof {
            lemma2_to64();
            lemma_pow2_pos(self.r_bits.shift as nat);
            lemma_pow2_pos(self.g_bits.shift as nat);
            lemma_pow2_pos(self.b_bits.shift as nat);
        }
        let r_low = self.r_bits.shiftdown(v.0 as usize);
        let g_low = self.g_bits.shiftdown(v.1 as usize);
        let b_low = self.b_bits.shiftdown(v.2 as usize);
        proof {
            self.r_bits.lemma_low_in_range(v.0 as nat);
            self.g_bits.lemma_low_in_range(v.1 as nat);
            self.b_bits.lemma_low_in_range(v.2 as nat);
            lemma_pow2_strictly_increases(8, 32);
            // each shifted channel stays within its mask
            assert(r_low * pow2(self.r_pos as nat) <= (pow2(self.r_bits.bits as nat) - 1) * pow2(
                self.r_pos as nat,
            )) by (nonlinear_arith)
                requires
                    r_low <= pow2(self.r_bits.bits as nat) - 1,
                    pow2(self.r_pos as nat) > 0,
            ;
            assert(g_low * pow2(self.g_pos as nat) <= (pow2(self.g_bits.bits as nat) - 1) * pow2(
                self.g_pos as nat,
            )) by (nonlinear_arith)
                requires
                    g_low <= pow2(self.g_bits.bits as nat) - 1,
                    pow2(self.g_pos as nat) > 0,
            ;
            assert(b_low * pow2(self.b_pos as nat) <= (pow2(self.b_bits.bits as nat) - 1) * pow2(
                self.b_pos as nat,
            )) by (nonlinear_arith)
                requires
                    b_low <= pow2(self.b_bits.bits as nat) - 1,
                    pow2(self.b_pos as nat) > 0,
            ;
            // the three channel ranges are disjoint, so the sum fits
            lemma_pow2_adds(self.b_bits.bits as nat, self.b_pos as nat);
            lemma_pow2_adds(self.g_bits.bits as nat, self.g_pos as nat);
            lemma_pow2_adds(self.r_bits.bits as nat, self.r_pos as nat);
            vstd::arithmetic::power2::lemma_pow2_subtracts(
                (self.b_bits.bits + self.b_pos) as nat,
                self.g_pos as nat,
            );
            if self.b_bits.bits + self.b_pos < self.g_pos {
                lemma_pow2_strictly_increases(
                    (self.b_bits.bits + self.b_pos) as nat,
                    self.g_pos as nat,
                );
            }
            if self.g_bits.bits + self.g_pos < self.r_pos {
                lemma_pow2_strictly_increases(
                    (self.g_bits.bits + self.g_pos) as nat,
                    self.r_pos as nat,
                );
            }
            if self.r_bits.bits + self.r_pos < 16 {
                lemma_pow2_strictly_increases((self.r_bits.bits + self.r_pos) as nat, 16);
            }
            assert(pow2(self.b_bits.bits as nat) * pow2(self.b_pos as nat) <= pow2(
                self.g_pos as nat,
            ));
            assert(pow2(self.g_bits.bits as nat) * pow2(self.g_pos as nat) <= pow2(
                self.r_pos as nat,
            ));
            assert(pow2(self.r_bits.bits as nat) * pow2(self.r_pos as nat) <= 65536);
            lemma_pow2_pos(self.b_pos as nat);
            assert(r_low * pow2(self.r_pos as nat) + g_low * pow2(self.g_pos as nat) + b_low
                * pow2(self.b_pos as nat) <= 65535) by (nonlinear_arith)
                requires
                    r_low < pow2(self.r_bits.bits as nat),
                    g_low < pow2(self.g_bits.bits as nat),
                    b_low < pow2(self.b_bits.bits as nat),
                    pow2(self.r_bits.bits as nat) * pow2(self.r_pos as nat) <= 65536,
                    pow2(self.g_bits.bits as nat) * pow2(self.g_pos as nat) <= pow2(
                        self.r_pos as nat,
                    ),
                    pow2(self.b_bits.bits as nat) * pow2(self.b_pos as nat) <= pow2(
                        self.g_pos as nat,
                    ),
                    pow2(self.b_pos as nat) >= 1,
                    pow2(self.g_pos as nat) >= 1,
                    pow2(self.r_pos as nat) >= 1,
            ;
            lemma_u16_shl_is_mul(r_low as u16, self.r_pos as u16);
            lemma_u16_shl_is_mul(g_low as u16, self.g_pos as u16);
            lemma_u16_shl_is_mul(b_low as u16, self.b_pos as u16);
        }
        let test = ((r_low as u16) << (self.r_pos as u16)) + ((g_low as u16) << (self.g_pos
            as u16)) + ((b_low as u16) << (self.b_pos as u16));
        test
    }

    /// Decodes an entire raster of packed samples.
    pub fn decode_raster_blk(&self, source: &Raster<u16>) -> (r: Raster<RGB24>)
        requires
            self.wf(),
            source.wf(),
        ensures
            r.wf(),
            r.width == source.width,
            r.height == source.height,
            forall|x: int, y: int|
                0 <= x < source.width && 0 <= y < source.height ==> #[trigger] r.spec_pixel(x, y)
                    == self.spec_decode(source.spec_pixel(x, y)),
    {
        let f = |x: usize, y: usize, v: u16| -> (p: RGB24)
            requires
                self.wf(),
            ensures
                p == self.spec_decode(v),
            { self.decode(v) };
        let r = source.map(&f);
        proof {
            assert forall|x: int, y: int|
                0 <= x < source.width && 0 <= y < source.height implies #[trigger] r.spec_pixel(
                x,
                y,
            ) == self.spec_decode(source.spec_pixel(x, y)) by {
                assert(call_ensures(
                    f,
                    (x as usize, y as usize, source.spec_pixel(x, y)),
                    r.spec_pixel(x, y),
                ));
            }
        }
        r
    }

    /// Decodes an entire raster with transparency handling: transparent
    /// samples get alpha 0, opaque ones alpha 255.
    pub fn decode_raster_spr(&self, source: &Raster<u16>) -> (r: Raster<ARGB32>)
        requires
            self.wf(),
            source.wf(),
        ensures
            r.wf(),
            r.width == source.width,
            r.height == source.height,
            forall|x: int, y: int|
                0 <= x < source.width && 0 <= y < source.height ==> #[trigger] r.spec_pixel(x, y)
                    == ARGB32(
                    if self.spec_opaque(source.spec_pixel(x, y)) {
                        255u8
                    } else {
                        0u8
                    },
                    self.spec_decode(source.spec_pixel(x, y)),
                ),
    {
        let f = |x: usize, y: usize, v: u16| -> (p: ARGB32)
            requires
                self.wf(),
            ensures
                p == ARGB32(
                    if self.spec_opaque(v) {
                        255u8
                    } else {
                        0u8
                    },
                    self.spec_decode(v),
                ),
            {
                ARGB32(
                    if self.opaque(v) {
                        255
                    } else {
                        0
                    },
                    self.decode(v),
                )
            };
        let r = source.map(&f);
        proof {
            assert forall|x: int, y: int|
                0 <= x < source.width && 0 <= y < source.height implies #[trigger] r.spec_pixel(
                x,
                y,
            ) == ARGB32(
                if self.spec_opaque(source.spec_pixel(x, y)) {
                    255u8
                } else {
                    0u8
                },
                self.spec_decode(source.spec_pixel(x, y)),
            ) by {
                assert(call_ensures(
                    f,
                    (x as usize, y as usize, source.spec_pixel(x, y)),
                    r.spec_pixel(x, y),
                ));
            }
        }
        r
    }
}

/// The RGB565 layout.
pub open spec fn spec_cm_rgb565() -> ColourModelRGB16 {
    ColourModelRGB16 {
        r_pos: 11,
        g_pos: 5,
        b_pos: 0,
        r_bits: spec_field(5, 8),
        g_bits: spec_field(6, 8),
        b_bits: spec_field(5, 8),
        r_mask: 0xF800,
        g_mask: 0x07E0,
        b_mask: 0x001F,
        nudge: 0x0020,
        transparency_check_mask: 0xFFFF,
    }
}

/// The RGB1555 layout: 15 colour bits, top bit reserved.
pub open spec fn spec_cm_rgb1555() -> ColourModelRGB16 {
    ColourModelRGB16 {
        r_pos: 10,
        g_pos: 5,
        b_pos: 0,
        r_bits: spec_field(5, 8),
        g_bits: spec_field(5, 8),
        b_bits: spec_field(5, 8),
        r_mask: 0x7C00,
        g_mask: 0x03E0,
        b_mask: 0x001F,
        nudge: 1,
        transparency_check_mask: 0x7FFF,
    }
}

/// The RGB5551 layout: colour in the top 15 bits, bottom bit reserved.
pub open spec fn spec_cm_rgb5551() -> ColourModelRGB16 {
    ColourModelRGB16 {
        r_pos: 11,
        g_pos: 6,
        b_pos: 1,
        r_bits: spec_field(5, 8),
        g_bits: spec_field(5, 8),
        b_bits: spec_field(5, 8),
        r_mask: 0xF800,
        g_mask: 0x07C0,
        b_mask: 0x003E,
        nudge: 2,
        transparency_check_mask: 0xFFFE,
    }
}

/// RGB565 bit positions.
pub fn cm_rgb565() -> (r: ColourModelRGB16)
    ensures
        r == spec_cm_rgb565(),
        r.wf(),
{
    proof {
        lemma2_to64();
    }
    let r = ColourModelRGB16 {
        r_pos: 11,
        g_pos: 5,
        b_pos: 0,
        r_bits: BitCopyField::new(5, 8),
        g_bits: BitCopyField::new(6, 8),
        b_bits: BitCopyField::new(5, 8),
        r_mask: 0xF800,
        g_mask: 0x07E0,
        b_mask: 0x001F,
        nudge: 0x0020,
        transparency_check_mask: 0xFFFF,
    };
    r
}

/// RGB1555 bit positions.
pub fn cm_rgb1555() -> (r: ColourModelRGB16)
    ensures
        r == spec_cm_rgb1555(),
        r.wf(),
{
    proof {
        lemma2_to64();
    }
    let r = ColourModelRGB16 {
        r_pos: 10,
        g_pos: 5,
        b_pos: 0,
        r_bits: BitCopyField::new(5, 8),
        g_bits: BitCopyField::new(5, 8),
        b_bits: BitCopyField::new(5, 8),
        r_mask: 0x7C00,
        g_mask: 0x03E0,
        b_mask: 0x001F,
        nudge: 1,
        transparency_check_mask: 0x7FFF,
    };
    r
}

/// RGB5551 bit positions.
pub fn cm_rgb5551() -> (r: ColourModelRGB16)
    ensures
        r == spec_cm_rgb5551(),
        r.wf(),
{
    proof {
        lemma2_to64();
    }
    let r = ColourModelRGB16 {
        r_pos: 11,
        g_pos: 6,
        b_pos: 1,
        r_bits: BitCopyField::new(5, 8),
        g_bits: BitCopyField::new(5, 8),
        b_bits: BitCopyField::new(5, 8),
        r_mask: 0xF800,
        g_mask: 0x07C0,
        b_mask: 0x003E,
        nudge: 2,
        transparency_check_mask: 0xFFFE,
    };
    r
}

} // verus!
