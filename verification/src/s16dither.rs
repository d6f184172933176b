//! Dithering whole images into packed 16-bit samples: backgrounds (no
//! alpha) and sprites (alpha threshold, transparent sentinel, nudge).

use vstd::prelude::*;
use crate::bitdither::BitDitherMethod;
use crate::colours::{ColourModelRGB16, ARGB32, RGB24};
use crate::raster::Raster;

verus! {

/// What one background pixel becomes: each channel dithered to its model
/// depth in linear light, then packed.
pub open spec fn spec_blk_pixel(
    model: ColourModelRGB16,
    colour: BitDitherMethod,
    x: nat,
    y: nat,
    pix: RGB24,
) -> u16 {
    model.spec_encode(
        RGB24(
            colour.spec_run_pixel(model.r_bits.bits, false, x, y, pix.0),
            colour.spec_run_pixel(model.g_bits.bits, false, x, y, pix.1),
            colour.spec_run_pixel(model.b_bits.bits, false, x, y, pix.2),
        ),
    )
}

/// What one sprite pixel becomes: the packed colour when the dithered
/// alpha passes the opacity threshold (nudged away from the transparent
/// sentinel when needed), and zero otherwise.
pub open spec fn spec_spr_pixel(
    model: ColourModelRGB16,
    colour: BitDitherMethod,
    alpha: BitDitherMethod,
    x: nat,
    y: nat,
    pix: ARGB32,
) -> u16 {
    let v = spec_blk_pixel(model, colour, x, y, pix.1);
    if alpha.spec_run_pixel(1, true, x, y, pix.0) >= 0x80 {
        if model.spec_opaque(v) {
            v
        } else {
            model.nudge
        }
    } else {
        0
    }
}

/// Dithers a background image to packed samples through the given colour
/// dither method.
pub fn blk(image: &Raster<RGB24>, model: &ColourModelRGB16, colour: &BitDitherMethod) -> (r:
    Raster<u16>)
    requires
        image.wf(),
        model.wf(),
        colour.wf(),
    ensures
        r.wf(),
        r.width == image.width,
        r.height == image.height,
        forall|x: int, y: int|
            0 <= x < image.width && 0 <= y < image.height ==> #[trigger] r.spec_pixel(x, y)
                == spec_blk_pixel(*model, *colour, x as nat, y as nat, image.spec_pixel(x, y)),
{
    let channels = RGB24::separate_channels(image);
    let raster_r = channels.0;
    let raster_g = channels.1;
    let raster_b = channels.2;
    let res_r = colour.run(raster_r, model.r_bits.bits() as u8, false);
    let res_g = colour.run(raster_g, model.g_bits.bits() as u8, false);
    let res_b = colour.run(raster_b, model.b_bits.bits() as u8, false);
    let f = |x: usize, y: usize| -> (p: u16)
        requires
            model.wf(),
            res_r.wf() && res_g.wf() && res_b.wf(),
            res_r.width == image.width && res_r.height == image.height,
            res_g.width == image.width && res_g.height == image.height,
            res_b.width == image.width && res_b.height == image.height,
            x < image.width,
            y < image.height,
        ensures
            p == model.spec_encode(
                RGB24(
                    res_r.spec_pixel(x as int, y as int),
                    res_g.spec_pixel(x as int, y as int),
                    res_b.spec_pixel(x as int, y as int),
                ),
            ),
        { model.encode(RGB24(res_r.pixel(x, y), res_g.pixel(x, y), res_b.pixel(x, y))) };
    let r = Raster::generate(image.width(), image.height(), &f);
    proof {
        assert forall|x: int, y: int|
            0 <= x < image.width && 0 <= y < image.height implies #[trigger] r.spec_pixel(x, y)
            == spec_blk_pixel(*model, *colour, x as nat, y as nat, image.spec_pixel(x, y)) by {
            assert(call_ensures(f, (x as usize, y as usize), r.spec_pixel(x, y)));
            assert(res_r.spec_pixel(x, y) == colour.spec_run_pixel(
                model.r_bits.bits,
                false,
                x as nat,
                y as nat,
                image.spec_pixel(x, y).0,
            ));
            assert(res_g.spec_pixel(x, y) == colour.spec_run_pixel(
                model.g_bits.bits,
                false,
                x as nat,
                y as nat,
                image.spec_pixel(x, y).1,
            ));
            assert(res_b.spec_pixel(x, y) == colour.spec_run_pixel(
                model.b_bits.bits,
                false,
                x as nat,
                y as nat,
                image.spec_pixel(x, y).2,
            ));
        }
    }
    r
}

/// Dithers a sprite image to packed samples: colour channels through
/// `colour`, the alpha channel through `alpha` down to one bit, with the
/// nudge sample standing in for opaque pixels that would encode as the
/// transparent sentinel.
pub fn spr(
    image: &Raster<ARGB32>,
    model: &ColourModelRGB16,
    colour: &BitDitherMethod,
    alpha: &BitDitherMethod,
) -> (r: Raster<u16>)
    requires
        image.wf(),
        model.wf(),
        colour.wf(),
        alpha.wf(),
    ensures
        r.wf(),
        r.width == image.width,
        r.height == image.height,
        forall|x: int, y: int|
            0 <= x < image.width && 0 <= y < image.height ==> #[trigger] r.spec_pixel(x, y)
                == spec_spr_pixel(
                *model,
                *colour,
                *alpha,
                x as nat,
                y as nat,
                image.spec_pixel(x, y),
            ),
{
    let raster_alpha = ARGB32::raster_a(image);
    let alpha_stage = alpha.run(raster_alpha, 1, true);
    let rgb = ARGB32::raster_rgb(image);
    let mut rgb_stage = blk(&rgb, model, colour);
    let f = |x: usize, y: usize, v: u16| -> (p: u16)
        requires
            model.wf(),
            alpha_stage.wf(),
            alpha_stage.width == image.width && alpha_stage.height == image.height,
            x < image.width,
            y < image.height,
        ensures
            p == (if alpha_stage.spec_pixel(x as int, y as int) >= 0x80 {
                if model.spec_opaque(v) {
                    v
                } else {
                    model.nudge
                }
            } else {
                0u16
            }),
        {
            let a = alpha_stage.pixel(x, y) >= 0x80;
            if a {
                if model.opaque(v) {
                    v
                } else {
                    model.nudge
                }
            } else {
                0
            }
        };
    rgb_stage.map_inplace(&f);
    proof {
        assert forall|x: int, y: int|
            0 <= x < image.width && 0 <= y < image.height implies #[trigger] rgb_stage.spec_pixel(
            x,
            y,
        ) == spec_spr_pixel(*model, *colour, *alpha, x as nat, y as nat, image.spec_pixel(x, y))
            by {
            assert(call_ensures(
                f,
                (x as usize, y as usize, spec_blk_pixel(
                    *model,
                    *colour,
                    x as nat,
                    y as nat,
                    image.spec_pixel(x, y).1,
                )),
                rgb_stage.spec_pixel(x, y),
            ));
            assert(alpha_stage.spec_pixel(x, y) == alpha.spec_run_pixel(
                1,
                true,
                x as nat,
                y as nat,
                image.spec_pixel(x, y).0,
            ));
        }
    }
    rgb_stage
}

} // verus!
