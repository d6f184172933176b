use kc3ds::bitdither::BitDitherMethod;
use kc3ds::colours::{cm_rgb565, ARGB32, RGB24};
use kc3ds::raster::Raster;
use kc3ds::s16dither::{blk, spr};

#[test]
fn blk_encodes_dithered_channels() {
    let cm = cm_rgb565();
    let img = Raster::new_filled(3, 3, RGB24(0xFF, 0x00, 0xFF));
    let out = blk(&img, &cm, &BitDitherMethod::Floor);
    assert_eq!(out.width(), 3);
    assert_eq!(out.height(), 3);
    assert_eq!(out.pixel(1, 1), 0xF81F);
}

#[test]
fn spr_zeroes_transparent_pixels() {
    let cm = cm_rgb565();
    let img = Raster::generate(2, 1, &|x: usize, _y: usize| {
        if x == 0 {
            ARGB32(0, RGB24(0xFF, 0xFF, 0xFF))
        } else {
            ARGB32(0xFF, RGB24(0xFF, 0xFF, 0xFF))
        }
    });
    let out = spr(&img, &cm, &BitDitherMethod::Floor, &BitDitherMethod::Floor);
    assert_eq!(out.pixel(0, 0), 0);
    assert_eq!(out.pixel(1, 0), 0xFFFF);
}

#[test]
fn spr_nudges_opaque_black_off_the_sentinel() {
    // an opaque black pixel would encode as the transparent sentinel, so
    // the smallest non-zero encodable sample stands in for it
    let cm = cm_rgb565();
    let img = Raster::new_filled(1, 1, ARGB32(0xFF, RGB24(0, 0, 0)));
    let out = spr(&img, &cm, &BitDitherMethod::Floor, &BitDitherMethod::Floor);
    assert_eq!(out.pixel(0, 0), cm.nudge);
}

#[test]
fn spr_alpha_threshold() {
    let cm = cm_rgb565();
    // alpha dithered down to one bit through the floor method: everything
    // below 0x80 floors to 0x00 and becomes transparent
    let img = Raster::generate(2, 1, &|x: usize, _y: usize| {
        ARGB32(if x == 0 { 0x7F } else { 0x80 }, RGB24(0xFF, 0, 0))
    });
    let out = spr(&img, &cm, &BitDitherMethod::Floor, &BitDitherMethod::Floor);
    assert_eq!(out.pixel(0, 0), 0);
    assert_eq!(out.pixel(1, 0), 0xF800);
}
