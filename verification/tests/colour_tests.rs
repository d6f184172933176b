use kc3ds::colours::{cm_rgb1555, cm_rgb5551, cm_rgb565, ARGB32, RGB24};
use kc3ds::raster::Raster;

#[test]
fn rgb565_decode_concrete() {
    let cm = cm_rgb565();
    // pure red: five high bits set
    assert_eq!(cm.decode(0xF800), RGB24(0xFF, 0x00, 0x00));
    // pure green: six middle bits set
    assert_eq!(cm.decode(0x07E0), RGB24(0x00, 0xFF, 0x00));
    // pure blue: five low bits set
    assert_eq!(cm.decode(0x001F), RGB24(0x00, 0x00, 0xFF));
    assert_eq!(cm.decode(0x0000), RGB24(0, 0, 0));
    assert_eq!(cm.decode(0xFFFF), RGB24(0xFF, 0xFF, 0xFF));
}

#[test]
fn rgb565_encode_concrete() {
    let cm = cm_rgb565();
    assert_eq!(cm.encode(RGB24(0xFF, 0xFF, 0xFF)), 0xFFFF);
    assert_eq!(cm.encode(RGB24(0, 0, 0)), 0);
    assert_eq!(cm.encode(RGB24(0xFF, 0, 0)), 0xF800);
    // low bits are floored away
    assert_eq!(cm.encode(RGB24(0x07, 0x03, 0x07)), 0);
}

#[test]
fn encode_is_lossless_on_decode_output() {
    for cm in [cm_rgb565(), cm_rgb1555(), cm_rgb5551()] {
        for s in [0u16, 1, 0x1F, 0x7C3, 0x1234, 0x8001, 0xABCD, 0xFFFF] {
            let c = cm.decode(s);
            let mask = cm.r_mask | cm.g_mask | cm.b_mask;
            assert_eq!(cm.encode(c), s & mask);
        }
    }
}

#[test]
fn opacity_masks() {
    let cm565 = cm_rgb565();
    assert!(!cm565.opaque(0));
    assert!(cm565.opaque(1));
    let cm1555 = cm_rgb1555();
    // the top bit is reserved and not transparency-relevant
    assert!(!cm1555.opaque(0x8000));
    assert!(cm1555.opaque(0x0001));
    let cm5551 = cm_rgb5551();
    // the bottom bit is reserved and not transparency-relevant
    assert!(!cm5551.opaque(0x0001));
    assert!(cm5551.opaque(0x0002));
}

#[test]
fn nudges_are_smallest_nonzero_encodable() {
    assert_eq!(cm_rgb565().nudge, 0x0020);
    assert_eq!(cm_rgb1555().nudge, 1);
    assert_eq!(cm_rgb5551().nudge, 2);
}

#[test]
fn channel_separation_round_trip() {
    let img = Raster::generate(3, 2, &|x: usize, y: usize| {
        RGB24((x * 50) as u8, (y * 90) as u8, (x + y) as u8)
    });
    let channels = RGB24::separate_channels(&img);
    let back = RGB24::combine_channels(&channels.0, &channels.1, &channels.2);
    for x in 0..3 {
        for y in 0..2 {
            assert_eq!(back.pixel(x, y), img.pixel(x, y));
        }
    }
}

#[test]
fn alpha_separation_round_trip() {
    let img = Raster::generate(2, 2, &|x: usize, y: usize| {
        ARGB32((x * 200) as u8, RGB24(1, (y * 7) as u8, 3))
    });
    let a = ARGB32::raster_a(&img);
    let rgb = ARGB32::raster_rgb(&img);
    let back = ARGB32::combine_channels(&a, &rgb);
    for x in 0..2 {
        for y in 0..2 {
            assert_eq!(back.pixel(x, y), img.pixel(x, y));
        }
    }
    let solid = ARGB32::opaque(&rgb);
    assert_eq!(solid.pixel(1, 1).0, 255);
    assert_eq!(solid.pixel(1, 1).1, img.pixel(1, 1).1);
}

#[test]
fn decode_raster_spr_marks_transparency() {
    let cm = cm_rgb565();
    let mut r = Raster::new_filled(2, 1, 0u16);
    r.set_pixel(1, 0, 0xF800);
    let out = cm.decode_raster_spr(&r);
    assert_eq!(out.pixel(0, 0), ARGB32(0, RGB24(0, 0, 0)));
    assert_eq!(out.pixel(1, 0), ARGB32(255, RGB24(0xFF, 0, 0)));
}

#[test]
fn raster_region_clipping() {
    let r: Raster<u16> = Raster::new_filled(10, 8, 7);
    let inside = r.region_clipped(2, 3, 4, 4);
    assert_eq!((inside.x, inside.y, inside.width, inside.height), (2, 3, 4, 4));
    let clipped = r.region_clipped(8, 6, 5, 5);
    assert_eq!((clipped.x, clipped.y, clipped.width, clipped.height), (8, 6, 2, 2));
    let empty = r.region_clipped(10, 0, 1, 1);
    assert_eq!((empty.width, empty.height), (0, 0));
}

#[test]
fn raster_copy_and_draw() {
    let mut dst: Raster<u16> = Raster::new_filled(4, 4, 0);
    let src: Raster<u16> = Raster::new_filled(2, 2, 9);
    dst.copy(&src, 1, 1);
    assert_eq!(dst.pixel(0, 0), 0);
    assert_eq!(dst.pixel(1, 1), 9);
    assert_eq!(dst.pixel(2, 2), 9);
    assert_eq!(dst.pixel(3, 3), 0);
    // clipped copy truncates at the edge instead of failing
    dst.copy_clipped(&src, 3, 3);
    assert_eq!(dst.pixel(3, 3), 9);
    let mut canvas: Raster<u16> = Raster::new_filled(2, 2, 5);
    canvas.draw(&src, 0, 0, &|s: u16, d: u16| s + d);
    assert_eq!(canvas.pixel(0, 0), 14);
}
