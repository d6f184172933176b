use kc3ds::bitdither::{
    all_bitdither_methods, dither_pattern_bayer2, dither_pattern_bayer4,
    dither_pattern_bluenoise15, dither_pattern_bluenoise9, dither_pattern_checkers,
    dither_pattern_nearest, dither_pattern_random, dither_pattern_with_random, BitDitherMethod,
    DitherPattern,
};
use kc3ds::raster::Raster;

fn shipped_patterns() -> Vec<DitherPattern> {
    vec![
        dither_pattern_nearest(),
        dither_pattern_checkers(),
        dither_pattern_bayer2(),
        dither_pattern_bayer4(),
        dither_pattern_bluenoise9(),
        dither_pattern_bluenoise15(),
        dither_pattern_random(),
        dither_pattern_with_random(dither_pattern_nearest()),
        dither_pattern_with_random(dither_pattern_checkers()),
        dither_pattern_with_random(dither_pattern_bayer2()),
        dither_pattern_with_random(dither_pattern_bayer4()),
        dither_pattern_with_random(dither_pattern_bluenoise9()),
        dither_pattern_with_random(dither_pattern_bluenoise15()),
    ]
}

#[test]
fn pattern_level_bounds_everywhere() {
    // level 0 never rounds up; the full level count always does
    for p in shipped_patterns() {
        let levels = p.levels();
        for x in 0..20 {
            for y in 0..20 {
                assert!(!p.get(x, y, 0));
                assert!(p.get(x, y, levels));
            }
        }
    }
}

#[test]
fn pattern_level_counts() {
    assert_eq!(dither_pattern_nearest().levels(), 1);
    assert_eq!(dither_pattern_checkers().levels(), 4);
    assert_eq!(dither_pattern_bayer2().levels(), 4);
    assert_eq!(dither_pattern_bayer4().levels(), 16);
    assert_eq!(dither_pattern_bluenoise9().levels(), 81);
    assert_eq!(dither_pattern_bluenoise15().levels(), 225);
    assert_eq!(dither_pattern_random().levels(), 256);
    assert_eq!(dither_pattern_with_random(dither_pattern_bayer4()).levels(), 16 * 256);
}

#[test]
fn random_pattern_is_deterministic() {
    let p = dither_pattern_random();
    let q = dither_pattern_random();
    for x in 0..16 {
        for y in 0..16 {
            for level in [0usize, 1, 37, 128, 255, 256] {
                assert_eq!(p.get(x, y, level), q.get(x, y, level));
            }
        }
    }
}

#[test]
fn bayer2_matrix_behaviour() {
    // thresholds 1 3 / 4 2: position (0,0) rounds up from level 1 on
    let p = dither_pattern_bayer2();
    assert!(p.get(0, 0, 1));
    assert!(!p.get(1, 0, 1));
    assert!(p.get(1, 0, 3));
    assert!(!p.get(0, 1, 3));
    assert!(p.get(0, 1, 4));
    // the pattern tiles with period 2
    assert_eq!(p.get(0, 0, 2), p.get(2, 2, 2));
}

#[test]
fn floor_method_floors() {
    let input = Raster::generate(4, 1, &|x: usize, _y: usize| (x as u8) * 80);
    let out = BitDitherMethod::Floor.run(input, 5, false);
    assert_eq!(out.pixel(0, 0), 0x00);
    assert_eq!(out.pixel(1, 0), 0x52); // bitcopy of 80
    assert_eq!(out.pixel(2, 0), 0xA5); // bitcopy of 160
    assert_eq!(out.pixel(3, 0), 0xF7); // bitcopy of 240
}

#[test]
fn nearest_method_rounds_to_nearest() {
    let input = Raster::new_filled(2, 2, 0x50u8);
    let out = BitDitherMethod::Pattern(dither_pattern_nearest()).run(input, 5, false);
    // 0x50 sits between 0x4A and 0x52, closer to 0x52 in linear light
    assert_eq!(out.pixel(0, 0), 0x52);
    assert_eq!(out.pixel(1, 1), 0x52);
}

#[test]
fn run_keeps_dimensions_and_lattice() {
    let input = Raster::generate(9, 7, &|x: usize, y: usize| (x * 29 + y * 53) as u8);
    for (_, m) in all_bitdither_methods() {
        let out = m.run(input.clone(), 5, false);
        assert_eq!(out.width(), 9);
        assert_eq!(out.height(), 7);
        let f = kc3ds::bitcopy::BitCopyField::new(5, 8);
        for x in 0..9 {
            for y in 0..7 {
                let v = out.pixel(x, y) as usize;
                assert_eq!(f.bitcopy(v), v, "dithered output must lie on the replicated lattice");
            }
        }
    }
}

#[test]
fn all_methods_have_names() {
    let all = all_bitdither_methods();
    assert_eq!(all.len(), 14);
    let names: Vec<&str> = all.iter().map(|v| v.0).collect();
    assert_eq!(
        names,
        vec![
            "floor",
            "nearest",
            "checkers",
            "bayer2",
            "bayer4",
            "bluenoise9",
            "bluenoise15",
            "random",
            "nearest-random",
            "checkers-random",
            "bayer2-random",
            "bayer4-random",
            "bluenoise9-random",
            "bluenoise15-random",
        ]
    );
}
