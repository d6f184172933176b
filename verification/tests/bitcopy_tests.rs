use kc3ds::bitcopy::{bitcopy_interpolation_table, linear_light, BitCopyField};

#[test]
fn bitcopy_concrete_5_of_8() {
    // 0x50 & 0xF8 = 0x50; 0x50 >> 5 = 2; 0x50 | 2 = 0x52; next shift gives 0.
    let f = BitCopyField::new(5, 8);
    assert_eq!(f.bitcopy(0x50), 0x52);
}

#[test]
fn bitcopy_masks() {
    let f = BitCopyField::new(5, 8);
    assert_eq!(f.uppermask(), 0xF8);
    assert_eq!(f.lowermask(), 0x1F);
    assert_eq!(f.shift(), 3);
    assert_eq!(f.bits(), 5);
}

#[test]
fn bitcopy_extremes() {
    let f = BitCopyField::new(5, 8);
    assert_eq!(f.bitcopy(0x00), 0x00);
    assert_eq!(f.bitcopy(0xFF), 0xFF);
    assert_eq!(f.bitcopy(0x07), 0x00);
    let f6 = BitCopyField::new(6, 8);
    assert_eq!(f6.bitcopy(0xFF), 0xFF);
    assert_eq!(f6.bitcopy(0x04), 0x04);
}

#[test]
fn bitcopy_zero_bits_collapses() {
    let f = BitCopyField::new(0, 8);
    assert_eq!(f.bitcopy(0xFF), 0);
    assert_eq!(f.bitcopy(0x01), 0);
    assert_eq!(f.shiftdown(0xFF), 0);
}

#[test]
fn bitcopy_idempotent_all_8bit() {
    for bits in 0..=8 {
        let f = BitCopyField::new(bits, 8);
        for v in 0..256 {
            let once = f.bitcopy(v);
            assert_eq!(f.bitcopy(once), once);
        }
    }
}

#[test]
fn shiftup_shiftdown() {
    let f = BitCopyField::new(5, 8);
    assert_eq!(f.shiftdown(0xFF), 0x1F);
    assert_eq!(f.shiftup(0x1F), 0xFF);
    assert_eq!(f.shiftup(2), 0x10);
}

#[test]
fn prev_next_boundaries() {
    let f = BitCopyField::new(5, 8);
    assert_eq!(f.prev(0x07), None);
    assert_eq!(f.next(0xFF), None);
    assert_eq!(f.next(0x00), Some(0x08));
    assert_eq!(f.prev(0xFF), Some(0xF7));
}

#[test]
fn interpolation_brackets_all_inputs() {
    for bits in 0..=8u32 {
        for ll in [false, true] {
            let f = BitCopyField::new(bits as usize, 8);
            for v in 0..256usize {
                let ie = f.interpolation(v, ll);
                assert!(ie.from <= v);
                assert!(ie.to >= v || ie.from == ie.to);
                assert!(ie.frac_num <= ie.frac_div);
                assert!(ie.frac_div >= 1);
            }
        }
    }
}

#[test]
fn interpolation_direct_concrete() {
    let f = BitCopyField::new(5, 8);
    let ie = f.interpolation(0x50, false);
    // 0x50 sits between the replicated values 0x4A and 0x52
    assert_eq!(ie.from, 0x4A);
    assert_eq!(ie.to, 0x52);
    assert_eq!(ie.frac_num, 0x50 - 0x4A);
    assert_eq!(ie.frac_div, 0x52 - 0x4A);
}

#[test]
fn interpolation_top_is_degenerate() {
    let f = BitCopyField::new(5, 8);
    let ie = f.interpolation(0xFF, false);
    assert_eq!(ie.from, 0xFF);
    assert_eq!(ie.to, 0xFF);
    assert_eq!(ie.frac_num, 1);
    assert_eq!(ie.frac_div, 1);
}

#[test]
fn interpolation_table_matches_single_calls() {
    let f = BitCopyField::new(5, 8);
    let table = bitcopy_interpolation_table(5, true);
    assert_eq!(table.len(), 256);
    for v in 0..256usize {
        assert_eq!(table[v], f.interpolation(v, true));
    }
}

#[test]
fn linear_light_curve_endpoints() {
    assert_eq!(linear_light(0), 0);
    assert_eq!(linear_light(255), 65536);
    assert!(linear_light(128) < linear_light(129));
}
