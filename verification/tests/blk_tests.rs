use kc3ds::blk16::{build_blk, headers, identify, read_blk, BLK16, BLK16Header, BLK_TILE_SIZE};
use kc3ds::raster::Raster;
use kc3ds::spritefile::S16Type;

#[test]
fn tile_size_is_fixed() {
    assert_eq!(BLK_TILE_SIZE, 128);
}

#[test]
fn split_join_aligned_is_exact() {
    let frame = Raster::generate(256, 128, &|x: usize, y: usize| (x * 7 + y * 3) as u16);
    let blk = BLK16::split(S16Type::S16_565, &frame);
    assert_eq!(blk.tiles_w, 2);
    assert_eq!(blk.tiles_h, 1);
    let joined = blk.join();
    assert_eq!(joined.width(), 256);
    assert_eq!(joined.height(), 128);
    for x in 0..256 {
        for y in 0..128 {
            assert_eq!(joined.pixel(x, y), frame.pixel(x, y));
        }
    }
}

#[test]
fn split_join_unaligned_pads_with_zero() {
    // an unaligned frame comes back padded up to tile multiples: the
    // covered area is reproduced, the padding is zero
    let frame = Raster::generate(100, 130, &|x: usize, y: usize| (x + y + 1) as u16);
    let blk = BLK16::split(S16Type::S16_565, &frame);
    assert_eq!(blk.tiles_w, 1);
    assert_eq!(blk.tiles_h, 2);
    let joined = blk.join();
    assert_eq!(joined.width(), 128);
    assert_eq!(joined.height(), 256);
    for x in 0..100 {
        for y in 0..130 {
            assert_eq!(joined.pixel(x, y), frame.pixel(x, y));
        }
    }
    assert_eq!(joined.pixel(100, 0), 0);
    assert_eq!(joined.pixel(127, 255), 0);
}

#[test]
fn blk_identify_takes_flat_magics_only() {
    assert_eq!(identify(&[1, 0, 0, 0]), Some(S16Type::S16_565));
    assert_eq!(identify(&[0, 0, 0, 0]), Some(S16Type::S16_555));
    // a compressed magic is not a BLK
    assert_eq!(identify(&[3, 0, 0, 0]), None);
    assert_eq!(identify(&[9, 9]), None);
}

#[test]
fn blk_header_layout_is_deliberately_quirky() {
    let h = BLK16Header { variant: S16Type::S16_565, width: 2, height: 1 };
    let bytes = h.to_bytes();
    assert_eq!(h.size(), 10 + 2 * 8);
    assert_eq!(bytes.len(), 26);
    assert_eq!(&bytes[0..4], &[1, 0, 0, 0]);
    assert_eq!(&bytes[4..6], &[2, 0]);
    assert_eq!(&bytes[6..8], &[1, 0]);
    assert_eq!(&bytes[8..10], &[2, 0]);
    // the per-tile base fields walk in sample counts, not bytes: 6, then
    // 6 + 16384, kept bit-for-bit for compatibility
    assert_eq!(&bytes[10..14], &[6, 0, 0, 0]);
    assert_eq!(&bytes[14..16], &[128, 0]);
    assert_eq!(&bytes[16..18], &[128, 0]);
    let second_base = u32::from_le_bytes([bytes[18], bytes[19], bytes[20], bytes[21]]);
    assert_eq!(second_base, 6 + 16384);
}

#[test]
fn blk_bytes_round_trip() {
    let frame = Raster::generate(130, 129, &|x: usize, y: usize| (x * 31 + y) as u16);
    let blk = BLK16::split(S16Type::S16_565, &frame);
    let bytes = build_blk(blk);
    let t = identify(&bytes).unwrap();
    let header = headers(t, &bytes).unwrap();
    assert_eq!(header.width, 2);
    assert_eq!(header.height, 2);
    let back = read_blk(&header, &bytes).unwrap();
    let joined = back.join();
    for x in 0..130 {
        for y in 0..129 {
            assert_eq!(joined.pixel(x, y), frame.pixel(x, y));
        }
    }
    assert_eq!(joined.pixel(255, 255), 0);
}

#[test]
fn blk_read_rejects_truncated_payload() {
    let header = BLK16Header { variant: S16Type::S16_565, width: 1, height: 1 };
    let mut bytes = header.to_bytes();
    bytes.extend(std::iter::repeat(0u8).take(100));
    assert!(read_blk(&header, &bytes).is_err());
}
