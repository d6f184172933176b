use kc3ds::cs16::{
    build, build_s16, headers, headers_s16, identify, identify_and_decompress,
    identify_and_headers, read_s16, CS16Error, CS16Header, S16Header, S16HeaderImage,
};
use kc3ds::raster::Raster;
use kc3ds::spritefile::{
    c16_row_compress, c16_row_validate, C16Frame, C16SpanStart, C16Type, CS16Sheet, CS16Type,
    S16Sheet, S16Type,
};

#[test]
fn magic_numbers_identify_formats() {
    // magic 1 is the flat 565 little-endian format
    assert_eq!(CS16Type::of_magic(1), Some(CS16Type::S16(S16Type::S16_565)));
    // magic 3 is the compressed 565 format
    assert_eq!(CS16Type::of_magic(3), Some(CS16Type::C16(C16Type::C16_565)));
    assert_eq!(CS16Type::of_magic(0), Some(CS16Type::S16(S16Type::S16_555)));
    assert_eq!(CS16Type::of_magic(2), Some(CS16Type::C16(C16Type::C16_555)));
    assert_eq!(CS16Type::of_magic(0x01000000), Some(CS16Type::S16(S16Type::N16)));
    assert_eq!(CS16Type::of_magic(0x03000000), Some(CS16Type::S16(S16Type::M16)));
    assert_eq!(CS16Type::of_magic(42), None);
}

#[test]
fn magic_of_variants() {
    assert_eq!(S16Type::S16_565.magic(), 1);
    assert_eq!(C16Type::C16_565.magic(), 3);
    assert!(S16Type::M16.is_be());
    assert!(!S16Type::S16_565.is_be());
    assert_eq!(S16Type::S16_565.describe(), "S16 RGB565 LE");
    assert_eq!(C16Type::C16_555.describe(), "C16 RGB555 LE");
}

#[test]
fn span_codec_round_trips() {
    assert_eq!(C16SpanStart::decode(0), C16SpanStart::End);
    assert_eq!(C16SpanStart::decode(0x8005), C16SpanStart::Colour(5));
    assert_eq!(C16SpanStart::decode(0x0005), C16SpanStart::Transparent(5));
    assert_eq!(C16SpanStart::Colour(5).encode(), 0x8005);
    assert_eq!(C16SpanStart::Transparent(5).encode(), 5);
    assert_eq!(C16SpanStart::End.encode(), 0);
    assert_eq!(C16SpanStart::Colour(7).data_len(), 7);
    assert_eq!(C16SpanStart::Transparent(7).data_len(), 0);
    assert_eq!(C16SpanStart::Transparent(7).advance(), 7);
}

fn decompress_one_row(row: Vec<u16>, width: usize) -> Vec<u16> {
    let frame = C16Frame { width, rows: vec![row] };
    let flat = frame.decompress();
    flat.row(0)
}

#[test]
fn row_round_trip_mixed() {
    let row: Vec<u16> = vec![0, 0, 7, 8, 0, 9, 0, 0, 0, 1];
    let compressed = c16_row_compress(&row);
    assert!(c16_row_validate(&compressed, row.len()));
    assert_eq!(decompress_one_row(compressed, row.len()), row);
}

#[test]
fn row_round_trip_all_zero_and_all_opaque() {
    let zeros: Vec<u16> = vec![0; 33];
    let c = c16_row_compress(&zeros);
    assert_eq!(c, vec![33u16]);
    assert_eq!(decompress_one_row(c, 33), zeros);

    let opaque: Vec<u16> = vec![5; 4];
    let c = c16_row_compress(&opaque);
    assert_eq!(c, vec![0x8004, 5, 5, 5, 5]);
    assert_eq!(decompress_one_row(c, 4), opaque);

    let empty: Vec<u16> = Vec::new();
    assert_eq!(c16_row_compress(&empty), Vec::<u16>::new());
}

#[test]
fn row_round_trip_long_runs_split() {
    // runs longer than 32767 split across several spans
    let mut row: Vec<u16> = vec![0; 40000];
    for v in row.iter_mut().skip(35000) {
        *v = 3;
    }
    let compressed = c16_row_compress(&row);
    assert_eq!(compressed[0], 32767);
    assert_eq!(compressed[1], 35000 - 32767);
    assert_eq!(compressed[2], 0x8000 | 5000);
    assert!(c16_row_validate(&compressed, 40000));
    assert_eq!(decompress_one_row(compressed, 40000), row);
}

#[test]
fn row_validate_rejects_wrong_width() {
    let row: Vec<u16> = vec![1, 2, 3, 4];
    let c = c16_row_compress(&row);
    assert!(c16_row_validate(&c, 4));
    assert!(!c16_row_validate(&c, 5));
    assert!(!c16_row_validate(&c, 3));
    // a colour run with too few samples is invalid
    assert!(!c16_row_validate(&[0x8003, 1, 2], 3));
}

#[test]
fn frame_round_trip() {
    let frame = Raster::generate(5, 3, &|x: usize, y: usize| {
        if (x + y) % 2 == 0 {
            0u16
        } else {
            (x * 10 + y) as u16
        }
    });
    let compressed = C16Frame::compress(&frame);
    assert_eq!(compressed.width, 5);
    assert_eq!(compressed.rows.len(), 3);
    let back = compressed.decompress();
    assert_eq!(back.width(), 5);
    assert_eq!(back.height(), 3);
    for x in 0..5 {
        for y in 0..3 {
            assert_eq!(back.pixel(x, y), frame.pixel(x, y));
        }
    }
}

#[test]
fn sheet_compress_only_for_little_endian_variants() {
    let frames = vec![Raster::new_filled(2, 2, 3u16)];
    let sheet = S16Sheet { id: S16Type::S16_565, frames };
    let c = sheet.compress().unwrap();
    assert_eq!(c.id, C16Type::C16_565);
    assert_eq!(c.frames.len(), 1);
    let m16 = S16Sheet { id: S16Type::M16, frames: vec![] };
    assert!(m16.compress().is_none());
    assert_eq!(S16Type::S16_555.to_equivalent_c16(), Some(C16Type::C16_555));
    assert_eq!(S16Type::N16.to_equivalent_c16(), None);
}

#[test]
fn flat_sheet_bytes_round_trip_all_black() {
    // encoding an all-zero-alpha, all-black 565 flat frame and decoding it
    // reproduces the sample values exactly
    let frame: Raster<u16> = Raster::new_filled(4, 2, 0u16);
    let sheet = S16Sheet { id: S16Type::S16_565, frames: vec![frame] };
    let bytes = build_s16(&sheet);
    assert_eq!(identify(&bytes), Some(CS16Type::S16(S16Type::S16_565)));
    let header = match identify_and_headers(&bytes).unwrap() {
        CS16Header::S16(h) => h,
        _ => panic!("expected a flat header"),
    };
    assert_eq!(header.images.len(), 1);
    assert_eq!(header.images[0].width, 4);
    assert_eq!(header.images[0].height, 2);
    let back = read_s16(&header, &bytes).unwrap();
    assert_eq!(back.frames.len(), 1);
    for x in 0..4 {
        for y in 0..2 {
            assert_eq!(back.frames[0].pixel(x, y), 0);
        }
    }
}

#[test]
fn flat_sheet_bytes_round_trip_values() {
    let frame = Raster::generate(3, 2, &|x: usize, y: usize| (x * 1000 + y * 77 + 1) as u16);
    let frame2 = Raster::generate(2, 1, &|x: usize, _y: usize| (x + 9) as u16);
    for id in [S16Type::S16_565, S16Type::M16] {
        let sheet = S16Sheet { id, frames: vec![frame.clone(), frame2.clone()] };
        let bytes = build_s16(&sheet);
        let header = match identify_and_headers(&bytes).unwrap() {
            CS16Header::S16(h) => h,
            _ => panic!("expected a flat header"),
        };
        let back = read_s16(&header, &bytes).unwrap();
        assert_eq!(back.frames.len(), 2);
        for x in 0..3 {
            for y in 0..2 {
                assert_eq!(back.frames[0].pixel(x, y), frame.pixel(x, y));
            }
        }
        assert_eq!(back.frames[1].pixel(1, 0), 10);
    }
}

#[test]
fn compressed_sheet_bytes_round_trip() {
    let frame = Raster::generate(6, 4, &|x: usize, y: usize| {
        if x < 2 {
            0u16
        } else {
            (x + y * 8) as u16
        }
    });
    let sheet = CS16Sheet { id: CS16Type::C16(C16Type::C16_565), frames: vec![frame.clone()] };
    let bytes = build(&sheet);
    assert_eq!(identify(&bytes), Some(CS16Type::C16(C16Type::C16_565)));
    let back = identify_and_decompress(&bytes).unwrap();
    assert_eq!(back.frames.len(), 1);
    for x in 0..6 {
        for y in 0..4 {
            assert_eq!(back.frames[0].pixel(x, y), frame.pixel(x, y));
        }
    }
}

#[test]
fn unidentified_and_truncated_inputs_fail() {
    assert_eq!(identify(&[1, 0]), None);
    assert!(matches!(
        identify_and_decompress(&[42, 0, 0, 0]),
        Err(CS16Error::Unidentified)
    ));
    // a valid magic with a truncated header
    assert!(matches!(
        identify_and_headers(&[1, 0, 0, 0, 9]),
        Err(CS16Error::InvalidHeader)
    ));
    // a header promising pixels past the end of the data
    let header = S16Header {
        variant: S16Type::S16_565,
        images: vec![S16HeaderImage { base: 6, width: 100, height: 100 }],
    };
    assert!(matches!(
        read_s16(&header, &[1, 0, 0, 0, 1, 0, 0, 0]),
        Err(CS16Error::TruncatedPixelData { frame: 0 })
    ));
}

#[test]
fn malformed_compressed_row_is_surfaced() {
    // build a compressed file, then corrupt the first row's span header so
    // the row reconstructs the wrong width
    let frame = Raster::new_filled(4, 1, 7u16);
    let sheet = CS16Sheet { id: CS16Type::C16(C16Type::C16_565), frames: vec![frame] };
    let mut bytes = build(&sheet);
    let header = match headers(CS16Type::C16(C16Type::C16_565), &bytes).unwrap() {
        CS16Header::C16(h) => h,
        _ => panic!("expected a compressed header"),
    };
    let base = header.images[0].base as usize;
    // span header was "opaque run of 4"; make it "opaque run of 3"
    assert_eq!(bytes[base], 4);
    bytes[base] = 3;
    assert!(matches!(
        identify_and_decompress(&bytes),
        Err(CS16Error::BadRow { frame: 0, row: 0, .. })
    ));
}

#[test]
fn header_serialization_layout() {
    let header = S16Header {
        variant: S16Type::S16_565,
        images: vec![S16HeaderImage { base: 14, width: 2, height: 2 }],
    };
    let bytes = header.to_bytes();
    assert_eq!(header.size(), 14);
    assert_eq!(bytes.len(), 14);
    assert_eq!(&bytes[0..4], &[1, 0, 0, 0]);
    assert_eq!(&bytes[4..6], &[1, 0]);
    assert_eq!(&bytes[6..10], &[14, 0, 0, 0]);
    assert_eq!(&bytes[10..14], &[2, 0, 2, 0]);
    // big-endian variants write their fields big-endian, magic stays little
    let be = S16Header {
        variant: S16Type::N16,
        images: vec![S16HeaderImage { base: 14, width: 2, height: 3 }],
    };
    let bytes = be.to_bytes();
    assert_eq!(&bytes[0..4], &[0, 0, 0, 1]);
    assert_eq!(&bytes[4..6], &[0, 1]);
    assert_eq!(&bytes[6..10], &[0, 0, 0, 14]);
    assert_eq!(&bytes[10..14], &[0, 2, 0, 3]);
}

#[test]
fn sheet_conversions_keep_frames() {
    let frames = vec![Raster::new_filled(2, 1, 5u16)];
    let s = S16Sheet { id: S16Type::S16_555, frames };
    let cs: CS16Sheet = s.into();
    assert!(matches!(cs.id, CS16Type::S16(S16Type::S16_555)));
    assert_eq!(cs.frames.len(), 1);
    let back: S16Sheet = cs.into();
    assert!(matches!(back.id, S16Type::S16_555));
    assert_eq!(back.frames[0].pixel(0, 0), 5);
}
