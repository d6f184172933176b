//! The S16/C16 container codec: identifying a file by its magic number,
//! parsing and serializing headers, and reading and building whole
//! sheets.

use vstd::prelude::*;
use crate::endian::{spec_u16_at, spec_u16_bytes, spec_u32_at, spec_u32_bytes, Endianness};
use crate::spritefile::{
    spec_row_pixels, spec_row_valid, C16Frame, C16Row, C16Sheet, C16Type, CS16Sheet, CS16Type,
    S16Frame, S16Sheet, S16Type, c16_row_validate,
};
use crate::raster::Raster;

verus! {

/// Why a sheet could not be decoded.
#[derive(Copy, Clone, PartialEq, Eq, Structural, Debug)]
pub enum CS16Error {
    /// The magic number names no known format.
    Unidentified,
    /// The header runs past the end of the data.
    InvalidHeader,
    /// A frame's pixel data runs past the end of the data.
    TruncatedPixelData { frame: usize },
    /// A compressed row is truncated or reconstructs the wrong number of
    /// pixels; `offset` is the byte position its data starts at.
    BadRow { frame: usize, row: usize, offset: usize },
}

impl CS16Error {
    /// A short name for the error kind.
    pub fn describe(&self) -> (r: &'static str)
        ensures
            r@ == (match self {
                CS16Error::Unidentified => "unable to identify file"@,
                CS16Error::InvalidHeader => "invalid header"@,
                CS16Error::TruncatedPixelData { .. } => "unable to read pixel"@,
                CS16Error::BadRow { .. } => "malformed row"@,
            }),
    {
        match self {
            CS16Error::Unidentified => "unable to identify file",
            CS16Error::InvalidHeader => "invalid header",
            CS16Error::TruncatedPixelData { .. } => "unable to read pixel",
            CS16Error::BadRow { .. } => "malformed row",
        }
    }
}

/// Identifies a S16/C16 by the little-endian magic in its first four
/// bytes.
pub fn identify(data: &[u8]) -> (r: Option<CS16Type>)
    ensures
        r == (if data@.len() >= 4 {
            CS16Type::spec_of_magic(spec_u32_at(Endianness::Little, data@, 0))
        } else {
            None::<CS16Type>
        }),
{
    if let Ok(val) = Endianness::Little.r_u32(data, 0) {
        CS16Type::of_magic(val)
    } else {
        None
    }
}

/// One image entry of a flat-sheet header.
#[derive(Clone, Copy, PartialEq, Eq, Structural, Debug)]
pub struct S16HeaderImage {
    pub base: u32,
    pub width: u16,
    pub height: u16,
}

/// The header of a flat sheet: its variant and its image entries.
pub struct S16Header {
    pub variant: S16Type,
    pub images: Vec<S16HeaderImage>,
}

/// The eight bytes of one flat image entry.
pub open spec fn spec_s16_image_bytes(e: Endianness, img: S16HeaderImage) -> Seq<u8> {
    spec_u32_bytes(e, img.base) + spec_u16_bytes(e, img.width) + spec_u16_bytes(e, img.height)
}

/// The bytes of a list of flat image entries, in order.
pub open spec fn spec_s16_images_bytes(e: Endianness, imgs: Seq<S16HeaderImage>) -> Seq<u8>
    decreases imgs.len(),
{
    if imgs.len() == 0 {
        Seq::empty()
    } else {
        spec_s16_images_bytes(e, imgs.drop_last()) + spec_s16_image_bytes(e, imgs.last())
    }
}

impl S16Header {
    /// The header's byte order.
    pub open spec fn spec_endianness(&self) -> Endianness {
        if self.variant.spec_is_be() {
            Endianness::Big
        } else {
            Endianness::Little
        }
    }

    /// The serialized header: the magic (always little-endian), the image
    /// count, then the entries, in the variant's byte order.
    pub open spec fn spec_bytes(&self) -> Seq<u8> {
        spec_u32_bytes(Endianness::Little, self.variant.spec_magic()) + spec_u16_bytes(
            self.spec_endianness(),
            self.images@.len() as u16,
        ) + spec_s16_images_bytes(self.spec_endianness(), self.images@)
    }

    /// Gets the sheet variant.
    pub fn variant_cs16(&self) -> (r: CS16Type)
        ensures
            r == CS16Type::S16(self.variant),
    {
        CS16Type::S16(self.variant)
    }

    /// Gets a summary of image sizes.
    pub fn image_sizes(&self) -> (r: Vec<(usize, usize)>)
        ensures
            r@.len() == self.images@.len(),
            forall|i: int|
                0 <= i < r@.len() ==> #[trigger] r@[i] == (
                    self.images@[i].width as usize,
                    self.images@[i].height as usize,
                ),
    {
        let mut r: Vec<(usize, usize)> = Vec::new();
        let mut i: usize = 0;
        while i < self.images.len()
            invariant
                i <= self.images@.len(),
                r@.len() == i,
                forall|k: int|
                    0 <= k < i ==> #[trigger] r@[k] == (
                        self.images@[k].width as usize,
                        self.images@[k].height as usize,
                    ),
            decreases self.images@.len() - i,
        {
            let img = self.images[i];
            r.push((img.width as usize, img.height as usize));
            i += 1;
        }
        r
    }

    /// Measures the size of the serialized header.
    pub fn size(&self) -> (r: usize)
        requires
            self.images@.len() <= 0xFFFF,
        ensures
            r == 6 + self.images@.len() * 8,
            r == self.spec_bytes().len(),
    {
        proof {
            lemma_s16_images_bytes_len(self.spec_endianness(), self.images@);
        }
        6 + (self.images.len() * 8)
    }

    /// Converts the header to bytes.
    pub fn to_bytes(&self) -> (r: Vec<u8>)
        requires
            self.images@.len() <= 0xFFFF,
        ensures
            r@ == self.spec_bytes(),
    {
        let endianness = if self.variant.is_be() {
            Endianness::Big
        } else {
            Endianness::Little
        };
        let mut data: Vec<u8> = Vec::new();
        Endianness::Little.push_u32(&mut data, self.variant.magic());
        endianness.push_u16(&mut data, self.images.len() as u16);
        let ghost prefix = data@;
        let mut i: usize = 0;
        proof {
            assert(self.images@.take(0) =~= Seq::<S16HeaderImage>::empty());
        }
        while i < self.images.len()
            invariant
                i <= self.images@.len(),
                endianness == self.spec_endianness(),
                prefix == spec_u32_bytes(Endianness::Little, self.variant.spec_magic())
                    + spec_u16_bytes(self.spec_endianness(), self.images@.len() as u16),
                data@ == prefix + spec_s16_images_bytes(endianness, self.images@.take(i as int)),
            decreases self.images@.len() - i,
        {
            let img = self.images[i];
            endianness.push_u32(&mut data, img.base);
            endianness.push_u16(&mut data, img.width);
            endianness.push_u16(&mut data, img.height);
            i += 1;
            proof {
                let t = self.images@.take(i as int);
                assert(t.drop_last() =~= self.images@.take(i - 1));
                assert(t.last() == self.images@[i - 1]);
                assert(data@ =~= prefix + spec_s16_images_bytes(endianness, t));
            }
        }
        proof {
            assert(self.images@.take(self.images@.len() as int) =~= self.images@);
        }
        data
    }
}

/// Entry lists serialize to eight bytes per entry.
pub proof fn lemma_s16_images_bytes_len(e: Endianness, imgs: Seq<S16HeaderImage>)
    ensures
        spec_s16_images_bytes(e, imgs).len() == imgs.len() * 8,
    decreases imgs.len(),
{
    if imgs.len() > 0 {
        lemma_s16_images_bytes_len(e, imgs.drop_last());
    }
}

/// The count field and all the entries it promises lie inside the data.
pub open spec fn spec_s16_header_fits(t: S16Type, data: Seq<u8>) -> bool {
    let e = if t.spec_is_be() {
        Endianness::Big
    } else {
        Endianness::Little
    };
    data.len() >= 6 && 6 + (spec_u16_at(e, data, 4) as int) * 8 <= data.len()
}

/// `h` is exactly the flat header stored in `data`.
pub open spec fn spec_s16_header_ok(t: S16Type, data: Seq<u8>, h: S16Header) -> bool {
    let e = h.spec_endianness();
    &&& spec_s16_header_fits(t, data)
    &&& h.variant == t
    &&& h.images@.len() == spec_u16_at(e, data, 4)
    &&& h.images@.len() <= 0xFFFF
    &&& forall|i: int|
        0 <= i < h.images@.len() ==> #[trigger] h.images@[i] == (S16HeaderImage {
            base: spec_u32_at(e, data, 6 + i * 8),
            width: spec_u16_at(e, data, 6 + i * 8 + 4),
            height: spec_u16_at(e, data, 6 + i * 8 + 6),
        })
}

/// Reads the header of a flat sheet.  Fails exactly when the count field
/// or any of the entries it promises runs past the end of the data.
pub fn headers_s16(t: S16Type, data: &[u8]) -> (r: Result<S16Header, ()>)
    ensures
        match r {
            Ok(h) => spec_s16_header_ok(t, data@, h),
            Err(_) => !spec_s16_header_fits(t, data@),
        },
{
    let endianness = t.endianness();
    let image_count = match endianness.r_u16(data, 4) {
        Ok(c) => c,
        Err(_) => {
            return Err(());
        },
    };
    if data.len() < 6 || (data.len() - 6) / 8 < image_count as usize {
        proof {
            assert(6 + (image_count as int) * 8 > data@.len()) by (nonlinear_arith)
                requires
                    data@.len() >= 6,
                    ((data@.len() - 6) as int) / 8 < image_count as int,
            ;
        }
        return Err(());
    }
    proof {
        assert(6 + (image_count as int) * 8 <= data@.len()) by (nonlinear_arith)
            requires
                data@.len() >= 6,
                ((data@.len() - 6) as int) / 8 >= image_count as int,
        ;
    }
    let mut images: Vec<S16HeaderImage> = Vec::new();
    let mut i: usize = 0;
    while i < image_count as usize
        invariant
            i <= image_count as usize,
            6 + (image_count as int) * 8 <= data@.len(),
            images@.len() == i,
            forall|k: int|
                0 <= k < i ==> #[trigger] images@[k] == (S16HeaderImage {
                    base: spec_u32_at(endianness, data@, 6 + k * 8),
                    width: spec_u16_at(endianness, data@, 6 + k * 8 + 4),
                    height: spec_u16_at(endianness, data@, 6 + k * 8 + 6),
                }),
        decreases image_count as int - i,
    {
        proof {
            assert((i as int + 1) * 8 <= (image_count as int) * 8) by (nonlinear_arith)
                requires
                    i < image_count as int,
            ;
            assert(i as int * 8 + 8 == (i as int + 1) * 8) by (nonlinear_arith);
        }
        let ptr = 6 + i * 8;
        let base = match endianness.r_u32(data, ptr) {
            Ok(v) => v,
            Err(_) => {
                proof {
                    assert(false);
                }
                return Err(());
            },
        };
        let width = match endianness.r_u16(data, ptr + 4) {
            Ok(v) => v,
            Err(_) => {
                proof {
                    assert(false);
                }
                return Err(());
            },
        };
        let height = match endianness.r_u16(data, ptr + 6) {
            Ok(v) => v,
            Err(_) => {
                proof {
                    assert(false);
                }
                return Err(());
            },
        };
        images.push(S16HeaderImage { base, width, height });
        i += 1;
    }
    Ok(S16Header { variant: t, images })
}

/// One image entry of a compressed-sheet header: the usual fields plus
/// the byte position of every row but the first.
#[derive(Clone, PartialEq, Eq, Debug)]
pub struct C16HeaderImage {
    pub base: u32,
    pub width: u16,
    pub height: u16,
    pub row_bases: Vec<u32>,
}

/// The header of a compressed sheet.
pub struct C16Header {
    pub variant: C16Type,
    pub images: Vec<C16HeaderImage>,
}

/// The serialized size of one compressed-header entry with the given
/// height: eight fixed bytes plus one row-offset word per row after the
/// first.
pub open spec fn spec_c16_entry_size(h: u16) -> int {
    8 + if h > 1 {
        4 * (h - 1)
    } else {
        0int
    }
}

/// The byte offset of compressed-header entry `i`, walking the entries
/// before it (their heights come from the data itself).
pub open spec fn spec_c16_entry_offset(e: Endianness, data: Seq<u8>, i: nat) -> int
    decreases i,
{
    if i == 0 {
        6
    } else {
        let p = spec_c16_entry_offset(e, data, (i - 1) as nat);
        p + spec_c16_entry_size(spec_u16_at(e, data, p + 6))
    }
}

/// Entry offsets grow with the entry index.
pub proof fn lemma_c16_offset_mono(e: Endianness, data: Seq<u8>, i: nat, j: nat)
    requires
        i <= j,
    ensures
        6 <= spec_c16_entry_offset(e, data, i) <= spec_c16_entry_offset(e, data, j),
    decreases j,
{
    if j > 0 {
        if i <= j - 1 {
            lemma_c16_offset_mono(e, data, i, (j - 1) as nat);
        } else {
            lemma_c16_offset_mono(e, data, (j - 1) as nat, (j - 1) as nat);
        }
    }
}

impl C16HeaderImage {
    /// The row-offset list matches the height.
    pub open spec fn wf(&self) -> bool {
        self.row_bases@.len() == (if self.height > 1 {
            self.height - 1
        } else {
            0int
        })
    }
}

impl C16Header {
    /// The entry count fits its field and every entry is consistent.
    pub open spec fn wf(&self) -> bool {
        &&& self.images@.len() <= 0xFFFF
        &&& forall|i: int| 0 <= i < self.images@.len() ==> (#[trigger] self.images@[i]).wf()
    }

    /// The header's byte order.
    pub open spec fn spec_endianness(&self) -> Endianness {
        Endianness::Little
    }

    /// Gets the sheet variant.
    pub fn variant_cs16(&self) -> (r: CS16Type)
        ensures
            r == CS16Type::C16(self.variant),
    {
        CS16Type::C16(self.variant)
    }

    /// Gets a summary of image sizes.
    pub fn image_sizes(&self) -> (r: Vec<(usize, usize)>)
        ensures
            r@.len() == self.images@.len(),
            forall|i: int|
                0 <= i < r@.len() ==> #[trigger] r@[i] == (
                    self.images@[i].width as usize,
                    self.images@[i].height as usize,
                ),
    {
        let mut r: Vec<(usize, usize)> = Vec::new();
        let mut i: usize = 0;
        while i < self.images.len()
            invariant
                i <= self.images@.len(),
                r@.len() == i,
                forall|k: int|
                    0 <= k < i ==> #[trigger] r@[k] == (
                        self.images@[k].width as usize,
                        self.images@[k].height as usize,
                    ),
            decreases self.images@.len() - i,
        {
            let w = self.images[i].width;
            let h = self.images[i].height;
            r.push((w as usize, h as usize));
            i += 1;
        }
        r
    }
}

/// The count field and all the entries it promises lie inside the data.
pub open spec fn spec_c16_header_fits(data: Seq<u8>) -> bool {
    data.len() >= 6 && spec_c16_entry_offset(
        Endianness::Little,
        data,
        spec_u16_at(Endianness::Little, data, 4) as nat,
    ) <= data.len()
}

/// `h` is exactly the compressed header stored in `data`.
pub open spec fn spec_c16_header_ok(t: C16Type, data: Seq<u8>, h: C16Header) -> bool {
    let e = Endianness::Little;
    &&& spec_c16_header_fits(data)
    &&& h.variant == t
    &&& h.wf()
    &&& h.images@.len() == spec_u16_at(e, data, 4)
    &&& forall|i: int|
        0 <= i < h.images@.len() ==> {
            let p = spec_c16_entry_offset(e, data, i as nat);
            let img = #[trigger] h.images@[i];
            &&& img.base == spec_u32_at(e, data, p)
            &&& img.width == spec_u16_at(e, data, p + 4)
            &&& img.height == spec_u16_at(e, data, p + 6)
            &&& forall|j: int|
                0 <= j < img.row_bases@.len() ==> #[trigger] img.row_bases@[j] == spec_u32_at(
                    e,
                    data,
                    p + 8 + j * 4,
                )
        }
}

/// Reads the header of a compressed sheet.  Fails exactly when the count
/// field or any of the entries it promises runs past the end of the data.
pub fn headers_c16(t: C16Type, data: &[u8]) -> (r: Result<C16Header, ()>)
    ensures
        match r {
            Ok(h) => spec_c16_header_ok(t, data@, h),
            Err(_) => !spec_c16_header_fits(data@),
        },
{
    let endianness = t.endianness();
    let ghost e = Endianness::Little;
    let image_count = match endianness.r_u16(data, 4) {
        Ok(c) => c,
        Err(_) => {
            return Err(());
        },
    };
    let ghost count = image_count as nat;
    let dlen = data.len();
    let mut images: Vec<C16HeaderImage> = Vec::new();
    let mut ptr: usize = 6;
    let mut i: usize = 0;
    while i < image_count as usize
        invariant
            i <= image_count as usize,
            count == image_count as nat,
            e == Endianness::Little,
            image_count == spec_u16_at(Endianness::Little, data@, 4),
            endianness == Endianness::Little,
            data@.len() >= 6,
            data@.len() == dlen,
            ptr == spec_c16_entry_offset(e, data@, i as nat),
            ptr <= data@.len(),
            images@.len() == i,
            forall|k: int|
                0 <= k < i ==> {
                    let p = spec_c16_entry_offset(e, data@, k as nat);
                    let img = #[trigger] images@[k];
                    &&& img.wf()
                    &&& img.base == spec_u32_at(e, data@, p)
                    &&& img.width == spec_u16_at(e, data@, p + 4)
                    &&& img.height == spec_u16_at(e, data@, p + 6)
                    &&& forall|j: int|
                        0 <= j < img.row_bases@.len() ==> #[trigger] img.row_bases@[j]
                            == spec_u32_at(e, data@, p + 8 + j * 4)
                },
        decreases image_count as int - i,
    {
        let ghost p = ptr as int;
        let base = match endianness.r_u32(data, ptr) {
            Ok(v) => v,
            Err(_) => {
                proof {
                    assert(spec_c16_entry_offset(e, data@, (i + 1) as nat) == p
                        + spec_c16_entry_size(spec_u16_at(e, data@, p + 6)));
                    lemma_c16_offset_mono(e, data@, (i + 1) as nat, count);
                }
                return Err(());
            },
        };
        let width = match endianness.r_u16(data, ptr + 4) {
            Ok(v) => v,
            Err(_) => {
                proof {
                    assert(spec_c16_entry_offset(e, data@, (i + 1) as nat) == p
                        + spec_c16_entry_size(spec_u16_at(e, data@, p + 6)));
                    lemma_c16_offset_mono(e, data@, (i + 1) as nat, count);
                }
                return Err(());
            },
        };
        let height = match endianness.r_u16(data, ptr + 6) {
            Ok(v) => v,
            Err(_) => {
                proof {
                    assert(spec_c16_entry_offset(e, data@, (i + 1) as nat) == p
                        + spec_c16_entry_size(spec_u16_at(e, data@, p + 6)));
                    lemma_c16_offset_mono(e, data@, (i + 1) as nat, count);
                }
                return Err(());
            },
        };
        ptr = ptr + 8;
        let mut row_bases: Vec<u32> = Vec::new();
        if height > 1 {
            let mut j: usize = 0;
            while j < (height - 1) as usize
                invariant
                    j <= (height - 1) as usize,
                    height > 1,
                    data@.len() >= 6,
                    data@.len() == dlen,
                    i < image_count as usize,
                    count == image_count as nat,
                    e == Endianness::Little,
                    image_count == spec_u16_at(Endianness::Little, data@, 4),
                    endianness == Endianness::Little,
                    p == spec_c16_entry_offset(e, data@, i as nat),
                    height == spec_u16_at(e, data@, p + 6),
                    ptr == p + 8 + 4 * j,
                    ptr <= data@.len(),
                    row_bases@.len() == j,
                    forall|k: int|
                        0 <= k < j ==> #[trigger] row_bases@[k] == spec_u32_at(
                            e,
                            data@,
                            p + 8 + k * 4,
                        ),
                decreases height as int - 1 - j,
            {
                let rb = match endianness.r_u32(data, ptr) {
                    Ok(v) => v,
                    Err(_) => {
                        proof {
                            assert(spec_c16_entry_offset(e, data@, (i + 1) as nat) == p
                                + spec_c16_entry_size(spec_u16_at(e, data@, p + 6)));
                            assert(4 * j + 4 <= 4 * (height - 1)) by (nonlinear_arith)
                                requires
                                    j < height - 1,
                            ;
                            lemma_c16_offset_mono(e, data@, (i + 1) as nat, count);
                        }
                        return Err(());
                    },
                };
                row_bases.push(rb);
                ptr = ptr + 4;
                j += 1;
            }
        }
        proof {
            assert(spec_c16_entry_offset(e, data@, (i + 1) as nat) == p + spec_c16_entry_size(
                height,
            ));
        }
        images.push(C16HeaderImage { base, width, height, row_bases });
        i += 1;
    }
    Ok(C16Header { variant: t, images })
}

/// `frames` hold exactly the pixel data that `header` places in `data`.
pub open spec fn spec_s16_frames_ok(header: &S16Header, data: Seq<u8>, frames: Seq<S16Frame>) -> bool {
    let e = header.spec_endianness();
    &&& frames.len() == header.images@.len()
    &&& forall|i: int|
        0 <= i < header.images@.len() ==> {
            let f = #[trigger] frames[i];
            let img = header.images@[i];
            &&& f.width == img.width
            &&& f.height == img.height
            &&& forall|x: int, y: int|
                0 <= x < f.width && 0 <= y < f.height ==> f.spec_pixel(x, y) == spec_u16_at(
                    e,
                    data,
                    img.base + 2 * (y * img.width + x),
                )
        }
}

/// `sheet` holds exactly the pixel data that `header` places in `data`.
pub open spec fn spec_s16_sheet_ok(header: &S16Header, data: Seq<u8>, sheet: S16Sheet) -> bool {
    &&& sheet.id == header.variant
    &&& sheet.wf()
    &&& spec_s16_frames_ok(header, data, sheet.frames@)
}

/// Reads a flat sheet's pixel data.  Fails on the first frame whose pixel
/// block runs past the end of the data.
pub fn read_s16(header: &S16Header, data: &[u8]) -> (r: Result<S16Sheet, CS16Error>)
    requires
        header.images@.len() <= 0xFFFF,
    ensures
        match r {
            Ok(sheet) => spec_s16_sheet_ok(header, data@, sheet),
            Err(er) => match er {
                CS16Error::TruncatedPixelData { frame } => {
                    let img = header.images@[frame as int];
                    &&& frame < header.images@.len()
                    &&& img.width > 0 && img.height > 0
                    &&& img.base + 2 * (img.width as int) * (img.height as int) > data@.len()
                },
                _ => false,
            },
        },
{
    let endianness = header.variant.endianness();
    let mut frames: Vec<S16Frame> = Vec::new();
    let mut i: usize = 0;
    while i < header.images.len()
        invariant
            i <= header.images@.len(),
            header.images@.len() <= 0xFFFF,
            endianness == header.spec_endianness(),
            frames@.len() == i,
            forall|k: int|
                0 <= k < i ==> {
                    let f = #[trigger] frames@[k];
                    let img = header.images@[k];
                    &&& f.wf()
                    &&& f.width == img.width
                    &&& f.height == img.height
                    &&& forall|x: int, y: int|
                        0 <= x < f.width && 0 <= y < f.height ==> f.spec_pixel(x, y)
                            == spec_u16_at(endianness, data@, img.base + 2 * (y * img.width + x))
                },
        decreases header.images@.len() - i,
    {
        let img = header.images[i];
        let w = img.width as usize;
        let h = img.height as usize;
        proof {
            assert(w * h <= 0xFFFF * 0xFFFF) by (nonlinear_arith)
                requires
                    w <= 0xFFFF,
                    h <= 0xFFFF,
            ;
        }
        if w == 0 || h == 0 {
            let frame: S16Frame = Raster::new_filled(w, h, 0u16);
            frames.push(frame);
            i += 1;
            continue ;
        }
        // the whole pixel block must fit
        proof {
            assert(2 * (w as int) * (h as int) <= 2 * 0xFFFF * 0xFFFF) by (nonlinear_arith)
                requires
                    w <= 0xFFFF,
                    h <= 0xFFFF,
            ;
        }
        let need: u64 = 2u64 * (w as u64) * (h as u64);
        if (data.len() as u64) < need || (img.base as u64) > (data.len() as u64) - need {
            return Err(CS16Error::TruncatedPixelData { frame: i });
        }
        proof {
            assert(img.base + 2 * (w as int) * (h as int) <= data@.len());
        }
        let dlen = data.len();
        let mut frame: S16Frame = Raster::new_filled(w, h, 0u16);
        let base = img.base as usize;
        let mut y: usize = 0;
        while y < h
            invariant
                y <= h,
                w == img.width as usize && h == img.height as usize,
                w > 0 && h > 0,
                data@.len() == dlen,
                img.base + 2 * (w as int) * (h as int) <= data@.len(),
                base == img.base,
                frame.wf(),
                frame.width == w,
                frame.height == h,
                forall|xi: int, yi: int|
                    0 <= xi < w && 0 <= yi < y ==> frame.spec_pixel(xi, yi) == spec_u16_at(
                        endianness,
                        data@,
                        img.base + 2 * (yi * img.width + xi),
                    ),
            decreases h - y,
        {
            let mut x: usize = 0;
            while x < w
                invariant
                    x <= w,
                    y < h,
                    w == img.width as usize && h == img.height as usize,
                    w > 0 && h > 0,
                    data@.len() == dlen,
                    img.base + 2 * (w as int) * (h as int) <= data@.len(),
                    base == img.base,
                    frame.wf(),
                    frame.width == w,
                    frame.height == h,
                    forall|xi: int, yi: int|
                        0 <= xi < w && 0 <= yi < y ==> frame.spec_pixel(xi, yi) == spec_u16_at(
                            endianness,
                            data@,
                            img.base + 2 * (yi * img.width + xi),
                        ),
                    forall|xi: int|
                        0 <= xi < x ==> frame.spec_pixel(xi, y as int) == spec_u16_at(
                            endianness,
                            data@,
                            img.base + 2 * (y as int * img.width + xi),
                        ),
                decreases w - x,
            {
                proof {
                    assert(y as int * w + x < h as int * w) by (nonlinear_arith)
                        requires
                            0 <= x < w,
                            0 <= y < h,
                    ;
                    assert(2 * (y as int * w + x) + 2 <= 2 * (w as int) * (h as int))
                        by (nonlinear_arith)
                        requires
                            y as int * w + x < (h as int) * (w as int),
                    ;
                }
                let pos = base + 2 * (y * w + x);
                let v = match endianness.r_u16(data, pos) {
                    Ok(v) => v,
                    Err(_) => {
                        proof {
                            assert(false);
                        }
                        return Err(CS16Error::TruncatedPixelData { frame: i });
                    },
                };
                frame.set_pixel(x, y, v);
                x += 1;
            }
            y += 1;
        }
        frames.push(frame);
        i += 1;
    }
    Ok(S16Sheet { id: header.variant, frames })
}

/// The bytes of a list of 32-bit words, in order.
pub open spec fn spec_u32s_bytes(e: Endianness, words: Seq<u32>) -> Seq<u8>
    decreases words.len(),
{
    if words.len() == 0 {
        Seq::empty()
    } else {
        spec_u32s_bytes(e, words.drop_last()) + spec_u32_bytes(e, words.last())
    }
}

/// The bytes of a list of 16-bit words, in order.
pub open spec fn spec_u16s_bytes(e: Endianness, words: Seq<u16>) -> Seq<u8>
    decreases words.len(),
{
    if words.len() == 0 {
        Seq::empty()
    } else {
        spec_u16s_bytes(e, words.drop_last()) + spec_u16_bytes(e, words.last())
    }
}

/// The bytes of one compressed-header entry.
pub open spec fn spec_c16_image_bytes(e: Endianness, img: C16HeaderImage) -> Seq<u8> {
    spec_u32_bytes(e, img.base) + spec_u16_bytes(e, img.width) + spec_u16_bytes(e, img.height)
        + spec_u32s_bytes(e, img.row_bases@)
}

/// The bytes of a list of compressed-header entries, in order.
pub open spec fn spec_c16_images_bytes(e: Endianness, imgs: Seq<C16HeaderImage>) -> Seq<u8>
    decreases imgs.len(),
{
    if imgs.len() == 0 {
        Seq::empty()
    } else {
        spec_c16_images_bytes(e, imgs.drop_last()) + spec_c16_image_bytes(e, imgs.last())
    }
}

impl C16Header {
    /// The serialized header: the magic (always little-endian), the image
    /// count, then the entries with their row-offset words.
    pub open spec fn spec_bytes(&self) -> Seq<u8> {
        spec_u32_bytes(Endianness::Little, self.variant.spec_magic()) + spec_u16_bytes(
            Endianness::Little,
            self.images@.len() as u16,
        ) + spec_c16_images_bytes(Endianness::Little, self.images@)
    }

    /// The serialized size of the entry list.
    pub open spec fn spec_images_size(imgs: Seq<C16HeaderImage>) -> int
        decreases imgs.len(),
    {
        if imgs.len() == 0 {
            0
        } else {
            Self::spec_images_size(imgs.drop_last()) + 8 + 4 * imgs.last().row_bases@.len()
        }
    }

    /// Measures the size of the serialized header.
    pub fn size(&self) -> (r: usize)
        requires
            6 + Self::spec_images_size(self.images@) <= usize::MAX,
        ensures
            r == 6 + Self::spec_images_size(self.images@),
            r == self.spec_bytes().len(),
    {
        proof {
            lemma_c16_images_bytes_len(Endianness::Little, self.images@);
        }
        let mut total: usize = 6;
        let mut i: usize = 0;
        proof {
            assert(self.images@.take(0) =~= Seq::<C16HeaderImage>::empty());
        }
        while i < self.images.len()
            invariant
                i <= self.images@.len(),
                6 + Self::spec_images_size(self.images@) <= usize::MAX,
                total == 6 + Self::spec_images_size(self.images@.take(i as int)),
            decreases self.images@.len() - i,
        {
            proof {
                let t = self.images@.take(i + 1);
                assert(t.drop_last() =~= self.images@.take(i as int));
                assert(t.last() == self.images@[i as int]);
                lemma_c16_images_size_mono(self.images@, i + 1);
            }
            total = total + 8 + self.images[i].row_bases.len() * 4;
            i += 1;
        }
        proof {
            assert(self.images@.take(self.images@.len() as int) =~= self.images@);
        }
        total
    }

    /// Converts the header to bytes.
    pub fn to_bytes(&self) -> (r: Vec<u8>)
        requires
            self.images@.len() <= 0xFFFF,
        ensures
            r@ == self.spec_bytes(),
    {
        let endianness = Endianness::Little;
        let mut data: Vec<u8> = Vec::new();
        Endianness::Little.push_u32(&mut data, self.variant.magic());
        endianness.push_u16(&mut data, self.images.len() as u16);
        let ghost prefix = data@;
        let mut i: usize = 0;
        proof {
            assert(self.images@.take(0) =~= Seq::<C16HeaderImage>::empty());
        }
        while i < self.images.len()
            invariant
                i <= self.images@.len(),
                endianness == Endianness::Little,
                prefix == spec_u32_bytes(Endianness::Little, self.variant.spec_magic())
                    + spec_u16_bytes(Endianness::Little, self.images@.len() as u16),
                data@ == prefix + spec_c16_images_bytes(endianness, self.images@.take(i as int)),
            decreases self.images@.len() - i,
        {
            let img = &self.images[i];
            endianness.push_u32(&mut data, img.base);
            endianness.push_u16(&mut data, img.width);
            endianness.push_u16(&mut data, img.height);
            let ghost entry_prefix = data@;
            let mut j: usize = 0;
            proof {
                assert(img.row_bases@.take(0) =~= Seq::<u32>::empty());
                assert(entry_prefix =~= data@ + spec_u32s_bytes(
                    endianness,
                    img.row_bases@.take(0),
                ));
            }
            while j < img.row_bases.len()
                invariant
                    j <= img.row_bases@.len(),
                    endianness == Endianness::Little,
                    data@ == entry_prefix + spec_u32s_bytes(
                        endianness,
                        img.row_bases@.take(j as int),
                    ),
                decreases img.row_bases@.len() - j,
            {
                endianness.push_u32(&mut data, img.row_bases[j]);
                j += 1;
                proof {
                    let t = img.row_bases@.take(j as int);
                    assert(t.drop_last() =~= img.row_bases@.take(j - 1));
                    assert(t.last() == img.row_bases@[j - 1]);
                    assert(data@ =~= entry_prefix + spec_u32s_bytes(endianness, t));
                }
            }
            i += 1;
            proof {
                let t = self.images@.take(i as int);
                assert(t.drop_last() =~= self.images@.take(i - 1));
                assert(t.last() == self.images@[i - 1]);
                assert(img.row_bases@.take(img.row_bases@.len() as int) =~= img.row_bases@);
                assert(data@ =~= prefix + spec_c16_images_bytes(endianness, t));
            }
        }
        proof {
            assert(self.images@.take(self.images@.len() as int) =~= self.images@);
        }
        data
    }
}

/// Entry lists serialize to eight bytes plus four per row offset.
pub proof fn lemma_c16_images_bytes_len(e: Endianness, imgs: Seq<C16HeaderImage>)
    ensures
        spec_c16_images_bytes(e, imgs).len() == C16Header::spec_images_size(imgs),
    decreases imgs.len(),
{
    if imgs.len() > 0 {
        lemma_c16_images_bytes_len(e, imgs.drop_last());
        lemma_u32s_bytes_len(e, imgs.last().row_bases@);
    }
}

/// Word lists serialize to four bytes per word.
pub proof fn lemma_u32s_bytes_len(e: Endianness, words: Seq<u32>)
    ensures
        spec_u32s_bytes(e, words).len() == words.len() * 4,
    decreases words.len(),
{
    if words.len() > 0 {
        lemma_u32s_bytes_len(e, words.drop_last());
    }
}

/// Word lists serialize to two bytes per word.
pub proof fn lemma_u16s_bytes_len(e: Endianness, words: Seq<u16>)
    ensures
        spec_u16s_bytes(e, words).len() == words.len() * 2,
    decreases words.len(),
{
    if words.len() > 0 {
        lemma_u16s_bytes_len(e, words.drop_last());
    }
}

/// The serialized size of entry-list prefixes grows with the prefix.
pub proof fn lemma_c16_images_size_mono(imgs: Seq<C16HeaderImage>, i: int)
    requires
        0 <= i <= imgs.len(),
    ensures
        0 <= C16Header::spec_images_size(imgs.take(i)) <= C16Header::spec_images_size(imgs),
    decreases imgs.len() - i, imgs.len(),
{
    if i == imgs.len() {
        assert(imgs.take(i) =~= imgs);
        lemma_c16_images_size_nonneg(imgs);
    } else {
        lemma_c16_images_size_mono(imgs.drop_last(), i);
        assert(imgs.drop_last().take(i) =~= imgs.take(i));
    }
}

/// Serialized entry lists never have negative size.
pub proof fn lemma_c16_images_size_nonneg(imgs: Seq<C16HeaderImage>)
    ensures
        C16Header::spec_images_size(imgs) >= 0,
    decreases imgs.len(),
{
    if imgs.len() > 0 {
        lemma_c16_images_size_nonneg(imgs.drop_last());
    }
}

/// The byte size of the first `y` compressed rows as stored: each row's
/// words plus its end-of-row marker.
pub open spec fn spec_c16_rows_size(rows: Seq<Seq<u16>>, y: int) -> int
    decreases y,
{
    if y <= 0 {
        0
    } else {
        spec_c16_rows_size(rows, y - 1) + 2 * rows[y - 1].len() + 2
    }
}

/// Stored row prefixes only grow.
pub proof fn lemma_c16_rows_size_mono(rows: Seq<Seq<u16>>, i: int, j: int)
    requires
        0 <= i <= j,
    ensures
        0 <= spec_c16_rows_size(rows, i) <= spec_c16_rows_size(rows, j),
    decreases j,
{
    if j > 0 {
        if i <= j - 1 {
            lemma_c16_rows_size_mono(rows, i, j - 1);
        } else {
            lemma_c16_rows_size_mono(rows, j - 1, j - 1);
        }
    }
}

impl C16HeaderImage {
    /// Builds the header entry for a frame whose stored data starts at
    /// `base`: each row after the first gets the byte position its data
    /// will have.
    pub fn from_base_and_frame(base: usize, frame: &C16Frame) -> (r: C16HeaderImage)
        requires
            frame.width <= 0xFFFF,
            frame.rows@.len() <= 0xFFFF,
            base + spec_c16_rows_size(spec_rows_view(frame.rows@), frame.rows@.len() as int)
                <= u32::MAX,
        ensures
            r.wf(),
            r.base == base,
            r.width == frame.width,
            r.height == frame.rows@.len(),
            forall|j: int|
                0 <= j < r.row_bases@.len() ==> #[trigger] r.row_bases@[j] == base
                    + spec_c16_rows_size(spec_rows_view(frame.rows@), j + 1),
    {
        let ghost rows = spec_rows_view(frame.rows@);
        let mut row_bases: Vec<u32> = Vec::new();
        let mut ptr: usize = base;
        let mut y: usize = 0;
        while y < frame.rows.len()
            invariant
                y <= frame.rows@.len(),
                rows == spec_rows_view(frame.rows@),
                rows.len() == frame.rows@.len(),
                base + spec_c16_rows_size(rows, frame.rows@.len() as int) <= u32::MAX,
                ptr == base + spec_c16_rows_size(rows, y as int),
                row_bases@.len() == (if y == 0 {
                    0int
                } else {
                    y - 1
                }),
                forall|j: int|
                    0 <= j < row_bases@.len() ==> #[trigger] row_bases@[j] == base
                        + spec_c16_rows_size(rows, j + 1),
            decreases frame.rows@.len() - y,
        {
            proof {
                lemma_c16_rows_size_mono(rows, y + 1, frame.rows@.len() as int);
                assert(rows[y as int] == frame.rows@[y as int]@);
            }
            if y > 0 {
                row_bases.push(ptr as u32);
            }
            let row_len = frame.rows[y].len();
            ptr = ptr + (row_len * 2) + 2;
            y += 1;
        }
        proof {
            lemma_c16_rows_size_mono(rows, 0, frame.rows@.len() as int);
            assert(base <= u32::MAX);
        }
        C16HeaderImage {
            base: base as u32,
            width: frame.width as u16,
            height: frame.rows.len() as u16,
            row_bases,
        }
    }

    /// Shifts this entry's offsets after creation: every base moves up by
    /// the given amount.
    pub fn shift_base(&mut self, base: usize)
        requires
            old(self).base + base <= u32::MAX,
            forall|j: int|
                0 <= j < old(self).row_bases@.len() ==> #[trigger] old(self).row_bases@[j] + base
                    <= u32::MAX,
        ensures
            final(self).base == old(self).base + base,
            final(self).width == old(self).width,
            final(self).height == old(self).height,
            final(self).row_bases@.len() == old(self).row_bases@.len(),
            forall|j: int|
                0 <= j < old(self).row_bases@.len() ==> #[trigger] final(self).row_bases@[j] == old(
                    self,
                ).row_bases@[j] + base,
    {
        self.base = self.base + (base as u32);
        let mut j: usize = 0;
        while j < self.row_bases.len()
            invariant
                j <= self.row_bases@.len(),
                self.base == old(self).base + base,
                self.width == old(self).width,
                self.height == old(self).height,
                self.row_bases@.len() == old(self).row_bases@.len(),
                forall|k: int|
                    0 <= k < old(self).row_bases@.len() ==> #[trigger] old(self).row_bases@[k]
                        + base <= u32::MAX,
                forall|k: int|
                    j <= k < self.row_bases@.len() ==> #[trigger] self.row_bases@[k] == old(
                        self,
                    ).row_bases@[k],
                forall|k: int|
                    0 <= k < j ==> #[trigger] self.row_bases@[k] == old(self).row_bases@[k] + base,
            decreases self.row_bases@.len() - j,
        {
            let v = self.row_bases[j];
            self.row_bases.set(j, v + (base as u32));
            j += 1;
        }
    }
}

/// The rows of a frame as a sequence of word sequences.
pub open spec fn spec_rows_view(rows: Seq<C16Row>) -> Seq<Seq<u16>> {
    Seq::new(rows.len(), |y: int| rows[y]@)
}

/// The 16-bit samples stored at `ptr`, one every two bytes.
pub open spec fn spec_samples_at(e: Endianness, data: Seq<u8>, ptr: int, n: nat) -> Seq<u16> {
    Seq::new(n, |j: int| spec_u16_at(e, data, ptr + 2 * j))
}

/// The compressed-row words stored at `ptr`: span headers and their
/// samples up to (not including) the end-of-row marker.  Nothing when the
/// data ends before the marker.
pub open spec fn spec_read_row(e: Endianness, data: Seq<u8>, ptr: int) -> Option<Seq<u16>>
    decreases data.len() - ptr,
{
    if ptr < 0 || ptr + 2 > data.len() {
        None
    } else {
        let v = spec_u16_at(e, data, ptr);
        if v == 0 {
            Some(Seq::empty())
        } else if v >= 0x8000 {
            let n = (v - 0x8000) as nat;
            if ptr + 2 + 2 * n > data.len() {
                None
            } else {
                match spec_read_row(e, data, ptr + 2 + 2 * n) {
                    Some(rest) => Some(
                        seq![v] + spec_samples_at(e, data, ptr + 2, n) + rest,
                    ),
                    None => None,
                }
            }
        } else {
            match spec_read_row(e, data, ptr + 2) {
                Some(rest) => Some(seq![v] + rest),
                None => None,
            }
        }
    }
}

/// Reads the compressed-row words starting at `ptr`, up to the end-of-row
/// marker.  Fails when the data ends first.
pub fn read_c16_row(e: Endianness, data: &[u8], start: usize) -> (r: Result<C16Row, ()>)
    ensures
        match r {
            Ok(row) => Some(row@) == spec_read_row(e, data@, start as int),
            Err(_) => spec_read_row(e, data@, start as int) is None,
        },
{
    let dlen = data.len();
    let mut row: Vec<u16> = Vec::new();
    let mut ptr: usize = start;
    loop
        invariant
            start <= ptr,
            data@.len() == dlen,
            spec_read_row(e, data@, start as int) == (match spec_read_row(e, data@, ptr as int) {
                Some(rest) => Some(row@ + rest),
                None => None::<Seq<u16>>,
            }),
        decreases data@.len() - ptr,
    {
        let ghost p0 = ptr as int;
        let ghost row0 = row@;
        let v = match e.r_u16(data, ptr) {
            Ok(v) => v,
            Err(_) => {
                return Err(());
            },
        };
        if v == 0 {
            proof {
                assert(row@ + Seq::<u16>::empty() =~= row@);
            }
            return Ok(row);
        }
        row.push(v);
        if v >= 0x8000 {
            let n = (v - 0x8000) as usize;
            if (dlen - (ptr + 2)) / 2 < n {
                proof {
                    assert(p0 + 2 + 2 * (n as int) > data@.len()) by (nonlinear_arith)
                        requires
                            ((dlen - (p0 + 2)) as int) / 2 < n as int,
                            p0 + 2 <= dlen,
                            data@.len() == dlen,
                    ;
                }
                return Err(());
            }
            proof {
                assert(p0 + 2 + 2 * (n as int) <= data@.len()) by (nonlinear_arith)
                    requires
                        ((dlen - (p0 + 2)) as int) / 2 >= n as int,
                        p0 + 2 <= dlen,
                        data@.len() == dlen,
                ;
            }
            let ghost pre = row@;
            let mut j: usize = 0;
            proof {
                assert(row@ =~= pre + spec_samples_at(e, data@, p0 + 2, 0));
            }
            while j < n
                invariant
                    j <= n,
                    data@.len() == dlen,
                    ptr == p0,
                    p0 >= 0,
                    p0 + 2 + 2 * (n as int) <= data@.len(),
                    row@ == pre + spec_samples_at(e, data@, p0 + 2, j as nat),
                decreases n - j,
            {
                let pos = ptr + 2 + 2 * j;
                let s = match e.r_u16(data, pos) {
                    Ok(s) => s,
                    Err(_) => {
                        proof {
                            assert(false);
                        }
                        return Err(());
                    },
                };
                row.push(s);
                j += 1;
                proof {
                    assert(row@ =~= pre + spec_samples_at(e, data@, p0 + 2, j as nat));
                }
            }
            ptr = ptr + 2 + 2 * n;
            proof {
                assert(spec_read_row(e, data@, p0) == (match spec_read_row(e, data@, ptr as int) {
                    Some(rest) => Some(
                        seq![v] + spec_samples_at(e, data@, p0 + 2, n as nat) + rest,
                    ),
                    None => None::<Seq<u16>>,
                }));
                if spec_read_row(e, data@, ptr as int) is Some {
                    let rest = spec_read_row(e, data@, ptr as int).unwrap();
                    assert(row@ + rest =~= row0 + (seq![v] + spec_samples_at(
                        e,
                        data@,
                        p0 + 2,
                        n as nat,
                    ) + rest));
                }
            }
        } else {
            ptr = ptr + 2;
            proof {
                assert(spec_read_row(e, data@, p0) == (match spec_read_row(e, data@, ptr as int) {
                    Some(rest) => Some(seq![v] + rest),
                    None => None::<Seq<u16>>,
                }));
                if spec_read_row(e, data@, ptr as int) is Some {
                    let rest = spec_read_row(e, data@, ptr as int).unwrap();
                    assert(row@ + rest =~= row0 + (seq![v] + rest));
                }
            }
        }
    }
}


/// The byte position of row `y` of a frame, as a compressed header entry
/// gives it: the entry's own base for the first row, the stored offsets
/// for the rest.
pub open spec fn spec_c16_row_base(img: C16HeaderImage, y: int) -> int {
    if y == 0 {
        img.base as int
    } else {
        img.row_bases@[y - 1] as int
    }
}

/// `sheet` holds exactly the compressed rows that `header` places in
/// `data`, every one valid for its frame's width.
pub open spec fn spec_c16_sheet_ok(header: &C16Header, data: Seq<u8>, sheet: C16Sheet) -> bool {
    &&& sheet.id == header.variant
    &&& sheet.wf()
    &&& sheet.frames@.len() == header.images@.len()
    &&& forall|i: int|
        0 <= i < header.images@.len() ==> {
            let f = #[trigger] sheet.frames@[i];
            let img = header.images@[i];
            &&& f.width == img.width
            &&& f.rows@.len() == img.height
            &&& forall|y: int|
                0 <= y < img.height ==> Some((#[trigger] f.rows@[y])@) == spec_read_row(
                    Endianness::Little,
                    data,
                    spec_c16_row_base(img, y),
                )
        }
}

/// Reads a compressed sheet's rows.  Fails on a row that is truncated or
/// that reconstructs a different number of pixels than the frame's width.
pub fn read_c16(header: &C16Header, data: &[u8]) -> (r: Result<C16Sheet, CS16Error>)
    requires
        header.wf(),
    ensures
        match r {
            Ok(sheet) => spec_c16_sheet_ok(header, data@, sheet),
            Err(er) => match er {
                CS16Error::BadRow { frame, row, offset } => {
                    let img = header.images@[frame as int];
                    let rr = spec_read_row(Endianness::Little, data@, offset as int);
                    &&& frame < header.images@.len()
                    &&& row < img.height
                    &&& offset == spec_c16_row_base(img, row as int)
                    &&& (rr is None || !spec_row_valid(rr.unwrap(), img.width as nat))
                },
                _ => false,
            },
        },
{
    let e = Endianness::Little;
    let mut frames: Vec<C16Frame> = Vec::new();
    let mut i: usize = 0;
    while i < header.images.len()
        invariant
            i <= header.images@.len(),
            header.wf(),
            e == Endianness::Little,
            frames@.len() == i,
            forall|k: int|
                0 <= k < i ==> {
                    let f = #[trigger] frames@[k];
                    let img = header.images@[k];
                    &&& f.wf()
                    &&& f.width == img.width
                    &&& f.rows@.len() == img.height
                    &&& forall|y: int|
                        0 <= y < img.height ==> Some((#[trigger] f.rows@[y])@) == spec_read_row(
                            Endianness::Little,
                            data@,
                            spec_c16_row_base(img, y),
                        )
                },
        decreases header.images@.len() - i,
    {
        let img = &header.images[i];
        let h = img.height as usize;
        let w = img.width as usize;
        let mut rows: Vec<C16Row> = Vec::new();
        let mut y: usize = 0;
        while y < h
            invariant
                y <= h,
                header.wf(),
                i < header.images@.len(),
                img == header.images@[i as int],
                h == img.height as usize,
                w == img.width as usize,
                e == Endianness::Little,
                rows@.len() == y,
                forall|z: int|
                    0 <= z < y ==> Some((#[trigger] rows@[z])@) == spec_read_row(
                        Endianness::Little,
                        data@,
                        spec_c16_row_base(*img, z),
                    ),
                forall|z: int|
                    0 <= z < y ==> spec_row_valid((#[trigger] rows@[z])@, img.width as nat),
            decreases h - y,
        {
            let row_base = if y == 0 {
                img.base as usize
            } else {
                img.row_bases[y - 1] as usize
            };
            let row = match read_c16_row(e, data, row_base) {
                Ok(row) => row,
                Err(_) => {
                    return Err(CS16Error::BadRow { frame: i, row: y, offset: row_base });
                },
            };
            if !c16_row_validate(row.as_slice(), w) {
                return Err(CS16Error::BadRow { frame: i, row: y, offset: row_base });
            }
            rows.push(row);
            y += 1;
        }
        frames.push(C16Frame { width: w, rows });
        i += 1;
    }
    Ok(C16Sheet { id: header.variant, frames })
}

/// The pixel bytes of the first `y` rows of a flat frame.
pub open spec fn spec_frame_pixel_bytes(e: Endianness, f: S16Frame, y: int) -> Seq<u8>
    decreases y,
{
    if y <= 0 {
        Seq::empty()
    } else {
        spec_frame_pixel_bytes(e, f, y - 1) + spec_u16s_bytes(e, f.spec_row(y - 1))
    }
}

/// The pixel bytes of the first `i` frames of a flat sheet.
pub open spec fn spec_frames_pixel_bytes(e: Endianness, frames: Seq<S16Frame>, i: int) -> Seq<u8>
    decreases i,
{
    if i <= 0 {
        Seq::empty()
    } else {
        spec_frames_pixel_bytes(e, frames, i - 1) + spec_frame_pixel_bytes(
            e,
            frames[i - 1],
            frames[i - 1].height as int,
        )
    }
}

/// The byte position where frame `i`'s pixel data starts in a built flat
/// sheet: past the header and every earlier frame's pixels.
pub open spec fn spec_s16_data_offset(frames: Seq<S16Frame>, i: int) -> int
    decreases i,
{
    if i <= 0 {
        6 + 8 * (frames.len() as int)
    } else {
        spec_s16_data_offset(frames, i - 1) + 2 * frames[i - 1].width * frames[i - 1].height
    }
}

/// Data offsets grow with the frame index.
pub proof fn lemma_s16_offset_mono(frames: Seq<S16Frame>, i: int, j: int)
    requires
        0 <= i <= j,
    ensures
        6 + 8 * (frames.len() as int) <= spec_s16_data_offset(frames, i) <= spec_s16_data_offset(frames, j),
    decreases j,
{
    if j > 0 {
        assert(2 * frames[j - 1].width * frames[j - 1].height >= 0) by (nonlinear_arith);
        if i <= j - 1 {
            lemma_s16_offset_mono(frames, i, j - 1);
        } else {
            lemma_s16_offset_mono(frames, j - 1, j - 1);
        }
    }
}

/// The header entry a built flat sheet gives frame `i`.
pub open spec fn spec_s16_image_of(frames: Seq<S16Frame>, i: int) -> S16HeaderImage {
    S16HeaderImage {
        base: spec_s16_data_offset(frames, i) as u32,
        width: frames[i].width as u16,
        height: frames[i].height as u16,
    }
}

/// The bytes a flat sheet builds to: the header, with each frame's true
/// data offset, then every frame's pixels row-major in the variant's byte
/// order.
pub open spec fn spec_build_s16(id: S16Type, frames: Seq<S16Frame>) -> Seq<u8> {
    let e = if id.spec_is_be() {
        Endianness::Big
    } else {
        Endianness::Little
    };
    spec_u32_bytes(Endianness::Little, id.spec_magic()) + spec_u16_bytes(e, frames.len() as u16)
        + spec_s16_images_bytes(e, Seq::new(frames.len(), |i: int| spec_s16_image_of(frames, i)))
        + spec_frames_pixel_bytes(e, frames, frames.len() as int)
}

/// Builds the bytes of a flat sheet.
pub fn build_s16(sheet: &S16Sheet) -> (r: Vec<u8>)
    requires
        sheet.wf(),
        spec_s16_data_offset(sheet.frames@, sheet.frames@.len() as int) <= u32::MAX,
    ensures
        r@ == spec_build_s16(sheet.id, sheet.frames@),
{
    build_s16_inner(sheet.id, &sheet.frames)
}

/// Builds the bytes of a flat sheet from its variant and frames.
fn build_s16_inner(id: S16Type, frames_v: &Vec<S16Frame>) -> (r: Vec<u8>)
    requires
        crate::spritefile::spec_frames_wf(frames_v@),
        spec_s16_data_offset(frames_v@, frames_v@.len() as int) <= u32::MAX,
    ensures
        r@ == spec_build_s16(id, frames_v@),
{
    let ghost fseq = frames_v@;
    let n = frames_v.len();
    proof {
        lemma_s16_offset_mono(fseq, 0, n as int);
    }
    let mut images: Vec<S16HeaderImage> = Vec::new();
    let mut off: usize = 6 + n * 8;
    let mut i: usize = 0;
    while i < n
        invariant
            i <= n,
            n == fseq.len(),
            crate::spritefile::spec_frames_wf(frames_v@),
            fseq == frames_v@,
            spec_s16_data_offset(fseq, n as int) <= u32::MAX,
            off == spec_s16_data_offset(fseq, i as int),
            images@.len() == i,
            forall|k: int| 0 <= k < i ==> #[trigger] images@[k] == spec_s16_image_of(fseq, k),
        decreases n - i,
    {
        proof {
            lemma_s16_offset_mono(fseq, i as int, i + 1);
            lemma_s16_offset_mono(fseq, i + 1, n as int);
            assert(2 * (frames_v@[i as int].width as int) * (frames_v@[i as int].height
                as int) <= 2 * 0xFFFF * 0xFFFF) by (nonlinear_arith)
                requires
                    frames_v@[i as int].width <= 0xFFFF,
                    frames_v@[i as int].height <= 0xFFFF,
            ;
        }
        let f = &frames_v[i];
        images.push(S16HeaderImage { base: off as u32, width: f.width() as u16, height: f.height() as u16 });
        proof {
            assert(2 * (f.width as int) * (f.height as int) == 2 * ((f.width as int) * (f.height
                as int))) by (nonlinear_arith);
        }
        off = off + 2 * (f.width() * f.height());
        i += 1;
    }
    let hdr = S16Header { variant: id, images };
    let mut out = hdr.to_bytes();
    let ghost e = hdr.spec_endianness();
    proof {
        assert(hdr.images@ =~= Seq::new(fseq.len(), |k: int| spec_s16_image_of(fseq, k)));
        assert(out@ == spec_u32_bytes(Endianness::Little, id.spec_magic()) + spec_u16_bytes(
            e,
            fseq.len() as u16,
        ) + spec_s16_images_bytes(e, Seq::new(fseq.len(), |k: int| spec_s16_image_of(fseq, k))));
        assert(out@ + spec_frames_pixel_bytes(e, fseq, 0) =~= out@);
    }
    let ghost prefix = out@;
    let endianness = id.endianness();
    let mut i: usize = 0;
    while i < n
        invariant
            i <= n,
            n == fseq.len(),
            crate::spritefile::spec_frames_wf(frames_v@),
            fseq == frames_v@,
            endianness == e,
            out@ == prefix + spec_frames_pixel_bytes(e, fseq, i as int),
        decreases n - i,
    {
        let f = &frames_v[i];
        let ghost fprefix = out@;
        let mut y: usize = 0;
        proof {
            assert(out@ =~= fprefix + spec_frame_pixel_bytes(e, fseq[i as int], 0));
        }
        while y < f.height()
            invariant
                y <= f.height,
                i < n,
                n == fseq.len(),
                crate::spritefile::spec_frames_wf(frames_v@),
                fseq == frames_v@,
                f == frames_v@[i as int],
                endianness == e,
                out@ == fprefix + spec_frame_pixel_bytes(e, fseq[i as int], y as int),
            decreases f.height - y,
        {
            let rowv = f.row(y);
            let ghost rprefix = out@;
            let mut k: usize = 0;
            proof {
                assert(rowv@.take(0) =~= Seq::<u16>::empty());
                assert(out@ =~= rprefix + spec_u16s_bytes(e, rowv@.take(0)));
            }
            while k < rowv.len()
                invariant
                    k <= rowv@.len(),
                    endianness == e,
                    out@ == rprefix + spec_u16s_bytes(e, rowv@.take(k as int)),
                decreases rowv@.len() - k,
            {
                endianness.push_u16(&mut out, rowv[k]);
                k += 1;
                proof {
                    let tk = rowv@.take(k as int);
                    assert(tk.drop_last() =~= rowv@.take(k - 1));
                    assert(tk.last() == rowv@[k - 1]);
                    assert(out@ =~= rprefix + spec_u16s_bytes(e, tk));
                }
            }
            y += 1;
            proof {
                assert(rowv@.take(rowv@.len() as int) =~= rowv@);
                assert(rowv@ == fseq[i as int].spec_row(y - 1));
            }
        }
        i += 1;
        proof {
            assert(spec_frame_pixel_bytes(e, fseq[i - 1], fseq[i - 1].height as int) =~= out@.skip(
                fprefix.len() as int,
            ));
            assert(out@ =~= prefix + spec_frames_pixel_bytes(e, fseq, i as int));
        }
    }
    proof {
        assert(out@ =~= spec_build_s16(id, fseq));
    }
    out
}


/// The stored byte size of a compressed frame: its rows with their
/// end-of-row markers, plus the end-of-image marker.
pub open spec fn spec_c16_frame_size(rows: Seq<Seq<u16>>) -> int {
    spec_c16_rows_size(rows, rows.len() as int) + 2
}

/// A compressed sheet as pure data: each frame's width and rows.
pub open spec fn spec_c16_sheet_model(frames: Seq<C16Frame>) -> Seq<(int, Seq<Seq<u16>>)> {
    Seq::new(frames.len(), |i: int| (frames[i].width as int, spec_rows_view(frames[i].rows@)))
}

/// A flat sheet as the compressed data it will be stored as: each frame's
/// width and the exact compression of each of its rows.
pub open spec fn spec_flat_sheet_model(frames: Seq<S16Frame>) -> Seq<(int, Seq<Seq<u16>>)> {
    Seq::new(
        frames.len(),
        |i: int|
            (
                frames[i].width as int,
                Seq::new(
                    frames[i].height as nat,
                    |y: int| crate::spritefile::spec_compress_row(frames[i].spec_row(y)),
                ),
            ),
    )
}

/// The serialized header size of the first `i` entries of a compressed
/// sheet model (excluding the leading six bytes).
pub open spec fn spec_c16_model_entries_size(m: Seq<(int, Seq<Seq<u16>>)>, i: int) -> int
    decreases i,
{
    if i <= 0 {
        0
    } else {
        spec_c16_model_entries_size(m, i - 1) + 8 + 4 * (if m[i - 1].1.len() > 1 {
            m[i - 1].1.len() - 1
        } else {
            0int
        })
    }
}

/// The byte position where frame `i`'s row data starts in a built
/// compressed sheet.
pub open spec fn spec_c16_model_data_offset(m: Seq<(int, Seq<Seq<u16>>)>, i: int) -> int
    decreases i,
{
    if i <= 0 {
        6 + spec_c16_model_entries_size(m, m.len() as int)
    } else {
        spec_c16_model_data_offset(m, i - 1) + spec_c16_frame_size(m[i - 1].1)
    }
}

/// Header entry sizes only grow with the prefix.
pub proof fn lemma_c16_model_entries_size_mono(m: Seq<(int, Seq<Seq<u16>>)>, i: int, j: int)
    requires
        0 <= i <= j,
    ensures
        0 <= spec_c16_model_entries_size(m, i) <= spec_c16_model_entries_size(m, j),
    decreases j,
{
    if j > 0 {
        if i <= j - 1 {
            lemma_c16_model_entries_size_mono(m, i, j - 1);
        } else {
            lemma_c16_model_entries_size_mono(m, j - 1, j - 1);
        }
    }
}

/// Data offsets grow with the frame index.
pub proof fn lemma_c16_model_offset_mono(m: Seq<(int, Seq<Seq<u16>>)>, i: int, j: int)
    requires
        0 <= i <= j,
    ensures
        6 + spec_c16_model_entries_size(m, m.len() as int) <= spec_c16_model_data_offset(m, i)
            <= spec_c16_model_data_offset(m, j),
    decreases j,
{
    if j > 0 {
        lemma_c16_rows_size_mono(m[j - 1].1, 0, m[j - 1].1.len() as int);
        if i <= j - 1 {
            lemma_c16_model_offset_mono(m, i, j - 1);
        } else {
            lemma_c16_model_offset_mono(m, j - 1, j - 1);
        }
    }
}

/// The row-offset words of a model entry: the first `cnt` of them, each
/// the byte position of the row after the rows already counted.
pub open spec fn spec_c16_model_rb_bytes(
    e: Endianness,
    base: int,
    rows: Seq<Seq<u16>>,
    cnt: int,
) -> Seq<u8>
    decreases cnt,
{
    if cnt <= 0 {
        Seq::empty()
    } else {
        spec_c16_model_rb_bytes(e, base, rows, cnt - 1) + spec_u32_bytes(
            e,
            (base + spec_c16_rows_size(rows, cnt)) as u32,
        )
    }
}

/// The serialized bytes of model entry `i`.
pub open spec fn spec_c16_model_entry_bytes(
    e: Endianness,
    m: Seq<(int, Seq<Seq<u16>>)>,
    i: int,
) -> Seq<u8> {
    let base = spec_c16_model_data_offset(m, i);
    let rows = m[i].1;
    spec_u32_bytes(e, base as u32) + spec_u16_bytes(e, m[i].0 as u16) + spec_u16_bytes(
        e,
        rows.len() as u16,
    ) + spec_c16_model_rb_bytes(
        e,
        base,
        rows,
        if rows.len() > 1 {
            rows.len() - 1
        } else {
            0int
        },
    )
}

/// The serialized bytes of the first `i` model entries.
pub open spec fn spec_c16_model_entries_bytes(
    e: Endianness,
    m: Seq<(int, Seq<Seq<u16>>)>,
    i: int,
) -> Seq<u8>
    decreases i,
{
    if i <= 0 {
        Seq::empty()
    } else {
        spec_c16_model_entries_bytes(e, m, i - 1) + spec_c16_model_entry_bytes(e, m, i - 1)
    }
}

/// The stored bytes of the first `y` rows of one frame: each row's words
/// then its end-of-row marker.
pub open spec fn spec_c16_rows_payload(e: Endianness, rows: Seq<Seq<u16>>, y: int) -> Seq<u8>
    decreases y,
{
    if y <= 0 {
        Seq::empty()
    } else {
        spec_c16_rows_payload(e, rows, y - 1) + spec_u16s_bytes(e, rows[y - 1]) + spec_u16_bytes(
            e,
            0u16,
        )
    }
}

/// The stored bytes of the first `i` frames' row data, each frame closed
/// by its end-of-image marker.
pub open spec fn spec_c16_model_payload(e: Endianness, m: Seq<(int, Seq<Seq<u16>>)>, i: int) -> Seq<
    u8,
>
    decreases i,
{
    if i <= 0 {
        Seq::empty()
    } else {
        spec_c16_model_payload(e, m, i - 1) + spec_c16_rows_payload(
            e,
            m[i - 1].1,
            m[i - 1].1.len() as int,
        ) + spec_u16_bytes(e, 0u16)
    }
}

/// The bytes a compressed sheet builds to: the header, with each frame's
/// true data offset and row offsets, then every frame's rows and markers.
pub open spec fn spec_build_c16(id: C16Type, m: Seq<(int, Seq<Seq<u16>>)>) -> Seq<u8> {
    let e = Endianness::Little;
    spec_u32_bytes(Endianness::Little, id.spec_magic()) + spec_u16_bytes(e, m.len() as u16)
        + spec_c16_model_entries_bytes(e, m, m.len() as int) + spec_c16_model_payload(
        e,
        m,
        m.len() as int,
    )
}

/// Row-offset word lists that match the model serialize to the model's
/// row-offset bytes.
proof fn lemma_rb_model_bytes(e: Endianness, rbs: Seq<u32>, base: int, rows: Seq<Seq<u16>>)
    requires
        forall|k: int|
            0 <= k < rbs.len() ==> #[trigger] rbs[k] == base + spec_c16_rows_size(rows, k + 1),
    ensures
        spec_u32s_bytes(e, rbs) == spec_c16_model_rb_bytes(e, base, rows, rbs.len() as int),
    decreases rbs.len(),
{
    if rbs.len() > 0 {
        lemma_rb_model_bytes(e, rbs.drop_last(), base, rows);
        assert(rbs.last() == base + spec_c16_rows_size(rows, rbs.len() as int));
        assert(rbs.last() == (base + spec_c16_rows_size(rows, rbs.len() as int)) as u32);
    }
}

/// Header entries that match the model serialize to the model's entry
/// bytes.
proof fn lemma_c16_images_model_bytes(
    e: Endianness,
    imgs: Seq<C16HeaderImage>,
    m: Seq<(int, Seq<Seq<u16>>)>,
)
    requires
        imgs.len() <= m.len(),
        forall|k: int|
            0 <= k < imgs.len() ==> {
                let img = #[trigger] imgs[k];
                &&& img.wf()
                &&& img.base == spec_c16_model_data_offset(m, k)
                &&& img.width == m[k].0 as u16
                &&& img.height == m[k].1.len()
                &&& forall|j: int|
                    0 <= j < img.row_bases@.len() ==> #[trigger] img.row_bases@[j]
                        == spec_c16_model_data_offset(m, k) + spec_c16_rows_size(m[k].1, j + 1)
            },
    ensures
        spec_c16_images_bytes(e, imgs) == spec_c16_model_entries_bytes(e, m, imgs.len() as int),
    decreases imgs.len(),
{
    if imgs.len() > 0 {
        let i = imgs.len() - 1;
        lemma_c16_images_model_bytes(e, imgs.drop_last(), m);
        let img = imgs.last();
        lemma_rb_model_bytes(e, img.row_bases@, spec_c16_model_data_offset(m, i as int), m[i as int].1);
        assert(img.base == spec_c16_model_data_offset(m, i as int) as u32);
        assert(img.width == m[i as int].0 as u16);
        assert(img.height == m[i as int].1.len() as u16);
        assert(img.row_bases@.len() as int == (if m[i as int].1.len() > 1 {
            m[i as int].1.len() - 1
        } else {
            0int
        }));
    }
}

/// Builds the bytes of a compressed sheet.
pub fn build_c16(sheet: &C16Sheet) -> (r: Vec<u8>)
    requires
        sheet.wf(),
        spec_c16_model_data_offset(
            spec_c16_sheet_model(sheet.frames@),
            sheet.frames@.len() as int,
        ) <= u32::MAX,
    ensures
        r@ == spec_build_c16(sheet.id, spec_c16_sheet_model(sheet.frames@)),
{
    let ghost m = spec_c16_sheet_model(sheet.frames@);
    let n = sheet.frames.len();
    proof {
        lemma_c16_model_offset_mono(m, 0, n as int);
        lemma_c16_model_entries_size_mono(m, 0, n as int);
    }
    // serialized header size
    let mut hs: usize = 6;
    let mut i: usize = 0;
    while i < n
        invariant
            i <= n,
            n == sheet.frames@.len(),
            sheet.wf(),
            m == spec_c16_sheet_model(sheet.frames@),
            6 + spec_c16_model_entries_size(m, n as int) <= u32::MAX,
            hs == 6 + spec_c16_model_entries_size(m, i as int),
        decreases n - i,
    {
        proof {
            lemma_c16_model_entries_size_mono(m, i + 1, n as int);
            assert(4 * ((sheet.frames@[i as int].rows@.len() - 1) as int) <= 4 * 0xFFFF)
                by (nonlinear_arith)
                requires
                    sheet.frames@[i as int].rows@.len() <= 0xFFFF + 1,
            ;
        }
        let h = sheet.frames[i].rows.len();
        if h > 1 {
            hs = hs + 8 + 4 * (h - 1);
        } else {
            hs = hs + 8;
        }
        i += 1;
    }
    // header entries with their true data offsets
    let mut images: Vec<C16HeaderImage> = Vec::new();
    let mut off: usize = hs;
    let mut i: usize = 0;
    while i < n
        invariant
            i <= n,
            n == sheet.frames@.len(),
            sheet.wf(),
            m == spec_c16_sheet_model(sheet.frames@),
            spec_c16_model_data_offset(m, n as int) <= u32::MAX,
            off == spec_c16_model_data_offset(m, i as int),
            images@.len() == i,
            forall|k: int|
                0 <= k < i ==> {
                    let img = #[trigger] images@[k];
                    &&& img.wf()
                    &&& img.base == spec_c16_model_data_offset(m, k)
                    &&& img.width == m[k].0 as u16
                    &&& img.height == m[k].1.len()
                    &&& forall|j: int|
                        0 <= j < img.row_bases@.len() ==> #[trigger] img.row_bases@[j]
                            == spec_c16_model_data_offset(m, k) + spec_c16_rows_size(m[k].1, j + 1)
                },
        decreases n - i,
    {
        let f = &sheet.frames[i];
        proof {
            lemma_c16_model_offset_mono(m, i + 1, n as int);
            assert(m[i as int].1 == spec_rows_view(f.rows@));
            lemma_c16_rows_size_mono(spec_rows_view(f.rows@), 0, f.rows@.len() as int);
        }
        let img = C16HeaderImage::from_base_and_frame(off, f);
        images.push(img);
        // advance past this frame's stored rows and end-of-image marker
        let mut fs: usize = 0;
        let mut y: usize = 0;
        proof {
            assert(spec_c16_rows_size(spec_rows_view(f.rows@), 0) == 0);
        }
        while y < f.rows.len()
            invariant
                y <= f.rows@.len(),
                f == sheet.frames@[i as int],
                i < n,
                n == sheet.frames@.len(),
                m == spec_c16_sheet_model(sheet.frames@),
                sheet.wf(),
                m[i as int].1 == spec_rows_view(f.rows@),
                off == spec_c16_model_data_offset(m, i as int),
                spec_c16_model_data_offset(m, i + 1) <= u32::MAX,
                fs == spec_c16_rows_size(spec_rows_view(f.rows@), y as int),
            decreases f.rows@.len() - y,
        {
            proof {
                lemma_c16_rows_size_mono(spec_rows_view(f.rows@), y + 1, f.rows@.len() as int);
                assert(spec_rows_view(f.rows@)[y as int] == f.rows@[y as int]@);
            }
            fs = fs + 2 * f.rows[y].len() + 2;
            y += 1;
        }
        off = off + fs + 2;
        i += 1;
    }
    let hdr = C16Header { variant: sheet.id, images };
    let mut out = hdr.to_bytes();
    let ghost e = Endianness::Little;
    proof {
        lemma_c16_images_model_bytes(e, hdr.images@, m);
        assert(out@ + spec_c16_model_payload(e, m, 0) =~= out@);
    }
    let ghost prefix = out@;
    let endianness = Endianness::Little;
    let mut i: usize = 0;
    while i < n
        invariant
            i <= n,
            n == sheet.frames@.len(),
            sheet.wf(),
            m == spec_c16_sheet_model(sheet.frames@),
            endianness == e,
            e == Endianness::Little,
            out@ == prefix + spec_c16_model_payload(e, m, i as int),
        decreases n - i,
    {
        let f = &sheet.frames[i];
        let ghost fprefix = out@;
        let mut y: usize = 0;
        proof {
            assert(m[i as int].1 == spec_rows_view(f.rows@));
            assert(out@ =~= fprefix + spec_c16_rows_payload(e, m[i as int].1, 0));
        }
        while y < f.rows.len()
            invariant
                y <= f.rows@.len(),
                i < n,
                n == sheet.frames@.len(),
                sheet.wf(),
                m == spec_c16_sheet_model(sheet.frames@),
                f == sheet.frames@[i as int],
                m[i as int].1 == spec_rows_view(f.rows@),
                endianness == e,
                e == Endianness::Little,
                out@ == fprefix + spec_c16_rows_payload(e, m[i as int].1, y as int),
            decreases f.rows@.len() - y,
        {
            let row = &f.rows[y];
            let ghost rprefix = out@;
            let mut k: usize = 0;
            proof {
                assert(row@.take(0) =~= Seq::<u16>::empty());
                assert(out@ =~= rprefix + spec_u16s_bytes(e, row@.take(0)));
            }
            while k < row.len()
                invariant
                    k <= row@.len(),
                    endianness == e,
                    out@ == rprefix + spec_u16s_bytes(e, row@.take(k as int)),
                decreases row@.len() - k,
            {
                endianness.push_u16(&mut out, row[k]);
                k += 1;
                proof {
                    let tk = row@.take(k as int);
                    assert(tk.drop_last() =~= row@.take(k - 1));
                    assert(tk.last() == row@[k - 1]);
                    assert(out@ =~= rprefix + spec_u16s_bytes(e, tk));
                }
            }
            endianness.push_u16(&mut out, 0);
            y += 1;
            proof {
                assert(row@.take(row@.len() as int) =~= row@);
                assert(m[i as int].1[y - 1] == row@);
                assert(out@ =~= fprefix + spec_c16_rows_payload(e, m[i as int].1, y as int));
            }
        }
        endianness.push_u16(&mut out, 0);
        i += 1;
        proof {
            assert(out@ =~= prefix + spec_c16_model_payload(e, m, i as int));
        }
    }
    proof {
        assert(out@ =~= spec_build_c16(sheet.id, m));
    }
    out
}


/// The header of either sheet family.
pub enum CS16Header {
    S16(S16Header),
    C16(C16Header),
}

impl CS16Header {
    /// The wrapped header is well formed.
    pub open spec fn wf(&self) -> bool {
        match self {
            CS16Header::S16(h) => h.images@.len() <= 0xFFFF,
            CS16Header::C16(h) => h.wf(),
        }
    }

    /// Gets the sheet variant.
    pub fn variant_cs16(&self) -> (r: CS16Type)
        ensures
            r == (match self {
                CS16Header::S16(h) => CS16Type::S16(h.variant),
                CS16Header::C16(h) => CS16Type::C16(h.variant),
            }),
    {
        match self {
            CS16Header::S16(h) => h.variant_cs16(),
            CS16Header::C16(h) => h.variant_cs16(),
        }
    }

    /// Gets a summary of image sizes.
    pub fn image_sizes(&self) -> (r: Vec<(usize, usize)>)
        ensures
            match self {
                CS16Header::S16(h) => r@.len() == h.images@.len() && forall|i: int|
                    0 <= i < r@.len() ==> #[trigger] r@[i] == (
                        h.images@[i].width as usize,
                        h.images@[i].height as usize,
                    ),
                CS16Header::C16(h) => r@.len() == h.images@.len() && forall|i: int|
                    0 <= i < r@.len() ==> #[trigger] r@[i] == (
                        h.images@[i].width as usize,
                        h.images@[i].height as usize,
                    ),
            },
    {
        match self {
            CS16Header::S16(h) => h.image_sizes(),
            CS16Header::C16(h) => h.image_sizes(),
        }
    }

    /// Measures the size of the serialized header.
    pub fn size(&self) -> (r: usize)
        requires
            self.wf(),
            match self {
                CS16Header::S16(_) => true,
                CS16Header::C16(h) => 6 + C16Header::spec_images_size(h.images@) <= usize::MAX,
            },
        ensures
            r == (match self {
                CS16Header::S16(h) => h.spec_bytes().len(),
                CS16Header::C16(h) => h.spec_bytes().len(),
            }),
    {
        match self {
            CS16Header::S16(h) => h.size(),
            CS16Header::C16(h) => h.size(),
        }
    }

    /// Converts the header to bytes.
    pub fn to_bytes(&self) -> (r: Vec<u8>)
        requires
            self.wf(),
        ensures
            r@ == (match self {
                CS16Header::S16(h) => h.spec_bytes(),
                CS16Header::C16(h) => h.spec_bytes(),
            }),
    {
        match self {
            CS16Header::S16(h) => h.to_bytes(),
            CS16Header::C16(h) => h.to_bytes(),
        }
    }
}

/// Reads the header of a sheet of known variant.
pub fn headers(t: CS16Type, data: &[u8]) -> (r: Result<CS16Header, CS16Error>)
    ensures
        match r {
            Ok(ch) => ch.wf() && (match (t, ch) {
                (CS16Type::S16(st), CS16Header::S16(h)) => spec_s16_header_ok(st, data@, h),
                (CS16Type::C16(ct), CS16Header::C16(h)) => spec_c16_header_ok(ct, data@, h),
                _ => false,
            }),
            Err(er) => er == CS16Error::InvalidHeader && (match t {
                CS16Type::S16(st) => !spec_s16_header_fits(st, data@),
                CS16Type::C16(_) => !spec_c16_header_fits(data@),
            }),
        },
{
    match t {
        CS16Type::S16(st) => match headers_s16(st, data) {
            Ok(h) => Ok(CS16Header::S16(h)),
            Err(_) => Err(CS16Error::InvalidHeader),
        },
        CS16Type::C16(ct) => match headers_c16(ct, data) {
            Ok(h) => Ok(CS16Header::C16(h)),
            Err(_) => Err(CS16Error::InvalidHeader),
        },
    }
}

/// Identifies a sheet and reads its header.
pub fn identify_and_headers(data: &[u8]) -> (r: Result<CS16Header, CS16Error>)
    ensures
        match r {
            Ok(ch) => {
                &&& ch.wf()
                &&& data@.len() >= 4
                &&& {
                    let t = CS16Type::spec_of_magic(spec_u32_at(Endianness::Little, data@, 0));
                    t is Some && (match (t.unwrap(), ch) {
                        (CS16Type::S16(st), CS16Header::S16(h)) => spec_s16_header_ok(
                            st,
                            data@,
                            h,
                        ),
                        (CS16Type::C16(ct), CS16Header::C16(h)) => spec_c16_header_ok(
                            ct,
                            data@,
                            h,
                        ),
                        _ => false,
                    })
                }
            },
            Err(CS16Error::Unidentified) => true,
            Err(CS16Error::InvalidHeader) => true,
            Err(_) => false,
        },
        (data@.len() < 4 || CS16Type::spec_of_magic(
            spec_u32_at(Endianness::Little, data@, 0),
        ) is None) == (r matches Err(CS16Error::Unidentified)),
        data@.len() >= 4 && (CS16Type::spec_of_magic(
            spec_u32_at(Endianness::Little, data@, 0),
        ) matches Some(CS16Type::S16(st))) ==> ((r matches Err(CS16Error::InvalidHeader))
            == !spec_s16_header_fits(
            (CS16Type::spec_of_magic(spec_u32_at(Endianness::Little, data@, 0)))->Some_0->S16_0,
            data@,
        )),
        data@.len() >= 4 && (CS16Type::spec_of_magic(
            spec_u32_at(Endianness::Little, data@, 0),
        ) matches Some(CS16Type::C16(ct))) ==> ((r matches Err(CS16Error::InvalidHeader))
            == !spec_c16_header_fits(data@)),
{
    match identify(data) {
        Some(t) => headers(t, data),
        None => Err(CS16Error::Unidentified),
    }
}

/// `frames` are the decompressed forms of the rows that `header` places
/// in `data`.
pub open spec fn spec_c16_decompressed_frames_ok(
    header: &C16Header,
    data: Seq<u8>,
    frames: Seq<S16Frame>,
) -> bool {
    &&& frames.len() == header.images@.len()
    &&& forall|i: int|
        0 <= i < frames.len() ==> (#[trigger] frames[i]).width == header.images@[i].width
    &&& forall|i: int|
        0 <= i < frames.len() ==> (#[trigger] frames[i]).height == header.images@[i].height
    &&& forall|i: int, y: int|
        0 <= i < frames.len() && 0 <= y < header.images@[i].height ==> spec_read_row(
            Endianness::Little,
            data,
            #[trigger] spec_c16_row_base(header.images@[i], y),
        ) is Some
    &&& forall|i: int, y: int|
        0 <= i < frames.len() && 0 <= y < header.images@[i].height ==> Some(
            #[trigger] frames[i].spec_row(y),
        ) == spec_row_pixels(
            spec_read_row(
                Endianness::Little,
                data,
                spec_c16_row_base(header.images@[i], y),
            ).unwrap(),
        )
}

/// Reads a sheet of either family and decompresses it into flat frames.
pub fn read_and_decompress(header: &CS16Header, data: &[u8]) -> (r: Result<CS16Sheet, CS16Error>)
    requires
        header.wf(),
    ensures
        match r {
            Ok(sheet) => sheet.wf() && (match header {
                CS16Header::S16(h) => sheet.id == CS16Type::S16(h.variant) && spec_s16_frames_ok(
                    h,
                    data@,
                    sheet.frames@,
                ),
                CS16Header::C16(h) => sheet.id == CS16Type::C16(h.variant)
                    && spec_c16_decompressed_frames_ok(h, data@, sheet.frames@),
            }),
            Err(er) => match (header, er) {
                (CS16Header::S16(h), CS16Error::TruncatedPixelData { frame }) => {
                    let img = h.images@[frame as int];
                    &&& frame < h.images@.len()
                    &&& img.width > 0 && img.height > 0
                    &&& img.base + 2 * (img.width as int) * (img.height as int) > data@.len()
                },
                (CS16Header::C16(h), CS16Error::BadRow { frame, row, offset }) => {
                    let img = h.images@[frame as int];
                    let rr = spec_read_row(Endianness::Little, data@, offset as int);
                    &&& frame < h.images@.len()
                    &&& row < img.height
                    &&& offset == spec_c16_row_base(img, row as int)
                    &&& (rr is None || !spec_row_valid(rr.unwrap(), img.width as nat))
                },
                _ => false,
            },
        },
{
    match header {
        CS16Header::S16(h) => match read_s16(h, data) {
            Ok(sheet) => {
                let ghost s0 = sheet;
                let cs = CS16Sheet::from(sheet);
                proof {
                    assert(cs == CS16Sheet { id: CS16Type::S16(s0.id), frames: s0.frames });
                }
                Ok(cs)
            },
            Err(er) => Err(er),
        },
        CS16Header::C16(h) => match read_c16(h, data) {
            Ok(sheet) => {
                let cs = sheet.decompress();
                proof {
                    assert forall|i: int|
                        0 <= i < cs.frames@.len() implies (#[trigger] cs.frames@[i]).width
                        == h.images@[i].width && (cs.frames@[i]).height
                        == h.images@[i].height by {
                        assert(cs.frames@[i].width == sheet.frames@[i].width);
                        assert(sheet.frames@[i].width == h.images@[i].width);
                        assert(cs.frames@[i].height == sheet.frames@[i].rows@.len());
                        assert(sheet.frames@[i].rows@.len() == h.images@[i].height);
                    }
                    assert forall|i: int, y: int|
                        0 <= i < cs.frames@.len() && 0 <= y < h.images@[i].height implies
                        spec_read_row(
                        Endianness::Little,
                        data@,
                        #[trigger] spec_c16_row_base(h.images@[i], y),
                    ) is Some by {
                        let cf = sheet.frames@[i];
                        assert(cf.rows@.len() == h.images@[i].height);
                        assert(Some((cf.rows@[y])@) == spec_read_row(
                            Endianness::Little,
                            data@,
                            spec_c16_row_base(h.images@[i], y),
                        ));
                    }
                    assert forall|i: int, y: int|
                        0 <= i < cs.frames@.len() && 0 <= y < h.images@[i].height implies Some(
                        #[trigger] cs.frames@[i].spec_row(y),
                    ) == spec_row_pixels(
                        spec_read_row(
                            Endianness::Little,
                            data@,
                            spec_c16_row_base(h.images@[i], y),
                        ).unwrap(),
                    ) by {
                        let cf = sheet.frames@[i];
                        assert(cf.rows@.len() == h.images@[i].height);
                        assert(Some((cf.rows@[y])@) == spec_read_row(
                            Endianness::Little,
                            data@,
                            spec_c16_row_base(h.images@[i], y),
                        ));
                        assert(Some(cs.frames@[i].spec_row(y)) == spec_row_pixels((cf.rows@[y])@));
                    }
                }
                Ok(cs)
            },
            Err(er) => Err(er),
        },
    }
}

/// The flat header entry that `data` stores at index `i`.
pub open spec fn spec_s16_image_at(e: Endianness, data: Seq<u8>, i: int) -> S16HeaderImage {
    S16HeaderImage {
        base: spec_u32_at(e, data, 6 + i * 8),
        width: spec_u16_at(e, data, 6 + i * 8 + 4),
        height: spec_u16_at(e, data, 6 + i * 8 + 6),
    }
}

/// The byte position of row `y` of compressed frame `i`, as `data`'s own
/// header stores it.
pub open spec fn spec_c16_row_base_at(data: Seq<u8>, i: int, y: int) -> int {
    let e = Endianness::Little;
    let p = spec_c16_entry_offset(e, data, i as nat);
    if y == 0 {
        spec_u32_at(e, data, p) as int
    } else {
        spec_u32_at(e, data, p + 8 + (y - 1) * 4) as int
    }
}

/// Identifies, reads and decompresses a sheet in one step: the sheet the
/// bytes describe, or the first reason they describe none.
pub fn identify_and_decompress(data: &[u8]) -> (r: Result<CS16Sheet, CS16Error>)
    ensures
        (data@.len() < 4 || CS16Type::spec_of_magic(
            spec_u32_at(Endianness::Little, data@, 0),
        ) is None) == (r matches Err(CS16Error::Unidentified)),
        r is Ok ==> {
            &&& r.unwrap().wf()
            &&& data@.len() >= 4
            &&& Some(r.unwrap().id) == CS16Type::spec_of_magic(
                spec_u32_at(Endianness::Little, data@, 0),
            )
        },
        data@.len() >= 4 && (CS16Type::spec_of_magic(
            spec_u32_at(Endianness::Little, data@, 0),
        ) matches Some(CS16Type::S16(st))) ==> spec_s16_decompress_post(
            (CS16Type::spec_of_magic(spec_u32_at(Endianness::Little, data@, 0)))->Some_0->S16_0,
            data@,
            r,
        ),
        data@.len() >= 4 && (CS16Type::spec_of_magic(
            spec_u32_at(Endianness::Little, data@, 0),
        ) matches Some(CS16Type::C16(ct))) ==> spec_c16_decompress_post(data@, r),
{
    match identify_and_headers(data) {
        Ok(header) => {
            let r = read_and_decompress(&header, data);
            proof {
                match &header {
                    CS16Header::S16(h) => {
                        let e = h.spec_endianness();
                        assert forall|i: int|
                            0 <= i < h.images@.len() implies #[trigger] h.images@[i]
                            == spec_s16_image_at(e, data@, i) by {}
                        if r is Ok {
                            let frames = r.unwrap().frames@;
                            assert forall|i: int, x: int, y: int|
                                0 <= i < frames.len() && 0 <= x < frames[i].width && 0 <= y
                                    < frames[i].height implies #[trigger] frames[i].spec_pixel(
                                x,
                                y,
                            ) == spec_u16_at(
                                e,
                                data@,
                                spec_s16_image_at(e, data@, i).base + 2 * (y * spec_s16_image_at(
                                    e,
                                    data@,
                                    i,
                                ).width + x),
                            ) by {
                                assert(h.images@[i] == spec_s16_image_at(e, data@, i));
                                assert(frames[i].spec_pixel(x, y) == spec_u16_at(
                                    e,
                                    data@,
                                    h.images@[i].base + 2 * (y * h.images@[i].width + x),
                                ));
                            }
                        }
                    },
                    CS16Header::C16(h) => {
                        let e = Endianness::Little;
                        if r is Ok {
                            let frames = r.unwrap().frames@;
                            assert forall|i: int, y: int|
                                0 <= i < frames.len() && 0 <= y < frames[i].height implies
                                spec_read_row(
                                e,
                                data@,
                                #[trigger] spec_c16_row_base_at(data@, i, y),
                            ) is Some by {
                                let img = h.images@[i];
                                assert(frames[i].height == img.height);
                                assert(spec_c16_row_base(img, y) == spec_c16_row_base_at(
                                    data@,
                                    i,
                                    y,
                                ));
                            }
                            assert forall|i: int, y: int|
                                0 <= i < frames.len() && 0 <= y < frames[i].height implies Some(
                                #[trigger] frames[i].spec_row(y),
                            ) == spec_row_pixels(
                                spec_read_row(e, data@, spec_c16_row_base_at(data@, i, y)).unwrap(),
                            ) by {
                                let img = h.images@[i];
                                assert(frames[i].height == img.height);
                                assert(spec_c16_row_base(img, y) == spec_c16_row_base_at(
                                    data@,
                                    i,
                                    y,
                                ));
                            }
                            assert forall|i: int|
                                0 <= i < frames.len() implies (#[trigger] frames[i]).width
                                == spec_u16_at(
                                e,
                                data@,
                                spec_c16_entry_offset(e, data@, i as nat) + 4,
                            ) && frames[i].height == spec_u16_at(
                                e,
                                data@,
                                spec_c16_entry_offset(e, data@, i as nat) + 6,
                            ) by {
                                assert(frames[i].width == h.images@[i].width);
                                assert(frames[i].height == h.images@[i].height);
                            }
                        }
                    },
                }
            }
            r
        },
        Err(er) => Err(er),
    }
}

/// What decoding flat-identified data yields: the exact failure reasons,
/// and on success every frame's pixels as the data stores them.
pub open spec fn spec_s16_decompress_post(
    st: S16Type,
    data: Seq<u8>,
    r: Result<CS16Sheet, CS16Error>,
) -> bool {
    let e = if st.spec_is_be() {
        Endianness::Big
    } else {
        Endianness::Little
    };
    let count = spec_u16_at(e, data, 4) as int;
    &&& (r matches Err(CS16Error::InvalidHeader)) == !spec_s16_header_fits(st, data)
    &&& !(r matches Err(CS16Error::BadRow { .. }))
    &&& (r matches Err(CS16Error::TruncatedPixelData { .. }) ==> {
        let frame = (match r {
            Err(CS16Error::TruncatedPixelData { frame }) => frame,
            _ => 0,
        }) as int;
        let img = spec_s16_image_at(e, data, frame);
        &&& 0 <= frame < count
        &&& img.width > 0 && img.height > 0
        &&& img.base + 2 * (img.width as int) * (img.height as int) > data.len()
    })
    &&& (r is Ok ==> r.unwrap().frames@.len() == count)
    &&& (r is Ok ==> forall|i: int|
        0 <= i < count ==> (#[trigger] r.unwrap().frames@[i]).width == spec_s16_image_at(
            e,
            data,
            i,
        ).width && r.unwrap().frames@[i].height == spec_s16_image_at(e, data, i).height)
    &&& (r is Ok ==> forall|i: int, x: int, y: int|
        0 <= i < count && 0 <= x < r.unwrap().frames@[i].width && 0 <= y
            < r.unwrap().frames@[i].height ==> #[trigger] r.unwrap().frames@[i].spec_pixel(x, y)
            == spec_u16_at(
            e,
            data,
            spec_s16_image_at(e, data, i).base + 2 * (y * spec_s16_image_at(e, data, i).width + x),
        ))
}

/// What decoding compressed-identified data yields: the exact failure
/// reasons, and on success every frame's rows as the data stores them,
/// decompressed.
pub open spec fn spec_c16_decompress_post(data: Seq<u8>, r: Result<CS16Sheet, CS16Error>) -> bool {
    let e = Endianness::Little;
    let count = spec_u16_at(e, data, 4) as int;
    &&& (r matches Err(CS16Error::InvalidHeader)) == !spec_c16_header_fits(data)
    &&& !(r matches Err(CS16Error::TruncatedPixelData { .. }))
    &&& (r is Ok ==> r.unwrap().frames@.len() == count)
    &&& (r is Ok ==> forall|i: int|
        0 <= i < count ==> (#[trigger] r.unwrap().frames@[i]).width == spec_u16_at(
            e,
            data,
            spec_c16_entry_offset(e, data, i as nat) + 4,
        ) && r.unwrap().frames@[i].height == spec_u16_at(
            e,
            data,
            spec_c16_entry_offset(e, data, i as nat) + 6,
        ))
    &&& (r is Ok ==> forall|i: int, y: int|
        0 <= i < count && 0 <= y < r.unwrap().frames@[i].height ==> spec_read_row(
            e,
            data,
            #[trigger] spec_c16_row_base_at(data, i, y),
        ) is Some)
    &&& (r is Ok ==> forall|i: int, y: int|
        0 <= i < count && 0 <= y < r.unwrap().frames@[i].height ==> Some(
            #[trigger] r.unwrap().frames@[i].spec_row(y),
        ) == spec_row_pixels(spec_read_row(e, data, spec_c16_row_base_at(data, i, y)).unwrap()))
}

/// Builds a sheet of either family from decompressed frames: flat
/// variants serialize the pixels directly, compressed variants compress
/// every frame first.
pub fn build(t: &CS16Sheet) -> (r: Vec<u8>)
    requires
        t.wf(),
        match t.id {
            CS16Type::S16(_) => spec_s16_data_offset(t.frames@, t.frames@.len() as int)
                <= u32::MAX,
            CS16Type::C16(_) => spec_c16_model_data_offset(
                spec_flat_sheet_model(t.frames@),
                t.frames@.len() as int,
            ) <= u32::MAX,
        },
    ensures
        r@ == (match t.id {
            CS16Type::S16(s) => spec_build_s16(s, t.frames@),
            CS16Type::C16(c) => spec_build_c16(c, spec_flat_sheet_model(t.frames@)),
        }),
{
    match t.id {
        CS16Type::S16(s16) => build_s16_inner(s16, &t.frames),
        CS16Type::C16(c16) => {
            let ghost fm = spec_flat_sheet_model(t.frames@);
            let mut frames: Vec<C16Frame> = Vec::new();
            let mut i: usize = 0;
            while i < t.frames.len()
                invariant
                    i <= t.frames@.len(),
                    t.wf(),
                    frames@.len() == i,
                    forall|k: int|
                        0 <= k < i ==> {
                            let cf = #[trigger] frames@[k];
                            &&& cf.wf()
                            &&& cf.width == t.frames@[k].width
                            &&& cf.rows@.len() == t.frames@[k].height
                            &&& forall|y: int|
                                0 <= y < cf.rows@.len() ==> (#[trigger] cf.rows@[y])@
                                    == crate::spritefile::spec_compress_row(
                                    t.frames@[k].spec_row(y),
                                )
                        },
                decreases t.frames@.len() - i,
            {
                frames.push(C16Frame::compress(&t.frames[i]));
                i += 1;
            }
            let c = C16Sheet { id: c16, frames };
            proof {
                assert(spec_c16_sheet_model(c.frames@) =~~= fm);
            }
            build_c16(&c)
        },
    }
}

} // verus!
