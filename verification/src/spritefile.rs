//! Sprite sheet types: the flat (S16-style) and run-length (C16-style)
//! format variants, their colour models, the span instruction codec, and
//! row compression and decompression.

use vstd::prelude::*;
use crate::colours::{
    cm_rgb1555, cm_rgb5551, cm_rgb565, spec_cm_rgb1555, spec_cm_rgb5551, spec_cm_rgb565,
    ColourModelRGB16,
};
use crate::endian::Endianness;
use crate::raster::Raster;

verus! {

/// A flat-format variant.
#[derive(Copy, Clone, PartialEq, Eq, Structural, Debug)]
pub enum S16Type {
    /// Flat 565, little-endian.
    S16_565,
    /// Flat 555, little-endian.
    S16_555,
    /// Flat 5-5-5-1, big-endian.
    M16,
    /// Flat 5-5-5-1, big-endian.
    N16,
}

/// A run-length-compressed format variant.
#[derive(Copy, Clone, PartialEq, Eq, Structural, Debug)]
pub enum C16Type {
    C16_565,
    C16_555,
}

/// Any sheet format variant.
#[derive(Copy, Clone, PartialEq, Eq, Structural, Debug)]
pub enum CS16Type {
    S16(S16Type),
    C16(C16Type),
}

impl S16Type {
    /// The 32-bit magic number, read little-endian.
    pub open spec fn spec_magic(&self) -> u32 {
        match self {
            S16Type::S16_565 => 1,
            S16Type::S16_555 => 0,
            S16Type::N16 => 0x01000000,
            S16Type::M16 => 0x03000000,
        }
    }

    /// Whether multi-byte fields are big-endian.
    pub open spec fn spec_is_be(&self) -> bool {
        match self {
            S16Type::S16_565 => false,
            S16Type::S16_555 => false,
            S16Type::M16 => true,
            S16Type::N16 => true,
        }
    }

    /// The colour model of this variant.
    pub open spec fn spec_cm16(&self) -> ColourModelRGB16 {
        match self {
            S16Type::S16_565 => spec_cm_rgb565(),
            S16Type::S16_555 => spec_cm_rgb1555(),
            S16Type::M16 => spec_cm_rgb5551(),
            S16Type::N16 => spec_cm_rgb5551(),
        }
    }

    /// 32-bit magic number, when interpreted as little-endian.
    pub fn magic(&self) -> (r: u32)
        ensures
            r == self.spec_magic(),
    {
        match self {
            S16Type::S16_565 => 1,
            S16Type::S16_555 => 0,
            S16Type::N16 => 0x01000000,
            S16Type::M16 => 0x03000000,
        }
    }

    /// Endianness flag.
    pub fn is_be(&self) -> (r: bool)
        ensures
            r == self.spec_is_be(),
    {
        match self {
            S16Type::S16_565 => false,
            S16Type::S16_555 => false,
            S16Type::M16 => true,
            S16Type::N16 => true,
        }
    }

    /// Byte order of this variant's fields.
    pub fn endianness(&self) -> (r: Endianness)
        ensures
            r == (if self.spec_is_be() {
                Endianness::Big
            } else {
                Endianness::Little
            }),
    {
        if self.is_be() {
            Endianness::Big
        } else {
            Endianness::Little
        }
    }

    /// Looks up the actual colour model.
    pub fn to_cm16(&self) -> (r: ColourModelRGB16)
        ensures
            r == self.spec_cm16(),
            r.wf(),
    {
        match self {
            S16Type::S16_565 => cm_rgb565(),
            S16Type::S16_555 => cm_rgb1555(),
            S16Type::M16 => cm_rgb5551(),
            S16Type::N16 => cm_rgb5551(),
        }
    }

    /// Describes the type.
    pub fn describe(&self) -> (r: &'static str)
        ensures
            r@ == self.spec_describe(),
    {
        match self {
            S16Type::S16_565 => "S16 RGB565 LE",
            S16Type::S16_555 => "S16 RGB555 LE",
            S16Type::M16 => "M16 RGB5551 BE",
            S16Type::N16 => "N16 RGB5551 BE",
        }
    }

    /// The description text.
    pub open spec fn spec_describe(&self) -> Seq<char> {
        match self {
            S16Type::S16_565 => "S16 RGB565 LE"@,
            S16Type::S16_555 => "S16 RGB555 LE"@,
            S16Type::M16 => "M16 RGB5551 BE"@,
            S16Type::N16 => "N16 RGB5551 BE"@,
        }
    }

    /// Translates this variant to itself (every flat variant is flat).
    pub fn to_equivalent_s16(&self) -> (r: S16Type)
        ensures
            r == *self,
    {
        *self
    }

    /// Translates this variant to the equivalent compressed variant, if
    /// one exists (the big-endian variants have none).
    pub fn to_equivalent_c16(&self) -> (r: Option<C16Type>)
        ensures
            r == (match self {
                S16Type::S16_565 => Some(C16Type::C16_565),
                S16Type::S16_555 => Some(C16Type::C16_555),
                _ => None::<C16Type>,
            }),
    {
        match self {
            S16Type::S16_565 => Some(C16Type::C16_565),
            S16Type::S16_555 => Some(C16Type::C16_555),
            _ => None,
        }
    }
}

impl C16Type {
    /// The 32-bit magic number, read little-endian.
    pub open spec fn spec_magic(&self) -> u32 {
        match self {
            C16Type::C16_565 => 3,
            C16Type::C16_555 => 2,
        }
    }

    /// The colour model of this variant.
    pub open spec fn spec_cm16(&self) -> ColourModelRGB16 {
        match self {
            C16Type::C16_565 => spec_cm_rgb565(),
            C16Type::C16_555 => spec_cm_rgb1555(),
        }
    }

    /// 32-bit magic number, when interpreted as little-endian.
    pub fn magic(&self) -> (r: u32)
        ensures
            r == self.spec_magic(),
    {
        match self {
            C16Type::C16_565 => 3,
            C16Type::C16_555 => 2,
        }
    }

    /// Compressed variants are always little-endian.
    pub fn is_be(&self) -> (r: bool)
        ensures
            !r,
    {
        false
    }

    /// Byte order of this variant's fields.
    pub fn endianness(&self) -> (r: Endianness)
        ensures
            r == Endianness::Little,
    {
        Endianness::Little
    }

    /// Looks up the actual colour model.
    pub fn to_cm16(&self) -> (r: ColourModelRGB16)
        ensures
            r == self.spec_cm16(),
            r.wf(),
    {
        match self {
            C16Type::C16_565 => cm_rgb565(),
            C16Type::C16_555 => cm_rgb1555(),
        }
    }

    /// Describes the type.
    pub fn describe(&self) -> (r: &'static str)
        ensures
            r@ == self.spec_describe(),
    {
        match self {
            C16Type::C16_565 => "C16 RGB565 LE",
            C16Type::C16_555 => "C16 RGB555 LE",
        }
    }

    /// The description text.
    pub open spec fn spec_describe(&self) -> Seq<char> {
        match self {
            C16Type::C16_565 => "C16 RGB565 LE"@,
            C16Type::C16_555 => "C16 RGB555 LE"@,
        }
    }

    /// Translates this variant to the equivalent flat variant.
    pub fn to_equivalent_s16(&self) -> (r: S16Type)
        ensures
            r == (match self {
                C16Type::C16_565 => S16Type::S16_565,
                C16Type::C16_555 => S16Type::S16_555,
            }),
    {
        match self {
            C16Type::C16_565 => S16Type::S16_565,
            C16Type::C16_555 => S16Type::S16_555,
        }
    }
}

impl CS16Type {
    /// The variant a magic number names, if any.
    pub open spec fn spec_of_magic(magic: u32) -> Option<CS16Type> {
        if magic == 1 {
            Some(CS16Type::S16(S16Type::S16_565))
        } else if magic == 3 {
            Some(CS16Type::C16(C16Type::C16_565))
        } else if magic == 0 {
            Some(CS16Type::S16(S16Type::S16_555))
        } else if magic == 2 {
            Some(CS16Type::C16(C16Type::C16_555))
        } else if magic == 0x01000000 {
            Some(CS16Type::S16(S16Type::N16))
        } else if magic == 0x03000000 {
            Some(CS16Type::S16(S16Type::M16))
        } else {
            None
        }
    }

    /// Identifies a variant from its 32-bit magic number, when
    /// interpreted as little-endian.
    pub fn of_magic(magic: u32) -> (r: Option<CS16Type>)
        ensures
            r == Self::spec_of_magic(magic),
    {
        match magic {
            1 => Some(CS16Type::S16(S16Type::S16_565)),
            3 => Some(CS16Type::C16(C16Type::C16_565)),
            0 => Some(CS16Type::S16(S16Type::S16_555)),
            2 => Some(CS16Type::C16(C16Type::C16_555)),
            0x01000000 => Some(CS16Type::S16(S16Type::N16)),
            0x03000000 => Some(CS16Type::S16(S16Type::M16)),
            _ => None,
        }
    }

    /// The magic number of this variant.
    pub open spec fn spec_magic(&self) -> u32 {
        match self {
            CS16Type::S16(s) => s.spec_magic(),
            CS16Type::C16(c) => c.spec_magic(),
        }
    }

    /// 32-bit magic number, when interpreted as little-endian.
    pub fn magic(&self) -> (r: u32)
        ensures
            r == self.spec_magic(),
    {
        match self {
            CS16Type::S16(s) => s.magic(),
            CS16Type::C16(c) => c.magic(),
        }
    }

    /// Whether multi-byte fields are big-endian.
    pub open spec fn spec_is_be(&self) -> bool {
        match self {
            CS16Type::S16(s) => s.spec_is_be(),
            CS16Type::C16(_) => false,
        }
    }

    /// Endianness flag.
    pub fn is_be(&self) -> (r: bool)
        ensures
            r == self.spec_is_be(),
    {
        match self {
            CS16Type::S16(s) => s.is_be(),
            CS16Type::C16(c) => c.is_be(),
        }
    }

    /// Byte order of this variant's fields.
    pub fn endianness(&self) -> (r: Endianness)
        ensures
            r == (if self.spec_is_be() {
                Endianness::Big
            } else {
                Endianness::Little
            }),
    {
        if self.is_be() {
            Endianness::Big
        } else {
            Endianness::Little
        }
    }

    /// The colour model of this variant.
    pub open spec fn spec_cm16(&self) -> ColourModelRGB16 {
        match self {
            CS16Type::S16(s) => s.spec_cm16(),
            CS16Type::C16(c) => c.spec_cm16(),
        }
    }

    /// Looks up the actual colour model.
    pub fn to_cm16(&self) -> (r: ColourModelRGB16)
        ensures
            r == self.spec_cm16(),
            r.wf(),
    {
        match self {
            CS16Type::S16(s) => s.to_cm16(),
            CS16Type::C16(c) => c.to_cm16(),
        }
    }

    /// Describes the type.
    pub fn describe(&self) -> (r: &'static str)
        ensures
            r@ == (match self {
                CS16Type::S16(s) => s.spec_describe(),
                CS16Type::C16(c) => c.spec_describe(),
            }),
    {
        match self {
            CS16Type::S16(s) => s.describe(),
            CS16Type::C16(c) => c.describe(),
        }
    }

    /// Translates this variant to the equivalent flat variant.
    pub fn to_equivalent_s16(&self) -> (r: S16Type)
        ensures
            r == (match self {
                CS16Type::S16(s) => *s,
                CS16Type::C16(C16Type::C16_565) => S16Type::S16_565,
                CS16Type::C16(C16Type::C16_555) => S16Type::S16_555,
            }),
    {
        match self {
            CS16Type::S16(s) => s.to_equivalent_s16(),
            CS16Type::C16(c) => c.to_equivalent_s16(),
        }
    }
}

/// Frame in a flat sheet: a raster of packed samples.
pub type S16Frame = Raster<u16>;

/// A compressed row, not including the end-of-row marker.
pub type C16Row = Vec<u16>;

/// A span instruction at the start of a compressed-row segment.
#[derive(Clone, Copy, PartialEq, Eq, Structural, Debug)]
pub enum C16SpanStart {
    /// The zero header: end of row.
    End,
    /// An opaque run: the length, followed by that many raw samples.
    Colour(u16),
    /// A transparent run: the length, with no samples following.
    Transparent(u16),
}

impl C16SpanStart {
    /// The instruction a header word encodes: zero ends the row, bit 15
    /// marks an opaque run, and the low 15 bits carry the run length.
    pub open spec fn spec_decode(v: u16) -> C16SpanStart {
        if v == 0 {
            C16SpanStart::End
        } else if v >= 0x8000 {
            C16SpanStart::Colour((v - 0x8000) as u16)
        } else {
            C16SpanStart::Transparent(v)
        }
    }

    /// Decodes a span header word into an instruction.
    #[inline]
    pub fn decode(v: u16) -> (r: C16SpanStart)
        ensures
            r == Self::spec_decode(v),
    {
        proof {
            assert((v & 0x8000 != 0) == (v >= 0x8000)) by (bit_vector);
            assert(v & 0x7FFF == v % 0x8000) by (bit_vector);
            assert(v >= 0x8000 ==> v % 0x8000 == v - 0x8000);
            assert(v < 0x8000 ==> v % 0x8000 == v);
        }
        if v == 0 {
            C16SpanStart::End
        } else {
            let run_len = v & 0x7FFF;
            if (v & 0x8000) != 0 {
                C16SpanStart::Colour(run_len)
            } else {
                C16SpanStart::Transparent(run_len)
            }
        }
    }

    /// Encodes a span instruction as a header word.  Run lengths stay
    /// within the 15 bits the format gives them.
    #[inline]
    pub fn encode(&self) -> (r: u16)
        requires
            match self {
                C16SpanStart::End => true,
                C16SpanStart::Colour(len) => len <= 0x7FFF,
                C16SpanStart::Transparent(len) => len <= 0x7FFF,
            },
        ensures
            r == (match self {
                C16SpanStart::End => 0u16,
                C16SpanStart::Colour(len) => (len + 0x8000) as u16,
                C16SpanStart::Transparent(len) => *len,
            }),
    {
        match self {
            C16SpanStart::End => 0,
            C16SpanStart::Colour(len) => {
                proof {
                    let l = *len;
                    assert(l <= 0x7FFF ==> (l | 0x8000) == l + 0x8000) by (bit_vector);
                }
                *len | 0x8000
            },
            C16SpanStart::Transparent(len) => *len,
        }
    }

    /// Instruction data length (in words following the header).
    #[inline]
    pub fn data_len(&self) -> (r: usize)
        ensures
            r == (match self {
                C16SpanStart::End => 0usize,
                C16SpanStart::Colour(len) => *len as usize,
                C16SpanStart::Transparent(_) => 0usize,
            }),
    {
        match self {
            C16SpanStart::End => 0,
            C16SpanStart::Colour(len) => *len as usize,
            C16SpanStart::Transparent(_) => 0,
        }
    }

    /// Instruction X advance (in pixels).
    #[inline]
    pub fn advance(&self) -> (r: usize)
        ensures
            r == (match self {
                C16SpanStart::End => 0usize,
                C16SpanStart::Colour(len) => *len as usize,
                C16SpanStart::Transparent(len) => *len as usize,
            }),
    {
        match self {
            C16SpanStart::End => 0,
            C16SpanStart::Colour(len) => *len as usize,
            C16SpanStart::Transparent(len) => *len as usize,
        }
    }
}

/// The pixels a compressed row reconstructs, walking spans until the
/// terminator or the row's end: opaque runs supply their samples,
/// transparent runs supply zeros.  Nothing when a run overruns the stored
/// words.
pub open spec fn spec_row_pixels(row: Seq<u16>) -> Option<Seq<u16>>
    decreases row.len(),
{
    if row.len() == 0 {
        Some(Seq::empty())
    } else {
        let v = row[0];
        if v == 0 {
            Some(Seq::empty())
        } else if v >= 0x8000 {
            let n = (v - 0x8000) as int;
            if row.len() >= 1 + n {
                match spec_row_pixels(row.skip(1 + n)) {
                    Some(rest) => Some(row.subrange(1, 1 + n) + rest),
                    None => None,
                }
            } else {
                None
            }
        } else {
            match spec_row_pixels(row.skip(1)) {
                Some(rest) => Some(Seq::new(v as nat, |i: int| 0u16) + rest),
                None => None,
            }
        }
    }
}

/// A row is valid for a width iff its spans reconstruct exactly that many
/// pixels.
pub open spec fn spec_row_valid(row: Seq<u16>, width: nat) -> bool {
    match spec_row_pixels(row) {
        Some(p) => p.len() == width,
        None => false,
    }
}

/// The length of the run at the head of `input` whose samples all share
/// the given transparency (a sample is transparent iff it is zero).
pub open spec fn spec_run_len(input: Seq<u16>, transparent: bool) -> nat
    decreases input.len(),
{
    if input.len() == 0 || ((input[0] == 0) != transparent) {
        0
    } else {
        1 + spec_run_len(input.skip(1), transparent)
    }
}

/// A head run never outruns the input, its samples all share the
/// transparency asked for, and it is maximal.
pub proof fn lemma_run_len_prefix(input: Seq<u16>, transparent: bool)
    ensures
        spec_run_len(input, transparent) <= input.len(),
        forall|k: int|
            0 <= k < spec_run_len(input, transparent) ==> ((#[trigger] input[k] == 0)
                == transparent),
        input.len() > 0 && ((input[0] == 0) == transparent) ==> spec_run_len(input, transparent)
            >= 1,
    decreases input.len(),
{
    if input.len() > 0 && ((input[0] == 0) == transparent) {
        lemma_run_len_prefix(input.skip(1), transparent);
        assert forall|k: int|
            0 <= k < spec_run_len(input, transparent) implies ((#[trigger] input[k] == 0)
            == transparent) by {
            if k > 0 {
                assert(input.skip(1)[k - 1] == input[k]);
            }
        }
    }
}

/// The exact compressed form of a flat row: maximal same-transparency
/// runs, emitted as alternating spans, long runs split at 32767.
pub open spec fn spec_compress_row(input: Seq<u16>) -> Seq<u16>
    decreases input.len(),
    via spec_compress_row_decreases
{
    if input.len() == 0 {
        Seq::empty()
    } else {
        let t = input[0] == 0;
        let full = spec_run_len(input, t);
        let n = if full > 32767 {
            32767nat
        } else {
            full
        };
        let header = if t {
            n as u16
        } else {
            (n + 0x8000) as u16
        };
        let body = if t {
            Seq::<u16>::empty()
        } else {
            input.take(n as int)
        };
        seq![header] + body + spec_compress_row(input.skip(n as int))
    }
}

#[via_fn]
proof fn spec_compress_row_decreases(input: Seq<u16>) {
    if input.len() > 0 {
        let t = input[0] == 0;
        lemma_run_len_prefix(input, t);
    }
}

/// Round trip: decompressing a compressed row gives the row back, whatever
/// it held -- all zero, all opaque, mixed runs, or runs long enough to be
/// split across several spans.
pub proof fn lemma_row_round_trip(input: Seq<u16>)
    ensures
        spec_row_pixels(spec_compress_row(input)) == Some(input),
        spec_row_valid(spec_compress_row(input), input.len() as nat),
    decreases input.len(),
{
    if input.len() > 0 {
        let t = input[0] == 0;
        let full = spec_run_len(input, t);
        lemma_run_len_prefix(input, t);
        let n = if full > 32767 {
            32767nat
        } else {
            full
        };
        let header = if t {
            n as u16
        } else {
            (n + 0x8000) as u16
        };
        let body = if t {
            Seq::<u16>::empty()
        } else {
            input.take(n as int)
        };
        let c = seq![header] + body + spec_compress_row(input.skip(n as int));
        lemma_row_round_trip(input.skip(n as int));
        assert(c[0] == header);
        if t {
            assert(header != 0 && header < 0x8000);
            assert(c.skip(1) =~= spec_compress_row(input.skip(n as int)));
            let zeros = Seq::new(header as nat, |i: int| 0u16);
            assert(input.take(n as int) =~= zeros);
            assert(input.take(n as int) + input.skip(n as int) =~= input);
        } else {
            assert(header >= 0x8000 && (header - 0x8000) == n);
            assert(c.len() >= 1 + n);
            assert(c.subrange(1, 1 + n as int) =~= input.take(n as int));
            assert(c.skip(1 + n as int) =~= spec_compress_row(input.skip(n as int)));
            assert(input.take(n as int) + input.skip(n as int) =~= input);
        }
    }
}

/// Validates a compressed row against the width it should reconstruct.
pub fn c16_row_validate(row: &[u16], expected_x: usize) -> (r: bool)
    ensures
        r == spec_row_valid(row@, expected_x as nat),
{
    let mut k: usize = 0;
    let mut x: usize = 0;
    proof {
        assert(row@.skip(0) =~= row@);
    }
    loop
        invariant
            k <= row@.len(),
            x <= expected_x,
            (spec_row_pixels(row@) is Some) == (spec_row_pixels(row@.skip(k as int)) is Some),
            spec_row_pixels(row@) is Some ==> spec_row_pixels(row@).unwrap().len() == x
                + spec_row_pixels(row@.skip(k as int)).unwrap().len(),
        decreases row@.len() - k,
    {
        if k >= row.len() {
            proof {
                assert(row@.skip(k as int) =~= Seq::<u16>::empty());
            }
            return x == expected_x;
        }
        let v = row[k];
        let ghost tail = row@.skip(k as int);
        proof {
            assert(tail[0] == v);
        }
        match C16SpanStart::decode(v) {
            C16SpanStart::End => {
                return x == expected_x;
            },
            C16SpanStart::Colour(len) => {
                let n = len as usize;
                if row.len() - k < 1 + n {
                    proof {
                        assert(spec_row_pixels(tail) is None);
                    }
                    return false;
                }
                proof {
                    assert(tail.skip(1 + n as int) =~= row@.skip((k + 1 + n) as int));
                }
                if expected_x - x < n {
                    proof {
                        if spec_row_pixels(row@) is Some {
                            assert(spec_row_pixels(tail).unwrap().len() >= n);
                        }
                    }
                    return false;
                }
                x = x + n;
                k = k + 1 + n;
            },
            C16SpanStart::Transparent(len) => {
                let n = len as usize;
                proof {
                    assert(tail.skip(1) =~= row@.skip((k + 1) as int));
                }
                if expected_x - x < n {
                    proof {
                        if spec_row_pixels(row@) is Some {
                            assert(spec_row_pixels(tail).unwrap().len() >= n);
                        }
                    }
                    return false;
                }
                x = x + n;
                k = k + 1;
            },
        }
    }
}

/// Compresses a flat row: scans maximal same-transparency runs and emits
/// alternating spans, splitting any run longer than 32767.
pub fn c16_row_compress(input: &[u16]) -> (r: C16Row)
    ensures
        r@ == spec_compress_row(input@),
{
    let mut res: Vec<u16> = Vec::new();
    let mut i: usize = 0;
    proof {
        assert(input@.skip(0) =~= input@);
        assert(res@ + spec_compress_row(input@) =~= spec_compress_row(input@));
    }
    while i < input.len()
        invariant
            i <= input@.len(),
            spec_compress_row(input@) == res@ + spec_compress_row(input@.skip(i as int)),
        decreases input@.len() - i,
    {
        let ghost pre = res@;
        let t = input[i] == 0;
        let mut j = i + 1;
        proof {
            assert(input@.skip(i as int)[0] == input@[i as int]);
            assert(input@.skip(i as int).skip(1) =~= input@.skip(i + 1));
        }
        while j < input.len() && (input[j] == 0) == t
            invariant
                i < j <= input@.len(),
                t == (input@[i as int] == 0),
                spec_run_len(input@.skip(i as int), t) == (j - i) + spec_run_len(
                    input@.skip(j as int),
                    t,
                ),
            decreases input@.len() - j,
        {
            proof {
                assert(input@.skip(j as int)[0] == input@[j as int]);
                assert(input@.skip(j as int).skip(1) =~= input@.skip(j + 1));
            }
            j += 1;
        }
        proof {
            if j < input@.len() {
                assert(input@.skip(j as int)[0] == input@[j as int]);
            }
            assert(spec_run_len(input@.skip(j as int), t) == 0);
        }
        let run = j - i;
        let n = if run > 32767 {
            32767
        } else {
            run
        };
        let start = if t {
            C16SpanStart::Transparent(n as u16).encode()
        } else {
            C16SpanStart::Colour(n as u16).encode()
        };
        res.push(start);
        proof {
            assert(res@ =~= pre + seq![start] + input@.subrange(i as int, i as int));
        }
        if !t {
            let mut k: usize = 0;
            while k < n
                invariant
                    k <= n,
                    i + n <= input@.len(),
                    i + n <= usize::MAX,
                    res@.len() == pre.len() + 1 + k,
                    res@ == pre + seq![start] + input@.subrange(i as int, i + k),
                decreases n - k,
            {
                res.push(input[i + k]);
                k += 1;
                proof {
                    assert(res@ =~= pre + seq![start] + input@.subrange(i as int, i + k));
                }
            }
        }
        proof {
            let tail = input@.skip(i as int);
            assert(tail.len() > 0 && (tail[0] == 0) == t);
            assert(tail.skip(n as int) =~= input@.skip(i + n));
            assert(tail.take(n as int) =~= input@.subrange(i as int, i + n));
            if t {
                assert(res@ =~= pre + seq![start]);
                assert(res@ + spec_compress_row(input@.skip(i + n)) =~= pre + (seq![start]
                    + Seq::<u16>::empty() + spec_compress_row(tail.skip(n as int))));
            } else {
                assert(res@ =~= pre + seq![start] + tail.take(n as int));
                assert(res@ + spec_compress_row(input@.skip(i + n)) =~= pre + (seq![start]
                    + tail.take(n as int) + spec_compress_row(tail.skip(n as int))));
            }
        }
        i += n;
    }
    proof {
        assert(input@.skip(i as int) =~= Seq::<u16>::empty());
        assert(res@ =~= res@ + spec_compress_row(input@.skip(i as int)));
    }
    res
}

/// Single frame of a compressed sheet: its width and one compressed row
/// per image row, each reconstructing exactly `width` pixels.
pub struct C16Frame {
    pub width: usize,
    pub rows: Vec<C16Row>,
}

impl C16Frame {
    /// Every row is valid for the frame's width, and the dimensions fit
    /// the format's 16-bit header fields.
    pub open spec fn wf(&self) -> bool {
        &&& self.width <= 0xFFFF
        &&& self.rows@.len() <= 0xFFFF
        &&& forall|y: int|
            0 <= y < self.rows@.len() ==> spec_row_valid(
                (#[trigger] self.rows@[y])@,
                self.width as nat,
            )
    }

    /// Compresses a flat frame row by row.
    pub fn compress(frame: &S16Frame) -> (r: C16Frame)
        requires
            frame.wf(),
            frame.width <= 0xFFFF,
            frame.height <= 0xFFFF,
        ensures
            r.wf(),
            r.width == frame.width,
            r.rows@.len() == frame.height,
            forall|y: int|
                0 <= y < frame.height ==> (#[trigger] r.rows@[y])@ == spec_compress_row(
                    frame.spec_row(y),
                ),
    {
        let mut rows: Vec<C16Row> = Vec::new();
        let mut y: usize = 0;
        while y < frame.height()
            invariant
                y <= frame.height,
                frame.wf(),
                frame.width <= 0xFFFF,
                frame.height <= 0xFFFF,
                rows@.len() == y,
                forall|k: int|
                    0 <= k < y ==> (#[trigger] rows@[k])@ == spec_compress_row(frame.spec_row(k)),
                forall|k: int|
                    0 <= k < y ==> spec_row_valid((#[trigger] rows@[k])@, frame.width as nat),
            decreases frame.height - y,
        {
            let row = frame.row(y);
            let compressed = c16_row_compress(row.as_slice());
            proof {
                lemma_row_round_trip(frame.spec_row(y as int));
                frame.lemma_row_index(0, y as int);
            }
            rows.push(compressed);
            y += 1;
        }
        C16Frame { width: frame.width(), rows }
    }

    /// Decompresses this frame into a flat one: transparent runs stay
    /// zero, opaque runs write their samples.
    pub fn decompress(&self) -> (r: S16Frame)
        requires
            self.wf(),
        ensures
            r.wf(),
            r.width == self.width,
            r.height == self.rows@.len(),
            forall|y: int|
                0 <= y < self.rows@.len() ==> Some(r.spec_row(y)) == spec_row_pixels(
                    (#[trigger] self.rows@[y])@,
                ),
    {
        proof {
            assert(self.width * self.rows@.len() <= 0xFFFF * 0xFFFF) by (nonlinear_arith)
                requires
                    self.width <= 0xFFFF,
                    self.rows@.len() <= 0xFFFF,
            ;
        }
        let height = self.rows.len();
        let mut res: S16Frame = Raster::new_filled(self.width, height, 0u16);
        proof {
            assert forall|i: int, j: int|
                0 <= i < res.width && 0 <= j < res.height implies res.spec_pixel(i, j)
                == 0u16 by {
                crate::raster::lemma_grid_index_bound(res.width as int, res.height as int, i, j);
                assert((res.height as int) * (res.width as int) == (res.width as int) * (
                res.height as int)) by (nonlinear_arith);
            }
        }
        let mut y: usize = 0;
        while y < height
            invariant
                y <= height,
                self.wf(),
                height == self.rows@.len(),
                res.wf(),
                res.width == self.width,
                res.height == height,
                forall|i: int, yy: int|
                    0 <= i < self.width && 0 <= yy < y ==> #[trigger] res.spec_pixel(i, yy)
                        == spec_row_pixels((self.rows@[yy])@).unwrap()[i],
                forall|i: int, j: int|
                    0 <= i < res.width && y <= j < res.height ==> res.spec_pixel(i, j) == 0u16,
            decreases height - y,
        {
            let row = &self.rows[y];
            let ghost pix = spec_row_pixels(row@).unwrap();
            proof {
                assert(spec_row_valid(row@, self.width as nat));
            }
            let mut k: usize = 0;
            let mut x: usize = 0;
            proof {
                assert(row@.skip(0) =~= row@);
                assert(pix.skip(0) =~= pix);
            }
            loop
                invariant
                    y < height,
                    k <= row@.len(),
                    x <= self.width,
                    k <= usize::MAX,
                    self.wf(),
                    height == self.rows@.len(),
                    row == self.rows@[y as int],
                    pix == spec_row_pixels(row@).unwrap(),
                    spec_row_pixels(row@) is Some,
                    pix.len() == self.width,
                    spec_row_pixels(row@.skip(k as int)) == Some(pix.skip(x as int)),
                    res.wf(),
                    res.width == self.width,
                    res.height == height,
                    forall|i: int, yy: int|
                        0 <= i < self.width && 0 <= yy < y ==> #[trigger] res.spec_pixel(i, yy)
                            == spec_row_pixels((self.rows@[yy])@).unwrap()[i],
                    forall|i: int| 0 <= i < x ==> res.spec_pixel(i, y as int) == pix[i],
                    forall|i: int, j: int|
                        0 <= i < res.width && y <= j < res.height && !(j == y && i < x)
                            ==> res.spec_pixel(i, j) == 0u16,
                ensures
                    x == self.width,
                    res.wf(),
                    res.width == self.width,
                    res.height == height,
                    forall|i: int, yy: int|
                        0 <= i < self.width && 0 <= yy < y ==> #[trigger] res.spec_pixel(i, yy)
                            == spec_row_pixels((self.rows@[yy])@).unwrap()[i],
                    forall|i: int| 0 <= i < self.width ==> res.spec_pixel(i, y as int) == pix[i],
                    forall|i: int, j: int|
                        0 <= i < res.width && y < j < res.height ==> res.spec_pixel(i, j) == 0u16,
                decreases row@.len() - k,
            {
                if k >= row.len() {
                    proof {
                        assert(row@.skip(k as int) =~= Seq::<u16>::empty());
                        assert(pix.skip(x as int).len() == 0);
                    }
                    break ;
                }
                let v = row[k];
                let ghost tail = row@.skip(k as int);
                proof {
                    assert(tail[0] == v);
                }
                match C16SpanStart::decode(v) {
                    C16SpanStart::End => {
                        proof {
                            assert(pix.skip(x as int).len() == 0);
                        }
                        break ;
                    },
                    C16SpanStart::Colour(len) => {
                        let n = len as usize;
                        proof {
                            assert(tail.len() >= 1 + n);
                            assert(tail.skip(1 + n as int) =~= row@.skip((k + 1 + n) as int));
                        }
                        let ghost rest = spec_row_pixels(row@.skip((k + 1 + n) as int)).unwrap();
                        let ghost sub = tail.subrange(1, 1 + n as int);
                        proof {
                            assert(spec_row_pixels(tail) == Some(sub + rest));
                            assert(pix.skip(x as int) == sub + rest);
                            assert(pix.skip(x as int).len() >= n);
                            assert forall|q: int| 0 <= q < n implies #[trigger] pix[x + q] == row@[k
                                + 1 + q] by {
                                assert(pix.skip(x as int)[q] == sub[q]);
                                assert(sub[q] == tail[1 + q]);
                                assert(tail[1 + q] == row@[k + 1 + q]);
                            }
                        }
                        let mut j: usize = 0;
                        while j < n
                            invariant
                                j <= n,
                                y < height,
                                x + n <= self.width,
                                k + 1 + n <= row@.len(),
                                k + 1 + n <= usize::MAX,
                                self.wf(),
                                height == self.rows@.len(),
                                row == self.rows@[y as int],
                                pix.len() == self.width,
                                forall|q: int|
                                    0 <= q < n ==> #[trigger] pix[x + q] == row@[k + 1 + q],
                                res.wf(),
                                res.width == self.width,
                                res.height == height,
                                forall|i: int, yy: int|
                                    0 <= i < self.width && 0 <= yy < y ==> #[trigger] res.spec_pixel(i, yy)
                                        == spec_row_pixels((self.rows@[yy])@).unwrap()[i],
                                forall|i: int| 0 <= i < x + j ==> res.spec_pixel(i, y as int) == pix[i],
                                forall|i: int, jj: int|
                                    0 <= i < res.width && y <= jj < res.height && !(jj == y && i < x
                                        + j) ==> res.spec_pixel(i, jj) == 0u16,
                            decreases n - j,
                        {
                            res.set_pixel(x + j, y, row[k + 1 + j]);
                            j += 1;
                        }
                        proof {
                            assert forall|q: int| 0 <= q < rest.len() implies #[trigger] pix.skip(
                                (x + n) as int,
                            )[q] == rest[q] by {
                                assert(pix.skip(x as int)[n + q] == (sub + rest)[n + q]);
                            }
                            assert(pix.skip((x + n) as int) =~= rest);
                        }
                        x = x + n;
                        k = k + 1 + n;
                    },
                    C16SpanStart::Transparent(len) => {
                        let n = len as usize;
                        proof {
                            assert(tail.skip(1) =~= row@.skip((k + 1) as int));
                        }
                        let ghost rest = spec_row_pixels(row@.skip((k + 1) as int)).unwrap();
                        let ghost zeros = Seq::new(n as nat, |i: int| 0u16);
                        proof {
                            assert(spec_row_pixels(tail) == Some(zeros + rest));
                            assert(pix.skip(x as int) == zeros + rest);
                            assert(pix.skip(x as int).len() >= n);
                            assert forall|q: int| 0 <= q < n implies #[trigger] pix[x + q]
                                == 0u16 by {
                                assert(pix.skip(x as int)[q] == zeros[q]);
                            }
                            assert forall|q: int| 0 <= q < rest.len() implies #[trigger] pix.skip(
                                (x + n) as int,
                            )[q] == rest[q] by {
                                assert(pix.skip(x as int)[n + q] == (zeros + rest)[n + q]);
                            }
                            assert(pix.skip((x + n) as int) =~= rest);
                        }
                        let ghost x0 = x as int;
                        x = x + n;
                        k = k + 1;
                        proof {
                            assert forall|i: int| 0 <= i < x implies res.spec_pixel(i, y as int)
                                == pix[i] by {
                                if i >= x0 {
                                    assert(pix[x0 + (i - x0)] == 0u16);
                                    assert(res.spec_pixel(i, y as int) == 0u16);
                                }
                            }
                        }
                    },
                }
            }
            y += 1;
        }
        proof {
            assert forall|yy: int| 0 <= yy < height implies Some(#[trigger] res.spec_row(yy))
                == spec_row_pixels((self.rows@[yy])@) by {
                let p = spec_row_pixels((self.rows@[yy])@).unwrap();
                assert(spec_row_valid((self.rows@[yy])@, self.width as nat));
                assert forall|i: int| 0 <= i < self.width implies res.spec_row(yy)[i] == p[i] by {
                    res.lemma_row_index(i, yy);
                }
                res.lemma_row_index(0, yy);
                assert(res.spec_row(yy) =~= p);
            }
        }
        res
    }
}

/// A flat sheet: its variant and its frames, in on-disk order.
pub struct S16Sheet {
    /// Flat type identifier.
    pub id: S16Type,
    /// Each individual frame.
    pub frames: Vec<S16Frame>,
}

/// A compressed sheet: its variant and its compressed frames.
pub struct C16Sheet {
    pub id: C16Type,
    pub frames: Vec<C16Frame>,
}

/// A decompressed sheet of either family, remembering which variant it
/// came from.
pub struct CS16Sheet {
    /// Variant identifier.
    pub id: CS16Type,
    /// Each individual frame.
    pub frames: Vec<S16Frame>,
}

/// Every frame of a flat frame list is well formed with dimensions that
/// fit the format's 16-bit header fields.
pub open spec fn spec_frames_wf(frames: Seq<S16Frame>) -> bool {
    &&& frames.len() <= 0xFFFF
    &&& forall|i: int|
        0 <= i < frames.len() ==> {
            let f = #[trigger] frames[i];
            f.wf() && f.width <= 0xFFFF && f.height <= 0xFFFF
        }
}

impl S16Sheet {
    /// The frames are well formed and fit the header fields.
    pub open spec fn wf(&self) -> bool {
        spec_frames_wf(self.frames@)
    }

    /// Compresses every frame, or nothing when this is a big-endian
    /// variant, which has no compressed form.
    pub fn compress(&self) -> (r: Option<C16Sheet>)
        requires
            self.wf(),
        ensures
            match r {
                Some(c) => {
                    &&& (self.id == S16Type::S16_565 || self.id == S16Type::S16_555)
                    &&& c.id == (if self.id == S16Type::S16_565 {
                        C16Type::C16_565
                    } else {
                        C16Type::C16_555
                    })
                    &&& c.wf()
                    &&& c.frames@.len() == self.frames@.len()
                    &&& forall|i: int|
                        0 <= i < self.frames@.len() ==> {
                            let cf = #[trigger] c.frames@[i];
                            &&& cf.width == self.frames@[i].width
                            &&& cf.rows@.len() == self.frames@[i].height
                            &&& forall|y: int|
                                0 <= y < cf.rows@.len() ==> (#[trigger] cf.rows@[y])@
                                    == spec_compress_row(self.frames@[i].spec_row(y))
                        }
                },
                None => self.id == S16Type::M16 || self.id == S16Type::N16,
            },
    {
        match self.id.to_equivalent_c16() {
            None => None,
            Some(cid) => {
                let mut frames: Vec<C16Frame> = Vec::new();
                let mut i: usize = 0;
                while i < self.frames.len()
                    invariant
                        i <= self.frames@.len(),
                        self.wf(),
                        frames@.len() == i,
                        forall|k: int|
                            0 <= k < i ==> {
                                let cf = #[trigger] frames@[k];
                                &&& cf.wf()
                                &&& cf.width == self.frames@[k].width
                                &&& cf.rows@.len() == self.frames@[k].height
                                &&& forall|y: int|
                                    0 <= y < cf.rows@.len() ==> (#[trigger] cf.rows@[y])@
                                        == spec_compress_row(self.frames@[k].spec_row(y))
                            },
                    decreases self.frames@.len() - i,
                {
                    frames.push(C16Frame::compress(&self.frames[i]));
                    i += 1;
                }
                Some(C16Sheet { id: cid, frames })
            },
        }
    }
}

impl C16Sheet {
    /// Every frame is well formed and the count fits the header field.
    pub open spec fn wf(&self) -> bool {
        &&& self.frames@.len() <= 0xFFFF
        &&& forall|i: int| 0 <= i < self.frames@.len() ==> (#[trigger] self.frames@[i]).wf()
    }

    /// Decompresses every frame into a flat sheet of the unified type.
    pub fn decompress(&self) -> (r: CS16Sheet)
        requires
            self.wf(),
        ensures
            r.wf(),
            r.id == CS16Type::C16(self.id),
            r.frames@.len() == self.frames@.len(),
            forall|i: int|
                0 <= i < self.frames@.len() ==> {
                    let f = #[trigger] r.frames@[i];
                    &&& f.width == self.frames@[i].width
                    &&& f.height == self.frames@[i].rows@.len()
                    &&& forall|y: int|
                        0 <= y < f.height ==> Some(#[trigger] f.spec_row(y)) == spec_row_pixels(
                            (self.frames@[i].rows@[y])@,
                        )
                },
    {
        let mut frames: Vec<S16Frame> = Vec::new();
        let mut i: usize = 0;
        while i < self.frames.len()
            invariant
                i <= self.frames@.len(),
                self.wf(),
                frames@.len() == i,
                forall|k: int|
                    0 <= k < i ==> {
                        let f = #[trigger] frames@[k];
                        &&& f.wf()
                        &&& f.width <= 0xFFFF
                        &&& f.height <= 0xFFFF
                        &&& f.width == self.frames@[k].width
                        &&& f.height == self.frames@[k].rows@.len()
                        &&& forall|y: int|
                            0 <= y < f.height ==> Some(#[trigger] f.spec_row(y))
                                == spec_row_pixels((self.frames@[k].rows@[y])@)
                    },
            decreases self.frames@.len() - i,
        {
            frames.push(self.frames[i].decompress());
            i += 1;
        }
        CS16Sheet { id: CS16Type::C16(self.id), frames }
    }
}

impl CS16Sheet {
    /// The frames are well formed and fit the header fields.
    pub open spec fn wf(&self) -> bool {
        spec_frames_wf(self.frames@)
    }
}

impl From<S16Sheet> for CS16Sheet {
    /// Wraps a flat sheet as a unified sheet; the frames carry over
    /// unchanged.
    fn from(value: S16Sheet) -> (r: CS16Sheet) {
        CS16Sheet { id: CS16Type::S16(value.id), frames: value.frames }
    }
}

impl vstd::std_specs::convert::FromSpecImpl<S16Sheet> for CS16Sheet {
    open spec fn obeys_from_spec() -> bool {
        true
    }

    open spec fn from_spec(value: S16Sheet) -> CS16Sheet {
        CS16Sheet { id: CS16Type::S16(value.id), frames: value.frames }
    }
}

impl From<CS16Sheet> for S16Sheet {
    /// Views a unified sheet as a flat sheet of the equivalent flat
    /// variant; the frames carry over unchanged.
    fn from(value: CS16Sheet) -> (r: S16Sheet) {
        let id = value.id.to_equivalent_s16();
        S16Sheet { id, frames: value.frames }
    }
}

impl vstd::std_specs::convert::FromSpecImpl<CS16Sheet> for S16Sheet {
    open spec fn obeys_from_spec() -> bool {
        true
    }

    open spec fn from_spec(value: CS16Sheet) -> S16Sheet {
        S16Sheet {
            id: match value.id {
                CS16Type::S16(s) => s,
                CS16Type::C16(C16Type::C16_565) => S16Type::S16_565,
                CS16Type::C16(C16Type::C16_555) => S16Type::S16_555,
            },
            frames: value.frames,
        }
    }
}

} // verus!
