//! Byte-order helpers: reading and appending 16- and 32-bit words in the
//! little- or big-endian layouts that the sheet formats declare.

use vstd::prelude::*;

verus! {

/// Byte order of the multi-byte fields of a sheet file.
#[derive(Copy, Clone, PartialEq, Eq, Structural, Debug)]
pub enum Endianness {
    Little,
    Big,
}

/// The 16-bit value encoded by two bytes in the given order.
pub open spec fn spec_u16(e: Endianness, b0: u8, b1: u8) -> u16 {
    match e {
        Endianness::Little => (b0 + b1 * 0x100) as u16,
        Endianness::Big => (b1 + b0 * 0x100) as u16,
    }
}

/// The 32-bit value encoded by four bytes in the given order.
pub open spec fn spec_u32(e: Endianness, b0: u8, b1: u8, b2: u8, b3: u8) -> u32 {
    match e {
        Endianness::Little => (b0 + b1 * 0x100 + b2 * 0x10000 + b3 * 0x1000000) as u32,
        Endianness::Big => (b3 + b2 * 0x100 + b1 * 0x10000 + b0 * 0x1000000) as u32,
    }
}

/// The 16-bit word at byte offset `pos` of `data` in the given order.
pub open spec fn spec_u16_at(e: Endianness, data: Seq<u8>, pos: int) -> u16 {
    spec_u16(e, data[pos], data[pos + 1])
}

/// The 32-bit word at byte offset `pos` of `data` in the given order.
pub open spec fn spec_u32_at(e: Endianness, data: Seq<u8>, pos: int) -> u32 {
    spec_u32(e, data[pos], data[pos + 1], data[pos + 2], data[pos + 3])
}

/// The two bytes that encode a 16-bit value in the given order.
pub open spec fn spec_u16_bytes(e: Endianness, v: u16) -> Seq<u8> {
    match e {
        Endianness::Little => seq![(v % 0x100) as u8, (v / 0x100) as u8],
        Endianness::Big => seq![(v / 0x100) as u8, (v % 0x100) as u8],
    }
}

/// The four bytes that encode a 32-bit value in the given order.
pub open spec fn spec_u32_bytes(e: Endianness, v: u32) -> Seq<u8> {
    match e {
        Endianness::Little => seq![
            (v % 0x100) as u8,
            ((v / 0x100) % 0x100) as u8,
            ((v / 0x10000) % 0x100) as u8,
            (v / 0x1000000) as u8,
        ],
        Endianness::Big => seq![
            (v / 0x1000000) as u8,
            ((v / 0x10000) % 0x100) as u8,
            ((v / 0x100) % 0x100) as u8,
            (v % 0x100) as u8,
        ],
    }
}

impl Endianness {
    /// Reads the 16-bit word at byte offset `pos`, or fails when fewer than
    /// two bytes remain there.
    pub fn r_u16(self, data: &[u8], pos: usize) -> (r: Result<u16, ()>)
        ensures
            match r {
                Ok(v) => pos + 2 <= data@.len() && v == spec_u16_at(self, data@, pos as int),
                Err(_) => pos + 2 > data@.len(),
            },
    {
        if data.len() >= 2 && pos <= data.len() - 2 {
            let b0 = data[pos];
            let b1 = data[pos + 1];
            match self {
                Endianness::Little => Ok((b0 as u16) + (b1 as u16) * 0x100),
                Endianness::Big => Ok((b1 as u16) + (b0 as u16) * 0x100),
            }
        } else {
            Err(())
        }
    }

    /// Reads the 32-bit word at byte offset `pos`, or fails when fewer than
    /// four bytes remain there.
    pub fn r_u32(self, data: &[u8], pos: usize) -> (r: Result<u32, ()>)
        ensures
            match r {
                Ok(v) => pos + 4 <= data@.len() && v == spec_u32_at(self, data@, pos as int),
                Err(_) => pos + 4 > data@.len(),
            },
    {
        if data.len() >= 4 && pos <= data.len() - 4 {
            let b0 = data[pos] as u32;
            let b1 = data[pos + 1] as u32;
            let b2 = data[pos + 2] as u32;
            let b3 = data[pos + 3] as u32;
            match self {
                Endianness::Little => Ok(b0 + b1 * 0x100 + b2 * 0x10000 + b3 * 0x1000000),
                Endianness::Big => Ok(b3 + b2 * 0x100 + b1 * 0x10000 + b0 * 0x1000000),
            }
        } else {
            Err(())
        }
    }

    /// Appends the two bytes of a 16-bit word in this byte order.
    pub fn push_u16(self, data: &mut Vec<u8>, v: u16)
        ensures
            final(data)@ == old(data)@ + spec_u16_bytes(self, v),
    {
        match self {
            Endianness::Little => {
                data.push((v % 0x100) as u8);
                data.push((v / 0x100) as u8);
            },
            Endianness::Big => {
                data.push((v / 0x100) as u8);
                data.push((v % 0x100) as u8);
            },
        }
        assert(data@ =~= old(data)@ + spec_u16_bytes(self, v));
    }

    /// Appends the four bytes of a 32-bit word in this byte order.
    pub fn push_u32(self, data: &mut Vec<u8>, v: u32)
        ensures
            final(data)@ == old(data)@ + spec_u32_bytes(self, v),
    {
        match self {
            Endianness::Little => {
                data.push((v % 0x100) as u8);
                data.push(((v / 0x100) % 0x100) as u8);
                data.push(((v / 0x10000) % 0x100) as u8);
                data.push((v / 0x1000000) as u8);
            },
            Endianness::Big => {
                data.push((v / 0x1000000) as u8);
                data.push(((v / 0x10000) % 0x100) as u8);
                data.push(((v / 0x100) % 0x100) as u8);
                data.push((v % 0x100) as u8);
            },
        }
        assert(data@ =~= old(data)@ + spec_u32_bytes(self, v));
    }
}

} // verus!
