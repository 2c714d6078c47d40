//! Assembly of 16-bit words from byte pairs for the octal dump.

use vstd::prelude::*;

verus! {

/// Byte order of a stored 16-bit word.
#[derive(PartialEq, Eq, Structural, Clone, Copy, Debug)]
pub enum Endian {
    Little,
}

/// The signed 16-bit value whose little-endian bytes are `a` (low) and
/// `b` (high), as a mathematical integer.
pub open spec fn i16_le_value(a: u8, b: u8) -> int {
    let v = a + 256 * (b as int);
    if v < 0x8000 {
        v
    } else {
        v - 0x10000
    }
}

/// Reads one 16-bit word from two bytes in the given byte order.
pub fn parse_i16(a: u8, b: u8, endian: Endian) -> (r: i16)
    ensures
        r as int == i16_le_value(a, b),
{
    match endian {
        Endian::Little => {
            let combined: u16 = (a as u16) + 256 * (b as u16);
            if combined < 0x8000 {
                combined as i16
            } else {
                ((combined as i32) - 0x10000) as i16
            }
        },
    }
}

} // verus!
