use vstd::prelude::*;

use crate::error::ParseError;

verus! {

/// Magic number that opens a label file.
pub const LABEL_FILE_MAGICNUMBER: u32 = 2049;

/// Magic number that opens an image file.
pub const IMAGE_FILE_MAGICNUMBER: u32 = 2051;

/// The unsigned 32-bit value held big-endian in the four bytes of `s`.
pub open spec fn be_u32_of(s: Seq<u8>) -> u32
    recommends
        s.len() == 4,
{
    ((s[0] as int) * 0x100_0000 + (s[1] as int) * 0x1_0000 + (s[2] as int) * 0x100 + (
    s[3] as int)) as u32
}

/// The magic-number field of a stream: its first four bytes, big-endian.
pub open spec fn magic_of(s: Seq<u8>) -> u32
    recommends
        s.len() >= 4,
{
    be_u32_of(s.subrange(0, 4))
}

/// Reads the fixed-width big-endian 32-bit header field that starts at
/// `pos`. Every header part of both file kinds comes through here. Fails
/// when fewer than four bytes remain past `pos`.
pub fn read_header_part(input: &[u8], pos: usize) -> (r: Result<u32, ParseError>)
    ensures
        pos + 4 <= input@.len() ==> r == Ok::<u32, ParseError>(
            be_u32_of(input@.subrange(pos as int, pos + 4)),
        ),
        pos + 4 > input@.len() ==> r == Err::<u32, ParseError>(ParseError::TruncatedInput),
{
    if input.len() < 4 || pos > input.len() - 4 {
        return Err(ParseError::TruncatedInput);
    }
    let b0 = input[pos] as u32;
    let b1 = input[pos + 1] as u32;
    let b2 = input[pos + 2] as u32;
    let b3 = input[pos + 3] as u32;
    let value = b0 * 0x100_0000 + b1 * 0x1_0000 + b2 * 0x100 + b3;
    proof {
        let field = input@.subrange(pos as int, pos + 4);
        assert(field[0] == input@[pos as int]);
        assert(field[1] == input@[pos + 1]);
        assert(field[2] == input@[pos + 2]);
        assert(field[3] == input@[pos + 3]);
    }
    Ok(value)
}

} // verus!
