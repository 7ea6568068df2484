//! The fixed bijection between the 256 byte values and 256 printable symbol
//! characters.
//!
//! Bytes that are already visually printable (the printable ASCII range
//! without space, and most of the Latin-1 supplement) keep their own code
//! point as their symbol. The 68 remaining bytes are assigned, in ascending
//! byte order, the code points `0x100..=0x143`, which cannot collide with the
//! printable set and are all valid scalar values.

use vstd::prelude::*;
use vstd::utf8::is_scalar;

verus! {

/// Bytes whose own code point is kept as their symbol: printable ASCII
/// without space, and the Latin-1 supplement without the soft hyphen 0xAD.
pub open spec fn printable_byte(b: u8) -> bool {
    (0x21 <= b <= 0x7e) || (0xa1 <= b <= 0xac) || (0xae <= b)
}

/// Position of a non-printable byte among the non-printable bytes, in
/// ascending byte order: 0x00..=0x20 come first, then 0x7F..=0xA0, then 0xAD.
pub open spec fn shifted_rank(b: u8) -> u32
    recommends
        !printable_byte(b),
{
    if b <= 0x20 {
        b as u32
    } else if b <= 0xa0 {
        (b - 0x7f + 0x21) as u32
    } else {
        0x43
    }
}

/// The code point assigned to a byte: its own value if printable, otherwise
/// `0x100` plus its rank among the non-printable bytes.
pub open spec fn symbol_code(b: u8) -> u32 {
    if printable_byte(b) {
        b as u32
    } else {
        (0x100 + shifted_rank(b)) as u32
    }
}

/// The symbol character assigned to a byte. Total: every byte has one.
pub open spec fn symbol_of(b: u8) -> char {
    symbol_code(b) as char
}

/// The inverse of `symbol_of`: the byte whose symbol is `c`, or `None` when
/// `c` is not one of the 256 symbol characters.
pub open spec fn byte_of_symbol(c: char) -> Option<u8> {
    let v = c as u32;
    if (0x21 <= v <= 0x7e) || (0xa1 <= v <= 0xac) || (0xae <= v <= 0xff) {
        Some(v as u8)
    } else if 0x100 <= v <= 0x120 {
        Some((v - 0x100) as u8)
    } else if 0x121 <= v <= 0x142 {
        Some((v - 0x121 + 0x7f) as u8)
    } else if v == 0x143 {
        Some(0xad)
    } else {
        None
    }
}

/// Every code the table assigns is a valid scalar value: the printable bytes
/// stop at 0xFF and the generated block stops at 0x143, far below the
/// surrogate range.
pub proof fn lemma_symbol_code_scalar(b: u8)
    ensures
        is_scalar(symbol_code(b)),
        symbol_code(b) <= 0x143,
{
}

/// Maps a byte value to its symbol character. Total, never fails.
pub fn byte_to_symbol(b: u8) -> (c: char)
    ensures
        c == symbol_of(b),
{
    let code: u32 = if (0x21 <= b && b <= 0x7e) || (0xa1 <= b && b <= 0xac) || 0xae <= b {
        b as u32
    } else if b <= 0x20 {
        0x100 + b as u32
    } else if b <= 0xa0 {
        0x121 + (b - 0x7f) as u32
    } else {
        0x143
    };
    proof {
        lemma_symbol_code_scalar(b);
    }
    match char::from_u32(code) {
        Some(c) => c,
        None => {
            assert(false);
            ' '
        },
    }
}

/// Maps a symbol character back to its byte value, or `None` for any
/// character outside the 256-entry image of the table.
pub fn symbol_to_byte(c: char) -> (r: Option<u8>)
    ensures
        r == byte_of_symbol(c),
{
    let v = c as u32;
    if (0x21 <= v && v <= 0x7e) || (0xa1 <= v && v <= 0xac) || (0xae <= v && v <= 0xff) {
        Some(v as u8)
    } else if 0x100 <= v && v <= 0x120 {
        Some((v - 0x100) as u8)
    } else if 0x121 <= v && v <= 0x142 {
        Some(((v - 0x121) + 0x7f) as u8)
    } else if v == 0x143 {
        Some(0xad)
    } else {
        None
    }
}

/// Decoding a symbol undoes encoding the byte: the table is a total
/// bijection over all 256 byte values.
pub proof fn lemma_byte_symbol_roundtrip(b: u8)
    ensures
        byte_of_symbol(symbol_of(b)) == Some(b),
{
    lemma_symbol_code_scalar(b);
}

/// Two distinct bytes never share a symbol.
pub proof fn lemma_symbol_injective(b1: u8, b2: u8)
    requires
        symbol_of(b1) == symbol_of(b2),
    ensures
        b1 == b2,
{
    lemma_byte_symbol_roundtrip(b1);
    lemma_byte_symbol_roundtrip(b2);
}

} // verus!
