//! The fixed-width codec: text to and from its UTF-16 little-endian byte
//! encoding.
//!
//! Encoding is total: every character becomes one code unit, or a surrogate
//! pair for characters beyond the basic plane, and every unit is emitted low
//! byte first. Decoding is the strict inverse: an odd byte count or a code
//! unit sequence that is not a valid scalar sequence is rejected, never
//! repaired.

use vstd::prelude::*;
use vstd::utf8::is_scalar;
use crate::text::chars_to_string;
use crate::text::chars_vec;

verus! {

broadcast use {vstd::utf8::char_is_scalar, vstd::utf8::char_u32_cast};

/// Why a byte sequence failed to decode.
#[derive(Clone, Copy, Debug, PartialEq, Eq, Structural)]
pub enum DecodeError {
    /// The byte count is not a multiple of the code-unit width.
    OddByteLength,
    /// The code units hold an unpaired or out-of-order surrogate.
    InvalidCodeUnitSequence,
}

impl DecodeError {
    /// A human-readable description of the malformed input.
    pub fn message(&self) -> (r: &'static str)
        ensures
            *self is OddByteLength ==> r@ == "invalid UTF-16 byte sequence: odd number of bytes"@,
            *self is InvalidCodeUnitSequence ==> r@
                == "invalid UTF-16 sequence: unpaired surrogate"@,
    {
        match self {
            DecodeError::OddByteLength => "invalid UTF-16 byte sequence: odd number of bytes",
            DecodeError::InvalidCodeUnitSequence => "invalid UTF-16 sequence: unpaired surrogate",
        }
    }
}

/// The UTF-16 code units of one character: itself in the basic plane,
/// otherwise a high/low surrogate pair.
pub open spec fn utf16_units_of_char(c: char) -> Seq<u16> {
    let v = c as u32;
    if v < 0x10000 {
        seq![v as u16]
    } else {
        seq![
            (0xd800 + (v - 0x10000) / 0x400) as u16,
            (0xdc00 + (v - 0x10000) % 0x400) as u16,
        ]
    }
}

/// The UTF-16 code units of a character sequence.
pub open spec fn utf16_units_of(s: Seq<char>) -> Seq<u16>
    decreases s.len(),
{
    if s.len() == 0 {
        seq![]
    } else {
        utf16_units_of_char(s[0]) + utf16_units_of(s.drop_first())
    }
}

/// Each code unit emitted little-endian: low byte first.
pub open spec fn le_bytes_of(units: Seq<u16>) -> Seq<u8>
    decreases units.len(),
{
    if units.len() == 0 {
        seq![]
    } else {
        seq![(units[0] % 0x100) as u8, (units[0] / 0x100) as u8] + le_bytes_of(units.drop_first())
    }
}

/// A code unit reserved for the first half of a surrogate pair.
pub open spec fn is_high_surrogate(u: u16) -> bool {
    0xd800 <= u <= 0xdbff
}

/// A code unit reserved for the second half of a surrogate pair.
pub open spec fn is_low_surrogate(u: u16) -> bool {
    0xdc00 <= u <= 0xdfff
}

/// The scalar value encoded by a surrogate pair.
pub open spec fn combine_surrogates(hi: u16, lo: u16) -> u32
    recommends
        is_high_surrogate(hi),
        is_low_surrogate(lo),
{
    (0x10000 + (hi - 0xd800) * 0x400 + (lo - 0xdc00)) as u32
}

/// The character sequence encoded by a code unit sequence, or `None` when a
/// surrogate is unpaired or out of order.
pub open spec fn decode_units(units: Seq<u16>) -> Option<Seq<char>>
    decreases units.len(),
{
    if units.len() == 0 {
        Some(seq![])
    } else if !is_high_surrogate(units[0]) && !is_low_surrogate(units[0]) {
        match decode_units(units.drop_first()) {
            Some(rest) => Some(seq![(units[0] as u32) as char] + rest),
            None => None,
        }
    } else if is_high_surrogate(units[0]) && units.len() >= 2 && is_low_surrogate(units[1]) {
        match decode_units(units.skip(2)) {
            Some(rest) => Some(seq![combine_surrogates(units[0], units[1]) as char] + rest),
            None => None,
        }
    } else {
        None
    }
}

/// The code units read from a little-endian byte sequence, two bytes each.
pub open spec fn units_of_bytes(bytes: Seq<u8>) -> Seq<u16>
    recommends
        bytes.len() % 2 == 0,
    decreases bytes.len(),
{
    if bytes.len() < 2 {
        seq![]
    } else {
        seq![(bytes[0] + bytes[1] * 0x100) as u16] + units_of_bytes(bytes.skip(2))
    }
}

/// What decoding a byte sequence yields: the text, or the error owed to it.
pub open spec fn spec_decode_utf16le(bytes: Seq<u8>) -> Result<Seq<char>, DecodeError> {
    if bytes.len() % 2 != 0 {
        Err(DecodeError::OddByteLength)
    } else {
        match decode_units(units_of_bytes(bytes)) {
            Some(s) => Ok(s),
            None => Err(DecodeError::InvalidCodeUnitSequence),
        }
    }
}

/// Appending character sequences appends their code units.
pub proof fn lemma_utf16_units_of_append(a: Seq<char>, b: Seq<char>)
    ensures
        utf16_units_of(a + b) == utf16_units_of(a) + utf16_units_of(b),
    decreases a.len(),
{
    if a.len() == 0 {
        assert(a + b =~= b);
        assert(utf16_units_of(a) + utf16_units_of(b) =~= utf16_units_of(b));
    } else {
        assert((a + b).drop_first() =~= a.drop_first() + b);
        lemma_utf16_units_of_append(a.drop_first(), b);
        assert(utf16_units_of(a + b) =~= utf16_units_of(a) + utf16_units_of(b));
    }
}

/// Appending code unit sequences appends their bytes.
pub proof fn lemma_le_bytes_of_append(a: Seq<u16>, b: Seq<u16>)
    ensures
        le_bytes_of(a + b) == le_bytes_of(a) + le_bytes_of(b),
    decreases a.len(),
{
    if a.len() == 0 {
        assert(a + b =~= b);
        assert(le_bytes_of(a) + le_bytes_of(b) =~= le_bytes_of(b));
    } else {
        assert((a + b).drop_first() =~= a.drop_first() + b);
        lemma_le_bytes_of_append(a.drop_first(), b);
        assert(le_bytes_of(a + b) =~= le_bytes_of(a) + le_bytes_of(b));
    }
}

/// The code units of a single character are those of the character alone.
pub proof fn lemma_utf16_units_of_one(c: char)
    ensures
        utf16_units_of(seq![c]) == utf16_units_of_char(c),
{
    assert(seq![c].drop_first() =~= Seq::<char>::empty());
    assert(utf16_units_of(Seq::<char>::empty()) =~= Seq::<u16>::empty());
    assert(utf16_units_of(seq![c]) =~= utf16_units_of_char(c));
}

/// The bytes of a single code unit, written out.
pub proof fn lemma_le_bytes_of_one(u: u16)
    ensures
        le_bytes_of(seq![u]) == seq![(u % 0x100) as u8, (u / 0x100) as u8],
{
    assert(seq![u].drop_first() =~= Seq::<u16>::empty());
    assert(le_bytes_of(Seq::<u16>::empty()) =~= Seq::<u8>::empty());
    assert(le_bytes_of(seq![u]) =~= seq![(u % 0x100) as u8, (u / 0x100) as u8]);
}

/// Encodes text into its fixed-width byte form: every code unit little-endian,
/// surrogate pairs emitting both units in order. Total for all valid text.
pub fn utf8_to_utf16_bytes(text: &str) -> (r: Vec<u8>)
    ensures
        r@ == le_bytes_of(utf16_units_of(text@)),
{
    let chars = chars_vec(text);
    let mut bytes: Vec<u8> = Vec::new();
    let n = chars.len();
    for i in 0..n
        invariant
            n == chars@.len(),
            chars@ == text@,
            bytes@ == le_bytes_of(utf16_units_of(text@.take(i as int))),
    {
        let c = chars[i];
        let v = c as u32;
        if v < 0x10000 {
            let u = v as u16;
            bytes.push((u % 0x100) as u8);
            bytes.push((u / 0x100) as u8);
        } else {
            let hi = (0xd800 + (v - 0x10000) / 0x400) as u16;
            let lo = (0xdc00 + (v - 0x10000) % 0x400) as u16;
            bytes.push((hi % 0x100) as u8);
            bytes.push((hi / 0x100) as u8);
            bytes.push((lo % 0x100) as u8);
            bytes.push((lo / 0x100) as u8);
        }
        proof {
            let cs = seq![text@[i as int]];
            let us = utf16_units_of_char(c);
            assert(text@.take(i + 1) =~= text@.take(i as int) + cs);
            lemma_utf16_units_of_append(text@.take(i as int), cs);
            lemma_utf16_units_of_one(c);
            assert(utf16_units_of(cs) == us);
            if v < 0x10000 {
                lemma_le_bytes_of_one(us[0]);
            } else {
                assert(us.drop_first() =~= seq![us[1]]);
                lemma_le_bytes_of_one(us[1]);
                assert(le_bytes_of(us) =~= seq![
                    (us[0] % 0x100) as u8,
                    (us[0] / 0x100) as u8,
                    (us[1] % 0x100) as u8,
                    (us[1] / 0x100) as u8,
                ]);
            }
            lemma_le_bytes_of_append(utf16_units_of(text@.take(i as int)), us);
            assert(bytes@ =~= le_bytes_of(utf16_units_of(text@.take(i + 1))));
        }
    }
    proof {
        assert(text@.take(n as int) =~= text@);
    }
    bytes
}

/// The unit read back from one little-endian byte pair.
pub proof fn lemma_units_of_bytes_pair(b0: u8, b1: u8)
    ensures
        units_of_bytes(seq![b0, b1]) == seq![(b0 + b1 * 0x100) as u16],
{
    assert(seq![b0, b1].skip(2) =~= Seq::<u8>::empty());
    assert(units_of_bytes(Seq::<u8>::empty()) =~= Seq::<u16>::empty());
    assert(units_of_bytes(seq![b0, b1]) =~= seq![(b0 + b1 * 0x100) as u16]);
}

/// Reading units out of concatenated byte sequences concatenates the units,
/// provided the first sequence holds whole units.
pub proof fn lemma_units_of_bytes_append(a: Seq<u8>, b: Seq<u8>)
    requires
        a.len() % 2 == 0,
    ensures
        units_of_bytes(a + b) == units_of_bytes(a) + units_of_bytes(b),
    decreases a.len(),
{
    if a.len() == 0 {
        assert(a + b =~= b);
        assert(units_of_bytes(a) + units_of_bytes(b) =~= units_of_bytes(b));
    } else {
        assert((a + b).skip(2) =~= a.skip(2) + b);
        lemma_units_of_bytes_append(a.skip(2), b);
        assert(units_of_bytes(a + b) =~= units_of_bytes(a) + units_of_bytes(b));
    }
}

/// Keeps the decoded characters gathered so far in front of what decoding
/// the remaining units will yield.
pub open spec fn prepend_decoded(prefix: Seq<char>, rest: Option<Seq<char>>) -> Option<Seq<char>> {
    match rest {
        Some(r) => Some(prefix + r),
        None => None,
    }
}

/// Decodes a fixed-width byte sequence back to text: the strict inverse of
/// `utf8_to_utf16_bytes`. Fails with `OddByteLength` when the byte count is
/// not a multiple of the unit width, and with `InvalidCodeUnitSequence` when
/// the units hold an unpaired or out-of-order surrogate; exactly the inputs
/// that no text encodes to are rejected.
pub fn utf16_bytes_to_utf8(bytes: &[u8]) -> (r: Result<String, DecodeError>)
    ensures
        r matches Ok(s) ==> spec_decode_utf16le(bytes@) == Ok::<Seq<char>, DecodeError>(s@),
        r matches Err(e) ==> spec_decode_utf16le(bytes@) == Err::<Seq<char>, DecodeError>(e),
{
    let n = bytes.len();
    if n % 2 != 0 {
        return Err(DecodeError::OddByteLength);
    }
    let mut units: Vec<u16> = Vec::new();
    let mut i: usize = 0;
    while i < n
        invariant
            n == bytes@.len(),
            n % 2 == 0,
            i % 2 == 0,
            i <= n,
            units@ == units_of_bytes(bytes@.take(i as int)),
        decreases n - i,
    {
        let u = bytes[i] as u16 + bytes[i + 1] as u16 * 0x100;
        units.push(u);
        proof {
            let pair = seq![bytes@[i as int], bytes@[i + 1]];
            assert(bytes@.take(i + 2) =~= bytes@.take(i as int) + pair);
            lemma_units_of_bytes_append(bytes@.take(i as int), pair);
            lemma_units_of_bytes_pair(bytes@[i as int], bytes@[i + 1]);
            assert(units@ =~= units_of_bytes(bytes@.take(i + 2)));
        }
        i = i + 2;
    }
    proof {
        assert(bytes@.take(n as int) =~= bytes@);
    }
    let m = units.len();
    let mut out: Vec<char> = Vec::new();
    proof {
        assert(units@.skip(0) =~= units@);
        assert(forall|r: Seq<char>| Seq::<char>::empty() + r =~= r);
    }
    let mut j: usize = 0;
    while j < m
        invariant
            m == units@.len(),
            j <= m,
            units@ == units_of_bytes(bytes@),
            n == bytes@.len(),
            n % 2 == 0,
            prepend_decoded(out@, decode_units(units@.skip(j as int))) == decode_units(units@),
        decreases m - j,
    {
        let u = units[j];
        proof {
            assert(units@.skip(j as int)[0] == units@[j as int]);
        }
        if !(0xd800 <= u && u <= 0xdfff) {
            proof {
                assert(is_scalar(u as u32));
            }
            let c = match char::from_u32(u as u32) {
                Some(c) => c,
                None => {
                    assert(false);
                    ' '
                },
            };
            out.push(c);
            proof {
                assert(units@.skip(j as int).drop_first() =~= units@.skip(j + 1));
                assert(decode_units(units@.skip(j as int)) == prepend_decoded(
                    seq![(u as u32) as char],
                    decode_units(units@.skip(j + 1)),
                ));
                assert(forall|r: Seq<char>|
                    out@ + r =~= out@.drop_last() + (seq![(u as u32) as char] + r));
                assert(prepend_decoded(out@, decode_units(units@.skip(j + 1))) == decode_units(
                    units@,
                ));
            }
            j = j + 1;
        } else if u <= 0xdbff && j + 1 < m && 0xdc00 <= units[j + 1] && units[j + 1] <= 0xdfff {
            let lo = units[j + 1];
            let v: u32 = 0x10000 + (u as u32 - 0xd800) * 0x400 + (lo as u32 - 0xdc00);
            proof {
                assert(is_scalar(v));
                assert(v == combine_surrogates(u, lo));
            }
            let c = match char::from_u32(v) {
                Some(c) => c,
                None => {
                    assert(false);
                    ' '
                },
            };
            out.push(c);
            proof {
                assert(units@.skip(j as int)[1] == units@[j + 1]);
                assert(units@.skip(j as int).skip(2) =~= units@.skip(j + 2));
                assert(decode_units(units@.skip(j as int)) == prepend_decoded(
                    seq![v as char],
                    decode_units(units@.skip(j + 2)),
                ));
                assert(forall|r: Seq<char>|
                    out@ + r =~= out@.drop_last() + (seq![v as char] + r));
                assert(prepend_decoded(out@, decode_units(units@.skip(j + 2))) == decode_units(
                    units@,
                ));
            }
            j = j + 2;
        } else {
            proof {
                if j + 1 < m {
                    assert(units@.skip(j as int)[1] == units@[j + 1]);
                }
                assert(decode_units(units@.skip(j as int)) is None);
            }
            return Err(DecodeError::InvalidCodeUnitSequence);
        }
    }
    proof {
        assert(units@.skip(m as int) =~= Seq::<u16>::empty());
        assert(decode_units(units@.skip(m as int)) == Some(Seq::<char>::empty()));
        assert(out@ + Seq::<char>::empty() =~= out@);
        assert(decode_units(units@) == Some(out@));
    }
    Ok(chars_to_string(&out))
}

/// Reading the bytes of a unit sequence back yields the same units.
pub proof fn lemma_units_bytes_roundtrip(units: Seq<u16>)
    ensures
        le_bytes_of(units).len() == 2 * units.len(),
        units_of_bytes(le_bytes_of(units)) == units,
    decreases units.len(),
{
    if units.len() == 0 {
        assert(units_of_bytes(le_bytes_of(units)) =~= units);
    } else {
        let u = units[0];
        lemma_units_bytes_roundtrip(units.drop_first());
        assert(le_bytes_of(units).skip(2) =~= le_bytes_of(units.drop_first()));
        assert((u % 0x100) + (u / 0x100) * 0x100 == u);
        assert(units_of_bytes(le_bytes_of(units)) =~= units);
    }
}

/// Decoding the code units of any text yields that text: no unpaired or
/// out-of-order surrogate can arise from encoding.
pub proof fn lemma_decode_units_of(s: Seq<char>)
    ensures
        decode_units(utf16_units_of(s)) == Some(s),
    decreases s.len(),
{
    if s.len() == 0 {
    } else {
        let c = s[0];
        let v = c as u32;
        let us = utf16_units_of(s);
        lemma_decode_units_of(s.drop_first());
        vstd::utf8::char_is_scalar(c);
        assert(is_scalar(v));
        if v < 0x10000 {
            let u = v as u16;
            assert(u as u32 == v);
            vstd::utf8::char_u32_cast(c, u as u32);
            assert((u as u32) as char == c);
            assert(!is_high_surrogate(u) && !is_low_surrogate(u));
            assert(us.drop_first() =~= utf16_units_of(s.drop_first()));
            assert(seq![(u as u32) as char] + s.drop_first() =~= s);
        } else {
            let hi = (0xd800 + (v - 0x10000) / 0x400) as u16;
            let lo = (0xdc00 + (v - 0x10000) % 0x400) as u16;
            assert((v - 0x10000) / 0x400 <= 0x3ff);
            assert(is_high_surrogate(hi));
            assert(is_low_surrogate(lo));
            assert(us.len() >= 2 && us[0] == hi && us[1] == lo);
            assert(us.skip(2) =~= utf16_units_of(s.drop_first()));
            assert(combine_surrogates(hi, lo) == v);
            vstd::utf8::char_u32_cast(c, v);
            assert(seq![v as char] + s.drop_first() =~= s);
        }
    }
}

/// Round-trip law: decoding the fixed-width encoding of any valid text
/// yields the text back, for all text.
pub proof fn lemma_encode_decode_roundtrip(s: Seq<char>)
    ensures
        spec_decode_utf16le(le_bytes_of(utf16_units_of(s))) == Ok::<Seq<char>, DecodeError>(s),
{
    lemma_units_bytes_roundtrip(utf16_units_of(s));
    lemma_decode_units_of(s);
}

} // verus!
