//! The symbol codec: text to and from the tokenizer-safe symbol alphabet.
//!
//! Encoding turns a text into one symbol character per byte of its
//! fixed-width encoding. Decoding walks a whole token list: a token made only
//! of alphabet symbols contributes its mapped bytes, any other token falls
//! back to its own UTF-8 bytes unchanged, and the concatenation of all bytes
//! is decoded in one piece, so that a character whose bytes were split
//! across adjacent tokens still comes back whole.

use vstd::prelude::*;
use crate::alphabet::byte_of_symbol;
use crate::alphabet::byte_to_symbol;
use crate::alphabet::lemma_byte_symbol_roundtrip;
use crate::alphabet::symbol_of;
use crate::alphabet::symbol_to_byte;
use crate::codec::DecodeError;
use crate::codec::le_bytes_of;
use crate::codec::spec_decode_utf16le;
use crate::codec::lemma_encode_decode_roundtrip;
use crate::codec::utf16_bytes_to_utf8;
use crate::codec::utf16_units_of;
use crate::codec::utf8_to_utf16_bytes;
use crate::text::chars_to_string;
use crate::text::chars_vec;
use vstd::string::StrSliceExecFns;

verus! {

/// The symbol string standing for a text: one symbol character per byte of
/// the text's fixed-width encoding.
pub open spec fn symbols_of(s: Seq<char>) -> Seq<char> {
    le_bytes_of(utf16_units_of(s)).map_values(|b: u8| symbol_of(b))
}

/// Whether every character of a token belongs to the symbol alphabet.
pub open spec fn token_all_symbols(t: Seq<char>) -> bool {
    forall|i: int| 0 <= i < t.len() ==> byte_of_symbol(#[trigger] t[i]) is Some
}

/// The bytes one token contributes to decoding: its mapped bytes when every
/// character is an alphabet symbol, otherwise the token's own UTF-8 bytes
/// unchanged (token-level fallback, never per character).
pub open spec fn token_bytes(t: Seq<char>) -> Seq<u8> {
    if token_all_symbols(t) {
        t.map_values(|c: char| byte_of_symbol(c).unwrap())
    } else {
        vstd::utf8::encode_utf8(t)
    }
}

/// The bytes a whole token list contributes, in order.
pub open spec fn chain_bytes(tokens: Seq<Seq<char>>) -> Seq<u8>
    decreases tokens.len(),
{
    if tokens.len() == 0 {
        seq![]
    } else {
        token_bytes(tokens[0]) + chain_bytes(tokens.drop_first())
    }
}

/// What decoding a token list yields: the bytes of every token are gathered
/// first, and only the concatenation is decoded.
pub open spec fn spec_symbols_to_text(tokens: Seq<Seq<char>>) -> Result<Seq<char>, DecodeError> {
    spec_decode_utf16le(chain_bytes(tokens))
}

/// Rewrites a text into its symbol string: every byte of the fixed-width
/// encoding becomes its alphabet symbol. Total for all valid text.
pub fn text_to_symbols(text: &str) -> (r: String)
    ensures
        r@ == symbols_of(text@),
{
    let bytes = utf8_to_utf16_bytes(text);
    let mut syms: Vec<char> = Vec::new();
    let n = bytes.len();
    for i in 0..n
        invariant
            n == bytes@.len(),
            bytes@ == le_bytes_of(utf16_units_of(text@)),
            syms@ == bytes@.take(i as int).map_values(|b: u8| symbol_of(b)),
    {
        syms.push(byte_to_symbol(bytes[i]));
        proof {
            assert(syms@ =~= bytes@.take(i + 1).map_values(|b: u8| symbol_of(b)));
        }
    }
    proof {
        assert(bytes@.take(n as int) =~= bytes@);
    }
    chars_to_string(&syms)
}

/// Maps every character of a token back to its byte, or reports that some
/// character lies outside the alphabet.
fn map_token_bytes(t: &str) -> (r: Option<Vec<u8>>)
    ensures
        r matches Some(bs) ==> token_all_symbols(t@) && bs@ == token_bytes(t@),
        r is None ==> !token_all_symbols(t@),
{
    let cs = chars_vec(t);
    let mut bs: Vec<u8> = Vec::new();
    let n = cs.len();
    for i in 0..n
        invariant
            n == cs@.len(),
            cs@ == t@,
            forall|k: int| 0 <= k < i ==> byte_of_symbol(#[trigger] cs@[k]) is Some,
            bs@ == cs@.take(i as int).map_values(|c: char| byte_of_symbol(c).unwrap()),
    {
        match symbol_to_byte(cs[i]) {
            Some(b) => {
                bs.push(b);
                proof {
                    assert(bs@ =~= cs@.take(i + 1).map_values(
                        |c: char| byte_of_symbol(c).unwrap(),
                    ));
                }
            },
            None => {
                return None;
            },
        }
    }
    proof {
        assert(cs@.take(n as int) =~= cs@);
    }
    Some(bs)
}

/// Adding a token to the list appends its bytes.
pub proof fn lemma_chain_bytes_snoc(tokens: Seq<Seq<char>>, t: Seq<char>)
    ensures
        chain_bytes(tokens.push(t)) == chain_bytes(tokens) + token_bytes(t),
    decreases tokens.len(),
{
    if tokens.len() == 0 {
        assert(tokens.push(t).drop_first() =~= Seq::<Seq<char>>::empty());
        assert(chain_bytes(Seq::<Seq<char>>::empty()) =~= Seq::<u8>::empty());
        assert(chain_bytes(tokens.push(t)) =~= chain_bytes(tokens) + token_bytes(t));
    } else {
        assert(tokens.push(t).drop_first() =~= tokens.drop_first().push(t));
        lemma_chain_bytes_snoc(tokens.drop_first(), t);
        assert(chain_bytes(tokens.push(t)) =~= chain_bytes(tokens) + token_bytes(t));
    }
}

/// Decodes a token list back to text. Every token is first mapped through
/// the alphabet (or kept as its own UTF-8 bytes when it holds a character
/// outside the alphabet), all bytes are concatenated, and the concatenation
/// is decoded once; the codec's failure, if any, is passed on. Always yields
/// exactly one string on success.
pub fn symbols_to_text(tokens: &Vec<String>) -> (r: Result<String, DecodeError>)
    ensures
        r matches Ok(s) ==> spec_symbols_to_text(tokens@.map_values(|t: String| t@)) == Ok::<
            Seq<char>,
            DecodeError,
        >(s@),
        r matches Err(e) ==> spec_symbols_to_text(tokens@.map_values(|t: String| t@)) == Err::<
            Seq<char>,
            DecodeError,
        >(e),
{
    let ghost toks = tokens@.map_values(|t: String| t@);
    let mut bytes: Vec<u8> = Vec::new();
    let n = tokens.len();
    for i in 0..n
        invariant
            n == tokens@.len(),
            toks == tokens@.map_values(|t: String| t@),
            bytes@ == chain_bytes(toks.take(i as int)),
    {
        let t = &tokens[i];
        let mut part: Vec<u8> = match map_token_bytes(t.as_str()) {
            Some(bs) => bs,
            None => t.as_str().as_bytes_vec(),
        };
        assert(part@ == token_bytes(toks[i as int]));
        bytes.append(&mut part);
        proof {
            assert(toks.take(i + 1) =~= toks.take(i as int).push(toks[i as int]));
            lemma_chain_bytes_snoc(toks.take(i as int), toks[i as int]);
        }
    }
    proof {
        assert(toks.take(n as int) =~= toks);
    }
    utf16_bytes_to_utf8(bytes.as_slice())
}

/// Round-trip law: decoding the symbol string of any text, handed over as a
/// single token, yields the text back.
pub proof fn lemma_symbols_roundtrip(t: Seq<char>)
    ensures
        spec_symbols_to_text(seq![symbols_of(t)]) == Ok::<Seq<char>, DecodeError>(t),
{
    let bs = le_bytes_of(utf16_units_of(t));
    let syms = symbols_of(t);
    assert forall|i: int| 0 <= i < syms.len() implies byte_of_symbol(#[trigger] syms[i]) is Some by {
        lemma_byte_symbol_roundtrip(bs[i]);
    }
    assert(token_all_symbols(syms));
    assert forall|i: int| 0 <= i < syms.len() implies byte_of_symbol(
        #[trigger] syms[i],
    ).unwrap() == bs[i] by {
        lemma_byte_symbol_roundtrip(bs[i]);
    }
    assert(token_bytes(syms) =~= bs);
    assert(seq![syms].drop_first() =~= Seq::<Seq<char>>::empty());
    assert(chain_bytes(Seq::<Seq<char>>::empty()) =~= Seq::<u8>::empty());
    assert(chain_bytes(seq![syms]) =~= bs);
    lemma_encode_decode_roundtrip(t);
}

/// The concatenation of a token list's characters, in order.
pub open spec fn concat_all(tokens: Seq<Seq<char>>) -> Seq<char>
    decreases tokens.len(),
{
    if tokens.len() == 0 {
        seq![]
    } else {
        tokens[0] + concat_all(tokens.drop_first())
    }
}

/// Token-spanning correctness: when every token holds only alphabet symbols,
/// decoding the token list is the same as decoding the single token obtained
/// by concatenating them all. A character whose bytes were split across
/// adjacent tokens is therefore reconstructed exactly as if it had never
/// been split.
pub proof fn lemma_token_spanning(tokens: Seq<Seq<char>>)
    requires
        forall|i: int| 0 <= i < tokens.len() ==> token_all_symbols(#[trigger] tokens[i]),
    ensures
        spec_symbols_to_text(tokens) == spec_symbols_to_text(seq![concat_all(tokens)]),
{
    lemma_chain_of_all_symbols(tokens);
    let whole = concat_all(tokens);
    assert(seq![whole].drop_first() =~= Seq::<Seq<char>>::empty());
    assert(chain_bytes(Seq::<Seq<char>>::empty()) =~= Seq::<u8>::empty());
    assert(chain_bytes(seq![whole]) =~= token_bytes(whole));
}

/// However the segmentation model cuts the symbol string of a text into
/// tokens, decoding the token list yields the text back.
pub proof fn lemma_split_symbols_roundtrip(t: Seq<char>, tokens: Seq<Seq<char>>)
    requires
        concat_all(tokens) == symbols_of(t),
        forall|i: int| 0 <= i < tokens.len() ==> token_all_symbols(#[trigger] tokens[i]),
    ensures
        spec_symbols_to_text(tokens) == Ok::<Seq<char>, DecodeError>(t),
{
    lemma_token_spanning(tokens);
    lemma_symbols_roundtrip(t);
}

/// For a list of all-symbol tokens the gathered bytes equal the mapped bytes
/// of the concatenation.
proof fn lemma_chain_of_all_symbols(tokens: Seq<Seq<char>>)
    requires
        forall|i: int| 0 <= i < tokens.len() ==> token_all_symbols(#[trigger] tokens[i]),
    ensures
        token_all_symbols(concat_all(tokens)),
        chain_bytes(tokens) == token_bytes(concat_all(tokens)),
    decreases tokens.len(),
{
    if tokens.len() == 0 {
        assert(token_bytes(concat_all(tokens)) =~= Seq::<u8>::empty());
    } else {
        let head = tokens[0];
        let rest = tokens.drop_first();
        lemma_chain_of_all_symbols(rest);
        let tail = concat_all(rest);
        let whole = concat_all(tokens);
        assert(whole == head + tail);
        assert forall|i: int| 0 <= i < whole.len() implies byte_of_symbol(
            #[trigger] whole[i],
        ) is Some by {
            if i < head.len() {
                assert(whole[i] == head[i]);
            } else {
                assert(whole[i] == tail[i - head.len()]);
            }
        }
        assert(token_all_symbols(whole));
        assert(token_bytes(whole) =~= token_bytes(head) + token_bytes(tail));
    }
}

} // verus!
