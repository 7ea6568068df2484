//! The byte-level decoder stage.
//!
//! Used in tandem with the byte-level pre-tokenizer: every symbol character
//! is mapped back to its byte, tokens that hold a character outside the
//! alphabet keep their own bytes, and the whole byte stream is decoded in
//! one piece, so that a character whose bytes ended up in different tokens
//! still comes back whole.

use vstd::prelude::*;
use crate::codec::DecodeError;
use crate::symbols::spec_symbols_to_text;
use crate::symbols::symbols_to_text;

verus! {

/// The decoder stage. It carries no configuration: the alphabet and the
/// fixed-width codec determine the reassembly entirely.
#[derive(Clone, Copy, Debug, PartialEq, Eq, Structural)]
pub struct UTF16ByteLevel;

impl Default for UTF16ByteLevel {
    fn default() -> (r: Self)
        ensures
            r == UTF16ByteLevel,
    {
        UTF16ByteLevel
    }
}

impl UTF16ByteLevel {
    /// Consumes the model output tokens and merges them back into a single
    /// string in one step: the bytes of all tokens are gathered first, and
    /// only the concatenation is decoded, since a single token's bytes need
    /// not be decodable on their own. The codec's failure, if any, is
    /// passed on. On success the result holds exactly one string.
    pub fn decode_chain(&self, tokens: Vec<String>) -> (r: Result<Vec<String>, DecodeError>)
        ensures
            r matches Ok(v) ==> v@.len() == 1 && spec_symbols_to_text(
                tokens@.map_values(|t: String| t@),
            ) == Ok::<Seq<char>, DecodeError>(v@[0]@),
            r matches Err(e) ==> spec_symbols_to_text(tokens@.map_values(|t: String| t@))
                == Err::<Seq<char>, DecodeError>(e),
    {
        match symbols_to_text(&tokens) {
            Ok(s) => {
                let mut v: Vec<String> = Vec::new();
                v.push(s);
                Ok(v)
            },
            Err(e) => Err(e),
        }
    }
}

} // verus!
