//! Pre-tokenization stages: boundary splitting and the rewrite of each span
//! into its symbol string.

use vstd::prelude::*;

pub mod utf16_byte_level;
pub mod whitespace;

verus! {

/// One isolated span of a split text: its content together with the
/// character-offset range it covers in the text it was cut from.
pub struct Span {
    /// The span's text, possibly rewritten by a later stage.
    pub content: String,
    /// Character offset of the span's first character.
    pub start: usize,
    /// Character offset one past the span's last character.
    pub end: usize,
}

} // verus!
