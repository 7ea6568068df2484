//! Byte-level text transformation over a fixed-width (UTF-16LE) encoding.
//!
//! Arbitrary text is rewritten into a string of tokenizer-safe symbol
//! characters, one per byte of the text's UTF-16 little-endian encoding, and
//! decoded back. A separate pass reconciles token offsets so that whitespace
//! injected by the preprocessing does not leak into reported spans.

pub mod alphabet;
pub mod codec;
pub mod decoders;
pub mod offsets;
pub mod pre_tokenizers;
pub mod symbols;
mod text;

pub use alphabet::byte_to_symbol;
pub use alphabet::symbol_to_byte;
pub use codec::utf16_bytes_to_utf8;
pub use codec::utf8_to_utf16_bytes;
pub use codec::DecodeError;
pub use offsets::process_utf16_offsets;
pub use offsets::Encoding;
