//! Decoding stages: turning model output tokens back into text.

pub mod utf16_byte_level;
