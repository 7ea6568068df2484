use std::collections::HashSet;

use utf16_byte_level::byte_to_symbol;
use utf16_byte_level::decoders::utf16_byte_level::UTF16ByteLevel as UTF16ByteLevelDecoder;
use utf16_byte_level::pre_tokenizers::utf16_byte_level::UTF16ByteLevel;
use utf16_byte_level::pre_tokenizers::whitespace::Whitespace;
use utf16_byte_level::process_utf16_offsets;
use utf16_byte_level::symbols::symbols_to_text;
use utf16_byte_level::symbols::text_to_symbols;
use utf16_byte_level::utf16_bytes_to_utf8;
use utf16_byte_level::utf8_to_utf16_bytes;
use utf16_byte_level::DecodeError;
use utf16_byte_level::Encoding;

#[test]
fn alphabet_has_256_distinct_symbols() {
    let mut seen: HashSet<char> = HashSet::new();
    for b in 0..=255u8 {
        seen.insert(byte_to_symbol(b));
    }
    assert_eq!(seen.len(), 256);
    // spot checks: printable bytes keep their code point, the rest move to
    // the generated block starting at U+0100
    assert_eq!(byte_to_symbol(b'H'), 'H');
    assert_eq!(byte_to_symbol(0x00), '\u{0100}');
    assert_eq!(byte_to_symbol(0x20), '\u{0120}');
    assert_eq!(byte_to_symbol(0xAD), '\u{0143}');
    assert_eq!(byte_to_symbol(0xFF), 'ÿ');
}

#[test]
fn symbol_roundtrip_through_text() {
    let texts = vec!["Hello", "가나다", "😀", "", " ", "Mixed 한글 😊"];
    for t in texts {
        let symbols = text_to_symbols(t);
        let back = symbols_to_text(&vec![symbols]).unwrap();
        assert_eq!(back, t, "symbol round trip failed for {:?}", t);
    }
    // the symbol string of ASCII text interleaves the characters with the
    // symbol of the zero byte
    assert_eq!(text_to_symbols("Hello"), "HĀeĀlĀlĀoĀ");
    assert_eq!(text_to_symbols(""), "");
}

#[test]
fn decode_failures_carry_their_error() {
    // odd byte count
    assert_eq!(
        utf16_bytes_to_utf8(&[0x00, 0xAC, 0x98]),
        Err(DecodeError::OddByteLength)
    );
    // lone high surrogate
    assert_eq!(
        utf16_bytes_to_utf8(&[0x3D, 0xD8]),
        Err(DecodeError::InvalidCodeUnitSequence)
    );
    // low surrogate before its high half
    assert_eq!(
        utf16_bytes_to_utf8(&[0x00, 0xDE, 0x3D, 0xD8]),
        Err(DecodeError::InvalidCodeUnitSequence)
    );
    // empty input decodes to the empty string
    assert_eq!(utf16_bytes_to_utf8(&[]), Ok(String::new()));

    assert_eq!(
        DecodeError::OddByteLength.message(),
        "invalid UTF-16 byte sequence: odd number of bytes"
    );
    assert_eq!(
        DecodeError::InvalidCodeUnitSequence.message(),
        "invalid UTF-16 sequence: unpaired surrogate"
    );
}

#[test]
fn token_spanning_reconstructs_split_characters() {
    // "😀" encodes to the symbols "=ØĀÞ"; the segmentation model may cut
    // that string anywhere
    let symbols = text_to_symbols("😀");
    assert_eq!(symbols, "=ØĀÞ");

    // decoding the two halves together reconstructs the character
    let decoder = UTF16ByteLevelDecoder::default();
    let joint = decoder.decode_chain(vec!["=Ø".to_string(), "ĀÞ".to_string()]);
    assert_eq!(joint.unwrap(), vec!["😀".to_string()]);

    // decoding either half on its own fails: each is half a surrogate pair
    assert_eq!(
        decoder.decode_chain(vec!["=Ø".to_string()]),
        Err(DecodeError::InvalidCodeUnitSequence)
    );
    assert_eq!(
        decoder.decode_chain(vec!["ĀÞ".to_string()]),
        Err(DecodeError::InvalidCodeUnitSequence)
    );
}

#[test]
fn token_level_fallback_keeps_whole_token() {
    let decoder = UTF16ByteLevelDecoder::default();
    // "Ā" alone is in the alphabet, "中" is not: the whole token falls back
    // to its own UTF-8 bytes (five of them), not to a per-character mix,
    // and the odd byte count is then reported
    assert_eq!(
        decoder.decode_chain(vec!["Ā中".to_string()]),
        Err(DecodeError::OddByteLength)
    );
}

#[test]
fn whitespace_trim_collapses_all_space_token() {
    // a token of two space symbols with a two-wide span collapses to zero
    // width at the span's end, and trimming again changes nothing
    let token = "ĠĠ".to_string();
    let mut enc = Encoding::new(vec![token], vec![(2, 4)]);
    process_utf16_offsets(&mut enc, false);
    assert_eq!(enc.offsets, vec![(4, 4)]);
    process_utf16_offsets(&mut enc, false);
    assert_eq!(enc.offsets, vec![(4, 4)]);
}

#[test]
fn first_token_prefix_exemption() {
    // exactly one leading space symbol on the first token is the injected
    // one and stays
    let mut enc = Encoding::new(vec!["Ġx".to_string()], vec![(0, 2)]);
    process_utf16_offsets(&mut enc, true);
    assert_eq!(enc.offsets, vec![(0, 2)]);

    // two leading space symbols were not injected: the whole run is trimmed
    let mut enc = Encoding::new(vec!["ĠĠx".to_string()], vec![(0, 3)]);
    process_utf16_offsets(&mut enc, true);
    assert_eq!(enc.offsets, vec![(2, 3)]);

    // a later token starting at offset 0 is logically first as well
    let mut enc = Encoding::new(
        vec!["a".to_string(), "Ġb".to_string()],
        vec![(5, 6), (0, 2)],
    );
    process_utf16_offsets(&mut enc, true);
    assert_eq!(enc.offsets, vec![(5, 6), (0, 2)]);

    // without prefix-space injection even a single leading space is trimmed
    let mut enc = Encoding::new(vec!["Ġx".to_string()], vec![(0, 2)]);
    process_utf16_offsets(&mut enc, false);
    assert_eq!(enc.offsets, vec![(1, 2)]);
}

#[test]
fn process_encodings_trims_and_numbers() {
    let config = UTF16ByteLevel::new(true, true, true);
    let overflow = Encoding::new(vec!["Ġx".to_string()], vec![(0, 2)]);
    let mut main = Encoding::new(vec!["ĠĠ".to_string()], vec![(0, 2)]);
    main.overflowing.push(overflow);
    let second = Encoding::new(vec!["x".to_string()], vec![(3, 4)]);

    let out = config.process_encodings(vec![main, second]);
    assert_eq!(out.len(), 2);
    assert_eq!(out[0].sequence_id, Some(0));
    assert_eq!(out[1].sequence_id, Some(1));
    // the all-space token collapsed, the overflowed record kept its
    // exempted leading space, and overflow records are not renumbered
    assert_eq!(out[0].offsets, vec![(2, 2)]);
    assert_eq!(out[0].overflowing[0].offsets, vec![(0, 2)]);
    assert_eq!(out[0].overflowing[0].sequence_id, None);
    assert_eq!(out[1].offsets, vec![(3, 4)]);

    // with trimming off only the numbering happens
    let config = UTF16ByteLevel::new(true, false, true);
    let out = config.process_encodings(vec![Encoding::new(
        vec!["ĠĠ".to_string()],
        vec![(0, 2)],
    )]);
    assert_eq!(out[0].offsets, vec![(0, 2)]);
    assert_eq!(out[0].sequence_id, Some(0));
}

#[test]
fn pre_tokenize_injects_and_encodes() {
    let config = UTF16ByteLevel::new(true, true, true);

    // boundary cuts come from the external splitter, on the prepared text
    // " Hello World"
    let spans = config.pre_tokenize_with_cuts("Hello World", &vec![6]);
    assert_eq!(spans.len(), 2);
    assert_eq!((spans[0].start, spans[0].end), (0, 6));
    assert_eq!((spans[1].start, spans[1].end), (6, 12));
    assert_eq!(spans[0].content, "ĠĀHĀeĀlĀlĀoĀ");
    assert_eq!(spans[1].content, "ĠĀWĀoĀrĀlĀdĀ");

    // text already starting with a space gets no second one
    let spans = config.pre_tokenize(" a");
    assert_eq!(spans.len(), 1);
    assert_eq!((spans[0].start, spans[0].end), (0, 2));
    assert_eq!(spans[0].content, "ĠĀaĀ");

    // without prefix injection the text stands as it is
    let config = UTF16ByteLevel::new(false, true, false);
    let spans = config.pre_tokenize_with_cuts("ab", &vec![1]);
    assert_eq!(spans.len(), 1);
    assert_eq!(spans[0].content, "aĀbĀ");
}

#[test]
fn configuration_builders() {
    let config = UTF16ByteLevel::default();
    assert!(config.add_prefix_space && config.trim_offsets && config.use_regex);

    let config = UTF16ByteLevel::new(true, false, true)
        .add_prefix_space(false)
        .trim_offsets(true)
        .use_regex(false);
    assert!(!config.add_prefix_space);
    assert!(config.trim_offsets);
    assert!(!config.use_regex);

    assert_eq!(UTF16ByteLevel::default().added_tokens(false), 0);
    assert_eq!(UTF16ByteLevel::default().added_tokens(true), 0);
}

#[test]
fn whitespace_handles_word_characters_beyond_ascii() {
    let pretok = Whitespace {};
    let spans = pretok.pre_tokenize("très bien");
    assert_eq!(
        spans
            .iter()
            .map(|sp| (sp.content.as_str(), (sp.start, sp.end)))
            .collect::<Vec<_>>(),
        vec![("très", (0, 4)), ("bien", (5, 9))]
    );
}
