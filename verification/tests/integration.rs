use utf16_byte_level::byte_to_symbol;
use utf16_byte_level::decoders::utf16_byte_level::UTF16ByteLevel as UTF16ByteLevelDecoder;
use utf16_byte_level::pre_tokenizers::utf16_byte_level::UTF16ByteLevel;
use utf16_byte_level::symbol_to_byte;
use utf16_byte_level::utf16_bytes_to_utf8;
use utf16_byte_level::utf8_to_utf16_bytes;

#[test]
fn test_utf8_to_utf16_conversion() {
    // Test basic ASCII
    let ascii_text = "Hello";
    let utf16_bytes = utf8_to_utf16_bytes(ascii_text);
    assert_eq!(utf16_bytes, vec![72, 0, 101, 0, 108, 0, 108, 0, 111, 0]);

    // Test Korean characters
    let korean_text = "가나다";
    let utf16_bytes = utf8_to_utf16_bytes(korean_text);
    // 가 = U+AC00 = [0x00, 0xAC] in little-endian
    // 나 = U+B098 = [0x98, 0xB0] in little-endian
    // 다 = U+B2E4 = [0xE4, 0xB2] in little-endian
    assert_eq!(utf16_bytes, vec![0x00, 0xAC, 0x98, 0xB0, 0xE4, 0xB2]);

    // Test emoji (surrogate pair)
    let emoji_text = "😀";
    let utf16_bytes = utf8_to_utf16_bytes(emoji_text);
    // 😀 = U+1F600 = surrogate pair 0xD83D 0xDE00
    assert_eq!(utf16_bytes, vec![0x3D, 0xD8, 0x00, 0xDE]);
}

#[test]
fn test_utf16_to_utf8_conversion() {
    // Test basic ASCII
    let utf16_bytes = vec![72, 0, 101, 0, 108, 0, 108, 0, 111, 0];
    let utf8_text = utf16_bytes_to_utf8(&utf16_bytes).unwrap();
    assert_eq!(utf8_text, "Hello");

    // Test Korean characters
    let utf16_bytes = vec![0x00, 0xAC, 0x98, 0xB0, 0xE4, 0xB2];
    let utf8_text = utf16_bytes_to_utf8(&utf16_bytes).unwrap();
    assert_eq!(utf8_text, "가나다");

    // Test emoji (surrogate pair)
    let utf16_bytes = vec![0x3D, 0xD8, 0x00, 0xDE];
    let utf8_text = utf16_bytes_to_utf8(&utf16_bytes).unwrap();
    assert_eq!(utf8_text, "😀");
}

#[test]
fn test_roundtrip_conversion() {
    let test_cases = vec![
        "Hello World",
        "가나다라마바사",
        "你好世界",
        "こんにちは",
        "🌍🚀💻",
        "Mixed: 한글 English 中文 😊",
        "",
        "A",
        "🏳️‍🌈", // Complex emoji with ZWJ
    ];

    for text in test_cases {
        let utf16_bytes = utf8_to_utf16_bytes(text);
        let recovered = utf16_bytes_to_utf8(&utf16_bytes).unwrap();
        assert_eq!(text, recovered, "Roundtrip failed for: {}", text);
    }
}

#[test]
fn test_alphabet_mapping() {
    // Test that all 256 bytes map to valid characters
    for byte in 0..=255u8 {
        let mapped_char = byte_to_symbol(byte);

        // Test reverse mapping
        let mapped_byte = symbol_to_byte(mapped_char);
        assert!(mapped_byte.is_some(), "Byte {} should map to a character", byte);
        assert_eq!(
            mapped_byte,
            Some(byte),
            "Character {} should map back to byte {}",
            mapped_char,
            byte
        );
    }
}

#[test]
fn test_pre_tokenizer() {
    let pre_tokenizer = UTF16ByteLevel::new(true, true, false);

    // Test Korean text
    let korean_text = "가나다";
    let spans = pre_tokenizer.pre_tokenize(korean_text);

    // Should have one span holding the whole symbol sequence
    assert_eq!(spans.len(), 1);

    // Test mixed text
    let mixed_text = "Hello 가나다";
    let spans = pre_tokenizer.pre_tokenize(mixed_text);
    assert_eq!(spans.len(), 1);
}

#[test]
fn utf16_byte_level_test_decoder() {
    let decoder = UTF16ByteLevelDecoder::default();

    // Test decoding Korean characters
    let korean_tokens = vec!["Ā¬ĺ".to_string(), "°ä".to_string(), "²".to_string()];
    let decoded = decoder.decode_chain(korean_tokens).unwrap();
    assert_eq!(decoded, vec!["가나다".to_string()]);

    // Test decoding ASCII: every code unit takes two symbol characters, the
    // low byte's and the high byte's
    let ascii_tokens = vec![
        "H".to_string(),
        "Ā".to_string(),
        "e".to_string(),
        "Ā".to_string(),
        "l".to_string(),
        "Ā".to_string(),
        "l".to_string(),
        "Ā".to_string(),
        "o".to_string(),
        "Ā".to_string(),
    ];
    let decoded = decoder.decode_chain(ascii_tokens).unwrap();
    assert_eq!(decoded, vec!["Hello".to_string()]);

    // bare ASCII tokens cover only the low byte of each code unit, and the
    // strict codec reports the missing half rather than guessing
    let half_tokens = vec![
        "H".to_string(),
        "e".to_string(),
        "l".to_string(),
        "l".to_string(),
        "o".to_string(),
    ];
    assert_eq!(
        decoder.decode_chain(half_tokens),
        Err(utf16_byte_level::DecodeError::OddByteLength)
    );
}

#[test]
fn test_error_handling() {
    // Test invalid UTF-16 bytes (odd number of bytes)
    let invalid_utf16_bytes = vec![0x00, 0xAC, 0x98]; // Incomplete UTF-16 sequence
    let result = utf16_bytes_to_utf8(&invalid_utf16_bytes);
    assert!(result.is_err(), "Should fail with incomplete UTF-16 sequence");

    // Test invalid surrogate pairs
    let invalid_surrogate = vec![0x3D, 0xD8]; // High surrogate without low surrogate
    let result = utf16_bytes_to_utf8(&invalid_surrogate);
    assert!(result.is_err(), "Should fail with incomplete surrogate pair");
}

#[test]
fn test_special_characters() {
    let special_chars = vec![
        "\n",       // Newline
        "\t",       // Tab
        "\r",       // Carriage return
        " ",        // Space
        "\u{0000}", // Null character
        "\u{FEFF}", // BOM (should be handled correctly)
    ];

    for ch in special_chars {
        let utf16_bytes = utf8_to_utf16_bytes(ch);
        let recovered = utf16_bytes_to_utf8(&utf16_bytes).unwrap();
        assert_eq!(ch, recovered, "Special character roundtrip failed: {:?}", ch);
    }
}

#[test]
fn test_performance_characteristics() {
    // Test with large text to ensure reasonable performance
    let large_text = "가나다라마바사아자차카타파하".repeat(1000);

    let start = std::time::Instant::now();
    let utf16_bytes = utf8_to_utf16_bytes(&large_text);
    let conversion_time = start.elapsed();

    let start = std::time::Instant::now();
    let recovered = utf16_bytes_to_utf8(&utf16_bytes).unwrap();
    let recovery_time = start.elapsed();

    assert_eq!(large_text, recovered);

    // Performance should be reasonable (less than 100ms for this size)
    assert!(
        conversion_time.as_millis() < 100,
        "UTF-8 to UTF-16 conversion too slow: {}ms",
        conversion_time.as_millis()
    );
    assert!(
        recovery_time.as_millis() < 100,
        "UTF-16 to UTF-8 conversion too slow: {}ms",
        recovery_time.as_millis()
    );
}
