use utf16_byte_level::decoders;
use utf16_byte_level::pre_tokenizers::utf16_byte_level::UTF16ByteLevel;
use utf16_byte_level::utf16_bytes_to_utf8;
use utf16_byte_level::utf8_to_utf16_bytes;

#[test]
fn test_utf8_to_utf16_bytes() {
    // Test ASCII
    let ascii = "Hello";
    let bytes = utf8_to_utf16_bytes(ascii);
    assert_eq!(bytes, vec![0x48, 0x00, 0x65, 0x00, 0x6C, 0x00, 0x6C, 0x00, 0x6F, 0x00]);

    // Test Korean characters
    let korean = "가나다";
    let bytes = utf8_to_utf16_bytes(korean);
    // 가 = U+AC00, 나 = U+B098, 다 = U+B2E4
    assert_eq!(bytes, vec![0x00, 0xAC, 0x98, 0xB0, 0xE4, 0xB2]);
}

#[test]
fn test_utf16_bytes_to_utf8() {
    // Test ASCII
    let bytes = vec![0x48, 0x00, 0x65, 0x00, 0x6C, 0x00, 0x6C, 0x00, 0x6F, 0x00];
    let result = utf16_bytes_to_utf8(&bytes).unwrap();
    assert_eq!(result, "Hello");

    // Test Korean characters
    let bytes = vec![0x00, 0xAC, 0x98, 0xB0, 0xE4, 0xB2];
    let result = utf16_bytes_to_utf8(&bytes).unwrap();
    assert_eq!(result, "가나다");
}

#[test]
fn utf16_byte_level_test_utf16_bytes_to_utf8() {
    // Test ASCII
    let bytes = vec![0x48, 0x00, 0x65, 0x00, 0x6C, 0x00, 0x6C, 0x00, 0x6F, 0x00];
    let result = utf16_bytes_to_utf8(&bytes).unwrap();
    assert_eq!(result, "Hello");

    // Test Korean characters
    let bytes = vec![0x00, 0xAC, 0x98, 0xB0, 0xE4, 0xB2];
    let result = utf16_bytes_to_utf8(&bytes).unwrap();
    assert_eq!(result, "가나다");
}

#[test]
fn test_roundtrip() {
    let test_strings = vec![
        "Hello World",
        "안녕하세요",
        "你好世界",
        "🌍🌎🌏",
        "Hello 안녕하세요 你好",
    ];

    for s in test_strings {
        let bytes = utf8_to_utf16_bytes(s);
        let recovered = utf16_bytes_to_utf8(&bytes).unwrap();
        assert_eq!(s, recovered);
    }
}

#[test]
fn test_alphabet() {
    let alphabet = UTF16ByteLevel::alphabet();
    assert_eq!(alphabet.len(), 256);
}

#[test]
fn test_decoder() {
    let decoder = decoders::utf16_byte_level::UTF16ByteLevel::default();

    // Tokens made of symbol characters: 'H' stands for byte 0x48 and
    // '\u{0100}' for byte 0x00, together one UTF-16 code unit
    let tokens = vec!["H".to_string(), "\u{0100}".to_string()];

    let result = decoder.decode_chain(tokens);
    assert!(result.is_ok());
}
