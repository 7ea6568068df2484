use utf16_byte_level::pre_tokenizers::whitespace::Whitespace;
use utf16_byte_level::pre_tokenizers::whitespace::WhitespaceSplit;

#[test]
fn basic() {
    let tests = vec![
        (
            "Hey man!",
            vec![("Hey", (0, 3)), ("man", (4, 7)), ("!", (7, 8))],
        ),
        (
            "How are you doing?",
            vec![
                ("How", (0, 3)),
                ("are", (4, 7)),
                ("you", (8, 11)),
                ("doing", (12, 17)),
                ("?", (17, 18)),
            ],
        ),
        ("\n", vec![]),
    ];
    let pretok = Whitespace {};
    for (s, res) in tests {
        let spans = pretok.pre_tokenize(s);
        assert_eq!(
            spans
                .iter()
                .map(|sp| (sp.content.as_str(), (sp.start, sp.end)))
                .collect::<Vec<_>>(),
            res
        );
    }
}

#[test]
fn whitespace_split() {
    let tests = vec![
        ("Hey man!", vec![("Hey", (0, 3)), ("man!", (4, 8))]),
        (
            "Hey, man, Good?",
            vec![("Hey,", (0, 4)), ("man,", (5, 9)), ("Good?", (10, 15))],
        ),
    ];
    let pretok = WhitespaceSplit;
    for (s, res) in tests {
        let spans = pretok.pre_tokenize(s);
        assert_eq!(
            spans
                .iter()
                .map(|sp| (sp.content.as_str(), (sp.start, sp.end)))
                .collect::<Vec<_>>(),
            res
        );
    }
}
