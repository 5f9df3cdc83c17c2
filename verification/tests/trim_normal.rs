use trimothy::TrimNormal;
use trimothy::TrimNormalBytes;
use trimothy::TrimNormalChars;

fn chars_of(s: &str) -> Vec<char> {
    s.chars().collect()
}

#[test]
fn trim_and_normalize_borrowed() {
    // These should all be salvageable.
    for (raw, expected) in [("", ""), ("  ", ""), ("\n\r\x0C  H E L L O\t\t", "H E L L O")] {
        // Character slice.
        let rawc = chars_of(raw);
        let expc = chars_of(expected);
        let normal = TrimNormal::trim_and_normalize(rawc.as_slice());
        assert_eq!(normal.as_slice(), expc.as_slice());
        assert!(normal.is_borrowed());

        // Byte slice.
        let normal = TrimNormal::trim_and_normalize(raw.as_bytes());
        assert_eq!(normal.as_slice(), expected.as_bytes());
        assert!(normal.is_borrowed());

        // Test the owned versions just for fun.
        let normal: Vec<char> = rawc.clone().trim_and_normalize();
        assert_eq!(normal, expc);

        let normal: Vec<u8> = raw.as_bytes().to_vec().trim_and_normalize();
        assert_eq!(normal, expected.as_bytes());

        // Test the iterators too.
        let normal: Vec<char> =
            TrimNormalChars::trim_and_normalize(rawc.as_slice()).collect_vec();
        assert_eq!(normal, expc);

        let normal: Vec<u8> = TrimNormalBytes::trim_and_normalize(raw.as_bytes()).collect_vec();
        assert_eq!(normal, expected.as_bytes());
    }

    // Character sequences check a bit more.
    for (raw, expected) in [("\u{2003}", ""), ("\u{2003}\u{2003}HEL LO\r\u{2003}", "HEL LO")] {
        let rawc = chars_of(raw);
        let expc = chars_of(expected);
        let normal = TrimNormal::trim_and_normalize(rawc.as_slice());
        assert_eq!(normal.as_slice(), expc.as_slice());
        assert!(normal.is_borrowed());

        // Owned.
        let normal: Vec<char> = rawc.clone().trim_and_normalize();
        assert_eq!(normal, expc);

        // Iterator.
        let normal: Vec<char> =
            TrimNormalChars::trim_and_normalize(rawc.as_slice()).collect_vec();
        assert_eq!(normal, expc);
    }

    // All the whitespace!
    let sandwich = core::iter::once('[')
        .chain(('\0'..=char::MAX).filter(|c| c.is_whitespace()))
        .chain(core::iter::once(']'))
        .collect::<Vec<char>>();
    let expected = chars_of("[ ]");
    assert_eq!(TrimNormal::trim_and_normalize(sandwich.as_slice()).as_slice(), expected.as_slice());
    assert_eq!(sandwich.clone().trim_and_normalize(), expected);

    // And the iterator.
    let normal = TrimNormalChars::trim_and_normalize(sandwich.as_slice()).collect_vec();
    assert_eq!(normal, expected);
}

#[test]
fn trim_and_normalize_owned() {
    // These require allocation.
    for (raw, expected) in [
        ("H  I", "H I"),
        ("H\tI", "H I"),
        ("H\tE  L\n\rL\x0CO ", "H E L L O"),
    ] {
        // Character slice.
        let rawc = chars_of(raw);
        let expc = chars_of(expected);
        let normal = TrimNormal::trim_and_normalize(rawc.as_slice());
        assert_eq!(normal.as_slice(), expc.as_slice());
        assert!(!normal.is_borrowed());

        // Byte slice.
        let normal = TrimNormal::trim_and_normalize(raw.as_bytes());
        assert_eq!(normal.as_slice(), expected.as_bytes());
        assert!(!normal.is_borrowed());

        // Test the owned versions just for fun.
        let normal: Vec<char> = rawc.clone().trim_and_normalize();
        assert_eq!(normal, expc);

        let normal: Vec<u8> = raw.as_bytes().to_vec().trim_and_normalize();
        assert_eq!(normal, expected.as_bytes());

        // Test the iterators too.
        let normal: Vec<char> =
            TrimNormalChars::trim_and_normalize(rawc.as_slice()).collect_vec();
        assert_eq!(normal, expc);

        let normal: Vec<u8> = TrimNormalBytes::trim_and_normalize(raw.as_bytes()).collect_vec();
        assert_eq!(normal, expected.as_bytes());
    }

    // Character sequences check a bit more.
    for (raw, expected) in [
        ("H\u{2003}I", "H I"),
        ("\u{2003}\u{2003}HEL\u{2003} LO\r\u{2003}", "HEL LO"),
    ] {
        let rawc = chars_of(raw);
        let expc = chars_of(expected);
        let normal = TrimNormal::trim_and_normalize(rawc.as_slice());
        assert_eq!(normal.as_slice(), expc.as_slice());
        assert!(!normal.is_borrowed());

        // Owned.
        let normal: Vec<char> = rawc.clone().trim_and_normalize();
        assert_eq!(normal, expc);

        // Iterator.
        let normal: Vec<char> =
            TrimNormalChars::trim_and_normalize(rawc.as_slice()).collect_vec();
        assert_eq!(normal, expc);
    }
}
