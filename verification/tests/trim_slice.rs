use std::collections::BTreeSet;

use trimothy::IsWhitespace;
use trimothy::TrimSliceMatches;

const T_EMPTY: &[u8] = b"";
const T_HELLO: &[u8] = b"hello";
const T_HELLO_E: &[u8] = b"hello\t";

#[test]
fn t_trim() {
    let tests: [(&str, &str); 6] = [
        ("", ""),
        (" \t\n\r", ""),
        ("hello", "hello"),
        ("hello\t", "hello"),
        ("\thello", "hello"),
        ("\n  hello world! \t", "hello world!"),
    ];

    for (raw, expected) in &tests {
        let a = raw.as_bytes();
        let b = expected.as_bytes();
        assert_eq!(a.trim_ascii(), b);

        let a = a.to_vec();
        assert_eq!(a.trim_ascii(), b);

        let a = a.into_boxed_slice();
        assert_eq!(a.trim_ascii(), b);
    }

    assert_eq!(T_EMPTY.trim_matches(IsWhitespace), T_EMPTY);
    assert_eq!(T_EMPTY.to_vec().trim_matches(IsWhitespace), T_EMPTY);
    assert_eq!(Box::<[u8]>::from(T_EMPTY).trim_matches(IsWhitespace), T_EMPTY);

    assert_eq!(b"  ".trim_matches(IsWhitespace), T_EMPTY);
    assert_eq!(b"  ".to_vec().trim_matches(IsWhitespace), T_EMPTY);
    assert_eq!(Box::<[u8]>::from("  ".as_bytes()).trim_matches(IsWhitespace), T_EMPTY);

    assert_eq!(T_HELLO_E.trim_matches(b'h'), b"ello\t");
    assert_eq!(T_HELLO_E.to_vec().trim_matches(b'h'), b"ello\t");
    assert_eq!(Box::<[u8]>::from(T_HELLO_E).trim_matches(b'h'), b"ello\t");

    assert_eq!(T_HELLO_E.trim_matches(b'h'), b"ello\t");
    assert_eq!(T_HELLO_E.to_vec().trim_matches(b'h'), b"ello\t");
    assert_eq!(Box::<[u8]>::from(T_HELLO_E).trim_matches(b'h'), b"ello\t");

    let set = BTreeSet::from([b'h']);
    assert_eq!(T_HELLO_E.trim_matches(&set), b"ello\t");
    assert_eq!(T_HELLO_E.to_vec().trim_matches(&set), b"ello\t");
    assert_eq!(Box::<[u8]>::from(T_HELLO_E).trim_matches(&set), b"ello\t");

    // This should also work on arrays.
    let arr: [u8; 5] = [b' ', b' ', b'.', b' ', b' '];
    assert_eq!(arr.trim_ascii(), &[b'.']);
}

#[test]
fn t_trim_start() {
    let tests: [(&str, &str); 6] = [
        ("", ""),
        (" \t\n\r", ""),
        ("hello", "hello"),
        ("hello\t", "hello\t"),
        ("\thello", "hello"),
        ("\n  hello world! \t", "hello world! \t"),
    ];

    for (raw, expected) in &tests {
        let a = raw.as_bytes();
        let b = expected.as_bytes();
        assert_eq!(a.trim_ascii_start(), b);

        let a = a.to_vec();
        assert_eq!(a.trim_ascii_start(), b);

        let a = a.into_boxed_slice();
        assert_eq!(a.trim_ascii_start(), b);
    }

    assert_eq!(T_EMPTY.trim_start_matches(IsWhitespace), T_EMPTY);
    assert_eq!(T_EMPTY.to_vec().trim_start_matches(IsWhitespace), T_EMPTY);
    assert_eq!(Box::<[u8]>::from(T_EMPTY).trim_start_matches(IsWhitespace), T_EMPTY);

    assert_eq!(b"  ".trim_start_matches(IsWhitespace), T_EMPTY);
    assert_eq!(b"  ".to_vec().trim_start_matches(IsWhitespace), T_EMPTY);
    assert_eq!(Box::<[u8]>::from("  ".as_bytes()).trim_start_matches(IsWhitespace), T_EMPTY);

    assert_eq!(T_HELLO_E.trim_start_matches(b'h'), b"ello\t");
    assert_eq!(Box::<[u8]>::from(T_HELLO_E).trim_start_matches(b'h'), b"ello\t");
    assert_eq!(T_HELLO_E.to_vec().trim_start_matches(b'h'), b"ello\t");

    assert_eq!(T_HELLO_E.trim_start_matches(b'h'), b"ello\t");
    assert_eq!(Box::<[u8]>::from(T_HELLO_E).trim_start_matches(b'h'), b"ello\t");
    assert_eq!(T_HELLO_E.to_vec().trim_start_matches(b'h'), b"ello\t");

    let set = BTreeSet::from([b'h']);
    assert_eq!(T_HELLO_E.trim_start_matches(&set), b"ello\t");
    assert_eq!(Box::<[u8]>::from(T_HELLO_E).trim_start_matches(&set), b"ello\t");
    assert_eq!(T_HELLO_E.to_vec().trim_start_matches(&set), b"ello\t");
}

#[test]
fn t_trim_end() {
    let tests: [(&str, &str); 6] = [
        ("", ""),
        (" \t\n\r", ""),
        ("hello", "hello"),
        ("hello\t", "hello"),
        ("\thello", "\thello"),
        ("\n  hello world! \t", "\n  hello world!"),
    ];

    for (raw, expected) in &tests {
        let a = raw.as_bytes();
        let b = expected.as_bytes();
        assert_eq!(a.trim_ascii_end(), b);

        let a = a.to_vec();
        assert_eq!(a.trim_ascii_end(), b);

        let a = a.into_boxed_slice();
        assert_eq!(a.trim_ascii_end(), b);
    }

    assert_eq!(T_EMPTY.trim_end_matches(IsWhitespace), T_EMPTY);
    assert_eq!(T_EMPTY.to_vec().trim_end_matches(IsWhitespace), T_EMPTY);
    assert_eq!(Box::<[u8]>::from(T_EMPTY).trim_end_matches(IsWhitespace), T_EMPTY);

    assert_eq!(b"  ".trim_end_matches(IsWhitespace), T_EMPTY);
    assert_eq!(b"  ".to_vec().trim_end_matches(IsWhitespace), T_EMPTY);
    assert_eq!(Box::<[u8]>::from("  ".as_bytes()).trim_end_matches(IsWhitespace), T_EMPTY);

    assert_eq!(T_HELLO_E.trim_matches(b'\t'), T_HELLO);
    assert_eq!(Box::<[u8]>::from(T_HELLO_E).trim_matches(b'\t'), T_HELLO);
    assert_eq!(T_HELLO_E.to_vec().trim_matches(b'\t'), T_HELLO);

    assert_eq!(T_HELLO_E.trim_matches(b'\t'), T_HELLO);
    assert_eq!(Box::<[u8]>::from(T_HELLO_E).trim_matches(b'\t'), T_HELLO);
    assert_eq!(T_HELLO_E.to_vec().trim_matches(b'\t'), T_HELLO);

    let set = BTreeSet::from([b'\t']);
    assert_eq!(T_HELLO_E.trim_matches(&set), T_HELLO);
    assert_eq!(Box::<[u8]>::from(T_HELLO_E).trim_matches(&set), T_HELLO);
    assert_eq!(T_HELLO_E.to_vec().trim_matches(&set), T_HELLO);
}
