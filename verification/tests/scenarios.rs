use std::collections::BTreeSet;

use trimothy::IsControl;
use trimothy::IsWhitespace;
use trimothy::NormalizeWhitespace;
use trimothy::TrimCow;
use trimothy::TrimMatchesMut;
use trimothy::TrimMut;
use trimothy::TrimNormal;
use trimothy::TrimNormalBytes;
use trimothy::TrimNormalChars;
use trimothy::TrimSliceMatches;
use trimothy::trim_and_normalize_fixup;
use trimothy::trim_and_normalize_mut;

fn chars_of(s: &str) -> Vec<char> {
    s.chars().collect()
}

#[test]
fn t_trim_hello_world() {
    let raw = "  \t\nHello World!\n\t  ";
    let expected = "Hello World!";

    // Bytes: read-only scan, then the in-place engine.
    assert_eq!(raw.as_bytes().trim_matches(IsWhitespace), expected.as_bytes());
    let mut v = raw.as_bytes().to_vec();
    v.trim_mut();
    assert_eq!(v, expected.as_bytes());

    // Characters likewise.
    let rawc = chars_of(raw);
    let expc = chars_of(expected);
    assert_eq!(rawc.as_slice().trim_matches(IsWhitespace), expc.as_slice());
    let mut v = rawc.clone();
    v.trim_mut();
    assert_eq!(v, expc);
}

#[test]
fn t_normalize_multibyte() {
    let raw = " H\r\nE\u{2001}L  \u{3000}\u{205f}L\tO  ";
    let rawc = chars_of(raw);
    let expc = chars_of("H E L L O");

    let normal = TrimNormal::trim_and_normalize(rawc.as_slice());
    assert_eq!(normal.as_slice(), expc.as_slice());
    assert!(!normal.is_borrowed());

    let normal: Vec<char> = rawc.clone().trim_and_normalize();
    assert_eq!(normal, expc);
}

#[test]
fn t_control_aware_normalize() {
    let raw = " \0Hello\x1b\0World!\0";
    let rawc = chars_of(raw);

    // Control-aware: control units are trimmed and collapsed too.
    let normal: Vec<char> =
        rawc.as_slice().normalized_control_and_whitespace().collect_vec();
    assert_eq!(normal, chars_of("Hello World!"));
    let normal: Vec<u8> = raw.as_bytes().normalized_control_and_whitespace().collect_vec();
    assert_eq!(normal, b"Hello World!");

    // Plain: only the leading space goes; the control units stay.
    let normal: Vec<char> = rawc.as_slice().normalized_whitespace().collect_vec();
    assert_eq!(normal, chars_of("\0Hello\x1b\0World!\0"));
    let normal: Vec<u8> = raw.as_bytes().normalized_whitespace().collect_vec();
    assert_eq!(normal, b"\0Hello\x1b\0World!\0");

    // The control predicate alone trims only control units.
    assert_eq!(b"\0\x1bab\x7f".trim_matches(IsControl), b"ab");
}

#[test]
fn t_empty_input() {
    let empty: &[u8] = b"";

    assert_eq!(empty.trim_matches(IsWhitespace), empty);
    assert_eq!(empty.trim_start_matches(b'x'), empty);
    assert_eq!(empty.trim_end_matches(b'x'), empty);

    let mut v: Vec<u8> = Vec::new();
    v.trim_mut();
    assert!(v.is_empty());
    trim_and_normalize_mut(&mut v);
    assert!(v.is_empty());

    let normal = TrimNormal::trim_and_normalize(empty);
    assert!(normal.is_borrowed());
    assert_eq!(normal.len(), 0);

    let mut it = empty.normalized_whitespace();
    assert_eq!(it.size_hint(), (0, Some(0)));
    assert_eq!(it.next(), None);
}

#[test]
fn t_all_whitespace_input() {
    let raw: &[u8] = b" \t\r\n \x0c ";

    assert_eq!(raw.trim_matches(IsWhitespace), b"");
    let mut v = raw.to_vec();
    v.trim_mut();
    assert!(v.is_empty());

    let mut v = raw.to_vec();
    trim_and_normalize_mut(&mut v);
    assert!(v.is_empty());

    let normal = TrimNormal::trim_and_normalize(raw);
    assert!(normal.is_borrowed());
    assert_eq!(normal.len(), 0);

    assert_eq!(raw.normalized_whitespace().collect_vec(), b"");

    let rawc = chars_of(" \u{2003}\u{a0}\t ");
    let normal = TrimNormal::trim_and_normalize(rawc.as_slice());
    assert!(normal.is_borrowed());
    assert_eq!(normal.len(), 0);
}

#[test]
fn t_matcher_forms() {
    let raw: &[u8] = b"..hello..";
    let expected: &[u8] = b"hello";

    // |S| = 1: single unit, one-element array, slice, ordered set.
    let single = raw.trim_matches(b'.');
    let arr = raw.trim_matches([b'.']);
    let arr_ref = raw.trim_matches(&[b'.']);
    let slice = raw.trim_matches([b'.'].as_slice());
    let set = BTreeSet::from([b'.']);
    let set_trim = raw.trim_matches(&set);
    assert_eq!(single, expected);
    assert_eq!(arr, expected);
    assert_eq!(arr_ref, expected);
    assert_eq!(slice, expected);
    assert_eq!(set_trim, expected);

    // The named whitespace predicate against the explicit whitespace set.
    let ws: &[u8] = b"\n hi \t";
    let ws_set: [u8; 5] = [b' ', b'\t', b'\n', 0x0c, b'\r'];
    assert_eq!(ws.trim_matches(IsWhitespace), ws.trim_matches(ws_set));
    assert_eq!(ws.trim_matches(IsWhitespace), ws.trim_matches(&BTreeSet::from(ws_set)));
}

#[test]
fn t_scan_and_mutate_agree() {
    for raw in [
        &b"  spaced  out  "[..],
        b"never trimmed!",
        b"\t\t",
        b"",
        b"x  ",
        b"  x",
    ] {
        let scanned = raw.trim_matches(IsWhitespace);
        let mut mutated = raw.to_vec();
        mutated.trim_mut();
        assert_eq!(scanned, mutated);

        let scanned = raw.trim_start_matches(IsWhitespace);
        let mut mutated = raw.to_vec();
        mutated.trim_start_mut();
        assert_eq!(scanned, mutated);

        let scanned = raw.trim_end_matches(IsWhitespace);
        let mut mutated = raw.to_vec();
        mutated.trim_end_mut();
        assert_eq!(scanned, mutated);

        let scanned = raw.trim_matches(b'x');
        let mut mutated = raw.to_vec();
        mutated.trim_matches_mut(b'x');
        assert_eq!(scanned, mutated);
    }
}

#[test]
fn t_borrow_or_allocate() {
    // No edge whitespace, no run longer than one canonical space:
    // borrowed.
    let clean: &[u8] = b"already quite clean";
    let normal = TrimNormal::trim_and_normalize(clean);
    assert!(normal.is_borrowed());
    assert_eq!(normal.as_slice(), clean);

    // Any needed change allocates, and the result equals the lazy mode
    // collected in full.
    for raw in [&b"a  b"[..], b"a\tb", b" a b ", b"\twide  load\r"] {
        let direct = TrimNormal::trim_and_normalize(raw);
        let lazy = TrimNormalBytes::trim_and_normalize(raw).collect_vec();
        assert_eq!(direct.as_slice(), lazy.as_slice());
        if raw.trim_ascii() != direct.as_slice() {
            assert!(!direct.is_borrowed());
        }
    }
}

#[test]
fn t_collapse_shape() {
    // Every whitespace unit in the output is one canonical space with
    // content on both sides; no whitespace leads or trails.
    for raw in [
        &b"  a \t b\r\nc  "[..],
        b"\x0c\x0c",
        b"one",
        b" two  words "
    ] {
        let out = TrimNormalBytes::trim_and_normalize(raw).collect_vec();
        for (i, b) in out.iter().enumerate() {
            if b.is_ascii_whitespace() {
                assert_eq!(*b, b' ');
                assert!(i > 0 && !out[i - 1].is_ascii_whitespace());
                assert!(i + 1 < out.len() && !out[i + 1].is_ascii_whitespace());
            }
        }
    }
}

#[test]
fn t_control_superset() {
    // Control-aware normalization removes at least everything plain
    // normalization removes: re-normalizing the plain result
    // control-aware gives the control-aware result.
    for raw in [
        &b" \0a\x1b\x1b b\0 "[..],
        b"\0\0",
        b"fine",
        b"a \x07 b",
    ] {
        let plain = raw.normalized_whitespace().collect_vec();
        let aware = raw.normalized_control_and_whitespace().collect_vec();
        let twice = plain.as_slice().normalized_control_and_whitespace().collect_vec();
        assert_eq!(twice, aware);
        assert!(aware.len() <= plain.len());
    }
}

#[test]
fn t_idempotent() {
    for raw in [&b"  a  b  "[..], b"", b"ab", b" \t "] {
        let once = TrimNormalBytes::trim_and_normalize(raw).collect_vec();
        let twice = TrimNormalBytes::trim_and_normalize(once.as_slice()).collect_vec();
        assert_eq!(once, twice);

        let once = raw.trim_matches(IsWhitespace);
        let twice = once.trim_matches(IsWhitespace);
        assert_eq!(once, twice);
    }
}

#[test]
fn t_size_hint_bounds() {
    let raw: &[u8] = b"  a  b  ";
    let mut it = raw.normalized_whitespace();
    // One unit is buffered after construction, and the estimate itself
    // is bounded: the lower bound by that one unit, the upper bound by
    // the unconsumed input plus it.
    let (lower, upper) = it.size_hint();
    assert_eq!(lower, 1);
    assert!(upper.unwrap() >= 3);
    assert!(upper.unwrap() <= raw.len());
    let mut yielded: usize = 0;
    while let Some(_) = it.next() {
        yielded += 1;
    }
    assert_eq!(yielded, 3);
    assert!(lower <= yielded && yielded <= upper.unwrap());
}

#[test]
fn t_cow_trims() {
    // Borrowed in, borrowed out.
    let mut s: TrimCow<u8> = TrimCow::Borrowed(b" Hello World! ");
    s.trim_mut();
    assert_eq!(s.as_slice(), b"Hello World!");
    assert!(s.is_borrowed());

    // Owned in, owned out.
    let mut s: TrimCow<u8> = TrimCow::Owned(b" Hello World! ".to_vec());
    s.trim_mut();
    assert_eq!(s.as_slice(), b"Hello World!");
    assert!(!s.is_borrowed());

    let mut s: TrimCow<u8> = TrimCow::Borrowed(b" Hello World! ");
    s.trim_matches_mut([b' ', b'H']);
    assert_eq!(s.as_slice(), b"ello World!");
    assert!(s.is_borrowed());

    let mut s: TrimCow<u8> = TrimCow::Owned(b" Hello World! ".to_vec());
    s.trim_start_matches_mut([b' ', b'H']);
    assert_eq!(s.as_slice(), b"ello World! ");
    assert!(!s.is_borrowed());

    let s: TrimCow<u8> = TrimCow::Borrowed(b"abc");
    assert_eq!(s.len(), 3);
    assert_eq!(s.into_vec(), b"abc".to_vec());

    // Normalization of an owned handle rewrites in place.
    let s: TrimCow<u8> = TrimCow::Owned(b" a  b ".to_vec());
    let normal = s.trim_and_normalize();
    assert_eq!(normal.as_slice(), b"a b");
    assert!(!normal.is_borrowed());

    // A borrowed handle stays borrowed when nothing need change.
    let s: TrimCow<u8> = TrimCow::Borrowed(b" a b ");
    let normal = s.trim_and_normalize();
    assert_eq!(normal.as_slice(), b"a b");
    assert!(normal.is_borrowed());

    // An owned handle is never demoted to a borrow, clean or not.
    let s: TrimCow<u8> = TrimCow::Owned(b"a b".to_vec());
    let normal = s.trim_and_normalize();
    assert_eq!(normal.as_slice(), b"a b");
    assert!(!normal.is_borrowed());
}

#[test]
fn t_box_trims() {
    let mut v = Box::<[u8]>::from(&b" Hello World! "[..]);
    v.trim_mut();
    assert_eq!(&*v, b"Hello World!");

    let mut v = Box::<[u8]>::from(&b" Hello World! "[..]);
    v.trim_start_mut();
    assert_eq!(&*v, b"Hello World! ");

    let mut v = Box::<[u8]>::from(&b" Hello World! "[..]);
    v.trim_end_mut();
    assert_eq!(&*v, b" Hello World!");

    let mut v = Box::<[u8]>::from(&b" Hello World! "[..]);
    v.trim_matches_mut([b'!', b' ']);
    assert_eq!(&*v, b"Hello World");

    // The whole range retained: left untouched.
    let mut v = Box::<[u8]>::from(&b"solid"[..]);
    v.trim_mut();
    assert_eq!(&*v, b"solid");

    // Everything trimmed away: a valid empty buffer.
    let mut v = Box::<[u8]>::from(&b"   "[..]);
    v.trim_mut();
    assert_eq!(&*v, b"");
}

#[test]
fn t_normalize_in_place_bytes() {
    let mut v = b" H\r\nE L  \nL\tO  ".to_vec();
    trim_and_normalize_mut(&mut v);
    assert_eq!(v, b"H E L L O");

    let mut v = b"keep me".to_vec();
    trim_and_normalize_mut(&mut v);
    assert_eq!(v, b"keep me");
}

#[test]
fn t_normalize_fixup() {
    // The deferred-canonicalization strategy gives the very same results
    // as the inline one, for characters and for bytes.
    for raw in [
        " H\r\nE\u{2001}L  \u{3000}\u{205f}L\tO  ",
        "H\u{2003}I",
        "  ",
        "",
        "fine already",
        "\u{a0}\u{a0}a\u{a0}\u{a0}b\u{a0}\u{a0}",
    ] {
        let mut a: Vec<char> = raw.chars().collect();
        let mut b = a.clone();
        trim_and_normalize_fixup(&mut a);
        trim_and_normalize_mut(&mut b);
        assert_eq!(a, b);

        let mut a = raw.as_bytes().to_vec();
        let mut b = a.clone();
        trim_and_normalize_fixup(&mut a);
        trim_and_normalize_mut(&mut b);
        assert_eq!(a, b);
    }

    let mut v: Vec<char> = " H\tE  L\n\rL\x0CO ".chars().collect();
    trim_and_normalize_fixup(&mut v);
    assert_eq!(v, "H E L L O".chars().collect::<Vec<char>>());
}

#[test]
fn t_lazy_iterator_steps() {
    let raw: &[u8] = b" a  b ";
    let mut it = TrimNormalBytes::trim_and_normalize(raw);
    assert_eq!(it.next(), Some(b'a'));
    assert_eq!(it.next(), Some(b' '));
    assert_eq!(it.next(), Some(b'b'));
    assert_eq!(it.next(), None);
    assert_eq!(it.next(), None);

    let rawc = chars_of(" x\u{2001}y ");
    let mut it = TrimNormalChars::trim_and_normalize(rawc.as_slice());
    assert_eq!(it.next(), Some('x'));
    assert_eq!(it.next(), Some(' '));
    assert_eq!(it.next(), Some('y'));
    assert_eq!(it.next(), None);
}
