//! Words, lines and blanks agree with the standard library's.
use cce_remote::text::{Blanks, blank, contains_text, find, lowered};
use cce_remote::words::{fields_of, lines_of, trimmed, trimmed_start, words_of};

fn chars(s: &str) -> Vec<char> {
    s.chars().collect()
}

fn strings(v: Vec<Vec<char>>) -> Vec<String> {
    v.into_iter().map(|c| c.into_iter().collect()).collect()
}

const SAMPLES: [&str; 18] = [
    "", " ", "a", " a ", "a b", "  a\tb\nc\r\nd  ", "\n", "\r\n", "\n\n", "a\n", "a\r", "a\r\nb",
    "a\rb\n\r\n", "\u{a0}x\u{2003}y\u{3000}", "\u{b}v\u{c}f", "one two  three", "\u{e9} \u{1f600}",
    "x\n\ny\r\r\nz",
];

#[test]
fn blanks_are_the_standard_ones() {
    for n in 0..=0x10ffffu32 {
        if let Some(c) = char::from_u32(n) {
            assert_eq!(blank(Blanks::Unicode, c), c.is_whitespace(), "{n:x}");
            assert_eq!(blank(Blanks::Ascii, c), c.is_ascii_whitespace(), "{n:x}");
            assert_eq!(lowered(c), c.to_ascii_lowercase(), "{n:x}");
        }
    }
}

#[test]
fn texts_are_split_as_by_the_standard_library() {
    for s in SAMPLES {
        let c = chars(s);
        let std: Vec<String> = s.split_whitespace().map(String::from).collect();
        assert_eq!(strings(words_of(Blanks::Unicode, &c)), std, "{s:?}");
        let std: Vec<String> = s.split_ascii_whitespace().map(String::from).collect();
        assert_eq!(strings(words_of(Blanks::Ascii, &c)), std, "{s:?}");
        let std: Vec<String> = s.lines().map(String::from).collect();
        assert_eq!(strings(lines_of(&c)), std, "{s:?}");
        let std: Vec<String> = s.split('a').map(String::from).collect();
        assert_eq!(strings(fields_of(&c, 'a')), std, "{s:?}");
        assert_eq!(trimmed(&c).iter().collect::<String>(), s.trim(), "{s:?}");
        assert_eq!(trimmed_start(&c).iter().collect::<String>(), s.trim_start(), "{s:?}");
    }
}

#[test]
fn texts_are_searched() {
    let c = chars("abcabd");
    assert_eq!(find(&c, &chars("abd")), Some(3));
    assert_eq!(find(&c, &chars("")), Some(0));
    assert_eq!(find(&c, &chars("abe")), None);
    assert!(contains_text(&c, "cab"));
    assert!(!contains_text(&c, "cba"));
}
