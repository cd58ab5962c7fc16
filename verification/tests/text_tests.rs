use quote_server::text::{chars_of, is_whitespace, lines_of, split_chars, string_of, trim_chars, words_of};
use std::io::BufRead;

const SAMPLES: [&str; 12] = [
    "",
    "  a b  ",
    "\u{3000}x\u{2028}",
    "a\r\nb\n",
    "a\rb\r",
    "\n\n",
    "one",
    "|a||b|",
    "x\u{85}y",
    "\t STREAM  127.0.0.1:1 A B\n",
    "end\r",
    "ü Ü\u{a0}",
];

#[test]
fn trimming_agrees_with_std() {
    for s in SAMPLES {
        let t = string_of(&trim_chars(&chars_of(s)));
        assert_eq!(t, s.trim(), "{:?}", s);
    }
}

#[test]
fn words_agree_with_std() {
    for s in SAMPLES {
        let w: Vec<String> = words_of(&chars_of(s)).iter().map(|w| string_of(w)).collect();
        let expected: Vec<String> = s.split_whitespace().map(|w| w.to_string()).collect();
        assert_eq!(w, expected, "{:?}", s);
    }
}

#[test]
fn splitting_agrees_with_std() {
    for s in SAMPLES {
        let p: Vec<String> = split_chars(&chars_of(s), '|').iter().map(|w| string_of(w)).collect();
        let expected: Vec<String> = s.split('|').map(|w| w.to_string()).collect();
        assert_eq!(p, expected, "{:?}", s);
    }
}

#[test]
fn lines_agree_with_std() {
    for s in SAMPLES {
        let l: Vec<String> = lines_of(&chars_of(s)).iter().map(|w| string_of(w)).collect();
        let expected: Vec<String> = s.as_bytes().lines().map(|l| l.unwrap()).collect();
        assert_eq!(l, expected, "{:?}", s);
    }
}

#[test]
fn whitespace_agrees_with_std_on_every_char() {
    for u in 0..=0x10FFFFu32 {
        if let Some(c) = char::from_u32(u) {
            assert_eq!(is_whitespace(c), c.is_whitespace(), "U+{:04X}", u);
        }
    }
}
