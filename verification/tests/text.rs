//! Text and numerals against the standard library.

use spe6103::numeral::{parse_usize, push_decimal, push_hexadecimal, push_padded};
use spe6103::text::{
    chars_of, contains, ends_with, is_blank, is_white, same, split, split_words, starts_with, string_of, trim,
};

fn decimal_text(n: u64) -> String {
    let mut s = String::new();
    push_decimal(&mut s, n);
    s
}

fn pieces(v: Vec<Vec<char>>) -> Vec<String> {
    v.iter().map(|p| string_of(p)).collect()
}

#[test]
fn strings_to_characters_and_back() {
    for s in ["", "a", "出力OFF", "line\r\n", "×🙂"] {
        assert_eq!(chars_of(s), s.chars().collect::<Vec<char>>());
        assert_eq!(string_of(&chars_of(s)), s);
        assert!(same(s, s));
    }
    assert!(!same("abc", "abd"));
    assert!(!same("abc", "ab"));
}

#[test]
fn white_space_is_that_of_unicode() {
    for n in 0..=0x10ffffu32 {
        if let Some(c) = char::from_u32(n) {
            assert_eq!(is_white(c), c.is_whitespace(), "{n:x}");
        }
    }
}

#[test]
fn searching_agrees_with_the_standard_library() {
    for s in ["", "a", "aab", "OWON,SPE6103,123", "usb", "xusx", "ababab"] {
        for p in ["", "a", "ab", "SPE6103", "usb", "b", "abab"] {
            assert_eq!(contains(s, p), s.contains(p), "{s} {p}");
            assert_eq!(starts_with(s, p), s.starts_with(p), "{s} {p}");
            assert_eq!(ends_with(s, p), s.ends_with(p), "{s} {p}");
        }
    }
}

#[test]
fn splitting_agrees_with_the_standard_library() {
    for s in ["", "&", "a&b", "a&&b&", "\r\n", "a\r\nb\r\n\r\nc", "\r\r\n\n"] {
        for p in ["&", "\r\n", "a"] {
            let want: Vec<String> = s.split(p).map(|x| x.to_string()).collect();
            assert_eq!(pieces(split(&chars_of(s), &chars_of(p))), want, "{s:?} {p:?}");
        }
    }
}

#[test]
fn words_agree_with_the_standard_library() {
    for s in ["", " ", "GET / HTTP/1.1", "  a \u{3000}b\t c ", "one"] {
        let want: Vec<String> = s.split_whitespace().map(|x| x.to_string()).collect();
        assert_eq!(pieces(split_words(&chars_of(s))), want, "{s:?}");
    }
}

#[test]
fn trimming_agrees_with_the_standard_library() {
    for s in ["", " ", "\r\n", " 8.400\r\n", "\u{3000}x y\u{a0}", "x"] {
        assert_eq!(trim(s), s.trim());
        assert_eq!(is_blank(s), s.trim().is_empty());
    }
}

#[test]
fn decimals_agree_with_the_standard_library() {
    for n in [0u64, 7, 9, 10, 99, 100, 115200, u64::MAX - 1, u64::MAX] {
        assert_eq!(decimal_text(n), n.to_string());
    }
    let mut s = String::new();
    push_padded(&mut s, 12345, 3);
    assert_eq!(s, "345");
    push_padded(&mut s, 7, 3);
    assert_eq!(s, "345007");
}

#[test]
fn hexadecimals_agree_with_the_standard_library() {
    for n in [0u64, 1, 0xdead_beef, 0x0123_4567_89ab_cdef, u64::MAX] {
        let mut s = String::new();
        push_hexadecimal(&mut s, n, 16);
        assert_eq!(s, format!("{n:016x}"));
    }
}

#[test]
fn reading_numbers_agrees_with_the_standard_library() {
    for s in [
        "", "+", "-", "0", "+0", "-0", "007", "42", "+42", "4 2", " 42", "4x", "++4", "18446744073709551615",
        "18446744073709551616", "99999999999999999999999", "４２",
    ] {
        assert_eq!(parse_usize(s), s.parse::<usize>().ok(), "{s}");
    }
    for n in [0usize, 9, 10, 65536, usize::MAX] {
        assert_eq!(parse_usize(&decimal_text(n as u64)), Some(n));
    }
}
