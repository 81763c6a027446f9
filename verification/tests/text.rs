//! The text functions against the standard library's.

use ipp_duplexd::text::{
    bytes_of, chars_of, contains, in_list, is_whitespace, join, last_occurrence, lines, lower,
    nth_word, parse_number, push_decimal, push_decimal_int, push_hex_byte, push_hex_digit,
    push_hex_word, same, same_bytes, split, split_first, split_last, starts_with, string_of,
    strip_prefix, tail, trim, up_to,
};

const SAMPLES: [&str; 14] = [
    "",
    " ",
    "a",
    "  two words  ",
    "a:b:c",
    ":",
    "::",
    "x=1=2",
    "line one\nline two\r\nline three",
    "ends\n",
    "\r\n\r\n",
    "tab\tand\u{a0}nbsp \u{2003}em",
    "Größe ÄÖÜ ß",
    "ipp://127.0.0.1:631/printers/laser",
];

#[test]
fn whitespace_is_that_of_unicode() {
    for c in '\0'..=char::MAX {
        assert_eq!(is_whitespace(c), c.is_whitespace(), "{:?}", c);
    }
}

#[test]
fn trimming_and_words() {
    for s in SAMPLES {
        assert_eq!(trim(s), s.trim(), "{s:?}");
        for n in 0..4 {
            assert_eq!(
                nth_word(s, n).as_deref(),
                s.split_whitespace().nth(n),
                "{s:?} {n}"
            );
        }
    }
}

#[test]
fn searching() {
    for s in SAMPLES {
        for p in ["", "a", "ipp://", "/printers/", ":", "one\nline", "ß"] {
            assert_eq!(starts_with(s, p), s.starts_with(p), "{s:?} {p:?}");
            assert_eq!(contains(s, p), s.contains(p), "{s:?} {p:?}");
            assert_eq!(
                strip_prefix(s, p).as_deref(),
                s.strip_prefix(p),
                "{s:?} {p:?}"
            );
            let last = s.rfind(p).map(|at| s[..at].chars().count());
            assert_eq!(last_occurrence(s, p), last, "{s:?} {p:?}");
        }
    }
    assert!(in_list("b", &["a", "b"]));
    assert!(!in_list("c", &["a", "b"]));
    assert!(!in_list("a", &[]));
}

#[test]
fn splitting() {
    for s in SAMPLES {
        for c in [':', '=', ' ', '\n'] {
            let pieces: Vec<String> = s.split(c).map(String::from).collect();
            assert_eq!(split(s, c), pieces, "{s:?} {c:?}");
            assert_eq!(up_to(s, c), s.split(c).next().unwrap(), "{s:?} {c:?}");
            let pair = |p: (&str, &str)| (p.0.to_string(), p.1.to_string());
            assert_eq!(split_first(s, c), s.split_once(c).map(pair), "{s:?} {c:?}");
            assert_eq!(split_last(s, c), s.rsplit_once(c).map(pair), "{s:?} {c:?}");
        }
        let all: Vec<String> = s.lines().map(String::from).collect();
        assert_eq!(lines(s), all, "{s:?}");
        assert_eq!(join(&all, ", "), all.join(", "));
    }
}

#[test]
fn letter_case() {
    for s in SAMPLES {
        assert_eq!(lower(s), s.to_ascii_lowercase());
    }
    assert_eq!(lower("Content-LENGTH: [@`{]Z"), "content-length: [@`{]z");
}

#[test]
fn numbers_as_the_standard_library_reads_them() {
    for s in [
        "", "0", "7", "007", "65535", "65536", "+5", "+", "-1", " 1", "1 ", "1_0", "9a", "ff",
        "18446744073709551615", "18446744073709551616", "99999999999999999999999", "++1", "٣",
    ] {
        assert_eq!(
            parse_number(s, 10, u64::MAX),
            s.parse::<u64>().ok(),
            "{s:?}"
        );
        assert_eq!(
            parse_number(s, 10, 0xffff),
            s.parse::<u16>().ok().map(u64::from),
            "{s:?}"
        );
        assert_eq!(
            parse_number(s, 16, u64::MAX),
            u64::from_str_radix(s, 16).ok(),
            "{s:?}"
        );
    }
    assert_eq!(parse_number("FfFf", 16, 0xffff), Some(0xffff));
    assert_eq!(parse_number("g", 16, 0xffff), None);
}

#[test]
fn numbers_as_they_are_written() {
    for n in [0u64, 9, 10, 631, 6632, u64::MAX] {
        let mut s = String::from("n=");
        push_decimal(&mut s, n);
        assert_eq!(s, format!("n={n}"));
    }
    for n in [0i32, -1, 42, i32::MIN, i32::MAX] {
        let mut s = String::new();
        push_decimal_int(&mut s, n);
        assert_eq!(s, n.to_string());
    }
    let mut s = String::new();
    push_hex_digit(&mut s, 11);
    push_hex_byte(&mut s, 0x0f);
    push_hex_word(&mut s, 0x04a6);
    assert_eq!(s, "b0f04a6");
}

#[test]
fn characters_and_bytes() {
    let s = "Größe";
    assert_eq!(chars_of(s), s.chars().collect::<Vec<_>>());
    assert_eq!(string_of(&chars_of(s), 1, 4), "röß");
    assert_eq!(tail(s, 2), "öße");
    assert_eq!(bytes_of(s), s.as_bytes());
    assert!(same("ä", "ä") && !same("ä", "a"));
    assert!(same_bytes(&[1, 2], &[1, 2]) && !same_bytes(&[1], &[1, 2]));
}
