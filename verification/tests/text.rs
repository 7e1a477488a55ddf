use http_core::decimal::{append_decimal, read_decimal};
use http_core::lines::{find_line_end, text_of, write_line};
use http_core::text::{
    chars_of, find_char, is_whitespace_char, str_eq, str_eq_ignore_ascii_case, str_starts_with,
    to_ascii_lower, trim_bounds,
};

fn decimal(n: usize) -> String {
    let mut out = String::from("n=");
    append_decimal(&mut out, n);
    out
}

fn number(text: &str) -> Option<u128> {
    read_decimal(&text.chars().collect())
}

fn trimmed(text: &str) -> String {
    let chars: Vec<char> = format!("[{}]", text).chars().collect();
    let (a, b) = trim_bounds(&chars, 1, chars.len() - 1);
    chars[a..b].iter().collect()
}

#[test]
fn white_space_is_what_unicode_says() {
    let mut found = Vec::new();
    for code in 0..0x11_0000u32 {
        if let Some(c) = char::from_u32(code) {
            assert_eq!(is_whitespace_char(c), c.is_whitespace());
            if is_whitespace_char(c) {
                found.push(code);
            }
        }
    }
    assert_eq!(
        found,
        vec![
            0x09, 0x0a, 0x0b, 0x0c, 0x0d, 0x20, 0x85, 0xa0, 0x1680, 0x2000, 0x2001, 0x2002, 0x2003,
            0x2004, 0x2005, 0x2006, 0x2007, 0x2008, 0x2009, 0x200a, 0x2028, 0x2029, 0x202f, 0x205f,
            0x3000
        ]
    );
}

#[test]
fn lower_case_of_ascii_letters_only() {
    for code in 0..0x11_0000u32 {
        if let Some(c) = char::from_u32(code) {
            assert_eq!(to_ascii_lower(c), c.to_ascii_lowercase());
        }
    }
    assert_eq!(to_ascii_lower('A'), 'a');
    assert_eq!(to_ascii_lower('Z'), 'z');
    assert_eq!(to_ascii_lower('@'), '@');
    assert_eq!(to_ascii_lower('['), '[');
}

#[test]
fn chars_of_gives_every_character() {
    assert_eq!(chars_of(""), Vec::<char>::new());
    assert_eq!(chars_of("a\u{e9}\u{20ac}\u{1f600}z"), vec!['a', '\u{e9}', '\u{20ac}', '\u{1f600}', 'z']);
}

#[test]
fn str_eq_compares_texts() {
    assert!(str_eq("", ""));
    assert!(str_eq("GET", "GET"));
    assert!(!str_eq("GET", "GEt"));
    assert!(!str_eq("GET", "GETS"));
    assert!(!str_eq("GETS", "GET"));
    assert!(str_eq("\u{e9}", "\u{e9}"));
    assert!(!str_eq("\u{e9}", "e\u{301}"));
}

#[test]
fn str_eq_ignore_ascii_case_compares_up_to_case() {
    assert!(str_eq_ignore_ascii_case("", ""));
    assert!(str_eq_ignore_ascii_case("Content-Length", "content-length"));
    assert!(str_eq_ignore_ascii_case("CLOSE", "close"));
    assert!(!str_eq_ignore_ascii_case("close", "closed"));
    assert!(!str_eq_ignore_ascii_case("close", "clos"));
    assert!(!str_eq_ignore_ascii_case("a_b", "a-b"));
    assert!(!str_eq_ignore_ascii_case("\u{c9}", "\u{e9}"));
}

#[test]
fn str_starts_with_tells_a_prefix() {
    assert!(str_starts_with("/echo/abc", "/echo/"));
    assert!(str_starts_with("/echo/", "/echo/"));
    assert!(str_starts_with("abc", ""));
    assert!(str_starts_with("", ""));
    assert!(!str_starts_with("/echo", "/echo/"));
    assert!(!str_starts_with("/ech0/abc", "/echo/"));
    assert!(!str_starts_with("", "a"));
}

#[test]
fn find_char_finds_the_first_in_range() {
    let v: Vec<char> = "a:b:c".chars().collect();
    assert_eq!(find_char(&v, 0, 5, ':'), 1);
    assert_eq!(find_char(&v, 1, 5, ':'), 1);
    assert_eq!(find_char(&v, 2, 5, ':'), 3);
    assert_eq!(find_char(&v, 4, 5, ':'), 5);
    assert_eq!(find_char(&v, 0, 1, ':'), 1);
    assert_eq!(find_char(&v, 2, 3, ':'), 3);
    assert_eq!(find_char(&v, 3, 3, ':'), 3);
    assert_eq!(find_char(&v, 0, 5, 'z'), 5);
    assert_eq!(find_char(&v, 0, 0, 'a'), 0);
}

#[test]
fn trim_bounds_drops_surrounding_white_space() {
    assert_eq!(trimmed("  a b  "), "a b");
    assert_eq!(trimmed("a"), "a");
    assert_eq!(trimmed(""), "");
    assert_eq!(trimmed(" \t\r\n "), "");
    assert_eq!(trimmed("\u{a0}x\u{3000}"), "x");
    assert_eq!(trimmed("\u{200b}x"), "\u{200b}x");
    let v: Vec<char> = " ab ".chars().collect();
    assert_eq!(trim_bounds(&v, 0, 4), (1, 3));
    assert_eq!(trim_bounds(&v, 1, 3), (1, 3));
    assert_eq!(trim_bounds(&v, 0, 1), (1, 1));
    assert_eq!(trim_bounds(&v, 3, 4), (4, 4));
    assert_eq!(trim_bounds(&v, 2, 2), (2, 2));
}

#[test]
fn append_decimal_writes_digits() {
    assert_eq!(decimal(0), "n=0");
    assert_eq!(decimal(7), "n=7");
    assert_eq!(decimal(10), "n=10");
    assert_eq!(decimal(599), "n=599");
    assert_eq!(decimal(1000000), "n=1000000");
    assert_eq!(decimal(usize::MAX), format!("n={}", usize::MAX));
}

#[test]
fn read_decimal_reads_digits() {
    assert_eq!(number("0"), Some(0));
    assert_eq!(number("7"), Some(7));
    assert_eq!(number("10"), Some(10));
    assert_eq!(number("0042"), Some(42));
    assert_eq!(number("+42"), Some(42));
    assert_eq!(number("18446744073709551616"), Some(18446744073709551616));
    assert_eq!(number("340282366920938463463374607431768211455"), Some(u128::MAX));
}

#[test]
fn read_decimal_rejects_what_is_no_number() {
    for text in ["", "+", "-1", "++1", "1+", "1 ", " 1", "1.0", "0x10", "1e3", "\u{661}", "\u{ff11}", "12a"] {
        assert_eq!(number(text), None);
    }
}

#[test]
fn read_decimal_stops_at_the_largest_number() {
    assert_eq!(number("340282366920938463463374607431768211456"), Some(u128::MAX));
    assert_eq!(number("340282366920938463463374607431768211460"), Some(u128::MAX));
    assert_eq!(number("99999999999999999999999999999999999999999999"), Some(u128::MAX));
    assert_eq!(number("9999999999999999999999999999999999999999999x"), None);
}

#[test]
fn read_decimal_reads_back_what_append_decimal_writes() {
    for n in [0usize, 1, 9, 10, 99, 100, 4096, 65535, usize::MAX] {
        let mut out = String::new();
        append_decimal(&mut out, n);
        assert_eq!(number(&out), Some(n as u128));
    }
}

#[test]
fn find_line_end_finds_the_first_crlf() {
    let buffer = b"ab\r\ncd\r\n\r\nef";
    assert_eq!(find_line_end(buffer, 0), 2);
    assert_eq!(find_line_end(buffer, 2), 2);
    assert_eq!(find_line_end(buffer, 3), 6);
    assert_eq!(find_line_end(buffer, 4), 6);
    assert_eq!(find_line_end(buffer, 7), 8);
    assert_eq!(find_line_end(buffer, 9), 12);
    assert_eq!(find_line_end(buffer, 12), 12);
    assert_eq!(find_line_end(b"", 0), 0);
    assert_eq!(find_line_end(b"\r", 0), 1);
    assert_eq!(find_line_end(b"\r\r\n", 0), 1);
    assert_eq!(find_line_end(b"a\nb\rc\n\r", 0), 7);
}

#[test]
fn text_of_reads_utf8() {
    let buffer = "x\u{e9}\u{20ac}y".as_bytes();
    assert_eq!(text_of(buffer, 0, buffer.len()), Some("x\u{e9}\u{20ac}y"));
    assert_eq!(text_of(buffer, 1, 3), Some("\u{e9}"));
    assert_eq!(text_of(buffer, 2, 2), Some(""));
    assert_eq!(text_of(buffer, 1, 2), None);
    assert_eq!(text_of(buffer, 2, 6), None);
    assert_eq!(text_of(b"\xc0\x80", 0, 2), None);
    assert_eq!(text_of(b"\xed\xa0\x80", 0, 3), None);
    assert_eq!(text_of(b"\xf4\x90\x80\x80", 0, 4), None);
    assert_eq!(text_of(b"\xf0\x9f\x98\x80", 0, 4), Some("\u{1f600}"));
}

#[test]
fn write_line_ends_the_line() {
    let mut out = b"x".to_vec();
    write_line(&mut out, "a\u{e9}");
    assert_eq!(out, "xa\u{e9}\r\n".as_bytes());
    write_line(&mut out, "");
    assert_eq!(out, "xa\u{e9}\r\n\r\n".as_bytes());
}
