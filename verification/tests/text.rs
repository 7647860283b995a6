//! Words, numbers, names.

use pgdog_quota::text::{
    chars_of, eq_ignore_ascii_case, is_before, is_white_space, join, parse_u64, push_decimal,
    quote_ident, same_text, split_words, ParseIntError,
};

#[test]
fn white_space_is_that_of_unicode() {
    for code in 0..=0x10ffffu32 {
        if let Some(c) = char::from_u32(code) {
            assert_eq!(is_white_space(c), c.is_whitespace(), "{:x}", code);
        }
    }
}

#[test]
fn words_are_those_of_std() {
    for s in ["", " ", "a", " a", "a ", "a b", "  ab \t c\nd\u{2003}e  ", "\u{e9}\u{a0}\u{e8}"] {
        let expected: Vec<&str> = s.split_whitespace().collect();
        assert_eq!(split_words(s), expected, "{:?}", s);
    }
}

#[test]
fn words_of_joined_words() {
    let list = vec!["set".to_string(), "quota".to_string(), "d\u{f6}".to_string()];
    assert_eq!(split_words(&join(&list, " ")), list);
}

#[test]
fn numbers_are_read_as_by_std() {
    for s in [
        "0",
        "+0",
        "007",
        "42",
        "+42",
        "18446744073709551615",
        "000018446744073709551615",
    ] {
        assert_eq!(parse_u64(s), Ok(s.parse::<u64>().unwrap()), "{:?}", s);
    }
    for s in ["+", "-", "-0", "-1", "++1", "1+", " 1", "1 ", "1a", "a1", "\u{663}", "99999999999999999999"] {
        assert!(parse_u64(s).is_err(), "{:?}", s);
        assert!(s.parse::<u64>().is_err(), "{:?}", s);
    }
    assert_eq!(parse_u64(""), Err(ParseIntError::Empty));
    assert_eq!(parse_u64("+"), Err(ParseIntError::InvalidDigit));
    assert_eq!(parse_u64("-1"), Err(ParseIntError::InvalidDigit));
    assert_eq!(parse_u64("18446744073709551616"), Err(ParseIntError::PosOverflow));
    // The leftmost fault counts.
    assert_eq!(parse_u64("99999999999999999999x"), Err(ParseIntError::PosOverflow));
    assert_eq!(parse_u64("x99999999999999999999"), Err(ParseIntError::InvalidDigit));
}

#[test]
fn digits_read_back() {
    for n in [0, 1, 9, 10, 99, 100, 1_234_567_890, u64::MAX - 1, u64::MAX] {
        let mut s = String::new();
        push_decimal(&mut s, n);
        assert_eq!(s, n.to_string());
        assert_eq!(parse_u64(&s), Ok(n));
    }
    let mut s = "n=".to_string();
    push_decimal(&mut s, 1024);
    assert_eq!(s, "n=1024");
}

#[test]
fn names_are_compared_as_by_std() {
    let names = ["", "a", "A", "ab", "aB", "\u{e9}", "\u{c9}", "@", "`", "[", "{", "z", "Z", "ba"];
    for a in names {
        for b in names {
            assert_eq!(eq_ignore_ascii_case(a, b), a.eq_ignore_ascii_case(b), "{:?} {:?}", a, b);
            assert_eq!(is_before(a, b), a < b, "{:?} {:?}", a, b);
            assert_eq!(same_text(a, b), a == b, "{:?} {:?}", a, b);
        }
    }
}

#[test]
fn order_is_total_on_samples() {
    let names = ["alice", "ali", "bob", "Bob", ""];
    for a in names {
        assert!(!is_before(a, a));
        for b in names {
            assert_eq!(a != b, is_before(a, b) || is_before(b, a));
        }
    }
}

#[test]
fn lists_are_joined() {
    assert_eq!(join(&vec![], ", "), "");
    assert_eq!(join(&vec!["a".to_string()], ", "), "a");
    assert_eq!(
        join(&vec!["a".to_string(), String::new(), "c".to_string()], ", "),
        "a, , c"
    );
}

#[test]
fn identifiers_are_quoted() {
    assert_eq!(quote_ident("tenant_a"), "\"tenant_a\"");
    assert_eq!(quote_ident(""), "\"\"");
    assert_eq!(quote_ident("a\"b"), "\"a\"\"b\"");
    assert_eq!(quote_ident("\"; DROP TABLE t; --"), "\"\"\"; DROP TABLE t; --\"");
}

#[test]
fn characters_are_listed() {
    assert_eq!(chars_of("a\u{1f600}b"), vec!['a', '\u{1f600}', 'b']);
}
