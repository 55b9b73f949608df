use voxygen::number::{parse_u64, to_decimal, to_signed_decimal};
use voxygen::text;

#[test]
fn white_space_is_what_unicode_says() {
    let mut white: Vec<u32> = vec![0x20, 0x85, 0xa0, 0x1680, 0x2028, 0x2029, 0x202f, 0x205f, 0x3000];
    white.extend(0x9..=0xd);
    white.extend(0x2000..=0x200a);
    for c in '\0'..=char::MAX {
        assert_eq!(c.is_whitespace(), white.contains(&(c as u32)), "{:?}", c);
    }
    assert_eq!(text::split_words("a\u{3000}b\u{200b}c\u{85}d"), vec!["a", "b\u{200b}c", "d"]);
}

#[test]
fn words_and_pieces() {
    assert_eq!(text::split_words("  a bc  d "), vec!["a", "bc", "d"]);
    assert!(text::split_words(" \t").is_empty());
    assert_eq!(text::split_at_char("a..b.", '.'), vec!["a", "", "b", ""]);
    assert_eq!(text::split_at_char("", '.'), vec![""]);
    assert_eq!(text::split_once("uid@3@4", '@'), Some(("uid".to_string(), "3@4".to_string())));
    assert_eq!(text::split_once("uid", '@'), None);
    assert_eq!(text::join(&text::split_at_char("a..b.", '.'), "."), "a..b.");
    assert_eq!(text::trim_start("@@a@", '@'), "a@");
    assert_eq!(text::strip_prefix("abc", "ab"), Some("c".to_string()));
    assert_eq!(text::strip_prefix("abc", "b"), None);
}

#[test]
fn numbers_are_written_and_read() {
    assert_eq!(to_decimal(0), "0");
    assert_eq!(to_decimal(10), "10");
    assert_eq!(to_decimal(u64::MAX), "18446744073709551615");
    assert_eq!(to_signed_decimal(-7), "-7");
    for s in ["", "+", "0", "007", "+12", "-1", "++1", " 1", "1 ", "1_0", "\u{0661}"] {
        assert_eq!(parse_u64(s), s.parse::<u64>().ok(), "{}", s);
    }
    for s in ["18446744073709551615", "18446744073709551616", "99999999999999999999"] {
        assert_eq!(parse_u64(s), s.parse::<u64>().ok(), "{}", s);
    }
    for n in [0, 9, 10, 99, 100, 1 << 40, u64::MAX] {
        assert_eq!(parse_u64(&to_decimal(n)), Some(n));
    }
}

#[test]
fn a_uid_is_read_back() {
    let written = format!("uid@{}", to_decimal(407));
    let (kind, rest) = text::split_once(&written, '@').unwrap();
    assert_eq!(kind, "uid");
    assert_eq!(parse_u64(&rest), Some(407));
}
