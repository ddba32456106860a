use ralli::decimal::{decimal_string, parse_u32};
use ralli::text::{cut, is_whitespace, split_at_char, split_whitespace, to_chars};
use ralli::trim::{
    ends_with, same_text, starts_with, trim, trim_end_matches, trim_matches, trim_start,
    trim_start_matches,
};

#[test]
fn characters_come_in_order() {
    assert_eq!(to_chars("aé€"), vec!['a', 'é', '€']);
    assert!(to_chars("").is_empty());
}

#[test]
fn cut_divides_at_the_first_occurrence() {
    assert_eq!(cut("a=b=c", '='), ("a", Some("b=c")));
    assert_eq!(cut("=b", '='), ("", Some("b")));
    assert_eq!(cut("a=", '='), ("a", Some("")));
    assert_eq!(cut("abc", '='), ("abc", None));
    assert_eq!(cut("", '='), ("", None));
    assert_eq!(cut("é=ü", '='), ("é", Some("ü")));
}

#[test]
fn split_gives_every_piece() {
    assert_eq!(split_at_char("a,b,,c", ','), vec!["a", "b", "", "c"]);
    assert_eq!(split_at_char("", ','), vec![""]);
    assert_eq!(split_at_char(",", ','), vec!["", ""]);
    assert_eq!(split_at_char("abc", ','), vec!["abc"]);
    assert_eq!(split_at_char("a\nb\n", '\n'), vec!["a", "b", ""]);
}

#[test]
fn white_space_is_what_unicode_says() {
    for c in [' ', '\t', '\n', '\u{b}', '\u{c}', '\r', '\u{85}', '\u{a0}', '\u{1680}', '\u{2000}', '\u{200a}', '\u{2028}', '\u{2029}', '\u{202f}', '\u{205f}', '\u{3000}'] {
        assert!(is_whitespace(c), "{:?}", c);
    }
    for c in ['a', '0', '\u{8}', '\u{e}', '\u{200b}', '\u{feff}', '\u{180e}', '_'] {
        assert!(!is_whitespace(c), "{:?}", c);
    }
}

#[test]
fn white_space_agrees_with_the_standard_library() {
    for code in 0u32..0x3100 {
        if let Some(c) = char::from_u32(code) {
            assert_eq!(is_whitespace(c), c.is_whitespace(), "{:x}", code);
        }
    }
}

#[test]
fn words_are_runs_without_white_space() {
    assert_eq!(split_whitespace("  a  bc\td \n"), vec!["a", "bc", "d"]);
    assert!(split_whitespace("").is_empty());
    assert!(split_whitespace(" \t ").is_empty());
    assert_eq!(split_whitespace("one"), vec!["one"]);
    assert_eq!(split_whitespace("a\u{3000}b"), vec!["a", "b"]);
}

#[test]
fn numbers_are_read_as_the_standard_library_reads_them() {
    for text in ["0", "7", "007", "+7", "4294967295", "4294967296", "", "+", "-", "-1", "++1", "1+", " 1", "1 ", "1a", "a", "٣", "99999999999999999999", "0000000000000000000000004294967295"] {
        assert_eq!(parse_u32(text), text.parse::<u32>().ok(), "{:?}", text);
    }
}

#[test]
fn numbers_are_written_without_leading_zeros() {
    for n in [0u32, 1, 9, 10, 11, 99, 100, 101, 4294967295, 1000000000, 123456789] {
        assert_eq!(decimal_string(n), n.to_string());
    }
}

#[test]
fn trim_takes_white_space_off_the_ends() {
    assert_eq!(trim("  a b \n"), "a b");
    assert_eq!(trim("a"), "a");
    assert_eq!(trim(" \t "), "");
    assert_eq!(trim(""), "");
    assert_eq!(trim_start("  a "), "a ");
    assert_eq!(trim_start("   "), "");
}

#[test]
fn trim_matches_takes_every_such_character_off() {
    assert_eq!(trim_start_matches("[[a[", '['), "a[");
    assert_eq!(trim_end_matches("]a]]", ']'), "]a");
    assert_eq!(trim_matches("\"\"a\"b\"", '"'), "a\"b");
    assert_eq!(trim_matches("\"\"\"", '"'), "");
    assert_eq!(trim_matches("", '"'), "");
    assert_eq!(trim_start_matches("a", '['), "a");
}

#[test]
fn texts_are_compared_by_their_characters() {
    assert!(same_text("abc", "abc"));
    assert!(same_text("", ""));
    assert!(!same_text("abc", "abd"));
    assert!(!same_text("abc", "ab"));
    assert!(starts_with("abc", "ab"));
    assert!(starts_with("abc", ""));
    assert!(starts_with("abc", "abc"));
    assert!(!starts_with("abc", "abcd"));
    assert!(!starts_with("abc", "b"));
    assert!(ends_with("abc", "bc"));
    assert!(ends_with("abc", ""));
    assert!(ends_with("line\r", "\r"));
    assert!(!ends_with("abc", "ab"));
    assert!(!ends_with("c", "bc"));
}
