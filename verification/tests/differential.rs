use ralli::common::SubstringRef;
use ralli::decimal::{decimal_string, parse_u32};
use ralli::precedence::{compare_releases, Precedence};
use ralli::project::escape_colons;
use ralli::text::{cut, split_at_char, split_whitespace};
use ralli::trim::{
    ends_with, same_text, starts_with, trim, trim_end_matches, trim_matches, trim_start,
    trim_start_matches,
};
use ralli::version_text::parse_version;
use std::cmp::Ordering;

/// A small generator of numbers, the same on every run.
struct Numbers(u64);

impl Numbers {
    fn next(&mut self) -> u64 {
        self.0 = self.0.wrapping_mul(6364136223846793005).wrapping_add(1442695040888963407);
        self.0 >> 33
    }

    fn text(&mut self, alphabet: &[char], longest: u64) -> String {
        let length = self.next() % (longest + 1);
        (0..length).map(|_| alphabet[(self.next() % alphabet.len() as u64) as usize]).collect()
    }
}

const ALPHABET: [char; 12] = ['a', 'b', ' ', '\t', '\n', '\u{3000}', ',', ':', '"', '[', 'é', '='];

#[test]
fn cutting_and_splitting_agree_with_the_standard_library() {
    let mut numbers = Numbers(1);
    for _ in 0..2000 {
        let text = numbers.text(&ALPHABET, 12);
        for c in [',', '=', 'é', ' '] {
            let expected = match text.split_once(c) {
                Some((head, tail)) => (head, Some(tail)),
                None => (text.as_str(), None),
            };
            assert_eq!(cut(&text, c), expected, "{:?}", text);
            assert_eq!(split_at_char(&text, c), text.split(c).collect::<Vec<_>>(), "{:?}", text);
        }
        assert_eq!(split_whitespace(&text), text.split_whitespace().collect::<Vec<_>>(), "{:?}", text);
    }
}

#[test]
fn trimming_agrees_with_the_standard_library() {
    let mut numbers = Numbers(2);
    for _ in 0..2000 {
        let text = numbers.text(&ALPHABET, 10);
        assert_eq!(trim(&text), text.trim(), "{:?}", text);
        assert_eq!(trim_start(&text), text.trim_start(), "{:?}", text);
        for c in ['"', '[', ' ', 'é'] {
            assert_eq!(trim_start_matches(&text, c), text.trim_start_matches(c), "{:?}", text);
            assert_eq!(trim_end_matches(&text, c), text.trim_end_matches(c), "{:?}", text);
            assert_eq!(trim_matches(&text, c), text.trim_matches(c), "{:?}", text);
        }
    }
}

#[test]
fn comparing_agrees_with_the_standard_library() {
    let mut numbers = Numbers(3);
    let alphabet = ['a', 'b', 'é'];
    for _ in 0..3000 {
        let text = numbers.text(&alphabet, 6);
        let other = numbers.text(&alphabet, 3);
        assert_eq!(same_text(&text, &other), text == other);
        assert_eq!(starts_with(&text, &other), text.starts_with(&other), "{:?} {:?}", text, other);
        assert_eq!(ends_with(&text, &other), text.ends_with(&other), "{:?} {:?}", text, other);
    }
}

#[test]
fn numbers_agree_with_the_standard_library() {
    let mut numbers = Numbers(4);
    let alphabet = ['0', '1', '4', '9', '+', '-', 'a', ' '];
    for _ in 0..5000 {
        let text = numbers.text(&alphabet, 12);
        assert_eq!(parse_u32(&text), text.parse::<u32>().ok(), "{:?}", text);
        let n = numbers.next() as u32 ^ ((numbers.next() as u32) << 16);
        assert_eq!(decimal_string(n), n.to_string());
        assert_eq!(parse_u32(&decimal_string(n)), Some(n));
    }
}

#[test]
fn escaping_agrees_with_the_standard_library() {
    let mut numbers = Numbers(5);
    for _ in 0..2000 {
        let text = numbers.text(&ALPHABET, 12);
        assert_eq!(escape_colons(&text), text.replace(":", "\\:"), "{:?}", text);
    }
}

/// The part between two patterns as the standard library finds it.
fn found<'a>(source: &'a str, start: &str, end: &str) -> Option<(&'a str, &'a str, &'a str)> {
    let (before, rest) = source.split_at_checked(source.find(start)? + start.len())?;
    let (substring, after) = rest.split_at_checked(rest.find(end)?)?;
    Some((before, substring, after))
}

#[test]
fn finding_agrees_with_the_standard_library() {
    let mut numbers = Numbers(6);
    let alphabet = ['a', 'b', 'é', '\n'];
    for _ in 0..5000 {
        let source = numbers.text(&alphabet, 10);
        let start = numbers.text(&alphabet, 2);
        let end = numbers.text(&alphabet, 2);
        let part = SubstringRef::find(&source, &start, &end);
        assert_eq!(
            part.as_ref().map(|p| (p.before, p.substring, p.after)),
            found(&source, &start, &end),
            "{:?} {:?} {:?}",
            source,
            start,
            end
        );
        if let Some(part) = part {
            assert_eq!(part.replace(part.substring), source);
        }
    }
}

/// The order of two release texts, walked through with the iterators of
/// the standard library.
fn release_order(a: &str, b: &str) -> Ordering {
    let mut left = a.split(".");
    let mut right = b.split(".");
    loop {
        match (left.next(), right.next()) {
            (None, None) => break Ordering::Equal,
            (None, Some(_)) => break Ordering::Less,
            (Some(_), None) => break Ordering::Greater,
            (Some(x), Some(y)) => {
                let m = if x == "" { Ok(0u32) } else { x.parse() };
                let n = if y == "" { Ok(0u32) } else { y.parse() };
                let order = match (m, n) {
                    (Err(_), Err(_)) => x.cmp(y),
                    (Err(_), Ok(_)) => break Ordering::Greater,
                    (Ok(_), Err(_)) => break Ordering::Less,
                    (Ok(m), Ok(n)) => m.cmp(&n),
                };
                if order != Ordering::Equal {
                    break order;
                }
            }
        }
    }
}

#[test]
fn release_order_agrees_with_a_walk_through_the_identifiers() {
    let mut numbers = Numbers(7);
    let alphabet = ['0', '1', '9', 'a', 'B', '.', '+', '-', 'é'];
    for _ in 0..20000 {
        let a = numbers.text(&alphabet, 7);
        let b = numbers.text(&alphabet, 7);
        let expected = match release_order(&a, &b) {
            Ordering::Less => Precedence::Lower,
            Ordering::Equal => Precedence::Same,
            Ordering::Greater => Precedence::Higher,
        };
        assert_eq!(compare_releases(&a, &b), expected, "{:?} {:?}", a, b);
    }
}

#[test]
fn versions_are_read_as_the_standard_library_splits_them() {
    let mut numbers = Numbers(8);
    let alphabet = ['0', '1', '7', '.', '.', '-', '+', 'a'];
    let mut read = 0;
    for _ in 0..20000 {
        let text = numbers.text(&alphabet, 9);
        let (rest, build) = match text.split_once("+") {
            Some((rest, build)) => (rest, Some(build.to_owned())),
            None => (text.as_str(), None),
        };
        let (core, release) = match rest.split_once("-") {
            Some((core, release)) => (core, Some(release.to_owned())),
            None => (rest, None),
        };
        let mut parts = core.splitn(3, ".");
        let major = parts.next().unwrap().parse::<u32>().ok();
        let minor = parts.next().map_or(Some(0), |s| s.parse::<u32>().ok());
        let patch = parts.next().map_or(Some(0), |s| s.parse::<u32>().ok());
        match parse_version(&text) {
            Ok(v) => {
                read += 1;
                assert_eq!((Some(v.major), Some(v.minor), Some(v.patch)), (major, minor, patch), "{:?}", text);
                assert_eq!(v.release, release, "{:?}", text);
                assert_eq!(v.build, build, "{:?}", text);
            }
            Err(_) => assert!(major.is_none() || minor.is_none() || patch.is_none(), "{:?}", text),
        }
    }
    assert!(read > 1000);
}
