use ralli::error::ParseErrorKind;
use ralli::precedence::Precedence;
use ralli::semantic_version::SemanticVersion;
use ralli::version_text::{format_version, parse_version};

fn version(text: &str) -> SemanticVersion {
    parse_version(text).unwrap()
}

#[test]
fn parses_all_fields() {
    let v = version("1.2.3-rc.1+build.5");
    assert_eq!(v.major, 1);
    assert_eq!(v.minor, 2);
    assert_eq!(v.patch, 3);
    assert_eq!(v.release, Some("rc.1".to_string()));
    assert_eq!(v.build, Some("build.5".to_string()));
}

#[test]
fn missing_minor_and_patch_are_zero() {
    let v = version("7");
    assert_eq!((v.major, v.minor, v.patch), (7, 0, 0));
    assert_eq!(v.release, None);
    assert_eq!(v.build, None);
    let v = version("7.4");
    assert_eq!((v.major, v.minor, v.patch), (7, 4, 0));
}

#[test]
fn build_is_cut_before_release() {
    let v = version("1.0.0+a-b");
    assert_eq!(v.release, None);
    assert_eq!(v.build, Some("a-b".to_string()));
    let v = version("1.0.0-a-b+c+d");
    assert_eq!(v.release, Some("a-b".to_string()));
    assert_eq!(v.build, Some("c+d".to_string()));
}

#[test]
fn empty_release_and_build_are_kept() {
    let v = version("1.0.0-");
    assert_eq!(v.release, Some(String::new()));
    let v = version("1.0.0+");
    assert_eq!(v.build, Some(String::new()));
}

#[test]
fn leading_zeros_are_read() {
    let v = version("007.05.00");
    assert_eq!((v.major, v.minor, v.patch), (7, 5, 0));
    assert_eq!(v.build, None);
}

#[test]
fn a_plus_sign_begins_the_build() {
    let e = parse_version("7.+5.0").unwrap_err();
    assert_eq!(e.kind, ParseErrorKind::InvalidNumber);
    assert_eq!(e.text, "");
}

#[test]
fn an_identifier_with_a_plus_sign_is_a_number() {
    let signed = SemanticVersion { major: 1, minor: 0, patch: 0, release: Some("+5".to_string()), build: None };
    assert_eq!(signed.compare(&version("1.0.0-5")), Precedence::Same);
    assert_eq!(signed.compare(&version("1.0.0-6")), Precedence::Lower);
    let sign_only = SemanticVersion { major: 1, minor: 0, patch: 0, release: Some("+".to_string()), build: None };
    assert_eq!(sign_only.compare(&version("1.0.0-6")), Precedence::Higher);
}

#[test]
fn a_fourth_number_is_rejected() {
    let e = parse_version("1.2.3.4").unwrap_err();
    assert_eq!(e.kind, ParseErrorKind::InvalidNumber);
    assert_eq!(e.text, "3.4");
}

#[test]
fn malformed_versions_are_rejected() {
    let e = parse_version("abc").unwrap_err();
    assert_eq!(e.kind, ParseErrorKind::InvalidNumber);
    assert_eq!(e.text, "abc");
    let e = parse_version("").unwrap_err();
    assert_eq!(e.kind, ParseErrorKind::MissingMajor);
    assert_eq!(e.text, "");
    let e = parse_version("-alpha").unwrap_err();
    assert_eq!(e.kind, ParseErrorKind::MissingMajor);
    assert_eq!(e.text, "-alpha");
    let e = parse_version("1.a.0").unwrap_err();
    assert_eq!(e.kind, ParseErrorKind::InvalidNumber);
    assert_eq!(e.text, "a");
    let e = parse_version("1.").unwrap_err();
    assert_eq!(e.kind, ParseErrorKind::InvalidNumber);
    assert_eq!(e.text, "");
    let e = parse_version("1.2.-1").unwrap_err();
    assert_eq!(e.kind, ParseErrorKind::InvalidNumber);
    assert_eq!(e.text, "");
    let e = parse_version("+").unwrap_err();
    assert_eq!(e.kind, ParseErrorKind::MissingMajor);
}

#[test]
fn numbers_beyond_32_bits_are_rejected() {
    assert_eq!(version("4294967295").major, 4294967295);
    let e = parse_version("4294967296").unwrap_err();
    assert_eq!(e.kind, ParseErrorKind::InvalidNumber);
    assert_eq!(e.text, "4294967296");
    let e = parse_version("1.99999999999999999999").unwrap_err();
    assert_eq!(e.text, "99999999999999999999");
    assert_eq!(version("00000000000000000000001").major, 1);
}

#[test]
fn error_message_names_the_text() {
    let e = parse_version("1.a.0").unwrap_err();
    assert_eq!(e.message(), "not a version number: a");
    let e = parse_version(".1").unwrap_err();
    assert_eq!(e.message(), "no major version in: .1");
}

#[test]
fn formatting_leaves_out_trailing_zeros() {
    assert_eq!(format_version(&version("1.0.0")), "1");
    assert_eq!(format_version(&version("1.2.0")), "1.2");
    assert_eq!(format_version(&version("1.0.3")), "1.0.3");
    assert_eq!(format_version(&version("1.2.3")), "1.2.3");
    assert_eq!(format_version(&version("0")), "0");
    assert_eq!(format_version(&version("10.20.30")), "10.20.30");
    assert_eq!(format_version(&version("4294967295.0.4294967295")), "4294967295.0.4294967295");
}

#[test]
fn formatting_appends_release_and_build() {
    assert_eq!(format_version(&version("1.0.0-alpha")), "1-alpha");
    assert_eq!(format_version(&version("1.0.0+b7")), "1+b7");
    assert_eq!(format_version(&version("1.2.3-rc.1+b7")), "1.2.3-rc.1+b7");
    assert_eq!(format_version(&version("1.0.0-")), "1-");
    assert_eq!(version("1.2.3-rc.1+b7").to_string(), "1.2.3-rc.1+b7");
}

#[test]
fn parsing_a_formatted_version_gives_it_back() {
    for text in ["1", "1.2", "1.0.3", "0.0.0", "3.4.5-beta.2", "3.4.5-a-b+c+d", "9.0.0+x", "2.0.0-"] {
        let v = version(text);
        let again = version(&format_version(&v));
        assert_eq!(again, v);
        assert_eq!(again.build, v.build);
    }
}

#[test]
fn a_release_with_a_plus_does_not_come_back() {
    let v = SemanticVersion { major: 1, minor: 0, patch: 0, release: Some("a+b".to_string()), build: None };
    let again = version(&format_version(&v));
    assert_eq!(again.release, Some("a".to_string()));
    assert_eq!(again.build, Some("b".to_string()));
    assert!(again != v);
}

#[test]
fn equality_ignores_the_build() {
    assert_eq!(version("1.2.3+a"), version("1.2.3+b"));
    assert_eq!(version("1.2.3-rc+a"), version("1.2.3-rc"));
    assert!(version("1.2.3-rc") != version("1.2.3"));
    assert!(version("1.2.3-rc") != version("1.2.3-rc.0"));
    assert!(version("1.2.3") != version("1.2.4"));
}

#[test]
fn order_ignores_the_build() {
    assert_eq!(version("1.2.3+a").compare(&version("1.2.3+b")), Precedence::Same);
    assert!(version("1.2.3+z") < version("1.2.4+a"));
}

#[test]
fn numbers_decide_before_releases() {
    assert_eq!(version("1.2.3").compare(&version("1.2.4-alpha")), Precedence::Lower);
    assert_eq!(version("1.3.0-alpha").compare(&version("1.2.9")), Precedence::Higher);
    assert_eq!(version("2.0.0-alpha").compare(&version("1.9.9")), Precedence::Higher);
    assert_eq!(version("1.10.0").compare(&version("1.9.0")), Precedence::Higher);
}

#[test]
fn a_release_is_higher_than_its_pre_releases() {
    assert_eq!(version("1.0.0").compare(&version("1.0.0-rc.1")), Precedence::Higher);
    assert_eq!(version("1.0.0-rc.1").compare(&version("1.0.0")), Precedence::Lower);
    assert_eq!(version("1.0.0").compare(&version("1.0.0-")), Precedence::Higher);
    assert_eq!(version("1.0.0").compare(&version("1.0.0")), Precedence::Same);
}

#[test]
fn identifiers_compare_by_number_then_by_text() {
    assert_eq!(version("1.0.0-2").compare(&version("1.0.0-11")), Precedence::Lower);
    assert_eq!(version("1.0.0-11").compare(&version("1.0.0-a")), Precedence::Lower);
    assert_eq!(version("1.0.0-a").compare(&version("1.0.0-11")), Precedence::Higher);
    assert_eq!(version("1.0.0-a").compare(&version("1.0.0-b")), Precedence::Lower);
    assert_eq!(version("1.0.0-B").compare(&version("1.0.0-a")), Precedence::Lower);
    assert_eq!(version("1.0.0-ab").compare(&version("1.0.0-a")), Precedence::Higher);
    assert_eq!(version("1.0.0-01").compare(&version("1.0.0-1")), Precedence::Same);
    assert_eq!(version("1.0.0-x.7.z").compare(&version("1.0.0-x.7.z")), Precedence::Same);
}

#[test]
fn an_empty_identifier_counts_as_zero() {
    assert_eq!(version("1.0.0-").compare(&version("1.0.0-0")), Precedence::Same);
    assert_eq!(version("1.0.0-a.").compare(&version("1.0.0-a.0")), Precedence::Same);
    assert_eq!(version("1.0.0-").compare(&version("1.0.0-1")), Precedence::Lower);
    assert_eq!(version("1.0.0-").compare(&version("1.0.0-a")), Precedence::Lower);
}

#[test]
fn an_identifier_too_large_for_a_number_is_text() {
    assert_eq!(version("1.0.0-99999999999").compare(&version("1.0.0-5")), Precedence::Higher);
    assert_eq!(version("1.0.0-99999999999").compare(&version("1.0.0-a")), Precedence::Lower);
}

#[test]
fn a_shorter_release_is_lower() {
    assert_eq!(version("1.0.0-alpha").compare(&version("1.0.0-alpha.1")), Precedence::Lower);
    assert_eq!(version("1.0.0-alpha.1.2").compare(&version("1.0.0-alpha.1")), Precedence::Higher);
}

#[test]
fn next_version_appends_an_empty_identifier() {
    let v = version("1.2.3-rc").next_version();
    assert_eq!(v.release, Some("rc.".to_string()));
    assert_eq!((v.major, v.minor, v.patch), (1, 2, 3));
    let v = version("1.2.3+b").next_version();
    assert_eq!(v.release, Some(String::new()));
    assert_eq!(v.build, Some("b".to_string()));
}

#[test]
fn next_version_is_higher_for_a_pre_release_and_lower_for_a_release() {
    let v = version("1.2.3-rc");
    assert!(v < v.clone().next_version());
    let v = version("1.2.3");
    assert!(v.clone().next_version() < v);
}

#[test]
fn matches_numbers_looks_at_numbers_only() {
    assert!(version("1.2.3-a+b").matches_numbers(&version("1.2.3")));
    assert!(!version("1.2.3").matches_numbers(&version("1.2.4")));
    assert!(!version("1.2.3").matches_numbers(&version("1.3.3")));
    assert!(!version("1.2.3").matches_numbers(&version("2.2.3")));
}

#[test]
fn order_is_transitive_on_a_sample() {
    let texts = ["1.0.0-", "1.0.0-0", "1.0.0-1", "1.0.0-a", "1.0.0-a.b", "1.0.0", "1.0.1-x", "0.9.0", "1.0.0-99999999999"];
    for a in texts {
        for b in texts {
            for c in texts {
                let (a, b, c) = (version(a), version(b), version(c));
                if a.compare(&b) != Precedence::Higher && b.compare(&c) != Precedence::Higher {
                    assert!(a.compare(&c) != Precedence::Higher);
                }
            }
        }
    }
}

#[test]
fn default_version_is_zero() {
    let v = SemanticVersion::default();
    assert_eq!((v.major, v.minor, v.patch), (0, 0, 0));
    assert_eq!(v.release, None);
    assert_eq!(v.build, None);
}
