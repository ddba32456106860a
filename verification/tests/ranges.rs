use ralli::error::ParseErrorKind;
use ralli::range_set::simplify_range_set;
use ralli::semantic_version::SemanticVersion;
use ralli::version_range::{format_range, parse_range, SemanticVersionRange};
use ralli::version_text::parse_version;

fn version(text: &str) -> SemanticVersion {
    parse_version(text).unwrap()
}

fn range(text: &str) -> SemanticVersionRange {
    parse_range(text).unwrap()
}

fn texts(ranges: &[SemanticVersionRange]) -> Vec<String> {
    ranges.iter().map(|r| format_range(r)).collect()
}

#[test]
fn contains_follows_the_comparators() {
    let r = range(">=1.2.0 <1.5.9");
    assert!(r.contains(&version("1.3.0")));
    assert!(r.contains(&version("1.2.0")));
    assert!(!r.contains(&version("1.5.9")));
    assert!(!r.contains(&version("1.1.9")));
}

#[test]
fn the_full_range_contains_everything() {
    let r = SemanticVersionRange::default();
    assert!(r.contains(&version("0")));
    assert!(r.contains(&version("4294967295.1.1-x")));
    assert_eq!(format_range(&r), "*");
    assert_eq!(format_range(&range("")), "*");
    assert_eq!(format_range(&range("  \t ")), "*");
}

#[test]
fn operators_give_their_bounds() {
    assert_eq!(format_range(&range(">=1.2.3")), ">=1.2.3");
    assert_eq!(format_range(&range("<1.2.3")), "<1.2.3");
    assert_eq!(format_range(&range(">1.2.3-a")), ">=1.2.3-a.");
    assert_eq!(format_range(&range("<=1.2.3-a")), "<1.2.3-a.");
    assert_eq!(format_range(&range("=1.2.3-a")), ">=1.2.3-a <1.2.3-a.");
    assert_eq!(format_range(&range("1.2.3-a")), ">=1.2.3-a <1.2.3-a.");
    assert_eq!(format_range(&range("^1.2.3")), ">=1- <2-");
    assert_eq!(format_range(&range("~1.2.3")), ">=1.2- <1.3-");
    assert_eq!(format_range(&range("~1")), ">=1- <1.1-");
}

#[test]
fn an_exact_comparator_holds_its_version_only() {
    let r = range("=1.2.3-rc");
    assert!(r.contains(&version("1.2.3-rc")));
    assert!(r.contains(&version("1.2.3-rc+build")));
    assert!(!r.contains(&version("1.2.3-rc.1")));
    assert!(!r.contains(&version("1.2.3-rb")));
    assert!(!r.contains(&version("1.2.3")));
}

#[test]
fn caret_and_tilde_hold_their_pre_releases() {
    let r = range("^1");
    assert!(r.contains(&version("1.0.0-alpha")));
    assert!(r.contains(&version("1.9.9")));
    assert!(!r.contains(&version("2.0.0-alpha")));
    assert!(!r.contains(&version("0.9.9")));
    let r = range("~1.4");
    assert!(r.contains(&version("1.4.0-alpha")));
    assert!(r.contains(&version("1.4.7")));
    assert!(!r.contains(&version("1.5.0-alpha")));
    assert!(!r.contains(&version("1.3.9")));
}

#[test]
fn wildcards_stand_for_caret_and_tilde() {
    for (wild, plain) in [("1.x", "^1"), ("1.X", "^1"), ("1.*", "^1"), ("1.2.x", "~1.2"), ("1.2.X", "~1.2"), ("1.2.*", "~1.2"), ("1.x.x", "^1"), ("1.x.5", "^1"), (">=1.x", "^1"), ("<1.2.x", "~1.2"), ("^1.2.x", "^1")] {
        let (a, b) = (range(wild), range(plain));
        assert_eq!(a.start, b.start);
        assert_eq!(a.end, b.end);
        assert_eq!(format_range(&a), format_range(&b));
    }
}

#[test]
fn the_most_restrictive_bounds_win() {
    assert_eq!(format_range(&range(">=1.0 >=1.2 <2.0 <1.8")), ">=1.2 <1.8");
    assert_eq!(format_range(&range(">=1.2 >=1.0 <1.8 <2.0")), ">=1.2 <1.8");
    assert_eq!(format_range(&range("^1 >=1.4")), ">=1.4 <2-");
    assert_eq!(format_range(&range("\u{3000}>=1.0\n<2.0\u{a0}")), ">=1 <2");
}

#[test]
fn level_bounds_keep_the_first() {
    let r = range(">=1.0.0-1+a >=1.0.0-01+b");
    assert_eq!(r.start.unwrap().build, Some("a".to_string()));
}

#[test]
fn malformed_ranges_are_rejected() {
    let e = parse_range("abc").unwrap_err();
    assert_eq!(e.kind, ParseErrorKind::InvalidNumber);
    assert_eq!(e.text, "abc");
    let e = parse_range(">=1.a.0").unwrap_err();
    assert_eq!(e.kind, ParseErrorKind::InvalidNumber);
    assert_eq!(e.text, "a");
    let e = parse_range(">=").unwrap_err();
    assert_eq!(e.kind, ParseErrorKind::MissingMajor);
    let e = parse_range("*").unwrap_err();
    assert_eq!(e.kind, ParseErrorKind::InvalidNumber);
    assert_eq!(e.text, "*");
    let e = parse_range(">=1.0 <x").unwrap_err();
    assert_eq!(e.text, "x");
    let e = parse_range(">=1.0 =>2").unwrap_err();
    assert_eq!(e.text, ">2");
    let e = parse_range("1.x.y").unwrap_err();
    assert_eq!(e.text, "y");
    assert!("".parse::<SemanticVersion>().is_err());
}

#[test]
fn a_caret_on_the_last_number_is_rejected() {
    let e = parse_range("^4294967295").unwrap_err();
    assert_eq!(e.kind, ParseErrorKind::MalformedComparator);
    assert_eq!(e.text, "4294967295");
    let e = parse_range("4294967295.x").unwrap_err();
    assert_eq!(e.kind, ParseErrorKind::MalformedComparator);
    assert_eq!(e.text, "4294967295");
    let e = parse_range("~1.4294967295").unwrap_err();
    assert_eq!(e.kind, ParseErrorKind::MalformedComparator);
    assert_eq!(e.text, "4294967295");
    assert_eq!(e.message(), "version number too large for a range: 4294967295");
    assert_eq!(format_range(&range("^4294967294")), ">=4294967294- <4294967295-");
}

#[test]
fn ranges_are_written_as_comparators() {
    assert_eq!(range(">=1.2.0 <1.5.9").to_string(), ">=1.2 <1.5.9");
    assert_eq!(range("<1.5.9").to_string(), "<1.5.9");
    assert_eq!(range(">=0.1").to_string(), ">=0.1");
}

#[test]
fn simplifying_nothing_gives_nothing() {
    assert!(simplify_range_set(vec![]).is_empty());
}

#[test]
fn simplifying_one_range_gives_it_back() {
    for text in [">=1.0 <2.0", "<3", ">=2", "", ">=1.6.0 <1.5.9"] {
        let out = simplify_range_set(vec![range(text)]);
        assert_eq!(texts(&out), vec![format_range(&range(text))]);
    }
}

#[test]
fn touching_ranges_merge_and_an_empty_one_stands_apart() {
    let out = simplify_range_set(vec![range(">=1.0 <1.2.0"), range(">=1.2.0 <1.5.9"), range(">=1.6.0 <1.5.9")]);
    assert_eq!(texts(&out), vec![">=1 <1.5.9", ">=1.6 <1.5.9"]);
}

#[test]
fn ranges_are_ordered_before_merging() {
    let out = simplify_range_set(vec![range(">=3 <4"), range(">=1 <2"), range(">=1.5 <2.5"), range(">=5")]);
    assert_eq!(texts(&out), vec![">=1 <2.5", ">=3 <4", ">=5"]);
}

#[test]
fn merging_keeps_the_later_end() {
    let out = simplify_range_set(vec![range(">=1 <5"), range(">=2 <3")]);
    assert_eq!(texts(&out), vec![">=1 <5"]);
    let out = simplify_range_set(vec![range(">=1 <5"), range(">=2 <3"), range(">=4 <6")]);
    assert_eq!(texts(&out), vec![">=1 <6"]);
}

#[test]
fn absent_bounds_reach_to_the_ends() {
    let out = simplify_range_set(vec![range(">=7 <8"), range(">=2"), range(">=1 <2")]);
    assert_eq!(texts(&out), vec![">=1"]);
    let out = simplify_range_set(vec![range(">=7 <8"), range("<3"), range(">=1 <2")]);
    assert_eq!(texts(&out), vec!["<3", ">=7 <8"]);
    let out = simplify_range_set(vec![range(">=7 <8"), range("<3"), range("")]);
    assert_eq!(texts(&out), vec!["*"]);
}

#[test]
fn simplifying_twice_changes_nothing() {
    let sets = [
        vec![">=3 <4", ">=1 <2", ">=1.5 <2.5", ">=5"],
        vec![">=1.0 <1.2.0", ">=1.2.0 <1.5.9", ">=1.6.0 <1.5.9"],
        vec![">=5 <1", ">=5 <9", ">=5 <2"],
        vec!["<1", ">=1", ">=0.5 <0.7"],
    ];
    for set in sets {
        let once = simplify_range_set(set.iter().map(|t| range(t)).collect());
        let twice = simplify_range_set(once.clone());
        assert_eq!(texts(&once), texts(&twice));
    }
}

#[test]
fn simplifying_keeps_the_versions_held() {
    let set = [">=3 <4", ">=1 <2", ">=1.5 <2.5", ">=5 <1", ">=2.5 <2.7-rc"];
    let out = simplify_range_set(set.iter().map(|t| range(t)).collect());
    for text in ["0.9", "1", "1.7", "2", "2.4.9", "2.5", "2.6", "2.7-rc", "2.7", "3", "3.9", "4", "5", "6"] {
        let v = version(text);
        let held = set.iter().any(|t| range(t).contains(&v));
        assert_eq!(out.iter().any(|r| r.contains(&v)), held, "{}", text);
        assert!(out.iter().filter(|r| r.contains(&v)).count() <= 1, "{}", text);
    }
}

#[test]
fn a_simplified_set_is_ordered_and_its_ranges_stand_apart() {
    let set = [">=3 <4", ">=1 <2", ">=1.5 <2.5", ">=5 <1", ">=2.5 <2.7-rc", ">=5 <6", ">=9"];
    let out = simplify_range_set(set.iter().map(|t| range(t)).collect());
    assert_eq!(texts(&out), vec![">=1 <2.7-rc", ">=3 <4", ">=5 <1", ">=5 <6", ">=9"]);
    for pair in out.windows(2) {
        assert!(pair[0].start <= pair[1].start);
        assert!(pair[1].start.as_ref().unwrap() > pair[0].end.as_ref().unwrap());
    }
}

#[test]
fn an_exact_comparator_on_a_release_holds_nothing() {
    let r = range("=1.2.3");
    assert_eq!(format_range(&r), ">=1.2.3 <1.2.3-");
    for text in ["1.2.3", "1.2.3-", "1.2.3-rc", "1.2.2", "1.2.4"] {
        assert!(!r.contains(&version(text)), "{}", text);
    }
}

#[test]
fn the_bound_after_a_release_is_its_lowest_pre_release() {
    let above = range(">1.2.3");
    assert!(above.contains(&version("1.2.3")));
    assert!(above.contains(&version("1.2.3-rc")));
    assert!(!above.contains(&version("1.2.2")));
    let up_to = range("<=1.2.3");
    assert!(!up_to.contains(&version("1.2.3")));
    assert!(!up_to.contains(&version("1.2.3-rc")));
    assert!(up_to.contains(&version("1.2.2")));
}

#[test]
fn the_bound_after_a_pre_release_leaves_out_what_is_level_with_it() {
    let above = range(">1.2.3-rc");
    assert!(!above.contains(&version("1.2.3-rc")));
    assert!(above.contains(&version("1.2.3-rc.0")));
    assert!(above.contains(&version("1.2.3-rc.1")));
    assert!(above.contains(&version("1.2.3-rd")));
    let up_to = range("<=1.2.3-rc");
    assert!(up_to.contains(&version("1.2.3-rc")));
    assert!(up_to.contains(&version("1.2.3-rb.9")));
    assert!(!up_to.contains(&version("1.2.3-rc.0")));
}

#[test]
fn a_range_holds_what_all_its_comparators_hold() {
    let parts = [">=1.2", "<3", "^2", ">2.1-rc", "<=2.8-beta"];
    let whole = range(&parts.join(" "));
    for text in ["1.2", "2", "2.0.0-", "2.1-rb", "2.1-rc", "2.1-rc.1", "2.1", "2.8-alpha", "2.8-beta", "2.8-beta.1", "2.8", "2.9", "3", "3.0.0-"] {
        let v = version(text);
        assert_eq!(whole.contains(&v), parts.iter().all(|p| range(p).contains(&v)), "{}", text);
    }
}

#[test]
fn narrowing_takes_the_tighter_bound_on_each_side() {
    let mut r = range(">=1 <5");
    r.narrow(range(">=2 <9"));
    assert_eq!(format_range(&r), ">=2 <5");
    r.narrow(range("<3"));
    assert_eq!(format_range(&r), ">=2 <3");
    r.narrow(range(""));
    assert_eq!(format_range(&r), ">=2 <3");
    r.narrow(range(">=1"));
    assert_eq!(format_range(&r), ">=2 <3");
}
