use ralli::error::ParseErrorKind;
use ralli::project_error::ProjectError;
use ralli::properties::{current_ranges, find_property, listed_ranges, parse_range_list, set_property};
use ralli::version_range::{format_range, SemanticVersionRange};

const PROPERTIES: &str = "# head\nminecraft_version=1.20.1\nminecraft_compatible_range=[\">=1.20 <1.20.2\", \">=1.19 <1.19.3\"]\njava_version=17\n";

fn texts(ranges: &[SemanticVersionRange]) -> Vec<String> {
    ranges.iter().map(|r| format_range(r)).collect()
}

#[test]
fn a_property_is_found_by_its_name() {
    let part = find_property(PROPERTIES, "minecraft_version").unwrap();
    assert_eq!(part.before, "# head\nminecraft_version=");
    assert_eq!(part.substring, "1.20.1");
    assert!(part.after.starts_with("\nminecraft_compatible_range="));
    let part = find_property(PROPERTIES, "java_version").unwrap();
    assert_eq!(part.substring, "17");
    assert_eq!(part.after, "\n");
}

#[test]
fn a_property_needs_a_line_break_on_either_side() {
    assert_eq!(find_property("a=1\nb=2\n", "a").err(), Some(ProjectError::MissingProperty("a".to_string())));
    assert_eq!(find_property("a=1\nb=2", "b").err(), Some(ProjectError::MissingProperty("b".to_string())));
    assert_eq!(find_property("a=1\nb=2\n", "b").unwrap().substring, "2");
    assert_eq!(find_property("a=1\nxb=2\n", "b").err(), Some(ProjectError::MissingProperty("b".to_string())));
}

#[test]
fn a_missing_property_is_named_in_the_message() {
    let e = find_property(PROPERTIES, "loom_version").err().unwrap();
    assert_eq!(e.message(), "No property 'loom_version' found in gradle properties.");
}

#[test]
fn a_property_gets_a_new_value() {
    assert_eq!(set_property("x\na=1\nb=2\n", "a", "10").unwrap(), "x\na=10\nb=2\n");
    assert_eq!(set_property("x\na=1\nb=2\n", "b", "").unwrap(), "x\na=1\nb=\n");
    assert_eq!(set_property("x\na=1\n", "c", "3").err(), Some(ProjectError::MissingProperty("c".to_string())));
}

#[test]
fn a_list_of_ranges_is_read() {
    let ranges = parse_range_list(" [\">=1.20 <1.20.2\", \">=1.19 <1.19.3\"] ").unwrap();
    assert_eq!(texts(&ranges), vec![">=1.20 <1.20.2", ">=1.19 <1.19.3"]);
    assert!(parse_range_list("[]").unwrap().is_empty());
    assert!(parse_range_list("").unwrap().is_empty());
    assert_eq!(texts(&parse_range_list("[\"^1\",,\"~2.3\"]").unwrap()), vec![">=1- <2-", ">=2.3- <2.4-"]);
    assert_eq!(texts(&parse_range_list("[[ \"\"^1\"\" ]]").unwrap()), vec![">=1- <2-"]);
    assert_eq!(texts(&parse_range_list("\"<2\"").unwrap()), vec!["<2"]);
}

#[test]
fn a_piece_of_white_space_is_the_range_of_all_versions() {
    assert_eq!(texts(&parse_range_list("[\"^1\", ]").unwrap()), vec![">=1- <2-", "*"]);
    assert_eq!(texts(&parse_range_list("[ ]").unwrap()), vec!["*"]);
}

#[test]
fn the_first_faulty_range_is_the_error() {
    let e = parse_range_list("[\"^1\", \"x\", \"y\"]").unwrap_err();
    assert_eq!(e.kind, ParseErrorKind::InvalidNumber);
    assert_eq!(e.text, "x");
}

#[test]
fn listed_ranges_come_as_they_stand() {
    assert_eq!(texts(&listed_ranges(PROPERTIES).unwrap()), vec![">=1.20 <1.20.2", ">=1.19 <1.19.3"]);
}

#[test]
fn current_ranges_are_simplified() {
    assert_eq!(texts(&current_ranges(PROPERTIES).unwrap()), vec![">=1.19 <1.19.3", ">=1.20 <1.20.2"]);
    let touching = "\nminecraft_compatible_range=[\">=1.20 <1.20.2\", \">=1.19 <1.20\"]\n";
    assert_eq!(texts(&current_ranges(touching).unwrap()), vec![">=1.19 <1.20.2"]);
}

#[test]
fn current_ranges_need_the_property_and_ranges_that_can_be_read() {
    assert_eq!(current_ranges("a=1\n").err(), Some(ProjectError::MissingProperty("minecraft_compatible_range".to_string())));
    match current_ranges("\nminecraft_compatible_range=[\"one\"]\n") {
        Err(ProjectError::Parse(e)) => {
            assert_eq!(e.kind, ParseErrorKind::InvalidNumber);
            assert_eq!(e.text, "one");
        }
        other => panic!("{:?}", other.map(|r| texts(&r))),
    }
}
