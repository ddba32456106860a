use ralli::api_structs::{ProjectFile, ProjectVersion};
use ralli::dependencies::{
    dependency_file_name, dependency_line, dependency_plan, dependency_url, first_project_version,
    is_marker_line, join_lines, own_property, plan_line, PlannedLine,
};
use ralli::project_error::ProjectError;
use ralli::version_text::parse_version;

fn kinds<'a>(plan: &[PlannedLine<'a>]) -> Vec<(Option<&'a str>, Option<&'a str>, bool)> {
    plan.iter()
        .map(|line| match line {
            PlannedLine::Kept(text) => (Some(*text), None, false),
            PlannedLine::Dependency { name, carriage_return } => (None, Some(*name), *carriage_return),
        })
        .collect()
}

#[test]
fn the_marker_is_a_comment_that_names_the_tool() {
    assert!(is_marker_line("# ralli dependencies"));
    assert!(is_marker_line("#ralli"));
    assert!(is_marker_line("a=b #   RALLI: below"));
    assert!(is_marker_line("#\tRaLLi"));
    assert!(!is_marker_line("ralli"));
    assert!(!is_marker_line("# the ralli marker"));
    assert!(!is_marker_line("# rall"));
    assert!(!is_marker_line("# x # ralli"));
    assert!(!is_marker_line(""));
}

#[test]
fn the_marker_is_found_in_any_case_of_unicode() {
    assert!(is_marker_line("# RALL\u{130}"));
}

#[test]
fn the_tools_own_properties_are_seven() {
    for name in ["loom_version", "loader_version", "minecraft_compatible_range", "enforce_range", "minecraft_version", "yarn_mappings", "java_version"] {
        assert!(own_property(name));
    }
    assert!(!own_property("fabric-api"));
    assert!(!own_property(""));
    assert!(!own_property("Loom_version"));
}

#[test]
fn a_line_below_the_marker_is_kept_or_names_a_dependency() {
    assert_eq!(kinds(&[plan_line("fabric-api=0.100")]), vec![(None, Some("fabric-api"), false)]);
    assert_eq!(kinds(&[plan_line("  sodium = 1\r")]), vec![(None, Some("sodium"), true)]);
    assert_eq!(kinds(&[plan_line("=1")]), vec![(None, Some(""), false)]);
    assert_eq!(kinds(&[plan_line("java_version=17")]), vec![(Some("java_version=17"), None, false)]);
    assert_eq!(kinds(&[plan_line(" yarn_mappings =x")]), vec![(Some(" yarn_mappings =x"), None, false)]);
    assert_eq!(kinds(&[plan_line("# comment")]), vec![(Some("# comment"), None, false)]);
    assert_eq!(kinds(&[plan_line("")]), vec![(Some(""), None, false)]);
}

#[test]
fn the_plan_keeps_the_head_and_looks_at_what_follows() {
    let contents = "org.gradle=1\nminecraft_version=1.21\n# Ralli dependencies\r\nfabric-api=1\r\nloom_version=1.6\n\nsodium=2";
    let (version, plan) = dependency_plan(contents).unwrap();
    assert_eq!(version, parse_version("1.21").unwrap());
    assert_eq!(
        kinds(&plan),
        vec![
            (Some("org.gradle=1"), None, false),
            (Some("minecraft_version=1.21"), None, false),
            (Some("# Ralli dependencies\r"), None, false),
            (None, Some("fabric-api"), true),
            (Some("loom_version=1.6"), None, false),
            (Some(""), None, false),
            (None, Some("sodium"), false),
        ]
    );
}

#[test]
fn without_a_marker_every_line_is_kept() {
    let contents = "a=1\nminecraft_version=1.21\nfabric-api=1\n";
    let (_, plan) = dependency_plan(contents).unwrap();
    assert_eq!(kinds(&plan), vec![(Some("a=1"), None, false), (Some("minecraft_version=1.21"), None, false), (Some("fabric-api=1"), None, false), (Some(""), None, false)]);
}

#[test]
fn the_plan_needs_the_version_of_the_game() {
    assert_eq!(dependency_plan("a=1\n").err(), Some(ProjectError::MissingProperty("minecraft_version".to_string())));
    match dependency_plan("\nminecraft_version=latest\n") {
        Err(ProjectError::Parse(e)) => assert_eq!(e.text, "latest"),
        other => panic!("{:?}", other.map(|p| kinds(&p.1).len())),
    }
}

#[test]
fn a_dependency_line_holds_name_and_version() {
    assert_eq!(dependency_line("fabric-api", "0.100.1+1.21", false), "fabric-api=0.100.1+1.21");
    assert_eq!(dependency_line("fabric-api", "0.100.1+1.21", true), "fabric-api=0.100.1+1.21\r");
}

#[test]
fn the_address_names_project_and_version() {
    let version = parse_version("1.20.0").unwrap();
    assert_eq!(
        dependency_url("fabric-api", &version),
        "https://api.modrinth.com/v2/project/fabric-api/version?loaders=[\"fabric\"]&game_versions=[\"1.20\"]"
    );
}

#[test]
fn the_file_is_named_by_project_and_version() {
    assert_eq!(dependency_file_name("sodium", "0.5.8"), "sodium-0.5.8.jar");
}

#[test]
fn the_first_version_of_a_project_is_taken() {
    let make = |number: &str| ProjectVersion {
        game_versions: vec!["1.21".to_string()].into_boxed_slice(),
        version_number: number.to_string(),
        files: vec![ProjectFile { url: "u".to_string() }].into_boxed_slice(),
    };
    let versions = vec![make("2.0"), make("1.0")];
    let version = parse_version("1.21").unwrap();
    assert_eq!(first_project_version(&versions, "sodium", &version).unwrap().version_number, "2.0");
    let e = first_project_version(&vec![], "sodium", &version).err().unwrap();
    assert_eq!(e, ProjectError::Unsupported { name: "sodium".to_string(), version: "1.21".to_string() });
    assert_eq!(e.message(), "Dependency 'sodium' does not support Minecraft version 1.21.");
}

#[test]
fn lines_are_joined_by_line_breaks() {
    let lines = |texts: &[&str]| texts.iter().map(|t| t.to_string()).collect::<Vec<_>>();
    assert_eq!(join_lines(&lines(&["a", "b", "", "c"])), "a\nb\n\nc");
    assert_eq!(join_lines(&lines(&["a"])), "a");
    assert_eq!(join_lines(&lines(&["", ""])), "\n");
    assert_eq!(join_lines(&lines(&[])), "");
}

#[test]
fn a_plan_that_keeps_every_line_gives_the_text_back() {
    let contents = "a=1\nminecraft_version=1.21\n# ralli\nloom_version=1\n\n";
    let (_, plan) = dependency_plan(contents).unwrap();
    let lines: Vec<String> = plan
        .iter()
        .map(|line| match line {
            PlannedLine::Kept(text) => text.to_string(),
            PlannedLine::Dependency { .. } => panic!(),
        })
        .collect();
    assert_eq!(join_lines(&lines), contents);
}
