use ralli::api_structs::FabricLoaderVersion;
use ralli::error::ParseErrorKind;
use ralli::project::{
    any_contains, confirm_version, escape_colons, first_stable_loader, format_range_list,
    gradle_update, refresh_property, release, select_version, static_info, test_version,
};
use ralli::project_error::ProjectError;
use ralli::semantic_version::SemanticVersion;
use ralli::version_range::{parse_range, SemanticVersionRange};
use ralli::version_text::parse_version;

fn version(text: &str) -> SemanticVersion {
    parse_version(text).unwrap()
}

fn range(text: &str) -> SemanticVersionRange {
    parse_range(text).unwrap()
}

fn known() -> Vec<(SemanticVersion, u32)> {
    vec![(version("1.21"), 9), (version("1.20.6"), 3), (version("1.20.5"), 1), (version("1.17.1"), 65), (version("1.16.5"), 10)]
}

fn properties(ranges: &str, version: &str) -> String {
    format!("# Done to increase the memory\norg.gradle.jvmargs=-Xmx1G\n\nminecraft_version={}\nyarn_mappings=0\njava_version=0\nenforce_range=maybe\nminecraft_compatible_range={}\nloom_version=1.6-SNAPSHOT\nloader_version=0.15.11\n", version, ranges)
}

fn expected(ranges: &str, version: &str, mappings: &str, java: &str, enforce: &str) -> String {
    format!("# Done to increase the memory\norg.gradle.jvmargs=-Xmx1G\n\nminecraft_version={}\nyarn_mappings={}\njava_version={}\nenforce_range={}\nminecraft_compatible_range={}\nloom_version=1.6-SNAPSHOT\nloader_version=0.15.11\n", version, mappings, java, enforce, ranges)
}

#[test]
fn selecting_a_version_sets_four_properties() {
    let contents = properties("[]", "1");
    let out = select_version(&contents, &version("1.20.6"), 3, 17, true).unwrap();
    assert_eq!(out, expected("[]", "1.20.6", "1.20.6+build.3", "17", "true"));
    let out = select_version(&contents, &version("1.21.0"), 0, 21, false).unwrap();
    assert_eq!(out, expected("[]", "1.21", "1.21+build.0", "21", "false"));
}

#[test]
fn selecting_a_version_names_the_first_missing_property() {
    let e = select_version("\nminecraft_version=1\n", &version("1"), 0, 8, true).err();
    assert_eq!(e, Some(ProjectError::MissingProperty("yarn_mappings".to_string())));
    let e = select_version("\nyarn_mappings=1\n", &version("1"), 0, 8, true).err();
    assert_eq!(e, Some(ProjectError::MissingProperty("minecraft_version".to_string())));
    let e = select_version("\nminecraft_version=1\nyarn_mappings=1\njava_version=1\n", &version("1"), 0, 8, true).err();
    assert_eq!(e, Some(ProjectError::MissingProperty("enforce_range".to_string())));
}

#[test]
fn a_test_takes_java_from_the_lowest_compatible_version() {
    let contents = properties("[\">=1.17.1 <1.20.6\"]", "1.20.5");
    let out = test_version(&contents, &known(), 0).unwrap();
    assert_eq!(out, expected("[\">=1.17.1 <1.20.6\"]", "1.21", "1.21+build.9", "16", "false"));
}

#[test]
fn a_test_below_the_ranges_takes_java_from_the_version_tested() {
    let contents = properties("[\">=1.20.5 <1.20.6\"]", "1.20.5");
    let out = test_version(&contents, &known(), 4).unwrap();
    assert_eq!(out, expected("[\">=1.20.5 <1.20.6\"]", "1.16.5", "1.16.5+build.10", "8", "false"));
    let contents = properties("[\"<1.20.6\"]", "1.20.5");
    let out = test_version(&contents, &known(), 1).unwrap();
    assert_eq!(out, expected("[\"<1.20.6\"]", "1.20.6", "1.20.6+build.3", "21", "false"));
    let contents = properties("[]", "1.20.5");
    let out = test_version(&contents, &known(), 2).unwrap();
    assert_eq!(out, expected("[]", "1.20.5", "1.20.5+build.1", "21", "false"));
}

#[test]
fn a_test_needs_ranges_that_can_be_read() {
    let contents = properties("[\"what\"]", "1.20.5");
    match test_version(&contents, &known(), 0) {
        Err(ProjectError::Parse(e)) => assert_eq!(e.text, "what"),
        other => panic!("{:?}", other),
    }
    assert_eq!(test_version("\nminecraft_version=1\n", &known(), 0).err(), Some(ProjectError::MissingProperty("minecraft_compatible_range".to_string())));
}

#[test]
fn a_release_is_set_up_for_the_last_known_version_held() {
    let contents = properties("[\">=1.20.5 <1.21\", \">=1.17 <1.18\"]", "1.21");
    let (out, held) = release(&contents, &known()).unwrap();
    assert_eq!(out, expected("[\">=1.20.5 <1.21\", \">=1.17 <1.18\"]", "1.17.1", "1.17.1+build.65", "16", "true"));
    assert_eq!(held, vec![(version("1.17.1"), 65), (version("1.20.5"), 1), (version("1.20.6"), 3)]);
}

#[test]
fn a_release_needs_a_known_version_in_the_ranges() {
    let contents = properties("[\">=1.18 <1.19\"]", "1.21");
    assert_eq!(release(&contents, &known()).err(), Some(ProjectError::NoKnownVersion));
    let contents = properties("[]", "1.21");
    assert_eq!(release(&contents, &known()).err(), Some(ProjectError::NoKnownVersion));
    let contents = properties("[\"\"]", "1.21");
    assert_eq!(release(&contents, &vec![]).err(), Some(ProjectError::NoKnownVersion));
    assert_eq!(ProjectError::NoKnownVersion.message(), "Current compatible range contains no known Minecraft versions.");
}

#[test]
fn any_contains_looks_at_every_range() {
    let ranges = vec![range(">=1 <2"), range(">=3 <4")];
    assert!(any_contains(&ranges, &version("1.5")));
    assert!(any_contains(&ranges, &version("3")));
    assert!(!any_contains(&ranges, &version("2")));
    assert!(!any_contains(&vec![], &version("2")));
}

#[test]
fn a_list_of_ranges_is_written_with_quotes_and_commas() {
    assert_eq!(format_range_list(&vec![]), "[]");
    assert_eq!(format_range_list(&vec![range(">=1 <2")]), "[\">=1 <2\"]");
    assert_eq!(format_range_list(&vec![range(">=1 <2"), range(""), range("<3")]), "[\">=1 <2\", \"*\", \"<3\"]");
}

#[test]
fn confirming_adds_the_range_up_to_the_next_known_version() {
    let contents = properties("[\">=1.20.6 <1.21\"]", "1.20.5");
    let (out, confirmed) = confirm_version(&contents, &known()).unwrap();
    assert_eq!(out, properties("[\">=1.20.5 <1.21\"]", "1.20.5"));
    assert_eq!(confirmed, version("1.20.5"));
    let contents = properties("[\">=1.20.6 <1.21\"]", "1.16.5");
    let (out, _) = confirm_version(&contents, &known()).unwrap();
    assert_eq!(out, properties("[\">=1.16.5 <1.17.1\", \">=1.20.6 <1.21\"]", "1.16.5"));
}

#[test]
fn confirming_the_first_known_version_runs_to_the_next_minor_version() {
    let contents = properties("[]", "1.21");
    let (out, _) = confirm_version(&contents, &known()).unwrap();
    assert_eq!(out, properties("[\">=1.21 <1.22\"]", "1.21"));
}

#[test]
fn confirming_needs_a_known_version() {
    let contents = properties("[]", "1.19");
    assert_eq!(confirm_version(&contents, &known()).err(), Some(ProjectError::UnknownVersion));
    assert_eq!(confirm_version(&contents, &vec![]).err(), Some(ProjectError::UnknownVersion));
    assert_eq!(ProjectError::UnknownVersion.message(), "Current version not found in the Minecraft version list.");
}

#[test]
fn confirming_reports_what_cannot_be_read() {
    let contents = properties("[]", "new");
    match confirm_version(&contents, &known()) {
        Err(ProjectError::Parse(e)) => {
            assert_eq!(e.kind, ParseErrorKind::InvalidNumber);
            assert_eq!(e.text, "new");
        }
        other => panic!("{:?}", other),
    }
    let contents = properties("[\"~\"]", "1.21");
    match confirm_version(&contents, &known()) {
        Err(ProjectError::Parse(e)) => assert_eq!(e.kind, ParseErrorKind::MissingMajor),
        other => panic!("{:?}", other),
    }
    assert_eq!(confirm_version("\nminecraft_version=1.21\n", &known()).err(), Some(ProjectError::MissingProperty("minecraft_compatible_range".to_string())));
    assert_eq!(confirm_version("\nminecraft_compatible_range=[]\n", &known()).err(), Some(ProjectError::MissingProperty("minecraft_version".to_string())));
}

#[test]
fn confirming_the_last_minor_version_fails() {
    let versions = vec![(version("1.4294967295"), 0)];
    let contents = properties("[]", "1.4294967295");
    let e = confirm_version(&contents, &versions).err().unwrap();
    assert_eq!(e, ProjectError::NoLaterVersion);
    assert_eq!(e.message(), "No minor version follows the newest Minecraft version.");
}

#[test]
fn colons_are_escaped() {
    assert_eq!(escape_colons("https://services.gradle.org/distributions/gradle-8.8-bin.zip"), "https\\://services.gradle.org/distributions/gradle-8.8-bin.zip");
    assert_eq!(escape_colons("::a:"), "\\:\\:a\\:");
    assert_eq!(escape_colons(""), "");
    assert_eq!(escape_colons("abc"), "abc");
}

#[test]
fn the_wrapper_is_pointed_to_a_new_release() {
    let contents = "distributionBase=GRADLE_USER_HOME\ndistributionUrl=https\\://host/gradle-8.7-bin.zip\nnetworkTimeout=10000\n";
    let out = gradle_update(contents, "https://host/gradle-8.8-bin.zip").unwrap();
    assert_eq!(out, Some("distributionBase=GRADLE_USER_HOME\ndistributionUrl=https\\://host/gradle-8.8-bin.zip\nnetworkTimeout=10000\n".to_string()));
    assert_eq!(gradle_update(contents, "https://host/gradle-8.7-bin.zip").unwrap(), None);
}

#[test]
fn the_wrapper_must_name_its_source() {
    assert_eq!(gradle_update("distributionBase=x\n", "u").err(), Some(ProjectError::MissingGradleUrl));
    assert_eq!(gradle_update("distributionUrl=x", "u").err(), Some(ProjectError::MissingGradleUrl));
    assert_eq!(ProjectError::MissingGradleUrl.message(), "Could not find location of active gradle source.");
}

#[test]
fn the_first_stable_loader_is_taken() {
    let loaders = vec![
        FabricLoaderVersion { version: "0.16.0-beta".to_string(), stable: false },
        FabricLoaderVersion { version: "0.15.11".to_string(), stable: true },
        FabricLoaderVersion { version: "0.15.10".to_string(), stable: true },
    ];
    assert_eq!(first_stable_loader(&loaders).unwrap(), "0.15.11");
    assert_eq!(first_stable_loader(&loaders[..1].iter().map(|l| FabricLoaderVersion { version: l.version.clone(), stable: l.stable }).collect()).err(), Some(ProjectError::NoStableLoader));
    assert_eq!(first_stable_loader(&vec![]).err(), Some(ProjectError::NoStableLoader));
    assert_eq!(ProjectError::NoStableLoader.message(), "No stable loader versions found.");
}

#[test]
fn a_property_is_refreshed_only_where_it_differs() {
    assert_eq!(refresh_property("\na= 1 \n", "a", "1").unwrap(), None);
    assert_eq!(refresh_property("\na= 1 \n", "a", "2").unwrap(), Some("\na=2\n".to_string()));
    assert_eq!(refresh_property("\na=1\n", "a", " 1").unwrap(), Some("\na= 1\n".to_string()));
    assert_eq!(refresh_property("\na=1\n", "b", "1").err(), Some(ProjectError::MissingProperty("b".to_string())));
}

#[test]
fn plugin_and_loader_are_brought_up_to_date() {
    let contents = properties("[]", "1.21");
    let info = static_info(&contents, "1.7", "0.15.11").unwrap();
    assert!(info.loom_changed);
    assert!(!info.loader_changed);
    assert_eq!(info.contents, contents.replace("loom_version=1.6-SNAPSHOT", "loom_version=1.7-SNAPSHOT"));
    let info = static_info(&contents, "1.6", "0.16.0").unwrap();
    assert!(!info.loom_changed);
    assert!(info.loader_changed);
    assert_eq!(info.contents, contents.replace("loader_version=0.15.11", "loader_version=0.16.0"));
    let info = static_info(&contents, "1.6", "0.15.11").unwrap();
    assert!(!info.loom_changed && !info.loader_changed);
    assert_eq!(info.contents, contents);
    let info = static_info(&contents, "2", "1").unwrap();
    assert!(info.loom_changed && info.loader_changed);
}

#[test]
fn plugin_and_loader_need_their_properties() {
    assert_eq!(static_info("\nloader_version=1\n", "1", "1").err(), Some(ProjectError::MissingProperty("loom_version".to_string())));
    assert_eq!(static_info("\nloom_version=1\n", "1", "1").err(), Some(ProjectError::MissingProperty("loader_version".to_string())));
}
