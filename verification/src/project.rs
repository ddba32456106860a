//! What the tool writes into the properties of a project: the version to
//! build for, the compatible ranges, and the versions of the build tools.
use crate::api_structs::FabricLoaderVersion;
use crate::common::{find_spec, replace_spec, SubstringRef};
use crate::decimal::{decimal_digits, decimal_string};
use crate::game_versions::{
    first_where, get_java_version, is_version, java_version_spec, java_version_table_spec,
    known_models, position_of_version,
};
use crate::precedence::Precedence;
use crate::project_error::{ProjectError, ProjectErrorModel};
use crate::properties::{
    current_ranges, current_ranges_spec, find_property, find_property_spec, parse_range_list,
    parse_range_list_spec, ranges_property, set_property, set_property_spec,
};
use crate::range_set::{models, simplify_range_set, simplify_spec};
use crate::range_set_laws::covers;
use crate::semantic_version::{precedes, SemanticVersion, VersionModel};
use crate::text::to_chars;
use crate::trim::{same_text, trim, trim_of, whitespace};
use crate::version_range::{
    format_range, format_range_spec, range_contains, RangeModel, SemanticVersionRange,
};
use crate::version_text::{
    format_version, format_version_spec, parse_version, parse_version_spec,
};
use vstd::prelude::*;

verus! {

/// The value of the property of the mappings: the version and the build.
pub open spec fn mappings_text(v: VersionModel, build: u32) -> Seq<char> {
    format_version_spec(v) + "+build."@ + decimal_digits(build as nat)
}

/// The text of a flag in the properties.
pub open spec fn flag_text(flag: bool) -> Seq<char> {
    if flag {
        "true"@
    } else {
        "false"@
    }
}

/// The properties set up for one version of the game: the version, the
/// build of its mappings, the Java version, and whether the compatible
/// ranges are enforced. The first property that is missing is the error.
pub open spec fn select_version_spec(
    contents: Seq<char>,
    v: VersionModel,
    build: u32,
    java: u32,
    enforce: bool,
) -> Result<Seq<char>, ProjectErrorModel> {
    match set_property_spec(contents, "minecraft_version"@, format_version_spec(v)) {
        Err(e) => Err(e),
        Ok(c1) => match set_property_spec(c1, "yarn_mappings"@, mappings_text(v, build)) {
            Err(e) => Err(e),
            Ok(c2) => match set_property_spec(c2, "java_version"@, decimal_digits(java as nat)) {
                Err(e) => Err(e),
                Ok(c3) => set_property_spec(c3, "enforce_range"@, flag_text(enforce)),
            },
        },
    }
}

/// Sets the properties up for one version of the game.
pub fn select_version(
    contents: &str,
    version: &SemanticVersion,
    build: u32,
    java: u32,
    enforce: bool,
) -> (r: Result<String, ProjectError>)
    ensures
        match r {
            Ok(text) => select_version_spec(contents@, version@, build, java, enforce) == Ok::<
                Seq<char>,
                ProjectErrorModel,
            >(text@),
            Err(e) => select_version_spec(contents@, version@, build, java, enforce) == Err::<
                Seq<char>,
                ProjectErrorModel,
            >(e@),
        },
{
    let version_text = format_version(version);
    let c1 = match set_property(contents, "minecraft_version", version_text.as_str()) {
        Ok(c) => c,
        Err(e) => {
            return Err(e);
        },
    };
    let mut mappings = format_version(version);
    mappings.append("+build.");
    mappings.append(decimal_string(build).as_str());
    assert(mappings@ =~= mappings_text(version@, build));
    let c2 = match set_property(c1.as_str(), "yarn_mappings", mappings.as_str()) {
        Ok(c) => c,
        Err(e) => {
            return Err(e);
        },
    };
    let c3 = match set_property(c2.as_str(), "java_version", decimal_string(java).as_str()) {
        Ok(c) => c,
        Err(e) => {
            return Err(e);
        },
    };
    let flag = if enforce {
        "true"
    } else {
        "false"
    };
    set_property(c3.as_str(), "enforce_range", flag)
}

/// The version that decides the Java version of a test: the start of the
/// first compatible range where that is lower than the version under test.
pub open spec fn java_base(ranges: Seq<RangeModel>, v: VersionModel) -> VersionModel {
    if ranges.len() > 0 {
        match ranges[0].start {
            Some(start) => if precedes(start, v) {
                start
            } else {
                v
            },
            None => v,
        }
    } else {
        v
    }
}

/// The properties set up for a test of the known version `known`: the
/// ranges are not enforced, and Java is as old as the lowest compatible
/// version allows.
pub open spec fn test_version_spec(contents: Seq<char>, known: (VersionModel, u32)) -> Result<
    Seq<char>,
    ProjectErrorModel,
> {
    match current_ranges_spec(contents) {
        Err(e) => Err(e),
        Ok(ranges) => select_version_spec(
            contents,
            known.0,
            known.1,
            java_version_spec(java_version_table_spec(), java_base(ranges, known.0)),
            false,
        ),
    }
}

/// Sets the properties up for a test of the known version at `index`.
pub fn test_version(contents: &str, mc_versions: &Vec<(SemanticVersion, u32)>, index: usize) -> (r:
    Result<String, ProjectError>)
    requires
        index < mc_versions.len(),
    ensures
        match r {
            Ok(text) => test_version_spec(contents@, known_models(mc_versions@)[index as int])
                == Ok::<Seq<char>, ProjectErrorModel>(text@),
            Err(e) => test_version_spec(contents@, known_models(mc_versions@)[index as int])
                == Err::<Seq<char>, ProjectErrorModel>(e@),
        },
{
    let ranges = match current_ranges(contents) {
        Ok(ranges) => ranges,
        Err(e) => {
            return Err(e);
        },
    };
    let version = &mc_versions[index].0;
    let build = mc_versions[index].1;
    let ghost list = models(ranges@);
    let java = if ranges.len() > 0 {
        assert(list[0] == ranges@[0]@);
        match &ranges[0].start {
            Some(start) => match start.compare(version) {
                Precedence::Lower => get_java_version(start),
                _ => get_java_version(version),
            },
            None => get_java_version(version),
        }
    } else {
        get_java_version(version)
    };
    select_version(contents, version, build, java, false)
}

/// The known versions that one of the ranges holds, the last of them first.
pub open spec fn held_versions(ranges: Seq<RangeModel>, versions: Seq<(VersionModel, u32)>) -> Seq<
    (VersionModel, u32),
>
    decreases versions.len(),
{
    if versions.len() == 0 {
        Seq::<(VersionModel, u32)>::empty()
    } else if covers(ranges, versions.last().0) {
        seq![versions.last()] + held_versions(ranges, versions.drop_last())
    } else {
        held_versions(ranges, versions.drop_last())
    }
}

/// The properties set up for a release: for the first of the known
/// versions, taken from the last, that a compatible range holds, with the
/// ranges enforced. With them come the versions that the release serves.
pub open spec fn release_spec(contents: Seq<char>, versions: Seq<(VersionModel, u32)>) -> Result<
    (Seq<char>, Seq<(VersionModel, u32)>),
    ProjectErrorModel,
> {
    match current_ranges_spec(contents) {
        Err(e) => Err(e),
        Ok(ranges) => {
            let held = held_versions(ranges, versions);
            if held.len() == 0 {
                Err(ProjectErrorModel::NoKnownVersion)
            } else {
                match select_version_spec(
                    contents,
                    held[0].0,
                    held[0].1,
                    java_version_spec(java_version_table_spec(), held[0].0),
                    true,
                ) {
                    Err(e) => Err(e),
                    Ok(text) => Ok((text, held)),
                }
            }
        },
    }
}

/// Does one of the ranges hold the version?
pub fn any_contains(ranges: &Vec<SemanticVersionRange>, version: &SemanticVersion) -> (r: bool)
    ensures
        r == covers(models(ranges@), version@),
{
    let ghost list = models(ranges@);
    let mut i: usize = 0;
    while i < ranges.len()
        invariant
            i <= ranges.len(),
            list == models(ranges@),
            forall|j: int| 0 <= j < i ==> !range_contains(
                #[trigger] list[j],
                version@,
            ),
        decreases ranges.len() - i,
    {
        assert(list[i as int] == ranges@[i as int]@);
        if ranges[i].contains(version) {
            return true;
        }
        i += 1;
    }
    false
}

/// Sets the properties up for a release and tells which versions it serves.
pub fn release(contents: &str, mc_versions: &Vec<(SemanticVersion, u32)>) -> (r: Result<
    (String, Vec<(SemanticVersion, u32)>),
    ProjectError,
>)
    ensures
        match r {
            Ok((text, held)) => release_spec(contents@, known_models(mc_versions@)) == Ok::<
                (Seq<char>, Seq<(VersionModel, u32)>),
                ProjectErrorModel,
            >((text@, known_models(held@))),
            Err(e) => release_spec(contents@, known_models(mc_versions@)) == Err::<
                (Seq<char>, Seq<(VersionModel, u32)>),
                ProjectErrorModel,
            >(e@),
        },
{
    let ranges = match current_ranges(contents) {
        Ok(ranges) => ranges,
        Err(e) => {
            return Err(e);
        },
    };
    let ghost known = known_models(mc_versions@);
    let ghost list = models(ranges@);
    let mut held: Vec<(SemanticVersion, u32)> = Vec::new();
    let mut i: usize = 0;
    assert(known.take(0) =~= Seq::<(VersionModel, u32)>::empty());
    assert(known_models(held@) =~= Seq::<(VersionModel, u32)>::empty());
    // the newest of the held versions goes in front
    while i < mc_versions.len()
        invariant
            i <= mc_versions.len(),
            known == known_models(mc_versions@),
            list == models(ranges@),
            known_models(held@) == held_versions(list, known.take(i as int)),
        decreases mc_versions.len() - i,
    {
        let ghost before = known_models(held@);
        proof {
            let part = known.take(i + 1);
            assert(part.drop_last() =~= known.take(i as int));
            assert(part.last() == (mc_versions@[i as int].0@, mc_versions@[i as int].1));
        }
        if any_contains(&ranges, &mc_versions[i].0) {
            held.insert(0, (mc_versions[i].0.clone(), mc_versions[i].1));
            assert(known_models(held@) =~= seq![known[i as int]] + before);
        }
        i += 1;
    }
    assert(known.take(mc_versions.len() as int) =~= known);
    if held.len() == 0 {
        return Err(ProjectError::NoKnownVersion);
    }
    assert(known_models(held@)[0] == (held@[0].0@, held@[0].1));
    let java = get_java_version(&held[0].0);
    match select_version(contents, &held[0].0, held[0].1, java, true) {
        Ok(text) => Ok((text, held)),
        Err(e) => Err(e),
    }
}

/// The upper bound of the range that a confirmed version adds: the known
/// version right before it, which is the next later one; for the first of
/// the known versions, the minor version after it.
pub open spec fn confirmed_end(versions: Seq<(VersionModel, u32)>, index: int) -> Result<
    VersionModel,
    ProjectErrorModel,
> {
    if index > 0 {
        Ok(versions[index - 1].0)
    } else if versions[0].0.minor < u32::MAX {
        Ok(
            VersionModel {
                major: versions[0].0.major,
                minor: (versions[0].0.minor + 1) as u32,
                patch: 0,
                release: None,
                build: None,
            },
        )
    } else {
        Err(ProjectErrorModel::NoLaterVersion)
    }
}

/// The text of a list of ranges from the second range on: each range in
/// quotes, after a comma.
pub open spec fn list_tail_text(ranges: Seq<RangeModel>) -> Seq<char>
    decreases ranges.len(),
{
    if ranges.len() == 0 {
        Seq::<char>::empty()
    } else {
        list_tail_text(ranges.drop_last()) + ", \""@ + format_range_spec(ranges.last()) + "\""@
    }
}

/// The text of a list of ranges: `["a", "b"]`.
pub open spec fn range_list_text(ranges: Seq<RangeModel>) -> Seq<char> {
    if ranges.len() == 0 {
        "[]"@
    } else {
        "[\""@ + format_range_spec(ranges[0]) + "\""@ + list_tail_text(ranges.skip(1)) + "]"@
    }
}

/// Writes a list of ranges.
pub fn format_range_list(ranges: &Vec<SemanticVersionRange>) -> (r: String)
    ensures
        r@ == range_list_text(models(ranges@)),
{
    let ghost list = models(ranges@);
    proof {
        reveal_strlit("[]");
        reveal_strlit("[");
        reveal_strlit("\"");
        reveal_strlit("[\"");
    }
    if ranges.len() == 0 {
        return String::from_str("[]");
    }
    let mut out = String::from_str("[\"");
    assert(list[0] == ranges@[0]@);
    out.append(format_range(&ranges[0]).as_str());
    out.append("\"");
    let ghost head = out@;
    let mut i: usize = 1;
    assert(list.skip(1).take(0) =~= Seq::<RangeModel>::empty());
    assert(head + Seq::<char>::empty() =~= head);
    while i < ranges.len()
        invariant
            1 <= i <= ranges.len(),
            list == models(ranges@),
            head == "[\""@ + format_range_spec(list[0]) + "\""@,
            out@ == head + list_tail_text(list.skip(1).take(i - 1)),
        decreases ranges.len() - i,
    {
        let ghost before = out@;
        proof {
            let part = list.skip(1).take(i as int);
            assert(part.drop_last() =~= list.skip(1).take(i - 1));
            assert(part.last() == ranges@[i as int]@);
        }
        out.append(", \"");
        out.append(format_range(&ranges[i]).as_str());
        out.append("\"");
        assert(out@ =~= head + list_tail_text(list.skip(1).take(i as int)));
        i += 1;
    }
    assert(list.skip(1).take(ranges.len() - 1) =~= list.skip(1));
    out.append("]");
    out
}

/// The properties with the version they name added to the compatible
/// ranges, and that version. The version must be among the known versions;
/// the range added runs from it to the next later known version.
pub open spec fn confirm_version_spec(contents: Seq<char>, versions: Seq<(VersionModel, u32)>) -> Result<
    (Seq<char>, VersionModel),
    ProjectErrorModel,
> {
    match find_property_spec(contents, ranges_property()) {
        None => Err(ProjectErrorModel::MissingProperty(ranges_property())),
        Some(ranges_part) => match find_property_spec(contents, "minecraft_version"@) {
            None => Err(ProjectErrorModel::MissingProperty("minecraft_version"@)),
            Some(version_part) => match parse_version_spec(version_part.substring) {
                Err(e) => Err(ProjectErrorModel::Parse(e)),
                Ok(version) => match first_where(versions, is_version(version)) {
                    None => Err(ProjectErrorModel::UnknownVersion),
                    Some(index) => match parse_range_list_spec(ranges_part.substring) {
                        Err(e) => Err(ProjectErrorModel::Parse(e)),
                        Ok(ranges) => match confirmed_end(versions, index) {
                            Err(e) => Err(e),
                            Ok(end) => Ok(
                                (
                                    replace_spec(
                                        ranges_part,
                                        range_list_text(
                                            simplify_spec(
                                                ranges.push(
                                                    RangeModel {
                                                        start: Some(version),
                                                        end: Some(end),
                                                    },
                                                ),
                                            ),
                                        ),
                                    ),
                                    version,
                                ),
                            ),
                        },
                    },
                },
            },
        },
    }
}

/// Adds the version that the properties name to the compatible ranges.
pub fn confirm_version(contents: &str, mc_versions: &Vec<(SemanticVersion, u32)>) -> (r: Result<
    (String, SemanticVersion),
    ProjectError,
>)
    ensures
        match r {
            Ok((text, version)) => confirm_version_spec(contents@, known_models(mc_versions@))
                == Ok::<(Seq<char>, VersionModel), ProjectErrorModel>((text@, version@)),
            Err(e) => confirm_version_spec(contents@, known_models(mc_versions@)) == Err::<
                (Seq<char>, VersionModel),
                ProjectErrorModel,
            >(e@),
        },
{
    let ghost known = known_models(mc_versions@);
    let ranges_part = match find_property(contents, "minecraft_compatible_range") {
        Ok(part) => part,
        Err(e) => {
            return Err(e);
        },
    };
    let version_part = match find_property(contents, "minecraft_version") {
        Ok(part) => part,
        Err(e) => {
            return Err(e);
        },
    };
    let version = match parse_version(version_part.substring) {
        Ok(v) => v,
        Err(e) => {
            return Err(ProjectError::Parse(e));
        },
    };
    let index = match position_of_version(mc_versions, &version) {
        Some(i) => i,
        None => {
            return Err(ProjectError::UnknownVersion);
        },
    };
    let mut ranges = match parse_range_list(ranges_part.substring) {
        Ok(ranges) => ranges,
        Err(e) => {
            return Err(ProjectError::Parse(e));
        },
    };
    let end = if index > 0 {
        assert(known[index - 1] == (mc_versions@[index - 1].0@, mc_versions@[index - 1].1));
        mc_versions[index - 1].0.clone()
    } else {
        assert(known[0] == (mc_versions@[0].0@, mc_versions@[0].1));
        let first = &mc_versions[0].0;
        if first.minor == u32::MAX {
            return Err(ProjectError::NoLaterVersion);
        }
        SemanticVersion {
            major: first.major,
            minor: first.minor + 1,
            patch: 0,
            release: None,
            build: None,
        }
    };
    let ghost before = models(ranges@);
    let added = SemanticVersionRange { start: Some(version.clone()), end: Some(end) };
    let ghost added_model = added@;
    ranges.push(added);
    assert(models(ranges@) =~= before.push(added_model));
    let list = format_range_list(&simplify_range_set(ranges));
    Ok((ranges_part.replace(list.as_str()), version))
}

/// An address as a properties file holds it: with `\` before each `:`.
pub open spec fn escape_colons_spec(url: Seq<char>) -> Seq<char>
    decreases url.len(),
{
    if url.len() == 0 {
        Seq::<char>::empty()
    } else if url.last() == ':' {
        escape_colons_spec(url.drop_last()) + seq!['\\', ':']
    } else {
        escape_colons_spec(url.drop_last()).push(url.last())
    }
}

/// Writes an address as a properties file holds it.
pub fn escape_colons(url: &str) -> (r: String)
    ensures
        r@ == escape_colons_spec(url@),
{
    let chars = to_chars(url);
    let mut out = String::new();
    let mut from: usize = 0;
    let mut i: usize = 0;
    assert(url@.take(0) =~= Seq::<char>::empty());
    assert(url@.subrange(0, 0) =~= Seq::<char>::empty());
    assert(out@ + Seq::<char>::empty() =~= out@);
    // `out` holds what stands before `from`; the characters from there to
    // `i` hold no colon and are added in one piece
    while i < chars.len()
        invariant
            from <= i <= chars.len(),
            chars@ == url@,
            escape_colons_spec(url@.take(i as int)) == out@ + url@.subrange(from as int, i as int),
        decreases chars.len() - i,
    {
        proof {
            let part = url@.take(i + 1);
            assert(part.drop_last() =~= url@.take(i as int));
            assert(part.last() == chars@[i as int]);
        }
        if chars[i] == ':' {
            let ghost before = out@;
            let ghost piece = url@.subrange(from as int, i as int);
            out.append(url.substring_char(from, i));
            out.append("\\:");
            from = i + 1;
            proof {
                reveal_strlit("\\:");
                assert(out@ =~= before + piece + seq!['\\', ':']);
                assert(url@.subrange(from as int, i + 1) =~= Seq::<char>::empty());
                assert(out@ + Seq::<char>::empty() =~= out@);
            }
        } else {
            assert(url@.subrange(from as int, i + 1) =~= url@.subrange(from as int, i as int).push(
                chars@[i as int],
            ));
            assert(out@ + url@.subrange(from as int, i as int).push(chars@[i as int]) =~= (out@
                + url@.subrange(from as int, i as int)).push(chars@[i as int]));
        }
        i += 1;
    }
    out.append(url.substring_char(from, chars.len()));
    assert(url@.take(chars.len() as int) =~= url@);
    out
}

/// The wrapper properties with `download_url` as the source of the build
/// tool, or nothing where they name it already.
pub open spec fn gradle_update_spec(contents: Seq<char>, download_url: Seq<char>) -> Result<
    Option<Seq<char>>,
    ProjectErrorModel,
> {
    match find_spec(contents, "distributionUrl="@, seq!['\n']) {
        None => Err(ProjectErrorModel::MissingGradleUrl),
        Some(part) => if part.substring == escape_colons_spec(download_url) {
            Ok(None)
        } else {
            Ok(Some(replace_spec(part, escape_colons_spec(download_url))))
        },
    }
}

/// Points the wrapper properties to a release of the build tool.
pub fn gradle_update(contents: &str, download_url: &str) -> (r: Result<Option<String>, ProjectError>)
    ensures
        match r {
            Ok(Some(text)) => gradle_update_spec(contents@, download_url@) == Ok::<
                Option<Seq<char>>,
                ProjectErrorModel,
            >(Some(text@)),
            Ok(None) => gradle_update_spec(contents@, download_url@) == Ok::<
                Option<Seq<char>>,
                ProjectErrorModel,
            >(None),
            Err(e) => gradle_update_spec(contents@, download_url@) == Err::<
                Option<Seq<char>>,
                ProjectErrorModel,
            >(e@),
        },
{
    proof {
        reveal_strlit("\n");
    }
    assert("\n"@ =~= seq!['\n']);
    let new_url = escape_colons(download_url);
    match SubstringRef::find(contents, "distributionUrl=", "\n") {
        None => Err(ProjectError::MissingGradleUrl),
        Some(part) => if same_text(part.substring, new_url.as_str()) {
            Ok(None)
        } else {
            Ok(Some(part.replace(new_url.as_str())))
        },
    }
}

/// The version of the first stable loader.
pub open spec fn first_stable_loader_spec(loaders: Seq<FabricLoaderVersion>) -> Option<Seq<char>>
    decreases loaders.len(),
{
    if loaders.len() == 0 {
        None
    } else {
        match first_stable_loader_spec(loaders.drop_last()) {
            Some(version) => Some(version),
            None => if loaders.last().stable {
                Some(loaders.last().version@)
            } else {
                None
            },
        }
    }
}

/// Finds the version of the first stable loader.
pub fn first_stable_loader(loaders: &Vec<FabricLoaderVersion>) -> (r: Result<&String, ProjectError>)
    ensures
        match r {
            Ok(version) => first_stable_loader_spec(loaders@) == Some(version@),
            Err(e) => first_stable_loader_spec(loaders@) is None && e@
                == ProjectErrorModel::NoStableLoader,
        },
{
    let mut i: usize = 0;
    assert(loaders@.take(0) =~= Seq::<FabricLoaderVersion>::empty());
    while i < loaders.len()
        invariant
            i <= loaders.len(),
            first_stable_loader_spec(loaders@.take(i as int)) is None,
        decreases loaders.len() - i,
    {
        proof {
            let part = loaders@.take(i + 1);
            assert(part.drop_last() =~= loaders@.take(i as int));
            assert(part.last() == loaders@[i as int]);
        }
        if loaders[i].stable {
            proof {
                lemma_first_stable_loader_found(loaders@, i + 1);
            }
            return Ok(&loaders[i].version);
        }
        i += 1;
    }
    assert(loaders@.take(loaders.len() as int) =~= loaders@);
    Err(ProjectError::NoStableLoader)
}

/// A stable loader found among the first `k` is the one found among all.
pub proof fn lemma_first_stable_loader_found(loaders: Seq<FabricLoaderVersion>, k: int)
    requires
        0 <= k <= loaders.len(),
        first_stable_loader_spec(loaders.take(k)) is Some,
    ensures
        first_stable_loader_spec(loaders) == first_stable_loader_spec(loaders.take(k)),
    decreases loaders.len() - k,
{
    if k < loaders.len() {
        let more = loaders.take(k + 1);
        assert(more.drop_last() =~= loaders.take(k));
        lemma_first_stable_loader_found(loaders, k + 1);
    } else {
        assert(loaders.take(k) =~= loaders);
    }
}

/// `contents` with `value` for the property `name`, unless the value it has
/// is `value` but for white space round it; and whether it was changed.
pub open spec fn refresh_property_spec(contents: Seq<char>, name: Seq<char>, value: Seq<char>) -> Result<
    (Seq<char>, bool),
    ProjectErrorModel,
> {
    match find_property_spec(contents, name) {
        None => Err(ProjectErrorModel::MissingProperty(name)),
        Some(part) => if trim_of(part.substring, whitespace()) == value {
            Ok((contents, false))
        } else {
            Ok((replace_spec(part, value), true))
        },
    }
}

/// Brings a property up to date. Gives back the new text where the
/// property was changed, and nothing where it was up to date.
pub fn refresh_property(contents: &str, name: &str, value: &str) -> (r: Result<
    Option<String>,
    ProjectError,
>)
    ensures
        match r {
            Ok(Some(text)) => refresh_property_spec(contents@, name@, value@) == Ok::<
                (Seq<char>, bool),
                ProjectErrorModel,
            >((text@, true)),
            Ok(None) => refresh_property_spec(contents@, name@, value@) == Ok::<
                (Seq<char>, bool),
                ProjectErrorModel,
            >((contents@, false)),
            Err(e) => refresh_property_spec(contents@, name@, value@) == Err::<
                (Seq<char>, bool),
                ProjectErrorModel,
            >(e@),
        },
{
    match find_property(contents, name) {
        Err(e) => Err(e),
        Ok(part) => if same_text(trim(part.substring), value) {
            Ok(None)
        } else {
            Ok(Some(part.replace(value)))
        },
    }
}

/// The full name of a release of the build plugin.
pub open spec fn loom_version_text(tag: Seq<char>) -> Seq<char> {
    tag + "-SNAPSHOT"@
}

/// What bringing the versions of the build plugin and of the loader up to
/// date gives: the properties, and for each of the two whether it changed.
pub struct StaticInfo {
    pub contents: String,
    pub loom_changed: bool,
    pub loader_changed: bool,
}

/// What the outcome holds, with the properties as a sequence of characters.
pub struct StaticInfoModel {
    pub contents: Seq<char>,
    pub loom_changed: bool,
    pub loader_changed: bool,
}

impl View for StaticInfo {
    type V = StaticInfoModel;

    open spec fn view(&self) -> StaticInfoModel {
        StaticInfoModel {
            contents: self.contents@,
            loom_changed: self.loom_changed,
            loader_changed: self.loader_changed,
        }
    }
}

/// The properties with the versions of the build plugin and of the loader
/// brought up to date, the plugin first.
pub open spec fn static_info_spec(contents: Seq<char>, loom_tag: Seq<char>, loader: Seq<char>) -> Result<
    StaticInfoModel,
    ProjectErrorModel,
> {
    match refresh_property_spec(contents, "loom_version"@, loom_version_text(loom_tag)) {
        Err(e) => Err(e),
        Ok((c1, loom_changed)) => match refresh_property_spec(c1, "loader_version"@, loader) {
            Err(e) => Err(e),
            Ok((c2, loader_changed)) => Ok(
                StaticInfoModel { contents: c2, loom_changed, loader_changed },
            ),
        },
    }
}

/// Brings the versions of the build plugin and of the loader up to date.
pub fn static_info(contents: &str, loom_tag: &str, loader: &str) -> (r: Result<
    StaticInfo,
    ProjectError,
>)
    ensures
        match r {
            Ok(info) => static_info_spec(contents@, loom_tag@, loader@) == Ok::<
                StaticInfoModel,
                ProjectErrorModel,
            >(info@),
            Err(e) => static_info_spec(contents@, loom_tag@, loader@) == Err::<
                StaticInfoModel,
                ProjectErrorModel,
            >(e@),
        },
{
    let loom = String::from_str(loom_tag).concat("-SNAPSHOT");
    let (c1, loom_changed) = match refresh_property(contents, "loom_version", loom.as_str()) {
        Err(e) => {
            return Err(e);
        },
        Ok(Some(text)) => (text, true),
        Ok(None) => (contents.to_owned(), false),
    };
    let (c2, loader_changed) = match refresh_property(c1.as_str(), "loader_version", loader) {
        Err(e) => {
            return Err(e);
        },
        Ok(Some(text)) => (text, true),
        Ok(None) => (c1, false),
    };
    Ok(StaticInfo { contents: c2, loom_changed, loader_changed })
}

} // verus!
