//! The dependencies of a project: the properties below the marker line,
//! each of which names a project and the version of it to build against.
use crate::api_structs::ProjectVersion;
use crate::game_versions::{first_where, lemma_first_where, lemma_first_where_unique};
use crate::project_error::{ProjectError, ProjectErrorModel};
use crate::properties::{find_property, find_property_spec};
use crate::semantic_version::{SemanticVersion, VersionModel};
use crate::text::{
    after, before, cut, join_of, split, split_at_char, texts,
};
use crate::trim::{
    ends_with, same_text, starts_with, trim, trim_of, trim_start, trim_start_of, whitespace,
};
use crate::version_text::{format_version, format_version_spec, parse_version, parse_version_spec};
use vstd::prelude::*;

verus! {

/// The text in lower case, as Unicode defines it.
pub uninterp spec fn lowercase(s: Seq<char>) -> Seq<char>;

/// `str::to_lowercase` of the standard library: the text with each
/// character in its lower-case form. Nothing more is claimed of the result
/// than that it is the lower case of the text.
#[verifier::external_body]
pub(crate) fn to_lowercase(s: &str) -> (r: String)
    ensures
        r@ == lowercase(s@),
{
    s.to_lowercase()
}

/// A line that ends the head of the properties: its comment, which is what
/// follows the first `#`, begins with the name of the tool, in any case.
pub open spec fn is_marker(line: Seq<char>) -> bool {
    match after(line, '#') {
        Some(comment) => "ralli"@.is_prefix_of(lowercase(trim_start_of(comment, whitespace()))),
        None => false,
    }
}

/// `is_marker` as a predicate on lines.
pub open spec fn marker() -> spec_fn(Seq<char>) -> bool {
    |line: Seq<char>| is_marker(line)
}

/// Does the line end the head of the properties?
pub fn is_marker_line(line: &str) -> (r: bool)
    ensures
        r == is_marker(line@),
{
    match cut(line, '#').1 {
        Some(comment) => {
            let lowered = to_lowercase(trim_start(comment));
            starts_with(lowered.as_str(), "ralli")
        },
        None => false,
    }
}

/// The names of the properties that are the tool's own.
pub open spec fn is_own_property(name: Seq<char>) -> bool {
    ||| name == "loom_version"@
    ||| name == "loader_version"@
    ||| name == "minecraft_compatible_range"@
    ||| name == "enforce_range"@
    ||| name == "minecraft_version"@
    ||| name == "yarn_mappings"@
    ||| name == "java_version"@
}

/// Is `name` the name of one of the tool's own properties?
pub fn own_property(name: &str) -> (r: bool)
    ensures
        r == is_own_property(name@),
{
    same_text(name, "loom_version") || same_text(name, "loader_version") || same_text(
        name,
        "minecraft_compatible_range",
    ) || same_text(name, "enforce_range") || same_text(name, "minecraft_version") || same_text(
        name,
        "yarn_mappings",
    ) || same_text(name, "java_version")
}

/// What becomes of a line of the properties.
pub enum PlannedLine<'a> {
    /// The line stays as it is.
    Kept(&'a str),
    /// The line names a dependency: its version is to be looked up. A line
    /// that ended in a carriage return is to end in one again.
    Dependency { name: &'a str, carriage_return: bool },
}

/// What a planned line holds, with its texts as sequences of characters.
pub enum PlannedLineModel {
    Kept(Seq<char>),
    Dependency { name: Seq<char>, carriage_return: bool },
}

impl<'a> View for PlannedLine<'a> {
    type V = PlannedLineModel;

    open spec fn view(&self) -> PlannedLineModel {
        match self {
            PlannedLine::Kept(line) => PlannedLineModel::Kept(line@),
            PlannedLine::Dependency { name, carriage_return } => PlannedLineModel::Dependency {
                name: name@,
                carriage_return: *carriage_return,
            },
        }
    }
}

/// The models of a plan.
pub open spec fn planned_models(plan: Seq<PlannedLine>) -> Seq<PlannedLineModel> {
    Seq::new(plan.len(), |i: int| plan[i]@)
}

/// What becomes of a line below the marker: a property that is not the
/// tool's own names a dependency; every other line is kept.
pub open spec fn plan_line_spec(line: Seq<char>) -> PlannedLineModel {
    if after(line, '=') is Some && !is_own_property(trim_of(before(line, '='), whitespace())) {
        PlannedLineModel::Dependency {
            name: trim_of(before(line, '='), whitespace()),
            carriage_return: seq!['\r'].is_suffix_of(line),
        }
    } else {
        PlannedLineModel::Kept(line)
    }
}

/// Tells what becomes of a line below the marker.
pub fn plan_line<'a>(line: &'a str) -> (r: PlannedLine<'a>)
    ensures
        r@ == plan_line_spec(line@),
{
    let (head, tail) = cut(line, '=');
    match tail {
        Some(_) => {
            let name = trim(head);
            if own_property(name) {
                PlannedLine::Kept(line)
            } else {
                proof {
                    reveal_strlit("\r");
                }
                assert("\r"@ =~= seq!['\r']);
                PlannedLine::Dependency { name, carriage_return: ends_with(line, "\r") }
            }
        },
        None => PlannedLine::Kept(line),
    }
}

/// How many lines make the head of the properties: those up to the first
/// marker line, and that line; all of them where there is no marker.
pub open spec fn head_length(lines: Seq<Seq<char>>) -> int {
    match first_where(lines, marker()) {
        Some(i) => i + 1,
        None => lines.len() as int,
    }
}

/// What becomes of each line: the head is kept as it is.
pub open spec fn plan_spec(lines: Seq<Seq<char>>) -> Seq<PlannedLineModel> {
    Seq::new(
        lines.len(),
        |i: int|
            if i < head_length(lines) {
                PlannedLineModel::Kept(lines[i])
            } else {
                plan_line_spec(lines[i])
            },
    )
}

/// The version of the game that the dependencies are looked up for, and
/// what becomes of each line of the properties.
pub open spec fn dependency_plan_spec(contents: Seq<char>) -> Result<
    (VersionModel, Seq<PlannedLineModel>),
    ProjectErrorModel,
> {
    match find_property_spec(contents, "minecraft_version"@) {
        None => Err(ProjectErrorModel::MissingProperty("minecraft_version"@)),
        Some(part) => match parse_version_spec(part.substring) {
            Err(e) => Err(ProjectErrorModel::Parse(e)),
            Ok(version) => Ok((version, plan_spec(split(contents, '\n')))),
        },
    }
}

/// Plans the update of the dependencies.
pub fn dependency_plan<'a>(contents: &'a str) -> (r: Result<
    (SemanticVersion, Vec<PlannedLine<'a>>),
    ProjectError,
>)
    ensures
        match r {
            Ok((version, plan)) => dependency_plan_spec(contents@) == Ok::<
                (VersionModel, Seq<PlannedLineModel>),
                ProjectErrorModel,
            >((version@, planned_models(plan@))),
            Err(e) => dependency_plan_spec(contents@) == Err::<
                (VersionModel, Seq<PlannedLineModel>),
                ProjectErrorModel,
            >(e@),
        },
{
    let part = match find_property(contents, "minecraft_version") {
        Ok(part) => part,
        Err(e) => {
            return Err(e);
        },
    };
    let version = match parse_version(part.substring) {
        Ok(v) => v,
        Err(e) => {
            return Err(ProjectError::Parse(e));
        },
    };
    let lines = split_at_char(contents, '\n');
    let ghost all = split(contents@, '\n');
    let mut plan: Vec<PlannedLine<'a>> = Vec::new();
    let mut i: usize = 0;
    // the head: up to the marker line
    let mut in_head = true;
    while i < lines.len()
        invariant
            i <= lines.len(),
            texts(lines@) == all,
            plan.len() == i,
            in_head ==> forall|j: int| 0 <= j < i ==> !marker()(all[j]),
            !in_head ==> head_length(all) <= i,
            forall|j: int| 0 <= j < i ==> (#[trigger] plan@[j])@ == plan_spec(all)[j],
        decreases lines.len() - i,
    {
        let line = lines[i];
        assert(all[i as int] == lines@[i as int]@);
        let ghost before = plan@;
        if in_head {
            proof {
                lemma_first_where(all, marker());
            }
            plan.push(PlannedLine::Kept(line));
            if is_marker_line(line) {
                proof {
                    lemma_first_where_unique(all, marker(), i as int);
                }
                in_head = false;
            }
        } else {
            plan.push(plan_line(line));
        }
        assert forall|j: int| 0 <= j < i + 1 implies (#[trigger] plan@[j])@ == plan_spec(all)[j] by {
            if j < i {
                assert(plan@[j] == before[j]);
            }
        }
        i += 1;
    }
    assert(planned_models(plan@) =~= plan_spec(all));
    Ok((version, plan))
}

/// The line of a dependency with its version.
pub open spec fn dependency_line_spec(
    name: Seq<char>,
    version_number: Seq<char>,
    carriage_return: bool,
) -> Seq<char> {
    name + seq!['='] + version_number + if carriage_return {
        seq!['\r']
    } else {
        Seq::<char>::empty()
    }
}

/// Writes the line of a dependency.
pub fn dependency_line(name: &str, version_number: &str, carriage_return: bool) -> (r: String)
    ensures
        r@ == dependency_line_spec(name@, version_number@, carriage_return),
{
    proof {
        reveal_strlit("=");
        reveal_strlit("\r");
    }
    let mut line = String::from_str(name).concat("=").concat(version_number);
    if carriage_return {
        line.append("\r");
    }
    assert(line@ =~= dependency_line_spec(name@, version_number@, carriage_return));
    line
}

/// Where the versions of a project for a version of the game are asked for.
pub open spec fn dependency_url_spec(name: Seq<char>, version: VersionModel) -> Seq<char> {
    "https://api.modrinth.com/v2/project/"@ + name
        + "/version?loaders=[\"fabric\"]&game_versions=[\""@ + format_version_spec(version)
        + "\"]"@
}

/// Writes the address at which the versions of a project are asked for.
pub fn dependency_url(name: &str, version: &SemanticVersion) -> (r: String)
    ensures
        r@ == dependency_url_spec(name@, version@),
{
    String::from_str("https://api.modrinth.com/v2/project/").concat(name).concat(
        "/version?loaders=[\"fabric\"]&game_versions=[\"",
    ).concat(format_version(version).as_str()).concat("\"]")
}

/// The name of the file that holds a version of a dependency.
pub open spec fn dependency_file_name_spec(name: Seq<char>, version_number: Seq<char>) -> Seq<char> {
    name + seq!['-'] + version_number + ".jar"@
}

/// Writes the name of the file of a dependency.
pub fn dependency_file_name(name: &str, version_number: &str) -> (r: String)
    ensures
        r@ == dependency_file_name_spec(name@, version_number@),
{
    proof {
        reveal_strlit("-");
    }
    let r = String::from_str(name).concat("-").concat(version_number).concat(".jar");
    assert(r@ =~= dependency_file_name_spec(name@, version_number@));
    r
}

/// The first of the versions of a dependency: the one to build against.
pub fn first_project_version<'a>(
    versions: &'a Vec<ProjectVersion>,
    name: &str,
    version: &SemanticVersion,
) -> (r: Result<&'a ProjectVersion, ProjectError>)
    ensures
        match r {
            Ok(first) => versions.len() > 0 && *first == versions@[0],
            Err(e) => versions.len() == 0 && e@ == (ProjectErrorModel::Unsupported {
                name: name@,
                version: format_version_spec(version@),
            }),
        },
{
    if versions.len() > 0 {
        Ok(&versions[0])
    } else {
        Err(ProjectError::Unsupported { name: name.to_owned(), version: format_version(version) })
    }
}

/// The texts of a list of strings.
pub open spec fn string_texts(lines: Seq<String>) -> Seq<Seq<char>> {
    Seq::new(lines.len(), |i: int| lines[i]@)
}

/// Puts the lines of the properties together, with a line break between
/// each two. Where every line was kept, that is the text they came from:
/// see `lemma_join_of_split`.
pub fn join_lines(lines: &Vec<String>) -> (r: String)
    ensures
        r@ == join_of(string_texts(lines@), '\n'),
{
    let ghost all = string_texts(lines@);
    let mut out = String::new();
    if lines.len() == 0 {
        return out;
    }
    out.append(lines[0].as_str());
    assert(all.take(1) =~= seq![lines@[0]@]);
    assert(out@ =~= lines@[0]@);
    let mut i: usize = 1;
    while i < lines.len()
        invariant
            1 <= i <= lines.len(),
            all == string_texts(lines@),
            out@ == join_of(all.take(i as int), '\n'),
        decreases lines.len() - i,
    {
        proof {
            reveal_strlit("\n");
            let part = all.take(i + 1);
            assert(part.drop_last() =~= all.take(i as int));
            assert(part.last() == lines@[i as int]@);
        }
        out.append("\n");
        out.append(lines[i].as_str());
        assert(out@ =~= join_of(all.take(i as int), '\n') + seq!['\n'] + lines@[i as int]@);
        i += 1;
    }
    assert(all.take(lines.len() as int) =~= all);
    out
}

} // verus!
