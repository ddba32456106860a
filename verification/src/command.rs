//! The commands of the tool, read from a line, and the version that a
//! command to test aims at.
use crate::dependencies::{lowercase, to_lowercase};
use crate::game_versions::{
    first_where, has_numbers, is_version, known_models, position_of_numbers, position_of_version,
};
use crate::range_set::models;
use crate::semantic_version::{SemanticVersion, VersionModel};
use crate::text::{split_whitespace, texts, words};
use crate::trim::same_text;
use crate::version_range::{RangeModel, SemanticVersionRange};
use crate::version_text::{parse_version, parse_version_spec};
use vstd::prelude::*;

verus! {

/// A command of the tool.
#[derive(PartialEq, Eq, Debug)]
pub enum Command {
    /// An empty line, or `clean` without a word after it.
    Nothing,
    Quit,
    Help,
    Stop,
    CleanGradle,
    CleanDependencies,
    /// `clean` with a word that is neither `gradle` nor `deps`.
    CleanUsage,
    Build,
    /// The build tool, with the words to hand to it.
    Gradle(Vec<String>),
    /// `git`, with the words to hand to it.
    Git(Vec<String>),
    /// A test of the version that the word names, if there is a word.
    Test(Option<String>),
    Up,
    Down,
    Dependencies,
    Confirm,
    Release,
    /// A first word that is no command, in lower case.
    Unrecognized(String),
}

/// What a command holds, with its texts as sequences of characters.
pub enum CommandModel {
    Nothing,
    Quit,
    Help,
    Stop,
    CleanGradle,
    CleanDependencies,
    CleanUsage,
    Build,
    Gradle(Seq<Seq<char>>),
    Git(Seq<Seq<char>>),
    Test(Option<Seq<char>>),
    Up,
    Down,
    Dependencies,
    Confirm,
    Release,
    Unrecognized(Seq<char>),
}

/// The texts of a list of strings.
pub open spec fn owned_texts(list: Seq<String>) -> Seq<Seq<char>> {
    Seq::new(list.len(), |i: int| list[i]@)
}

impl View for Command {
    type V = CommandModel;

    open spec fn view(&self) -> CommandModel {
        match self {
            Command::Nothing => CommandModel::Nothing,
            Command::Quit => CommandModel::Quit,
            Command::Help => CommandModel::Help,
            Command::Stop => CommandModel::Stop,
            Command::CleanGradle => CommandModel::CleanGradle,
            Command::CleanDependencies => CommandModel::CleanDependencies,
            Command::CleanUsage => CommandModel::CleanUsage,
            Command::Build => CommandModel::Build,
            Command::Gradle(arguments) => CommandModel::Gradle(owned_texts(arguments@)),
            Command::Git(arguments) => CommandModel::Git(owned_texts(arguments@)),
            Command::Test(None) => CommandModel::Test(None),
            Command::Test(Some(word)) => CommandModel::Test(Some(word@)),
            Command::Up => CommandModel::Up,
            Command::Down => CommandModel::Down,
            Command::Dependencies => CommandModel::Dependencies,
            Command::Confirm => CommandModel::Confirm,
            Command::Release => CommandModel::Release,
            Command::Unrecognized(word) => CommandModel::Unrecognized(word@),
        }
    }
}

/// What `clean` is asked to clean, by the word after it in lower case.
pub open spec fn clean_command(target: Seq<char>) -> CommandModel {
    if target == "gradle"@ {
        CommandModel::CleanGradle
    } else if target == "deps"@ {
        CommandModel::CleanDependencies
    } else {
        CommandModel::CleanUsage
    }
}

/// The command that stands for a first word `name`, given in lower case,
/// and the words `arguments` after it, where `clean_target` is the first
/// of these in lower case.
pub open spec fn named_command(
    name: Seq<char>,
    arguments: Seq<Seq<char>>,
    clean_target: Seq<char>,
) -> CommandModel {
    if name == "quit"@ || name == "exit"@ {
        CommandModel::Quit
    } else if name == "help"@ {
        CommandModel::Help
    } else if name == "stop"@ {
        CommandModel::Stop
    } else if name == "clean"@ {
        if arguments.len() > 0 {
            clean_command(clean_target)
        } else {
            CommandModel::Nothing
        }
    } else if name == "build"@ {
        CommandModel::Build
    } else if name == "gradle"@ {
        CommandModel::Gradle(arguments)
    } else if name == "git"@ {
        CommandModel::Git(arguments)
    } else if name == "test"@ {
        if arguments.len() > 0 {
            CommandModel::Test(Some(arguments[0]))
        } else {
            CommandModel::Test(None)
        }
    } else if name == "up"@ {
        CommandModel::Up
    } else if name == "down"@ {
        CommandModel::Down
    } else if name == "deps"@ {
        CommandModel::Dependencies
    } else if name == "confirm"@ {
        CommandModel::Confirm
    } else if name == "release"@ {
        CommandModel::Release
    } else {
        CommandModel::Unrecognized(name)
    }
}

/// The command that the words of a line stand for. The first word names
/// it, in any case.
pub open spec fn command_of(words: Seq<Seq<char>>) -> CommandModel {
    if words.len() == 0 {
        CommandModel::Nothing
    } else {
        named_command(
            lowercase(words[0]),
            words.skip(1),
            if words.len() > 1 {
                lowercase(words[1])
            } else {
                Seq::<char>::empty()
            },
        )
    }
}

fn owned_words(words: &Vec<&str>, from: usize) -> (r: Vec<String>)
    requires
        from <= words.len(),
    ensures
        owned_texts(r@) == texts(words@).skip(from as int),
{
    let mut out: Vec<String> = Vec::new();
    let mut i: usize = from;
    while i < words.len()
        invariant
            from <= i <= words.len(),
            out.len() == i - from,
            forall|j: int| 0 <= j < i - from ==> (#[trigger] out@[j])@ == words@[from + j]@,
        decreases words.len() - i,
    {
        out.push(words[i].to_owned());
        i += 1;
    }
    assert(owned_texts(out@) =~= texts(words@).skip(from as int));
    out
}

/// Tells which command a first word in lower case names.
pub fn command_named(name: String, words: &Vec<&str>, clean_target: &str) -> (r: Command)
    requires
        words.len() >= 1,
    ensures
        r@ == named_command(name@, texts(words@).skip(1), clean_target@),
{
    let ghost arguments = texts(words@).skip(1);
    let word = name.as_str();
    if same_text(word, "quit") || same_text(word, "exit") {
        Command::Quit
    } else if same_text(word, "help") {
        Command::Help
    } else if same_text(word, "stop") {
        Command::Stop
    } else if same_text(word, "clean") {
        if words.len() > 1 {
            if same_text(clean_target, "gradle") {
                Command::CleanGradle
            } else if same_text(clean_target, "deps") {
                Command::CleanDependencies
            } else {
                Command::CleanUsage
            }
        } else {
            Command::Nothing
        }
    } else if same_text(word, "build") {
        Command::Build
    } else if same_text(word, "gradle") {
        Command::Gradle(owned_words(words, 1))
    } else if same_text(word, "git") {
        Command::Git(owned_words(words, 1))
    } else if same_text(word, "test") {
        if words.len() > 1 {
            assert(arguments[0] == words@[1]@);
            Command::Test(Some(words[1].to_owned()))
        } else {
            Command::Test(None)
        }
    } else if same_text(word, "up") {
        Command::Up
    } else if same_text(word, "down") {
        Command::Down
    } else if same_text(word, "deps") {
        Command::Dependencies
    } else if same_text(word, "confirm") {
        Command::Confirm
    } else if same_text(word, "release") {
        Command::Release
    } else {
        Command::Unrecognized(name)
    }
}

/// Reads a command from a line.
pub fn parse_command(line: &str) -> (r: Command)
    ensures
        r@ == command_of(words(line@)),
{
    let list = split_whitespace(line);
    if list.len() == 0 {
        return Command::Nothing;
    }
    assert(texts(list@)[0] == list@[0]@);
    let name = to_lowercase(list[0]);
    if list.len() > 1 {
        assert(texts(list@)[1] == list@[1]@);
        let target = to_lowercase(list[1]);
        command_named(name, &list, target.as_str())
    } else {
        proof {
            reveal_strlit("");
        }
        assert(""@ =~= Seq::<char>::empty());
        command_named(name, &list, "")
    }
}

/// What a command to test aims at.
#[derive(PartialEq, Eq, Debug)]
pub enum Target {
    /// The known version at this index.
    Version(usize),
    /// A version that is not among the known versions.
    Unknown(SemanticVersion),
    /// A word that is no version.
    NotAVersion,
    /// There are no compatible ranges to start from.
    NoRanges,
    /// The compatible ranges have no bound on that side, or the known
    /// versions end there.
    NoFurther,
}

/// What a target holds, with its versions as models.
pub enum TargetModel {
    Version(int),
    Unknown(VersionModel),
    NotAVersion,
    NoRanges,
    NoFurther,
}

impl View for Target {
    type V = TargetModel;

    open spec fn view(&self) -> TargetModel {
        match self {
            Target::Version(i) => TargetModel::Version(*i as int),
            Target::Unknown(v) => TargetModel::Unknown(v@),
            Target::NotAVersion => TargetModel::NotAVersion,
            Target::NoRanges => TargetModel::NoRanges,
            Target::NoFurther => TargetModel::NoFurther,
        }
    }
}

/// The known version that a word names.
pub open spec fn test_target_spec(word: Seq<char>, versions: Seq<(VersionModel, u32)>) -> TargetModel {
    match parse_version_spec(word) {
        Err(_) => TargetModel::NotAVersion,
        Ok(v) => match first_where(versions, is_version(v)) {
            Some(i) => TargetModel::Version(i),
            None => TargetModel::Unknown(v),
        },
    }
}

/// Finds the known version that a word names.
pub fn test_target(word: &str, mc_versions: &Vec<(SemanticVersion, u32)>) -> (r: Target)
    ensures
        r@ == test_target_spec(word@, known_models(mc_versions@)),
        r matches Target::Version(i) ==> i < mc_versions.len(),
{
    match parse_version(word) {
        Err(_) => Target::NotAVersion,
        Ok(v) => match position_of_version(mc_versions, &v) {
            Some(i) => Target::Version(i),
            None => Target::Unknown(v),
        },
    }
}

/// The version to test next above the compatible ranges: the known
/// version with the numbers of the end of the last range.
pub open spec fn up_target_spec(ranges: Seq<RangeModel>, versions: Seq<(VersionModel, u32)>) -> TargetModel {
    if ranges.len() == 0 {
        TargetModel::NoRanges
    } else {
        match ranges.last().end {
            None => TargetModel::NoFurther,
            Some(end) => match first_where(versions, has_numbers(end)) {
                Some(i) => TargetModel::Version(i),
                None => TargetModel::Unknown(end),
            },
        }
    }
}

/// Finds the version to test next above the compatible ranges.
pub fn up_target(ranges: &Vec<SemanticVersionRange>, mc_versions: &Vec<(SemanticVersion, u32)>) -> (r:
    Target)
    ensures
        r@ == up_target_spec(models(ranges@), known_models(mc_versions@)),
        r matches Target::Version(i) ==> i < mc_versions.len(),
{
    if ranges.len() == 0 {
        return Target::NoRanges;
    }
    let last = &ranges[ranges.len() - 1];
    assert(models(ranges@).last() == last@);
    match &last.end {
        None => Target::NoFurther,
        Some(end) => match position_of_numbers(mc_versions, end) {
            Some(i) => Target::Version(i),
            None => Target::Unknown(end.clone()),
        },
    }
}

/// The version to test next below the compatible ranges: the known
/// version after the one with the numbers of the start of the first range.
pub open spec fn down_target_spec(ranges: Seq<RangeModel>, versions: Seq<(VersionModel, u32)>) -> TargetModel {
    if ranges.len() == 0 {
        TargetModel::NoRanges
    } else {
        match ranges[0].start {
            None => TargetModel::NoFurther,
            Some(start) => match first_where(versions, has_numbers(start)) {
                Some(i) => if i + 1 < versions.len() {
                    TargetModel::Version(i + 1)
                } else {
                    TargetModel::NoFurther
                },
                None => TargetModel::Unknown(start),
            },
        }
    }
}

/// Finds the version to test next below the compatible ranges.
pub fn down_target(ranges: &Vec<SemanticVersionRange>, mc_versions: &Vec<(SemanticVersion, u32)>) -> (r:
    Target)
    ensures
        r@ == down_target_spec(models(ranges@), known_models(mc_versions@)),
        r matches Target::Version(i) ==> i < mc_versions.len(),
{
    if ranges.len() == 0 {
        return Target::NoRanges;
    }
    let first = &ranges[0];
    assert(models(ranges@)[0] == first@);
    match &first.start {
        None => Target::NoFurther,
        Some(start) => match position_of_numbers(mc_versions, start) {
            Some(i) => if i + 1 < mc_versions.len() {
                Target::Version(i + 1)
            } else {
                Target::NoFurther
            },
            None => Target::Unknown(start.clone()),
        },
    }
}

} // verus!
