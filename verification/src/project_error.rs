//! What can go wrong when the project files are worked on.
use crate::error::{message_prefix, ParseError, ParseErrorModel};
use vstd::prelude::*;

verus! {

/// Why the files of a project could not be worked on.
#[derive(PartialEq, Eq, Debug)]
pub enum ProjectError {
    /// The properties hold no line for the name.
    MissingProperty(String),
    /// A version or a range in the properties cannot be read.
    Parse(ParseError),
    /// The wrapper properties do not say where the build tool comes from.
    MissingGradleUrl,
    /// None of the loader versions is stable.
    NoStableLoader,
    /// The version of the properties is not among the known game versions.
    UnknownVersion,
    /// The compatible ranges hold none of the known game versions.
    NoKnownVersion,
    /// The newest game version has no minor version after it.
    NoLaterVersion,
    /// A dependency has no version for the version of the game.
    Unsupported { name: String, version: String },
}

/// What a project error holds, with its texts as sequences of characters.
pub enum ProjectErrorModel {
    MissingProperty(Seq<char>),
    Parse(ParseErrorModel),
    MissingGradleUrl,
    NoStableLoader,
    UnknownVersion,
    NoKnownVersion,
    NoLaterVersion,
    Unsupported { name: Seq<char>, version: Seq<char> },
}

impl View for ProjectError {
    type V = ProjectErrorModel;

    open spec fn view(&self) -> ProjectErrorModel {
        match self {
            ProjectError::MissingProperty(name) => ProjectErrorModel::MissingProperty(name@),
            ProjectError::Parse(e) => ProjectErrorModel::Parse(e@),
            ProjectError::MissingGradleUrl => ProjectErrorModel::MissingGradleUrl,
            ProjectError::NoStableLoader => ProjectErrorModel::NoStableLoader,
            ProjectError::UnknownVersion => ProjectErrorModel::UnknownVersion,
            ProjectError::NoKnownVersion => ProjectErrorModel::NoKnownVersion,
            ProjectError::NoLaterVersion => ProjectErrorModel::NoLaterVersion,
            ProjectError::Unsupported { name, version } => ProjectErrorModel::Unsupported {
                name: name@,
                version: version@,
            },
        }
    }
}

/// The line that tells the user of the error.
pub open spec fn message_spec(e: ProjectErrorModel) -> Seq<char> {
    match e {
        ProjectErrorModel::MissingProperty(name) => "No property '"@ + name
            + "' found in gradle properties."@,
        ProjectErrorModel::Parse(e) => message_prefix(e.kind) + e.text,
        ProjectErrorModel::MissingGradleUrl => "Could not find location of active gradle source."@,
        ProjectErrorModel::NoStableLoader => "No stable loader versions found."@,
        ProjectErrorModel::UnknownVersion => "Current version not found in the Minecraft version list."@,
        ProjectErrorModel::NoKnownVersion => "Current compatible range contains no known Minecraft versions."@,
        ProjectErrorModel::NoLaterVersion => "No minor version follows the newest Minecraft version."@,
        ProjectErrorModel::Unsupported { name, version } => "Dependency '"@ + name
            + "' does not support Minecraft version "@ + version + "."@,
    }
}

impl ProjectError {
    /// A line for the user that tells of the error.
    pub fn message(&self) -> (r: String)
        ensures
            r@ == message_spec(self@),
    {
        match self {
            ProjectError::MissingProperty(name) => String::from_str("No property '").concat(
                name.as_str(),
            ).concat("' found in gradle properties."),
            ProjectError::Parse(e) => e.message(),
            ProjectError::MissingGradleUrl => String::from_str(
                "Could not find location of active gradle source.",
            ),
            ProjectError::NoStableLoader => String::from_str("No stable loader versions found."),
            ProjectError::UnknownVersion => String::from_str(
                "Current version not found in the Minecraft version list.",
            ),
            ProjectError::NoKnownVersion => String::from_str(
                "Current compatible range contains no known Minecraft versions.",
            ),
            ProjectError::NoLaterVersion => String::from_str(
                "No minor version follows the newest Minecraft version.",
            ),
            ProjectError::Unsupported { name, version } => String::from_str("Dependency '").concat(
                name.as_str(),
            ).concat("' does not support Minecraft version ").concat(version.as_str()).concat("."),
        }
    }
}

} // verus!
