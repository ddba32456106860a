//! The records of the version services, with the fields that are read.
use vstd::prelude::*;

verus! {

/// The current release of the build tool.
#[derive(Debug)]
#[allow(non_snake_case)]
pub struct GradleVersion {
    pub version: String,
    pub downloadUrl: String,
}

/// A release of the build plugin.
#[derive(Debug)]
pub struct LoomVersion {
    pub tag_name: String,
}

/// A version of the game.
#[derive(Debug)]
pub struct MinecraftVersion {
    pub version: String,
    pub stable: bool,
}

/// A build of the mappings for one version of the game.
#[derive(Debug)]
#[allow(non_snake_case)]
pub struct YarnMappingsVersion {
    pub gameVersion: String,
    pub build: u32,
}

/// A version of the loader.
#[derive(Debug)]
pub struct FabricLoaderVersion {
    pub version: String,
    pub stable: bool,
}

/// A file of a published version of a project.
#[derive(Debug)]
pub struct ProjectFile {
    pub url: String,
}

/// A published version of a project.
#[derive(Debug)]
pub struct ProjectVersion {
    pub game_versions: Box<[String]>,
    pub version_number: String,
    pub files: Box<[ProjectFile]>,
}

} // verus!
