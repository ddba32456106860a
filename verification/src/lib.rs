//! Semantic versions, ranges of versions and sets of ranges, and what a
//! build tool for projects tied to the versions of a game does with them:
//! it reads commands, keeps the properties of the project up to date, and
//! plans the update of its dependencies.
//!
//! The functions here are verified against contracts over models: texts are
//! sequences of characters, and each type has a view. One function is
//! taken on trust: `dependencies::to_lowercase`, which hands a text to the
//! standard library.

pub mod api_structs;
pub mod command;
pub mod common;
pub mod decimal;
pub mod dependencies;
pub mod error;
pub mod game_versions;
pub mod precedence;
pub mod precedence_laws;
pub mod project;
pub mod project_error;
pub mod properties;
pub mod range_set;
pub mod range_set_laws;
pub mod semantic_version;
pub mod text;
pub mod trim;
pub mod version_range;
pub mod version_range_laws;
pub mod version_text;
pub mod version_text_laws;
