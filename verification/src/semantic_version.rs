//! Semantic versions and their precedence, as defined by https://semver.org/
use crate::precedence::{
    compare_numbers, compare_releases, number_precedence, release_precedence, Precedence,
};
pub use crate::range_set::simplify_range_set;
pub use crate::version_range::{SemanticVersionRange, VersionMatchType};
use std::cmp::Ordering;
use vstd::prelude::*;
use vstd::std_specs::cmp::{PartialEqSpecImpl, PartialOrdSpecImpl};

verus! {

/// A version `major.minor.patch[-release][+build]`.
#[derive(Debug)]
pub struct SemanticVersion {
    pub major: u32,
    pub minor: u32,
    pub patch: u32,
    pub release: Option<String>,
    pub build: Option<String>,
}

/// What a version holds, with its texts as sequences of characters.
pub struct VersionModel {
    pub major: u32,
    pub minor: u32,
    pub patch: u32,
    pub release: Option<Seq<char>>,
    pub build: Option<Seq<char>>,
}

/// The text of an optional string.
pub open spec fn text_of(text: Option<String>) -> Option<Seq<char>> {
    match text {
        Some(s) => Some(s@),
        None => None,
    }
}

impl View for SemanticVersion {
    type V = VersionModel;

    open spec fn view(&self) -> VersionModel {
        VersionModel {
            major: self.major,
            minor: self.minor,
            patch: self.patch,
            release: text_of(self.release),
            build: text_of(self.build),
        }
    }
}

/// Precedence of `a` relative to `b`: by major, minor and patch number, then
/// by release, where a version without a release is higher than any
/// pre-release of it. The build never counts.
pub open spec fn precedence(a: VersionModel, b: VersionModel) -> Precedence {
    if a.major != b.major {
        number_precedence(a.major as int, b.major as int)
    } else if a.minor != b.minor {
        number_precedence(a.minor as int, b.minor as int)
    } else if a.patch != b.patch {
        number_precedence(a.patch as int, b.patch as int)
    } else {
        match (a.release, b.release) {
            (None, None) => Precedence::Same,
            (None, Some(_)) => Precedence::Higher,
            (Some(_), None) => Precedence::Lower,
            (Some(x), Some(y)) => release_precedence(x, y),
        }
    }
}

/// `a` comes strictly before `b`.
pub open spec fn precedes(a: VersionModel, b: VersionModel) -> bool {
    precedence(a, b) == Precedence::Lower
}

/// `a` comes before `b` or stands level with it.
pub open spec fn at_most(a: VersionModel, b: VersionModel) -> bool {
    precedence(a, b) != Precedence::Higher
}

/// Two versions are equal when their numbers and releases are; the build is
/// not looked at.
pub open spec fn same_version(a: VersionModel, b: VersionModel) -> bool {
    a.major == b.major && a.minor == b.minor && a.patch == b.patch && a.release == b.release
}

/// The bound that follows `v` for the purpose of a range: `v` with one more,
/// empty, identifier at the end of its release.
pub open spec fn next_version_spec(v: VersionModel) -> VersionModel {
    VersionModel {
        release: match v.release {
            None => Some(Seq::<char>::empty()),
            Some(s) => Some(s.push('.')),
        },
        ..v
    }
}

fn clone_text(text: &Option<String>) -> (r: Option<String>)
    ensures
        r == *text,
{
    match text {
        Some(s) => Some(s.clone()),
        None => None,
    }
}

fn same_text(a: &Option<String>, b: &Option<String>) -> (r: bool)
    ensures
        r == (text_of(*a) == text_of(*b)),
{
    match (a, b) {
        (None, None) => true,
        (Some(x), Some(y)) => *x == *y,
        _ => false,
    }
}

impl Clone for SemanticVersion {
    fn clone(&self) -> (r: Self)
        ensures
            r == *self,
    {
        SemanticVersion {
            major: self.major,
            minor: self.minor,
            patch: self.patch,
            release: clone_text(&self.release),
            build: clone_text(&self.build),
        }
    }
}

impl Default for SemanticVersion {
    fn default() -> (r: Self)
        ensures
            r@ == (VersionModel { major: 0, minor: 0, patch: 0, release: None, build: None }),
    {
        SemanticVersion { major: 0, minor: 0, patch: 0, release: None, build: None }
    }
}

impl SemanticVersion {
    /// The exclusive bound right after this version, for building ranges. It
    /// is higher than `self` only where `self` has a release: see
    /// `lemma_next_version_is_higher`.
    pub fn next_version(self) -> (r: Self)
        ensures
            r@ == next_version_spec(self@),
    {
        let release = match self.release {
            None => String::new(),
            Some(s) => {
                proof {
                    reveal_strlit(".");
                }
                let t = s.concat(".");
                assert(t@ =~= s@.push('.'));
                t
            },
        };
        SemanticVersion {
            major: self.major,
            minor: self.minor,
            patch: self.patch,
            release: Some(release),
            build: self.build,
        }
    }

    /// Do the two versions have the same major, minor and patch number?
    pub fn matches_numbers(&self, other: &Self) -> (r: bool)
        ensures
            r == (self.major == other.major && self.minor == other.minor && self.patch
                == other.patch),
    {
        self.major == other.major && self.minor == other.minor && self.patch == other.patch
    }

    /// Precedence of `self` relative to `other`.
    pub fn compare(&self, other: &Self) -> (r: Precedence)
        ensures
            r == precedence(self@, other@),
    {
        if self.major != other.major {
            compare_numbers(self.major, other.major)
        } else if self.minor != other.minor {
            compare_numbers(self.minor, other.minor)
        } else if self.patch != other.patch {
            compare_numbers(self.patch, other.patch)
        } else {
            match (&self.release, &other.release) {
                (None, None) => Precedence::Same,
                (None, Some(_)) => Precedence::Higher,
                (Some(_), None) => Precedence::Lower,
                (Some(x), Some(y)) => compare_releases(x.as_str(), y.as_str()),
            }
        }
    }
}

impl PartialEq for SemanticVersion {
    fn eq(&self, other: &Self) -> (r: bool) {
        self.major == other.major && self.minor == other.minor && self.patch == other.patch
            && same_text(&self.release, &other.release)
    }
}

impl PartialEqSpecImpl for SemanticVersion {
    open spec fn obeys_eq_spec() -> bool {
        true
    }

    open spec fn eq_spec(&self, other: &Self) -> bool {
        same_version(self@, other@)
    }
}

impl Eq for SemanticVersion {

}

impl PartialOrd for SemanticVersion {
    fn partial_cmp(&self, other: &Self) -> (r: Option<Ordering>) {
        Some(
            match self.compare(other) {
                Precedence::Lower => Ordering::Less,
                Precedence::Same => Ordering::Equal,
                Precedence::Higher => Ordering::Greater,
            },
        )
    }
}

impl PartialOrdSpecImpl for SemanticVersion {
    open spec fn obeys_partial_cmp_spec() -> bool {
        true
    }

    open spec fn partial_cmp_spec(&self, other: &Self) -> Option<Ordering> {
        Some(
            match precedence(self@, other@) {
                Precedence::Lower => Ordering::Less,
                Precedence::Same => Ordering::Equal,
                Precedence::Higher => Ordering::Greater,
            },
        )
    }
}

} // verus!
