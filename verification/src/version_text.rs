//! Versions as text: `major[.minor[.patch]][-release][+build]`.
use crate::decimal::{decimal_digits, decimal_string, parse_u32, parse_u32_spec};
use crate::error::{invalid_number, missing_major, ParseError, ParseErrorKind, ParseErrorModel};
use crate::semantic_version::{text_of, SemanticVersion, VersionModel};
use crate::text::{after, before, cut, optional_text};
use vstd::prelude::*;

verus! {

/// The fields of a version as they stand in its text.
pub struct VersionFields {
    pub major: Seq<char>,
    pub minor: Option<Seq<char>>,
    pub patch: Option<Seq<char>>,
    pub release: Option<Seq<char>>,
    pub build: Option<Seq<char>>,
}

/// The numbers of a version before its release and build: what stands before
/// the first `+` and, in that, before the first `-`.
pub open spec fn core_text(s: Seq<char>) -> Seq<char> {
    before(before(s, '+'), '-')
}

/// Takes the text of a version apart. The build is what follows the first
/// `+`; in what stands before it, the release is what follows the first `-`;
/// what is left is cut at its first two `.` into major, minor and patch.
pub open spec fn version_fields(s: Seq<char>) -> VersionFields {
    let core = core_text(s);
    VersionFields {
        major: before(core, '.'),
        minor: match after(core, '.') {
            Some(rest) => Some(before(rest, '.')),
            None => None,
        },
        patch: match after(core, '.') {
            Some(rest) => after(rest, '.'),
            None => None,
        },
        release: after(before(s, '+'), '-'),
        build: after(s, '+'),
    }
}

/// The major number: the field must be there and be a number.
pub open spec fn major_number(field: Seq<char>, version: Seq<char>) -> Result<u32, ParseErrorModel> {
    if field.len() == 0 {
        Err(missing_major(version))
    } else {
        match parse_u32_spec(field) {
            Some(n) => Ok(n),
            None => Err(invalid_number(field)),
        }
    }
}

/// A minor or patch number: `0` where the field is absent.
pub open spec fn optional_number(field: Option<Seq<char>>) -> Result<u32, ParseErrorModel> {
    match field {
        None => Ok(0u32),
        Some(text) => match parse_u32_spec(text) {
            Some(n) => Ok(n),
            None => Err(invalid_number(text)),
        },
    }
}

/// The version that a text denotes, or the first fault in it, looking at
/// major, minor and patch in that order. Release and build are taken as
/// they stand.
pub open spec fn parse_version_spec(s: Seq<char>) -> Result<VersionModel, ParseErrorModel> {
    let fields = version_fields(s);
    match major_number(fields.major, s) {
        Err(e) => Err(e),
        Ok(major) => match optional_number(fields.minor) {
            Err(e) => Err(e),
            Ok(minor) => match optional_number(fields.patch) {
                Err(e) => Err(e),
                Ok(patch) => Ok(
                    VersionModel {
                        major,
                        minor,
                        patch,
                        release: fields.release,
                        build: fields.build,
                    },
                ),
            },
        },
    }
}

/// The text of a version: the major number; the minor number unless minor
/// and patch are both `0`; the patch number unless it is `0`; then `-` and
/// the release, `+` and the build, where there are any.
pub open spec fn format_version_spec(v: VersionModel) -> Seq<char> {
    decimal_digits(v.major as nat) + (if v.minor > 0 || v.patch > 0 {
        seq!['.'] + decimal_digits(v.minor as nat)
    } else {
        Seq::<char>::empty()
    }) + (if v.patch > 0 {
        seq!['.'] + decimal_digits(v.patch as nat)
    } else {
        Seq::<char>::empty()
    }) + (match v.release {
        Some(r) => seq!['-'] + r,
        None => Seq::<char>::empty(),
    }) + (match v.build {
        Some(b) => seq!['+'] + b,
        None => Seq::<char>::empty(),
    })
}

/// The fields of a version, borrowed from its text.
pub struct FieldTexts<'a> {
    pub major: &'a str,
    pub minor: Option<&'a str>,
    pub patch: Option<&'a str>,
    pub release: Option<&'a str>,
    pub build: Option<&'a str>,
}

impl<'a> View for FieldTexts<'a> {
    type V = VersionFields;

    open spec fn view(&self) -> VersionFields {
        VersionFields {
            major: self.major@,
            minor: optional_text(self.minor),
            patch: optional_text(self.patch),
            release: optional_text(self.release),
            build: optional_text(self.build),
        }
    }
}

/// Takes the text of a version apart into its fields.
pub fn split_fields<'a>(s: &'a str) -> (r: FieldTexts<'a>)
    ensures
        r@ == version_fields(s@),
{
    let (rest, build) = cut(s, '+');
    let (core, release) = cut(rest, '-');
    let (major, numbers) = cut(core, '.');
    let (minor, patch) = match numbers {
        Some(numbers) => {
            let (minor, patch) = cut(numbers, '.');
            (Some(minor), patch)
        },
        None => (None, None),
    };
    FieldTexts { major, minor, patch, release, build }
}

/// Reads the major number of `version` from its field.
pub fn read_major(field: &str, version: &str) -> (r: Result<u32, ParseError>)
    ensures
        match r {
            Ok(n) => major_number(field@, version@) == Ok::<u32, ParseErrorModel>(n),
            Err(e) => major_number(field@, version@) == Err::<u32, ParseErrorModel>(e@),
        },
{
    if field.unicode_len() == 0 {
        return Err(ParseError::new(ParseErrorKind::MissingMajor, version));
    }
    match parse_u32(field) {
        Some(n) => Ok(n),
        None => Err(ParseError::new(ParseErrorKind::InvalidNumber, field)),
    }
}

/// Reads a minor or patch number from its field.
pub fn read_optional_number(field: Option<&str>) -> (r: Result<u32, ParseError>)
    ensures
        match r {
            Ok(n) => optional_number(optional_text(field)) == Ok::<u32, ParseErrorModel>(n),
            Err(e) => optional_number(optional_text(field)) == Err::<u32, ParseErrorModel>(e@),
        },
{
    match field {
        None => Ok(0),
        Some(text) => match parse_u32(text) {
            Some(n) => Ok(n),
            None => Err(ParseError::new(ParseErrorKind::InvalidNumber, text)),
        },
    }
}

/// A copy of an optional text.
pub fn owned_text(text: Option<&str>) -> (r: Option<String>)
    ensures
        text_of(r) == optional_text(text),
{
    match text {
        Some(s) => Some(s.to_owned()),
        None => None,
    }
}

/// Reads a version from its text.
pub fn parse_version(s: &str) -> (r: Result<SemanticVersion, ParseError>)
    ensures
        match r {
            Ok(v) => parse_version_spec(s@) == Ok::<VersionModel, ParseErrorModel>(v@),
            Err(e) => parse_version_spec(s@) == Err::<VersionModel, ParseErrorModel>(e@),
        },
{
    let fields = split_fields(s);
    let major = match read_major(fields.major, s) {
        Ok(n) => n,
        Err(e) => {
            return Err(e);
        },
    };
    let minor = match read_optional_number(fields.minor) {
        Ok(n) => n,
        Err(e) => {
            return Err(e);
        },
    };
    let patch = match read_optional_number(fields.patch) {
        Ok(n) => n,
        Err(e) => {
            return Err(e);
        },
    };
    Ok(
        SemanticVersion {
            major,
            minor,
            patch,
            release: owned_text(fields.release),
            build: owned_text(fields.build),
        },
    )
}

/// Writes a version as text, leaving out trailing numbers that are `0`.
pub fn format_version(v: &SemanticVersion) -> (r: String)
    ensures
        r@ == format_version_spec(v@),
{
    proof {
        reveal_strlit(".");
        reveal_strlit("-");
        reveal_strlit("+");
    }
    let mut out = decimal_string(v.major);
    let ghost major = out@;
    if v.minor > 0 || v.patch > 0 {
        out.append(".");
        out.append(decimal_string(v.minor).as_str());
    }
    let ghost with_minor = out@;
    assert(with_minor =~= major + (if v.minor > 0 || v.patch > 0 {
        seq!['.'] + decimal_digits(v.minor as nat)
    } else {
        Seq::<char>::empty()
    }));
    if v.patch > 0 {
        out.append(".");
        out.append(decimal_string(v.patch).as_str());
    }
    let ghost with_patch = out@;
    assert(with_patch =~= with_minor + (if v.patch > 0 {
        seq!['.'] + decimal_digits(v.patch as nat)
    } else {
        Seq::<char>::empty()
    }));
    match &v.release {
        Some(release) => {
            out.append("-");
            out.append(release.as_str());
        },
        None => {},
    }
    let ghost with_release = out@;
    assert(with_release =~= with_patch + (match v@.release {
        Some(r) => seq!['-'] + r,
        None => Seq::<char>::empty(),
    }));
    match &v.build {
        Some(build) => {
            out.append("+");
            out.append(build.as_str());
        },
        None => {},
    }
    assert(out@ =~= with_release + (match v@.build {
        Some(b) => seq!['+'] + b,
        None => Seq::<char>::empty(),
    }));
    out
}

impl SemanticVersion {
    /// The text of the version, as `format_version` writes it.
    pub fn to_string(&self) -> (r: String)
        ensures
            r@ == format_version_spec(self@),
    {
        format_version(self)
    }
}

impl std::str::FromStr for SemanticVersion {
    type Err = ParseError;

    fn from_str(s: &str) -> (r: Result<Self, ParseError>)
        ensures
            match r {
                Ok(v) => parse_version_spec(s@) == Ok::<VersionModel, ParseErrorModel>(v@),
                Err(e) => parse_version_spec(s@) == Err::<VersionModel, ParseErrorModel>(e@),
            },
    {
        parse_version(s)
    }
}

} // verus!
