//! Ranges of versions, written as comparators: `>=1.2 <2`, `^1`, `~1.4`, `1.x`.
//!
//! A range is the half-open interval from `start`, which belongs to it, to
//! `end`, which does not; either bound may be absent.
use crate::error::{malformed_comparator, ParseError, ParseErrorKind, ParseErrorModel};
use crate::precedence::Precedence;
use crate::semantic_version::{
    at_most, next_version_spec, precedence, precedes, SemanticVersion, VersionModel,
};
use crate::text::{optional_text, split_whitespace, texts, to_chars, words};
use crate::version_text::{
    format_version, format_version_spec, major_number, optional_number, owned_text, read_major,
    read_optional_number, split_fields, version_fields, FieldTexts, VersionFields,
};
use vstd::prelude::*;

verus! {

/// What a comparator asks of a version.
#[derive(Clone, Copy, PartialEq, Eq, Structural, Debug)]
pub enum VersionMatchType {
    EqualTo,
    GreaterThan,
    LessThan,
    GreaterThanOrEqualTo,
    LessThanOrEqualTo,
    MatchMajorVersion,
    MatchMinorVersion,
}

/// The versions from `start`, which is one of them, up to `end`, which is
/// not. An absent bound leaves that side open.
#[derive(Debug)]
pub struct SemanticVersionRange {
    pub start: Option<SemanticVersion>,
    pub end: Option<SemanticVersion>,
}

/// What a range holds, with its bounds as models.
pub struct RangeModel {
    pub start: Option<VersionModel>,
    pub end: Option<VersionModel>,
}

/// The model of an optional bound.
pub open spec fn bound_of(bound: Option<SemanticVersion>) -> Option<VersionModel> {
    match bound {
        Some(v) => Some(v@),
        None => None,
    }
}

impl View for SemanticVersionRange {
    type V = RangeModel;

    open spec fn view(&self) -> RangeModel {
        RangeModel { start: bound_of(self.start), end: bound_of(self.end) }
    }
}

/// The range of all versions.
pub open spec fn full_range() -> RangeModel {
    RangeModel { start: None, end: None }
}

/// `v` lies in `range`: not before its start, and before its end.
pub open spec fn range_contains(range: RangeModel, v: VersionModel) -> bool {
    &&& range.start matches Some(start) ==> at_most(start, v)
    &&& range.end matches Some(end) ==> precedes(v, end)
}

/// The operator that `expression` begins with, and how many characters it
/// takes. Without an operator the comparator asks for equality.
pub open spec fn operator_of(expression: Seq<char>) -> (VersionMatchType, int) {
    let e = expression;
    if e.len() >= 2 && e[0] == '>' && e[1] == '=' {
        (VersionMatchType::GreaterThanOrEqualTo, 2)
    } else if e.len() >= 2 && e[0] == '<' && e[1] == '=' {
        (VersionMatchType::LessThanOrEqualTo, 2)
    } else if e.len() >= 1 && e[0] == '>' {
        (VersionMatchType::GreaterThan, 1)
    } else if e.len() >= 1 && e[0] == '<' {
        (VersionMatchType::LessThan, 1)
    } else if e.len() >= 1 && e[0] == '=' {
        (VersionMatchType::EqualTo, 1)
    } else if e.len() >= 1 && e[0] == '^' {
        (VersionMatchType::MatchMajorVersion, 1)
    } else if e.len() >= 1 && e[0] == '~' {
        (VersionMatchType::MatchMinorVersion, 1)
    } else {
        (VersionMatchType::EqualTo, 0)
    }
}

/// A field that stands for any number: `X`, `x` or `*`.
pub open spec fn is_wildcard(field: Option<Seq<char>>) -> bool {
    field == Some(seq!['X']) || field == Some(seq!['x']) || field == Some(seq!['*'])
}

/// What the comparator asks once wildcards are counted: one in the minor
/// field asks for the major version, whatever the operator; one in the patch
/// field asks for the minor version, unless the major version is asked for.
pub open spec fn match_type_of(operator: VersionMatchType, fields: VersionFields) -> VersionMatchType {
    if is_wildcard(fields.minor) {
        VersionMatchType::MatchMajorVersion
    } else if is_wildcard(fields.patch) && operator != VersionMatchType::MatchMajorVersion {
        VersionMatchType::MatchMinorVersion
    } else {
        operator
    }
}

/// A minor or patch number of a comparator: `0` for a wildcard.
pub open spec fn comparator_number(field: Option<Seq<char>>) -> Result<u32, ParseErrorModel> {
    if is_wildcard(field) {
        Ok(0u32)
    } else {
        optional_number(field)
    }
}

/// The lowest pre-release of `major.minor.0`.
pub open spec fn floor_version(major: u32, minor: u32) -> VersionModel {
    VersionModel { major, minor, patch: 0, release: Some(Seq::<char>::empty()), build: None }
}

/// The text of a field; empty where the field is absent.
pub open spec fn field_text(field: Option<Seq<char>>) -> Seq<char> {
    match field {
        Some(text) => text,
        None => Seq::<char>::empty(),
    }
}

/// The interval a comparator stands for. The comparators `^` and `~` need
/// the number after the one they name, and fail where there is none.
pub open spec fn comparator_bounds(
    match_type: VersionMatchType,
    base: VersionModel,
    fields: VersionFields,
) -> Result<RangeModel, ParseErrorModel> {
    match match_type {
        VersionMatchType::EqualTo => Ok(
            RangeModel { start: Some(base), end: Some(next_version_spec(base)) },
        ),
        VersionMatchType::GreaterThanOrEqualTo => Ok(RangeModel { start: Some(base), end: None }),
        VersionMatchType::LessThan => Ok(RangeModel { start: None, end: Some(base) }),
        VersionMatchType::GreaterThan => Ok(
            RangeModel { start: Some(next_version_spec(base)), end: None },
        ),
        VersionMatchType::LessThanOrEqualTo => Ok(
            RangeModel { start: None, end: Some(next_version_spec(base)) },
        ),
        VersionMatchType::MatchMajorVersion => if base.major < u32::MAX {
            Ok(
                RangeModel {
                    start: Some(floor_version(base.major, 0)),
                    end: Some(floor_version((base.major + 1) as u32, 0)),
                },
            )
        } else {
            Err(malformed_comparator(fields.major))
        },
        VersionMatchType::MatchMinorVersion => if base.minor < u32::MAX {
            Ok(
                RangeModel {
                    start: Some(floor_version(base.major, base.minor)),
                    end: Some(floor_version(base.major, (base.minor + 1) as u32)),
                },
            )
        } else {
            Err(malformed_comparator(field_text(fields.minor)))
        },
    }
}

/// The interval that one comparator expression stands for, or the first
/// fault in it.
pub open spec fn parse_expression_spec(expression: Seq<char>) -> Result<RangeModel, ParseErrorModel> {
    let (operator, length) = operator_of(expression);
    let version = expression.skip(length);
    let fields = version_fields(version);
    match major_number(fields.major, version) {
        Err(e) => Err(e),
        Ok(major) => match comparator_number(fields.minor) {
            Err(e) => Err(e),
            Ok(minor) => match comparator_number(fields.patch) {
                Err(e) => Err(e),
                Ok(patch) => comparator_bounds(
                    match_type_of(operator, fields),
                    VersionModel {
                        major,
                        minor,
                        patch,
                        release: fields.release,
                        build: fields.build,
                    },
                    fields,
                ),
            },
        },
    }
}

/// The higher of two lower bounds; the one held already where they are level.
pub open spec fn later_start(held: Option<VersionModel>, new: Option<VersionModel>) -> Option<VersionModel> {
    match (new, held) {
        (Some(n), Some(h)) => if precedence(n, h) == Precedence::Higher {
            new
        } else {
            held
        },
        (Some(_), None) => new,
        (None, _) => held,
    }
}

/// The lower of two upper bounds; the one held already where they are level.
pub open spec fn earlier_end(held: Option<VersionModel>, new: Option<VersionModel>) -> Option<VersionModel> {
    match (new, held) {
        (Some(n), Some(h)) => if precedence(n, h) == Precedence::Lower {
            new
        } else {
            held
        },
        (Some(_), None) => new,
        (None, _) => held,
    }
}

/// `range` narrowed by one more comparator: the more restrictive bound wins
/// on either side.
pub open spec fn narrowed(range: RangeModel, by: RangeModel) -> RangeModel {
    RangeModel {
        start: later_start(range.start, by.start),
        end: earlier_end(range.end, by.end),
    }
}

/// `range` narrowed by each of `expressions` in turn, up to the first that
/// is at fault.
pub open spec fn parse_expressions(expressions: Seq<Seq<char>>, range: RangeModel) -> Result<
    RangeModel,
    ParseErrorModel,
>
    decreases expressions.len(),
{
    if expressions.len() == 0 {
        Ok(range)
    } else {
        match parse_expression_spec(expressions[0]) {
            Err(e) => Err(e),
            Ok(by) => parse_expressions(expressions.skip(1), narrowed(range, by)),
        }
    }
}

/// The range that a text of comparators, set apart by white space, denotes.
pub open spec fn parse_range_spec(s: Seq<char>) -> Result<RangeModel, ParseErrorModel> {
    parse_expressions(words(s), full_range())
}

/// The text of a range.
pub open spec fn format_range_spec(range: RangeModel) -> Seq<char> {
    match (range.start, range.end) {
        (None, None) => seq!['*'],
        (Some(start), None) => seq!['>', '='] + format_version_spec(start),
        (None, Some(end)) => seq!['<'] + format_version_spec(end),
        (Some(start), Some(end)) => seq!['>', '='] + format_version_spec(start) + seq![' ', '<']
            + format_version_spec(end),
    }
}

fn clone_bound(bound: &Option<SemanticVersion>) -> (r: Option<SemanticVersion>)
    ensures
        r == *bound,
{
    match bound {
        Some(v) => Some(v.clone()),
        None => None,
    }
}

impl Clone for SemanticVersionRange {
    fn clone(&self) -> (r: Self)
        ensures
            r == *self,
    {
        SemanticVersionRange { start: clone_bound(&self.start), end: clone_bound(&self.end) }
    }
}

impl Default for SemanticVersionRange {
    fn default() -> (r: Self)
        ensures
            r@ == full_range(),
    {
        SemanticVersionRange { start: None, end: None }
    }
}

impl SemanticVersionRange {
    /// Does `version` lie in the range?
    pub fn contains(&self, version: &SemanticVersion) -> (r: bool)
        ensures
            r == range_contains(self@, version@),
    {
        let after_start = match &self.start {
            Some(start) => match start.compare(version) {
                Precedence::Higher => false,
                _ => true,
            },
            None => true,
        };
        let before_end = match &self.end {
            Some(end) => match version.compare(end) {
                Precedence::Lower => true,
                _ => false,
            },
            None => true,
        };
        after_start && before_end
    }

    /// Narrows the range by the bounds of one more comparator.
    pub fn narrow(&mut self, by: SemanticVersionRange)
        ensures
            final(self)@ == narrowed(old(self)@, by@),
    {
        match by.start {
            Some(new) => {
                let replace = match &self.start {
                    Some(held) => match new.compare(held) {
                        Precedence::Higher => true,
                        _ => false,
                    },
                    None => true,
                };
                if replace {
                    self.start = Some(new);
                }
            },
            None => {},
        }
        match by.end {
            Some(new) => {
                let replace = match &self.end {
                    Some(held) => match new.compare(held) {
                        Precedence::Lower => true,
                        _ => false,
                    },
                    None => true,
                };
                if replace {
                    self.end = Some(new);
                }
            },
            None => {},
        }
    }
}

/// Takes the operator off the front of a comparator expression.
pub fn read_operator<'a>(expression: &'a str) -> (r: (VersionMatchType, &'a str))
    ensures
        r.0 == operator_of(expression@).0,
        r.1@ == expression@.skip(operator_of(expression@).1),
{
    let chars = to_chars(expression);
    let n = chars.len();
    let (operator, length): (VersionMatchType, usize) = if n >= 2 && chars[0] == '>' && chars[1]
        == '=' {
        (VersionMatchType::GreaterThanOrEqualTo, 2)
    } else if n >= 2 && chars[0] == '<' && chars[1] == '=' {
        (VersionMatchType::LessThanOrEqualTo, 2)
    } else if n >= 1 && chars[0] == '>' {
        (VersionMatchType::GreaterThan, 1)
    } else if n >= 1 && chars[0] == '<' {
        (VersionMatchType::LessThan, 1)
    } else if n >= 1 && chars[0] == '=' {
        (VersionMatchType::EqualTo, 1)
    } else if n >= 1 && chars[0] == '^' {
        (VersionMatchType::MatchMajorVersion, 1)
    } else if n >= 1 && chars[0] == '~' {
        (VersionMatchType::MatchMinorVersion, 1)
    } else {
        (VersionMatchType::EqualTo, 0)
    };
    let version = expression.substring_char(length, n);
    assert(version@ =~= expression@.skip(length as int));
    (operator, version)
}

/// Is the field a wildcard?
pub fn is_wildcard_text(field: Option<&str>) -> (r: bool)
    ensures
        r == is_wildcard(optional_text(field)),
{
    match field {
        Some(text) => {
            let chars = to_chars(text);
            let r = chars.len() == 1 && (chars[0] == 'X' || chars[0] == 'x' || chars[0] == '*');
            proof {
                if r {
                    assert(text@ =~= seq![chars@[0]]);
                } else if chars.len() == 1 {
                    assert(seq!['X'][0] == 'X' && seq!['x'][0] == 'x' && seq!['*'][0] == '*');
                } else {
                    assert(seq!['X'].len() == 1 && seq!['x'].len() == 1 && seq!['*'].len() == 1);
                }
            }
            r
        },
        None => false,
    }
}

fn read_comparator_number(field: Option<&str>) -> (r: Result<u32, ParseError>)
    ensures
        match r {
            Ok(n) => comparator_number(optional_text(field)) == Ok::<u32, ParseErrorModel>(n),
            Err(e) => comparator_number(optional_text(field)) == Err::<u32, ParseErrorModel>(e@),
        },
{
    if is_wildcard_text(field) {
        Ok(0)
    } else {
        read_optional_number(field)
    }
}

fn floor(major: u32, minor: u32) -> (r: SemanticVersion)
    ensures
        r@ == floor_version(major, minor),
{
    SemanticVersion { major, minor, patch: 0, release: Some(String::new()), build: None }
}

fn text_or_empty<'a>(field: Option<&'a str>) -> (r: &'a str)
    ensures
        r@ == field_text(optional_text(field)),
{
    match field {
        Some(text) => text,
        None => {
            proof {
                reveal_strlit("");
            }
            let r = "";
            assert(r@ =~= Seq::<char>::empty());
            r
        },
    }
}

/// The interval of a comparator of type `match_type` on the version `base`,
/// whose fields stood in the text as `fields`.
pub fn bounds_of(match_type: VersionMatchType, base: SemanticVersion, fields: &FieldTexts) -> (r:
    Result<SemanticVersionRange, ParseError>)
    ensures
        match r {
            Ok(range) => comparator_bounds(match_type, base@, fields@) == Ok::<
                RangeModel,
                ParseErrorModel,
            >(range@),
            Err(e) => comparator_bounds(match_type, base@, fields@) == Err::<
                RangeModel,
                ParseErrorModel,
            >(e@),
        },
{
    match match_type {
        VersionMatchType::EqualTo => {
            let start = base.clone();
            Ok(SemanticVersionRange { start: Some(start), end: Some(base.next_version()) })
        },
        VersionMatchType::GreaterThanOrEqualTo => Ok(
            SemanticVersionRange { start: Some(base), end: None },
        ),
        VersionMatchType::LessThan => Ok(SemanticVersionRange { start: None, end: Some(base) }),
        VersionMatchType::GreaterThan => Ok(
            SemanticVersionRange { start: Some(base.next_version()), end: None },
        ),
        VersionMatchType::LessThanOrEqualTo => Ok(
            SemanticVersionRange { start: None, end: Some(base.next_version()) },
        ),
        VersionMatchType::MatchMajorVersion => if base.major < u32::MAX {
            Ok(
                SemanticVersionRange {
                    start: Some(floor(base.major, 0)),
                    end: Some(floor(base.major + 1, 0)),
                },
            )
        } else {
            Err(ParseError::new(ParseErrorKind::MalformedComparator, fields.major))
        },
        VersionMatchType::MatchMinorVersion => if base.minor < u32::MAX {
            Ok(
                SemanticVersionRange {
                    start: Some(floor(base.major, base.minor)),
                    end: Some(floor(base.major, base.minor + 1)),
                },
            )
        } else {
            Err(
                ParseError::new(
                    ParseErrorKind::MalformedComparator,
                    text_or_empty(fields.minor),
                ),
            )
        },
    }
}

/// Reads one comparator expression.
pub fn parse_expression(expression: &str) -> (r: Result<SemanticVersionRange, ParseError>)
    ensures
        match r {
            Ok(range) => parse_expression_spec(expression@) == Ok::<RangeModel, ParseErrorModel>(
                range@,
            ),
            Err(e) => parse_expression_spec(expression@) == Err::<RangeModel, ParseErrorModel>(e@),
        },
{
    let (operator, version) = read_operator(expression);
    let fields = split_fields(version);
    let major = match read_major(fields.major, version) {
        Ok(n) => n,
        Err(e) => {
            return Err(e);
        },
    };
    let mut match_type = operator;
    let minor = match read_comparator_number(fields.minor) {
        Ok(n) => n,
        Err(e) => {
            return Err(e);
        },
    };
    if is_wildcard_text(fields.minor) {
        match_type = VersionMatchType::MatchMajorVersion;
    }
    let patch = match read_comparator_number(fields.patch) {
        Ok(n) => n,
        Err(e) => {
            return Err(e);
        },
    };
    if is_wildcard_text(fields.patch) && match_type != VersionMatchType::MatchMajorVersion {
        match_type = VersionMatchType::MatchMinorVersion;
    }
    let base = SemanticVersion {
        major,
        minor,
        patch,
        release: owned_text(fields.release),
        build: owned_text(fields.build),
    };
    bounds_of(match_type, base, &fields)
}

/// Reads a range: comparator expressions set apart by white space, each of
/// which narrows the range.
pub fn parse_range(s: &str) -> (r: Result<SemanticVersionRange, ParseError>)
    ensures
        match r {
            Ok(range) => parse_range_spec(s@) == Ok::<RangeModel, ParseErrorModel>(range@),
            Err(e) => parse_range_spec(s@) == Err::<RangeModel, ParseErrorModel>(e@),
        },
{
    let expressions = split_whitespace(s);
    let mut range = SemanticVersionRange { start: None, end: None };
    let mut i: usize = 0;
    assert(words(s@).skip(0) =~= words(s@));
    while i < expressions.len()
        invariant
            i <= expressions.len(),
            texts(expressions@) == words(s@),
            parse_range_spec(s@) == parse_expressions(words(s@).skip(i as int), range@),
        decreases expressions.len() - i,
    {
        let ghost rest = words(s@).skip(i as int);
        assert(rest[0] == expressions@[i as int]@);
        assert(rest.skip(1) =~= words(s@).skip(i + 1));
        match parse_expression(expressions[i]) {
            Ok(by) => {
                range.narrow(by);
            },
            Err(e) => {
                return Err(e);
            },
        }
        i += 1;
    }
    Ok(range)
}

/// Writes a range as comparators: `*`, `>=start`, `<end` or `>=start <end`.
pub fn format_range(range: &SemanticVersionRange) -> (r: String)
    ensures
        r@ == format_range_spec(range@),
{
    proof {
        reveal_strlit("*");
        reveal_strlit(">=");
        reveal_strlit("<");
        reveal_strlit(" <");
    }
    let out = match (&range.start, &range.end) {
        (None, None) => String::from_str("*"),
        (Some(start), None) => String::from_str(">=").concat(format_version(start).as_str()),
        (None, Some(end)) => String::from_str("<").concat(format_version(end).as_str()),
        (Some(start), Some(end)) => String::from_str(">=").concat(
            format_version(start).as_str(),
        ).concat(" <").concat(format_version(end).as_str()),
    };
    assert(out@ =~= format_range_spec(range@));
    out
}

impl SemanticVersionRange {
    /// The text of the range, as `format_range` writes it.
    pub fn to_string(&self) -> (r: String)
        ensures
            r@ == format_range_spec(self@),
    {
        format_range(self)
    }
}

impl std::str::FromStr for SemanticVersionRange {
    type Err = ParseError;

    fn from_str(s: &str) -> (r: Result<Self, ParseError>)
        ensures
            match r {
                Ok(range) => parse_range_spec(s@) == Ok::<RangeModel, ParseErrorModel>(range@),
                Err(e) => parse_range_spec(s@) == Err::<RangeModel, ParseErrorModel>(e@),
            },
    {
        parse_range(s)
    }
}

} // verus!
