//! The properties of a project: lines `name=value` in a text.
//!
//! A property is found by the line break before its name, so the first line
//! of a text holds none, and its value ends at the next line break.
use crate::common::{find_spec, replace_spec, SubstringModel, SubstringRef};
use crate::error::{ParseError, ParseErrorModel};
use crate::project_error::{ProjectError, ProjectErrorModel};
use crate::range_set::{models, simplify_range_set, simplify_spec};
use crate::text::{split, split_at_char, texts};
use crate::trim::{
    the_char, trim, trim_end_matches, trim_end_of, trim_matches, trim_of, trim_start_matches,
    trim_start_of, whitespace,
};
use crate::version_range::{parse_range, parse_range_spec, RangeModel, SemanticVersionRange};
use vstd::prelude::*;

verus! {

/// What stands before the value of the property `name`.
pub open spec fn property_pattern(name: Seq<char>) -> Seq<char> {
    seq!['\n'] + name + seq!['=']
}

/// The value of the property `name` in `contents`, with what stands round it.
pub open spec fn find_property_spec(contents: Seq<char>, name: Seq<char>) -> Option<SubstringModel> {
    find_spec(contents, property_pattern(name), seq!['\n'])
}

/// `contents` with `value` as the value of the property `name`.
pub open spec fn set_property_spec(contents: Seq<char>, name: Seq<char>, value: Seq<char>) -> Result<
    Seq<char>,
    ProjectErrorModel,
> {
    match find_property_spec(contents, name) {
        Some(part) => Ok(replace_spec(part, value)),
        None => Err(ProjectErrorModel::MissingProperty(name)),
    }
}

/// Finds the value of a property.
pub fn find_property<'a>(contents: &'a str, name: &str) -> (r: Result<SubstringRef<'a>, ProjectError>)
    ensures
        match r {
            Ok(part) => find_property_spec(contents@, name@) == Some(part@),
            Err(e) => find_property_spec(contents@, name@) is None && e@
                == ProjectErrorModel::MissingProperty(name@),
        },
{
    proof {
        reveal_strlit("\n");
        reveal_strlit("=");
    }
    let pattern = String::from_str("\n").concat(name).concat("=");
    assert(pattern@ =~= property_pattern(name@));
    assert("\n"@ =~= seq!['\n']);
    match SubstringRef::find(contents, pattern.as_str(), "\n") {
        Some(part) => Ok(part),
        None => Err(ProjectError::MissingProperty(name.to_owned())),
    }
}

/// Gives a property a new value.
pub fn set_property(contents: &str, name: &str, value: &str) -> (r: Result<String, ProjectError>)
    ensures
        match r {
            Ok(text) => set_property_spec(contents@, name@, value@) == Ok::<
                Seq<char>,
                ProjectErrorModel,
            >(text@),
            Err(e) => set_property_spec(contents@, name@, value@) == Err::<
                Seq<char>,
                ProjectErrorModel,
            >(e@),
        },
{
    match find_property(contents, name) {
        Ok(part) => Ok(part.replace(value)),
        Err(e) => Err(e),
    }
}

/// What stands between the brackets of a list.
pub open spec fn list_body(text: Seq<char>) -> Seq<char> {
    trim_end_of(trim_start_of(trim_of(text, whitespace()), the_char('[')), the_char(']'))
}

/// An item of a list without the white space and the quotes round it.
pub open spec fn list_item(piece: Seq<char>) -> Seq<char> {
    trim_of(trim_of(piece, whitespace()), the_char('"'))
}

/// The ranges that the pieces of a list denote, in order, up to the first
/// that cannot be read. An empty piece is passed over.
pub open spec fn parse_items(pieces: Seq<Seq<char>>) -> Result<Seq<RangeModel>, ParseErrorModel>
    decreases pieces.len(),
{
    if pieces.len() == 0 {
        Ok(Seq::<RangeModel>::empty())
    } else {
        match parse_items(pieces.drop_last()) {
            Err(e) => Err(e),
            Ok(done) => if pieces.last().len() == 0 {
                Ok(done)
            } else {
                match parse_range_spec(list_item(pieces.last())) {
                    Err(e) => Err(e),
                    Ok(range) => Ok(done.push(range)),
                }
            },
        }
    }
}

/// The ranges of a list `["a", "b"]`: quoted ranges set apart by commas,
/// between brackets.
pub open spec fn parse_range_list_spec(text: Seq<char>) -> Result<Seq<RangeModel>, ParseErrorModel> {
    parse_items(split(list_body(text), ','))
}

/// Reads a list of ranges.
pub fn parse_range_list(text: &str) -> (r: Result<Vec<SemanticVersionRange>, ParseError>)
    ensures
        match r {
            Ok(ranges) => parse_range_list_spec(text@) == Ok::<Seq<RangeModel>, ParseErrorModel>(
                models(ranges@),
            ),
            Err(e) => parse_range_list_spec(text@) == Err::<Seq<RangeModel>, ParseErrorModel>(e@),
        },
{
    let body = trim_end_matches(trim_start_matches(trim(text), '['), ']');
    let pieces = split_at_char(body, ',');
    let ghost all = split(list_body(text@), ',');
    let mut ranges: Vec<SemanticVersionRange> = Vec::new();
    let mut i: usize = 0;
    assert(all.take(0) =~= Seq::<Seq<char>>::empty());
    assert(models(ranges@) =~= Seq::<RangeModel>::empty());
    while i < pieces.len()
        invariant
            i <= pieces.len(),
            texts(pieces@) == all,
            all == split(list_body(text@), ','),
            parse_items(all.take(i as int)) == Ok::<Seq<RangeModel>, ParseErrorModel>(
                models(ranges@),
            ),
        decreases pieces.len() - i,
    {
        let piece = pieces[i];
        let ghost done = models(ranges@);
        proof {
            let part = all.take(i + 1);
            assert(part.drop_last() =~= all.take(i as int));
            assert(part.last() == piece@);
            assert(all[i as int] == pieces@[i as int]@);
        }
        if piece.unicode_len() != 0 {
            match parse_range(trim_matches(trim(piece), '"')) {
                Ok(range) => {
                    ranges.push(range);
                    assert(models(ranges@) =~= done.push(range@));
                },
                Err(e) => {
                    proof {
                        lemma_parse_items_fails(all, i + 1);
                    }
                    return Err(e);
                },
            }
        }
        i += 1;
    }
    assert(all.take(pieces.len() as int) =~= all);
    Ok(ranges)
}

/// Once a piece cannot be read, the list cannot.
pub proof fn lemma_parse_items_fails(pieces: Seq<Seq<char>>, k: int)
    requires
        0 <= k <= pieces.len(),
        parse_items(pieces.take(k)) is Err,
    ensures
        parse_items(pieces) == parse_items(pieces.take(k)),
    decreases pieces.len() - k,
{
    if k < pieces.len() {
        let more = pieces.take(k + 1);
        assert(more.drop_last() =~= pieces.take(k));
        lemma_parse_items_fails(pieces, k + 1);
    } else {
        assert(pieces.take(k) =~= pieces);
    }
}

/// The name of the property that lists the compatible ranges.
pub open spec fn ranges_property() -> Seq<char> {
    "minecraft_compatible_range"@
}

/// The compatible ranges as the properties list them.
pub open spec fn listed_ranges_spec(contents: Seq<char>) -> Result<Seq<RangeModel>, ProjectErrorModel> {
    match find_property_spec(contents, ranges_property()) {
        None => Err(ProjectErrorModel::MissingProperty(ranges_property())),
        Some(part) => match parse_range_list_spec(part.substring) {
            Err(e) => Err(ProjectErrorModel::Parse(e)),
            Ok(ranges) => Ok(ranges),
        },
    }
}

/// The compatible ranges of the properties in their simplest form.
pub open spec fn current_ranges_spec(contents: Seq<char>) -> Result<Seq<RangeModel>, ProjectErrorModel> {
    match listed_ranges_spec(contents) {
        Err(e) => Err(e),
        Ok(ranges) => Ok(simplify_spec(ranges)),
    }
}

/// Reads the compatible ranges as the properties list them.
pub fn listed_ranges(contents: &str) -> (r: Result<Vec<SemanticVersionRange>, ProjectError>)
    ensures
        match r {
            Ok(ranges) => listed_ranges_spec(contents@) == Ok::<Seq<RangeModel>, ProjectErrorModel>(
                models(ranges@),
            ),
            Err(e) => listed_ranges_spec(contents@) == Err::<Seq<RangeModel>, ProjectErrorModel>(
                e@,
            ),
        },
{
    let part = match find_property(contents, "minecraft_compatible_range") {
        Ok(part) => part,
        Err(e) => {
            return Err(e);
        },
    };
    match parse_range_list(part.substring) {
        Ok(ranges) => Ok(ranges),
        Err(e) => Err(ProjectError::Parse(e)),
    }
}

/// Reads the compatible ranges and simplifies them.
pub fn current_ranges(contents: &str) -> (r: Result<Vec<SemanticVersionRange>, ProjectError>)
    ensures
        match r {
            Ok(ranges) => current_ranges_spec(contents@) == Ok::<Seq<RangeModel>, ProjectErrorModel>(
                models(ranges@),
            ),
            Err(e) => current_ranges_spec(contents@) == Err::<Seq<RangeModel>, ProjectErrorModel>(
                e@,
            ),
        },
{
    match listed_ranges(contents) {
        Ok(ranges) => Ok(simplify_range_set(ranges)),
        Err(e) => Err(e),
    }
}

} // verus!
