//! What ranges hold: a range of several comparators holds what all of them
//! hold, an exact comparator holds the versions level with its own, and
//! wildcards stand for the comparators `^` and `~`.
use crate::decimal::{all_digits, is_digit};
use crate::error::ParseErrorModel;
use crate::precedence::{identifier_order, identifiers, lexicographic, Precedence};
use crate::precedence_laws::{
    is_total_preorder, lemma_identifier_order, lemma_identifiers_of_extended,
    lemma_next_version_is_higher, lemma_precedence_antisymmetric, lemma_precedence_strict,
    lemma_precedence_transitive,
};
use crate::semantic_version::{at_most, next_version_spec, precedence, precedes, VersionModel};
use crate::text::{
    after, before, first_whitespace, is_whitespace_spec, lemma_cut_at, lemma_cut_nowhere,
    lemma_first_whitespace, lemma_index_of, lemma_occurs_in_parts, occurs, words,
};
use crate::version_range::{
    full_range, is_wildcard, narrowed, operator_of, parse_expression_spec, parse_expressions,
    parse_range_spec, range_contains, RangeModel,
};
use crate::version_text::{core_text, version_fields};
use crate::version_text_laws::lemma_digits_hold_no_other;
use vstd::prelude::*;

verus! {

/// A range narrowed by another holds the versions that both hold.
pub proof fn lemma_narrowed_holds_what_both_hold(range: RangeModel, by: RangeModel, v: VersionModel)
    ensures
        range_contains(narrowed(range, by), v) == (range_contains(range, v) && range_contains(
            by,
            v,
        )),
{
    if let (Some(n), Some(h)) = (by.start, range.start) {
        lemma_precedence_antisymmetric(n, h);
        if precedence(n, h) == Precedence::Higher {
            if at_most(n, v) {
                lemma_precedence_transitive(h, n, v);
            }
        } else {
            if at_most(h, v) {
                lemma_precedence_transitive(n, h, v);
            }
        }
    }
    if let (Some(n), Some(h)) = (by.end, range.end) {
        lemma_precedence_antisymmetric(n, h);
        if precedence(n, h) == Precedence::Lower {
            if precedes(v, n) {
                lemma_precedence_strict(v, n, h);
            }
        } else {
            if precedes(v, h) {
                lemma_precedence_strict(v, h, n);
            }
        }
    }
}

/// A range read from several comparators holds the versions that every
/// one of them holds: the comparators are combined by intersection.
pub proof fn lemma_range_holds_what_all_comparators_hold(
    expressions: Seq<Seq<char>>,
    range: RangeModel,
    v: VersionModel,
)
    requires
        parse_expressions(expressions, range) is Ok,
    ensures
        forall|i: int|
            0 <= i < expressions.len() ==> (#[trigger] parse_expression_spec(expressions[i]))
                is Ok,
        range_contains(parse_expressions(expressions, range)->Ok_0, v) == (range_contains(range, v)
            && forall|i: int|
            0 <= i < expressions.len() ==> range_contains(
                (#[trigger] parse_expression_spec(expressions[i]))->Ok_0,
                v,
            )),
    decreases expressions.len(),
{
    if expressions.len() > 0 {
        let by = parse_expression_spec(expressions[0])->Ok_0;
        let rest = expressions.skip(1);
        lemma_range_holds_what_all_comparators_hold(rest, narrowed(range, by), v);
        lemma_narrowed_holds_what_both_hold(range, by, v);
        assert forall|i: int| 0 <= i < expressions.len() implies (#[trigger] parse_expression_spec(
            expressions[i],
        )) is Ok by {
            if i > 0 {
                assert(expressions[i] == rest[i - 1]);
            }
        }
        let all = forall|i: int|
            0 <= i < expressions.len() ==> range_contains(
                (#[trigger] parse_expression_spec(expressions[i]))->Ok_0,
                v,
            );
        let others = forall|i: int|
            0 <= i < rest.len() ==> range_contains(
                (#[trigger] parse_expression_spec(rest[i]))->Ok_0,
                v,
            );
        if all {
            assert forall|i: int| 0 <= i < rest.len() implies range_contains(
                (#[trigger] parse_expression_spec(rest[i]))->Ok_0,
                v,
            ) by {
                assert(rest[i] == expressions[i + 1]);
            }
        }
        if others && range_contains(by, v) {
            assert forall|i: int| 0 <= i < expressions.len() implies range_contains(
                (#[trigger] parse_expression_spec(expressions[i]))->Ok_0,
                v,
            ) by {
                if i > 0 {
                    assert(expressions[i] == rest[i - 1]);
                }
            }
        }
    }
}

/// A list that is lower than another is, with one more element that is the
/// lowest of all, still not higher.
proof fn lemma_lowest_fills_the_gap<A>(
    a: Seq<A>,
    b: Seq<A>,
    lowest: A,
    order: spec_fn(A, A) -> Precedence,
)
    requires
        is_total_preorder(order),
        forall|x: A| #[trigger] order(lowest, x) != Precedence::Higher,
        lexicographic(a, b, order) == Precedence::Lower,
    ensures
        lexicographic(a.push(lowest), b, order) != Precedence::Higher,
    decreases a.len(),
{
    let more = a.push(lowest);
    if a.len() == 0 {
        assert(more[0] == lowest);
        assert(order(lowest, b[0]) != Precedence::Higher);
        assert(more.skip(1) =~= Seq::<A>::empty());
        assert(lexicographic(more.skip(1), b.skip(1), order) != Precedence::Higher);
    } else {
        assert(more[0] == a[0]);
        assert(more.skip(1) =~= a.skip(1).push(lowest));
        if order(a[0], b[0]) == Precedence::Same {
            lemma_lowest_fills_the_gap(a.skip(1), b.skip(1), lowest, order);
        }
    }
}

/// No version lies between a pre-release version and the bound after it:
/// the versions from the one up to the other are those level with the first.
pub proof fn lemma_nothing_between(base: VersionModel, v: VersionModel)
    requires
        base.release is Some,
    ensures
        (at_most(base, v) && precedes(v, next_version_spec(base))) == (precedence(base, v)
            == Precedence::Same),
{
    let next = next_version_spec(base);
    lemma_next_version_is_higher(base);
    lemma_precedence_antisymmetric(base, v);
    lemma_precedence_antisymmetric(v, next);
    if precedence(base, v) == Precedence::Same {
        lemma_precedence_strict(v, base, next);
    }
    if precedence(base, v) == Precedence::Lower {
        if let (Some(x), Some(y)) = (base.release, v.release) {
            if base.major == v.major && base.minor == v.minor && base.patch == v.patch {
                let empty = Seq::<char>::empty();
                lemma_identifier_order();
                lemma_identifiers_of_extended(x);
                assert forall|id: Seq<char>| #[trigger]
                    identifier_order()(empty, id) != Precedence::Higher by {}
                lemma_lowest_fills_the_gap(identifiers(x), identifiers(y), empty, identifier_order());
            }
        }
    }
}

/// What an exact comparator holds: for a pre-release version, the versions
/// level with it; for a version without a release, nothing, as the bound
/// after such a version lies before it.
pub proof fn lemma_exact_comparator(base: VersionModel, v: VersionModel)
    ensures
        range_contains(
            RangeModel { start: Some(base), end: Some(next_version_spec(base)) },
            v,
        ) == (base.release is Some && precedence(base, v) == Precedence::Same),
{
    let next = next_version_spec(base);
    if base.release is Some {
        lemma_nothing_between(base, v);
    } else {
        lemma_next_version_is_higher(base);
        lemma_precedence_antisymmetric(v, next);
        if at_most(base, v) {
            lemma_precedence_strict(next, base, v);
        }
    }
}

/// `w` is one of the characters that stand for any number.
pub open spec fn is_wildcard_char(w: char) -> bool {
    w == 'X' || w == 'x' || w == '*'
}

/// A text without white space is one word.
pub proof fn lemma_one_word(e: Seq<char>)
    requires
        e.len() > 0,
        forall|i: int| 0 <= i < e.len() ==> !is_whitespace_spec(#[trigger] e[i]),
    ensures
        words(e) == seq![e],
{
    lemma_first_whitespace(e);
    let end = first_whitespace(e);
    assert(end == e.len());
    assert(e.take(end) =~= e);
    assert(e.skip(end) =~= Seq::<char>::empty());
    assert(words(e.skip(end)) =~= Seq::<Seq<char>>::empty());
    assert(seq![e] + Seq::<Seq<char>>::empty() =~= seq![e]);
}

/// A range of one comparator is the interval of that comparator.
pub proof fn lemma_range_of_one_expression(e: Seq<char>)
    requires
        e.len() > 0,
        forall|i: int| 0 <= i < e.len() ==> !is_whitespace_spec(#[trigger] e[i]),
    ensures
        parse_range_spec(e) == parse_expression_spec(e),
{
    lemma_one_word(e);
    let list = seq![e];
    assert(list[0] == e);
    assert(list.skip(1) =~= Seq::<Seq<char>>::empty());
    if let Ok(by) = parse_expression_spec(e) {
        assert(narrowed(full_range(), by) == by);
        assert(parse_expressions(list.skip(1), narrowed(full_range(), by)) == Ok::<
            RangeModel,
            ParseErrorModel,
        >(by));
    }
}

/// The fields of numbers that end in a wildcard, or in nothing.
proof fn lemma_fields_of_numbers(major: Seq<char>, rest: Option<Seq<char>>)
    requires
        all_digits(major),
        rest matches Some(r) ==> !occurs(r, '+') && !occurs(r, '-'),
    ensures
        ({
            let text = match rest {
                Some(r) => major + seq!['.'] + r,
                None => major,
            };
            let fields = version_fields(text);
            &&& core_text(text) == text
            &&& fields.major == major
            &&& fields.release is None
            &&& fields.build is None
            &&& rest is None ==> fields.minor is None && fields.patch is None
            &&& rest matches Some(r) ==> fields.minor == Some(before(r, '.'))
                && fields.patch == after(r, '.')
        }),
{
    let dot = seq!['.'];
    lemma_digits_hold_no_other(major, '+');
    lemma_digits_hold_no_other(major, '-');
    lemma_digits_hold_no_other(major, '.');
    lemma_index_of(dot, '+');
    lemma_index_of(dot, '-');
    match rest {
        Some(r) => {
            let text = major + dot + r;
            lemma_occurs_in_parts(major, dot, '+');
            lemma_occurs_in_parts(major, dot, '-');
            lemma_occurs_in_parts(major + dot, r, '+');
            lemma_occurs_in_parts(major + dot, r, '-');
            lemma_cut_nowhere(text, '+');
            lemma_cut_nowhere(text, '-');
            lemma_cut_at(major, '.', r);
        },
        None => {
            lemma_cut_nowhere(major, '+');
            lemma_cut_nowhere(major, '-');
            lemma_cut_nowhere(major, '.');
        },
    }
}

/// A wildcard in the place of the minor number stands for `^`: `1.x` is
/// read as `^1` is.
pub proof fn lemma_wildcard_minor_is_caret(major: Seq<char>, w: char)
    requires
        major.len() > 0,
        all_digits(major),
        is_wildcard_char(w),
    ensures
        parse_expression_spec(major + seq!['.', w]) == parse_expression_spec(seq!['^'] + major),
        parse_range_spec(major + seq!['.', w]) == parse_range_spec(seq!['^'] + major),
{
    let wild = major + seq!['.', w];
    let caret = seq!['^'] + major;
    let tail = seq![w];
    assert(is_digit(major[0]));
    assert(wild[0] == major[0]);
    assert(operator_of(wild).1 == 0);
    assert(wild.skip(0) =~= major + seq!['.'] + tail);
    assert(caret.skip(1) =~= major);
    lemma_index_of(tail, '+');
    lemma_index_of(tail, '-');
    lemma_index_of(tail, '.');
    lemma_cut_nowhere(tail, '.');
    lemma_fields_of_numbers(major, Some(tail));
    lemma_fields_of_numbers(major, None);
    assert(is_wildcard(Some(tail)));
    assert(!is_wildcard(None::<Seq<char>>));
    assert forall|i: int| 0 <= i < wild.len() implies !is_whitespace_spec(
        #[trigger] wild[i],
    ) by {
        if i < major.len() {
            assert(is_digit(major[i]));
            assert(wild[i] == major[i]);
        }
    }
    assert forall|i: int| 0 <= i < caret.len() implies !is_whitespace_spec(
        #[trigger] caret[i],
    ) by {
        if i > 0 {
            assert(is_digit(major[i - 1]));
            assert(caret[i] == major[i - 1]);
        }
    }
    lemma_range_of_one_expression(wild);
    lemma_range_of_one_expression(caret);
}

/// A wildcard in the place of the patch number stands for `~`: `1.2.x` is
/// read as `~1.2` is.
pub proof fn lemma_wildcard_patch_is_tilde(major: Seq<char>, minor: Seq<char>, w: char)
    requires
        major.len() > 0,
        minor.len() > 0,
        all_digits(major),
        all_digits(minor),
        is_wildcard_char(w),
    ensures
        parse_expression_spec(major + seq!['.'] + minor + seq!['.', w]) == parse_expression_spec(
            seq!['~'] + major + seq!['.'] + minor,
        ),
        parse_range_spec(major + seq!['.'] + minor + seq!['.', w]) == parse_range_spec(
            seq!['~'] + major + seq!['.'] + minor,
        ),
{
    let wild = major + seq!['.'] + minor + seq!['.', w];
    let tilde = seq!['~'] + major + seq!['.'] + minor;
    let tail = seq![w];
    let wild_rest = minor + seq!['.'] + tail;
    assert(is_digit(major[0]));
    assert(is_digit(minor[0]));
    assert(wild[0] == major[0]);
    assert(operator_of(wild).1 == 0);
    assert(wild.skip(0) =~= major + seq!['.'] + wild_rest);
    assert(tilde.skip(1) =~= major + seq!['.'] + minor);
    lemma_index_of(tail, '+');
    lemma_index_of(tail, '-');
    lemma_index_of(seq!['.'], '+');
    lemma_index_of(seq!['.'], '-');
    lemma_digits_hold_no_other(minor, '+');
    lemma_digits_hold_no_other(minor, '-');
    lemma_digits_hold_no_other(minor, '.');
    lemma_occurs_in_parts(minor, seq!['.'], '+');
    lemma_occurs_in_parts(minor, seq!['.'], '-');
    lemma_occurs_in_parts(minor + seq!['.'], tail, '+');
    lemma_occurs_in_parts(minor + seq!['.'], tail, '-');
    lemma_cut_at(minor, '.', tail);
    lemma_cut_nowhere(minor, '.');
    lemma_fields_of_numbers(major, Some(wild_rest));
    lemma_fields_of_numbers(major, Some(minor));
    assert(is_wildcard(Some(tail)));
    assert(!is_wildcard(None::<Seq<char>>));
    assert(!is_wildcard(Some(minor))) by {
        if is_wildcard(Some(minor)) {
            assert(minor[0] == 'X' || minor[0] == 'x' || minor[0] == '*');
        }
    }
    assert forall|i: int| 0 <= i < wild.len() implies !is_whitespace_spec(
        #[trigger] wild[i],
    ) by {
        if i < major.len() {
            assert(is_digit(major[i]));
            assert(wild[i] == major[i]);
        } else if major.len() < i <= major.len() + minor.len() {
            assert(is_digit(minor[i - major.len() - 1]));
            assert(wild[i] == minor[i - major.len() - 1]);
        }
    }
    assert forall|i: int| 0 <= i < tilde.len() implies !is_whitespace_spec(
        #[trigger] tilde[i],
    ) by {
        if 0 < i <= major.len() {
            assert(is_digit(major[i - 1]));
            assert(tilde[i] == major[i - 1]);
        } else if i > major.len() + 1 {
            assert(is_digit(minor[i - major.len() - 2]));
            assert(tilde[i] == minor[i - major.len() - 2]);
        }
    }
    lemma_range_of_one_expression(wild);
    lemma_range_of_one_expression(tilde);
}

} // verus!
