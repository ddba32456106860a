//! Reading what was written: the text of a version denotes that version.
use crate::decimal::{
    all_digits, decimal_digits, is_digit, lemma_decimal_round_trip, parse_u32_spec,
};
use crate::error::ParseErrorModel;
use crate::semantic_version::VersionModel;
use crate::text::{
    after, before, lemma_cut_at, lemma_cut_nowhere, lemma_index_of, lemma_occurs_in_parts, occurs,
};
use crate::version_text::{
    core_text, format_version_spec, parse_version_spec, version_fields, VersionFields,
};
use vstd::prelude::*;

verus! {

/// A run of digits holds no other character.
pub proof fn lemma_digits_hold_no_other(s: Seq<char>, c: char)
    requires
        all_digits(s),
        !is_digit(c),
    ensures
        !occurs(s, c),
{
    lemma_index_of(s, c);
}

/// The decimal notation of a number of 32 bits denotes that number.
pub proof fn lemma_parse_decimal(n: u32)
    ensures
        parse_u32_spec(decimal_digits(n as nat)) == Some(n),
        decimal_digits(n as nat).len() > 0,
        all_digits(decimal_digits(n as nat)),
{
    lemma_decimal_round_trip(n as nat);
    let s = decimal_digits(n as nat);
    assert(is_digit(s[0]));
}

/// The numbers of a version as they are written: the major number, then
/// the minor and the patch number as far as they are not left out.
pub open spec fn numbers_text(v: VersionModel) -> Seq<char> {
    decimal_digits(v.major as nat) + (if v.minor > 0 || v.patch > 0 {
        seq!['.'] + decimal_digits(v.minor as nat)
    } else {
        Seq::<char>::empty()
    }) + (if v.patch > 0 {
        seq!['.'] + decimal_digits(v.patch as nat)
    } else {
        Seq::<char>::empty()
    })
}

proof fn lemma_numbers_text(v: VersionModel)
    ensures
        !occurs(numbers_text(v), '+'),
        !occurs(numbers_text(v), '-'),
        before(numbers_text(v), '.') == decimal_digits(v.major as nat),
        after(numbers_text(v), '.') == if v.minor > 0 || v.patch > 0 {
            Some(
                decimal_digits(v.minor as nat) + (if v.patch > 0 {
                    seq!['.'] + decimal_digits(v.patch as nat)
                } else {
                    Seq::<char>::empty()
                }),
            )
        } else {
            None
        },
{
    let major = decimal_digits(v.major as nat);
    let minor = decimal_digits(v.minor as nat);
    let patch = decimal_digits(v.patch as nat);
    let dot = seq!['.'];
    let empty = Seq::<char>::empty();
    lemma_parse_decimal(v.major);
    lemma_parse_decimal(v.minor);
    lemma_parse_decimal(v.patch);
    lemma_index_of(dot, '+');
    lemma_index_of(dot, '-');
    lemma_index_of(empty, '+');
    lemma_index_of(empty, '-');
    lemma_digits_hold_no_other(major, '+');
    lemma_digits_hold_no_other(major, '-');
    lemma_digits_hold_no_other(major, '.');
    lemma_digits_hold_no_other(minor, '+');
    lemma_digits_hold_no_other(minor, '-');
    lemma_digits_hold_no_other(patch, '+');
    lemma_digits_hold_no_other(patch, '-');
    let minor_part = if v.minor > 0 || v.patch > 0 {
        dot + minor
    } else {
        empty
    };
    let patch_part = if v.patch > 0 {
        dot + patch
    } else {
        empty
    };
    lemma_occurs_in_parts(dot, minor, '+');
    lemma_occurs_in_parts(dot, minor, '-');
    lemma_occurs_in_parts(dot, patch, '+');
    lemma_occurs_in_parts(dot, patch, '-');
    lemma_occurs_in_parts(major, minor_part, '+');
    lemma_occurs_in_parts(major, minor_part, '-');
    lemma_occurs_in_parts(major + minor_part, patch_part, '+');
    lemma_occurs_in_parts(major + minor_part, patch_part, '-');
    if v.minor > 0 || v.patch > 0 {
        lemma_cut_at(major, '.', minor + patch_part);
        assert(numbers_text(v) =~= major + dot + (minor + patch_part));
    } else {
        assert(numbers_text(v) =~= major);
        lemma_cut_nowhere(major, '.');
    }
}

proof fn lemma_fields_of_formatted(v: VersionModel)
    requires
        v.release matches Some(release) ==> !occurs(release, '+'),
    ensures
        version_fields(format_version_spec(v)) == (VersionFields {
            major: decimal_digits(v.major as nat),
            minor: if v.minor > 0 || v.patch > 0 {
                Some(decimal_digits(v.minor as nat))
            } else {
                None
            },
            patch: if v.patch > 0 {
                Some(decimal_digits(v.patch as nat))
            } else {
                None
            },
            release: v.release,
            build: v.build,
        }),
        decimal_digits(v.major as nat).len() > 0,
{
    let text = format_version_spec(v);
    let numbers = numbers_text(v);
    let empty = Seq::<char>::empty();
    lemma_numbers_text(v);
    lemma_parse_decimal(v.major);
    let release_part = match v.release {
        Some(r) => seq!['-'] + r,
        None => empty,
    };
    let head = numbers + release_part;
    // the build is what follows the first `+`
    assert(!occurs(head, '+')) by {
        lemma_occurs_in_parts(numbers, release_part, '+');
        lemma_index_of(empty, '+');
        if let Some(r) = v.release {
            lemma_occurs_in_parts(seq!['-'], r, '+');
            lemma_index_of(seq!['-'], '+');
        }
    }
    match v.build {
        Some(b) => {
            assert(text =~= head + seq!['+'] + b);
            lemma_cut_at(head, '+', b);
        },
        None => {
            assert(text =~= head);
            lemma_cut_nowhere(head, '+');
        },
    }
    assert(before(text, '+') == head);
    // the release is what follows the first `-` before the build
    match v.release {
        Some(r) => {
            assert(head =~= numbers + seq!['-'] + r);
            lemma_cut_at(numbers, '-', r);
        },
        None => {
            assert(head =~= numbers);
            lemma_cut_nowhere(numbers, '-');
        },
    }
    assert(core_text(text) == numbers);
    // minor and patch are cut at the second `.`
    if v.minor > 0 || v.patch > 0 {
        let minor = decimal_digits(v.minor as nat);
        let patch = decimal_digits(v.patch as nat);
        lemma_parse_decimal(v.minor);
        lemma_digits_hold_no_other(minor, '.');
        if v.patch > 0 {
            assert(minor + (seq!['.'] + patch) =~= minor + seq!['.'] + patch);
            lemma_cut_at(minor, '.', patch);
        } else {
            assert(minor + empty =~= minor);
            lemma_cut_nowhere(minor, '.');
        }
    }
}

/// Reading the text of a version gives the version back, build and all,
/// whichever trailing numbers the text leaves out. A release that holds a
/// `+` is excepted: in the text its end would be read as the build.
pub proof fn lemma_parse_formatted(v: VersionModel)
    requires
        v.release matches Some(release) ==> !occurs(release, '+'),
    ensures
        parse_version_spec(format_version_spec(v)) == Ok::<VersionModel, ParseErrorModel>(v),
{
    lemma_fields_of_formatted(v);
    lemma_parse_decimal(v.major);
    lemma_parse_decimal(v.minor);
    lemma_parse_decimal(v.patch);
}

} // verus!
