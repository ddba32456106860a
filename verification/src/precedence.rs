//! Precedence of pre-release texts.
//!
//! A release text is a list of identifiers separated by `.`. Two texts are
//! compared identifier by identifier; a text that runs out first is lower.
//! An identifier that reads as a number is compared by value and is lower
//! than any identifier that does not; the empty identifier counts as `0`.
use crate::decimal::{parse_u32_chars, parse_u32_spec};
use crate::text::{find_char_from, index_of, lemma_index_of, lemma_split_nonempty, split, to_chars};
use vstd::prelude::*;
use vstd::slice::slice_subrange;

verus! {

/// How one value stands to another in an order.
#[derive(Clone, Copy, PartialEq, Eq, Structural, Debug)]
pub enum Precedence {
    Lower,
    Same,
    Higher,
}

impl Precedence {
    /// The precedence seen from the other side.
    pub open spec fn flip(self) -> Precedence {
        match self {
            Precedence::Lower => Precedence::Higher,
            Precedence::Same => Precedence::Same,
            Precedence::Higher => Precedence::Lower,
        }
    }
}

/// Order of two numbers.
pub open spec fn number_precedence(a: int, b: int) -> Precedence {
    if a < b {
        Precedence::Lower
    } else if a == b {
        Precedence::Same
    } else {
        Precedence::Higher
    }
}

/// Compares two lists element by element with `order`; the first difference
/// decides, and a proper prefix is lower than the list it begins.
pub open spec fn lexicographic<A>(a: Seq<A>, b: Seq<A>, order: spec_fn(A, A) -> Precedence) -> Precedence
    decreases a.len(),
{
    if a.len() == 0 && b.len() == 0 {
        Precedence::Same
    } else if a.len() == 0 {
        Precedence::Lower
    } else if b.len() == 0 {
        Precedence::Higher
    } else if order(a[0], b[0]) != Precedence::Same {
        order(a[0], b[0])
    } else {
        lexicographic(a.skip(1), b.skip(1), order)
    }
}

/// Order of two characters: that of their code points.
pub open spec fn char_precedence(a: char, b: char) -> Precedence {
    number_precedence(a as int, b as int)
}

/// `char_precedence` as an order to compare lists with.
pub open spec fn char_order() -> spec_fn(char, char) -> Precedence {
    |x: char, y: char| char_precedence(x, y)
}

/// Order of two texts by their characters.
pub open spec fn text_precedence(a: Seq<char>, b: Seq<char>) -> Precedence {
    lexicographic(a, b, char_order())
}

/// The number an identifier stands for, if it stands for one.
pub open spec fn identifier_number(id: Seq<char>) -> Option<u32> {
    if id.len() == 0 {
        Some(0u32)
    } else {
        parse_u32_spec(id)
    }
}

/// Order of two identifiers: numbers by value and before all others,
/// others as texts.
pub open spec fn identifier_precedence(a: Seq<char>, b: Seq<char>) -> Precedence {
    match (identifier_number(a), identifier_number(b)) {
        (Some(x), Some(y)) => number_precedence(x as int, y as int),
        (Some(_), None) => Precedence::Lower,
        (None, Some(_)) => Precedence::Higher,
        (None, None) => text_precedence(a, b),
    }
}

/// The identifiers of a release text.
pub open spec fn identifiers(release: Seq<char>) -> Seq<Seq<char>> {
    split(release, '.')
}

/// `identifier_precedence` as an order to compare lists with.
pub open spec fn identifier_order() -> spec_fn(Seq<char>, Seq<char>) -> Precedence {
    |x: Seq<char>, y: Seq<char>| identifier_precedence(x, y)
}

/// Order of two release texts.
pub open spec fn release_precedence(a: Seq<char>, b: Seq<char>) -> Precedence {
    lexicographic(identifiers(a), identifiers(b), identifier_order())
}

/// Compares two numbers.
pub fn compare_numbers(a: u32, b: u32) -> (r: Precedence)
    ensures
        r == number_precedence(a as int, b as int),
{
    if a < b {
        Precedence::Lower
    } else if a == b {
        Precedence::Same
    } else {
        Precedence::Higher
    }
}

/// Compares two texts character by character.
pub fn compare_text(a: &[char], b: &[char]) -> (r: Precedence)
    ensures
        r == text_precedence(a@, b@),
{
    let mut i: usize = 0;
    assert(a@.skip(0) =~= a@ && b@.skip(0) =~= b@);
    while i < a.len() && i < b.len()
        invariant
            i <= a.len(),
            i <= b.len(),
            text_precedence(a@, b@) == lexicographic(
                a@.skip(i as int),
                b@.skip(i as int),
                char_order(),
            ),
        decreases a.len() - i,
    {
        let x = a[i];
        let y = b[i];
        proof {
            assert(a@.skip(i as int)[0] == x);
            assert(b@.skip(i as int)[0] == y);
            assert(a@.skip(i as int).skip(1) =~= a@.skip(i + 1));
            assert(b@.skip(i as int).skip(1) =~= b@.skip(i + 1));
        }
        if x < y {
            return Precedence::Lower;
        }
        if x > y {
            return Precedence::Higher;
        }
        i += 1;
    }
    if i < b.len() {
        Precedence::Lower
    } else if i < a.len() {
        Precedence::Higher
    } else {
        Precedence::Same
    }
}

fn number_of(id: &[char]) -> (r: Option<u32>)
    ensures
        r == identifier_number(id@),
{
    if id.len() == 0 {
        Some(0)
    } else {
        parse_u32_chars(id)
    }
}

/// Compares two identifiers of a release.
pub fn compare_identifiers(a: &[char], b: &[char]) -> (r: Precedence)
    ensures
        r == identifier_precedence(a@, b@),
{
    match (number_of(a), number_of(b)) {
        (Some(x), Some(y)) => compare_numbers(x, y),
        (Some(_), None) => Precedence::Lower,
        (None, Some(_)) => Precedence::Higher,
        (None, None) => compare_text(a, b),
    }
}

/// Unfolds `identifiers` once at a position of the text it was taken from.
proof fn lemma_identifiers_step(s: Seq<char>, from: int)
    requires
        0 <= from <= s.len(),
    ensures
        ({
            let end = from + index_of(s.skip(from), '.');
            &&& from <= end <= s.len()
            &&& identifiers(s.skip(from))[0] == s.subrange(from, end)
            &&& end < s.len() ==> identifiers(s.skip(from)).skip(1) == identifiers(s.skip(end + 1))
            &&& end == s.len() ==> identifiers(s.skip(from)).len() == 1
            &&& end < s.len() ==> identifiers(s.skip(from)).len() > 1
        }),
{
    let rest = s.skip(from);
    let k = index_of(rest, '.');
    lemma_index_of(rest, '.');
    assert(rest.take(k) =~= s.subrange(from, from + k));
    if k < rest.len() {
        assert(rest.skip(k + 1) =~= s.skip(from + k + 1));
        let tail = split(rest.skip(k + 1), '.');
        lemma_split_nonempty(rest.skip(k + 1), '.');
        assert((seq![rest.take(k)] + tail).skip(1) =~= tail);
    }
}

/// Compares two release texts identifier by identifier.
pub fn compare_releases(a: &str, b: &str) -> (r: Precedence)
    ensures
        r == release_precedence(a@, b@),
{
    let ca = to_chars(a);
    let cb = to_chars(b);
    let mut i: usize = 0;
    let mut j: usize = 0;
    assert(ca@.skip(0) =~= a@ && cb@.skip(0) =~= b@);
    loop
        invariant
            i <= ca.len(),
            j <= cb.len(),
            ca@ == a@,
            cb@ == b@,
            release_precedence(a@, b@) == lexicographic(
                identifiers(ca@.skip(i as int)),
                identifiers(cb@.skip(j as int)),
                identifier_order(),
            ),
        decreases ca.len() - i,
    {
        let end_a = find_char_from(&ca, i, '.');
        let end_b = find_char_from(&cb, j, '.');
        proof {
            lemma_identifiers_step(ca@, i as int);
            lemma_identifiers_step(cb@, j as int);
        }
        let id_a = slice_subrange(ca.as_slice(), i, end_a);
        let id_b = slice_subrange(cb.as_slice(), j, end_b);
        let c = compare_identifiers(id_a, id_b);
        if c != Precedence::Same {
            return c;
        }
        proof {
            let ids_a = identifiers(ca@.skip(i as int));
            let ids_b = identifiers(cb@.skip(j as int));
            assert(lexicographic(ids_a, ids_b, identifier_order()) == lexicographic(
                ids_a.skip(1),
                ids_b.skip(1),
                identifier_order(),
            ));
        }
        if end_a == ca.len() {
            if end_b == cb.len() {
                return Precedence::Same;
            } else {
                return Precedence::Lower;
            }
        }
        if end_b == cb.len() {
            return Precedence::Higher;
        }
        i = end_a + 1;
        j = end_b + 1;
    }
}

} // verus!
