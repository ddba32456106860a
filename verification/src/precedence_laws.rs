//! Precedence is a total order up to versions that stand level: it is
//! reflexive, it turns round when its arguments change places, and it is
//! transitive.
use crate::precedence::{
    char_order, identifier_number, identifier_order, identifiers, lexicographic,
    release_precedence, text_precedence, Precedence,
};
use crate::semantic_version::{
    at_most, next_version_spec, precedence, precedes, same_version, VersionModel,
};
use crate::text::{index_of, lemma_index_of, lemma_index_of_unique, split};
use vstd::prelude::*;

verus! {

/// `order` ranks every two values, consistently.
pub open spec fn is_total_preorder<A>(order: spec_fn(A, A) -> Precedence) -> bool {
    &&& forall|x: A| #[trigger] order(x, x) == Precedence::Same
    &&& forall|x: A, y: A| #[trigger] order(y, x) == order(x, y).flip()
    &&& forall|x: A, y: A, z: A|
        #![trigger order(x, y), order(y, z)]
        order(x, y) != Precedence::Higher && order(y, z) != Precedence::Higher ==> order(x, z)
            != Precedence::Higher
}

/// In a total preorder, two steps that do not go up stand level only where
/// both steps do.
pub proof fn lemma_level_steps<A>(order: spec_fn(A, A) -> Precedence, x: A, y: A, z: A)
    requires
        is_total_preorder(order),
        order(x, y) != Precedence::Higher,
        order(y, z) != Precedence::Higher,
    ensures
        order(x, z) != Precedence::Higher,
        order(x, z) == Precedence::Same ==> order(x, y) == Precedence::Same && order(y, z)
            == Precedence::Same,
        order(x, y) == Precedence::Same && order(y, z) == Precedence::Same ==> order(x, z)
            == Precedence::Same,
{
    assert(order(z, x) == order(x, z).flip());
    assert(order(y, x) == order(x, y).flip());
    assert(order(z, y) == order(y, z).flip());
    if order(x, z) == Precedence::Same {
        // z <= x <= y, hence z <= y; and y <= z <= x, hence y <= x
        assert(order(z, x) != Precedence::Higher && order(x, y) != Precedence::Higher ==> order(
            z,
            y,
        ) != Precedence::Higher);
        assert(order(y, z) != Precedence::Higher && order(z, x) != Precedence::Higher ==> order(
            y,
            x,
        ) != Precedence::Higher);
    }
    if order(x, y) == Precedence::Same && order(y, z) == Precedence::Same {
        assert(order(z, y) != Precedence::Higher && order(y, x) != Precedence::Higher ==> order(
            z,
            x,
        ) != Precedence::Higher);
    }
}

/// Every list stands level with itself.
pub proof fn lemma_lexicographic_reflexive<A>(a: Seq<A>, order: spec_fn(A, A) -> Precedence)
    requires
        is_total_preorder(order),
    ensures
        lexicographic(a, a, order) == Precedence::Same,
    decreases a.len(),
{
    if a.len() > 0 {
        assert(order(a[0], a[0]) == Precedence::Same);
        lemma_lexicographic_reflexive(a.skip(1), order);
    }
}

/// Seen from the other side, the order of two lists turns round.
pub proof fn lemma_lexicographic_antisymmetric<A>(
    a: Seq<A>,
    b: Seq<A>,
    order: spec_fn(A, A) -> Precedence,
)
    requires
        is_total_preorder(order),
    ensures
        lexicographic(b, a, order) == lexicographic(a, b, order).flip(),
    decreases a.len(),
{
    if a.len() > 0 && b.len() > 0 {
        assert(order(b[0], a[0]) == order(a[0], b[0]).flip());
        lemma_lexicographic_antisymmetric(a.skip(1), b.skip(1), order);
    }
}

/// The order of lists is transitive where the order of their elements is.
pub proof fn lemma_lexicographic_transitive<A>(
    a: Seq<A>,
    b: Seq<A>,
    c: Seq<A>,
    order: spec_fn(A, A) -> Precedence,
)
    requires
        is_total_preorder(order),
        lexicographic(a, b, order) != Precedence::Higher,
        lexicographic(b, c, order) != Precedence::Higher,
    ensures
        lexicographic(a, c, order) != Precedence::Higher,
    decreases a.len(),
{
    if a.len() > 0 {
        assert(b.len() > 0);
        assert(c.len() > 0);
        lemma_level_steps(order, a[0], b[0], c[0]);
        if order(a[0], c[0]) == Precedence::Same {
            lemma_lexicographic_transitive(a.skip(1), b.skip(1), c.skip(1), order);
        }
    }
}

/// Characters are totally ordered.
pub proof fn lemma_char_order()
    ensures
        is_total_preorder(char_order()),
{
}

/// Texts that stand level are the same text.
pub proof fn lemma_level_texts_are_equal(a: Seq<char>, b: Seq<char>)
    requires
        text_precedence(a, b) == Precedence::Same,
    ensures
        a == b,
    decreases a.len(),
{
    if a.len() > 0 {
        lemma_level_texts_are_equal(a.skip(1), b.skip(1));
        assert(a =~= seq![a[0]] + a.skip(1));
        assert(b =~= seq![b[0]] + b.skip(1));
    } else {
        assert(a =~= b);
    }
}

/// Identifiers are totally ordered, up to numbers written differently.
pub proof fn lemma_identifier_order()
    ensures
        is_total_preorder(identifier_order()),
{
    let order = identifier_order();
    lemma_char_order();
    assert forall|x: Seq<char>| #[trigger] order(x, x) == Precedence::Same by {
        lemma_lexicographic_reflexive(x, char_order());
    }
    assert forall|x: Seq<char>, y: Seq<char>| #[trigger] order(y, x) == order(x, y).flip() by {
        lemma_lexicographic_antisymmetric(x, y, char_order());
    }
    assert forall|x: Seq<char>, y: Seq<char>, z: Seq<char>|
        #![trigger order(x, y), order(y, z)]
        order(x, y) != Precedence::Higher && order(y, z) != Precedence::Higher implies order(x, z)
        != Precedence::Higher by {
        if identifier_number(x) is None && identifier_number(y) is None && identifier_number(z)
            is None {
            lemma_lexicographic_transitive(x, y, z, char_order());
        }
    }
}

/// Every release text stands level with itself.
pub proof fn lemma_release_reflexive(a: Seq<char>)
    ensures
        release_precedence(a, a) == Precedence::Same,
{
    lemma_identifier_order();
    lemma_lexicographic_reflexive(identifiers(a), identifier_order());
}

/// Seen from the other side, the order of two release texts turns round.
pub proof fn lemma_release_antisymmetric(a: Seq<char>, b: Seq<char>)
    ensures
        release_precedence(b, a) == release_precedence(a, b).flip(),
{
    lemma_identifier_order();
    lemma_lexicographic_antisymmetric(identifiers(a), identifiers(b), identifier_order());
}

/// The order of release texts is transitive.
pub proof fn lemma_release_transitive(a: Seq<char>, b: Seq<char>, c: Seq<char>)
    requires
        release_precedence(a, b) != Precedence::Higher,
        release_precedence(b, c) != Precedence::Higher,
    ensures
        release_precedence(a, c) != Precedence::Higher,
{
    lemma_identifier_order();
    lemma_lexicographic_transitive(
        identifiers(a),
        identifiers(b),
        identifiers(c),
        identifier_order(),
    );
}

/// Every version stands level with itself.
pub proof fn lemma_precedence_reflexive(a: VersionModel)
    ensures
        precedence(a, a) == Precedence::Same,
{
    if let Some(r) = a.release {
        lemma_release_reflexive(r);
    }
}

/// Seen from the other side, lower is higher and level is level.
pub proof fn lemma_precedence_antisymmetric(a: VersionModel, b: VersionModel)
    ensures
        precedence(b, a) == precedence(a, b).flip(),
{
    if let (Some(x), Some(y)) = (a.release, b.release) {
        lemma_release_antisymmetric(x, y);
    }
}

/// If `a` is at most `b` and `b` is at most `c`, then `a` is at most `c`.
pub proof fn lemma_precedence_transitive(a: VersionModel, b: VersionModel, c: VersionModel)
    requires
        at_most(a, b),
        at_most(b, c),
    ensures
        at_most(a, c),
{
    if let (Some(x), Some(y), Some(z)) = (a.release, b.release, c.release) {
        if a.major == b.major && b.major == c.major && a.minor == b.minor && b.minor == c.minor
            && a.patch == b.patch && b.patch == c.patch {
            lemma_release_transitive(x, y, z);
        }
    }
}

/// A step up followed or preceded by steps that do not go down is a step up.
pub proof fn lemma_precedence_strict(a: VersionModel, b: VersionModel, c: VersionModel)
    requires
        at_most(a, b),
        at_most(b, c),
        precedes(a, b) || precedes(b, c),
    ensures
        precedes(a, c),
{
    lemma_precedence_transitive(a, b, c);
    lemma_precedence_antisymmetric(a, c);
    lemma_precedence_antisymmetric(a, b);
    lemma_precedence_antisymmetric(b, c);
    if precedence(a, c) == Precedence::Same {
        // c is at most a, so c is at most b and b is at most a
        lemma_precedence_transitive(c, a, b);
        lemma_precedence_transitive(b, c, a);
    }
}

/// The build has no part in precedence.
pub proof fn lemma_build_is_ignored(a: VersionModel, b: VersionModel, build: Option<Seq<char>>)
    ensures
        precedence(VersionModel { build, ..a }, b) == precedence(a, b),
        precedence(a, VersionModel { build, ..b }) == precedence(a, b),
        same_version(VersionModel { build, ..a }, a),
{
}

/// Equal versions stand level.
pub proof fn lemma_equal_versions_are_level(a: VersionModel, b: VersionModel)
    requires
        same_version(a, b),
    ensures
        precedence(a, b) == Precedence::Same,
{
    if let Some(r) = a.release {
        lemma_release_reflexive(r);
    }
}

/// A version without a release is higher than every pre-release of the
/// same numbers.
pub proof fn lemma_release_outranks_pre_release(a: VersionModel, b: VersionModel)
    requires
        a.major == b.major,
        a.minor == b.minor,
        a.patch == b.patch,
        a.release is None,
        b.release is Some,
    ensures
        precedes(b, a),
{
}

/// The identifiers of a text with one more `.` at its end: those of the
/// text, then an empty one.
pub proof fn lemma_identifiers_of_extended(s: Seq<char>)
    ensures
        identifiers(s.push('.')) == identifiers(s).push(Seq::<char>::empty()),
    decreases s.len(),
{
    let t = s.push('.');
    let i = index_of(s, '.');
    lemma_index_of(s, '.');
    assert forall|j: int| 0 <= j < i implies t[j] != '.' by {
        assert(t[j] == s[j]);
    }
    lemma_index_of_unique(t, '.', i);
    if i < s.len() {
        lemma_identifiers_of_extended(s.skip(i + 1));
        assert(t.skip(i + 1) =~= s.skip(i + 1).push('.'));
        assert(t.take(i) =~= s.take(i));
        assert((seq![s.take(i)] + split(s.skip(i + 1), '.')).push(Seq::<char>::empty()) =~= seq![
            s.take(i),
        ] + split(s.skip(i + 1), '.').push(Seq::<char>::empty()));
    } else {
        assert(t.take(i) =~= s);
        assert(t.skip(i + 1) =~= Seq::<char>::empty());
        lemma_index_of(Seq::<char>::empty(), '.');
        assert(split(Seq::<char>::empty(), '.') =~= seq![Seq::<char>::empty()]);
        assert(seq![s] + seq![Seq::<char>::empty()] =~= seq![s].push(Seq::<char>::empty()));
    }
}

/// A list is lower than itself with one more element.
pub proof fn lemma_lexicographic_extended<A>(a: Seq<A>, x: A, order: spec_fn(A, A) -> Precedence)
    requires
        is_total_preorder(order),
    ensures
        lexicographic(a, a.push(x), order) == Precedence::Lower,
    decreases a.len(),
{
    if a.len() > 0 {
        assert(order(a[0], a[0]) == Precedence::Same);
        assert(a.push(x).skip(1) =~= a.skip(1).push(x));
        lemma_lexicographic_extended(a.skip(1), x, order);
    }
}

/// The bound after a pre-release version is higher than the version. For a
/// version without a release it is lower: it is then the lowest pre-release.
pub proof fn lemma_next_version_is_higher(v: VersionModel)
    ensures
        v.release is Some ==> precedes(v, next_version_spec(v)),
        v.release is None ==> precedes(next_version_spec(v), v),
{
    if let Some(r) = v.release {
        lemma_identifiers_of_extended(r);
        lemma_identifier_order();
        lemma_lexicographic_extended(identifiers(r), Seq::<char>::empty(), identifier_order());
    }
}

} // verus!
