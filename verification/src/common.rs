//! A part of a text between two patterns, with what stands round it.
use crate::text::to_chars;
use vstd::prelude::*;

verus! {

/// Index of the first place in `s` where `pattern` stands, if it stands anywhere.
pub open spec fn first_match(s: Seq<char>, pattern: Seq<char>) -> Option<int>
    decreases s.len(),
{
    if pattern.is_prefix_of(s) {
        Some(0int)
    } else if s.len() == 0 {
        None
    } else {
        match first_match(s.skip(1), pattern) {
            Some(i) => Some(i + 1),
            None => None,
        }
    }
}

/// `pattern` stands in `s` at `i`.
pub open spec fn matches_at(s: Seq<char>, pattern: Seq<char>, i: int) -> bool {
    0 <= i && i + pattern.len() <= s.len() && s.subrange(i, i + pattern.len()) == pattern
}

/// Where the first match is, the pattern stands, and it stands nowhere before;
/// without a first match it stands nowhere.
pub proof fn lemma_first_match(s: Seq<char>, pattern: Seq<char>)
    ensures
        match first_match(s, pattern) {
            Some(i) => matches_at(s, pattern, i) && forall|j: int|
                0 <= j < i ==> !matches_at(s, pattern, j),
            None => forall|j: int| !matches_at(s, pattern, j),
        },
    decreases s.len(),
{
    if pattern.is_prefix_of(s) {
        assert(s.subrange(0, pattern.len() as int) =~= pattern);
    } else {
        assert(!matches_at(s, pattern, 0)) by {
            if matches_at(s, pattern, 0) {
                assert(s.subrange(0, pattern.len() as int) =~= pattern);
                assert(pattern.is_prefix_of(s));
            }
        }
        if s.len() > 0 {
            let t = s.skip(1);
            lemma_first_match(t, pattern);
            assert forall|j: int| 1 <= j implies matches_at(s, pattern, j) == matches_at(
                t,
                pattern,
                j - 1,
            ) by {
                if j + pattern.len() <= s.len() {
                    assert(s.subrange(j, j + pattern.len()) =~= t.subrange(
                        j - 1,
                        j - 1 + pattern.len(),
                    ));
                }
            }
            match first_match(t, pattern) {
                Some(i) => {
                    assert(matches_at(s, pattern, i + 1));
                    assert forall|j: int| 0 <= j < i + 1 implies !matches_at(s, pattern, j) by {
                        if j >= 1 {
                            assert(!matches_at(t, pattern, j - 1));
                        }
                    }
                },
                None => {
                    assert forall|j: int| !matches_at(s, pattern, j) by {
                        if j >= 1 {
                            assert(!matches_at(t, pattern, j - 1));
                        }
                    }
                },
            }
        } else {
            assert forall|j: int| !matches_at(s, pattern, j) by {
                if matches_at(s, pattern, j) {
                    assert(j == 0);
                }
            }
        }
    }
}

/// The first place where the pattern stands is the first match.
pub proof fn lemma_first_match_unique(s: Seq<char>, pattern: Seq<char>, i: int)
    requires
        matches_at(s, pattern, i),
        forall|j: int| 0 <= j < i ==> !matches_at(s, pattern, j),
    ensures
        first_match(s, pattern) == Some(i),
{
    lemma_first_match(s, pattern);
}

/// A pattern that stands at no place where it would fit has no match.
pub proof fn lemma_no_match(s: Seq<char>, pattern: Seq<char>)
    requires
        forall|j: int| 0 <= j <= s.len() - pattern.len() ==> !matches_at(s, pattern, j),
    ensures
        first_match(s, pattern) is None,
{
    lemma_first_match(s, pattern);
}

/// Does `pattern` stand in `chars` at `at`?
fn stands_at(chars: &Vec<char>, pattern: &Vec<char>, at: usize) -> (r: bool)
    requires
        at + pattern.len() <= chars.len(),
    ensures
        r == matches_at(chars@, pattern@, at as int),
{
    let mut k: usize = 0;
    while k < pattern.len()
        invariant
            k <= pattern.len(),
            at + pattern.len() <= chars.len(),
            forall|j: int| 0 <= j < k ==> chars@[at + j] == pattern@[j],
        decreases pattern.len() - k,
    {
        if chars[at + k] != pattern[k] {
            proof {
                let part = chars@.subrange(at as int, at + pattern.len());
                assert(part[k as int] == chars@[at + k]);
            }
            return false;
        }
        k += 1;
    }
    assert(chars@.subrange(at as int, at + pattern.len()) =~= pattern@);
    true
}

/// Finds the first place at or after `from` where `pattern` stands.
pub fn find_text(chars: &Vec<char>, from: usize, pattern: &Vec<char>) -> (r: Option<usize>)
    requires
        from <= chars.len(),
    ensures
        match r {
            Some(i) => from <= i && i + pattern.len() <= chars.len() && first_match(
                chars@.skip(from as int),
                pattern@,
            ) == Some(i - from),
            None => first_match(chars@.skip(from as int), pattern@) is None,
        },
{
    let ghost rest = chars@.skip(from as int);
    if pattern.len() > chars.len() - from {
        proof {
            lemma_no_match(rest, pattern@);
        }
        return None;
    }
    let last = chars.len() - pattern.len();
    let mut i: usize = from;
    loop
        invariant_except_break
            forall|j: int| 0 <= j < i - from ==> !matches_at(rest, pattern@, j),
        invariant
            from <= i <= last,
            last == chars.len() - pattern.len(),
            rest == chars@.skip(from as int),
        ensures
            forall|j: int| 0 <= j <= last - from ==> !matches_at(rest, pattern@, j),
        decreases last - i,
    {
        let found = stands_at(chars, pattern, i);
        proof {
            assert(rest.subrange(i - from, i - from + pattern.len()) =~= chars@.subrange(
                i as int,
                i + pattern.len(),
            ));
        }
        if found {
            proof {
                lemma_first_match_unique(rest, pattern@, i - from);
            }
            return Some(i);
        }
        if i == last {
            break ;
        }
        i += 1;
    }
    proof {
        lemma_no_match(rest, pattern@);
    }
    None
}

/// A part of a text, with what stands before and after it.
pub struct SubstringRef<'a> {
    pub before: &'a str,
    pub substring: &'a str,
    pub after: &'a str,
}

/// The three parts of a text as sequences of characters.
pub struct SubstringModel {
    pub before: Seq<char>,
    pub substring: Seq<char>,
    pub after: Seq<char>,
}

impl<'a> View for SubstringRef<'a> {
    type V = SubstringModel;

    open spec fn view(&self) -> SubstringModel {
        SubstringModel { before: self.before@, substring: self.substring@, after: self.after@ }
    }
}

/// The part of `source` that lies between the first `start_pattern` and the
/// first `end_pattern` after it. `before` runs to the end of the start
/// pattern; `after` begins with the end pattern.
pub open spec fn find_spec(
    source: Seq<char>,
    start_pattern: Seq<char>,
    end_pattern: Seq<char>,
) -> Option<SubstringModel> {
    match first_match(source, start_pattern) {
        None => None,
        Some(i) => {
            let rest = source.skip(i + start_pattern.len());
            match first_match(rest, end_pattern) {
                None => None,
                Some(j) => Some(
                    SubstringModel {
                        before: source.take(i + start_pattern.len()),
                        substring: rest.take(j),
                        after: rest.skip(j),
                    },
                ),
            }
        },
    }
}

/// The text with `insert` in the place of the part.
pub open spec fn replace_spec(part: SubstringModel, insert: Seq<char>) -> Seq<char> {
    part.before + insert + part.after
}

impl<'a> SubstringRef<'a> {
    /// Finds the part of `source` between the first `start_pattern` and the
    /// first `end_pattern` after it.
    pub fn find(source: &'a str, start_pattern: &str, end_pattern: &str) -> (r: Option<Self>)
        ensures
            match r {
                Some(part) => find_spec(source@, start_pattern@, end_pattern@) == Some(part@),
                None => find_spec(source@, start_pattern@, end_pattern@) is None,
            },
    {
        let chars = to_chars(source);
        let start = to_chars(start_pattern);
        let end = to_chars(end_pattern);
        assert(chars@.skip(0) =~= chars@);
        let i = match find_text(&chars, 0, &start) {
            Some(i) => i,
            None => {
                return None;
            },
        };
        let middle = i + start.len();
        let j = match find_text(&chars, middle, &end) {
            Some(j) => j,
            None => {
                return None;
            },
        };
        let before = source.substring_char(0, middle);
        let substring = source.substring_char(middle, j);
        let after = source.substring_char(j, chars.len());
        proof {
            let rest = source@.skip(middle as int);
            assert(before@ =~= source@.take(middle as int));
            assert(substring@ =~= rest.take(j - middle));
            assert(after@ =~= rest.skip(j - middle));
        }
        Some(SubstringRef { before, substring, after })
    }

    /// The text with `insert_string` in the place of the part.
    pub fn replace(&self, insert_string: &str) -> (r: String)
        ensures
            r@ == replace_spec(self@, insert_string@),
    {
        String::from_str(self.before).concat(insert_string).concat(self.after)
    }
}

/// What `find` takes apart, put together again, is the source.
pub proof fn lemma_find_covers_source(
    source: Seq<char>,
    start_pattern: Seq<char>,
    end_pattern: Seq<char>,
)
    ensures
        find_spec(source, start_pattern, end_pattern) matches Some(part) ==> {
            &&& replace_spec(part, part.substring) == source
            &&& start_pattern.is_suffix_of(part.before)
            &&& end_pattern.is_prefix_of(part.after)
            &&& first_match(part.substring, end_pattern) is None || end_pattern.len() == 0
        },
{
    if let Some(part) = find_spec(source, start_pattern, end_pattern) {
        let i = first_match(source, start_pattern)->0;
        lemma_first_match(source, start_pattern);
        let middle = i + start_pattern.len();
        let rest = source.skip(middle);
        let j = first_match(rest, end_pattern)->0;
        lemma_first_match(rest, end_pattern);
        assert(part.before + part.substring + part.after =~= source);
        assert(part.before.skip(part.before.len() - start_pattern.len()) =~= source.subrange(
            i,
            i + start_pattern.len(),
        ));
        assert(part.after.take(end_pattern.len() as int) =~= rest.subrange(
            j,
            j + end_pattern.len(),
        ));
        assert(part.after.subrange(0, end_pattern.len() as int) =~= part.after.take(
            end_pattern.len() as int,
        ));
        if end_pattern.len() > 0 {
            lemma_first_match(part.substring, end_pattern);
            if let Some(k) = first_match(part.substring, end_pattern) {
                assert(k + end_pattern.len() <= j);
                assert(rest.subrange(k, k + end_pattern.len()) =~= part.substring.subrange(
                    k,
                    k + end_pattern.len(),
                ));
                assert(matches_at(rest, end_pattern, k));
                assert(k < j);
            }
        }
    }
}

} // verus!
