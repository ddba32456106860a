//! Building blocks shared by the parsers: searching, cutting and splitting
//! text.
//!
//! Text is modelled as `Seq<char>`, the view of `str` and `String`.
use vstd::prelude::*;

verus! {

/// The characters of `s`, in order.
pub fn to_chars(s: &str) -> (out: Vec<char>)
    ensures
        out@ == s@,
{
    let mut out: Vec<char> = Vec::new();
    for c in it: s.chars()
        invariant
            out@ == it.seq().take(it.index() as int),
            it.seq() == s@,
    {
        out.push(c);
    }
    out
}

/// Index of the first occurrence of `c` in `s`; `s.len()` when `c` does not occur.
pub open spec fn index_of(s: Seq<char>, c: char) -> int
    decreases s.len(),
{
    if s.len() == 0 || s[0] == c {
        0
    } else {
        1 + index_of(s.skip(1), c)
    }
}

/// `i` is where `c` first occurs in `s`, or the length of `s` if it never does.
pub open spec fn is_first_index(s: Seq<char>, c: char, i: int) -> bool {
    &&& 0 <= i <= s.len()
    &&& i < s.len() ==> s[i] == c
    &&& forall|j: int| 0 <= j < i ==> s[j] != c
}

/// `index_of` gives the first index of the character, or the length.
pub proof fn lemma_index_of(s: Seq<char>, c: char)
    ensures
        is_first_index(s, c, index_of(s, c)),
    decreases s.len(),
{
    if s.len() == 0 || s[0] == c {
    } else {
        lemma_index_of(s.skip(1), c);
        let i = index_of(s, c);
        assert forall|j: int| 0 <= j < i implies s[j] != c by {
            if j > 0 {
                assert(s[j] == s.skip(1)[j - 1]);
            }
        }
    }
}

/// The first index of the character is what `index_of` gives.
pub proof fn lemma_index_of_unique(s: Seq<char>, c: char, i: int)
    requires
        is_first_index(s, c, i),
    ensures
        index_of(s, c) == i,
{
    lemma_index_of(s, c);
}

/// Does `c` occur in `s`?
pub open spec fn occurs(s: Seq<char>, c: char) -> bool {
    index_of(s, c) < s.len()
}

/// A character occurs in a joined text where it occurs in a part.
pub proof fn lemma_occurs_in_parts(a: Seq<char>, b: Seq<char>, c: char)
    ensures
        occurs(a + b, c) == (occurs(a, c) || occurs(b, c)),
        !occurs(a, c) ==> index_of(a + b, c) == a.len() + index_of(b, c),
{
    let s = a + b;
    lemma_index_of(a, c);
    lemma_index_of(b, c);
    lemma_index_of(s, c);
    if occurs(a, c) {
        let i = index_of(a, c);
        assert(s[i] == a[i]);
    } else {
        let k = a.len() + index_of(b, c);
        assert forall|j: int| 0 <= j < k implies s[j] != c by {
            if j < a.len() {
                assert(s[j] == a[j]);
            } else {
                assert(s[j] == b[j - a.len()]);
            }
        }
        if k < s.len() {
            assert(s[k] == b[k - a.len()]);
        }
        lemma_index_of_unique(s, c, k);
    }
}

/// A text cut at a character that does not occur in its first part.
pub proof fn lemma_cut_at(a: Seq<char>, c: char, b: Seq<char>)
    requires
        !occurs(a, c),
    ensures
        before(a + seq![c] + b, c) == a,
        after(a + seq![c] + b, c) == Some(b),
{
    let s = a + seq![c] + b;
    lemma_index_of(a, c);
    assert forall|j: int| 0 <= j < a.len() implies s[j] != c by {
        assert(s[j] == a[j]);
    }
    assert(s[a.len() as int] == c);
    lemma_index_of_unique(s, c, a.len() as int);
    assert(s.take(a.len() as int) =~= a);
    assert(s.skip(a.len() as int + 1) =~= b);
}

/// A text in which the character does not occur is not cut.
pub proof fn lemma_cut_nowhere(a: Seq<char>, c: char)
    requires
        !occurs(a, c),
    ensures
        before(a, c) == a,
        after(a, c) is None,
{
    lemma_index_of(a, c);
    assert(a.take(a.len() as int) =~= a);
}

/// Position of the first `c` at or after `from` in `chars`, or the length of `chars`.
pub fn find_char_from(chars: &Vec<char>, from: usize, c: char) -> (i: usize)
    requires
        from <= chars.len(),
    ensures
        from <= i <= chars.len(),
        i == from + index_of(chars@.skip(from as int), c),
{
    let mut i: usize = from;
    while i < chars.len() && chars[i] != c
        invariant
            from <= i <= chars.len(),
            forall|j: int| from <= j < i ==> chars@[j] != c,
        decreases chars.len() - i,
    {
        i += 1;
    }
    proof {
        lemma_index_of_unique(chars@.skip(from as int), c, i - from);
    }
    i
}

/// Position of the first `c` in `chars`, or its length.
pub fn find_char(chars: &Vec<char>, c: char) -> (i: usize)
    ensures
        i == index_of(chars@, c),
{
    assert(chars@.skip(0) =~= chars@);
    find_char_from(chars, 0, c)
}

/// The text of `s` before the first `c`: all of `s` when `c` does not occur.
pub open spec fn before(s: Seq<char>, c: char) -> Seq<char> {
    s.take(index_of(s, c))
}

/// The text of `s` after the first `c`, when `c` occurs.
pub open spec fn after(s: Seq<char>, c: char) -> Option<Seq<char>> {
    if occurs(s, c) {
        Some(s.skip(index_of(s, c) + 1))
    } else {
        None
    }
}

/// The text of an optional string slice.
pub open spec fn optional_text(text: Option<&str>) -> Option<Seq<char>> {
    match text {
        Some(s) => Some(s@),
        None => None,
    }
}

/// Cuts `s` at the first `c`: what stands before it and, if `c` occurs, what
/// stands after it.
pub fn cut<'a>(s: &'a str, c: char) -> (r: (&'a str, Option<&'a str>))
    ensures
        r.0@ == before(s@, c),
        optional_text(r.1) == after(s@, c),
{
    let chars = to_chars(s);
    let i = find_char(&chars, c);
    let n = chars.len();
    proof {
        lemma_index_of(s@, c);
    }
    if i < n {
        let head = s.substring_char(0, i);
        let tail = s.substring_char(i + 1, n);
        assert(head@ =~= s@.take(i as int));
        assert(tail@ =~= s@.skip(i + 1));
        (head, Some(tail))
    } else {
        assert(s@.take(i as int) =~= s@);
        (s, None)
    }
}

/// The pieces of `s` that lie between the occurrences of `sep`. There is
/// always at least one piece; pieces may be empty.
pub open spec fn split(s: Seq<char>, sep: char) -> Seq<Seq<char>>
    decreases s.len(),
{
    let i = index_of(s, sep);
    if 0 <= i < s.len() {
        seq![s.take(i)] + split(s.skip(i + 1), sep)
    } else {
        seq![s]
    }
}

/// Splits `s` at every `sep`.
pub fn split_at_char<'a>(s: &'a str, sep: char) -> (r: Vec<&'a str>)
    ensures
        texts(r@) == split(s@, sep),
        r.len() >= 1,
{
    let chars = to_chars(s);
    let n = chars.len();
    let mut out: Vec<&'a str> = Vec::new();
    let mut from: usize = 0;
    assert(s@.skip(0) =~= s@);
    assert(texts(out@) + split(s@, sep) =~= split(s@, sep));
    loop
        invariant_except_break
            split(s@, sep) == texts(out@) + split(s@.skip(from as int), sep),
        invariant
            from <= n,
            n == chars.len(),
            chars@ == s@,
        ensures
            texts(out@) == split(s@, sep),
            out.len() >= 1,
        decreases n - from,
    {
        let end = find_char_from(&chars, from, sep);
        let piece = s.substring_char(from, end);
        let ghost before = out@;
        let ghost rest = s@.skip(from as int);
        out.push(piece);
        proof {
            lemma_index_of(rest, sep);
            assert(piece@ =~= rest.take(end - from));
            assert(texts(out@) =~= texts(before) + seq![piece@]);
        }
        if end == n {
            proof {
                assert(rest.take(end - from) =~= rest);
                assert(split(rest, sep) =~= seq![rest]);
            }
            break ;
        }
        proof {
            assert(rest.skip(end - from + 1) =~= s@.skip(end + 1));
            assert(texts(before) + (seq![piece@] + split(s@.skip(end + 1), sep)) =~= texts(out@)
                + split(s@.skip(end + 1), sep));
        }
        from = end + 1;
    }
    out
}

/// A text has at least one piece.
pub proof fn lemma_split_nonempty(s: Seq<char>, sep: char)
    ensures
        split(s, sep).len() >= 1,
{
}

/// The pieces with `sep` between each two.
pub open spec fn join_of(pieces: Seq<Seq<char>>, sep: char) -> Seq<char>
    decreases pieces.len(),
{
    if pieces.len() == 0 {
        Seq::<char>::empty()
    } else if pieces.len() == 1 {
        pieces[0]
    } else {
        join_of(pieces.drop_last(), sep) + seq![sep] + pieces.last()
    }
}

proof fn lemma_join_with_one_before(head: Seq<char>, tail: Seq<Seq<char>>, sep: char)
    requires
        tail.len() >= 1,
    ensures
        join_of(seq![head] + tail, sep) == head + seq![sep] + join_of(tail, sep),
    decreases tail.len(),
{
    let all = seq![head] + tail;
    assert(all.drop_last() =~= seq![head] + tail.drop_last());
    assert(all.last() == tail.last());
    if tail.len() == 1 {
        assert(all.drop_last() =~= seq![head]);
        assert(join_of(all.drop_last(), sep) == head);
    } else {
        lemma_join_with_one_before(head, tail.drop_last(), sep);
        assert(head + seq![sep] + join_of(tail.drop_last(), sep) + seq![sep] + tail.last() =~= head
            + seq![sep] + (join_of(tail.drop_last(), sep) + seq![sep] + tail.last()));
    }
}

/// The pieces of a text, joined by the separator they were split at, are
/// the text.
pub proof fn lemma_join_of_split(s: Seq<char>, sep: char)
    ensures
        split(s, sep).len() >= 1,
        join_of(split(s, sep), sep) == s,
    decreases s.len(),
{
    let i = index_of(s, sep);
    lemma_index_of(s, sep);
    if i < s.len() {
        let rest = s.skip(i + 1);
        lemma_join_of_split(rest, sep);
        lemma_join_with_one_before(s.take(i), split(rest, sep), sep);
        assert(s.take(i) + seq![sep] + rest =~= s);
    }
}

/// White space as Unicode defines it (the property `White_Space`).
pub open spec fn is_whitespace_spec(c: char) -> bool {
    let code = c as int;
    ||| 0x09 <= code <= 0x0D
    ||| code == 0x20
    ||| code == 0x85
    ||| code == 0xA0
    ||| code == 0x1680
    ||| 0x2000 <= code <= 0x200A
    ||| code == 0x2028
    ||| code == 0x2029
    ||| code == 0x202F
    ||| code == 0x205F
    ||| code == 0x3000
}

/// Is `c` white space?
pub fn is_whitespace(c: char) -> (r: bool)
    ensures
        r == is_whitespace_spec(c),
{
    let code = c as u32;
    (0x09 <= code && code <= 0x0D) || code == 0x20 || code == 0x85 || code == 0xA0 || code
        == 0x1680 || (0x2000 <= code && code <= 0x200A) || code == 0x2028 || code == 0x2029
        || code == 0x202F || code == 0x205F || code == 0x3000
}

/// Index of the first white space in `s`, or `s.len()` when there is none.
pub open spec fn first_whitespace(s: Seq<char>) -> int
    decreases s.len(),
{
    if s.len() == 0 || is_whitespace_spec(s[0]) {
        0
    } else {
        1 + first_whitespace(s.skip(1))
    }
}

/// `first_whitespace` gives the index of the first white space, or the length.
pub proof fn lemma_first_whitespace(s: Seq<char>)
    ensures
        0 <= first_whitespace(s) <= s.len(),
        first_whitespace(s) < s.len() ==> is_whitespace_spec(s[first_whitespace(s)]),
        forall|j: int| 0 <= j < first_whitespace(s) ==> !is_whitespace_spec(#[trigger] s[j]),
    decreases s.len(),
{
    if s.len() == 0 || is_whitespace_spec(s[0]) {
    } else {
        lemma_first_whitespace(s.skip(1));
        assert forall|j: int| 0 <= j < first_whitespace(s) implies !is_whitespace_spec(
            #[trigger] s[j],
        ) by {
            if j > 0 {
                assert(s[j] == s.skip(1)[j - 1]);
            }
        }
    }
}

/// The words of `s`: its longest runs of characters that are not white space.
pub open spec fn words(s: Seq<char>) -> Seq<Seq<char>>
    decreases s.len(),
{
    if s.len() == 0 {
        Seq::<Seq<char>>::empty()
    } else if is_whitespace_spec(s[0]) {
        words(s.skip(1))
    } else {
        let end = first_whitespace(s);
        if 0 < end <= s.len() {
            seq![s.take(end)] + words(s.skip(end))
        } else {
            Seq::<Seq<char>>::empty()
        }
    }
}

/// The texts of a list of string slices.
pub open spec fn texts(list: Seq<&str>) -> Seq<Seq<char>> {
    Seq::new(list.len(), |i: int| list[i]@)
}

/// Position of the first white space at or after `from`, or the length of `chars`.
pub fn find_whitespace_from(chars: &Vec<char>, from: usize) -> (i: usize)
    requires
        from <= chars.len(),
    ensures
        from <= i <= chars.len(),
        i == from + first_whitespace(chars@.skip(from as int)),
{
    let mut i: usize = from;
    while i < chars.len() && !is_whitespace(chars[i])
        invariant
            from <= i <= chars.len(),
            first_whitespace(chars@.skip(from as int)) == (i - from) + first_whitespace(
                chars@.skip(i as int),
            ),
        decreases chars.len() - i,
    {
        assert(chars@.skip(i as int).skip(1) =~= chars@.skip(i + 1));
        assert(chars@.skip(i as int)[0] == chars@[i as int]);
        i += 1;
    }
    i
}

/// Splits `s` at white space into its words.
pub fn split_whitespace<'a>(s: &'a str) -> (r: Vec<&'a str>)
    ensures
        texts(r@) == words(s@),
{
    let chars = to_chars(s);
    let n = chars.len();
    let mut out: Vec<&'a str> = Vec::new();
    let mut i: usize = 0;
    assert(s@.skip(0) =~= s@);
    assert(texts(out@) + words(s@) =~= words(s@));
    while i < n
        invariant
            i <= n,
            n == chars.len(),
            chars@ == s@,
            words(s@) == texts(out@) + words(s@.skip(i as int)),
        decreases n - i,
    {
        let ghost rest = s@.skip(i as int);
        assert(rest[0] == chars@[i as int]);
        if is_whitespace(chars[i]) {
            assert(rest.skip(1) =~= s@.skip(i + 1));
            i += 1;
        } else {
            let end = find_whitespace_from(&chars, i);
            proof {
                lemma_first_whitespace(rest);
            }
            let word = s.substring_char(i, end);
            let ghost before = out@;
            out.push(word);
            proof {
                assert(word@ =~= rest.take(end - i));
                assert(rest.skip(end - i) =~= s@.skip(end as int));
                assert(texts(out@) =~= texts(before) + seq![word@]);
            }
            i = end;
        }
    }
    assert(s@.skip(i as int) =~= Seq::<char>::empty());
    assert(texts(out@) + Seq::<Seq<char>>::empty() =~= texts(out@));
    out
}

} // verus!
