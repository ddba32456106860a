//! Taking characters off the ends of a text, and comparing texts.
use crate::text::{is_whitespace, is_whitespace_spec, to_chars};
use vstd::prelude::*;

verus! {

/// How many characters at the start of `s` satisfy `p`.
pub open spec fn leading(s: Seq<char>, p: spec_fn(char) -> bool) -> int
    decreases s.len(),
{
    if s.len() > 0 && p(s[0]) {
        1 + leading(s.skip(1), p)
    } else {
        0
    }
}

/// How many characters at the end of `s` satisfy `p`.
pub open spec fn trailing(s: Seq<char>, p: spec_fn(char) -> bool) -> int
    decreases s.len(),
{
    if s.len() > 0 && p(s.last()) {
        1 + trailing(s.drop_last(), p)
    } else {
        0
    }
}

/// The characters counted at the start satisfy `p`, and the one after them
/// does not.
pub proof fn lemma_leading(s: Seq<char>, p: spec_fn(char) -> bool)
    ensures
        0 <= leading(s, p) <= s.len(),
        forall|i: int| 0 <= i < leading(s, p) ==> p(#[trigger] s[i]),
        leading(s, p) < s.len() ==> !p(s[leading(s, p)]),
    decreases s.len(),
{
    if s.len() > 0 && p(s[0]) {
        lemma_leading(s.skip(1), p);
        assert forall|i: int| 0 <= i < leading(s, p) implies p(#[trigger] s[i]) by {
            if i > 0 {
                assert(s[i] == s.skip(1)[i - 1]);
            }
        }
    }
}

/// The characters counted at the end satisfy `p`, and the one before them
/// does not.
pub proof fn lemma_trailing(s: Seq<char>, p: spec_fn(char) -> bool)
    ensures
        0 <= trailing(s, p) <= s.len(),
        forall|i: int| s.len() - trailing(s, p) <= i < s.len() ==> p(#[trigger] s[i]),
        trailing(s, p) < s.len() ==> !p(s[s.len() - trailing(s, p) - 1]),
    decreases s.len(),
{
    if s.len() > 0 && p(s.last()) {
        lemma_trailing(s.drop_last(), p);
        assert forall|i: int| s.len() - trailing(s, p) <= i < s.len() implies p(
            #[trigger] s[i],
        ) by {
            if i < s.len() - 1 {
                assert(s[i] == s.drop_last()[i]);
            }
        }
    }
}

/// `s` without the characters at its start that satisfy `p`.
pub open spec fn trim_start_of(s: Seq<char>, p: spec_fn(char) -> bool) -> Seq<char> {
    s.skip(leading(s, p))
}

/// `s` without the characters at its end that satisfy `p`.
pub open spec fn trim_end_of(s: Seq<char>, p: spec_fn(char) -> bool) -> Seq<char> {
    s.take(s.len() - trailing(s, p))
}

/// `s` without the characters at either end that satisfy `p`.
pub open spec fn trim_of(s: Seq<char>, p: spec_fn(char) -> bool) -> Seq<char> {
    trim_end_of(trim_start_of(s, p), p)
}

/// `is_whitespace_spec` as a predicate to trim by.
pub open spec fn whitespace() -> spec_fn(char) -> bool {
    |c: char| is_whitespace_spec(c)
}

/// Being the character `c`, as a predicate to trim by.
pub open spec fn the_char(c: char) -> spec_fn(char) -> bool {
    |x: char| x == c
}

fn count_leading_whitespace(chars: &Vec<char>) -> (n: usize)
    ensures
        n == leading(chars@, whitespace()),
        n <= chars.len(),
{
    let mut n: usize = 0;
    assert(chars@.skip(0) =~= chars@);
    while n < chars.len() && is_whitespace(chars[n])
        invariant
            n <= chars.len(),
            leading(chars@, whitespace()) == n + leading(chars@.skip(n as int), whitespace()),
        decreases chars.len() - n,
    {
        assert(chars@.skip(n as int)[0] == chars@[n as int]);
        assert(chars@.skip(n as int).skip(1) =~= chars@.skip(n + 1));
        n += 1;
    }
    proof {
        if n < chars.len() {
            assert(chars@.skip(n as int)[0] == chars@[n as int]);
        }
    }
    n
}

fn count_leading(chars: &Vec<char>, c: char) -> (n: usize)
    ensures
        n == leading(chars@, the_char(c)),
        n <= chars.len(),
{
    let mut n: usize = 0;
    assert(chars@.skip(0) =~= chars@);
    while n < chars.len() && chars[n] == c
        invariant
            n <= chars.len(),
            leading(chars@, the_char(c)) == n + leading(chars@.skip(n as int), the_char(c)),
        decreases chars.len() - n,
    {
        assert(chars@.skip(n as int)[0] == chars@[n as int]);
        assert(chars@.skip(n as int).skip(1) =~= chars@.skip(n + 1));
        n += 1;
    }
    proof {
        if n < chars.len() {
            assert(chars@.skip(n as int)[0] == chars@[n as int]);
        }
    }
    n
}

/// Counts the white space at the end of the first `len` characters.
fn count_trailing_whitespace(chars: &Vec<char>, from: usize) -> (n: usize)
    requires
        from <= chars.len(),
    ensures
        n == trailing(chars@.skip(from as int), whitespace()),
        n <= chars.len() - from,
{
    let ghost s = chars@.skip(from as int);
    let mut end: usize = chars.len();
    assert(s.take(s.len() as int) =~= s);
    while end > from && is_whitespace(chars[end - 1])
        invariant
            from <= end <= chars.len(),
            s == chars@.skip(from as int),
            trailing(s, whitespace()) == (chars.len() - end) + trailing(
                s.take(end - from),
                whitespace(),
            ),
        decreases end,
    {
        assert(s.take(end - from).last() == chars@[end - 1]);
        assert(s.take(end - from).drop_last() =~= s.take(end - from - 1));
        end -= 1;
    }
    proof {
        if end > from {
            assert(s.take(end - from).last() == chars@[end - 1]);
        }
    }
    chars.len() - end
}

fn count_trailing(chars: &Vec<char>, from: usize, c: char) -> (n: usize)
    requires
        from <= chars.len(),
    ensures
        n == trailing(chars@.skip(from as int), the_char(c)),
        n <= chars.len() - from,
{
    let ghost s = chars@.skip(from as int);
    let mut end: usize = chars.len();
    assert(s.take(s.len() as int) =~= s);
    while end > from && chars[end - 1] == c
        invariant
            from <= end <= chars.len(),
            s == chars@.skip(from as int),
            trailing(s, the_char(c)) == (chars.len() - end) + trailing(
                s.take(end - from),
                the_char(c),
            ),
        decreases end,
    {
        assert(s.take(end - from).last() == chars@[end - 1]);
        assert(s.take(end - from).drop_last() =~= s.take(end - from - 1));
        end -= 1;
    }
    proof {
        if end > from {
            assert(s.take(end - from).last() == chars@[end - 1]);
        }
    }
    chars.len() - end
}

/// Takes the white space off the start of `s`.
pub fn trim_start<'a>(s: &'a str) -> (r: &'a str)
    ensures
        r@ == trim_start_of(s@, whitespace()),
{
    let chars = to_chars(s);
    let n = count_leading_whitespace(&chars);
    let r = s.substring_char(n, chars.len());
    assert(r@ =~= s@.skip(n as int));
    r
}

/// Takes the white space off both ends of `s`.
pub fn trim<'a>(s: &'a str) -> (r: &'a str)
    ensures
        r@ == trim_of(s@, whitespace()),
{
    let chars = to_chars(s);
    let start = count_leading_whitespace(&chars);
    let n = count_trailing_whitespace(&chars, start);
    let r = s.substring_char(start, chars.len() - n);
    assert(r@ =~= s@.skip(start as int).take(chars.len() - start - n));
    r
}

/// Takes every `c` off the start of `s`.
pub fn trim_start_matches<'a>(s: &'a str, c: char) -> (r: &'a str)
    ensures
        r@ == trim_start_of(s@, the_char(c)),
{
    let chars = to_chars(s);
    let n = count_leading(&chars, c);
    let r = s.substring_char(n, chars.len());
    assert(r@ =~= s@.skip(n as int));
    r
}

/// Takes every `c` off the end of `s`.
pub fn trim_end_matches<'a>(s: &'a str, c: char) -> (r: &'a str)
    ensures
        r@ == trim_end_of(s@, the_char(c)),
{
    let chars = to_chars(s);
    assert(chars@.skip(0) =~= chars@);
    let n = count_trailing(&chars, 0, c);
    let r = s.substring_char(0, chars.len() - n);
    assert(r@ =~= s@.take(chars.len() - n));
    r
}

/// Takes every `c` off both ends of `s`.
pub fn trim_matches<'a>(s: &'a str, c: char) -> (r: &'a str)
    ensures
        r@ == trim_of(s@, the_char(c)),
{
    let chars = to_chars(s);
    let start = count_leading(&chars, c);
    let n = count_trailing(&chars, start, c);
    let r = s.substring_char(start, chars.len() - n);
    assert(r@ =~= s@.skip(start as int).take(chars.len() - start - n));
    r
}

/// Are the two texts the same?
pub fn same_text(a: &str, b: &str) -> (r: bool)
    ensures
        r == (a@ == b@),
{
    let x = to_chars(a);
    let y = to_chars(b);
    if x.len() != y.len() {
        return false;
    }
    let mut i: usize = 0;
    while i < x.len()
        invariant
            i <= x.len(),
            x.len() == y.len(),
            x@ == a@,
            y@ == b@,
            forall|j: int| 0 <= j < i ==> x@[j] == y@[j],
        decreases x.len() - i,
    {
        if x[i] != y[i] {
            assert(a@[i as int] != b@[i as int]);
            return false;
        }
        i += 1;
    }
    assert(x@ =~= y@);
    true
}

/// Does `s` begin with `prefix`?
pub fn starts_with(s: &str, prefix: &str) -> (r: bool)
    ensures
        r == prefix@.is_prefix_of(s@),
{
    let x = to_chars(s);
    let y = to_chars(prefix);
    if y.len() > x.len() {
        return false;
    }
    let mut i: usize = 0;
    while i < y.len()
        invariant
            i <= y.len() <= x.len(),
            x@ == s@,
            y@ == prefix@,
            forall|j: int| 0 <= j < i ==> x@[j] == y@[j],
        decreases y.len() - i,
    {
        if x[i] != y[i] {
            proof {
                let head = x@.subrange(0, y.len() as int);
                assert(head[i as int] == x@[i as int]);
            }
            return false;
        }
        i += 1;
    }
    assert(x@.subrange(0, y.len() as int) =~= y@);
    true
}

/// Does `s` end with `suffix`?
pub fn ends_with(s: &str, suffix: &str) -> (r: bool)
    ensures
        r == suffix@.is_suffix_of(s@),
{
    let x = to_chars(s);
    let y = to_chars(suffix);
    if y.len() > x.len() {
        return false;
    }
    let shift = x.len() - y.len();
    let mut i: usize = 0;
    while i < y.len()
        invariant
            i <= y.len() <= x.len(),
            shift == x.len() - y.len(),
            x@ == s@,
            y@ == suffix@,
            forall|j: int| 0 <= j < i ==> x@[shift + j] == y@[j],
        decreases y.len() - i,
    {
        if x[shift + i] != y[i] {
            proof {
                let tail = x@.subrange(shift as int, x.len() as int);
                assert(tail[i as int] == x@[shift + i]);
            }
            return false;
        }
        i += 1;
    }
    assert(x@.subrange(shift as int, x.len() as int) =~= y@);
    true
}

} // verus!
