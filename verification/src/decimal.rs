//! Decimal numbers as text: reading a `u32` from its digits and writing it back.
use crate::text::to_chars;
use vstd::prelude::*;

verus! {

/// `c` is one of the digits `0` to `9`.
pub open spec fn is_digit(c: char) -> bool {
    '0' <= c && c <= '9'
}

/// The value of the digit `c`.
pub open spec fn digit_value(c: char) -> int {
    c as int - '0' as int
}

/// The digit that stands for `d`, for `0 <= d < 10`.
pub open spec fn digit_char(d: int) -> char {
    ('0' as int + d) as char
}

/// Every character of `s` is a digit.
pub open spec fn all_digits(s: Seq<char>) -> bool {
    forall|i: int| 0 <= i < s.len() ==> is_digit(#[trigger] s[i])
}

/// The number that the digits of `s` denote, most significant digit first.
pub open spec fn decimal_value(s: Seq<char>) -> int
    decreases s.len(),
{
    if s.len() == 0 {
        0
    } else {
        decimal_value(s.drop_last()) * 10 + digit_value(s.last())
    }
}

/// The shortest decimal notation of `n`.
pub open spec fn decimal_digits(n: nat) -> Seq<char>
    decreases n,
{
    if n < 10 {
        seq![digit_char(n as int)]
    } else {
        decimal_digits(n / 10).push(digit_char((n % 10) as int))
    }
}

/// The digits of a number in text: the text itself, without one leading `+`.
pub open spec fn unsigned_part(s: Seq<char>) -> Seq<char> {
    if s.len() > 1 && s[0] == '+' {
        s.skip(1)
    } else {
        s
    }
}

/// What `s` denotes as a 32-bit unsigned number: an optional `+`, then one or
/// more decimal digits whose value fits. Anything else denotes no number.
pub open spec fn parse_u32_spec(s: Seq<char>) -> Option<u32> {
    let digits = unsigned_part(s);
    if digits.len() > 0 && all_digits(digits) && decimal_value(digits) <= u32::MAX {
        Some(decimal_value(digits) as u32)
    } else {
        None
    }
}

/// A longer run of digits never denotes a smaller number than its prefix.
pub proof fn lemma_decimal_value_prefix(s: Seq<char>, k: int)
    requires
        all_digits(s),
        0 <= k <= s.len(),
    ensures
        0 <= decimal_value(s.take(k)) <= decimal_value(s),
    decreases s.len() - k,
{
    if k == s.len() {
        assert(s.take(k) =~= s);
        lemma_decimal_value_nonnegative(s);
    } else {
        lemma_decimal_value_prefix(s, k + 1);
        let t = s.take(k + 1);
        assert(t.drop_last() =~= s.take(k));
        assert(is_digit(s[k]));
        assert(t.last() == s[k]);
        lemma_decimal_value_nonnegative(s.take(k));
    }
}

/// Digits denote no negative number.
pub proof fn lemma_decimal_value_nonnegative(s: Seq<char>)
    requires
        all_digits(s),
    ensures
        0 <= decimal_value(s),
    decreases s.len(),
{
    if s.len() > 0 {
        lemma_decimal_value_nonnegative(s.drop_last());
        assert(is_digit(s.last()));
    }
}

/// Writing a number down and reading it back gives the number.
pub proof fn lemma_decimal_round_trip(n: nat)
    ensures
        decimal_digits(n).len() > 0,
        all_digits(decimal_digits(n)),
        decimal_value(decimal_digits(n)) == n,
    decreases n,
{
    if n < 10 {
        let s = decimal_digits(n);
        assert(s.drop_last() =~= Seq::<char>::empty());
        assert(decimal_value(s.drop_last()) == 0);
    } else {
        lemma_decimal_round_trip(n / 10);
        let s = decimal_digits(n);
        assert(s.drop_last() =~= decimal_digits(n / 10));
    }
}

/// Reads a 32-bit unsigned number from its characters.
pub fn parse_u32_chars(chars: &[char]) -> (r: Option<u32>)
    ensures
        r == parse_u32_spec(chars@),
{
    let n = chars.len();
    let start: usize = if n > 1 && chars[0] == '+' {
        1
    } else {
        0
    };
    if start == n {
        return None;
    }
    let ghost digits = unsigned_part(chars@);
    assert(digits =~= chars@.skip(start as int));
    let mut acc: u64 = 0;
    let mut i: usize = start;
    while i < n
        invariant
            start <= i <= n,
            n == chars.len(),
            digits == chars@.skip(start as int),
            digits == unsigned_part(chars@),
            all_digits(digits.take(i - start)),
            acc == decimal_value(digits.take(i - start)),
            acc <= u32::MAX,
        decreases n - i,
    {
        let c = chars[i];
        if !('0' <= c && c <= '9') {
            assert(!is_digit(digits[i - start]));
            return None;
        }
        let d: u64 = (c as u32 - '0' as u32) as u64;
        let next = acc * 10 + d;
        proof {
            let t = digits.take(i - start + 1);
            assert(t.drop_last() =~= digits.take(i - start));
            assert(t.last() == c);
            assert(next == decimal_value(t));
            assert forall|j: int| 0 <= j < t.len() implies is_digit(#[trigger] t[j]) by {
                if j < i - start {
                    assert(digits.take(i - start)[j] == t[j]);
                }
            }
        }
        if next > u32::MAX as u64 {
            proof {
                if all_digits(digits) {
                    lemma_decimal_value_prefix(digits, i - start + 1);
                }
            }
            return None;
        }
        acc = next;
        i += 1;
    }
    assert(digits.take(i - start) =~= digits);
    Some(acc as u32)
}

/// Reads a 32-bit unsigned number.
pub fn parse_u32(s: &str) -> (r: Option<u32>)
    ensures
        r == parse_u32_spec(s@),
{
    let chars = to_chars(s);
    parse_u32_chars(chars.as_slice())
}

/// The text of one digit.
fn digit_text(d: u32) -> (r: &'static str)
    requires
        d < 10,
    ensures
        r@ == seq![digit_char(d as int)],
{
    proof {
        reveal_strlit("0");
        reveal_strlit("1");
        reveal_strlit("2");
        reveal_strlit("3");
        reveal_strlit("4");
        reveal_strlit("5");
        reveal_strlit("6");
        reveal_strlit("7");
        reveal_strlit("8");
        reveal_strlit("9");
    }
    let r = match d {
        0 => "0",
        1 => "1",
        2 => "2",
        3 => "3",
        4 => "4",
        5 => "5",
        6 => "6",
        7 => "7",
        8 => "8",
        _ => "9",
    };
    assert(r@ =~= seq![digit_char(d as int)]);
    r
}

/// Writes `n` in decimal, without leading zeros.
pub fn decimal_string(n: u32) -> (r: String)
    ensures
        r@ == decimal_digits(n as nat),
    decreases n,
{
    if n < 10 {
        String::from_str(digit_text(n))
    } else {
        let mut s = decimal_string(n / 10);
        s.append(digit_text(n % 10));
        assert(s@ =~= decimal_digits(n as nat));
        s
    }
}

} // verus!
