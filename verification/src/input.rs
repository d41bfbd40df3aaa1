use vstd::prelude::*;
use crate::error::Error;

verus! {

/// Whether a character is white space: a blank, a tab, a line end or one of
/// the other spaces of Unicode.
pub open spec fn is_space(c: char) -> bool {
    let u = c as u32;
    ||| 0x09 <= u <= 0x0D
    ||| u == 0x20
    ||| u == 0x85
    ||| u == 0xA0
    ||| u == 0x1680
    ||| 0x2000 <= u <= 0x200A
    ||| u == 0x2028
    ||| u == 0x2029
    ||| u == 0x202F
    ||| u == 0x205F
    ||| u == 0x3000
}

/// Whether a character is a decimal digit.
pub open spec fn is_digit(c: char) -> bool {
    '0' <= c <= '9'
}

/// Where the text begins once the white space before it is left out.
pub open spec fn first_mark(s: Seq<char>) -> int
    decreases s.len(),
{
    if s.len() == 0 || !is_space(s[0]) {
        0
    } else {
        1 + first_mark(s.skip(1))
    }
}

/// Where the text ends once the white space after it is left out.
pub open spec fn last_mark(s: Seq<char>) -> int
    decreases s.len(),
{
    if s.len() == 0 || !is_space(s.last()) {
        s.len() as int
    } else {
        last_mark(s.drop_last())
    }
}

/// The text without the white space around it.
pub open spec fn trimmed(s: Seq<char>) -> Seq<char> {
    if first_mark(s) >= last_mark(s) {
        Seq::empty()
    } else {
        s.subrange(first_mark(s), last_mark(s))
    }
}

/// The number that a run of digits writes in decimal.
pub open spec fn digits_value(s: Seq<char>) -> nat
    decreases s.len(),
{
    if s.len() == 0 {
        0
    } else {
        10 * digits_value(s.drop_last()) + (s.last() as u32 - '0' as u32) as nat
    }
}

/// Whether every character is a decimal digit.
pub open spec fn all_digits(s: Seq<char>) -> bool {
    forall|i: int| 0 <= i < s.len() ==> is_digit(#[trigger] s[i])
}

/// The digits of a number text: the text itself, without a plus sign at its
/// head if there is one.
pub open spec fn unsigned_part(s: Seq<char>) -> Seq<char> {
    if s.len() > 0 && s[0] == '+' {
        s.skip(1)
    } else {
        s
    }
}

/// The number of players that a line of input asks for, if it asks for one:
/// white space around the number does not count, a plus sign may stand
/// before it, and the number is written in decimal digits and is at most 255.
pub open spec fn parsed_count(s: Seq<char>) -> Option<u8> {
    let digits = unsigned_part(trimmed(s));
    if digits.len() > 0 && all_digits(digits) && digits_value(digits) <= 255 {
        Some(digits_value(digits) as u8)
    } else {
        None
    }
}

/// The number written by the first digits of a run is no more than a tenth
/// of the whole, so a run whose head is too large is too large.
pub proof fn lemma_digits_value_grows(s: Seq<char>, k: int)
    requires
        all_digits(s),
        0 <= k <= s.len(),
    ensures
        digits_value(s.take(k)) <= digits_value(s),
    decreases s.len(),
{
    if k == s.len() {
        assert(s.take(k) =~= s);
    } else {
        let rest = s.drop_last();
        assert(all_digits(rest)) by {
            assert forall|i: int| 0 <= i < rest.len() implies is_digit(#[trigger] rest[i]) by {
                assert(rest[i] == s[i]);
            }
        }
        lemma_digits_value_grows(rest, k);
        assert(rest.take(k) =~= s.take(k));
        assert(is_digit(s[s.len() - 1]));
    }
}

/// Where the white space at the head of a text ends.
proof fn lemma_first_mark(s: Seq<char>, k: int)
    requires
        0 <= k <= s.len(),
        forall|i: int| 0 <= i < k ==> is_space(#[trigger] s[i]),
        k == s.len() || !is_space(s[k]),
    ensures
        first_mark(s) == k,
    decreases k,
{
    if k > 0 {
        let rest = s.skip(1);
        assert(is_space(s[0]));
        assert forall|i: int| 0 <= i < k - 1 implies is_space(#[trigger] rest[i]) by {
            assert(rest[i] == s[i + 1]);
        }
        if k < s.len() {
            assert(rest[k - 1] == s[k]);
        }
        lemma_first_mark(rest, k - 1);
    }
}

/// Where the white space at the tail of a text begins.
proof fn lemma_last_mark(s: Seq<char>, k: int)
    requires
        0 <= k <= s.len(),
        forall|i: int| k <= i < s.len() ==> is_space(#[trigger] s[i]),
        k == 0 || !is_space(s[k - 1]),
    ensures
        last_mark(s) == k,
    decreases s.len() - k,
{
    if k < s.len() {
        let rest = s.drop_last();
        assert(is_space(s[s.len() - 1]));
        assert forall|i: int| k <= i < rest.len() implies is_space(#[trigger] rest[i]) by {
            assert(rest[i] == s[i]);
        }
        if k > 0 {
            assert(rest[k - 1] == s[k - 1]);
        }
        lemma_last_mark(rest, k);
    }
}

/// Whether a character is white space.
pub fn char_is_space(c: char) -> (b: bool)
    ensures
        b == is_space(c),
{
    let u: u32 = c as u32;
    (0x09 <= u && u <= 0x0D) || u == 0x20 || u == 0x85 || u == 0xA0 || u == 0x1680 || (0x2000 <= u
        && u <= 0x200A) || u == 0x2028 || u == 0x2029 || u == 0x202F || u == 0x205F || u == 0x3000
}

/// Reads the number of players from a line of input.
pub fn parse_player_count(input: &str) -> (r: Result<u8, Error>)
    ensures
        parsed_count(input@) is Some ==> r == Ok::<u8, Error>(parsed_count(input@)->Some_0),
        parsed_count(input@) is None ==> r == Err::<u8, Error>(Error::InvalidPlayerCount),
{
    let len = input.unicode_len();
    let mut first: usize = 0;
    while first < len && char_is_space(input.get_char(first))
        invariant
            0 <= first <= len == input@.len(),
            forall|i: int| 0 <= i < first ==> is_space(#[trigger] input@[i]),
        decreases len - first,
    {
        first += 1;
    }
    let mut last: usize = len;
    while last > first && char_is_space(input.get_char(last - 1))
        invariant
            first <= last <= len == input@.len(),
            forall|i: int| last <= i < len ==> is_space(#[trigger] input@[i]),
        decreases last,
    {
        last -= 1;
    }
    proof {
        lemma_first_mark(input@, first as int);
        if last > first {
            lemma_last_mark(input@, last as int);
        } else {
            lemma_last_mark(input@, 0);
        }
    }
    let ghost text = trimmed(input@);
    if first >= last {
        assert(text.len() == 0);
        return Err(Error::InvalidPlayerCount);
    }
    assert(text =~= input@.subrange(first as int, last as int));
    let mut at: usize = first;
    if input.get_char(at) == '+' {
        at += 1;
    }
    let ghost digits = unsigned_part(text);
    assert(digits =~= input@.subrange(at as int, last as int));
    if at >= last {
        return Err(Error::InvalidPlayerCount);
    }
    let start = at;
    let mut value: u8 = 0;
    while at < last
        invariant
            start <= at <= last <= len == input@.len(),
            digits == input@.subrange(start as int, last as int),
            digits == unsigned_part(trimmed(input@)),
            forall|i: int| 0 <= i < at - start ==> is_digit(#[trigger] digits[i]),
            value == digits_value(digits.take(at - start)),
        decreases last - at,
    {
        let c = input.get_char(at);
        assert(c == digits[at - start]);
        let u: u32 = c as u32;
        if u < 0x30 || u > 0x39 {
            assert(!is_digit(digits[at - start]));
            return Err(Error::InvalidPlayerCount);
        }
        let d: u32 = u - 0x30;
        let next: u32 = 10 * (value as u32) + d;
        proof {
            let upto = digits.take(at - start + 1);
            assert(upto.drop_last() =~= digits.take(at - start));
            assert(upto.last() == c);
            assert(digits_value(upto) == next);
        }
        if next > 255 {
            proof {
                if all_digits(digits) {
                    lemma_digits_value_grows(digits, at - start + 1);
                }
            }
            return Err(Error::InvalidPlayerCount);
        }
        value = next as u8;
        at += 1;
    }
    assert(digits.take(at - start) =~= digits);
    Ok(value)
}

} // verus!
