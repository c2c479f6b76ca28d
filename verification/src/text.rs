//! Text: what the library takes from the standard library by name, and what
//! it does to text itself.

use vstd::prelude::*;

verus! {

/// The lowercase form of a text, as `str::to_lowercase` gives it.
pub uninterp spec fn lowercased(text: Seq<char>) -> Seq<char>;

/// Whether a character is whitespace, as `char::is_whitespace` tells it.
pub uninterp spec fn whitespace(c: char) -> bool;

/// A text without the whitespace at its start.
pub open spec fn trimmed_start(text: Seq<char>) -> Seq<char>
    decreases text.len(),
{
    if text.len() > 0 && whitespace(text[0]) {
        trimmed_start(text.drop_first())
    } else {
        text
    }
}

/// A text without the whitespace at its end.
pub open spec fn trimmed_end(text: Seq<char>) -> Seq<char>
    decreases text.len(),
{
    if text.len() > 0 && whitespace(text.last()) {
        trimmed_end(text.drop_last())
    } else {
        text
    }
}

/// A text without the whitespace at its two ends.
pub open spec fn trimmed(text: Seq<char>) -> Seq<char> {
    trimmed_end(trimmed_start(text))
}

/// The number that a sequence of decimal digits writes, if every character
/// of it is one of the digits `0` to `9`.
pub open spec fn digits_value(digits: Seq<char>) -> Option<nat>
    decreases digits.len(),
{
    if digits.len() == 0 {
        Some(0nat)
    } else {
        let last = digits.last() as u32;
        match digits_value(digits.drop_last()) {
            Some(value) => if 0x30 <= last <= 0x39 {
                Some((value * 10 + (last - 0x30)) as nat)
            } else {
                None
            },
            None => None,
        }
    }
}

/// A text without the plus sign at its start, if it has one.
pub open spec fn without_plus(text: Seq<char>) -> Seq<char> {
    if text.len() > 0 && text[0] == '+' {
        text.drop_first()
    } else {
        text
    }
}

/// The index that a text writes: decimal digits, at least one, with or
/// without a plus sign before them and nothing else around them, for a
/// number that a `usize` holds.
pub open spec fn written_index(text: Seq<char>) -> Option<usize> {
    let digits = without_plus(text);
    match digits_value(digits) {
        Some(value) => if digits.len() > 0 && value <= usize::MAX {
            Some(value as usize)
        } else {
            None
        },
        None => None,
    }
}

/// Calls `str::to_lowercase`. What comes back depends on the text alone; it
/// is known here by its name only.
#[verifier::external_body]
pub(crate) fn to_lowercase(text: &str) -> (lower: String)
    ensures
        lower@ == lowercased(text@),
{
    text.to_lowercase()
}

/// Calls `char::is_whitespace`. What it tells depends on the character
/// alone; it is known here by its name only.
#[verifier::external_body]
pub(crate) fn is_whitespace(c: char) -> (white: bool)
    ensures
        white == whitespace(c),
{
    c.is_whitespace()
}

/// Takes the whitespace off the start of a text, as `str::trim_start` does.
pub fn trim_start(text: &str) -> (rest: &str)
    ensures
        rest@ == trimmed_start(text@),
{
    let len = text.unicode_len();
    let mut start: usize = 0;
    assert(text@.subrange(0, len as int) =~= text@);
    while start < len && is_whitespace(text.get_char(start))
        invariant
            start <= len,
            len == text@.len(),
            trimmed_start(text@) == trimmed_start(text@.subrange(start as int, len as int)),
        decreases len - start,
    {
        assert(text@.subrange(start as int, len as int).drop_first() =~= text@.subrange(
            start as int + 1,
            len as int,
        ));
        start += 1;
    }
    text.substring_char(start, len)
}

/// Takes the whitespace off the end of a text, as `str::trim_end` does.
pub fn trim_end(text: &str) -> (rest: &str)
    ensures
        rest@ == trimmed_end(text@),
{
    let mut end: usize = text.unicode_len();
    assert(text@.subrange(0, end as int) =~= text@);
    while end > 0 && is_whitespace(text.get_char(end - 1))
        invariant
            end <= text@.len(),
            trimmed_end(text@) == trimmed_end(text@.subrange(0, end as int)),
        decreases end,
    {
        assert(text@.subrange(0, end as int).drop_last() =~= text@.subrange(0, end as int - 1));
        end -= 1;
    }
    text.substring_char(0, end)
}

/// Takes the whitespace off the two ends of a text, as `str::trim` does.
pub fn trim(text: &str) -> (inner: &str)
    ensures
        inner@ == trimmed(text@),
{
    trim_end(trim_start(text))
}

/// A sequence of digits that writes a number begins with digits that write
/// a number that is not larger.
proof fn lemma_digits_prefix(digits: Seq<char>, count: int)
    requires
        0 <= count <= digits.len(),
        digits_value(digits) is Some,
    ensures
        digits_value(digits.take(count)) is Some,
        digits_value(digits.take(count))->Some_0 <= digits_value(digits)->Some_0,
    decreases digits.len(),
{
    if count < digits.len() {
        lemma_digits_prefix(digits.drop_last(), count);
        assert(digits.drop_last().take(count) =~= digits.take(count));
    } else {
        assert(digits.take(count) =~= digits);
    }
}

/// Reads an index as `str::parse` reads a `usize`: from decimal digits, at
/// least one, with or without a plus sign before them. Whitespace, a minus
/// sign, any other character and a number that a `usize` does not hold make
/// the text no index.
pub fn parse_index(text: &str) -> (index: Option<usize>)
    ensures
        index == written_index(text@),
{
    let len = text.unicode_len();
    let start: usize = if len > 0 && text.get_char(0) == '+' {
        1
    } else {
        0
    };
    let ghost digits = without_plus(text@);
    assert(digits =~= text@.subrange(start as int, len as int));
    if start == len {
        return None;
    }
    let mut value: usize = 0;
    let mut i: usize = start;
    assert(digits.take(0) =~= Seq::<char>::empty());
    while i < len
        invariant
            start <= i <= len,
            len == text@.len(),
            digits == without_plus(text@),
            digits == text@.subrange(start as int, len as int),
            digits_value(digits.take(i - start)) == Some(value as nat),
        decreases len - i,
    {
        let code = text.get_char(i) as u32;
        proof {
            let next = digits.take(i - start + 1);
            assert(next.drop_last() =~= digits.take(i - start));
            assert(next.last() == text@[i as int]);
            if digits_value(digits) is Some {
                lemma_digits_prefix(digits, i - start + 1);
            }
        }
        if code < 0x30 || code > 0x39 {
            return None;
        }
        let digit = (code - 0x30) as usize;
        if value > (usize::MAX - digit) / 10 {
            return None;
        }
        value = value * 10 + digit;
        i += 1;
    }
    assert(digits.take(len - start) =~= digits);
    Some(value)
}

/// Tells whether `text` begins with all of `prefix`, as `str::starts_with`
/// does for a text as the pattern.
pub fn starts_with(text: &str, prefix: &str) -> (found: bool)
    ensures
        found == prefix@.is_prefix_of(text@),
{
    let count = prefix.unicode_len();
    if count > text.unicode_len() {
        return false;
    }
    let mut i: usize = 0;
    while i < count
        invariant
            i <= count,
            count == prefix@.len(),
            count <= text@.len(),
            forall|j: int| 0 <= j < i ==> prefix@[j] == text@[j],
        decreases count - i,
    {
        if prefix.get_char(i) != text.get_char(i) {
            assert(text@.subrange(0, count as int)[i as int] != prefix@[i as int]);
            return false;
        }
        i += 1;
    }
    assert(prefix@ =~= text@.subrange(0, count as int));
    true
}

} // verus!
