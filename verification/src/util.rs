//! Small helpers shared by the rest of the library.

use vstd::prelude::*;

verus! {

/// Tells whether `c` ends a line of user input: a line feed or a carriage
/// return. The carriage return is no newline by itself, but it always comes
/// with one and has to go as well.
pub fn is_newline(c: char) -> (r: bool)
    ensures
        r == (c == '\n' || c == '\r'),
{
    c == '\n' || c == '\r'
}

/// A text without the line feeds and carriage returns at its end.
pub open spec fn without_line_end(text: Seq<char>) -> Seq<char>
    decreases text.len(),
{
    if text.len() > 0 && (text.last() == '\n' || text.last() == '\r') {
        without_line_end(text.drop_last())
    } else {
        text
    }
}

/// Takes the line feeds and carriage returns off the end of a line.
pub fn strip_line_end(line: &str) -> (text: &str)
    ensures
        text@ == without_line_end(line@),
{
    let mut end: usize = line.unicode_len();
    assert(line@.subrange(0, end as int) =~= line@);
    while end > 0 && is_newline(line.get_char(end - 1))
        invariant
            end <= line@.len(),
            without_line_end(line@) == without_line_end(line@.subrange(0, end as int)),
        decreases end,
    {
        assert(line@.subrange(0, end as int).drop_last() =~= line@.subrange(0, end as int - 1));
        end -= 1;
    }
    line.substring_char(0, end)
}

} // verus!
