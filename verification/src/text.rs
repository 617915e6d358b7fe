//! Rules on the text of an entry: when it counts as blank, and how much of
//! it a list of entries shows.

use vstd::prelude::*;
use vstd::string::{StrSliceExecFns, StringExecFns};

verus! {

/// Whether `c` is white space, as `char::is_whitespace` says.
pub uninterp spec fn is_whitespace(c: char) -> bool;

/// Asks `char::is_whitespace` of the standard library, which goes by the
/// Unicode property `White_Space`. The contract only gives the answer its
/// name.
#[verifier::external_body]
fn char_is_whitespace(c: char) -> (b: bool)
    ensures
        b == is_whitespace(c),
{
    c.is_whitespace()
}

/// A text of white space only: nothing is left of it once white space is
/// trimmed from both ends.
pub open spec fn is_blank(text: Seq<char>) -> bool {
    forall|i: int| 0 <= i < text.len() ==> is_whitespace(#[trigger] text[i])
}

/// `part` is `text` without the white space at its two ends.
pub open spec fn is_trimmed(part: Seq<char>, text: Seq<char>) -> bool {
    exists|from: int, to: int|
        {
            &&& 0 <= from <= to <= text.len()
            &&& part == #[trigger] text.subrange(from, to)
            &&& forall|i: int| 0 <= i < from ==> is_whitespace(#[trigger] text[i])
            &&& forall|i: int| to <= i < text.len() ==> is_whitespace(#[trigger] text[i])
            &&& from < to ==> !is_whitespace(text[from]) && !is_whitespace(text[to - 1])
        }
}

/// `line` is the first line of `text`: what stands before the first line
/// feed, without a carriage return just before it; all of `text` where it
/// holds no line feed.
pub open spec fn is_first_line(line: Seq<char>, text: Seq<char>) -> bool {
    if forall|i: int| 0 <= i < text.len() ==> #[trigger] text[i] != '\n' {
        line == text
    } else {
        exists|end: int|
            {
                &&& 0 <= end < text.len() && #[trigger] text[end] == '\n'
                &&& forall|i: int| 0 <= i < end ==> #[trigger] text[i] != '\n'
                &&& line == if end > 0 && text[end - 1] == '\r' {
                    text.subrange(0, end - 1)
                } else {
                    text.subrange(0, end)
                }
            }
    }
}

/// What a list shows of a text of which it shows at most `limit`
/// characters: the text, or its first `limit` characters and three dots.
pub open spec fn shortened(text: Seq<char>, limit: nat) -> Seq<char> {
    if text.len() > limit {
        text.subrange(0, limit as int) + "..."@
    } else {
        text
    }
}

/// Whether `text` holds white space only.
pub fn blank(text: &str) -> (b: bool)
    ensures
        b == is_blank(text@),
{
    for c in it: text.chars()
        invariant
            it.seq() == text@,
            forall|k: int| 0 <= k < it.index() ==> is_whitespace(#[trigger] text@[k]),
    {
        if !char_is_whitespace(c) {
            return false;
        }
    }
    true
}

/// `text` without the white space at its two ends.
pub fn trim(text: &str) -> (part: &str)
    ensures
        is_trimmed(part@, text@),
{
    let n = text.unicode_len();
    let mut from: usize = 0;
    let mut to: usize = 0;
    let mut i: usize = 0;
    for c in it: text.chars()
        invariant
            it.seq() == text@,
            n == text@.len(),
            i == it.index(),
            from <= to <= i,
            to == 0 ==> from == 0,
            forall|k: int| 0 <= k < i && (to == 0 || k < from) ==> is_whitespace(#[trigger] text@[k]),
            forall|k: int| to <= k < i ==> is_whitespace(#[trigger] text@[k]),
            to > 0 ==> from < to && !is_whitespace(text@[from as int]) && !is_whitespace(
                text@[to - 1],
            ),
    {
        if !char_is_whitespace(c) {
            if to == 0 {
                from = i;
            }
            to = i + 1;
        }
        i += 1;
    }
    let part = text.substring_char(from, to);
    assert(part@ == text@.subrange(from as int, to as int));
    part
}

/// The first line of `text`.
pub fn first_line(text: &str) -> (line: &str)
    ensures
        is_first_line(line@, text@),
{
    let n = text.unicode_len();
    let mut i: usize = 0;
    let mut after_return = false;
    for c in it: text.chars()
        invariant
            it.seq() == text@,
            n == text@.len(),
            i == it.index(),
            forall|k: int| 0 <= k < i ==> #[trigger] text@[k] != '\n',
            after_return == (i > 0 && text@[i - 1] == '\r'),
    {
        if c == '\n' {
            let end = if after_return {
                i - 1
            } else {
                i
            };
            let line = text.substring_char(0, end);
            assert(text@[i as int] == '\n');
            return line;
        }
        after_return = c == '\r';
        i += 1;
    }
    text
}

/// What a list shows of `text` when it shows at most `limit` characters of
/// an entry, and whether that is less than all of it.
pub fn shorten(text: &str, limit: usize) -> (shown: (String, bool))
    ensures
        shown.0@ == shortened(text@, limit as nat),
        shown.1 == (text@.len() > limit),
{
    let n = text.unicode_len();
    if n > limit {
        let mut head = text.substring_char(0, limit).to_owned();
        head.append("...");
        (head, true)
    } else {
        (text.to_owned(), false)
    }
}

} // verus!
