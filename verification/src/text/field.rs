//! Fields: splitting a line at the separator between a label and its value.

use crate::scan::{byte_offset, split_at_offset, Cursor};
use vstd::prelude::*;
use vstd::std_specs::iter::IteratorSpec;

verus! {

/// The separator between a label and its value: a colon followed by a
/// space.
pub open spec fn separator() -> Seq<char> {
    seq![':', ' ']
}

/// Whether the separator stands at position `i` of `s`.
pub open spec fn separator_at(s: Seq<char>, i: int) -> bool {
    0 <= i && i + 1 < s.len() && s[i] == separator()[0] && s[i + 1] == separator()[1]
}

/// Whether `s` holds a separator.
pub open spec fn has_separator(s: Seq<char>) -> bool {
    exists|i: int| separator_at(s, i)
}

/// Position of the first separator of `s`, if it has one.
pub open spec fn first_separator(s: Seq<char>) -> int {
    choose|i: int| separator_at(s, i) && forall|j: int| 0 <= j < i ==> !separator_at(s, j)
}

/// What stands before and after the first separator of `s`, if it has one.
/// Neither part is trimmed, and later separators stay in the second part.
pub open spec fn split_at_separator(s: Seq<char>) -> Option<(Seq<char>, Seq<char>)> {
    if has_separator(s) {
        let i = first_separator(s);
        Some((s.take(i), s.skip(i + 2)))
    } else {
        None
    }
}

/// The first separator of `s` is the one that no other comes before.
pub proof fn lemma_first_separator(s: Seq<char>, i: int)
    requires
        separator_at(s, i),
        forall|j: int| 0 <= j < i ==> !separator_at(s, j),
    ensures
        has_separator(s),
        first_separator(s) == i,
{
    let found = first_separator(s);
    assert(separator_at(s, found) && forall|j: int| 0 <= j < found ==> !separator_at(s, j));
    if found < i {
        assert(!separator_at(s, found));
    } else if i < found {
        assert(!separator_at(s, i));
    }
}

/// A text that holds a separator at `at`, and none before `from`, holds a
/// first separator.
proof fn lemma_least_separator(s: Seq<char>, from: int, at: int)
    requires
        0 <= from <= at,
        separator_at(s, at),
        forall|j: int| 0 <= j < from ==> !separator_at(s, j),
    ensures
        separator_at(s, first_separator(s)),
        forall|j: int| 0 <= j < first_separator(s) ==> !separator_at(s, j),
    decreases at - from,
{
    if separator_at(s, from) {
        lemma_first_separator(s, from);
    } else {
        lemma_least_separator(s, from + 1, at);
    }
}

/// In a text that holds a separator, one stands at [`first_separator`] and
/// none before it.
pub proof fn lemma_first_separator_is_first(s: Seq<char>)
    requires
        has_separator(s),
    ensures
        separator_at(s, first_separator(s)),
        forall|j: int| 0 <= j < first_separator(s) ==> !separator_at(s, j),
{
    let at = choose|i: int| separator_at(s, i);
    lemma_least_separator(s, 0, at);
}

/// Splitting at the first separator loses nothing: the two parts, with the
/// separator between them, are the text, and the first part holds no
/// separator.
pub proof fn lemma_split_at_separator(s: Seq<char>)
    ensures
        (match split_at_separator(s) {
            Some((before, after)) => before + separator() + after == s && !has_separator(before),
            None => !has_separator(s),
        }),
{
    if has_separator(s) {
        lemma_first_separator_is_first(s);
        let i = first_separator(s);
        let before = s.take(i);
        assert(before + separator() + s.skip(i + 2) =~= s);
        if has_separator(before) {
            let j = choose|j: int| separator_at(before, j);
            assert(separator_at(s, j));
        }
    }
}

/// Splits `line` at its first separator into what stands before it and what
/// stands after it. Returns `None` if the line holds no separator.
pub fn split_field<'a>(line: &'a str) -> (parts: Option<(&'a str, &'a str)>)
    ensures
        (match parts {
            Some((label, value)) => split_at_separator(line@) == Some((label@, value@)),
            None => split_at_separator(line@) is None,
        }),
{
    let mut cursor = Cursor::new(line);
    let mut after_colon = false;
    let mut colon: usize = 0;
    loop
        invariant
            cursor.wf(),
            cursor.text == line,
            cursor.rest.remaining() == line@.skip(cursor.position@),
            forall|k: int| 0 <= k && k + 1 < cursor.position@ ==> !separator_at(line@, k),
            after_colon <==> cursor.position@ > 0 && line@[cursor.position@ - 1] == ':',
            after_colon ==> colon == byte_offset(line@, cursor.position@ - 1),
        decreases line@.len() - cursor.position@,
    {
        let before = cursor.offset;
        let ghost position = cursor.position@;
        match cursor.advance() {
            None => {
                return None;
            },
            Some(c) => {
                if after_colon && c == ' ' {
                    proof {
                        lemma_first_separator(line@, position - 1);
                    }
                    let (label, _) = split_at_offset(line, colon, Ghost(position - 1));
                    let (_, value) = split_at_offset(line, cursor.offset, Ghost(position + 1));
                    return Some((label, value));
                }
                after_colon = c == ':';
                colon = before;
            },
        }
    }
}

} // verus!
