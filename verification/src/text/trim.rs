//! Trimming: taking away the white space around a text.

use crate::chars::{is_whitespace, is_whitespace_spec};
use crate::scan::{byte_offset, slice_between, Cursor};
use vstd::prelude::*;
use vstd::std_specs::iter::IteratorSpec;

verus! {

/// `s` without the white space it begins with.
pub open spec fn trimmed_start(s: Seq<char>) -> Seq<char>
    decreases s.len(),
{
    if s.len() > 0 && is_whitespace_spec(s[0]) {
        trimmed_start(s.drop_first())
    } else {
        s
    }
}

/// `s` without the white space it ends with.
pub open spec fn trimmed_end(s: Seq<char>) -> Seq<char>
    decreases s.len(),
{
    if s.len() > 0 && is_whitespace_spec(s.last()) {
        trimmed_end(s.drop_last())
    } else {
        s
    }
}

/// `s` without the white space around it.
pub open spec fn trimmed(s: Seq<char>) -> Seq<char> {
    trimmed_end(trimmed_start(s))
}

/// Whether `s` consists of white space only. The empty text is blank.
pub open spec fn is_blank(s: Seq<char>) -> bool {
    forall|k: int| 0 <= k < s.len() ==> is_whitespace_spec(#[trigger] s[k])
}

/// Where the first `i` characters of `s` are white space and the next one
/// is not, trimming at the start drops exactly those `i`.
proof fn lemma_trimmed_start_drops(s: Seq<char>, i: int)
    requires
        0 <= i <= s.len(),
        forall|k: int| 0 <= k < i ==> is_whitespace_spec(#[trigger] s[k]),
        i < s.len() ==> !is_whitespace_spec(s[i]),
    ensures
        trimmed_start(s) == s.skip(i),
    decreases i,
{
    if i == 0 {
        assert(s.skip(0) =~= s);
    } else {
        let rest = s.drop_first();
        assert(is_whitespace_spec(s[0]));
        assert forall|k: int| 0 <= k < i - 1 implies is_whitespace_spec(#[trigger] rest[k]) by {
            assert(rest[k] == s[k + 1]);
        }
        lemma_trimmed_start_drops(rest, i - 1);
        assert(rest.skip(i - 1) =~= s.skip(i));
    }
}

/// Where the characters of `s` from `j` on are white space and the one
/// before them is not, trimming at the end keeps exactly the first `j`.
proof fn lemma_trimmed_end_keeps(s: Seq<char>, j: int)
    requires
        0 <= j <= s.len(),
        forall|k: int| j <= k < s.len() ==> is_whitespace_spec(#[trigger] s[k]),
        0 < j ==> !is_whitespace_spec(s[j - 1]),
    ensures
        trimmed_end(s) == s.take(j),
    decreases s.len() - j,
{
    if j == s.len() {
        assert(s.take(j) =~= s);
    } else {
        let rest = s.drop_last();
        assert(is_whitespace_spec(s[s.len() - 1]));
        assert forall|k: int| j <= k < rest.len() implies is_whitespace_spec(
            #[trigger] rest[k],
        ) by {
            assert(rest[k] == s[k]);
        }
        lemma_trimmed_end_keeps(rest, j);
        assert(rest.take(j) =~= s.take(j));
    }
}

/// What trimming leaves is the part of `s` from its first to its last
/// character that is not white space; nothing, if there is no such
/// character.
pub proof fn lemma_trimmed_is(s: Seq<char>, i: int, j: int)
    requires
        0 <= i <= j <= s.len(),
        forall|k: int| 0 <= k < i ==> is_whitespace_spec(#[trigger] s[k]),
        forall|k: int| j <= k < s.len() ==> is_whitespace_spec(#[trigger] s[k]),
        i < j ==> !is_whitespace_spec(s[i]) && !is_whitespace_spec(s[j - 1]),
    ensures
        trimmed(s) == s.subrange(i, j),
{
    if i == j {
        lemma_trimmed_start_drops(s, s.len() as int);
        assert(s.skip(s.len() as int) =~= Seq::<char>::empty());
        assert(s.subrange(i, j) =~= Seq::<char>::empty());
    } else {
        lemma_trimmed_start_drops(s, i);
        let tail = s.skip(i);
        assert forall|k: int| j - i <= k < tail.len() implies is_whitespace_spec(
            #[trigger] tail[k],
        ) by {
            assert(tail[k] == s[k + i]);
        }
        assert(tail[j - i - 1] == s[j - 1]);
        lemma_trimmed_end_keeps(tail, j - i);
        assert(tail.take(j - i) =~= s.subrange(i, j));
    }
}

/// What trimming at the start leaves is the end of `s`; all that comes
/// before it is white space, and it does not begin with white space.
pub proof fn lemma_trimmed_start_is_suffix(s: Seq<char>)
    ensures
        trimmed_start(s).len() <= s.len(),
        trimmed_start(s) == s.skip(s.len() - trimmed_start(s).len()),
        is_blank(s.take(s.len() - trimmed_start(s).len())),
        trimmed_start(s).len() > 0 ==> !is_whitespace_spec(trimmed_start(s)[0]),
    decreases s.len(),
{
    if s.len() > 0 && is_whitespace_spec(s[0]) {
        let rest = s.drop_first();
        lemma_trimmed_start_is_suffix(rest);
        let i = rest.len() - trimmed_start(rest).len();
        assert(rest.skip(i) =~= s.skip(i + 1));
        assert forall|k: int| 0 <= k < i + 1 implies is_whitespace_spec(
            #[trigger] s.take(i + 1)[k],
        ) by {
            if k > 0 {
                assert(s.take(i + 1)[k] == rest.take(i)[k - 1]);
            }
        }
    } else {
        assert(s.skip(0) =~= s);
    }
}

/// What trimming at the end leaves is the start of `s`; all that comes
/// after it is white space, and it does not end with white space.
pub proof fn lemma_trimmed_end_is_prefix(s: Seq<char>)
    ensures
        trimmed_end(s).len() <= s.len(),
        trimmed_end(s) == s.take(trimmed_end(s).len() as int),
        is_blank(s.skip(trimmed_end(s).len() as int)),
        trimmed_end(s).len() > 0 ==> !is_whitespace_spec(trimmed_end(s).last()),
    decreases s.len(),
{
    if s.len() > 0 && is_whitespace_spec(s.last()) {
        let rest = s.drop_last();
        lemma_trimmed_end_is_prefix(rest);
        let j = trimmed_end(rest).len() as int;
        assert(rest.take(j) =~= s.take(j));
        assert forall|k: int| 0 <= k < s.len() - j implies is_whitespace_spec(
            #[trigger] s.skip(j)[k],
        ) by {
            if k < rest.len() - j {
                assert(s.skip(j)[k] == rest.skip(j)[k]);
            }
        }
    } else {
        assert(s.take(s.len() as int) =~= s);
    }
}

/// What trimming leaves is a part of `s` with nothing but white space
/// before it and after it, and it neither begins nor ends with white space.
/// The result gives the positions where that part begins and ends.
pub proof fn lemma_trimmed(s: Seq<char>) -> (bounds: (int, int))
    ensures
        0 <= bounds.0 <= bounds.1 <= s.len(),
        trimmed(s) == s.subrange(bounds.0, bounds.1),
        is_blank(s.take(bounds.0)),
        is_blank(s.skip(bounds.1)),
        trimmed(s).len() > 0 ==> !is_whitespace_spec(trimmed(s).first()),
        trimmed(s).len() > 0 ==> !is_whitespace_spec(trimmed(s).last()),
{
    lemma_trimmed_start_is_suffix(s);
    let tail = trimmed_start(s);
    let i = s.len() - tail.len();
    lemma_trimmed_end_is_prefix(tail);
    let j = i + trimmed_end(tail).len();
    assert(tail.take(j - i) =~= s.subrange(i, j));
    assert forall|k: int| 0 <= k < s.len() - j implies is_whitespace_spec(
        #[trigger] s.skip(j)[k],
    ) by {
        assert(s.skip(j)[k] == tail.skip(j - i)[k]);
    }
    (i, j)
}

/// Trimming leaves nothing exactly when the text is blank.
pub proof fn lemma_trimmed_empty_iff_blank(s: Seq<char>)
    ensures
        trimmed(s).len() == 0 <==> is_blank(s),
{
    let (i, j) = lemma_trimmed(s);
    if is_blank(s) {
        if i < j {
            assert(trimmed(s).first() == s[i]);
        }
    } else {
        if i == j {
            assert forall|k: int| 0 <= k < s.len() implies is_whitespace_spec(#[trigger] s[k]) by {
                if k < i {
                    assert(s[k] == s.take(i)[k]);
                } else {
                    assert(s[k] == s.skip(j)[k - j]);
                }
            }
        }
    }
}

/// Trimming a second time changes nothing.
pub proof fn lemma_trimmed_twice(s: Seq<char>)
    ensures
        trimmed(trimmed(s)) == trimmed(s),
{
    let _ = lemma_trimmed(s);
    let once = trimmed(s);
    lemma_trimmed_is(once, 0, once.len() as int);
    assert(once.subrange(0, once.len() as int) =~= once);
}

/// Returns `text` without the white space around it.
pub fn trim<'a>(text: &'a str) -> (core: &'a str)
    ensures
        core@ == trimmed(text@),
{
    let mut cursor = Cursor::new(text);
    let mut seen = false;
    let mut start: usize = 0;
    let mut end: usize = 0;
    let ghost mut i: int = 0;
    let ghost mut j: int = 0;
    loop
        invariant
            cursor.wf(),
            cursor.text == text,
            cursor.rest.remaining() == text@.skip(cursor.position@),
            0 <= i <= j <= cursor.position@,
            start == byte_offset(text@, i),
            end == byte_offset(text@, j),
            seen ==> i < j && !is_whitespace_spec(text@[i]) && !is_whitespace_spec(text@[j - 1]),
            !seen ==> i == 0 && j == 0,
            forall|k: int| 0 <= k < i ==> is_whitespace_spec(#[trigger] text@[k]),
            forall|k: int| j <= k < cursor.position@ ==> is_whitespace_spec(#[trigger] text@[k]),
        ensures
            cursor.position@ == text@.len(),
        decreases text@.len() - cursor.position@,
    {
        let before = cursor.offset;
        let ghost position = cursor.position@;
        match cursor.advance() {
            None => {
                break ;
            },
            Some(c) => {
                if !is_whitespace(c) {
                    if !seen {
                        start = before;
                        proof {
                            i = position;
                        }
                        seen = true;
                    }
                    end = cursor.offset;
                    proof {
                        j = position + 1;
                    }
                }
            },
        }
    }
    proof {
        lemma_trimmed_is(text@, i, j);
    }
    slice_between(text, start, end, Ghost(i), Ghost(j))
}

} // verus!
