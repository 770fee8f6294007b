//! Walking a string slice character by character while keeping track of the
//! byte offset of each position, so that parts of it can be borrowed in
//! constant time.

use std::str::Chars;
use vstd::prelude::*;
use vstd::std_specs::iter::IteratorSpec;
use vstd::utf8::*;

verus! {

/// Number of bytes that the first `k` characters of `s` take up in UTF-8.
pub open spec fn byte_offset(s: Seq<char>, k: int) -> nat {
    encode_utf8(s.take(k)).len()
}

/// Number of bytes that `c` takes up in UTF-8.
pub open spec fn utf8_width_spec(c: char) -> nat {
    encode_scalar(c as u32).len()
}

/// Encoding a concatenation encodes both parts, one after the other.
pub proof fn lemma_encode_concat(a: Seq<char>, b: Seq<char>)
    ensures
        encode_utf8(a + b) == encode_utf8(a) + encode_utf8(b),
    decreases a.len(),
{
    if a.len() == 0 {
        assert(a + b =~= b);
        assert(encode_utf8(a) + encode_utf8(b) =~= encode_utf8(b));
    } else {
        assert((a + b).drop_first() =~= a.drop_first() + b);
        lemma_encode_concat(a.drop_first(), b);
        assert(encode_utf8(a + b) =~= encode_utf8(a) + encode_utf8(b));
    }
}

/// The encoding of `s` is that of its first `k` characters followed by that
/// of the others.
pub proof fn lemma_encode_split(s: Seq<char>, k: int)
    requires
        0 <= k <= s.len(),
    ensures
        encode_utf8(s) == encode_utf8(s.take(k)) + encode_utf8(s.skip(k)),
        byte_offset(s, k) <= encode_utf8(s).len(),
{
    assert(s =~= s.take(k) + s.skip(k));
    lemma_encode_concat(s.take(k), s.skip(k));
}

/// Stepping over one character moves the byte offset by its width.
pub proof fn lemma_byte_offset_step(s: Seq<char>, k: int)
    requires
        0 <= k < s.len(),
    ensures
        byte_offset(s, k + 1) == byte_offset(s, k) + utf8_width_spec(s[k]),
{
    let one = seq![s[k]];
    assert(s.take(k + 1) =~= s.take(k) + one);
    lemma_encode_concat(s.take(k), one);
    assert(one.drop_first() =~= Seq::<char>::empty());
    assert(encode_utf8(one) =~= encode_scalar(s[k] as u32)) by {
        reveal_with_fuel(encode_utf8, 2);
    }
}

/// Every character position falls on a character boundary of the encoding.
pub proof fn lemma_byte_offset_is_boundary(s: Seq<char>, k: int)
    requires
        0 <= k <= s.len(),
    ensures
        is_char_boundary(encode_utf8(s), byte_offset(s, k) as int),
    decreases k,
{
    let bytes = encode_utf8(s);
    encode_utf8_valid_utf8(s);
    if k == 0 {
        assert(s.take(0) =~= Seq::<char>::empty());
    } else {
        let rest = s.drop_first();
        encode_utf8_first_scalar(s);
        assert(pop_first_scalar(bytes) =~= encode_utf8(rest));
        lemma_byte_offset_is_boundary(rest, k - 1);
        assert(s.take(k) =~= seq![s[0]] + rest.take(k - 1));
        lemma_encode_concat(seq![s[0]], rest.take(k - 1));
        assert(seq![s[0]].drop_first() =~= Seq::<char>::empty());
        assert(encode_utf8(seq![s[0]]) =~= encode_scalar(s[0] as u32)) by {
            reveal_with_fuel(encode_utf8, 2);
        }
        lemma_encode_split(s, k);
        assert(byte_offset(s, k) == length_of_first_scalar(bytes) + byte_offset(rest, k - 1));
    }
}

/// Computes the number of bytes that `c` takes up in UTF-8.
pub fn utf8_width(c: char) -> (w: usize)
    ensures
        w == utf8_width_spec(c),
        1 <= w <= 4,
{
    let v: u32 = c as u32;
    if v < 0x80 {
        1
    } else if v < 0x800 {
        2
    } else if v < 0x10000 {
        3
    } else {
        4
    }
}

/// Splits `text` in two at character position `k`, whose byte offset is `mid`.
pub(crate) fn split_at_offset<'a>(
    text: &'a str,
    mid: usize,
    Ghost(k): Ghost<int>,
) -> (parts: (&'a str, &'a str))
    requires
        0 <= k <= text@.len(),
        mid == byte_offset(text@, k),
    ensures
        parts.0@ == text@.take(k),
        parts.1@ == text@.skip(k),
{
    proof {
        lemma_byte_offset_is_boundary(text@, k);
        lemma_encode_split(text@, k);
    }
    let parts = text.split_at(mid);
    proof {
        let bytes = encode_utf8(text@);
        let front = encode_utf8(text@.take(k));
        let back = encode_utf8(text@.skip(k));
        assert(bytes.subrange(0, mid as int) =~= front);
        assert(bytes.subrange(mid as int, bytes.len() as int) =~= back);
        encode_utf8_decode_utf8(parts.0@);
        encode_utf8_decode_utf8(text@.take(k));
        encode_utf8_decode_utf8(parts.1@);
        encode_utf8_decode_utf8(text@.skip(k));
    }
    parts
}

/// The part of `text` from character position `i` up to position `j`, whose
/// byte offsets are `from` and `to`.
pub(crate) fn slice_between<'a>(
    text: &'a str,
    from: usize,
    to: usize,
    Ghost(i): Ghost<int>,
    Ghost(j): Ghost<int>,
) -> (part: &'a str)
    requires
        0 <= i <= j <= text@.len(),
        from == byte_offset(text@, i),
        to == byte_offset(text@, j),
    ensures
        part@ == text@.subrange(i, j),
{
    let (head, _) = split_at_offset(text, to, Ghost(j));
    proof {
        assert(head@.take(i) =~= text@.take(i));
    }
    let (_, part) = split_at_offset(head, from, Ghost(i));
    proof {
        assert(head@.skip(i) =~= text@.subrange(i, j));
    }
    part
}

/// A position in a string slice, between two characters or at either end,
/// together with its byte offset.
pub(crate) struct Cursor<'a> {
    /// The text that the cursor walks.
    pub(crate) text: &'a str,
    /// The characters after the position.
    pub(crate) rest: Chars<'a>,
    /// Number of bytes before the position.
    pub(crate) offset: usize,
    /// Number of characters before the position.
    pub(crate) position: Ghost<int>,
}

impl<'a> Cursor<'a> {
    /// The cursor stands at a character position of its text and holds the
    /// byte offset of that position. The text is one that fits in memory.
    pub(crate) open spec fn wf(&self) -> bool {
        &&& 0 <= self.position@ <= self.text@.len()
        &&& self.offset == byte_offset(self.text@, self.position@)
        &&& encode_utf8(self.text@).len() <= usize::MAX
    }

    /// A cursor at the start of `text`.
    pub(crate) fn new(text: &'a str) -> (cursor: Cursor<'a>)
        ensures
            cursor.wf(),
            cursor.rest.remaining() == text@,
            cursor.text == text,
            cursor.position@ == 0,
    {
        // The byte length of a slice is a `usize`: asking for it makes known
        // that no offset into the text overflows.
        let _ = text.as_bytes().len();
        let rest = text.chars();
        proof {
            assert(text@.take(0) =~= Seq::<char>::empty());
            assert(text@.skip(0) =~= text@);
        }
        Cursor { text, rest, offset: 0, position: Ghost(0) }
    }

    /// Steps over the next character and returns it, or returns `None` at
    /// the end of the text.
    pub(crate) fn advance(&mut self) -> (c: Option<char>)
        requires
            old(self).wf(),
            old(self).rest.remaining() == old(self).text@.skip(old(self).position@),
        ensures
            final(self).wf(),
            final(self).rest.remaining() == final(self).text@.skip(final(self).position@),
            final(self).text == old(self).text,
            (match c {
                Some(ch) => {
                    &&& old(self).position@ < old(self).text@.len()
                    &&& ch == old(self).text@[old(self).position@]
                    &&& final(self).position@ == old(self).position@ + 1
                },
                None => {
                    &&& old(self).position@ == old(self).text@.len()
                    &&& final(self).position@ == old(self).position@
                    &&& final(self).offset == old(self).offset
                },
            }),
    {
        match self.rest.next() {
            Some(ch) => {
                proof {
                    lemma_byte_offset_step(self.text@, self.position@);
                    lemma_encode_split(self.text@, self.position@ + 1);
                    assert(self.text@.skip(self.position@).drop_first() =~= self.text@.skip(
                        self.position@ + 1,
                    ));
                }
                self.offset = self.offset + utf8_width(ch);
                self.position = Ghost(self.position@ + 1);
                Some(ch)
            },
            None => None,
        }
    }
}

} // verus!
