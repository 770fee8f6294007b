//! Lines: cutting a text at its line breaks.

use crate::chars::is_whitespace_spec;
use crate::scan::{byte_offset, slice_between, split_at_offset, Cursor};
use crate::text::trim::{is_blank, trimmed, trimmed_end, trimmed_start};
use vstd::prelude::*;
use vstd::std_specs::iter::IteratorSpec;

verus! {

/// The character that ends a line.
pub open spec fn line_break() -> char {
    '\n'
}

/// Number of characters of `s` before its first line break, or its length
/// if it has none.
pub open spec fn first_line_len(s: Seq<char>) -> nat
    decreases s.len(),
{
    if s.len() == 0 || s[0] == line_break() {
        0
    } else {
        1 + first_line_len(s.drop_first())
    }
}

/// The lines of `s`: what stands between its line breaks, in order. Every
/// text has at least one line, and lines may be empty.
pub open spec fn lines_of(s: Seq<char>) -> Seq<Seq<char>>
    decreases s.len(),
{
    let k = first_line_len(s);
    if k >= s.len() {
        seq![s]
    } else {
        seq![s.take(k as int)] + lines_of(s.skip(k as int + 1))
    }
}

/// Number of line breaks in `s`.
pub open spec fn line_breaks(s: Seq<char>) -> nat
    decreases s.len(),
{
    if s.len() == 0 {
        0
    } else if s[0] == line_break() {
        1 + line_breaks(s.drop_first())
    } else {
        line_breaks(s.drop_first())
    }
}

/// The text that has the given lines: the lines in order, with one line
/// break between each two neighbours.
pub open spec fn joined(lines: Seq<Seq<char>>) -> Seq<char>
    decreases lines.len(),
{
    if lines.len() == 0 {
        Seq::empty()
    } else if lines.len() == 1 {
        lines[0]
    } else {
        lines[0] + seq![line_break()] + joined(lines.drop_first())
    }
}

/// Number of the given lines that are not blank.
pub open spec fn nonblank_count(lines: Seq<Seq<char>>) -> nat
    decreases lines.len(),
{
    if lines.len() == 0 {
        0
    } else if is_blank(lines[0]) {
        nonblank_count(lines.drop_first())
    } else {
        1 + nonblank_count(lines.drop_first())
    }
}

/// The views of a sequence of string slices.
pub open spec fn views(parts: Seq<&str>) -> Seq<Seq<char>> {
    parts.map_values(|part: &str| part@)
}

/// Where the first line break of `s` stands at `k`, or `k` is the length of
/// a text without one, the first line has `k` characters.
pub proof fn lemma_first_line_len(s: Seq<char>, k: int)
    requires
        0 <= k <= s.len(),
        forall|j: int| 0 <= j < k ==> #[trigger] s[j] != line_break(),
        k < s.len() ==> s[k] == line_break(),
    ensures
        first_line_len(s) == k,
    decreases k,
{
    if k > 0 {
        let rest = s.drop_first();
        assert(s[0] != line_break());
        assert forall|j: int| 0 <= j < k - 1 implies #[trigger] rest[j] != line_break() by {
            assert(rest[j] == s[j + 1]);
        }
        lemma_first_line_len(rest, k - 1);
    }
}

/// The first line of `s` holds no line break, and a line break follows it
/// unless it reaches the end of `s`.
pub proof fn lemma_first_line(s: Seq<char>)
    ensures
        first_line_len(s) <= s.len(),
        forall|j: int| 0 <= j < first_line_len(s) ==> #[trigger] s[j] != line_break(),
        first_line_len(s) < s.len() ==> s[first_line_len(s) as int] == line_break(),
    decreases s.len(),
{
    if s.len() > 0 && s[0] != line_break() {
        let rest = s.drop_first();
        lemma_first_line(rest);
        assert forall|j: int| 0 <= j < first_line_len(s) implies #[trigger] s[j]
            != line_break() by {
            if j > 0 {
                assert(s[j] == rest[j - 1]);
            }
        }
    }
}

/// Every text has at least one line.
pub proof fn lemma_lines_nonempty(s: Seq<char>)
    ensures
        lines_of(s).len() >= 1,
{
}

/// The line breaks of `s` are the one that ends its first line, if there is
/// one, and those that come after it.
proof fn lemma_line_breaks_after_first_line(s: Seq<char>)
    ensures
        line_breaks(s) == (if first_line_len(s) >= s.len() {
            0
        } else {
            1 + line_breaks(s.skip(first_line_len(s) as int + 1))
        }),
    decreases s.len(),
{
    if s.len() == 0 {
    } else if s[0] == line_break() {
        assert(s.skip(1) =~= s.drop_first());
    } else {
        let rest = s.drop_first();
        lemma_line_breaks_after_first_line(rest);
        if first_line_len(rest) < rest.len() {
            assert(rest.skip(first_line_len(rest) as int + 1) =~= s.skip(
                first_line_len(s) as int + 1,
            ));
        }
    }
}

/// A text has one line more than it has line breaks.
pub proof fn lemma_lines_count(s: Seq<char>)
    ensures
        lines_of(s).len() == line_breaks(s) + 1,
    decreases s.len(),
{
    lemma_line_breaks_after_first_line(s);
    let k = first_line_len(s) as int;
    if k < s.len() {
        lemma_lines_count(s.skip(k + 1));
    }
}

/// Cutting a text into lines loses nothing and moves nothing: the lines,
/// joined again, are the text.
pub proof fn lemma_lines_join(s: Seq<char>)
    ensures
        joined(lines_of(s)) == s,
    decreases s.len(),
{
    lemma_first_line(s);
    let k = first_line_len(s) as int;
    if k < s.len() {
        let rest = lines_of(s.skip(k + 1));
        lemma_lines_join(s.skip(k + 1));
        lemma_lines_nonempty(s.skip(k + 1));
        assert(lines_of(s).drop_first() =~= rest);
        assert(s =~= s.take(k) + seq![line_break()] + s.skip(k + 1));
    }
}

/// No line holds a line break.
pub proof fn lemma_lines_hold_no_break(s: Seq<char>, i: int)
    requires
        0 <= i < lines_of(s).len(),
    ensures
        line_breaks(lines_of(s)[i]) == 0,
        forall|j: int|
            0 <= j < lines_of(s)[i].len() ==> #[trigger] lines_of(s)[i][j] != line_break(),
    decreases s.len(),
{
    lemma_first_line(s);
    let k = first_line_len(s) as int;
    if k >= s.len() || i == 0 {
        let first = lines_of(s)[0];
        assert(first =~= s.take(k));
        lemma_first_line_len(first, first.len() as int);
        lemma_line_breaks_after_first_line(first);
    } else {
        lemma_lines_hold_no_break(s.skip(k + 1), i - 1);
    }
}

/// Where a line break stands at `p` and none between `a` and `p`, the lines
/// from `a` on are the text between the two and then the lines after `p`.
proof fn lemma_lines_step(s: Seq<char>, a: int, p: int)
    requires
        0 <= a <= p < s.len(),
        forall|k: int| a <= k < p ==> #[trigger] s[k] != line_break(),
        s[p] == line_break(),
    ensures
        lines_of(s.skip(a)) == seq![s.subrange(a, p)] + lines_of(s.skip(p + 1)),
{
    let tail = s.skip(a);
    assert forall|k: int| 0 <= k < p - a implies #[trigger] tail[k] != line_break() by {
        assert(tail[k] == s[k + a]);
    }
    lemma_first_line_len(tail, p - a);
    assert(tail.take(p - a) =~= s.subrange(a, p));
    assert(tail.skip(p - a + 1) =~= s.skip(p + 1));
}

/// Where no line break stands from `a` on, the rest of the text is one line.
proof fn lemma_lines_last(s: Seq<char>, a: int)
    requires
        0 <= a <= s.len(),
        forall|k: int| a <= k < s.len() ==> #[trigger] s[k] != line_break(),
    ensures
        lines_of(s.skip(a)) == seq![s.skip(a)],
{
    let tail = s.skip(a);
    assert forall|k: int| 0 <= k < tail.len() implies #[trigger] tail[k] != line_break() by {
        assert(tail[k] == s[k + a]);
    }
    lemma_first_line_len(tail, tail.len() as int);
}

/// Counting the lines that are not blank, one line after the other.
proof fn lemma_nonblank_count_cons(first: Seq<char>, rest: Seq<Seq<char>>)
    ensures
        nonblank_count(seq![first] + rest) == nonblank_count(rest) + (if is_blank(first) {
            0nat
        } else {
            1nat
        }),
{
    assert((seq![first] + rest).drop_first() =~= rest);
}

/// A single line counts if it is not blank.
proof fn lemma_nonblank_count_single(line: Seq<char>)
    ensures
        nonblank_count(seq![line]) == (if is_blank(line) {
            0nat
        } else {
            1nat
        }),
{
    lemma_nonblank_count_cons(line, Seq::empty());
    assert(seq![line] + Seq::<Seq<char>>::empty() =~= seq![line]);
}

/// White space before a text leaves it blank or not blank, as it was.
proof fn lemma_blank_after_whitespace(c: char, s: Seq<char>)
    requires
        is_whitespace_spec(c),
    ensures
        is_blank(seq![c] + s) <==> is_blank(s),
{
    let t = seq![c] + s;
    if is_blank(t) {
        assert forall|k: int| 0 <= k < s.len() implies is_whitespace_spec(#[trigger] s[k]) by {
            assert(s[k] == t[k + 1]);
        }
    }
    if is_blank(s) {
        assert forall|k: int| 0 <= k < t.len() implies is_whitespace_spec(#[trigger] t[k]) by {
            if k > 0 {
                assert(t[k] == s[k - 1]);
            }
        }
    }
}

/// White space after a text leaves it blank or not blank, as it was.
proof fn lemma_blank_before_whitespace(s: Seq<char>, c: char)
    requires
        is_whitespace_spec(c),
    ensures
        is_blank(s.push(c)) <==> is_blank(s),
{
    let t = s.push(c);
    if is_blank(t) {
        assert forall|k: int| 0 <= k < s.len() implies is_whitespace_spec(#[trigger] s[k]) by {
            assert(s[k] == t[k]);
        }
    }
    if is_blank(s) {
        assert forall|k: int| 0 <= k < t.len() implies is_whitespace_spec(#[trigger] t[k]) by {
            if k < s.len() {
                assert(t[k] == s[k]);
            }
        }
    }
}

/// One more white space at the start of a text adds no line that is not
/// blank, and takes none away.
proof fn lemma_nonblank_count_after_whitespace(c: char, s: Seq<char>)
    requires
        is_whitespace_spec(c),
    ensures
        nonblank_count(lines_of(seq![c] + s)) == nonblank_count(lines_of(s)),
{
    let t = seq![c] + s;
    assert(t.drop_first() =~= s);
    lemma_first_line(s);
    let k = first_line_len(s) as int;
    if c == line_break() {
        assert(t.skip(1) =~= s);
        lemma_nonblank_count_cons(t.take(0), lines_of(s));
    } else if k >= s.len() {
        lemma_blank_after_whitespace(c, s);
        lemma_nonblank_count_single(t);
        lemma_nonblank_count_single(s);
    } else {
        let rest = lines_of(s.skip(k + 1));
        assert(t.skip(k + 2) =~= s.skip(k + 1));
        assert(t.take(k + 1) =~= seq![c] + s.take(k));
        lemma_blank_after_whitespace(c, s.take(k));
        lemma_nonblank_count_cons(t.take(k + 1), rest);
        lemma_nonblank_count_cons(s.take(k), rest);
    }
}

/// One more white space at the end of a text adds no line that is not
/// blank, and takes none away.
proof fn lemma_nonblank_count_before_whitespace(s: Seq<char>, c: char)
    requires
        is_whitespace_spec(c),
    ensures
        nonblank_count(lines_of(s.push(c))) == nonblank_count(lines_of(s)),
    decreases s.len(),
{
    let t = s.push(c);
    lemma_first_line(s);
    let k = first_line_len(s) as int;
    if k < s.len() {
        assert forall|j: int| 0 <= j < k implies #[trigger] t[j] != line_break() by {
            assert(t[j] == s[j]);
        }
        assert(t[k] == s[k]);
        lemma_first_line_len(t, k);
        assert(t.take(k) =~= s.take(k));
        assert(t.skip(k + 1) =~= s.skip(k + 1).push(c));
        lemma_nonblank_count_before_whitespace(s.skip(k + 1), c);
        lemma_nonblank_count_cons(s.take(k), lines_of(t.skip(k + 1)));
        lemma_nonblank_count_cons(s.take(k), lines_of(s.skip(k + 1)));
    } else {
        assert forall|j: int| 0 <= j < s.len() implies #[trigger] t[j] != line_break() by {
            assert(t[j] == s[j]);
        }
        lemma_nonblank_count_single(s);
        if c == line_break() {
            let last = Seq::<char>::empty();
            lemma_first_line_len(t, s.len() as int);
            assert(t.take(s.len() as int) =~= s);
            assert(t.skip(s.len() as int + 1) =~= last);
            assert(lines_of(last) =~= seq![last]);
            lemma_nonblank_count_cons(s, seq![last]);
            lemma_nonblank_count_single(last);
        } else {
            lemma_first_line_len(t, t.len() as int);
            lemma_blank_before_whitespace(s, c);
            lemma_nonblank_count_single(t);
        }
    }
}

/// Trimming a text at the start keeps the number of its lines that are not
/// blank.
proof fn lemma_nonblank_count_of_trimmed_start(s: Seq<char>)
    ensures
        nonblank_count(lines_of(trimmed_start(s))) == nonblank_count(lines_of(s)),
    decreases s.len(),
{
    if s.len() > 0 && is_whitespace_spec(s[0]) {
        let rest = s.drop_first();
        lemma_nonblank_count_of_trimmed_start(rest);
        lemma_nonblank_count_after_whitespace(s[0], rest);
        assert(seq![s[0]] + rest =~= s);
    }
}

/// Trimming a text at the end keeps the number of its lines that are not
/// blank.
proof fn lemma_nonblank_count_of_trimmed_end(s: Seq<char>)
    ensures
        nonblank_count(lines_of(trimmed_end(s))) == nonblank_count(lines_of(s)),
    decreases s.len(),
{
    if s.len() > 0 && is_whitespace_spec(s.last()) {
        let rest = s.drop_last();
        lemma_nonblank_count_of_trimmed_end(rest);
        lemma_nonblank_count_before_whitespace(rest, s.last());
        assert(rest.push(s.last()) =~= s);
    }
}

/// Trimming a text keeps the number of its lines that are not blank: what
/// it takes away stands on blank lines, or at the ends of lines that stay.
pub proof fn lemma_nonblank_count_of_trimmed(s: Seq<char>)
    ensures
        nonblank_count(lines_of(trimmed(s))) == nonblank_count(lines_of(s)),
{
    lemma_nonblank_count_of_trimmed_start(s);
    lemma_nonblank_count_of_trimmed_end(trimmed_start(s));
}

/// Where no line is blank, the lines that are not blank are all the lines.
pub proof fn lemma_nonblank_count_of_nonblank_lines(lines: Seq<Seq<char>>)
    requires
        forall|i: int| 0 <= i < lines.len() ==> !is_blank(#[trigger] lines[i]),
    ensures
        nonblank_count(lines) == lines.len(),
    decreases lines.len(),
{
    if lines.len() > 0 {
        let rest = lines.drop_first();
        assert forall|i: int| 0 <= i < rest.len() implies !is_blank(#[trigger] rest[i]) by {
            assert(rest[i] == lines[i + 1]);
        }
        lemma_nonblank_count_of_nonblank_lines(rest);
    }
}

/// Cuts `text` into its lines at every line break. The lines come in order,
/// none is left out, and none holds a line break.
pub fn lines<'a>(text: &'a str) -> (parts: Vec<&'a str>)
    ensures
        views(parts@) == lines_of(text@),
{
    let mut parts: Vec<&'a str> = Vec::new();
    let mut cursor = Cursor::new(text);
    let mut start: usize = 0;
    let ghost mut a: int = 0;
    proof {
        assert(text@.skip(0) =~= text@);
        assert(views(parts@) + lines_of(text@) =~= lines_of(text@));
    }
    loop
        invariant
            cursor.wf(),
            cursor.text == text,
            cursor.rest.remaining() == text@.skip(cursor.position@),
            0 <= a <= cursor.position@,
            start == byte_offset(text@, a),
            forall|k: int| a <= k < cursor.position@ ==> #[trigger] text@[k] != line_break(),
            views(parts@) + lines_of(text@.skip(a)) == lines_of(text@),
        ensures
            cursor.position@ == text@.len(),
        decreases text@.len() - cursor.position@,
    {
        let before = cursor.offset;
        let ghost position = cursor.position@;
        match cursor.advance() {
            None => {
                break ;
            },
            Some(c) => {
                if c == '\n' {
                    let line = slice_between(text, start, before, Ghost(a), Ghost(position));
                    proof {
                        lemma_lines_step(text@, a, position);
                        assert(views(parts@.push(line)) + lines_of(text@.skip(position + 1))
                            =~= views(parts@) + (seq![line@] + lines_of(
                            text@.skip(position + 1),
                        )));
                    }
                    parts.push(line);
                    start = cursor.offset;
                    proof {
                        a = position + 1;
                    }
                }
            },
        }
    }
    let (_, last) = split_at_offset(text, start, Ghost(a));
    proof {
        lemma_lines_last(text@, a);
        assert(views(parts@.push(last)) =~= views(parts@) + seq![last@]);
    }
    parts.push(last);
    parts
}

} // verus!
