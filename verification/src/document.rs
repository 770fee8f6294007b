//! The document model of a spell card, and the parser that derives it from
//! the raw text of a generation response.

use crate::chars::is_whitespace_spec;
use crate::text::field::{
    has_separator, lemma_split_at_separator, separator, split_at_separator, split_field,
};
use crate::text::lines::{
    lemma_lines_count, lemma_lines_nonempty, lemma_nonblank_count_of_nonblank_lines,
    lemma_nonblank_count_of_trimmed, line_breaks, lines, lines_of, nonblank_count, views,
};
use crate::text::trim::{
    is_blank, lemma_trimmed, lemma_trimmed_empty_iff_blank, lemma_trimmed_end_is_prefix,
    lemma_trimmed_twice, trim, trimmed, trimmed_end, trimmed_start,
};
use vstd::prelude::*;
use vstd::std_specs::cmp::PartialEqSpec;

verus! {

/// One structural unit of a spell card, made from one line of its text.
#[derive(Debug, Eq)]
pub enum Entry {
    /// A line that holds a separator: the label before its first separator
    /// and the value after it.
    LabeledField { label: String, value: String },
    /// A line without a separator, kept as it is.
    Paragraph { text: String },
}

/// What an [`Entry`] holds, as sequences of characters.
pub enum EntryView {
    LabeledField { label: Seq<char>, value: Seq<char> },
    Paragraph { text: Seq<char> },
}

impl View for Entry {
    type V = EntryView;

    open spec fn view(&self) -> EntryView {
        match self {
            Entry::LabeledField { label, value } => EntryView::LabeledField {
                label: label@,
                value: value@,
            },
            Entry::Paragraph { text } => EntryView::Paragraph { text: text@ },
        }
    }
}

/// The entry that a line stands for. A line with a separator is split at the
/// first one, and at no other; neither side is trimmed. Any other line is a
/// paragraph that holds the whole line.
pub open spec fn entry_of(line: Seq<char>) -> EntryView {
    match split_at_separator(line) {
        Some((label, value)) => EntryView::LabeledField { label, value },
        None => EntryView::Paragraph { text: line },
    }
}

impl Entry {
    /// Makes the entry that `line` stands for.
    pub fn from_line(line: &str) -> (entry: Entry)
        ensures
            entry@ == entry_of(line@),
    {
        match split_field(line) {
            Some((label, value)) => Entry::LabeledField {
                label: label.to_owned(),
                value: value.to_owned(),
            },
            None => Entry::Paragraph { text: line.to_owned() },
        }
    }
}

impl Clone for Entry {
    fn clone(&self) -> (copy: Entry)
        ensures
            copy@ == self@,
    {
        match self {
            Entry::LabeledField { label, value } => Entry::LabeledField {
                label: label.clone(),
                value: value.clone(),
            },
            Entry::Paragraph { text } => Entry::Paragraph { text: text.clone() },
        }
    }
}

impl PartialEq for Entry {
    fn eq(&self, other: &Entry) -> (equal: bool) {
        match (self, other) {
            (
                Entry::LabeledField { label, value },
                Entry::LabeledField { label: other_label, value: other_value },
            ) => *label == *other_label && *value == *other_value,
            (Entry::Paragraph { text }, Entry::Paragraph { text: other_text }) => *text
                == *other_text,
            _ => false,
        }
    }
}

/// Two entries are equal when they are of the same kind and hold the same
/// characters.
impl vstd::std_specs::cmp::PartialEqSpecImpl for Entry {
    open spec fn obeys_eq_spec() -> bool {
        true
    }

    open spec fn eq_spec(&self, other: &Entry) -> bool {
        self@ == other@
    }
}

/// A spell card in structured form: its title and, in the order of the
/// text, one entry for each line after the first.
#[derive(Debug, Eq)]
pub struct ParsedDocument {
    pub title: Option<String>,
    pub entries: Vec<Entry>,
}

/// What a [`ParsedDocument`] holds, as sequences of characters.
pub struct ParsedDocumentView {
    pub title: Option<Seq<char>>,
    pub entries: Seq<EntryView>,
}

impl View for ParsedDocument {
    type V = ParsedDocumentView;

    open spec fn view(&self) -> ParsedDocumentView {
        ParsedDocumentView {
            title: match self.title {
                Some(title) => Some(title@),
                None => None,
            },
            entries: self.entries@.map_values(|entry: Entry| entry@),
        }
    }
}

impl Clone for ParsedDocument {
    fn clone(&self) -> (copy: ParsedDocument)
        ensures
            copy@ == self@,
    {
        let title = match &self.title {
            Some(title) => Some(title.clone()),
            None => None,
        };
        let mut entries: Vec<Entry> = Vec::new();
        let mut i: usize = 0;
        while i < self.entries.len()
            invariant
                i <= self.entries.len(),
                entries@.len() == i,
                forall|k: int| 0 <= k < i ==> (#[trigger] entries@[k])@ == self.entries@[k]@,
            decreases self.entries.len() - i,
        {
            entries.push(self.entries[i].clone());
            i = i + 1;
        }
        let copy = ParsedDocument { title, entries };
        assert(copy@.entries =~= self@.entries);
        copy
    }
}

impl PartialEq for ParsedDocument {
    fn eq(&self, other: &ParsedDocument) -> (equal: bool) {
        let same_title = match (&self.title, &other.title) {
            (Some(title), Some(other_title)) => *title == *other_title,
            (None, None) => true,
            _ => false,
        };
        if !same_title || self.entries.len() != other.entries.len() {
            assert(self@.entries.len() == self.entries@.len());
            assert(other@.entries.len() == other.entries@.len());
            return false;
        }
        let mut i: usize = 0;
        while i < self.entries.len()
            invariant
                i <= self.entries.len(),
                self.entries.len() == other.entries.len(),
                forall|k: int| 0 <= k < i ==> (#[trigger] self.entries@[k])@ == other.entries@[k]@,
            decreases self.entries.len() - i,
        {
            if !(self.entries[i] == other.entries[i]) {
                assert(self@.entries[i as int] == self.entries@[i as int]@);
                assert(other@.entries[i as int] == other.entries@[i as int]@);
                return false;
            }
            i = i + 1;
        }
        assert(self@.entries =~= other@.entries);
        true
    }
}

/// Two documents are equal when their titles hold the same characters, or
/// both are absent, and their entries are equal one by one.
impl vstd::std_specs::cmp::PartialEqSpecImpl for ParsedDocument {
    open spec fn obeys_eq_spec() -> bool {
        true
    }

    open spec fn eq_spec(&self, other: &ParsedDocument) -> bool {
        self@ == other@
    }
}

/// The document that a raw text stands for. The text is trimmed as a whole.
/// If nothing is left, the document has no title and no entries. Otherwise
/// its first line, trimmed, is the title, and every line after it gives one
/// entry.
pub open spec fn document_of(raw: Seq<char>) -> ParsedDocumentView {
    let body = trimmed(raw);
    if body.len() == 0 {
        ParsedDocumentView { title: None, entries: Seq::empty() }
    } else {
        let all = lines_of(body);
        ParsedDocumentView {
            title: Some(trimmed(all[0])),
            entries: all.skip(1).map_values(|line: Seq<char>| entry_of(line)),
        }
    }
}

/// Number of lines of `raw` once it is trimmed as a whole. A blank text has
/// none.
pub open spec fn line_count(raw: Seq<char>) -> nat {
    let body = trimmed(raw);
    if body.len() == 0 {
        0
    } else {
        lines_of(body).len()
    }
}

/// Number of entries that the document of `raw` has: one for each line
/// after the first.
pub open spec fn entry_count(raw: Seq<char>) -> nat {
    if line_count(raw) >= 1 {
        (line_count(raw) - 1) as nat
    } else {
        0
    }
}

/// A document has one entry for each line of the trimmed text but the
/// first, in the order of the lines. These are as many as the trimmed text
/// has line breaks: no line is left out, blank ones included.
pub proof fn lemma_entry_count(raw: Seq<char>)
    ensures
        document_of(raw).entries.len() == entry_count(raw),
        entry_count(raw) == line_breaks(trimmed(raw)),
        forall|k: int|
            0 <= k < entry_count(raw) ==> #[trigger] document_of(raw).entries[k] == entry_of(
                lines_of(trimmed(raw))[k + 1],
            ),
{
    let body = trimmed(raw);
    lemma_lines_count(body);
    if body.len() == 0 {
        assert(line_breaks(body) == 0);
    }
}

/// Where no blank line stands between the first and the last line that is
/// not blank, a text with `n` lines that are not blank has `n - 1` entries,
/// and none if `n` is 0. A blank line between them makes one entry more.
pub proof fn lemma_entry_count_of_nonblank_lines(raw: Seq<char>)
    requires
        !is_blank(raw) ==> forall|i: int|
            0 <= i < lines_of(trimmed(raw)).len() ==> !is_blank(
                #[trigger] lines_of(trimmed(raw))[i],
            ),
    ensures
        document_of(raw).entries.len() == (if nonblank_count(lines_of(raw)) >= 1 {
            nonblank_count(lines_of(raw)) - 1
        } else {
            0
        }),
{
    let body = trimmed(raw);
    lemma_trimmed_empty_iff_blank(raw);
    lemma_nonblank_count_of_trimmed(raw);
    if body.len() == 0 {
        let only = lines_of(body);
        assert(only.len() == 1 && is_blank(only[0]));
        assert(nonblank_count(only.drop_first()) == 0);
    } else {
        lemma_nonblank_count_of_nonblank_lines(lines_of(body));
        lemma_lines_nonempty(body);
    }
}

/// A document has a title unless its text is blank, and then it has no
/// entries either. A title is never empty and has no white space around it.
pub proof fn lemma_title(raw: Seq<char>)
    ensures
        document_of(raw).title is None <==> is_blank(raw),
        is_blank(raw) ==> document_of(raw).entries.len() == 0,
        document_of(raw).title matches Some(title) ==> title.len() > 0 && !is_whitespace_spec(
            title.first(),
        ) && !is_whitespace_spec(title.last()),
{
    lemma_trimmed_empty_iff_blank(raw);
    let body = trimmed(raw);
    if body.len() > 0 {
        let _ = lemma_trimmed(raw);
        let first = lines_of(body)[0];
        assert(first.len() > 0 && first[0] == body[0]);
        assert(trimmed_start(first) == first);
        lemma_trimmed_end_is_prefix(first);
        let title = trimmed_end(first);
        if title.len() == 0 {
            assert(first.skip(0)[0] == first[0]);
        }
        assert(title.first() == first[0]);
    }
}

/// An entry holds its whole line. A labeled field is made from a line with
/// a separator: its label, the separator and its value make up the line, and
/// the label holds no separator, so the line was split at the first one. A
/// paragraph is a line without a separator.
pub proof fn lemma_entry_holds_line(line: Seq<char>)
    ensures
        (match entry_of(line) {
            EntryView::LabeledField { label, value } => {
                &&& has_separator(line)
                &&& label + separator() + value == line
                &&& !has_separator(label)
            },
            EntryView::Paragraph { text } => !has_separator(line) && text == line,
        }),
{
    lemma_split_at_separator(line);
}

/// White space around the text does not show in its document: the trimmed
/// text has the same one.
pub proof fn lemma_document_of_trimmed(raw: Seq<char>)
    ensures
        document_of(trimmed(raw)) == document_of(raw),
{
    lemma_trimmed_twice(raw);
}

/// Parsing depends on the text alone: two documents parsed from the same
/// text hold the same, and `==` finds them equal.
pub proof fn lemma_parse_is_deterministic(
    raw: Seq<char>,
    first: ParsedDocument,
    second: ParsedDocument,
)
    requires
        first@ == document_of(raw),
        second@ == document_of(raw),
    ensures
        first@ == second@,
        first.eq_spec(&second),
{
}

/// Parses the raw text of a spell card. Every text has a document: there is
/// no input on which parsing fails. The document has one entry for each
/// line of the trimmed text after the first.
pub fn parse(raw: &str) -> (document: ParsedDocument)
    ensures
        document@ == document_of(raw@),
        document.entries@.len() == entry_count(raw@),
{
    let body = trim(raw);
    if body.is_empty() {
        let document = ParsedDocument { title: None, entries: Vec::new() };
        assert(document@.entries =~= Seq::empty());
        return document;
    }
    let all = lines(body);
    proof {
        lemma_lines_nonempty(body@);
    }
    let ghost expected = lines_of(body@);
    let title = trim(all[0]).to_owned();
    let mut entries: Vec<Entry> = Vec::new();
    let mut i: usize = 1;
    while i < all.len()
        invariant
            1 <= i <= all.len(),
            views(all@) == expected,
            entries@.len() == i - 1,
            forall|k: int|
                0 <= k < i - 1 ==> (#[trigger] entries@[k])@ == entry_of(expected[k + 1]),
        decreases all.len() - i,
    {
        let entry = Entry::from_line(all[i]);
        proof {
            assert(views(all@)[i as int] == all@[i as int]@);
        }
        entries.push(entry);
        i = i + 1;
    }
    let document = ParsedDocument { title: Some(title), entries };
    proof {
        assert(views(all@)[0] == all@[0]@);
        assert(document@.entries =~= expected.skip(1).map_values(
            |line: Seq<char>| entry_of(line),
        ));
    }
    document
}

} // verus!
