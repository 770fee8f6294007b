use intspell::credential::is_usable;
use intspell::document::{parse, Entry, ParsedDocument};
use intspell::text::field::split_field;
use intspell::text::lines::lines;
use intspell::text::trim::trim;

const ALPHABET: [char; 16] = [
    'a', 'b', ' ', ' ', ':', ':', '\n', '\n', '\t', '\r', '-', 's', 'k', '\u{E9}', '\u{3000}',
    '\u{1F600}',
];

/// A fixed sequence of texts over a small alphabet in which separators, line
/// breaks and white space of several widths are frequent.
fn texts(count: usize) -> Vec<String> {
    let mut state: u64 = 0x2545_F491_4F6C_DD1D;
    let mut step = move || {
        state ^= state << 13;
        state ^= state >> 7;
        state ^= state << 17;
        state
    };
    let mut all = Vec::with_capacity(count);
    for _ in 0..count {
        let len = (step() % 24) as usize;
        let mut text = String::new();
        for _ in 0..len {
            text.push(ALPHABET[(step() % 16) as usize]);
        }
        all.push(text);
    }
    all
}

fn expected_document(raw: &str) -> ParsedDocument {
    let body = raw.trim();
    if body.is_empty() {
        return ParsedDocument { title: None, entries: Vec::new() };
    }
    let mut rows = body.split('\n');
    let title = rows.next().map(|row| row.trim().to_string());
    let entries = rows
        .map(|row| match row.split_once(": ") {
            Some((label, value)) => {
                Entry::LabeledField { label: label.to_string(), value: value.to_string() }
            }
            None => Entry::Paragraph { text: row.to_string() },
        })
        .collect();
    ParsedDocument { title, entries }
}

#[test]
fn many_texts_are_trimmed_as_std_trims_them() {
    for text in texts(20000) {
        assert_eq!(trim(&text), text.trim(), "text {:?}", text);
    }
}

#[test]
fn many_texts_are_cut_into_lines_as_std_splits_them() {
    for text in texts(20000) {
        let expected: Vec<&str> = text.split('\n').collect();
        assert_eq!(lines(&text), expected, "text {:?}", text);
    }
}

#[test]
fn many_lines_are_split_as_std_splits_them_once() {
    for text in texts(20000) {
        assert_eq!(split_field(&text), text.split_once(": "), "text {:?}", text);
    }
}

#[test]
fn many_texts_are_parsed_as_expected() {
    for text in texts(20000) {
        assert_eq!(parse(&text), expected_document(&text), "text {:?}", text);
    }
}

#[test]
fn many_tokens_pass_the_gate_as_their_prefix_says() {
    let mut usable = 0;
    for text in texts(20000) {
        for token in [text.clone(), format!("sk-{}", text), format!("sk{}", text)] {
            let expected = token.starts_with("sk-");
            assert_eq!(is_usable(&token), expected, "token {:?}", token);
            if expected {
                usable += 1;
            }
        }
    }
    assert!(usable >= 20000);
}
