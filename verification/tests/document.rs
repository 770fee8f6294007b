use intspell::document::{parse, Entry, ParsedDocument};

fn field(label: &str, value: &str) -> Entry {
    Entry::LabeledField { label: label.to_string(), value: value.to_string() }
}

fn paragraph(text: &str) -> Entry {
    Entry::Paragraph { text: text.to_string() }
}

fn document(title: Option<&str>, entries: Vec<Entry>) -> ParsedDocument {
    ParsedDocument { title: title.map(|t| t.to_string()), entries }
}

const GELATO: &str = r#"
        Gelato
        2nd-level Transmutation (Arcane)

        Casting Time: 1 action
        Range: 30 feet
        Components: V, S, M (a scoop of gelato)
        Duration: Instantaneous

        You transform a scoop of gelato in your hand into a magical force that affects the creatures of your choice within range. Choose up to three creatures within range. Each target must make a Dexterity saving throw. On a failed save, a target takes 1d8 cold damage, and their speed is reduced by 10 feet until the start of your next turn. On a successful save, a target takes half as much damage, and their speed is not reduced.

        At Higher Levels. When you cast this spell using a spell slot of 3rd level or higher, the damage increases by 1d8 for each slot level above 2nd.
    "#;

#[test]
fn empty_text_has_no_title_and_no_entries() {
    let parsed = parse("");
    assert_eq!(parsed.title, None);
    assert_eq!(parsed.entries.len(), 0);
    assert_eq!(parsed, document(None, vec![]));
}

#[test]
fn single_line_is_the_title() {
    let parsed = parse("Gelato");
    assert_eq!(parsed.title, Some("Gelato".to_string()));
    assert_eq!(parsed.entries.len(), 0);
}

#[test]
fn lines_after_the_title_become_entries() {
    let parsed = parse("Title\nCasting Time: 1 action\nJust text");
    assert_eq!(parsed.title, Some("Title".to_string()));
    assert_eq!(parsed.entries, vec![field("Casting Time", "1 action"), paragraph("Just text")]);
}

#[test]
fn line_is_split_at_its_first_separator_only() {
    let parsed = parse("A\nkey: val: extra");
    assert_eq!(parsed.title, Some("A".to_string()));
    assert_eq!(parsed.entries, vec![field("key", "val: extra")]);
}

#[test]
fn parsing_twice_gives_equal_documents() {
    let texts = ["", "   ", "Gelato", "Title\nCasting Time: 1 action\nJust text", GELATO];
    for text in texts {
        let first = parse(text);
        let second = parse(text);
        assert_eq!(first, second, "text {:?}", text);
        assert_eq!(first.title, second.title);
        assert_eq!(first.entries, second.entries);
    }
}

#[test]
fn entries_are_one_less_than_lines() {
    let texts = [
        ("", 0),
        ("   \n\t\n  ", 0),
        ("a", 0),
        ("a\n", 0),
        ("\n\na", 0),
        ("a\nb", 1),
        ("a\n\nb", 2),
        ("a\n \n\n \nb", 4),
        ("  a\nb\nc\nd  ", 3),
        ("\n a: b\nc: d\n\ne\n", 3),
    ];
    for (text, expected) in texts {
        let parsed = parse(text);
        assert_eq!(parsed.entries.len(), expected, "text {:?}", text);
        let body = text.trim();
        let line_count = if body.is_empty() { 0 } else { body.split('\n').count() };
        assert_eq!(parsed.entries.len(), line_count.saturating_sub(1), "text {:?}", text);
    }
}

#[test]
fn text_of_white_space_only_has_no_title_and_no_entries() {
    assert_eq!(parse(" "), document(None, vec![]));
    assert_eq!(parse("\n"), document(None, vec![]));
    assert_eq!(parse(" \n\t\r\n \u{3000}\u{A0}\n"), document(None, vec![]));
}

#[test]
fn bare_separator_line_is_a_field_with_empty_label_and_value() {
    assert_eq!(parse("T\n: \nx"), document(Some("T"), vec![field("", ""), paragraph("x")]));
    assert_eq!(parse("T\n: \n: \nx").entries[..2], [field("", ""), field("", "")]);
}

#[test]
fn blank_lines_become_empty_paragraphs() {
    assert_eq!(
        parse("T\n\nx\n\n\ny"),
        document(
            Some("T"),
            vec![paragraph(""), paragraph("x"), paragraph(""), paragraph(""), paragraph("y")]
        )
    );
}

#[test]
fn title_is_trimmed() {
    assert_eq!(parse("  Title \t\nbody").title, Some("Title".to_string()));
    assert_eq!(parse("Title\r\nbody").title, Some("Title".to_string()));
    assert_eq!(parse("\n\n  Two Words\u{3000}\nbody").title, Some("Two Words".to_string()));
}

#[test]
fn title_with_separator_stays_whole() {
    assert_eq!(parse("Name: Gelato\nx"), document(Some("Name: Gelato"), vec![paragraph("x")]));
}

#[test]
fn entries_are_not_trimmed() {
    assert_eq!(
        parse("T\n  indented  \n  key  :  value  \nlast"),
        document(
            Some("T"),
            vec![paragraph("  indented  "), field("  key  ", " value  "), paragraph("last")]
        )
    );
}

#[test]
fn only_the_text_as_a_whole_is_trimmed_around_entries() {
    assert_eq!(parse("T\n  a: b  \n\n"), document(Some("T"), vec![field("  a", "b")]));
    assert_eq!(parse("T\nx\r\ny\r\n"), document(Some("T"), vec![paragraph("x\r"), paragraph("y")]));
}

#[test]
fn lines_without_colon_and_space_are_paragraphs() {
    assert_eq!(
        parse("T\na:b\nc :d\ne:\n:f\nhttp://x"),
        document(
            Some("T"),
            vec![paragraph("a:b"), paragraph("c :d"), paragraph("e:"), paragraph(":f"), paragraph("http://x")]
        )
    );
}

#[test]
fn value_may_be_empty_inside_the_text() {
    assert_eq!(parse("T\nkey: \nx"), document(Some("T"), vec![field("key", ""), paragraph("x")]));
}

#[test]
fn separator_at_the_end_of_the_text_loses_its_space_to_trimming() {
    assert_eq!(parse("T\nkey: "), document(Some("T"), vec![paragraph("key:")]));
}

#[test]
fn entries_keep_their_order_and_repeats() {
    assert_eq!(
        parse("T\nb: 2\na: 1\nb: 2\nb: 2"),
        document(Some("T"), vec![field("b", "2"), field("a", "1"), field("b", "2"), field("b", "2")])
    );
}

#[test]
fn wide_characters_are_kept_whole() {
    assert_eq!(
        parse("\u{3000}T\u{ED}tulo \u{1F600}\u{3000}\nDur\u{E9}e: 1 heure \u{2014} \u{221E}\n\u{540D}\u{524D}: \u{5024}\n\u{1F389}"),
        document(
            Some("T\u{ED}tulo \u{1F600}"),
            vec![
                field("Dur\u{E9}e", "1 heure \u{2014} \u{221E}"),
                field("\u{540D}\u{524D}", "\u{5024}"),
                paragraph("\u{1F389}"),
            ]
        )
    );
}

#[test]
fn sample_card_is_parsed_line_by_line() {
    let parsed = parse(GELATO);
    assert_eq!(parsed.title, Some("Gelato".to_string()));
    assert_eq!(parsed.entries.len(), 10);
    assert_eq!(parsed.entries[0], paragraph("        2nd-level Transmutation (Arcane)"));
    assert_eq!(parsed.entries[1], paragraph(""));
    assert_eq!(parsed.entries[2], field("        Casting Time", "1 action"));
    assert_eq!(parsed.entries[3], field("        Range", "30 feet"));
    assert_eq!(parsed.entries[4], field("        Components", "V, S, M (a scoop of gelato)"));
    assert_eq!(parsed.entries[5], field("        Duration", "Instantaneous"));
    assert_eq!(parsed.entries[6], paragraph(""));
    match &parsed.entries[7] {
        Entry::Paragraph { text } => {
            assert!(text.starts_with("        You transform a scoop of gelato"));
            assert!(text.ends_with("their speed is not reduced."));
        }
        other => panic!("not a paragraph: {:?}", other),
    }
    assert_eq!(parsed.entries[8], paragraph(""));
    match &parsed.entries[9] {
        Entry::Paragraph { text } => {
            assert!(text.starts_with("        At Higher Levels. When you cast"));
            assert!(text.ends_with("for each slot level above 2nd."));
        }
        other => panic!("not a paragraph: {:?}", other),
    }
}

#[test]
fn large_text_is_parsed_in_full() {
    let mut text = String::from("Title");
    for i in 0..20000 {
        text.push_str(&format!("\nkey {}: value {}", i, i));
    }
    let parsed = parse(&text);
    assert_eq!(parsed.title, Some("Title".to_string()));
    assert_eq!(parsed.entries.len(), 20000);
    assert_eq!(parsed.entries[0], field("key 0", "value 0"));
    assert_eq!(parsed.entries[19999], field("key 19999", "value 19999"));
}

#[test]
fn from_line_makes_a_field_or_a_paragraph() {
    assert_eq!(Entry::from_line("Range: 30 feet"), field("Range", "30 feet"));
    assert_eq!(Entry::from_line("Just text"), paragraph("Just text"));
    assert_eq!(Entry::from_line(""), paragraph(""));
    assert_eq!(Entry::from_line(": "), field("", ""));
    assert_eq!(Entry::from_line(" a: b "), field(" a", "b "));
}

#[test]
fn from_line_agrees_with_split_once() {
    let samples = ["", "a", "a: b", "a: b: c", ": ", "a:", ":a", "a :b", "\u{E9}: \u{1F600}", " : : "];
    for line in samples {
        let expected = match line.split_once(": ") {
            Some((label, value)) => field(label, value),
            None => paragraph(line),
        };
        assert_eq!(Entry::from_line(line), expected, "line {:?}", line);
    }
}

#[test]
fn entries_of_different_kinds_are_not_equal() {
    assert_ne!(field("a", ""), paragraph("a"));
    assert_ne!(field("a", "b"), paragraph("a: b"));
    assert_ne!(field("a", "b"), field("a", "c"));
    assert_ne!(field("a", "b"), field("c", "b"));
    assert_ne!(paragraph("a"), paragraph("b"));
    assert_eq!(field("a", "b"), field("a", "b"));
    assert_eq!(paragraph("a"), paragraph("a"));
}

#[test]
fn documents_differ_by_title_or_by_any_entry() {
    let base = document(Some("T"), vec![paragraph("x"), field("a", "b")]);
    assert_eq!(base, document(Some("T"), vec![paragraph("x"), field("a", "b")]));
    assert_ne!(base, document(None, vec![paragraph("x"), field("a", "b")]));
    assert_ne!(base, document(Some("U"), vec![paragraph("x"), field("a", "b")]));
    assert_ne!(base, document(Some("T"), vec![paragraph("x")]));
    assert_ne!(base, document(Some("T"), vec![paragraph("x"), field("a", "c")]));
    assert_ne!(base, document(Some("T"), vec![field("a", "b"), paragraph("x")]));
    assert_ne!(document(None, vec![]), document(Some(""), vec![]));
}

#[test]
fn clones_are_equal_to_what_was_cloned() {
    let parsed = parse(GELATO);
    let copy = parsed.clone();
    assert_eq!(copy, parsed);
    assert_eq!(copy.title, Some("Gelato".to_string()));
    assert_eq!(copy.entries.len(), 10);
    let entry = field("a", "b");
    assert_eq!(entry.clone(), entry);
    assert_eq!(paragraph("p").clone(), paragraph("p"));
    let empty = parse("");
    assert_eq!(empty.clone(), empty);
}

const TEXTS: [&str; 16] = [
    "",
    " \n\t ",
    "Gelato",
    "  Gelato  \n",
    "Title\nCasting Time: 1 action\nJust text",
    "A\nkey: val: extra",
    "A\n\nB",
    "A\n \t \nB\n\n\nC: D",
    "\n\n  A: B  \n: \n:\n x ",
    "T\r\na: b\r\nc\r\n",
    "\u{3000}T\u{3000}\n\u{E9}: \u{1F600}\n\u{2003}\n\u{540D}",
    "T\n: : : ",
    "T\na:: b\n a : b ",
    "only: a title",
    "x\ny\nz",
    GELATO,
];

#[test]
fn title_is_present_unless_the_text_is_blank() {
    for text in TEXTS {
        let parsed = parse(text);
        assert_eq!(parsed.title.is_none(), text.trim().is_empty(), "text {:?}", text);
        if let Some(title) = &parsed.title {
            assert!(!title.is_empty(), "text {:?}", text);
            assert_eq!(title.trim(), title, "text {:?}", text);
        } else {
            assert!(parsed.entries.is_empty(), "text {:?}", text);
        }
    }
}

#[test]
fn title_is_the_first_line_of_the_trimmed_text() {
    for text in TEXTS {
        let expected = match text.trim() {
            "" => None,
            body => body.split('\n').next().map(|line| line.trim().to_string()),
        };
        assert_eq!(parse(text).title, expected, "text {:?}", text);
    }
}

#[test]
fn entries_hold_their_lines() {
    for text in TEXTS {
        let parsed = parse(text);
        let rest: Vec<&str> = text.trim().split('\n').skip(1).collect();
        assert_eq!(parsed.entries.len(), rest.len(), "text {:?}", text);
        for (entry, line) in parsed.entries.iter().zip(rest) {
            match entry {
                Entry::LabeledField { label, value } => {
                    assert_eq!(format!("{}: {}", label, value), line, "text {:?}", text);
                    assert!(!label.contains(": "), "text {:?}", text);
                }
                Entry::Paragraph { text: kept } => {
                    assert_eq!(kept, line, "text {:?}", text);
                    assert!(!line.contains(": "), "text {:?}", text);
                }
            }
        }
    }
}

#[test]
fn entries_are_as_many_as_the_line_breaks_of_the_trimmed_text() {
    for text in TEXTS {
        let breaks = text.trim().chars().filter(|c| *c == '\n').count();
        assert_eq!(parse(text).entries.len(), breaks, "text {:?}", text);
    }
}

#[test]
fn lines_that_are_not_blank_count_the_entries_where_no_blank_line_stands_between() {
    for text in TEXTS {
        let between_is_blank = text.trim().split('\n').any(|line| line.trim().is_empty());
        let nonblank = text.split('\n').filter(|line| !line.trim().is_empty()).count();
        let entries = parse(text).entries.len();
        if text.trim().is_empty() {
            assert_eq!(nonblank, 0, "text {:?}", text);
            assert_eq!(entries, 0, "text {:?}", text);
        } else if between_is_blank {
            assert!(entries > nonblank - 1, "text {:?}", text);
        } else {
            assert_eq!(entries, nonblank - 1, "text {:?}", text);
        }
    }
}

#[test]
fn blank_line_between_two_lines_is_an_entry_of_its_own() {
    let parsed = parse("A\n\nB");
    assert_eq!(parsed.entries, vec![paragraph(""), paragraph("B")]);
    assert_eq!(parse("A\nB").entries, vec![paragraph("B")]);
}

#[test]
fn parsing_the_trimmed_text_gives_the_same_document() {
    for text in TEXTS {
        assert_eq!(parse(text.trim()), parse(text), "text {:?}", text);
    }
}
