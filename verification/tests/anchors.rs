use epub_reader::anchors::{
    collect_anchor_positions, index_chapters, locate, resolve_range, AnchorRecord, ChapterAnchors,
    ChapterSource, ID_PATTERN,
};
use epub_reader::book::{Anchor, Book, Toc};
use epub_reader::resolve::IndexError;

fn lines(text: &[&str]) -> Vec<String> {
    text.iter().map(|l| l.to_string()).collect()
}

fn record(id: &str, line: usize) -> AnchorRecord {
    AnchorRecord { id: id.to_string(), line }
}

fn entry(title: &str, path: &str, id: &str, children: Vec<Toc>) -> Toc {
    Toc {
        title: title.to_string(),
        path: path.to_string(),
        anchor: Anchor { id: id.to_string(), start_pos: 0, end_pos: 0 },
        children,
    }
}

/// Twenty lines with anchors `a`, `b` and `c` on lines 2, 7 and 15.
fn chapter_lines() -> Vec<String> {
    (0..20)
        .map(|n| match n {
            2 => "<h1 id=\"a\">A</h1>".to_string(),
            7 => "<h2 id=\"b\">B</h2>".to_string(),
            15 => "<h2 class=\"x\" id=\"c\">C</h2>".to_string(),
            _ => format!("<p>line {}</p>", n),
        })
        .collect()
}

fn chapter() -> ChapterSource {
    ChapterSource { path: "ch.xhtml".to_string(), lines: chapter_lines() }
}

fn ranges(tocs: &Vec<Toc>) -> Vec<(usize, usize)> {
    let mut all = Vec::new();
    for toc in tocs {
        all.push((toc.anchor.start_pos, toc.anchor.end_pos));
        all.extend(ranges(&toc.children));
    }
    all
}

#[test]
fn the_identifier_pattern_is_an_id_attribute() {
    assert_eq!(ID_PATTERN, r#"id="([^"]*)""#);
}

#[test]
fn scan_finds_identifiers_with_their_lines() {
    assert_eq!(
        collect_anchor_positions(&chapter_lines()),
        vec![record("a", 2), record("b", 7), record("c", 15)]
    );
}

#[test]
fn scan_of_no_lines_is_empty() {
    assert!(collect_anchor_positions(&Vec::new()).is_empty());
}

#[test]
fn scan_finds_every_identifier_of_a_line() {
    let found = collect_anchor_positions(&lines(&[
        "<a id=\"one\"></a><a id=\"two\"></a>",
        "plain",
        "<p id=\"three\"><b id=\"four\"><i id=\"five\">",
    ]));
    assert_eq!(
        found,
        vec![
            record("one", 0),
            record("two", 0),
            record("three", 2),
            record("four", 2),
            record("five", 2),
        ]
    );
}

#[test]
fn identifiers_of_one_line_end_on_that_line() {
    let records = collect_anchor_positions(&lines(&[
        "text",
        "<a id=\"one\"></a><a id=\"two\"></a>",
        "text",
        "<a id=\"three\"></a>",
    ]));
    assert_eq!(resolve_range(&records, 4, &"one".to_string()), (1, 1));
    assert_eq!(resolve_range(&records, 4, &"two".to_string()), (1, 3));
    assert_eq!(resolve_range(&records, 4, &"three".to_string()), (3, 4));
}

#[test]
fn scan_of_a_long_file_keeps_every_line_number() {
    let many: Vec<String> = (0..5000).map(|n| format!("<p id=\"p{}\">x</p>", n)).collect();
    let found = collect_anchor_positions(&many);
    assert_eq!(found.len(), 5000);
    assert_eq!(found[4999], record("p4999", 4999));
}

#[test]
fn scan_records_an_empty_identifier() {
    assert_eq!(collect_anchor_positions(&lines(&["<p id=\"\">"])), vec![record("", 0)]);
}

#[test]
fn scan_skips_lines_without_a_complete_attribute() {
    let found = collect_anchor_positions(&lines(&["id=x", "id=\"open", "ID=\"upper\"", "plain"]));
    assert!(found.is_empty());
}

#[test]
fn scan_matches_inside_longer_attribute_names() {
    let found = collect_anchor_positions(&lines(&["<p data-id=\"q\">"]));
    assert_eq!(found, vec![record("q", 0)]);
}

#[test]
fn three_anchors_give_three_adjoining_ranges() {
    let records = collect_anchor_positions(&chapter_lines());
    assert_eq!(resolve_range(&records, 20, &"a".to_string()), (2, 7));
    assert_eq!(resolve_range(&records, 20, &"b".to_string()), (7, 15));
    assert_eq!(resolve_range(&records, 20, &"c".to_string()), (15, 20));
}

#[test]
fn unknown_identifier_resolves_to_the_whole_file() {
    let records = collect_anchor_positions(&chapter_lines());
    assert_eq!(resolve_range(&records, 20, &"zzz".to_string()), (0, 0));
}

#[test]
fn empty_identifier_resolves_to_the_whole_file() {
    let records = vec![record("", 4), record("x", 6)];
    assert_eq!(resolve_range(&records, 10, &String::new()), (0, 0));
}

#[test]
fn repeated_identifier_resolves_to_its_first_record() {
    let records = vec![record("x", 1), record("y", 3), record("x", 5)];
    assert_eq!(resolve_range(&records, 9, &"x".to_string()), (1, 3));
}

#[test]
fn index_holds_one_chapter_per_source() {
    let sources = vec![
        chapter(),
        ChapterSource { path: "empty.xhtml".to_string(), lines: Vec::new() },
    ];
    assert_eq!(
        index_chapters(&sources),
        vec![
            ChapterAnchors {
                path: "ch.xhtml".to_string(),
                records: vec![record("a", 2), record("b", 7), record("c", 15)],
                line_count: 20,
            },
            ChapterAnchors { path: "empty.xhtml".to_string(), records: Vec::new(), line_count: 0 },
        ]
    );
}

#[test]
fn locate_finds_the_chapter_and_resolves_in_it() {
    let index = index_chapters(&vec![chapter()]);
    assert_eq!(locate(&index, &"ch.xhtml".to_string(), &"b".to_string()), Some((7, 15)));
    assert_eq!(locate(&index, &"ch.xhtml".to_string(), &"none".to_string()), Some((0, 0)));
    assert_eq!(locate(&index, &"other.xhtml".to_string(), &"b".to_string()), None);
}

#[test]
fn locate_uses_the_first_chapter_with_the_path() {
    let index = vec![
        ChapterAnchors { path: "f".to_string(), records: vec![record("x", 1)], line_count: 5 },
        ChapterAnchors { path: "f".to_string(), records: vec![record("x", 3)], line_count: 9 },
    ];
    assert_eq!(locate(&index, &"f".to_string(), &"x".to_string()), Some((1, 5)));
}

#[test]
fn three_entries_in_one_file_get_their_ranges() {
    let mut book = Book::default();
    book.toc = vec![
        entry("A", "ch.xhtml", "a", vec![]),
        entry("B", "ch.xhtml", "b", vec![]),
        entry("C", "ch.xhtml", "c", vec![]),
    ];
    assert_eq!(book.generate_anchor_positions(&vec![chapter()]), Ok(()));
    assert_eq!(ranges(&book.toc), vec![(2, 7), (7, 15), (15, 20)]);
}

#[test]
fn nested_entries_are_resolved_after_their_parent() {
    let mut book = Book::default();
    book.toc = vec![entry(
        "A",
        "ch.xhtml",
        "a",
        vec![entry("C", "ch.xhtml", "c", vec![entry("B", "ch.xhtml", "b", vec![])])],
    )];
    assert_eq!(book.generate_anchor_positions(&vec![chapter()]), Ok(()));
    assert_eq!(ranges(&book.toc), vec![(2, 7), (15, 20), (7, 15)]);
}

#[test]
fn entry_with_unknown_fragment_stays_whole_file() {
    let mut book = Book::default();
    book.toc = vec![entry("?", "ch.xhtml", "missing", vec![]), entry("-", "ch.xhtml", "", vec![])];
    assert_eq!(book.generate_anchor_positions(&vec![chapter()]), Ok(()));
    assert_eq!(ranges(&book.toc), vec![(0, 0), (0, 0)]);
}

#[test]
fn resolution_overwrites_stale_ranges() {
    let mut book = Book::default();
    let mut stale = entry("?", "ch.xhtml", "missing", vec![]);
    stale.anchor.start_pos = 4;
    stale.anchor.end_pos = 5;
    book.toc = vec![stale];
    assert_eq!(book.generate_anchor_positions(&vec![chapter()]), Ok(()));
    assert_eq!(ranges(&book.toc), vec![(0, 0)]);
}

#[test]
fn entries_of_different_files_are_resolved_in_their_own_file() {
    let other = ChapterSource {
        path: "other.xhtml".to_string(),
        lines: lines(&["<p id=\"a\">", "text", "<p id=\"z\">"]),
    };
    let mut book = Book::default();
    book.toc = vec![entry("1", "ch.xhtml", "a", vec![]), entry("2", "other.xhtml", "a", vec![])];
    assert_eq!(book.generate_anchor_positions(&vec![chapter(), other]), Ok(()));
    assert_eq!(ranges(&book.toc), vec![(2, 7), (0, 2)]);
}

#[test]
fn missing_file_fails_and_leaves_the_book_alone() {
    let mut book = Book::default();
    book.toc = vec![
        entry("A", "ch.xhtml", "a", vec![entry("gone", "gone.xhtml", "x", vec![])]),
        entry("B", "ch.xhtml", "b", vec![]),
    ];
    let before = book.clone();
    assert_eq!(book.generate_anchor_positions(&vec![chapter()]), Err(IndexError::MissingSource));
    assert_eq!(book, before);
}

#[test]
fn resolution_keeps_labels_paths_and_shape() {
    let mut book = Book::default();
    book.toc = vec![entry("A", "ch.xhtml", "a", vec![entry("B", "ch.xhtml", "b", vec![])])];
    assert_eq!(book.generate_anchor_positions(&vec![chapter()]), Ok(()));
    let mut expected = entry("A", "ch.xhtml", "a", vec![entry("B", "ch.xhtml", "b", vec![])]);
    expected.anchor.start_pos = 2;
    expected.anchor.end_pos = 7;
    expected.children[0].anchor.start_pos = 7;
    expected.children[0].anchor.end_pos = 15;
    assert_eq!(book.toc, vec![expected]);
}

#[test]
fn process_toc_item_resolves_one_subtree() {
    let index = index_chapters(&vec![chapter()]);
    let toc = entry("C", "ch.xhtml", "c", vec![]);
    let resolved = Book::process_toc_item(&toc, &index).unwrap();
    assert_eq!((resolved.anchor.start_pos, resolved.anchor.end_pos), (15, 20));
    let lost = entry("C", "nowhere.xhtml", "c", vec![]);
    assert_eq!(Book::process_toc_item(&lost, &index), Err(IndexError::MissingSource));
}

#[test]
fn referenced_paths_are_distinct_and_in_first_use_order() {
    let mut book = Book::default();
    book.toc = vec![
        entry("1", "b.xhtml", "", vec![entry("1.1", "a.xhtml", "x", vec![])]),
        entry("2", "b.xhtml", "y", vec![]),
        entry("3", "c.xhtml", "", vec![entry("3.1", "a.xhtml", "", vec![])]),
    ];
    assert_eq!(book.referenced_paths(), vec!["b.xhtml", "a.xhtml", "c.xhtml"]);
}

#[test]
fn referenced_paths_of_an_empty_book_are_none() {
    assert!(Book::default().referenced_paths().is_empty());
}
