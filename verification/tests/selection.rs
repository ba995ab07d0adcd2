use epub_reader::anchors::ChapterSource;
use epub_reader::book::{Anchor, Book, FlatToc, Toc, TocPosition};
use epub_reader::resolve::IndexError;

fn entry(title: &str, path: &str, id: &str, children: Vec<Toc>) -> Toc {
    Toc {
        title: title.to_string(),
        path: path.to_string(),
        anchor: Anchor { id: id.to_string(), start_pos: 0, end_pos: 0 },
        children,
    }
}

fn flat(title: &str) -> FlatToc {
    FlatToc { title: title.to_string(), path: "f.xhtml".to_string(), anchor: Anchor::default() }
}

fn book_with(entries: usize) -> Book {
    let mut book = Book::default();
    book.flat_toc = (0..entries).map(|n| flat(&n.to_string())).collect();
    book
}

fn source() -> ChapterSource {
    ChapterSource {
        path: "f.xhtml".to_string(),
        lines: vec![
            "<h1 id=\"one\">1</h1>".to_string(),
            "<p>text</p>".to_string(),
            "<h1 id=\"two\">2</h1>".to_string(),
            "<p>more</p>".to_string(),
        ],
    }
}

#[test]
fn default_book_is_blank() {
    let book = Book::default();
    assert_eq!(
        book,
        Book {
            path: String::new(),
            title: String::new(),
            author: String::new(),
            language: String::new(),
            date: String::new(),
            toc: vec![],
            selected: 0,
            context: String::new(),
            flat_toc: vec![],
        }
    );
}

#[test]
fn cloned_book_equals_its_source() {
    let mut book = book_with(2);
    book.toc = vec![entry("a", "f.xhtml", "one", vec![entry("b", "f.xhtml", "two", vec![])])];
    book.title = "T".to_string();
    book.context = "shown".to_string();
    book.selected = 1;
    assert_eq!(book.clone(), book);
}

#[test]
fn select_moves_within_the_entries() {
    let mut book = book_with(3);
    assert!(book.select(2));
    assert_eq!(book.selected, 2);
    assert!(book.select(0));
    assert_eq!(book.selected, 0);
}

#[test]
fn select_refuses_an_index_beyond_the_entries() {
    let mut book = book_with(3);
    book.selected = 1;
    assert!(!book.select(3));
    assert_eq!(book.selected, 1);
    assert!(!book_with(0).select(0));
}

#[test]
fn select_next_stops_at_the_last_entry() {
    let mut book = book_with(3);
    book.select_next();
    assert_eq!(book.selected, 1);
    book.select_next();
    assert_eq!(book.selected, 2);
    book.select_next();
    assert_eq!(book.selected, 2);
}

#[test]
fn select_next_on_an_empty_book_does_nothing() {
    let mut book = book_with(0);
    book.select_next();
    assert_eq!(book.selected, 0);
}

#[test]
fn select_next_at_the_largest_index_does_nothing() {
    let mut book = book_with(2);
    book.selected = usize::MAX;
    book.select_next();
    assert_eq!(book.selected, usize::MAX);
}

#[test]
fn select_previous_stops_at_the_first_entry() {
    let mut book = book_with(3);
    book.selected = 2;
    book.select_previous();
    assert_eq!(book.selected, 1);
    book.select_previous();
    assert_eq!(book.selected, 0);
    book.select_previous();
    assert_eq!(book.selected, 0);
}

#[test]
fn selected_entry_is_the_one_at_the_selection() {
    let mut book = book_with(3);
    book.selected = 1;
    assert_eq!(book.selected_entry(), Some(&flat("1")));
    book.selected = 3;
    assert_eq!(book.selected_entry(), None);
    assert_eq!(book_with(0).selected_entry(), None);
}

#[test]
fn reindex_resolves_and_flattens() {
    let mut book = Book::default();
    book.toc = vec![entry("a", "f.xhtml", "one", vec![entry("b", "f.xhtml", "two", vec![])])];
    book.selected = 1;
    assert_eq!(book.reindex(&vec![source()]), Ok(()));
    let ranges: Vec<(usize, usize)> =
        book.flat_toc.iter().map(|e| (e.anchor.start_pos, e.anchor.end_pos)).collect();
    assert_eq!(ranges, vec![(0, 2), (2, 4)]);
    assert_eq!((book.toc[0].anchor.start_pos, book.toc[0].anchor.end_pos), (0, 2));
    assert_eq!(book.selected, 1);
}

#[test]
fn reindex_twice_gives_the_same_book() {
    let mut book = Book::default();
    book.toc = vec![
        entry("a", "f.xhtml", "one", vec![entry("b", "f.xhtml", "two", vec![])]),
        entry("c", "f.xhtml", "three", vec![]),
    ];
    book.selected = 7;
    assert_eq!(book.reindex(&vec![source()]), Ok(()));
    let once = book.clone();
    assert_eq!(book.reindex(&vec![source()]), Ok(()));
    assert_eq!(book, once);
    let mut again = Book::default();
    again.toc = vec![
        entry("a", "f.xhtml", "one", vec![entry("b", "f.xhtml", "two", vec![])]),
        entry("c", "f.xhtml", "three", vec![]),
    ];
    again.selected = 7;
    assert_eq!(again.reindex(&vec![source()]), Ok(()));
    assert_eq!(again, once);
}

#[test]
fn reindex_keeps_the_selection_in_range() {
    let mut book = Book::default();
    book.toc = vec![entry("a", "f.xhtml", "one", vec![])];
    book.selected = 1;
    assert_eq!(book.reindex(&vec![source()]), Ok(()));
    assert_eq!(book.selected, 0);
}

#[test]
fn reindex_without_a_needed_file_changes_nothing() {
    let mut book = book_with(2);
    book.toc = vec![entry("a", "f.xhtml", "one", vec![]), entry("b", "g.xhtml", "", vec![])];
    let before = book.clone();
    assert_eq!(book.reindex(&vec![source()]), Err(IndexError::MissingSource));
    assert_eq!(book, before);
}

#[test]
fn reindex_succeeds_with_every_referenced_file() {
    let mut book = Book::default();
    book.toc = vec![
        entry("a", "f.xhtml", "one", vec![entry("b", "g.xhtml", "", vec![])]),
        entry("c", "f.xhtml", "", vec![]),
    ];
    let sources: Vec<ChapterSource> = book
        .referenced_paths()
        .into_iter()
        .map(|path| ChapterSource { path, lines: vec!["<p id=\"one\">x</p>".to_string()] })
        .collect();
    assert_eq!(sources.len(), 2);
    assert_eq!(book.reindex(&sources), Ok(()));
    assert_eq!(book.flat_toc.len(), 3);
}

#[test]
fn resolved_ranges_never_end_before_they_start() {
    let mut book = Book::default();
    book.toc = vec![
        entry("a", "f.xhtml", "two", vec![entry("b", "f.xhtml", "one", vec![])]),
        entry("c", "f.xhtml", "none", vec![]),
    ];
    assert_eq!(book.reindex(&vec![source()]), Ok(()));
    for e in &book.flat_toc {
        assert!(e.anchor.start_pos <= e.anchor.end_pos);
        assert!(e.anchor.end_pos <= 4);
    }
}

#[test]
fn default_position_starts_at_zero() {
    assert_eq!(TocPosition::default(), TocPosition { start: 0, path: String::new() });
}
