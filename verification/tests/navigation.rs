use epub_reader::book::{Anchor, Book, FlatToc, Toc};
use epub_reader::toc::{Content, NavLabel, NavMap, NavPoint, Ncx};

fn entry(title: &str, path: &str, id: &str, children: Vec<Toc>) -> Toc {
    Toc {
        title: title.to_string(),
        path: path.to_string(),
        anchor: Anchor { id: id.to_string(), start_pos: 0, end_pos: 0 },
        children,
    }
}

fn point(label: &str, src: &str, nested: Option<Vec<NavPoint>>) -> NavPoint {
    NavPoint {
        nav_label: NavLabel { text: label.to_string() },
        content: Content { src: src.to_string() },
        nav_point: nested,
    }
}

fn titles(flat: &Vec<FlatToc>) -> Vec<String> {
    flat.iter().map(|e| e.title.clone()).collect()
}

fn count(tocs: &Vec<Toc>) -> usize {
    tocs.iter().map(|t| 1 + count(&t.children)).sum()
}

fn two_chapters() -> Vec<Toc> {
    vec![
        entry("Chapter 1", "ch1.xhtml", "", vec![]),
        entry(
            "Chapter 2",
            "ch2.xhtml",
            "",
            vec![entry("2.1", "ch2.xhtml", "s1", vec![]), entry("2.2", "ch2.xhtml", "s2", vec![])],
        ),
    ]
}

#[test]
fn flattening_visits_parent_before_children() {
    let mut book = Book::default();
    book.toc = two_chapters();
    book.flatten_toc();
    assert_eq!(titles(&book.flat_toc), vec!["Chapter 1", "Chapter 2", "2.1", "2.2"]);
}

#[test]
fn flattening_yields_one_entry_per_node() {
    let mut book = Book::default();
    book.toc = vec![
        entry(
            "a",
            "a.xhtml",
            "",
            vec![
                entry("a1", "a.xhtml", "x", vec![entry("a1i", "a.xhtml", "y", vec![])]),
                entry("a2", "a.xhtml", "z", vec![]),
            ],
        ),
        entry("b", "b.xhtml", "", vec![]),
    ];
    book.flatten_toc();
    assert_eq!(book.flat_toc.len(), count(&book.toc));
    assert_eq!(book.flat_toc.len(), 5);
    assert_eq!(titles(&book.flat_toc), vec!["a", "a1", "a1i", "a2", "b"]);
}

#[test]
fn flattening_an_empty_tree_gives_nothing() {
    let mut book = Book::default();
    book.selected = 3;
    book.flatten_toc();
    assert!(book.flat_toc.is_empty());
    assert_eq!(book.selected, 3);
}

#[test]
fn flattening_twice_gives_the_same_entries() {
    let mut book = Book::default();
    book.toc = two_chapters();
    book.flatten_toc();
    let first = book.flat_toc.clone();
    book.flatten_toc();
    assert_eq!(book.flat_toc, first);
}

#[test]
fn flat_entries_copy_label_path_and_anchor() {
    let mut book = Book::default();
    book.toc = vec![Toc {
        title: "Intro".to_string(),
        path: "intro.xhtml".to_string(),
        anchor: Anchor { id: "top".to_string(), start_pos: 3, end_pos: 9 },
        children: vec![],
    }];
    book.flatten_toc();
    assert_eq!(
        book.flat_toc,
        vec![FlatToc {
            title: "Intro".to_string(),
            path: "intro.xhtml".to_string(),
            anchor: Anchor { id: "top".to_string(), start_pos: 3, end_pos: 9 },
        }]
    );
}

#[test]
fn flattening_keeps_a_selection_that_is_in_range() {
    let mut book = Book::default();
    book.toc = two_chapters();
    book.selected = 3;
    book.flatten_toc();
    assert_eq!(book.selected, 3);
}

#[test]
fn flattening_resets_a_selection_that_is_out_of_range() {
    let mut book = Book::default();
    book.toc = two_chapters();
    book.selected = 4;
    book.flatten_toc();
    assert_eq!(book.selected, 0);
}

#[test]
fn flattening_changes_nothing_but_the_flat_entries() {
    let mut book = Book::default();
    book.path = "/books/one".to_string();
    book.title = "T".to_string();
    book.author = "A".to_string();
    book.language = "en".to_string();
    book.date = "2000".to_string();
    book.context = "shown".to_string();
    book.toc = two_chapters();
    book.selected = 2;
    book.flat_toc = vec![FlatToc {
        title: "stale".to_string(),
        path: "old.xhtml".to_string(),
        anchor: Anchor::default(),
    }];
    let before = book.clone();
    book.flatten_toc();
    assert_eq!(titles(&book.flat_toc), vec!["Chapter 1", "Chapter 2", "2.1", "2.2"]);
    book.flat_toc = before.flat_toc.clone();
    assert_eq!(book, before);
}

#[test]
fn flatten_toc_recursive_appends_in_pre_order() {
    let tocs = two_chapters();
    let mut flat = vec![FlatToc {
        title: "before".to_string(),
        path: "p".to_string(),
        anchor: Anchor::default(),
    }];
    Book::flatten_toc_recursive(&tocs[1], &mut flat);
    assert_eq!(titles(&flat), vec!["before", "Chapter 2", "2.1", "2.2"]);
}

#[test]
fn reference_with_fragment_is_split_at_the_hash() {
    let content = Content { src: "text/ch1.xhtml#sec-2".to_string() };
    assert_eq!(content.get_pure_path(), "text/ch1.xhtml");
    assert_eq!(content.get_anchor_id(), "sec-2");
}

#[test]
fn reference_without_fragment_is_all_path() {
    let content = Content { src: "text/ch1.xhtml".to_string() };
    assert_eq!(content.get_pure_path(), "text/ch1.xhtml");
    assert_eq!(content.get_anchor_id(), "");
}

#[test]
fn reference_with_empty_fragment() {
    let content = Content { src: "ch1.xhtml#".to_string() };
    assert_eq!(content.get_pure_path(), "ch1.xhtml");
    assert_eq!(content.get_anchor_id(), "");
}

#[test]
fn reference_is_split_at_the_first_hash_only() {
    let content = Content { src: "a#b#c".to_string() };
    assert_eq!(content.get_pure_path(), "a");
    assert_eq!(content.get_anchor_id(), "b#c");
}

#[test]
fn reference_that_starts_with_a_hash_has_an_empty_path() {
    let content = Content { src: "#only".to_string() };
    assert_eq!(content.get_pure_path(), "");
    assert_eq!(content.get_anchor_id(), "only");
}

#[test]
fn empty_reference_has_empty_parts() {
    let content = Content { src: String::new() };
    assert_eq!(content.get_pure_path(), "");
    assert_eq!(content.get_anchor_id(), "");
}

#[test]
fn reference_with_characters_beyond_ascii() {
    let content = Content { src: "章/一.xhtml#节⟶1".to_string() };
    assert_eq!(content.get_pure_path(), "章/一.xhtml");
    assert_eq!(content.get_anchor_id(), "节⟶1");
}

#[test]
fn navigation_point_without_nested_points_is_a_leaf() {
    let toc = point("Chapter 1", "ch1.xhtml#top", None).get_toc();
    assert_eq!(toc, entry("Chapter 1", "ch1.xhtml", "top", vec![]));
}

#[test]
fn navigation_point_with_an_empty_list_is_a_leaf() {
    let toc = point("Chapter 1", "ch1.xhtml", Some(vec![])).get_toc();
    assert_eq!(toc, entry("Chapter 1", "ch1.xhtml", "", vec![]));
}

#[test]
fn nested_points_keep_their_order_and_their_own_targets() {
    let nav = point(
        "Part I",
        "part1.xhtml",
        Some(vec![
            point("One", "one.xhtml#a", Some(vec![point("One.1", "one.xhtml#b", None)])),
            point("Two", "two.xhtml", None),
        ]),
    );
    let expected = entry(
        "Part I",
        "part1.xhtml",
        "",
        vec![
            entry("One", "one.xhtml", "a", vec![entry("One.1", "one.xhtml", "b", vec![])]),
            entry("Two", "two.xhtml", "", vec![]),
        ],
    );
    assert_eq!(nav.get_toc(), expected);
}

#[test]
fn entries_of_a_navigation_point_start_unresolved() {
    let toc = point("x", "f.xhtml#id", Some(vec![point("y", "f.xhtml#id2", None)])).get_toc();
    assert_eq!((toc.anchor.start_pos, toc.anchor.end_pos), (0, 0));
    assert_eq!((toc.children[0].anchor.start_pos, toc.children[0].anchor.end_pos), (0, 0));
}

#[test]
fn build_children_toc_of_nothing_is_empty() {
    assert!(NavPoint::build_children_toc(&None).is_empty());
}

#[test]
fn build_children_toc_lists_each_nested_point() {
    let nested = Some(vec![point("a", "a.xhtml", None), point("b", "b.xhtml#x", None)]);
    assert_eq!(
        NavPoint::build_children_toc(&nested),
        vec![entry("a", "a.xhtml", "", vec![]), entry("b", "b.xhtml", "x", vec![])]
    );
}

#[test]
fn navigation_document_gives_the_table_of_contents() {
    let ncx = Ncx {
        nav_map: NavMap {
            nav_point: vec![
                point("Chapter 1", "ch1.xhtml", None),
                point(
                    "Chapter 2",
                    "ch2.xhtml",
                    Some(vec![point("2.1", "ch2.xhtml#s1", None), point("2.2", "ch2.xhtml#s2", None)]),
                ),
            ],
        },
    };
    assert_eq!(ncx.table_of_contents(), two_chapters());
}

#[test]
fn empty_navigation_document_gives_no_entries() {
    assert!(Ncx::default().table_of_contents().is_empty());
}

#[test]
fn cloning_an_entry_copies_the_whole_subtree() {
    let tocs = two_chapters();
    assert_eq!(tocs[1].clone(), tocs[1]);
}
