//! The navigable model of a package: its table of contents as a tree, the
//! flattened view of that tree, the selection and the text shown for it.

use crate::content::{extract_content, join_lines, selected_lines};
use crate::htmltotext::{html_to_text, plain_text};
use crate::text::texts_model;
use vstd::prelude::*;

verus! {

/// A fragment identifier with the line range it was resolved to. The range
/// `(0, 0)` stands for the whole file.
#[derive(Debug, Default, PartialEq, Eq)]
pub struct Anchor {
    pub id: String,
    pub start_pos: usize,
    pub end_pos: usize,
}

/// One entry of the table of contents, with the entries nested below it.
#[derive(Debug, Default, PartialEq, Eq)]
pub struct Toc {
    pub title: String,
    pub path: String,
    pub anchor: Anchor,
    pub children: Vec<Toc>,
}

/// One entry of the table of contents without its children.
#[derive(Debug, Default, PartialEq, Eq)]
pub struct FlatToc {
    pub title: String,
    pub path: String,
    pub anchor: Anchor,
}

/// The value of an `Anchor`.
pub struct AnchorModel {
    pub id: Seq<char>,
    pub start_pos: nat,
    pub end_pos: nat,
}

/// The value of a `Toc`: an entry with the entries below it.
pub struct TocModel {
    pub title: Seq<char>,
    pub path: Seq<char>,
    pub anchor: AnchorModel,
    pub children: Seq<TocModel>,
}

/// The value of a `FlatToc`.
pub struct FlatTocModel {
    pub title: Seq<char>,
    pub path: Seq<char>,
    pub anchor: AnchorModel,
}

impl TocModel {
    /// An entry without text, range or children.
    pub open spec fn leaf() -> TocModel {
        TocModel {
            title: Seq::empty(),
            path: Seq::empty(),
            anchor: AnchorModel { id: Seq::empty(), start_pos: 0, end_pos: 0 },
            children: Seq::empty(),
        }
    }
}

impl View for Anchor {
    type V = AnchorModel;

    open spec fn view(&self) -> AnchorModel {
        AnchorModel { id: self.id@, start_pos: self.start_pos as nat, end_pos: self.end_pos as nat }
    }
}

impl View for FlatToc {
    type V = FlatTocModel;

    open spec fn view(&self) -> FlatTocModel {
        FlatTocModel { title: self.title@, path: self.path@, anchor: self.anchor@ }
    }
}

/// The value of one entry and of everything below it.
pub open spec fn toc_model(toc: Toc) -> TocModel
    decreases toc,
{
    TocModel {
        title: toc.title@,
        path: toc.path@,
        anchor: toc.anchor@,
        children: Seq::new(
            toc.children@.len(),
            |i: int|
                if 0 <= i < toc.children@.len() {
                    toc_model(toc.children@[i])
                } else {
                    TocModel::leaf()
                },
        ),
    }
}

impl View for Toc {
    type V = TocModel;

    open spec fn view(&self) -> TocModel {
        toc_model(*self)
    }
}

impl Clone for Anchor {
    fn clone(&self) -> (copy: Anchor)
        ensures
            copy@ == self@,
    {
        Anchor { id: self.id.clone(), start_pos: self.start_pos, end_pos: self.end_pos }
    }
}

impl Clone for FlatToc {
    fn clone(&self) -> (copy: FlatToc)
        ensures
            copy@ == self@,
    {
        FlatToc { title: self.title.clone(), path: self.path.clone(), anchor: self.anchor.clone() }
    }
}

impl Clone for Toc {
    fn clone(&self) -> (copy: Toc)
        ensures
            copy@ == self@,
        decreases self,
    {
        let mut children: Vec<Toc> = Vec::new();
        let mut i: usize = 0;
        while i < self.children.len()
            invariant
                i <= self.children.len(),
                children.len() == i,
                forall|k: int| 0 <= k < i ==> children@[k]@ == self.children@[k]@,
            decreases self.children.len() - i,
        {
            children.push(self.children[i].clone());
            i += 1;
        }
        let copy = Toc {
            title: self.title.clone(),
            path: self.path.clone(),
            anchor: self.anchor.clone(),
            children,
        };
        assert(copy@.children.len() == self@.children.len());
        assert forall|k: int| 0 <= k < copy@.children.len() implies copy@.children[k]
            == self@.children[k] by {
            assert(copy@.children[k] == copy.children@[k]@);
            assert(self@.children[k] == self.children@[k]@);
        }
        assert(copy@.children =~= self@.children);
        copy
    }
}

/// The values of a sequence of entries.
pub open spec fn forest_model(tocs: Seq<Toc>) -> Seq<TocModel> {
    Seq::new(tocs.len(), |i: int| tocs[i]@)
}

/// The values of a sequence of flat entries.
pub open spec fn entries_model(entries: Seq<FlatToc>) -> Seq<FlatTocModel> {
    Seq::new(entries.len(), |i: int| entries[i]@)
}

/// A loaded package: where it lies, what it is, its table of contents as a
/// tree and flattened, the selected flat entry and the text shown for it.
#[derive(Debug, PartialEq, Eq)]
pub struct Book {
    pub path: String,
    pub title: String,
    pub author: String,
    pub language: String,
    pub date: String,
    pub toc: Vec<Toc>,
    pub selected: usize,
    pub context: String,
    pub flat_toc: Vec<FlatToc>,
}

/// The value of a `Book`.
pub struct BookModel {
    pub path: Seq<char>,
    pub title: Seq<char>,
    pub author: Seq<char>,
    pub language: Seq<char>,
    pub date: Seq<char>,
    pub toc: Seq<TocModel>,
    pub selected: nat,
    pub context: Seq<char>,
    pub flat_toc: Seq<FlatTocModel>,
}

impl View for Book {
    type V = BookModel;

    open spec fn view(&self) -> BookModel {
        BookModel {
            path: self.path@,
            title: self.title@,
            author: self.author@,
            language: self.language@,
            date: self.date@,
            toc: forest_model(self.toc@),
            selected: self.selected as nat,
            context: self.context@,
            flat_toc: entries_model(self.flat_toc@),
        }
    }
}

impl BookModel {
    /// A book without text, entries or selection.
    pub open spec fn blank() -> BookModel {
        BookModel {
            path: Seq::empty(),
            title: Seq::empty(),
            author: Seq::empty(),
            language: Seq::empty(),
            date: Seq::empty(),
            toc: Seq::empty(),
            selected: 0,
            context: Seq::empty(),
            flat_toc: Seq::empty(),
        }
    }

    /// Whether the selection names a flat entry, as it must whenever there
    /// is one.
    pub open spec fn selection_in_range(self) -> bool {
        self.flat_toc.len() > 0 ==> self.selected < self.flat_toc.len()
    }

    /// The selection after the flat entries were replaced by `count` new
    /// ones: where it was, unless there are entries and it names none of
    /// them; then the first.
    pub open spec fn selection_among(self, count: nat) -> nat {
        if count == 0 || self.selected < count {
            self.selected
        } else {
            0
        }
    }

    /// The text to show for the selection, given the lines of its file: the
    /// plain text of the lines that its range stands for. `None` where the
    /// selection names no entry or the file is not at hand.
    pub open spec fn text_for_selection(self, lines: Option<Seq<Seq<char>>>) -> Option<Seq<char>> {
        if self.selected < self.flat_toc.len() && lines is Some {
            let anchor = self.flat_toc[self.selected as int].anchor;
            Some(plain_text(join_lines(selected_lines(lines->0, anchor.start_pos, anchor.end_pos))))
        } else {
            None
        }
    }
}

/// The lines of a file as a value, where a file is at hand.
pub open spec fn optional_lines(lines: Option<&Vec<String>>) -> Option<Seq<Seq<char>>> {
    match lines {
        Some(lines) => Some(texts_model(lines@)),
        None => None,
    }
}

impl Book {
    /// Whether the selection names a flat entry, as it must whenever there
    /// is one.
    pub open spec fn wf(&self) -> bool {
        self@.selection_in_range()
    }

    /// Moves the selection to `index` if that names a flat entry, and says
    /// whether it did.
    pub fn select(&mut self, index: usize) -> (moved: bool)
        ensures
            moved == (index < old(self).flat_toc.len()),
            final(self)@ == (BookModel {
                selected: if moved {
                    index as nat
                } else {
                    old(self)@.selected
                },
                ..old(self)@
            }),
            old(self).wf() ==> final(self).wf(),
    {
        if index < self.flat_toc.len() {
            self.selected = index;
            true
        } else {
            false
        }
    }

    /// Moves the selection one entry down, unless it is on the last entry or
    /// beyond.
    pub fn select_next(&mut self)
        ensures
            final(self)@ == (BookModel {
                selected: if old(self)@.selected + 1 < old(self)@.flat_toc.len() {
                    old(self)@.selected + 1
                } else {
                    old(self)@.selected
                },
                ..old(self)@
            }),
            old(self).wf() ==> final(self).wf(),
    {
        if self.selected < self.flat_toc.len() && self.selected + 1 < self.flat_toc.len() {
            self.selected = self.selected + 1;
        }
    }

    /// Moves the selection one entry up, unless it is on the first entry.
    pub fn select_previous(&mut self)
        ensures
            final(self)@ == (BookModel {
                selected: if old(self)@.selected > 0 {
                    (old(self)@.selected - 1) as nat
                } else {
                    0
                },
                ..old(self)@
            }),
            old(self).wf() ==> final(self).wf(),
    {
        if self.selected > 0 {
            self.selected = self.selected - 1;
        }
    }

    /// The selected flat entry, if the selection names one.
    pub fn selected_entry(&self) -> (entry: Option<&FlatToc>)
        ensures
            entry is Some == (self.selected < self.flat_toc.len()),
            entry matches Some(e) ==> *e == self.flat_toc@[self.selected as int],
    {
        if self.selected < self.flat_toc.len() {
            Some(&self.flat_toc[self.selected])
        } else {
            None
        }
    }

    /// Shows the text of the selected entry, given the lines of its file or
    /// `None` where that file does not exist. The text shown so far stays
    /// where the selection names no entry or the file does not exist.
    pub fn read_and_show_text(&mut self, lines: Option<&Vec<String>>)
        ensures
            final(self)@ == (BookModel {
                context: match old(self)@.text_for_selection(optional_lines(lines)) {
                    Some(text) => text,
                    None => old(self)@.context,
                },
                ..old(self)@
            }),
    {
        if self.selected >= self.flat_toc.len() {
            return ;
        }
        match lines {
            Some(lines) => {
                let anchor = &self.flat_toc[self.selected].anchor;
                let content = extract_content(lines, anchor.start_pos, anchor.end_pos);
                self.context = html_to_text(content.as_str());
            },
            None => {},
        }
    }
}

impl Default for Book {
    fn default() -> (book: Book)
        ensures
            book@ == BookModel::blank(),
            book.wf(),
    {
        let book = Book {
            path: String::new(),
            title: String::new(),
            author: String::new(),
            language: String::new(),
            date: String::new(),
            toc: Vec::new(),
            selected: 0,
            context: String::new(),
            flat_toc: Vec::new(),
        };
        assert(book@.toc =~= Seq::empty());
        assert(book@.flat_toc =~= Seq::empty());
        book
    }
}

impl Clone for Book {
    fn clone(&self) -> (copy: Book)
        ensures
            copy@ == self@,
    {
        let mut toc: Vec<Toc> = Vec::new();
        let mut i: usize = 0;
        while i < self.toc.len()
            invariant
                i <= self.toc.len(),
                toc.len() == i,
                forall|k: int| 0 <= k < i ==> toc@[k]@ == self.toc@[k]@,
            decreases self.toc.len() - i,
        {
            toc.push(self.toc[i].clone());
            i += 1;
        }
        let mut flat_toc: Vec<FlatToc> = Vec::new();
        let mut j: usize = 0;
        while j < self.flat_toc.len()
            invariant
                j <= self.flat_toc.len(),
                flat_toc.len() == j,
                forall|k: int| 0 <= k < j ==> flat_toc@[k]@ == self.flat_toc@[k]@,
            decreases self.flat_toc.len() - j,
        {
            flat_toc.push(self.flat_toc[j].clone());
            j += 1;
        }
        let copy = Book {
            path: self.path.clone(),
            title: self.title.clone(),
            author: self.author.clone(),
            language: self.language.clone(),
            date: self.date.clone(),
            toc,
            selected: self.selected,
            context: self.context.clone(),
            flat_toc,
        };
        assert(copy@.toc =~= self@.toc);
        assert(copy@.flat_toc =~= self@.flat_toc);
        copy
    }
}

/// Where a part of a file starts.
#[derive(Debug, Default, PartialEq, Eq)]
pub struct TocPosition {
    pub start: usize,
    pub path: String,
}

} // verus!
