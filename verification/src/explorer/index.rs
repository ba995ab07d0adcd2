//! The record that is kept beside an unpacked package, so that a later load
//! need not build the index again.

use crate::book::Book;
use vstd::prelude::*;

verus! {

/// What is persisted for one package: where the reader was, and the book
/// with its resolved table of contents.
#[derive(Debug, PartialEq, Eq)]
pub struct Explorer {
    /// The entry that was selected when the reader left.
    pub selected: usize,
    /// How far the text was scrolled when the reader left.
    pub position: usize,
    /// The book with its index.
    pub book: Book,
}

impl Explorer {
    /// The record of a freshly indexed book: nothing selected or scrolled
    /// yet.
    pub fn new(book: Book) -> (record: Explorer)
        ensures
            record.selected == 0,
            record.position == 0,
            record.book == book,
    {
        Explorer { selected: 0, position: 0, book }
    }
}

impl Default for Explorer {
    fn default() -> (record: Explorer)
        ensures
            record.selected == 0,
            record.position == 0,
            record.book@ == crate::book::BookModel::blank(),
    {
        Explorer { selected: 0, position: 0, book: Book::default() }
    }
}

} // verus!
