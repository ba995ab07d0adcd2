//! The rules of loading a package: what counts as a package, what book its
//! documents describe, and when its index has to be built.

use crate::book::{Book, BookModel};
use crate::opf::OpfMetaData;
use crate::text::same_text;
use crate::toc::{tocs_of, Ncx};
use vstd::prelude::*;
use vstd::string::StringExecFns;

verus! {

/// What the type marker of a package holds.
pub const EPUB_MIME_TYPE: &'static str = "application/epub+zip";

/// The text shown before anything was selected.
pub const NO_TEXT: &'static str = "empty";

/// Whether `content`, the text of a type marker, names a package. Nothing
/// may stand before or after the type.
pub fn is_epub_mimetype(content: &str) -> (b: bool)
    ensures
        b == (content@ == EPUB_MIME_TYPE@),
{
    same_text(content, EPUB_MIME_TYPE)
}

/// Whether something that is kept between runs, the unpacked package or its
/// index, has to be made anew: always when a fresh index is asked for, and
/// else when none was kept.
pub fn must_rebuild(kept: bool, reindex: bool) -> (rebuild: bool)
    ensures
        rebuild == (reindex || !kept),
{
    reindex || !kept
}

/// The book that the metadata and the navigation document of a package
/// describe.
pub open spec fn described_book(
    path: Seq<char>,
    metadata: OpfMetaData,
    points: Seq<crate::toc::NavPointModel>,
) -> BookModel {
    BookModel {
        path,
        title: metadata.title@,
        author: metadata.creator@,
        language: metadata.language@,
        date: metadata.date@,
        toc: tocs_of(points),
        selected: 1,
        context: NO_TEXT@,
        flat_toc: Seq::empty(),
    }
}

/// Puts together the book of the package unpacked at `path`: its metadata,
/// and the table of contents of its navigation document, not yet resolved or
/// flattened.
pub fn assemble(path: String, metadata: &OpfMetaData, ncx: &Ncx) -> (book: Book)
    ensures
        book@ == described_book(path@, *metadata, ncx@),
        book.wf(),
{
    let toc = ncx.table_of_contents();
    let book = Book {
        path,
        title: metadata.title.clone(),
        toc,
        language: metadata.language.clone(),
        date: metadata.date.clone(),
        author: metadata.creator.clone(),
        selected: 1,
        flat_toc: Vec::new(),
        context: String::from_str(NO_TEXT),
    };
    assert(book@.flat_toc =~= Seq::empty());
    book
}

} // verus!
