//! The flattening of the table of contents: every entry of the tree, parent
//! before children, in one list.

use crate::book::{
    entries_model, forest_model, Book, BookModel, FlatToc, FlatTocModel, Toc, TocModel,
};
use vstd::prelude::*;

verus! {

/// The entry `toc` without its children.
pub open spec fn flat_entry(toc: TocModel) -> FlatTocModel {
    FlatTocModel { title: toc.title, path: toc.path, anchor: toc.anchor }
}

/// `toc` and everything below it in pre-order: the entry itself, then the
/// flattening of each child in turn.
pub open spec fn flatten_node(toc: TocModel) -> Seq<FlatTocModel>
    decreases toc, 0nat,
{
    seq![flat_entry(toc)] + flatten_first(toc.children, toc.children.len())
}

/// The flattenings of the first `n` of `tocs`, one after the other.
pub open spec fn flatten_first(tocs: Seq<TocModel>, n: nat) -> Seq<FlatTocModel>
    decreases tocs, n,
{
    if n == 0 || n > tocs.len() {
        Seq::empty()
    } else {
        flatten_first(tocs, (n - 1) as nat) + flatten_node(tocs[n - 1])
    }
}

/// The pre-order flattening of a whole table of contents.
pub open spec fn flatten_forest(tocs: Seq<TocModel>) -> Seq<FlatTocModel> {
    flatten_first(tocs, tocs.len())
}

/// The number of entries in `toc`, itself included.
pub open spec fn node_count(toc: TocModel) -> nat
    decreases toc, 0nat,
{
    1 + count_first(toc.children, toc.children.len())
}

/// The number of entries in the first `n` of `tocs`.
pub open spec fn count_first(tocs: Seq<TocModel>, n: nat) -> nat
    decreases tocs, n,
{
    if n == 0 || n > tocs.len() {
        0
    } else {
        count_first(tocs, (n - 1) as nat) + node_count(tocs[n - 1])
    }
}

/// The number of entries in a whole table of contents.
pub open spec fn count_forest(tocs: Seq<TocModel>) -> nat {
    count_first(tocs, tocs.len())
}

/// Flattening an entry yields one flat entry per node, the entry itself
/// first.
pub proof fn lemma_flatten_node_len(toc: TocModel)
    ensures
        flatten_node(toc).len() == node_count(toc),
        flatten_node(toc)[0] == flat_entry(toc),
    decreases toc, 0nat,
{
    lemma_flatten_first_len(toc.children, toc.children.len());
}

/// Flattening the first `n` entries yields one flat entry per node.
pub proof fn lemma_flatten_first_len(tocs: Seq<TocModel>, n: nat)
    ensures
        flatten_first(tocs, n).len() == count_first(tocs, n),
    decreases tocs, n,
{
    if n == 0 || n > tocs.len() {
    } else {
        lemma_flatten_first_len(tocs, (n - 1) as nat);
        lemma_flatten_node_len(tocs[n - 1]);
    }
}

/// A table of contents with N entries in all flattens to exactly N flat
/// entries.
pub proof fn lemma_flatten_forest_len(tocs: Seq<TocModel>)
    ensures
        flatten_forest(tocs).len() == count_forest(tocs),
{
    lemma_flatten_first_len(tocs, tocs.len());
}

impl BookModel {
    /// The book after its tree was flattened: the flat entries made anew,
    /// and the selection kept, unless there are entries and it names none
    /// of them: then it is the first.
    pub open spec fn flattened(self) -> BookModel {
        BookModel {
            flat_toc: flatten_forest(self.toc),
            selected: self.selection_among(flatten_forest(self.toc).len()),
            ..self
        }
    }
}

/// Flattening a book whose tree has not changed since it was flattened
/// changes nothing, and a flattened book has its selection in range.
pub proof fn lemma_flatten_is_stable(book: BookModel)
    ensures
        book.flattened().flattened() == book.flattened(),
        book.flattened().selection_in_range(),
{
}

impl Book {
    /// Appends `toc` and everything below it, in pre-order, to `flat_tocs`.
    pub fn flatten_toc_recursive(toc: &Toc, flat_tocs: &mut Vec<FlatToc>)
        ensures
            entries_model(final(flat_tocs)@) == entries_model(old(flat_tocs)@) + flatten_node(toc@),
        decreases toc,
    {
        let ghost before = entries_model(flat_tocs@);
        flat_tocs.push(
            FlatToc {
                title: toc.title.clone(),
                path: toc.path.clone(),
                anchor: toc.anchor.clone(),
            },
        );
        assert(entries_model(flat_tocs@) =~= before + seq![flat_entry(toc@)]);
        let ghost below = toc@.children;
        let mut i: usize = 0;
        while i < toc.children.len()
            invariant
                i <= toc.children.len(),
                below == toc@.children,
                below.len() == toc.children.len(),
                forall|k: int| 0 <= k < toc.children.len() ==> below[k] == toc.children@[k]@,
                entries_model(flat_tocs@) == before + seq![flat_entry(toc@)] + flatten_first(
                    below,
                    i as nat,
                ),
            decreases toc.children.len() - i,
        {
            Book::flatten_toc_recursive(&toc.children[i], flat_tocs);
            i += 1;
        }
    }

    /// The pre-order flattening of `tocs`.
    pub(crate) fn flatten_all(tocs: &Vec<Toc>) -> (flat: Vec<FlatToc>)
        ensures
            entries_model(flat@) == flatten_forest(forest_model(tocs@)),
    {
        let mut flat: Vec<FlatToc> = Vec::new();
        let ghost all = forest_model(tocs@);
        let mut i: usize = 0;
        assert(entries_model(flat@) =~= Seq::empty());
        while i < tocs.len()
            invariant
                i <= tocs.len(),
                all == forest_model(tocs@),
                entries_model(flat@) == flatten_first(all, i as nat),
            decreases tocs.len() - i,
        {
            Book::flatten_toc_recursive(&tocs[i], &mut flat);
            i += 1;
        }
        flat
    }

    /// Replaces the flat entries by the pre-order flattening of the tree.
    /// The selection stays, unless there are entries and it names none of
    /// them: then it goes back to the first.
    pub fn flatten_toc(&mut self)
        ensures
            final(self)@ == old(self)@.flattened(),
            final(self).wf(),
    {
        let flat = Book::flatten_all(&self.toc);
        if flat.len() > 0 && self.selected >= flat.len() {
            self.selected = 0;
        }
        self.flat_toc = flat;
    }
}

} // verus!
