//! The index of a package: the line range of every entry of the table of
//! contents, resolved against the anchors of the chapter files.

use crate::anchors::{
    chapter_paths, has_chapter, index_chapters, index_model, index_of, index_ordered,
    lemma_range_in_ordered, lemma_unknown_id_is_whole_file, locate, range_in, sources_model,
    ChapterAnchors, ChapterAnchorsModel, ChapterSource,
};
use crate::book::{
    entries_model, forest_model, Anchor, AnchorModel, Book, BookModel, FlatTocModel, Toc, TocModel,
};
use crate::content::selected_lines;
use crate::flatten::{flat_entry, flatten_first, flatten_forest, flatten_node};
use crate::text::{
    distinct_first, first_position, lemma_distinct_first, lemma_first_position, texts_model,
};
use vstd::prelude::*;

verus! {

/// Why an index could not be built.
#[derive(Debug, PartialEq, Eq)]
pub enum IndexError {
    /// An entry of the table of contents points at a file that was not
    /// supplied.
    MissingSource,
}

/// `toc` with every range, its own and those below it, resolved against
/// `index`. Labels, paths, identifiers and the shape of the tree stay.
pub open spec fn resolve_node(toc: TocModel, index: Seq<ChapterAnchorsModel>) -> TocModel
    decreases toc,
{
    let range = range_in(index, toc.path, toc.anchor.id);
    TocModel {
        title: toc.title,
        path: toc.path,
        anchor: AnchorModel { id: toc.anchor.id, start_pos: range.0, end_pos: range.1 },
        children: Seq::new(
            toc.children.len(),
            |i: int|
                if 0 <= i < toc.children.len() {
                    resolve_node(toc.children[i], index)
                } else {
                    TocModel::leaf()
                },
        ),
    }
}

/// Every entry of `tocs` resolved against `index`.
pub open spec fn resolve_forest(tocs: Seq<TocModel>, index: Seq<ChapterAnchorsModel>) -> Seq<
    TocModel,
> {
    Seq::new(tocs.len(), |i: int| resolve_node(tocs[i], index))
}

/// Whether `index` holds the file of `toc` and of every entry below it.
pub open spec fn covered_node(toc: TocModel, index: Seq<ChapterAnchorsModel>) -> bool
    decreases toc, 0nat,
{
    has_chapter(index, toc.path) && covered_first(toc.children, toc.children.len(), index)
}

/// Whether `index` holds every file that the first `n` of `tocs` refer to.
pub open spec fn covered_first(tocs: Seq<TocModel>, n: nat, index: Seq<ChapterAnchorsModel>) -> bool
    decreases tocs, n,
{
    if n == 0 || n > tocs.len() {
        true
    } else {
        covered_first(tocs, (n - 1) as nat, index) && covered_node(tocs[n - 1], index)
    }
}

/// Whether `index` holds every file that `tocs` refer to.
pub open spec fn covered_forest(tocs: Seq<TocModel>, index: Seq<ChapterAnchorsModel>) -> bool {
    covered_first(tocs, tocs.len(), index)
}

/// Coverage of the first `n` entries implies coverage of the first `m <= n`.
pub proof fn lemma_covered_first_prefix(
    tocs: Seq<TocModel>,
    m: nat,
    n: nat,
    index: Seq<ChapterAnchorsModel>,
)
    requires
        m <= n <= tocs.len(),
        covered_first(tocs, n, index),
    ensures
        covered_first(tocs, m, index),
    decreases n,
{
    if m < n {
        lemma_covered_first_prefix(tocs, m, (n - 1) as nat, index);
    }
}

impl BookModel {
    /// The book after its index was built against `index`: every range
    /// resolved, the flat entries made anew from the resolved tree, and the
    /// selection kept within them.
    pub open spec fn indexed(self, index: Seq<ChapterAnchorsModel>) -> BookModel {
        (BookModel { toc: resolve_forest(self.toc, index), ..self }).flattened()
    }
}

impl Book {
    /// Resolves the range of `toc` and, after it, of each entry below it. Fails
    /// exactly when some entry points at a file that `index` does not hold.
    pub fn process_toc_item(toc: &Toc, index: &Vec<ChapterAnchors>) -> (resolved: Result<
        Toc,
        IndexError,
    >)
        ensures
            resolved is Ok == covered_node(toc@, index_model(index@)),
            resolved matches Ok(entry) ==> entry@ == resolve_node(toc@, index_model(index@)),
        decreases toc,
    {
        let ghost chapters = index_model(index@);
        let range = match locate(index, &toc.path, &toc.anchor.id) {
            Some(range) => range,
            None => {
                return Err(IndexError::MissingSource);
            },
        };
        let ghost below = toc@.children;
        let mut children: Vec<Toc> = Vec::new();
        let mut i: usize = 0;
        while i < toc.children.len()
            invariant
                i <= toc.children.len(),
                children.len() == i,
                chapters == index_model(index@),
                below == toc@.children,
                below.len() == toc.children.len(),
                forall|k: int| 0 <= k < toc.children.len() ==> below[k] == toc.children@[k]@,
                covered_first(below, i as nat, chapters),
                forall|k: int| 0 <= k < i ==> children@[k]@ == resolve_node(below[k], chapters),
            decreases toc.children.len() - i,
        {
            match Book::process_toc_item(&toc.children[i], index) {
                Ok(child) => {
                    children.push(child);
                },
                Err(e) => {
                    proof {
                        if covered_first(below, below.len(), chapters) {
                            lemma_covered_first_prefix(below, (i + 1) as nat, below.len(), chapters);
                        }
                    }
                    return Err(e);
                },
            }
            i += 1;
        }
        let entry = Toc {
            title: toc.title.clone(),
            path: toc.path.clone(),
            anchor: Anchor { id: toc.anchor.id.clone(), start_pos: range.0, end_pos: range.1 },
            children,
        };
        assert(entry@.children =~= resolve_node(toc@, chapters).children);
        Ok(entry)
    }

    /// Resolves every entry of `tocs`. Fails exactly when some entry points at a
    /// file that `index` does not hold.
    fn resolve_all(tocs: &Vec<Toc>, index: &Vec<ChapterAnchors>) -> (resolved: Result<
        Vec<Toc>,
        IndexError,
    >)
        ensures
            resolved is Ok == covered_forest(forest_model(tocs@), index_model(index@)),
            resolved matches Ok(entries) ==> forest_model(entries@) == resolve_forest(
                forest_model(tocs@),
                index_model(index@),
            ),
    {
        let ghost chapters = index_model(index@);
        let ghost all = forest_model(tocs@);
        let mut entries: Vec<Toc> = Vec::new();
        let mut i: usize = 0;
        while i < tocs.len()
            invariant
                i <= tocs.len(),
                entries.len() == i,
                chapters == index_model(index@),
                all == forest_model(tocs@),
                covered_first(all, i as nat, chapters),
                forall|k: int| 0 <= k < i ==> entries@[k]@ == resolve_node(all[k], chapters),
            decreases tocs.len() - i,
        {
            match Book::process_toc_item(&tocs[i], index) {
                Ok(entry) => {
                    entries.push(entry);
                },
                Err(e) => {
                    proof {
                        if covered_forest(all, chapters) {
                            lemma_covered_first_prefix(all, (i + 1) as nat, all.len(), chapters);
                        }
                    }
                    return Err(e);
                },
            }
            i += 1;
        }
        assert(forest_model(entries@) =~= resolve_forest(all, chapters));
        Ok(entries)
    }

    /// Scans `sources` for anchors and resolves the range of every entry of
    /// the tree against them. Fails, and leaves the book as it was, exactly
    /// when some entry points at a file that is not among `sources`.
    pub fn generate_anchor_positions(&mut self, sources: &Vec<ChapterSource>) -> (done: Result<
        (),
        IndexError,
    >)
        ensures
            done is Ok == covered_forest(old(self)@.toc, index_of(sources_model(sources@))),
            done is Ok ==> final(self)@ == (BookModel {
                toc: resolve_forest(old(self)@.toc, index_of(sources_model(sources@))),
                ..old(self)@
            }),
            done is Err ==> final(self)@ == old(self)@,
            final(self).wf() == old(self).wf(),
    {
        let index = index_chapters(sources);
        match Book::resolve_all(&self.toc, &index) {
            Ok(resolved) => {
                self.toc = resolved;
                Ok(())
            },
            Err(e) => Err(e),
        }
    }

    /// Builds the whole index anew: resolves every range against `sources`
    /// and flattens the resolved tree. Fails, and leaves the book as it was,
    /// exactly when some entry points at a file that is not among `sources`.
    pub fn reindex(&mut self, sources: &Vec<ChapterSource>) -> (done: Result<(), IndexError>)
        ensures
            done is Ok == covered_forest(old(self)@.toc, index_of(sources_model(sources@))),
            done is Ok ==> final(self)@ == old(self)@.indexed(index_of(sources_model(sources@))),
            done is Ok ==> final(self).wf(),
            done is Err ==> final(self)@ == old(self)@,
    {
        match self.generate_anchor_positions(sources) {
            Ok(()) => {
                self.flatten_toc();
                Ok(())
            },
            Err(e) => Err(e),
        }
    }


    /// The files that have to be read before the index can be built: those
    /// that the entries of the tree point at, each once, in the pre-order of
    /// the first entry that points at it.
    pub fn referenced_paths(&self) -> (paths: Vec<String>)
        ensures
            texts_model(paths@) == referenced(self@.toc),
    {
        let flat = Book::flatten_all(&self.toc);
        let ghost all = entry_paths(entries_model(flat@));
        let mut paths: Vec<String> = Vec::new();
        let mut i: usize = 0;
        assert(texts_model(paths@) =~= Seq::empty());
        while i < flat.len()
            invariant
                i <= flat.len(),
                all == entry_paths(entries_model(flat@)),
                texts_model(paths@) == distinct_first(all, i as nat),
            decreases flat.len() - i,
        {
            let ghost before = texts_model(paths@);
            let mut known = false;
            let mut k: usize = 0;
            while k < paths.len()
                invariant
                    k <= paths.len(),
                    i < flat.len(),
                    before == texts_model(paths@),
                    all == entry_paths(entries_model(flat@)),
                    known ==> before.contains(all[i as int]),
                    !known ==> forall|j: int| 0 <= j < k ==> before[j] != all[i as int],
                decreases paths.len() - k,
            {
                if paths[k] == flat[i].path {
                    assert(before[k as int] == all[i as int]);
                    known = true;
                }
                k += 1;
            }
            if !known {
                paths.push(flat[i].path.clone());
                assert(texts_model(paths@) =~= before.push(all[i as int]));
            }
            i += 1;
        }
        paths
    }
}

/// Resolution changes ranges only: which files the entries point at, and so
/// whether an index covers them, stays as it was.
pub proof fn lemma_resolve_keeps_coverage(
    toc: TocModel,
    index: Seq<ChapterAnchorsModel>,
    other: Seq<ChapterAnchorsModel>,
)
    ensures
        covered_node(resolve_node(toc, index), other) == covered_node(toc, other),
    decreases toc, 0nat,
{
    lemma_resolve_keeps_coverage_first(toc.children, toc.children.len(), index, other);
    assert(resolve_node(toc, index).children =~= resolve_forest(toc.children, index));
}

/// What `lemma_resolve_keeps_coverage` says, of the first `n` entries.
pub proof fn lemma_resolve_keeps_coverage_first(
    tocs: Seq<TocModel>,
    n: nat,
    index: Seq<ChapterAnchorsModel>,
    other: Seq<ChapterAnchorsModel>,
)
    ensures
        covered_first(resolve_forest(tocs, index), n, other) == covered_first(tocs, n, other),
    decreases tocs, n,
{
    if n == 0 || n > tocs.len() {
    } else {
        lemma_resolve_keeps_coverage_first(tocs, (n - 1) as nat, index, other);
        lemma_resolve_keeps_coverage(tocs[n - 1], index, other);
    }
}

/// Resolving a resolved entry against the same index changes nothing.
pub proof fn lemma_resolve_node_stable(toc: TocModel, index: Seq<ChapterAnchorsModel>)
    ensures
        resolve_node(resolve_node(toc, index), index) == resolve_node(toc, index),
    decreases toc,
{
    let once = resolve_node(toc, index);
    let twice = resolve_node(once, index);
    assert forall|i: int| 0 <= i < toc.children.len() implies twice.children[i]
        == once.children[i] by {
        lemma_resolve_node_stable(toc.children[i], index);
    }
    assert(twice.children =~= once.children);
}

/// Resolving a resolved table of contents against the same index changes
/// nothing.
pub proof fn lemma_resolve_forest_stable(tocs: Seq<TocModel>, index: Seq<ChapterAnchorsModel>)
    ensures
        resolve_forest(resolve_forest(tocs, index), index) == resolve_forest(tocs, index),
{
    let once = resolve_forest(tocs, index);
    assert forall|i: int| 0 <= i < tocs.len() implies resolve_forest(once, index)[i]
        == once[i] by {
        lemma_resolve_node_stable(tocs[i], index);
    }
    assert(resolve_forest(once, index) =~= once);
}

/// Building the index a second time from the same files succeeds if it did
/// the first time, and leaves the book exactly as the first time did.
pub proof fn lemma_reindex_is_stable(book: BookModel, index: Seq<ChapterAnchorsModel>)
    ensures
        covered_forest(book.indexed(index).toc, index) == covered_forest(book.toc, index),
        book.indexed(index).indexed(index) == book.indexed(index),
        book.indexed(index).selection_in_range(),
{
    lemma_resolve_keeps_coverage_first(book.toc, book.toc.len(), index, index);
    lemma_resolve_forest_stable(book.toc, index);
}

/// No flat entry has a range that ends before it starts.
pub open spec fn ranges_ordered(flat: Seq<FlatTocModel>) -> bool {
    forall|k: int|
        0 <= k < flat.len() ==> (#[trigger] flat[k]).anchor.start_pos <= flat[k].anchor.end_pos
}

/// After resolution against an ordered index, no entry of the tree has a
/// range that ends before it starts.
pub proof fn lemma_resolved_node_ordered(toc: TocModel, index: Seq<ChapterAnchorsModel>)
    requires
        index_ordered(index),
    ensures
        ranges_ordered(flatten_node(resolve_node(toc, index))),
    decreases toc, 0nat,
{
    let resolved = resolve_node(toc, index);
    lemma_range_in_ordered(index, toc.path, toc.anchor.id);
    lemma_resolved_first_ordered(toc.children, toc.children.len(), index);
    assert(resolved.children =~= resolve_forest(toc.children, index));
}

/// What `lemma_resolved_node_ordered` says, of the first `n` entries.
pub proof fn lemma_resolved_first_ordered(
    tocs: Seq<TocModel>,
    n: nat,
    index: Seq<ChapterAnchorsModel>,
)
    requires
        index_ordered(index),
    ensures
        ranges_ordered(flatten_first(resolve_forest(tocs, index), n)),
    decreases tocs, n,
{
    if n == 0 || n > tocs.len() {
    } else {
        lemma_resolved_first_ordered(tocs, (n - 1) as nat, index);
        lemma_resolved_node_ordered(tocs[n - 1], index);
    }
}

/// After its index was built from files, a book has no flat entry whose
/// range ends before it starts.
pub proof fn lemma_indexed_ranges_ordered(book: BookModel, index: Seq<ChapterAnchorsModel>)
    requires
        index_ordered(index),
    ensures
        ranges_ordered(book.indexed(index).flat_toc),
{
    lemma_resolved_first_ordered(book.toc, book.toc.len(), index);
}

/// An entry whose fragment identifier its file does not declare resolves to
/// `(0, 0)`, and that range stands for every line of the file.
pub proof fn lemma_unknown_fragment_reads_whole_file(
    toc: TocModel,
    index: Seq<ChapterAnchorsModel>,
    lines: Seq<Seq<char>>,
)
    requires
        ({
            let k = first_position(chapter_paths(index), toc.path);
            k < index.len() ==> forall|i: int|
                0 <= i < index[k].records.len() ==> index[k].records[i].id != toc.anchor.id
        }),
    ensures
        resolve_node(toc, index).anchor.start_pos == 0,
        resolve_node(toc, index).anchor.end_pos == 0,
        selected_lines(
            lines,
            resolve_node(toc, index).anchor.start_pos,
            resolve_node(toc, index).anchor.end_pos,
        ) == lines,
{
    lemma_first_position(chapter_paths(index), toc.path);
    let k = first_position(chapter_paths(index), toc.path);
    if k < index.len() {
        lemma_unknown_id_is_whole_file(index[k].records, index[k].line_count, toc.anchor.id);
    }
}

/// The paths of `flat`, in order.
pub open spec fn entry_paths(flat: Seq<FlatTocModel>) -> Seq<Seq<char>> {
    Seq::new(flat.len(), |i: int| flat[i].path)
}

/// The files that the entries of `tocs` point at, each once, in the
/// pre-order of the first entry that points at it.
pub open spec fn referenced(tocs: Seq<TocModel>) -> Seq<Seq<char>> {
    let paths = entry_paths(flatten_forest(tocs));
    distinct_first(paths, paths.len())
}

/// An index covers an entry and everything below it exactly when it holds
/// the file of every flat entry that the entry flattens to.
pub proof fn lemma_covered_node_by_paths(toc: TocModel, index: Seq<ChapterAnchorsModel>)
    ensures
        covered_node(toc, index) <==> forall|k: int|
            0 <= k < flatten_node(toc).len() ==> has_chapter(
                index,
                (#[trigger] flatten_node(toc)[k]).path,
            ),
    decreases toc, 0nat,
{
    lemma_covered_first_by_paths(toc.children, toc.children.len(), index);
    let flat = flatten_node(toc);
    let below = flatten_first(toc.children, toc.children.len());
    assert(flat[0] == flat_entry(toc));
    if covered_node(toc, index) {
        assert forall|k: int| 0 <= k < flat.len() implies has_chapter(
            index,
            (#[trigger] flat[k]).path,
        ) by {
            if k > 0 {
                assert(flat[k] == below[k - 1]);
            }
        }
    }
    if forall|k: int| 0 <= k < flat.len() ==> has_chapter(index, (#[trigger] flat[k]).path) {
        assert forall|k: int| 0 <= k < below.len() implies has_chapter(
            index,
            (#[trigger] below[k]).path,
        ) by {
            assert(flat[k + 1] == below[k]);
        }
    }
}

/// What `lemma_covered_node_by_paths` says, of the first `n` entries.
pub proof fn lemma_covered_first_by_paths(
    tocs: Seq<TocModel>,
    n: nat,
    index: Seq<ChapterAnchorsModel>,
)
    ensures
        covered_first(tocs, n, index) <==> forall|k: int|
            0 <= k < flatten_first(tocs, n).len() ==> has_chapter(
                index,
                (#[trigger] flatten_first(tocs, n)[k]).path,
            ),
    decreases tocs, n,
{
    if n == 0 || n > tocs.len() {
    } else {
        lemma_covered_first_by_paths(tocs, (n - 1) as nat, index);
        lemma_covered_node_by_paths(tocs[n - 1], index);
        let front = flatten_first(tocs, (n - 1) as nat);
        let last = flatten_node(tocs[n - 1]);
        let flat = flatten_first(tocs, n);
        assert(flat == front + last);
        if covered_first(tocs, n, index) {
            assert forall|k: int| 0 <= k < flat.len() implies has_chapter(
                index,
                (#[trigger] flat[k]).path,
            ) by {
                if k < front.len() {
                    assert(flat[k] == front[k]);
                } else {
                    assert(flat[k] == last[k - front.len()]);
                }
            }
        }
        if forall|k: int| 0 <= k < flat.len() ==> has_chapter(index, (#[trigger] flat[k]).path) {
            assert forall|k: int| 0 <= k < front.len() implies has_chapter(
                index,
                (#[trigger] front[k]).path,
            ) by {
                assert(flat[k] == front[k]);
            }
            assert forall|k: int| 0 <= k < last.len() implies has_chapter(
                index,
                (#[trigger] last[k]).path,
            ) by {
                assert(flat[k + front.len()] == last[k]);
            }
        }
    }
}

/// An index that holds every referenced file covers the table of contents:
/// with those files at hand, building the index cannot fail.
pub proof fn lemma_referenced_paths_suffice(tocs: Seq<TocModel>, index: Seq<ChapterAnchorsModel>)
    requires
        forall|i: int|
            0 <= i < referenced(tocs).len() ==> has_chapter(index, #[trigger] referenced(tocs)[i]),
    ensures
        covered_forest(tocs, index),
{
    let flat = flatten_forest(tocs);
    let paths = entry_paths(flat);
    lemma_distinct_first(paths, paths.len());
    lemma_covered_first_by_paths(tocs, tocs.len(), index);
    assert forall|k: int| 0 <= k < flat.len() implies has_chapter(
        index,
        (#[trigger] flat[k]).path,
    ) by {
        assert(paths[k] == flat[k].path);
        assert(paths.take(paths.len() as int) =~= paths);
        assert(paths.contains(paths[k]));
        assert(referenced(tocs).contains(paths[k]));
        let i = choose|i: int| 0 <= i < referenced(tocs).len() && referenced(tocs)[i] == paths[k];
        assert(has_chapter(index, referenced(tocs)[i]));
    }
}

} // verus!
