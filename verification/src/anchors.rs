//! Anchors inside chapter files: where each identifier is declared, and which
//! line range a fragment identifier therefore stands for.

use crate::text::{
    first_position, lemma_first_position, lemma_first_position_unique, texts_model,
};
use regex::Regex;
use vstd::prelude::*;
use vstd::string::StrSliceExecFns;

verus! {

/// The pattern of an identifier attribute; its first group is the identifier.
pub const ID_PATTERN: &'static str = "id=\"([^\"]*)\"";

/// What the first group holds in each of the successive matches of the
/// regular expression `pattern` in `text`, which do not overlap, from left to
/// right; `None` for a match in which the group took no part. Empty where
/// `pattern` is no regular expression or does not match.
pub uninterp spec fn all_captures(pattern: Seq<char>, text: Seq<char>) -> Seq<Option<Seq<char>>>;

/// The pattern that a regular expression was compiled from, which
/// `Regex::as_str` gives back.
pub uninterp spec fn pattern_of(re: Regex) -> Seq<char>;

/// Whether a regular expression was compiled by `Regex::new`, that is with
/// the options that the `regex` crate sets by default. Only then does its
/// pattern say what it matches.
pub uninterp spec fn plainly_compiled(re: Regex) -> bool;

/// A compiled regular expression of the `regex` crate. Nothing of it is
/// visible here but what `pattern_of` and `plainly_compiled` name.
#[verifier::external_type_specification]
#[verifier::external_body]
pub struct ExRegex(regex::Regex);

/// `regex::Regex::new`, which compiles with the default options and fails
/// where `pattern` is no regular expression or compiles to more than the
/// default size limit; the error itself is dropped. A pattern that does not
/// compile captures nothing in any text.
#[verifier::external_body]
pub(crate) fn compile(pattern: &str) -> (compiled: Option<Regex>)
    ensures
        compiled matches Some(re) ==> plainly_compiled(re) && pattern_of(re) == pattern@,
        compiled is None ==> forall|text: Seq<char>|
            (#[trigger] all_captures(pattern@, text)).len() == 0,
{
    Regex::new(pattern).ok()
}

/// `Regex::captures_iter`, with `Captures::get(1)` on each match it yields.
/// Neither panics. For a regular expression that `Regex::new` compiled, what
/// they return depends on the pattern and the text alone, so the outcome is
/// named `all_captures` of the two.
#[verifier::external_body]
pub(crate) fn capture_first_groups(re: &Regex, text: &str) -> (found: Vec<Option<String>>)
    requires
        plainly_compiled(*re),
    ensures
        captures_model(found@) == all_captures(pattern_of(*re), text@),
{
    re.captures_iter(text).map(|c| c.get(1).map(|m| m.as_str().to_string())).collect()
}

/// The values of a sequence of captures.
pub open spec fn captures_model(found: Seq<Option<String>>) -> Seq<Option<Seq<char>>> {
    Seq::new(
        found.len(),
        |i: int|
            match found[i] {
                Some(s) => Some(s@),
                None => None,
            },
    )
}

/// An identifier and the line, counted from zero, that declares it.
#[derive(Debug, PartialEq, Eq)]
pub struct AnchorRecord {
    pub id: String,
    pub line: usize,
}

/// The value of an `AnchorRecord`.
pub struct AnchorRecordModel {
    pub id: Seq<char>,
    pub line: nat,
}

impl View for AnchorRecord {
    type V = AnchorRecordModel;

    open spec fn view(&self) -> AnchorRecordModel {
        AnchorRecordModel { id: self.id@, line: self.line as nat }
    }
}

/// The values of a sequence of records.
pub open spec fn records_model(records: Seq<AnchorRecord>) -> Seq<AnchorRecordModel> {
    Seq::new(records.len(), |i: int| records[i]@)
}

/// The records that the first `n` of `captures` give on line `line`: one for
/// each capture that holds an identifier, in order.
pub open spec fn line_records(captures: Seq<Option<Seq<char>>>, line: nat, n: nat) -> Seq<
    AnchorRecordModel,
>
    decreases n,
{
    if n == 0 || n > captures.len() {
        Seq::empty()
    } else {
        let before = line_records(captures, line, (n - 1) as nat);
        match captures[n - 1] {
            Some(id) => before.push(AnchorRecordModel { id, line }),
            None => before,
        }
    }
}

/// The records of the first `n` of `lines`: one for every identifier
/// attribute, line after line and within a line from left to right.
pub open spec fn scan_first(lines: Seq<Seq<char>>, n: nat) -> Seq<AnchorRecordModel>
    decreases n,
{
    if n == 0 || n > lines.len() {
        Seq::empty()
    } else {
        let found = all_captures(ID_PATTERN@, lines[n - 1]);
        scan_first(lines, (n - 1) as nat) + line_records(found, (n - 1) as nat, found.len())
    }
}

/// The records of a whole file.
pub open spec fn scan_lines(lines: Seq<Seq<char>>) -> Seq<AnchorRecordModel> {
    scan_first(lines, lines.len())
}

/// Records lie on lines that never fall, all below `line_count`.
pub open spec fn records_ordered(records: Seq<AnchorRecordModel>, line_count: nat) -> bool {
    &&& forall|i: int, j: int|
        0 <= i < j < records.len() ==> (#[trigger] records[i]).line <= (#[trigger] records[j]).line
    &&& forall|i: int| 0 <= i < records.len() ==> (#[trigger] records[i]).line < line_count
}

/// Every record of a line lies on that line.
pub proof fn lemma_line_records(captures: Seq<Option<Seq<char>>>, line: nat, n: nat)
    ensures
        forall|i: int|
            0 <= i < line_records(captures, line, n).len() ==> (#[trigger] line_records(
                captures,
                line,
                n,
            )[i]).line == line,
    decreases n,
{
    if n > 0 && n <= captures.len() {
        lemma_line_records(captures, line, (n - 1) as nat);
        let before = line_records(captures, line, (n - 1) as nat);
        let now = line_records(captures, line, n);
        assert forall|i: int| 0 <= i < now.len() implies (#[trigger] now[i]).line == line by {
            if i < before.len() {
                assert(now[i] == before[i]);
            }
        }
    }
}

/// What a scan collects is ordered by line and stays within the lines
/// scanned.
pub proof fn lemma_scan_ordered(lines: Seq<Seq<char>>, n: nat)
    requires
        n <= lines.len(),
    ensures
        records_ordered(scan_first(lines, n), n),
    decreases n,
{
    if n > 0 {
        lemma_scan_ordered(lines, (n - 1) as nat);
        let found = all_captures(ID_PATTERN@, lines[n - 1]);
        lemma_line_records(found, (n - 1) as nat, found.len());
    }
}

/// Where the identifier pattern captures nothing in any text, no line yields
/// a record.
pub proof fn lemma_scan_without_captures(lines: Seq<Seq<char>>, n: nat)
    requires
        forall|text: Seq<char>| (#[trigger] all_captures(ID_PATTERN@, text)).len() == 0,
    ensures
        scan_first(lines, n) == Seq::<AnchorRecordModel>::empty(),
    decreases n,
{
    if n > 0 && n <= lines.len() {
        lemma_scan_without_captures(lines, (n - 1) as nat);
        assert(scan_first(lines, n) =~= Seq::<AnchorRecordModel>::empty());
    }
}

/// Scans the lines of one file for identifier attributes: every one of them,
/// with the line it stands on, in the order in which they appear.
pub fn collect_anchor_positions(lines: &Vec<String>) -> (positions: Vec<AnchorRecord>)
    ensures
        records_model(positions@) == scan_lines(texts_model(lines@)),
        records_ordered(records_model(positions@), lines.len() as nat),
{
    let mut positions: Vec<AnchorRecord> = Vec::new();
    let ghost texts = texts_model(lines@);
    assert(records_model(positions@) =~= Seq::empty());
    proof {
        lemma_scan_ordered(texts, lines.len() as nat);
    }
    let re = match compile(ID_PATTERN) {
        Some(re) => re,
        None => {
            proof {
                lemma_scan_without_captures(texts, lines.len() as nat);
            }
            return positions;
        },
    };
    let mut num: usize = 0;
    while num < lines.len()
        invariant
            num <= lines.len(),
            texts == texts_model(lines@),
            plainly_compiled(re),
            pattern_of(re) == ID_PATTERN@,
            records_model(positions@) == scan_first(texts, num as nat),
        decreases lines.len() - num,
    {
        let found = capture_first_groups(&re, lines[num].as_str());
        let ghost before = records_model(positions@);
        let ghost captures = captures_model(found@);
        let mut k: usize = 0;
        assert(records_model(positions@) =~= before + line_records(captures, num as nat, 0));
        while k < found.len()
            invariant
                k <= found.len(),
                captures == captures_model(found@),
                records_model(positions@) == before + line_records(captures, num as nat, k as nat),
            decreases found.len() - k,
        {
            let ghost so_far = records_model(positions@);
            match &found[k] {
                Some(id) => {
                    positions.push(AnchorRecord { id: id.clone(), line: num });
                    assert(records_model(positions@) =~= so_far.push(
                        AnchorRecordModel { id: id@, line: num as nat },
                    ));
                },
                None => {},
            }
            assert(captures[k as int] == match found@[k as int] {
                Some(s) => Some(s@),
                None => None,
            });
            assert(records_model(positions@) =~= before + line_records(
                captures,
                num as nat,
                (k + 1) as nat,
            ));
            k += 1;
        }
        num += 1;
    }
    positions
}

/// The identifiers of `records`, in order.
pub open spec fn record_ids(records: Seq<AnchorRecordModel>) -> Seq<Seq<char>> {
    Seq::new(records.len(), |i: int| records[i].id)
}

/// The line range that the fragment identifier `id` stands for in a file with
/// the given records and `line_count` lines: from the line of the first
/// record that carries `id` to the line of the record that follows it, or to
/// `line_count` where none follows. An empty or unknown identifier gives
/// `(0, 0)`, the whole file.
pub open spec fn resolved_range(records: Seq<AnchorRecordModel>, line_count: nat, id: Seq<char>) -> (
    nat,
    nat,
) {
    let k = first_position(record_ids(records), id);
    if id.len() == 0 || k >= records.len() {
        (0, 0)
    } else if k + 1 < records.len() {
        (records[k].line, records[k + 1].line)
    } else {
        (records[k].line, line_count)
    }
}

/// A resolved range never ends before it starts, and ends within the file.
pub proof fn lemma_resolved_range_ordered(
    records: Seq<AnchorRecordModel>,
    line_count: nat,
    id: Seq<char>,
)
    requires
        records_ordered(records, line_count),
    ensures
        resolved_range(records, line_count, id).0 <= resolved_range(records, line_count, id).1,
        resolved_range(records, line_count, id).1 <= line_count,
{
    lemma_first_position(record_ids(records), id);
}

/// An identifier that no record carries resolves to the whole file.
pub proof fn lemma_unknown_id_is_whole_file(
    records: Seq<AnchorRecordModel>,
    line_count: nat,
    id: Seq<char>,
)
    requires
        forall|i: int| 0 <= i < records.len() ==> records[i].id != id,
    ensures
        resolved_range(records, line_count, id) == (0nat, 0nat),
{
    lemma_first_position_unique(record_ids(records), id, records.len() as int);
}

/// Resolves `id` against the records of one file.
pub fn resolve_range(records: &Vec<AnchorRecord>, line_count: usize, id: &String) -> (range: (
    usize,
    usize,
))
    ensures
        (range.0 as nat, range.1 as nat) == resolved_range(
            records_model(records@),
            line_count as nat,
            id@,
        ),
{
    let ghost ids = record_ids(records_model(records@));
    if id.as_str().unicode_len() == 0 {
        return (0, 0);
    }
    let mut k: usize = 0;
    while k < records.len()
        invariant
            k <= records.len(),
            id@.len() != 0,
            ids == record_ids(records_model(records@)),
            forall|i: int| 0 <= i < k ==> ids[i] != id@,
        decreases records.len() - k,
    {
        if records[k].id == *id {
            proof {
                lemma_first_position_unique(ids, id@, k as int);
                assert(records_model(records@)[k as int] == records@[k as int]@);
                if k + 1 < records.len() {
                    assert(records_model(records@)[k + 1] == records@[k + 1]@);
                }
            }
            if k + 1 < records.len() {
                return (records[k].line, records[k + 1].line);
            } else {
                return (records[k].line, line_count);
            }
        }
        k += 1;
    }
    proof {
        lemma_first_position_unique(ids, id@, records.len() as int);
    }
    (0, 0)
}

/// A chapter file as it was read: its path as the table of contents writes
/// it, and its lines.
#[derive(Debug, PartialEq, Eq)]
pub struct ChapterSource {
    pub path: String,
    pub lines: Vec<String>,
}

/// The value of a `ChapterSource`.
pub struct ChapterSourceModel {
    pub path: Seq<char>,
    pub lines: Seq<Seq<char>>,
}

impl View for ChapterSource {
    type V = ChapterSourceModel;

    open spec fn view(&self) -> ChapterSourceModel {
        ChapterSourceModel { path: self.path@, lines: texts_model(self.lines@) }
    }
}

/// What resolution needs to know of one chapter file: its anchors in the
/// order of their lines, and how many lines it has.
#[derive(Debug, PartialEq, Eq)]
pub struct ChapterAnchors {
    pub path: String,
    pub records: Vec<AnchorRecord>,
    pub line_count: usize,
}

/// The value of a `ChapterAnchors`.
pub struct ChapterAnchorsModel {
    pub path: Seq<char>,
    pub records: Seq<AnchorRecordModel>,
    pub line_count: nat,
}

impl View for ChapterAnchors {
    type V = ChapterAnchorsModel;

    open spec fn view(&self) -> ChapterAnchorsModel {
        ChapterAnchorsModel {
            path: self.path@,
            records: records_model(self.records@),
            line_count: self.line_count as nat,
        }
    }
}

/// The values of a sequence of chapter files.
pub open spec fn sources_model(sources: Seq<ChapterSource>) -> Seq<ChapterSourceModel> {
    Seq::new(sources.len(), |i: int| sources[i]@)
}

/// The values of a sequence of scanned chapters.
pub open spec fn index_model(index: Seq<ChapterAnchors>) -> Seq<ChapterAnchorsModel> {
    Seq::new(index.len(), |i: int| index[i]@)
}

/// The scan of one chapter file.
pub open spec fn anchors_of(source: ChapterSourceModel) -> ChapterAnchorsModel {
    ChapterAnchorsModel {
        path: source.path,
        records: scan_lines(source.lines),
        line_count: source.lines.len(),
    }
}

/// The scans of `sources`, in the same order.
pub open spec fn index_of(sources: Seq<ChapterSourceModel>) -> Seq<ChapterAnchorsModel> {
    Seq::new(sources.len(), |i: int| anchors_of(sources[i]))
}

/// The paths of `index`, in order.
pub open spec fn chapter_paths(index: Seq<ChapterAnchorsModel>) -> Seq<Seq<char>> {
    Seq::new(index.len(), |i: int| index[i].path)
}

/// Whether `index` holds a chapter under `path`.
pub open spec fn has_chapter(index: Seq<ChapterAnchorsModel>, path: Seq<char>) -> bool {
    first_position(chapter_paths(index), path) < index.len()
}

/// The range that `id` stands for in the first chapter of `index` stored
/// under `path`; `(0, 0)` where there is no such chapter.
pub open spec fn range_in(index: Seq<ChapterAnchorsModel>, path: Seq<char>, id: Seq<char>) -> (
    nat,
    nat,
) {
    let k = first_position(chapter_paths(index), path);
    if k < index.len() {
        resolved_range(index[k].records, index[k].line_count, id)
    } else {
        (0, 0)
    }
}

/// An index made by scanning files holds a chapter under `path` exactly when
/// one of the files has that path.
pub proof fn lemma_has_chapter_of_sources(sources: Seq<ChapterSourceModel>, path: Seq<char>)
    ensures
        has_chapter(index_of(sources), path) <==> exists|i: int|
            0 <= i < sources.len() && (#[trigger] sources[i]).path == path,
{
    let paths = chapter_paths(index_of(sources));
    lemma_first_position(paths, path);
    let k = first_position(paths, path);
    if k < paths.len() {
        assert(sources[k].path == path);
    }
    if exists|i: int| 0 <= i < sources.len() && (#[trigger] sources[i]).path == path {
        let i = choose|i: int| 0 <= i < sources.len() && (#[trigger] sources[i]).path == path;
        assert(paths[i] == path);
    }
}

/// Scans every chapter file once.
pub fn index_chapters(sources: &Vec<ChapterSource>) -> (index: Vec<ChapterAnchors>)
    ensures
        index_model(index@) == index_of(sources_model(sources@)),
{
    let mut index: Vec<ChapterAnchors> = Vec::new();
    let mut i: usize = 0;
    while i < sources.len()
        invariant
            i <= sources.len(),
            index.len() == i,
            forall|k: int| 0 <= k < i ==> index@[k]@ == anchors_of(sources@[k]@),
        decreases sources.len() - i,
    {
        let source = &sources[i];
        let records = collect_anchor_positions(&source.lines);
        index.push(
            ChapterAnchors { path: source.path.clone(), records, line_count: source.lines.len() },
        );
        i += 1;
    }
    assert(index_model(index@) =~= index_of(sources_model(sources@)));
    index
}

/// Looks `path` up in `index` and resolves `id` against the chapter found.
pub fn locate(index: &Vec<ChapterAnchors>, path: &String, id: &String) -> (found: Option<
    (usize, usize),
>)
    ensures
        found is Some == has_chapter(index_model(index@), path@),
        found matches Some(range) ==> (range.0 as nat, range.1 as nat) == range_in(
            index_model(index@),
            path@,
            id@,
        ),
{
    let ghost paths = chapter_paths(index_model(index@));
    let mut k: usize = 0;
    while k < index.len()
        invariant
            k <= index.len(),
            paths == chapter_paths(index_model(index@)),
            forall|i: int| 0 <= i < k ==> paths[i] != path@,
        decreases index.len() - k,
    {
        if index[k].path == *path {
            proof {
                lemma_first_position_unique(paths, path@, k as int);
            }
            return Some(resolve_range(&index[k].records, index[k].line_count, id));
        }
        k += 1;
    }
    proof {
        lemma_first_position_unique(paths, path@, index.len() as int);
    }
    None
}

/// Every chapter of `index` has its records in line order and within its
/// lines.
pub open spec fn index_ordered(index: Seq<ChapterAnchorsModel>) -> bool {
    forall|k: int|
        0 <= k < index.len() ==> records_ordered(
            (#[trigger] index[k]).records,
            index[k].line_count,
        )
}

/// An index made by scanning files is ordered.
pub proof fn lemma_index_of_ordered(sources: Seq<ChapterSourceModel>)
    ensures
        index_ordered(index_of(sources)),
{
    assert forall|k: int| 0 <= k < index_of(sources).len() implies records_ordered(
        (#[trigger] index_of(sources)[k]).records,
        index_of(sources)[k].line_count,
    ) by {
        lemma_scan_ordered(sources[k].lines, sources[k].lines.len());
    }
}

/// Against an ordered index no range ends before it starts.
pub proof fn lemma_range_in_ordered(
    index: Seq<ChapterAnchorsModel>,
    path: Seq<char>,
    id: Seq<char>,
)
    requires
        index_ordered(index),
    ensures
        range_in(index, path, id).0 <= range_in(index, path, id).1,
{
    lemma_first_position(chapter_paths(index), path);
    let k = first_position(chapter_paths(index), path);
    if k < index.len() {
        lemma_resolved_range_ordered(index[k].records, index[k].line_count, id);
    }
}

} // verus!
