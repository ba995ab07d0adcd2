//! The navigation document: nested navigation points, each with a label and
//! a target reference, and the table of contents they describe.

use crate::book::{Anchor, AnchorModel, Toc, TocModel, forest_model};
use crate::text::{chars_of, find_char, first_position, lemma_first_position, string_of};
use vstd::prelude::*;

verus! {

/// The label of a navigation point.
#[derive(Debug, Default, PartialEq, Eq)]
pub struct NavLabel {
    pub text: String,
}

/// The target reference of a navigation point: a file path, optionally
/// followed by `#` and a fragment identifier.
#[derive(Debug, Default, PartialEq, Eq)]
pub struct Content {
    pub src: String,
}

/// One navigation point with the points nested in it.
#[derive(Debug, Default, PartialEq, Eq)]
pub struct NavPoint {
    pub nav_label: NavLabel,
    pub content: Content,
    pub nav_point: Option<Vec<NavPoint>>,
}

/// The top-level navigation points.
#[derive(Debug, Default, PartialEq, Eq)]
pub struct NavMap {
    pub nav_point: Vec<NavPoint>,
}

/// A navigation document.
#[derive(Debug, Default, PartialEq, Eq)]
pub struct Ncx {
    pub nav_map: NavMap,
}

/// The value of a navigation point. A point without a list of nested points
/// has none.
pub struct NavPointModel {
    pub label: Seq<char>,
    pub src: Seq<char>,
    pub children: Seq<NavPointModel>,
}

impl NavPointModel {
    /// A point without label, target or nested points.
    pub open spec fn blank() -> NavPointModel {
        NavPointModel { label: Seq::empty(), src: Seq::empty(), children: Seq::empty() }
    }
}

/// The value of one navigation point and of everything nested in it.
pub open spec fn nav_point_model(point: NavPoint) -> NavPointModel
    decreases point,
{
    NavPointModel {
        label: point.nav_label.text@,
        src: point.content.src@,
        children: match point.nav_point {
            Some(points) => Seq::new(
                points@.len(),
                |i: int|
                    if 0 <= i < points@.len() {
                        nav_point_model(points@[i])
                    } else {
                        NavPointModel::blank()
                    },
            ),
            None => Seq::empty(),
        },
    }
}

impl View for NavPoint {
    type V = NavPointModel;

    open spec fn view(&self) -> NavPointModel {
        nav_point_model(*self)
    }
}

/// The values of a sequence of navigation points.
pub open spec fn nav_points_model(points: Seq<NavPoint>) -> Seq<NavPointModel> {
    Seq::new(points.len(), |i: int| points[i]@)
}

impl View for Ncx {
    type V = Seq<NavPointModel>;

    open spec fn view(&self) -> Seq<NavPointModel> {
        nav_points_model(self.nav_map.nav_point@)
    }
}

/// The part of a target reference before its first `#`: the file path. A
/// reference without `#` is a path as a whole.
pub open spec fn pure_path(src: Seq<char>) -> Seq<char> {
    src.take(first_position(src, '#'))
}

/// The part of a target reference after its first `#`: the fragment
/// identifier, which may be empty. A reference without `#` has an empty one.
pub open spec fn anchor_id(src: Seq<char>) -> Seq<char> {
    let at = first_position(src, '#');
    if at < src.len() {
        src.skip(at + 1)
    } else {
        Seq::empty()
    }
}

/// The entry that a navigation point describes: its label, the path and the
/// fragment identifier of its own target reference, an unresolved range, and
/// below it the entries of the nested points in their order.
pub open spec fn toc_of(point: NavPointModel) -> TocModel
    decreases point,
{
    TocModel {
        title: point.label,
        path: pure_path(point.src),
        anchor: AnchorModel { id: anchor_id(point.src), start_pos: 0, end_pos: 0 },
        children: Seq::new(
            point.children.len(),
            |i: int|
                if 0 <= i < point.children.len() {
                    toc_of(point.children[i])
                } else {
                    TocModel::leaf()
                },
        ),
    }
}

/// The entries that a sequence of navigation points describes.
pub open spec fn tocs_of(points: Seq<NavPointModel>) -> Seq<TocModel> {
    Seq::new(points.len(), |i: int| toc_of(points[i]))
}

/// A target reference is its path alone, or its path, `#` and its fragment
/// identifier; the path holds no `#`.
pub proof fn lemma_reference_parts(src: Seq<char>)
    ensures
        !pure_path(src).contains('#'),
        src.contains('#') ==> src == pure_path(src) + seq!['#'] + anchor_id(src),
        !src.contains('#') ==> src == pure_path(src) && anchor_id(src).len() == 0,
{
    lemma_first_position(src, '#');
    let at = first_position(src, '#');
    if at < src.len() {
        assert(src =~= pure_path(src) + seq!['#'] + anchor_id(src));
    } else {
        assert(src =~= pure_path(src));
        if src.contains('#') {
            let i = choose|i: int| 0 <= i < src.len() && src[i] == '#';
            assert(src[i] != '#');
        }
    }
    if pure_path(src).contains('#') {
        let i = choose|i: int| 0 <= i < pure_path(src).len() && pure_path(src)[i] == '#';
        assert(src[i] == '#');
    }
}

impl Content {
    /// The fragment identifier of the target reference.
    pub fn get_anchor_id(&self) -> (id: String)
        ensures
            id@ == anchor_id(self.src@),
    {
        let chars = chars_of(self.src.as_str());
        let at = find_char(&chars, '#');
        proof {
            lemma_first_position(chars@, '#');
        }
        if at < chars.len() {
            let id = string_of(&chars, at + 1, chars.len());
            id
        } else {
            String::new()
        }
    }

    /// The file path of the target reference.
    pub fn get_pure_path(&self) -> (path: String)
        ensures
            path@ == pure_path(self.src@),
    {
        let chars = chars_of(self.src.as_str());
        let at = find_char(&chars, '#');
        proof {
            lemma_first_position(chars@, '#');
        }
        string_of(&chars, 0, at)
    }
}

impl NavPoint {
    /// The entry that this navigation point describes.
    pub fn get_toc(&self) -> (toc: Toc)
        ensures
            toc@ == toc_of(self@),
        decreases self,
    {
        let children = NavPoint::build_children_toc(&self.nav_point);
        let toc = Toc {
            path: self.content.get_pure_path(),
            title: self.nav_label.text.clone(),
            anchor: Anchor { id: self.content.get_anchor_id(), start_pos: 0, end_pos: 0 },
            children,
        };
        proof {
            let nested = self@.children;
            if self.nav_point is Some {
                assert(nested =~= nav_points_model(self.nav_point->0@));
            }
            assert(forest_model(toc.children@) == tocs_of(nested));
            assert(toc@.children.len() == toc_of(self@).children.len());
            assert forall|k: int| 0 <= k < toc@.children.len() implies toc@.children[k] == toc_of(
                self@,
            ).children[k] by {
                assert(toc@.children[k] == forest_model(toc.children@)[k]);
                assert(toc_of(self@).children[k] == tocs_of(nested)[k]);
            }
            assert(toc@.children =~= toc_of(self@).children);
        }
        toc
    }

    /// The entries that nested navigation points describe; none where there
    /// is no list of them.
    pub fn build_children_toc(nav_points: &Option<Vec<NavPoint>>) -> (tocs: Vec<Toc>)
        ensures
            forest_model(tocs@) == tocs_of(
                match nav_points {
                    Some(points) => nav_points_model(points@),
                    None => Seq::empty(),
                },
            ),
        decreases nav_points,
    {
        let mut tocs: Vec<Toc> = Vec::new();
        match nav_points {
            Some(points) => {
                let mut i: usize = 0;
                while i < points.len()
                    invariant
                        i <= points.len(),
                        tocs.len() == i,
                        *nav_points == Some(*points),
                        forall|k: int| 0 <= k < i ==> tocs@[k]@ == toc_of(points@[k]@),
                    decreases points.len() - i,
                {
                    assert(decreases_to!(*nav_points => nav_points->0));
                    tocs.push(points[i].get_toc());
                    i += 1;
                }
                assert(forest_model(tocs@) =~= tocs_of(nav_points_model(points@)));
            },
            None => {
                assert(forest_model(tocs@) =~= tocs_of(Seq::empty()));
            },
        }
        tocs
    }
}

impl Ncx {
    /// The table of contents that the document describes.
    pub fn table_of_contents(&self) -> (tocs: Vec<Toc>)
        ensures
            forest_model(tocs@) == tocs_of(self@),
    {
        let points = &self.nav_map.nav_point;
        let mut tocs: Vec<Toc> = Vec::new();
        let mut i: usize = 0;
        while i < points.len()
            invariant
                i <= points.len(),
                tocs.len() == i,
                forall|k: int| 0 <= k < i ==> tocs@[k]@ == toc_of(points@[k]@),
            decreases points.len() - i,
        {
            tocs.push(points[i].get_toc());
            i += 1;
        }
        assert(forest_model(tocs@) =~= tocs_of(nav_points_model(points@)));
        tocs
    }
}

} // verus!
