//! The container descriptor, which says where the package document lies.

use crate::text::{ends_with, has_suffix};
use vstd::prelude::*;

verus! {

/// One root file that the container names.
#[derive(Debug, Default, PartialEq, Eq)]
pub struct Rootfile {
    pub full_path: String,
    pub media_type: String,
}

/// The root files of a container.
#[derive(Debug, Default, PartialEq, Eq)]
pub struct Rootfiles {
    pub rootfile: Vec<Rootfile>,
}

/// A container descriptor.
#[derive(Debug, Default, PartialEq, Eq)]
pub struct Container {
    pub rootfiles: Rootfiles,
}

/// The ending by which a package document is known.
pub const PACKAGE_SUFFIX: &'static str = ".opf";

/// The value of a `Rootfile`.
pub struct RootfileModel {
    pub full_path: Seq<char>,
    pub media_type: Seq<char>,
}

impl View for Rootfile {
    type V = RootfileModel;

    open spec fn view(&self) -> RootfileModel {
        RootfileModel { full_path: self.full_path@, media_type: self.media_type@ }
    }
}

impl View for Container {
    type V = Seq<RootfileModel>;

    /// The root files, in document order.
    open spec fn view(&self) -> Seq<RootfileModel> {
        Seq::new(self.rootfiles.rootfile@.len(), |i: int| self.rootfiles.rootfile@[i]@)
    }
}

/// The paths of `files`, in order.
pub open spec fn root_paths(files: Seq<RootfileModel>) -> Seq<Seq<char>> {
    Seq::new(files.len(), |i: int| files[i].full_path)
}

/// The position of the first of `paths` that names a package document, or
/// their number where none does.
pub open spec fn first_package(paths: Seq<Seq<char>>) -> int
    decreases paths.len(),
{
    if paths.len() == 0 || has_suffix(paths[0], PACKAGE_SUFFIX@) {
        0
    } else {
        1 + first_package(paths.skip(1))
    }
}

/// `first_package` is the least position of a path with the package ending.
pub proof fn lemma_first_package(paths: Seq<Seq<char>>, k: int)
    requires
        0 <= k <= paths.len(),
        forall|i: int| 0 <= i < k ==> !has_suffix(paths[i], PACKAGE_SUFFIX@),
        k < paths.len() ==> has_suffix(paths[k], PACKAGE_SUFFIX@),
    ensures
        first_package(paths) == k,
    decreases paths.len(),
{
    if paths.len() == 0 || has_suffix(paths[0], PACKAGE_SUFFIX@) {
    } else {
        let rest = paths.skip(1);
        assert forall|i: int| 0 <= i < k - 1 implies !has_suffix(rest[i], PACKAGE_SUFFIX@) by {
            assert(rest[i] == paths[i + 1]);
        }
        lemma_first_package(rest, k - 1);
    }
}

impl Container {
    /// The first root file whose path ends in `.opf`: the package document.
    pub fn package_document(&self) -> (found: Option<&Rootfile>)
        ensures
            found is Some == (first_package(root_paths(self@)) < self@.len()),
            found matches Some(rootfile) ==> *rootfile == self.rootfiles.rootfile@[first_package(
                root_paths(self@),
            )],
    {
        let files = &self.rootfiles.rootfile;
        let mut i: usize = 0;
        while i < files.len()
            invariant
                i <= files.len(),
                files == &self.rootfiles.rootfile,
                forall|k: int|
                    0 <= k < i ==> !has_suffix(root_paths(self@)[k], PACKAGE_SUFFIX@),
            decreases files.len() - i,
        {
            if ends_with(files[i].full_path.as_str(), PACKAGE_SUFFIX) {
                proof {
                    lemma_first_package(root_paths(self@), i as int);
                }
                return Some(&files[i]);
            }
            i += 1;
        }
        proof {
            lemma_first_package(root_paths(self@), files.len() as int);
        }
        None
    }
}

} // verus!
