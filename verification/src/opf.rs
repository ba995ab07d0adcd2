//! The package document: metadata, the manifest of content files, and the
//! spine that says which of them make up the reading order.

use crate::text::chars_of;
use vstd::prelude::*;

verus! {

/// One `meta` element of the metadata.
#[derive(Debug, Default, PartialEq, Eq)]
pub struct OpfMeta {
    pub name: String,
    pub content: String,
}

/// The metadata of a package. A field that the document lacks is empty.
#[derive(Debug, Default, PartialEq, Eq)]
pub struct OpfMetaData {
    pub xmlns_dc: String,
    pub xmlns_opf: String,
    pub title: String,
    pub language: String,
    pub creator: String,
    pub publisher: String,
    pub date: String,
    pub meta: Vec<OpfMeta>,
}

/// A reference from the spine to a manifest item.
#[derive(Debug, Default, PartialEq, Eq)]
pub struct ItemRef {
    pub idref: String,
}

/// The spine: references to manifest items in reading order.
#[derive(Debug, Default, PartialEq, Eq)]
pub struct Spine {
    pub itemref: Vec<ItemRef>,
}

/// One content file of the package.
#[derive(Debug, Default, PartialEq, Eq)]
pub struct Item {
    pub id: String,
    pub href: String,
    pub media_type: String,
}

/// The manifest: every content file of the package, in document order.
#[derive(Debug, Default, PartialEq, Eq)]
pub struct Manifest {
    pub item: Vec<Item>,
}

/// A package document.
#[derive(Debug, Default, PartialEq, Eq)]
pub struct Package {
    pub version: String,
    pub metadata: OpfMetaData,
    pub manifest: Manifest,
    pub spine: Spine,
    pub xmlns: String,
}

/// A manifest item that the spine refers to.
#[derive(Debug, Default, PartialEq, Eq)]
pub struct SpineItems {
    pub id: String,
    pub href: String,
    pub media_type: String,
}

/// A package document together with the manifest items of its spine.
#[derive(Debug, Default, PartialEq, Eq)]
pub struct Opf {
    pub package: Package,
    pub spine_items: Vec<SpineItems>,
}

/// The value of a manifest item, and of a spine item alike.
pub struct ItemModel {
    pub id: Seq<char>,
    pub href: Seq<char>,
    pub media_type: Seq<char>,
}

impl View for Item {
    type V = ItemModel;

    open spec fn view(&self) -> ItemModel {
        ItemModel { id: self.id@, href: self.href@, media_type: self.media_type@ }
    }
}

impl View for SpineItems {
    type V = ItemModel;

    open spec fn view(&self) -> ItemModel {
        ItemModel { id: self.id@, href: self.href@, media_type: self.media_type@ }
    }
}

impl View for Manifest {
    type V = Seq<ItemModel>;

    open spec fn view(&self) -> Seq<ItemModel> {
        Seq::new(self.item@.len(), |i: int| self.item@[i]@)
    }
}

impl View for Spine {
    type V = Seq<Seq<char>>;

    /// The identifiers that the spine refers to, in reading order.
    open spec fn view(&self) -> Seq<Seq<char>> {
        Seq::new(self.itemref@.len(), |i: int| self.itemref@[i].idref@)
    }
}

/// The values of a sequence of spine items.
pub open spec fn spine_items_model(items: Seq<SpineItems>) -> Seq<ItemModel> {
    Seq::new(items.len(), |i: int| items[i]@)
}

/// Those of the first `n` manifest items whose identifier is among `refs`,
/// in manifest order.
pub open spec fn spine_members(items: Seq<ItemModel>, refs: Seq<Seq<char>>, n: nat) -> Seq<
    ItemModel,
>
    decreases n,
{
    if n == 0 || n > items.len() {
        Seq::empty()
    } else if refs.contains(items[n - 1].id) {
        spine_members(items, refs, (n - 1) as nat).push(items[n - 1])
    } else {
        spine_members(items, refs, (n - 1) as nat)
    }
}

/// The text `xml` with every `dc:` turned into `dc_`: a colon becomes an
/// underscore exactly where `d` and `c` stand right before it.
pub open spec fn dc_renamed(xml: Seq<char>) -> Seq<char> {
    Seq::new(
        xml.len(),
        |i: int|
            if i >= 2 && xml[i] == ':' && xml[i - 1] == 'c' && xml[i - 2] == 'd' {
                '_'
            } else {
                xml[i]
            },
    )
}

impl Spine {
    /// Whether the spine refers to the identifier `id`.
    pub fn refers_to(&self, id: &String) -> (found: bool)
        ensures
            found == self@.contains(id@),
    {
        let mut i: usize = 0;
        while i < self.itemref.len()
            invariant
                i <= self.itemref.len(),
                forall|k: int| 0 <= k < i ==> self@[k] != id@,
            decreases self.itemref.len() - i,
        {
            if self.itemref[i].idref == *id {
                assert(self@[i as int] == id@);
                return true;
            }
            i += 1;
        }
        false
    }
}

impl Opf {
    /// The manifest items that the spine refers to, in manifest order.
    pub fn get_spines(spine: &Spine, manifest: &Manifest) -> (spine_items: Vec<SpineItems>)
        ensures
            spine_items_model(spine_items@) == spine_members(
                manifest@,
                spine@,
                manifest@.len(),
            ),
    {
        let mut spine_items: Vec<SpineItems> = Vec::new();
        let mut i: usize = 0;
        assert(spine_items_model(spine_items@) =~= Seq::empty());
        while i < manifest.item.len()
            invariant
                i <= manifest.item.len(),
                spine_items_model(spine_items@) == spine_members(manifest@, spine@, i as nat),
            decreases manifest.item.len() - i,
        {
            let item = &manifest.item[i];
            let ghost before = spine_items_model(spine_items@);
            if spine.refers_to(&item.id) {
                spine_items.push(
                    SpineItems {
                        id: item.id.clone(),
                        href: item.href.clone(),
                        media_type: item.media_type.clone(),
                    },
                );
                assert(spine_items_model(spine_items@) =~= before.push(manifest@[i as int]));
            }
            i += 1;
        }
        spine_items
    }

    /// A package document with the manifest items of its spine.
    pub fn new(package: Package) -> (opf: Opf)
        ensures
            opf.package == package,
            spine_items_model(opf.spine_items@) == spine_members(
                package.manifest@,
                package.spine@,
                package.manifest@.len(),
            ),
    {
        let spine_items = Opf::get_spines(&package.spine, &package.manifest);
        Opf { package, spine_items }
    }
}

impl Package {
    /// Prepares the text of a package document for reading: the prefix `dc:`
    /// of the metadata elements becomes `dc_`, so that they can be read as
    /// plain names.
    pub fn rename_dc_prefix(xml_text: &str) -> (renamed: String)
        ensures
            renamed@ == dc_renamed(xml_text@),
    {
        let chars = chars_of(xml_text);
        let mut renamed = String::new();
        let mut i: usize = 0;
        while i < chars.len()
            invariant
                i <= chars.len(),
                chars@ == xml_text@,
                renamed@ == dc_renamed(xml_text@).take(i as int),
            decreases chars.len() - i,
        {
            let c = if i >= 2 && chars[i] == ':' && chars[i - 1] == 'c' && chars[i - 2] == 'd' {
                '_'
            } else {
                chars[i]
            };
            renamed.push(c);
            assert(dc_renamed(xml_text@).take(i + 1) =~= dc_renamed(xml_text@).take(i as int).push(
                c,
            ));
            i += 1;
        }
        assert(dc_renamed(xml_text@).take(chars.len() as int) =~= dc_renamed(xml_text@));
        renamed
    }
}

} // verus!
