//! Documents as `lopdf` holds them. A document is opaque to the verifier: this module says what
//! this library reads of one, and declares the calls it makes on one. The contracts of those
//! calls are taken on trust from `lopdf`'s source.

use crate::entries::{ascending, inserted, present};
use crate::object::{fields_of, reference_of, reference_to, Entry, ObjectId};
use vstd::prelude::*;

verus! {

#[verifier::external_type_specification]
#[verifier::external_body]
pub struct ExDocument(lopdf::Document);

/// What a document holds, as far as this library reads or writes it.
pub struct DocumentView {
    /// The object table, in ascending order of identifier.
    pub objects: Seq<Entry>,
    /// The entries of the trailer, by key.
    pub trailer: Map<Seq<u8>, lopdf::Object>,
    /// The greatest object number that the document declares.
    pub max_id: u32,
    /// The top-level bookmarks, each with its title and the page it opens, in the order in
    /// which they were added.
    pub bookmarks: Seq<(Seq<char>, ObjectId)>,
    /// The number of bookmarks ever added.
    pub max_bookmark_id: u32,
}

/// What `document` holds.
pub uninterp spec fn view_of(document: lopdf::Document) -> DocumentView;

/// The document that `Document::renumber_objects_with` leaves, called on `document` with
/// `start`.
pub uninterp spec fn renumbered(document: lopdf::Document, start: u32) -> lopdf::Document;

/// The identifiers of the pages of `document` in page order, as `Document::get_pages` finds
/// them by walking the page tree from the trailer.
pub uninterp spec fn pages_of(document: lopdf::Document) -> Seq<ObjectId>;

/// The object that `Document::get_object` finds under `id`, following references.
pub uninterp spec fn resolved(document: lopdf::Document, id: ObjectId) -> Option<lopdf::Object>;

/// The document that `Document::adjust_zero_pages` leaves.
pub uninterp spec fn zero_pages_adjusted(document: lopdf::Document) -> lopdf::Document;

/// The document that `Document::build_outline` leaves.
pub uninterp spec fn outlined(document: lopdf::Document) -> lopdf::Document;

/// The document that `Document::compress` leaves.
pub uninterp spec fn compressed(document: lopdf::Document) -> lopdf::Document;

/// The bound that renumbering asks of a document: its objects, counted from `start`, stay
/// within 32 bits, and its pages can be counted in 31.
pub open spec fn can_renumber(view: DocumentView, start: u32) -> bool {
    &&& 1 <= start
    &&& start + view.objects.len() <= u32::MAX
    &&& view.objects.len() <= i32::MAX
}

/// What building an outline asks of a document: every bookmark is a top-level one, no object
/// is numbered above the declared maximum, and the objects of the outline can still be
/// numbered, one for the outline and two for each bookmark.
pub open spec fn can_outline(view: DocumentView) -> bool {
    &&& view.max_bookmark_id == view.bookmarks.len()
    &&& view.max_id + 1 + 2 * view.bookmarks.len() <= u32::MAX
    &&& forall|k: int| 0 <= k < view.objects.len() ==> (#[trigger] view.objects[k]).0.0 <= view.max_id
}

/// `Document::with_version`: a document of that version which holds nothing yet.
#[verifier::external_body]
pub(crate) fn with_version(version: &str) -> (document: lopdf::Document)
    ensures
        view_of(document) == (DocumentView {
            objects: Seq::empty(),
            trailer: Map::empty(),
            max_id: 0,
            bookmarks: Seq::empty(),
            max_bookmark_id: 0,
        }),
{
    lopdf::Document::with_version(version)
}

/// `Document::renumber_objects_with`, on a copy: the objects are numbered anew in their order,
/// the first as `start` and each next one higher, and the declared maximum is the last number
/// given. Where page order and identifier order disagree `lopdf` first exchanges page
/// identifiers, which can drop an object but never adds one. Bookmarks keep their titles and
/// follow their pages. Which references are rewritten is not stated here. Bookmark tables are
/// taken to be as `lopdf`'s own calls build them.
#[verifier::external_body]
pub(crate) fn renumber(document: &lopdf::Document, start: u32) -> (result: lopdf::Document)
    requires
        can_renumber(view_of(*document), start),
    ensures
        result == renumbered(*document, start),
        view_of(result).objects.len() <= view_of(*document).objects.len(),
        forall|k: int|
            0 <= k < view_of(result).objects.len() ==> (#[trigger] view_of(result).objects[k]).0.0
                == start + k,
        view_of(result).max_id == start + view_of(result).objects.len() - 1,
        view_of(result).bookmarks.len() == view_of(*document).bookmarks.len(),
        forall|i: int|
            0 <= i < view_of(*document).bookmarks.len() ==> (#[trigger] view_of(
                result,
            ).bookmarks[i]).0 == view_of(*document).bookmarks[i].0,
        view_of(result).max_bookmark_id == view_of(*document).max_bookmark_id,
{
    let mut result = document.clone();
    result.renumber_objects_with(start);
    result
}

/// The field `Document::max_id`.
#[verifier::external_body]
pub(crate) fn max_id(document: &lopdf::Document) -> (max_id: u32)
    ensures
        max_id == view_of(*document).max_id,
{
    document.max_id
}

/// `BTreeMap::len` of the object table.
#[verifier::external_body]
pub(crate) fn object_count(document: &lopdf::Document) -> (count: usize)
    ensures
        count == view_of(*document).objects.len(),
{
    document.objects.len()
}

/// `Document::get_pages`: the page identifiers in page order. The walk yields an identifier
/// only where `Document::get_object` finds a dictionary under it, and it stops after as many
/// steps as the document has objects.
#[verifier::external_body]
pub(crate) fn page_ids(document: &lopdf::Document) -> (ids: Vec<ObjectId>)
    ensures
        ids@ == pages_of(*document),
        ids.len() <= view_of(*document).objects.len(),
        forall|i: int|
            0 <= i < ids.len() ==> (#[trigger] resolved(*document, ids[i])) is Some && fields_of(
                resolved(*document, ids[i])->0,
            ) is Some,
{
    document.get_pages().into_values().collect()
}

/// `Document::get_object`: a copy of the object under `id`, or of the object that a chain of
/// references starting there leads to; `None` where `lopdf` reports an error, as it does where
/// nothing is stored under `id`.
#[verifier::external_body]
pub(crate) fn get_object(document: &lopdf::Document, id: ObjectId) -> (object: Option<lopdf::Object>)
    ensures
        object == resolved(*document, id),
        object is Some ==> present(view_of(*document).objects, id),
{
    document.get_object(id).ok().cloned()
}

/// The object table, entry by entry; a `BTreeMap` hands its entries out in ascending order.
#[verifier::external_body]
pub(crate) fn into_objects(document: lopdf::Document) -> (objects: Vec<Entry>)
    ensures
        objects@ == view_of(document).objects,
        ascending(objects@),
{
    document.objects.into_iter().collect()
}

/// `BTreeMap::insert` on the object table.
#[verifier::external_body]
pub(crate) fn insert_object(document: &mut lopdf::Document, id: ObjectId, object: lopdf::Object)
    ensures
        view_of(*final(document)) == (DocumentView {
            objects: inserted(view_of(*old(document)).objects, id, object),
            ..view_of(*old(document))
        }),
{
    document.objects.insert(id, object);
}

/// `Dictionary::set` on the trailer, with a reference as the value.
#[verifier::external_body]
pub(crate) fn set_trailer_reference(document: &mut lopdf::Document, key: &Vec<u8>, id: ObjectId)
    ensures
        view_of(*final(document)) == (DocumentView {
            trailer: view_of(*old(document)).trailer.insert(key@, reference_to(id)),
            ..view_of(*old(document))
        }),
{
    document.trailer.set(key.clone(), id);
}

/// `Dictionary::get` on the trailer, then `Object::as_reference`: the identifier that the
/// entry under `key` refers to, `None` where there is no such entry or it is no reference.
#[verifier::external_body]
pub(crate) fn trailer_reference(document: &lopdf::Document, key: &Vec<u8>) -> (id: Option<ObjectId>)
    ensures
        id == if view_of(*document).trailer.contains_key(key@) {
            reference_of(view_of(*document).trailer[key@])
        } else {
            None
        },
{
    document.trailer.get(key).and_then(lopdf::Object::as_reference).ok()
}

/// Assignment to the field `Document::max_id`.
#[verifier::external_body]
pub(crate) fn set_max_id(document: &mut lopdf::Document, max_id: u32)
    ensures
        view_of(*final(document)) == (DocumentView { max_id, ..view_of(*old(document)) }),
{
    document.max_id = max_id;
}

/// `Bookmark::new`, then `Document::add_bookmark` without a parent: one more top-level
/// bookmark, after those already there. The colour components are given as whole numbers.
#[verifier::external_body]
pub(crate) fn add_bookmark(
    document: &mut lopdf::Document,
    title: String,
    colour: (u8, u8, u8),
    format: u32,
    page: ObjectId,
)
    requires
        view_of(*old(document)).max_bookmark_id < u32::MAX,
    ensures
        view_of(*final(document)) == (DocumentView {
            bookmarks: view_of(*old(document)).bookmarks.push((title@, page)),
            max_bookmark_id: (view_of(*old(document)).max_bookmark_id + 1) as u32,
            ..view_of(*old(document))
        }),
{
    let colour = [colour.0.into(), colour.1.into(), colour.2.into()];
    document.add_bookmark(lopdf::Bookmark::new(title, colour, format, page), None);
}

/// `Document::adjust_zero_pages`: it changes nothing but the pages that bookmarks open.
#[verifier::external_body]
pub(crate) fn adjust_zero_pages(document: &mut lopdf::Document)
    ensures
        *final(document) == zero_pages_adjusted(*old(document)),
        view_of(*final(document)).objects == view_of(*old(document)).objects,
        view_of(*final(document)).trailer == view_of(*old(document)).trailer,
        view_of(*final(document)).max_id == view_of(*old(document)).max_id,
        view_of(*final(document)).bookmarks.len() == view_of(*old(document)).bookmarks.len(),
        forall|i: int|
            0 <= i < view_of(*old(document)).bookmarks.len() ==> (#[trigger] view_of(
                *final(document),
            ).bookmarks[i]).0 == view_of(*old(document)).bookmarks[i].0,
        view_of(*final(document)).max_bookmark_id == view_of(*old(document)).max_bookmark_id,
{
    document.adjust_zero_pages();
}

/// `Document::build_outline`: without bookmarks nothing happens. Otherwise the outline gets the
/// number after the declared maximum, each bookmark the next two, all of generation 0; the new
/// objects stand behind those already there; the declared maximum becomes the last number
/// given; and the identifier of the outline is returned. What the new objects hold is not
/// stated here.
#[verifier::external_body]
pub(crate) fn build_outline(document: &mut lopdf::Document) -> (outline: Option<ObjectId>)
    requires
        can_outline(view_of(*old(document))),
    ensures
        *final(document) == outlined(*old(document)),
        view_of(*old(document)).bookmarks.len() == 0 ==> outline is None && view_of(
            *final(document),
        ) == view_of(*old(document)),
        view_of(*old(document)).bookmarks.len() > 0 ==> {
            let before = view_of(*old(document));
            let after = view_of(*final(document));
            &&& outline == Some(((before.max_id + 1) as u32, 0u16))
            &&& after.max_id == before.max_id + 1 + 2 * before.bookmarks.len()
            &&& after.trailer == before.trailer
            &&& after.bookmarks == before.bookmarks
            &&& after.max_bookmark_id == before.max_bookmark_id
            &&& after.objects.len() == before.objects.len() + 1 + 2 * before.bookmarks.len()
            &&& forall|k: int|
                0 <= k < before.objects.len() ==> #[trigger] after.objects[k] == before.objects[k]
            &&& forall|j: int|
                0 <= j <= 2 * before.bookmarks.len() ==> (#[trigger] after.objects[before.objects.len()
                    + j]).0 == ((before.max_id + 1 + j) as u32, 0u16)
        },
{
    document.build_outline()
}

/// `Document::compress`: only streams change, and none is added or removed.
#[verifier::external_body]
pub(crate) fn compress(document: &mut lopdf::Document)
    ensures
        *final(document) == compressed(*old(document)),
        view_of(*final(document)).objects.len() == view_of(*old(document)).objects.len(),
        forall|k: int|
            0 <= k < view_of(*old(document)).objects.len() ==> (#[trigger] view_of(
                *final(document),
            ).objects[k]).0 == view_of(*old(document)).objects[k].0,
        forall|k: int|
            0 <= k < view_of(*old(document)).objects.len() && fields_of(
                view_of(*old(document)).objects[k].1,
            ) is Some ==> #[trigger] view_of(*final(document)).objects[k] == view_of(
                *old(document),
            ).objects[k],
        view_of(*final(document)).trailer == view_of(*old(document)).trailer,
        view_of(*final(document)).max_id == view_of(*old(document)).max_id,
        view_of(*final(document)).bookmarks == view_of(*old(document)).bookmarks,
        view_of(*final(document)).max_bookmark_id == view_of(*old(document)).max_bookmark_id,
{
    document.compress();
}

} // verus!
