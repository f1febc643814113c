//! The last pass of a merge: the composite document is built, its objects are renumbered
//! without gaps from 1, the bookmarks become an outline, and the root node is linked to it.

use crate::assemble::Composite;
use crate::collect::{bookmark_views, Bookmark};
use crate::document::{
    add_bookmark, adjust_zero_pages, build_outline, compress, compressed, get_object,
    insert_object, object_count, outlined, renumbered, resolved, set_max_id,
    set_trailer_reference, trailer_reference, view_of, with_version, zero_pages_adjusted,
    DocumentView,
};
use crate::identifiers::{compact, numbered_from};
use crate::entries::{ascending, inserted, lemma_inserted, lemma_inserted_at, table_of};
use crate::error::MergeError;
use crate::names;
use crate::object::{
    clone_object, fields, fields_of, reference, reference_of, reference_to, set_field, Entry,
    ObjectId,
};
use vstd::prelude::*;

verus! {

/// What the composite document holds before it is renumbered: the table, a trailer that
/// refers to the root node, the number of objects as the declared maximum, and the bookmarks.
pub open spec fn built_view(
    list: Seq<Entry>,
    root: ObjectId,
    bookmarks: Seq<(Seq<char>, ObjectId)>,
) -> DocumentView {
    DocumentView {
        objects: table_of(list),
        trailer: Map::empty().insert(names::root(), reference_to(root)),
        max_id: table_of(list).len() as u32,
        bookmarks,
        max_bookmark_id: bookmarks.len() as u32,
    }
}

/// The objects, or the objects together with those of an outline for the bookmarks, are more
/// than can be numbered.
pub open spec fn too_large(list: Seq<Entry>, bookmarks: nat) -> bool {
    table_of(list).len() > i32::MAX || table_of(list).len() + 1 + 2 * bookmarks > u32::MAX
}

/// The bookmarks are as many as those of `given`, and titled as they are, one by one.
pub open spec fn titled_as(
    bookmarks: Seq<(Seq<char>, ObjectId)>,
    given: Seq<(Seq<char>, ObjectId)>,
) -> bool {
    &&& bookmarks.len() == given.len()
    &&& forall|i: int| 0 <= i < given.len() ==> (#[trigger] bookmarks[i]).0 == given[i].0
}

/// The root node that the trailer of a document refers to, where it refers to one.
pub open spec fn root_of(view: DocumentView) -> Option<ObjectId> {
    if view.trailer.contains_key(names::root()) {
        reference_of(view.trailer[names::root()])
    } else {
        None
    }
}

/// `after` is `compact` with its outline built and its root node linked to it: where there
/// are bookmarks and the trailer leads to a dictionary, the entry `Outlines` of that
/// dictionary refers to the outline; in every other case nothing but the outline is added.
pub open spec fn linked(after: lopdf::Document, compact: lopdf::Document) -> bool {
    let with_outline = outlined(compact);
    let view = view_of(with_outline);
    let root = root_of(view);
    if view_of(compact).bookmarks.len() > 0 && root is Some && resolved(
        with_outline,
        root.unwrap(),
    ) is Some && fields_of(resolved(with_outline, root.unwrap()).unwrap()) is Some {
        let node = resolved(with_outline, root.unwrap()).unwrap();
        let outline = ((view_of(compact).max_id + 1) as u32, 0u16);
        exists|object: lopdf::Object|
            #[trigger] fields_of(object) == Some(
                fields_of(node).unwrap().insert(names::outlines(), reference_to(outline)),
            ) && view_of(after) == (DocumentView {
                objects: inserted(view.objects, root.unwrap(), object),
                ..view
            })
    } else {
        after == with_outline
    }
}

/// `document` is the composite document of the objects in `list`, the root node `root` and
/// `bookmarks`: built, renumbered from 1, outlined, linked, and compressed.
pub open spec fn finished(
    document: lopdf::Document,
    list: Seq<Entry>,
    root: ObjectId,
    bookmarks: Seq<(Seq<char>, ObjectId)>,
) -> bool {
    exists|built: lopdf::Document, after: lopdf::Document|
        #![trigger view_of(built), compressed(after)]
        view_of(built) == built_view(list, root, bookmarks) && linked(
            after,
            zero_pages_adjusted(renumbered(built, 1)),
        ) && document == compressed(after)
}

/// Stores the objects of a composite in a new document.
fn store(list: &Vec<Entry>) -> (document: lopdf::Document)
    ensures
        view_of(document) == (DocumentView {
            objects: table_of(list@),
            trailer: Map::empty(),
            max_id: 0,
            bookmarks: Seq::empty(),
            max_bookmark_id: 0,
        }),
        ascending(table_of(list@)),
{
    let mut document = with_version("1.5");
    let mut i: usize = 0;
    assert(list@.take(0).len() == 0);
    while i < list.len()
        invariant
            i <= list.len(),
            view_of(document) == (DocumentView {
                objects: table_of(list@.take(i as int)),
                trailer: Map::empty(),
                max_id: 0,
                bookmarks: Seq::empty(),
                max_bookmark_id: 0,
            }),
            ascending(table_of(list@.take(i as int))),
        decreases list.len() - i,
    {
        proof {
            assert(list@.take(i + 1).drop_last() == list@.take(i as int));
            assert(list@.take(i + 1).last() == list@[i as int]);
            lemma_inserted(table_of(list@.take(i as int)), list@[i as int].0, list@[i as int].1);
        }
        insert_object(&mut document, list[i].0, clone_object(&list[i].1));
        i += 1;
    }
    assert(list@.take(i as int) == list@);
    document
}

/// Adds the bookmarks to a document that has none: each in blue, in plain type, at the top
/// level.
fn add_bookmarks(document: &mut lopdf::Document, bookmarks: &Vec<Bookmark>)
    requires
        view_of(*old(document)).bookmarks.len() == 0,
        view_of(*old(document)).max_bookmark_id == 0,
        bookmarks.len() < u32::MAX,
    ensures
        view_of(*final(document)) == (DocumentView {
            bookmarks: bookmark_views(bookmarks@),
            max_bookmark_id: bookmarks.len() as u32,
            ..view_of(*old(document))
        }),
{
    let mut j: usize = 0;
    assert(view_of(*document).bookmarks =~= bookmark_views(bookmarks@).take(0));
    while j < bookmarks.len()
        invariant
            j <= bookmarks.len(),
            bookmarks.len() < u32::MAX,
            view_of(*document) == (DocumentView {
                bookmarks: bookmark_views(bookmarks@).take(j as int),
                max_bookmark_id: j as u32,
                ..view_of(*old(document))
            }),
        decreases bookmarks.len() - j,
    {
        let title = bookmarks[j].title.clone();
        add_bookmark(document, title, (0, 0, 1), 0, bookmarks[j].page);
        assert(bookmark_views(bookmarks@).take(j as int).push((title@, bookmarks[j as int].page))
            =~= bookmark_views(bookmarks@).take(j + 1));
        j += 1;
    }
    assert(bookmark_views(bookmarks@).take(j as int) =~= bookmark_views(bookmarks@));
}

/// Links the root node of a document to its outline, where it has both.
fn link(document: &mut lopdf::Document, outline: Option<ObjectId>, Ghost(compact): Ghost<
    lopdf::Document,
>)
    requires
        *old(document) == outlined(compact),
        outline is Some <==> view_of(compact).bookmarks.len() > 0,
        outline is Some ==> outline.unwrap() == ((view_of(compact).max_id + 1) as u32, 0u16),
        ascending(view_of(*old(document)).objects),
    ensures
        linked(*final(document), compact),
        view_of(*final(document)).objects.len() == view_of(*old(document)).objects.len(),
        forall|k: int|
            0 <= k < view_of(*old(document)).objects.len() ==> (#[trigger] view_of(
                *final(document),
            ).objects[k]).0 == view_of(*old(document)).objects[k].0,
        view_of(*final(document)).max_id == view_of(*old(document)).max_id,
        view_of(*final(document)).bookmarks == view_of(*old(document)).bookmarks,
{
    let target = match outline {
        Some(target) => target,
        None => {
            return ;
        },
    };
    let root = match trailer_reference(document, &names::root_name()) {
        Some(root) => root,
        None => {
            return ;
        },
    };
    let mut node = match get_object(document, root) {
        Some(node) => node,
        None => {
            return ;
        },
    };
    if fields(&node).is_none() {
        return ;
    }
    let ghost table = view_of(*document).objects;
    set_field(&mut node, &names::outlines_name(), reference(target));
    proof {
        let i = choose|i: int| 0 <= i < table.len() && #[trigger] table[i].0 == root;
        lemma_inserted_at(table, i, node);
    }
    insert_object(document, root, node);
}

/// The last pass. It ends without a document where the objects, with those of the outline,
/// are more than can be numbered.
pub fn finish(composite: &Composite, bookmarks: &Vec<Bookmark>) -> (result: Result<
    lopdf::Document,
    MergeError,
>)
    ensures
        match result {
            Ok(document) => {
                &&& !too_large(composite.insertions@, bookmarks.len() as nat)
                &&& finished(
                    document,
                    composite.insertions@,
                    composite.root,
                    bookmark_views(bookmarks@),
                )
                &&& numbered_from(view_of(document).objects, 1)
                &&& view_of(document).max_id == view_of(document).objects.len()
                &&& titled_as(view_of(document).bookmarks, bookmark_views(bookmarks@))
            },
            Err(error) => error == MergeError::TooLarge && too_large(
                composite.insertions@,
                bookmarks.len() as nat,
            ),
        },
{
    let mut document = store(&composite.insertions);
    let count = object_count(&document);
    if count > 0x7fff_ffff || bookmarks.len() > (0xffff_ffff - 1 - count) / 2 {
        return Err(MergeError::TooLarge);
    }
    add_bookmarks(&mut document, bookmarks);
    set_trailer_reference(&mut document, &names::root_name(), composite.root);
    set_max_id(&mut document, count as u32);
    let ghost built = document;
    assert(view_of(built) == built_view(
        composite.insertions@,
        composite.root,
        bookmark_views(bookmarks@),
    ));
    let mut compact = match compact(&document) {
        Some(compact) => compact,
        None => {
            return Err(MergeError::TooLarge);
        },
    };
    adjust_zero_pages(&mut compact);
    let ghost adjusted = compact;
    let outline = build_outline(&mut compact);
    proof {
        let before = view_of(adjusted);
        let after = view_of(compact);
        assert forall|k: int| 0 <= k < after.objects.len() implies (#[trigger] after.objects[k]).0.0
            == 1 + k by {
            if bookmarks.len() > 0 {
                if k < before.objects.len() {
                    assert(after.objects[k] == before.objects[k]);
                } else {
                    let j = k - before.objects.len();
                    assert(after.objects[before.objects.len() + j].0 == (
                        (before.max_id + 1 + j) as u32,
                        0u16,
                    ));
                }
            }
        }
    }
    link(&mut compact, outline, Ghost(adjusted));
    let ghost after = compact;
    compress(&mut compact);
    assert(finished(compact, composite.insertions@, composite.root, bookmark_views(bookmarks@)))
        by {
        assert(view_of(built) == built_view(
            composite.insertions@,
            composite.root,
            bookmark_views(bookmarks@),
        ) && linked(after, zero_pages_adjusted(renumbered(built, 1))) && compact == compressed(
            after,
        ));
    }
    Ok(compact)
}

} // verus!
