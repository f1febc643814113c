//! The identifier space of a document: its objects can be numbered anew from a given number,
//! either to stand behind another document or to close the gaps in their own numbering.

use crate::document::{
    can_renumber, max_id, object_count, renumber, renumbered, view_of, DocumentView,
};
use crate::object::Entry;
use vstd::prelude::*;

verus! {

/// The `k`-th entry of the table carries the number `first + k`.
pub open spec fn numbered_from(entries: Seq<Entry>, first: int) -> bool {
    forall|k: int| 0 <= k < entries.len() ==> (#[trigger] entries[k]).0.0 == first + k
}

/// The bookmarks of `after` are those of `before`, but for the pages they open.
pub open spec fn keeps_bookmarks(after: DocumentView, before: DocumentView) -> bool {
    &&& after.max_bookmark_id == before.max_bookmark_id
    &&& after.bookmarks.len() == before.bookmarks.len()
    &&& forall|i: int|
        0 <= i < before.bookmarks.len() ==> (#[trigger] after.bookmarks[i]).0
            == before.bookmarks[i].0
}

/// Numbers the objects of a document anew, in their order, from `start`; references follow the
/// objects they point at. The greatest number given comes back with the new document, and is
/// what the document then declares. Nothing is done where `start` is 0, or where the last
/// number would not fit in 32 bits.
pub fn renumber_from(document: &lopdf::Document, start: u32) -> (result: Option<
    (lopdf::Document, u32),
>)
    ensures
        match result {
            Some((shifted, last)) => {
                &&& can_renumber(view_of(*document), start)
                &&& shifted == renumbered(*document, start)
                &&& numbered_from(view_of(shifted).objects, start as int)
                &&& view_of(shifted).objects.len() <= view_of(*document).objects.len()
                &&& last == view_of(shifted).max_id
                &&& last == start + view_of(shifted).objects.len() - 1
                &&& keeps_bookmarks(view_of(shifted), view_of(*document))
            },
            None => !can_renumber(view_of(*document), start),
        },
{
    let count = object_count(document);
    if start == 0 || count > 0x7fff_ffff || count > (u32::MAX - start) as usize {
        return None;
    }
    let shifted = renumber(document, start);
    let last = max_id(&shifted);
    Some((shifted, last))
}

/// Numbers the objects of a document anew from 1, without gaps. Nothing is done where the
/// objects are more than 31 bits can count.
pub fn compact(document: &lopdf::Document) -> (result: Option<lopdf::Document>)
    ensures
        match result {
            Some(dense) => {
                &&& can_renumber(view_of(*document), 1)
                &&& dense == renumbered(*document, 1)
                &&& numbered_from(view_of(dense).objects, 1)
                &&& view_of(dense).objects.len() <= view_of(*document).objects.len()
                &&& view_of(dense).max_id == view_of(dense).objects.len()
                &&& keeps_bookmarks(view_of(dense), view_of(*document))
            },
            None => !can_renumber(view_of(*document), 1),
        },
{
    match renumber_from(document, 1) {
        Some((dense, _)) => Some(dense),
        None => None,
    }
}

} // verus!
