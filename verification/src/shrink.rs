//! Reducing the size of a document by compressing its streams.

use crate::document::{compress, compressed, view_of};
use crate::object::fields_of;
use vstd::prelude::*;

verus! {

/// Compresses the streams of a document. Every object keeps its identifier, every dictionary
/// stays as it is, and nothing is added or removed.
pub fn shrink(document: &mut lopdf::Document)
    ensures
        *final(document) == compressed(*old(document)),
        view_of(*final(document)).objects.len() == view_of(*old(document)).objects.len(),
        forall|k: int|
            0 <= k < view_of(*old(document)).objects.len() ==> (#[trigger] view_of(
                *final(document),
            ).objects[k]).0 == view_of(*old(document)).objects[k].0,
        forall|k: int|
            0 <= k < view_of(*old(document)).objects.len() && fields_of(
                view_of(*old(document)).objects[k].1,
            ) is Some ==> #[trigger] view_of(*final(document)).objects[k] == view_of(
                *old(document),
            ).objects[k],
        view_of(*final(document)).trailer == view_of(*old(document)).trailer,
        view_of(*final(document)).max_id == view_of(*old(document)).max_id,
        view_of(*final(document)).bookmarks == view_of(*old(document)).bookmarks,
{
    compress(document);
}

} // verus!
