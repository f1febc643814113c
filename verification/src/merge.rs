//! The merge of several documents into one: the four passes, one after the other.

use crate::assemble::{assemble, assembled};
use crate::collect::{bookmarks_upto, collect, fits, objects_upto, pages_upto};
use crate::consolidate::{consolidate, consolidated};
use crate::document::view_of;
use crate::error::MergeError;
use crate::finish::{finish, finished, titled_as, too_large};
use crate::identifiers::numbered_from;
use crate::object::Entry;
use vstd::prelude::*;

verus! {

/// `document` is the merge of `documents`: the composite of the pages and of the consolidated
/// roots and objects of all of them, finished with one bookmark for each input that has a
/// page.
pub open spec fn merged(document: lopdf::Document, documents: Seq<lopdf::Document>) -> bool {
    let n = documents.len();
    let kept = consolidated(objects_upto(documents, n));
    exists|list: Seq<Entry>|
        {
            &&& #[trigger] assembled(
                list,
                kept.root_node.unwrap().0,
                pages_upto(documents, n),
                kept,
            )
            &&& !too_large(list, bookmarks_upto(documents, n).len())
            &&& finished(
                document,
                list,
                kept.root_node.unwrap().0,
                bookmarks_upto(documents, n),
            )
        }
}

/// The objects of the composite of `documents`, with those of its outline, are more than can
/// be numbered.
pub open spec fn outgrown(documents: Seq<lopdf::Document>) -> bool {
    let n = documents.len();
    let kept = consolidated(objects_upto(documents, n));
    exists|list: Seq<Entry>|
        {
            &&& #[trigger] assembled(
                list,
                kept.root_node.unwrap().0,
                pages_upto(documents, n),
                kept,
            )
            &&& too_large(list, bookmarks_upto(documents, n).len())
        }
}

/// Merges the documents, in their order, into one. The inputs must bring a page-tree root and
/// a root node between them, and all that the composite holds must stay within 32-bit
/// numbering; otherwise no document comes out, and the error says which of these failed. The
/// objects of the document that comes out are numbered from 1 without gaps.
pub fn merge(documents: &Vec<lopdf::Document>) -> (result: Result<lopdf::Document, MergeError>)
    ensures
        match result {
            Ok(document) => {
                let kept = consolidated(objects_upto(documents@, documents.len() as nat));
                &&& fits(documents@, documents.len() as nat)
                &&& kept.page_tree_root is Some
                &&& kept.root_node is Some
                &&& merged(document, documents@)
                &&& numbered_from(view_of(document).objects, 1)
                &&& view_of(document).max_id == view_of(document).objects.len()
                &&& titled_as(
                    view_of(document).bookmarks,
                    bookmarks_upto(documents@, documents.len() as nat),
                )
            },
            Err(MergeError::NoPageTreeRoot) => {
                let kept = consolidated(objects_upto(documents@, documents.len() as nat));
                fits(documents@, documents.len() as nat) && kept.page_tree_root is None
            },
            Err(MergeError::NoRootNode) => {
                let kept = consolidated(objects_upto(documents@, documents.len() as nat));
                fits(documents@, documents.len() as nat) && kept.page_tree_root is Some
                    && kept.root_node is None
            },
            Err(MergeError::TooLarge) => {
                let kept = consolidated(objects_upto(documents@, documents.len() as nat));
                !fits(documents@, documents.len() as nat) || (kept.page_tree_root is Some
                    && kept.root_node is Some && outgrown(documents@))
            },
        },
{
    let collected = match collect(documents) {
        Some(collected) => collected,
        None => {
            return Err(MergeError::TooLarge);
        },
    };
    let kept = consolidate(&collected.objects);
    let ghost roots = kept@;
    let composite = match assemble(&collected.pages, kept) {
        Ok(composite) => composite,
        Err(error) => {
            return Err(error);
        },
    };
    proof {
        assert(bookmarks_upto(documents@, documents.len() as nat).len()
            == collected.bookmarks.len()) by {
            assert(crate::collect::bookmark_views(collected.bookmarks@).len()
                == collected.bookmarks.len());
        }
    }
    match finish(&composite, &collected.bookmarks) {
        Ok(document) => {
            assert(merged(document, documents@)) by {
                assert(assembled(
                    composite.insertions@,
                    composite.root,
                    collected.pages@,
                    roots,
                ));
            }
            Ok(document)
        },
        Err(error) => {
            assert(outgrown(documents@)) by {
                assert(assembled(
                    composite.insertions@,
                    composite.root,
                    collected.pages@,
                    roots,
                ));
            }
            Err(error)
        },
    }
}

} // verus!
