//! The pages of a document, found by walking its page tree.

use crate::document::{get_object, page_ids, pages_of, resolved, view_of};
use crate::object::{fields_of, Entry};
use vstd::prelude::*;

verus! {

/// The pages of a document in page order, each with the object found under its identifier.
pub open spec fn page_entries(document: lopdf::Document) -> Seq<Entry> {
    Seq::new(
        pages_of(document).len(),
        |i: int| (pages_of(document)[i], resolved(document, pages_of(document)[i])->0),
    )
}

/// Every page is a dictionary.
pub open spec fn are_dictionaries(pages: Seq<Entry>) -> bool {
    forall|i: int| 0 <= i < pages.len() ==> fields_of((#[trigger] pages[i]).1) is Some
}

/// Walks the page tree of a document and gives its pages in page order, each a dictionary
/// under its identifier. A document has no more pages than objects.
pub fn walk(document: &lopdf::Document) -> (pages: Vec<Entry>)
    ensures
        pages@ == page_entries(*document),
        are_dictionaries(pages@),
        pages.len() <= view_of(*document).objects.len(),
{
    let ids = page_ids(document);
    let mut pages: Vec<Entry> = Vec::new();
    let mut j: usize = 0;
    while j < ids.len()
        invariant
            j <= ids.len(),
            ids@ == pages_of(*document),
            pages@ == page_entries(*document).take(j as int),
            are_dictionaries(pages@),
            forall|i: int|
                0 <= i < ids.len() ==> (#[trigger] resolved(*document, ids[i])) is Some
                    && fields_of(resolved(*document, ids[i])->0) is Some,
        decreases ids.len() - j,
    {
        let id = ids[j];
        let found = get_object(document, id);
        assert(resolved(*document, ids[j as int]) is Some);
        let object = found.unwrap();
        pages.push((id, object));
        assert(pages@ =~= page_entries(*document).take(j + 1));
        j += 1;
    }
    assert(page_entries(*document).take(j as int) =~= page_entries(*document));
    pages
}

} // verus!
