//! The first pass of a merge: each input document is renumbered behind the one before it, its
//! pages are walked, its first page gets a bookmark, and its objects join the common table.

use crate::document::{can_renumber, into_objects, pages_of, renumbered, view_of};
use crate::identifiers::{numbered_from, renumber_from};
use crate::label::{label, page_label};
use crate::object::{Entry, ObjectId};
use crate::pages::{are_dictionaries, page_entries, walk};
use vstd::prelude::*;

verus! {

/// A navigation entry: a title, and the page that it opens. In the composite document every
/// bookmark stands at the top level, in plain type and in blue.
#[derive(Debug)]
pub struct Bookmark {
    /// The text shown for the entry.
    pub title: String,
    /// The identifier of the page that the entry opens.
    pub page: ObjectId,
}

impl View for Bookmark {
    type V = (Seq<char>, ObjectId);

    open spec fn view(&self) -> (Seq<char>, ObjectId) {
        (self.title@, self.page)
    }
}

/// What the first pass gathers from the inputs.
#[derive(Debug)]
pub struct Collected {
    /// The objects of all inputs, in ascending order of identifier.
    pub objects: Vec<Entry>,
    /// The pages of all inputs: input by input, and in page order within one.
    pub pages: Vec<Entry>,
    /// One bookmark for each input that has a page, in input order.
    pub bookmarks: Vec<Bookmark>,
}

/// The number that the first object of input `n` gets: 1 for the first input, and after that
/// one more than the greatest number of the input before.
pub open spec fn start_of(documents: Seq<lopdf::Document>, n: nat) -> u32
    decreases n,
{
    if n == 0 {
        1
    } else {
        (view_of(renumbered(documents[n - 1], start_of(documents, (n - 1) as nat))).max_id
            + 1) as u32
    }
}

/// Input `n`, renumbered behind the inputs before it.
pub open spec fn shifted(documents: Seq<lopdf::Document>, n: int) -> lopdf::Document {
    renumbered(documents[n], start_of(documents, n as nat))
}

/// The first `n` inputs can each be renumbered behind the one before.
pub open spec fn fits(documents: Seq<lopdf::Document>, n: nat) -> bool {
    forall|i: int|
        0 <= i < n ==> can_renumber(view_of(#[trigger] documents[i]), start_of(documents, i as nat))
}

/// The objects of the first `n` inputs after renumbering, input after input.
pub open spec fn objects_upto(documents: Seq<lopdf::Document>, n: nat) -> Seq<Entry>
    decreases n,
{
    if n == 0 {
        Seq::empty()
    } else {
        objects_upto(documents, (n - 1) as nat) + view_of(shifted(documents, n - 1)).objects
    }
}

/// The pages of the first `n` inputs after renumbering, input after input.
pub open spec fn pages_upto(documents: Seq<lopdf::Document>, n: nat) -> Seq<Entry>
    decreases n,
{
    if n == 0 {
        Seq::empty()
    } else {
        pages_upto(documents, (n - 1) as nat) + page_entries(shifted(documents, n - 1))
    }
}

/// The first of the pages, where there is one.
pub open spec fn first_page(pages: Seq<ObjectId>) -> Option<ObjectId> {
    if pages.len() == 0 {
        None
    } else {
        Some(pages[0])
    }
}

/// The bookmarks for the first `n` inputs: one for each input that has a page, titled with
/// its rank among those, and opening that input's first page.
pub open spec fn bookmarks_upto(documents: Seq<lopdf::Document>, n: nat) -> Seq<
    (Seq<char>, ObjectId),
>
    decreases n,
{
    if n == 0 {
        Seq::empty()
    } else {
        noted(
            bookmarks_upto(documents, (n - 1) as nat),
            first_page(pages_of(shifted(documents, n - 1))),
        )
    }
}

/// The titles and pages of a list of bookmarks.
pub open spec fn bookmark_views(bookmarks: Seq<Bookmark>) -> Seq<(Seq<char>, ObjectId)> {
    bookmarks.map_values(|bookmark: Bookmark| bookmark@)
}

/// The bookmark for an input whose first page is `first`, behind those in `bookmarks`: titled
/// with its rank, and opening that page. An input without pages gets none.
pub open spec fn noted(bookmarks: Seq<(Seq<char>, ObjectId)>, first: Option<ObjectId>) -> Seq<
    (Seq<char>, ObjectId),
> {
    match first {
        Some(page) => bookmarks.push((page_label(bookmarks.len() + 1), page)),
        None => bookmarks,
    }
}

/// Adds the bookmark for the next input to those made so far.
pub fn note_first_page(bookmarks: &mut Vec<Bookmark>, first: Option<ObjectId>)
    requires
        old(bookmarks).len() < usize::MAX,
    ensures
        bookmark_views(final(bookmarks)@) == noted(bookmark_views(old(bookmarks)@), first),
        final(bookmarks).len() == old(bookmarks).len() + if first is Some {
            1int
        } else {
            0int
        },
{
    match first {
        Some(page) => {
            let title = label(bookmarks.len() + 1);
            bookmarks.push(Bookmark { title, page });
            assert(bookmark_views(bookmarks@) =~= bookmark_views(old(bookmarks)@).push(
                (page_label((old(bookmarks).len() + 1) as nat), page),
            ));
        },
        None => {},
    }
}

/// The first pass over the inputs, in their order. It gives up, with nothing gathered, as soon
/// as an input cannot be renumbered behind the one before within 32 bits.
pub fn collect(documents: &Vec<lopdf::Document>) -> (collected: Option<Collected>)
    ensures
        match collected {
            Some(c) => {
                &&& fits(documents@, documents.len() as nat)
                &&& c.objects@ == objects_upto(documents@, documents.len() as nat)
                &&& c.pages@ == pages_upto(documents@, documents.len() as nat)
                &&& bookmark_views(c.bookmarks@) == bookmarks_upto(
                    documents@,
                    documents.len() as nat,
                )
                &&& numbered_from(c.objects@, 1)
                &&& c.objects.len() < u32::MAX
                &&& c.pages.len() <= c.objects.len()
                &&& c.bookmarks.len() <= documents.len()
                &&& are_dictionaries(c.pages@)
            },
            None => !fits(documents@, documents.len() as nat),
        },
{
    let mut objects: Vec<Entry> = Vec::new();
    let mut pages: Vec<Entry> = Vec::new();
    let mut bookmarks: Vec<Bookmark> = Vec::new();
    let mut start: u32 = 1;
    let mut i: usize = 0;
    assert(bookmark_views(bookmarks@) =~= bookmarks_upto(documents@, 0));
    while i < documents.len()
        invariant
            i <= documents.len(),
            1 <= start,
            start == start_of(documents@, i as nat),
            fits(documents@, i as nat),
            objects@ == objects_upto(documents@, i as nat),
            pages@ == pages_upto(documents@, i as nat),
            bookmark_views(bookmarks@) == bookmarks_upto(documents@, i as nat),
            numbered_from(objects@, 1),
            objects.len() == start - 1,
            pages.len() <= objects.len(),
            bookmarks.len() <= i,
            are_dictionaries(pages@),
        decreases documents.len() - i,
    {
        let (document, last) = match renumber_from(&documents[i], start) {
            Some(renumbered) => renumbered,
            None => {
                return None;
            },
        };
        assert(document == shifted(documents@, i as int));
        let next: u32 = last + 1;
        let mut walked = walk(&document);
        let first = if walked.len() == 0 {
            None
        } else {
            Some(walked[0].0)
        };
        note_first_page(&mut bookmarks, first);
        pages.append(&mut walked);
        let ghost shifted_objects = view_of(document).objects;
        let ghost earlier = objects@;
        let mut added = into_objects(document);
        objects.append(&mut added);
        proof {
            assert(objects@ == earlier + shifted_objects);
            assert forall|k: int| 0 <= k < objects.len() implies (#[trigger] objects@[k]).0.0 == 1
                + k by {
                if k >= earlier.len() {
                    assert(objects@[k] == shifted_objects[k - earlier.len()]);
                }
            }
            assert forall|j: int| 0 <= j < i + 1 implies can_renumber(
                view_of(#[trigger] documents@[j]),
                start_of(documents@, j as nat),
            ) by {}
        }
        start = next;
        i += 1;
    }
    Some(Collected { objects, pages, bookmarks })
}

} // verus!
