//! The third pass of a merge: the pages are hung under the one page-tree root, the roots are
//! finished, and everything that the composite document will hold is lined up for storing.

use crate::consolidate::{Consolidated, Fields, Roots};
use crate::error::MergeError;
use crate::names;
use crate::pages::are_dictionaries;
use crate::object::{
    array, array_of, clone_object, fields, fields_of, integer, integer_value, reference,
    reference_to, remove_field, set_field, Entry, ObjectId,
};
use vstd::prelude::*;

verus! {

/// The objects of a composite document before it is renumbered.
#[derive(Debug)]
pub struct Composite {
    /// The objects to store, in the order in which they are stored: those that passed through,
    /// the pages, the page-tree root, and the root node if it is a dictionary. A later one
    /// replaces an earlier one with the same identifier.
    pub insertions: Vec<Entry>,
    /// The identifier of the root node, to which the trailer refers.
    pub root: ObjectId,
}

/// The entries of a page hung under the page-tree root `tree`.
pub open spec fn page_fields(page: Fields, tree: ObjectId) -> Fields {
    page.insert(names::parent(), reference_to(tree))
}

/// References to the pages, in their order.
pub open spec fn page_references(pages: Seq<Entry>) -> Seq<lopdf::Object> {
    Seq::new(pages.len(), |i: int| reference_to(pages[i].0))
}

/// The entries of the finished page-tree root: the number of pages, and the pages as its
/// children.
pub open spec fn tree_fields(tree: Fields, pages: Seq<Entry>) -> Fields {
    tree.insert(names::count(), integer_value(pages.len() as i64)).insert(
        names::kids(),
        array_of(page_references(pages)),
    )
}

/// The entries of the finished root node: it refers to the page-tree root `tree`, and to no
/// navigation root.
pub open spec fn root_fields(root: Fields, tree: ObjectId) -> Fields {
    root.insert(names::pages(), reference_to(tree)).remove(names::outlines())
}

/// `list`, with the root node `root`, is what the third pass makes of `pages` and of the roots
/// and objects in `kept`, where `kept` holds both roots.
pub open spec fn assembled(list: Seq<Entry>, root: ObjectId, pages: Seq<Entry>, kept: Roots) -> bool {
    let tree = kept.page_tree_root.unwrap();
    let node = kept.root_node.unwrap();
    let passed = kept.others.len() as int;
    let hung = passed + pages.len();
    &&& root == node.0
    &&& list.len() == hung + 1 + if fields_of(node.1) is Some {
        1int
    } else {
        0int
    }
    &&& forall|i: int| 0 <= i < passed ==> #[trigger] list[i] == kept.others[i]
    &&& forall|i: int|
        0 <= i < pages.len() ==> (#[trigger] list[passed + i]).0 == pages[i].0 && fields_of(
            list[passed + i].1,
        ) == Some(page_fields(fields_of(pages[i].1).unwrap(), tree.0))
    &&& list[hung].0 == tree.0
    &&& fields_of(list[hung].1) == Some(tree_fields(tree.1, pages))
    &&& fields_of(node.1) is Some ==> list[hung + 1].0 == node.0 && fields_of(list[hung + 1].1)
        == Some(root_fields(fields_of(node.1).unwrap(), tree.0))
}

/// Makes the references to the pages, in their order.
fn refer_to_pages(pages: &Vec<Entry>) -> (references: Vec<lopdf::Object>)
    ensures
        references@ == page_references(pages@),
{
    let mut references: Vec<lopdf::Object> = Vec::new();
    let mut i: usize = 0;
    while i < pages.len()
        invariant
            i <= pages.len(),
            references@ == page_references(pages@).take(i as int),
        decreases pages.len() - i,
    {
        references.push(reference(pages[i].0));
        assert(references@ =~= page_references(pages@).take(i + 1));
        i += 1;
    }
    assert(page_references(pages@).take(i as int) =~= page_references(pages@));
    references
}

/// The third pass. It ends without a composite where the inputs brought no page-tree root,
/// then where they brought no root node, then where the pages cannot be counted in 32 bits.
pub fn assemble(pages: &Vec<Entry>, kept: Consolidated) -> (result: Result<Composite, MergeError>)
    requires
        kept.wf(),
        are_dictionaries(pages@),
    ensures
        match result {
            Ok(composite) => {
                &&& kept.page_tree_root is Some
                &&& kept.root_node is Some
                &&& pages.len() <= u32::MAX
                &&& assembled(composite.insertions@, composite.root, pages@, kept@)
            },
            Err(MergeError::NoPageTreeRoot) => kept.page_tree_root is None,
            Err(MergeError::NoRootNode) => kept.page_tree_root is Some && kept.root_node is None,
            Err(MergeError::TooLarge) => kept.page_tree_root is Some && kept.root_node is Some
                && pages.len() > u32::MAX,
        },
{
    let Consolidated { root_node, page_tree_root, others } = kept;
    let (tree_id, mut tree) = match page_tree_root {
        Some(tree) => tree,
        None => {
            return Err(MergeError::NoPageTreeRoot);
        },
    };
    let ghost merged = fields_of(tree).unwrap();
    let mut insertions = others;
    let passed = insertions.len();
    let mut i: usize = 0;
    while i < pages.len()
        invariant
            i <= pages.len(),
            passed == kept.others.len(),
            insertions.len() == passed + i,
            are_dictionaries(pages@),
            forall|k: int| 0 <= k < passed ==> #[trigger] insertions[k] == kept.others[k],
            forall|k: int|
                0 <= k < i ==> (#[trigger] insertions[passed + k]).0 == pages[k].0 && fields_of(
                    insertions[passed + k].1,
                ) == Some(page_fields(fields_of(pages[k].1).unwrap(), tree_id)),
        decreases pages.len() - i,
    {
        let mut page = clone_object(&pages[i].1);
        assert(fields_of(pages@[i as int].1) is Some);
        set_field(&mut page, &names::parent_name(), reference(tree_id));
        let ghost before = insertions@;
        insertions.push((pages[i].0, page));
        proof {
            assert forall|k: int| 0 <= k < i + 1 implies (#[trigger] insertions[passed + k]).0
                == pages[k].0 && fields_of(insertions[passed + k].1) == Some(
                page_fields(fields_of(pages[k].1).unwrap(), tree_id),
            ) by {
                if k < i {
                    assert(insertions[passed + k] == before[passed + k]);
                }
            }
        }
        i += 1;
    }
    let root = match root_node {
        Some(root) => root,
        None => {
            return Err(MergeError::NoRootNode);
        },
    };
    if pages.len() > 0xffff_ffff {
        return Err(MergeError::TooLarge);
    }
    set_field(&mut tree, &names::count_name(), integer(pages.len() as i64));
    set_field(&mut tree, &names::kids_name(), array(refer_to_pages(pages)));
    let ghost hung = insertions@;
    insertions.push((tree_id, tree));
    let (root_id, mut root_object) = root;
    let ghost root_before = root_object;
    if fields(&root_object).is_some() {
        set_field(&mut root_object, &names::pages_name(), reference(tree_id));
        remove_field(&mut root_object, &names::outlines_name());
        insertions.push((root_id, root_object));
    }
    let composite = Composite { insertions, root: root_id };
    proof {
        let list = composite.insertions@;
        assert forall|k: int| 0 <= k < passed implies #[trigger] list[k] == kept.others[k] by {
            assert(list[k] == hung[k]);
        }
        assert forall|k: int| 0 <= k < pages.len() implies (#[trigger] list[passed + k]).0
            == pages[k].0 && fields_of(list[passed + k].1) == Some(
            page_fields(fields_of(pages[k].1).unwrap(), tree_id),
        ) by {
            assert(list[passed + k] == hung[passed + k]);
        }
    }
    Ok(composite)
}

} // verus!
