//! What holds of every merge, proved from the definitions of its passes.

use crate::assemble::{assembled, page_fields, page_references, root_fields, tree_fields};
use crate::classify::{class_of, ObjectClass};
use crate::collect::{bookmarks_upto, objects_upto, pages_upto, shifted};
use crate::consolidate::{consolidated, Roots};
use crate::document::pages_of;
use crate::identifiers::numbered_from;
use crate::pages::page_entries;
use crate::entries::{
    ascending, lemma_ascending_is_unique, lemma_same_identifiers, lemma_table_of, lookup,
    present, table_of,
};
use crate::label::page_label;
use crate::names;
use crate::object::{array_of, fields_of, integer_value, reference_to, Entry, ObjectId};
use vstd::prelude::*;

verus! {

/// The number of pages of the first `n` inputs together.
pub open spec fn page_total(documents: Seq<lopdf::Document>, n: nat) -> nat
    decreases n,
{
    if n == 0 {
        0
    } else {
        page_total(documents, (n - 1) as nat) + pages_of(shifted(documents, n - 1)).len()
    }
}

/// The number of inputs among the first `n` that have a page.
pub open spec fn inputs_with_pages(documents: Seq<lopdf::Document>, n: nat) -> nat
    decreases n,
{
    if n == 0 {
        0
    } else {
        inputs_with_pages(documents, (n - 1) as nat) + if pages_of(
            shifted(documents, n - 1),
        ).len() > 0 {
            1nat
        } else {
            0nat
        }
    }
}

/// The object is a page-tree root: it names the type `Pages` and is a dictionary.
pub open spec fn is_page_tree_root(object: lopdf::Object) -> bool {
    class_of(object) == ObjectClass::PageTreeRoot && fields_of(object) is Some
}

/// The object is a root node: it names the type `Catalog`.
pub open spec fn is_root_node(object: lopdf::Object) -> bool {
    class_of(object) == ObjectClass::RootNode
}

/// Some object of the table carries the number `number`.
pub open spec fn carries(entries: Seq<Entry>, number: int) -> bool {
    exists|k: int| 0 <= k < entries.len() && (#[trigger] entries[k]).0.0 == number
}

/// Uniqueness before renumbering: in the table of a composite no two entries share an
/// identifier.
pub proof fn law_identifiers_are_unique(list: Seq<Entry>, i: int, j: int)
    requires
        0 <= i < j < table_of(list).len(),
    ensures
        table_of(list)[i].0 != table_of(list)[j].0,
{
    lemma_table_of(list);
    if table_of(list)[i].0 == table_of(list)[j].0 {
        lemma_ascending_is_unique(table_of(list), i, j);
    }
}

/// Uniqueness after renumbering: where the `k`-th object carries the number `k + 1`, as in
/// every document that a merge returns, the numbers in use are exactly those from 1 to the
/// number of objects, each used once.
pub proof fn law_numbers_are_dense(entries: Seq<Entry>)
    requires
        numbered_from(entries, 1),
    ensures
        forall|k: int| 0 <= k < entries.len() ==> 1 <= (#[trigger] entries[k]).0.0 <= entries.len(),
        forall|n: int| 1 <= n <= entries.len() ==> #[trigger] carries(entries, n),
        forall|i: int, j: int|
            0 <= i < j < entries.len() ==> (#[trigger] entries[i]).0 != (#[trigger] entries[j]).0,
{
    assert forall|n: int| 1 <= n <= entries.len() implies #[trigger] carries(entries, n) by {
        assert(entries[n - 1].0.0 == n);
    }
}

/// Referential integrity of what a merge writes: the page-tree root that every page and the
/// root node refer to, the pages that the page-tree root lists as its children, and the root
/// node that the trailer refers to where it is a dictionary are all stored in the composite.
pub proof fn law_written_references_resolve(
    list: Seq<Entry>,
    root: ObjectId,
    pages: Seq<Entry>,
    kept: Roots,
)
    requires
        kept.page_tree_root is Some,
        kept.root_node is Some,
        assembled(list, root, pages, kept),
    ensures
        present(table_of(list), kept.page_tree_root.unwrap().0),
        forall|i: int| 0 <= i < pages.len() ==> present(table_of(list), (#[trigger] pages[i]).0),
        fields_of(kept.root_node.unwrap().1) is Some ==> present(table_of(list), root),
{
    lemma_table_of(list);
    let passed = kept.others.len() as int;
    let hung = passed + pages.len();
    assert(list[hung].0 == kept.page_tree_root.unwrap().0);
    assert forall|i: int| 0 <= i < pages.len() implies present(
        table_of(list),
        (#[trigger] pages[i]).0,
    ) by {
        assert(list[passed + i].0 == pages[i].0);
        assert(present(list, pages[i].0));
    }
    if fields_of(kept.root_node.unwrap().1) is Some {
        assert(list[hung + 1].0 == root);
        assert(present(list, root));
    }
}

/// One root of each kind: of the objects that pass through into the composite none is a root
/// node, a page-tree root, a page or a navigation object, so that the composite holds no roots
/// but the two that consolidation keeps.
pub proof fn law_no_other_roots_remain(
    list: Seq<Entry>,
    root: ObjectId,
    pages: Seq<Entry>,
    entries: Seq<Entry>,
)
    requires
        consolidated(entries).page_tree_root is Some,
        consolidated(entries).root_node is Some,
        assembled(list, root, pages, consolidated(entries)),
    ensures
        forall|k: int|
            0 <= k < consolidated(entries).others.len() ==> class_of((#[trigger] list[k]).1)
                == ObjectClass::Other,
{
    lemma_others_pass_through(entries);
    assert forall|k: int| 0 <= k < consolidated(entries).others.len() implies class_of(
        (#[trigger] list[k]).1,
    ) == ObjectClass::Other by {
        assert(list[k] == consolidated(entries).others[k]);
    }
}

/// Every page hangs under the one page-tree root: in the composite the entry `Parent` of each
/// page refers to the page-tree root that consolidation keeps.
pub proof fn law_pages_hang_under_the_page_tree_root(
    list: Seq<Entry>,
    root: ObjectId,
    pages: Seq<Entry>,
    kept: Roots,
    i: int,
)
    requires
        kept.page_tree_root is Some,
        kept.root_node is Some,
        assembled(list, root, pages, kept),
        0 <= i < pages.len(),
    ensures
        list[kept.others.len() + i].0 == pages[i].0,
        fields_of(list[kept.others.len() + i].1) is Some,
        fields_of(list[kept.others.len() + i].1).unwrap()[names::parent()] == reference_to(
            kept.page_tree_root.unwrap().0,
        ),
{
    let passed = kept.others.len() as int;
    assert(list[passed + i].0 == pages[i].0);
}

/// The pages gathered from the first `n` inputs are as many as those inputs have together.
pub proof fn lemma_pages_upto_len(documents: Seq<lopdf::Document>, n: nat)
    ensures
        pages_upto(documents, n).len() == page_total(documents, n),
    decreases n,
{
    if n > 0 {
        lemma_pages_upto_len(documents, (n - 1) as nat);
    }
}

/// Page count conservation: the page-tree root of the composite counts as many pages as the
/// inputs have together, and has as many children.
pub proof fn law_page_count_is_conserved(
    list: Seq<Entry>,
    root: ObjectId,
    documents: Seq<lopdf::Document>,
    kept: Roots,
)
    requires
        kept.page_tree_root is Some,
        kept.root_node is Some,
        assembled(list, root, pages_upto(documents, documents.len()), kept),
    ensures
        ({
            let pages = pages_upto(documents, documents.len());
            let tree = fields_of(list[(kept.others.len() + pages.len()) as int].1).unwrap();
            &&& tree[names::count()] == integer_value(
                page_total(documents, documents.len()) as i64,
            )
            &&& tree[names::kids()] == array_of(page_references(pages))
            &&& page_references(pages).len() == page_total(documents, documents.len())
        }),
{
    lemma_pages_upto_len(documents, documents.len());
    let pages = pages_upto(documents, documents.len());
    let merged = kept.page_tree_root.unwrap().1;
    assert(names::count() != names::kids()) by {
        assert(names::count().len() == 5 && names::kids().len() == 4);
    }
    assert(tree_fields(merged, pages)[names::count()] == integer_value(pages.len() as i64));
}

/// Order preservation: the `j`-th page of input `i` stands among the gathered pages behind all
/// pages of the inputs before it and the pages before it of its own input, and the child of
/// the page-tree root in that place refers to it.
pub proof fn law_pages_keep_input_order(documents: Seq<lopdf::Document>, n: nat, i: int, j: int)
    requires
        0 <= i < n,
        0 <= j < pages_of(shifted(documents, i)).len(),
    ensures
        page_total(documents, i as nat) + j < pages_upto(documents, n).len(),
        pages_upto(documents, n)[page_total(documents, i as nat) + j].0 == pages_of(
            shifted(documents, i),
        )[j],
        page_references(pages_upto(documents, n))[page_total(documents, i as nat) + j]
            == reference_to(pages_of(shifted(documents, i))[j]),
    decreases n,
{
    lemma_pages_upto_len(documents, n);
    lemma_pages_upto_len(documents, (n - 1) as nat);
    lemma_pages_upto_len(documents, i as nat);
    if i == n - 1 {
        assert(pages_upto(documents, n)[page_total(documents, i as nat) + j] == page_entries(
            shifted(documents, i),
        )[j]);
    } else {
        law_pages_keep_input_order(documents, (n - 1) as nat, i, j);
    }
}

/// Bookmark cardinality: a merge makes as many bookmarks as there are inputs with a page.
pub proof fn law_one_bookmark_for_each_input_with_pages(documents: Seq<lopdf::Document>, n: nat)
    ensures
        bookmarks_upto(documents, n).len() == inputs_with_pages(documents, n),
    decreases n,
{
    if n > 0 {
        law_one_bookmark_for_each_input_with_pages(documents, (n - 1) as nat);
    }
}

/// The bookmarks are titled in their order, `Page_1` first.
pub proof fn law_bookmarks_are_titled_in_order(documents: Seq<lopdf::Document>, n: nat, k: int)
    requires
        0 <= k < bookmarks_upto(documents, n).len(),
    ensures
        bookmarks_upto(documents, n)[k].0 == page_label((k + 1) as nat),
    decreases n,
{
    if n > 0 {
        let before = bookmarks_upto(documents, (n - 1) as nat);
        if k < before.len() {
            law_bookmarks_are_titled_in_order(documents, (n - 1) as nat, k);
        }
    }
}

/// Abort safety: consolidation finds no page-tree root exactly where the table holds none, and
/// no root node exactly where the table holds none. A merge of such inputs returns an error
/// and no document.
pub proof fn law_roots_are_found_where_they_are(entries: Seq<Entry>)
    ensures
        consolidated(entries).page_tree_root is None <==> forall|i: int|
            0 <= i < entries.len() ==> !is_page_tree_root((#[trigger] entries[i]).1),
        consolidated(entries).root_node is None <==> forall|i: int|
            0 <= i < entries.len() ==> !is_root_node((#[trigger] entries[i]).1),
    decreases entries.len(),
{
    if entries.len() > 0 {
        let rest = entries.drop_last();
        law_roots_are_found_where_they_are(rest);
        assert forall|i: int| 0 <= i < rest.len() implies #[trigger] rest[i] == entries[i] by {}
        if forall|i: int| 0 <= i < entries.len() ==> !is_page_tree_root((#[trigger] entries[i]).1) {
            assert forall|i: int| 0 <= i < rest.len() implies !is_page_tree_root(
                (#[trigger] rest[i]).1,
            ) by {
                assert(rest[i] == entries[i]);
            }
            assert(!is_page_tree_root(entries[entries.len() - 1].1));
        }
        if forall|i: int| 0 <= i < entries.len() ==> !is_root_node((#[trigger] entries[i]).1) {
            assert forall|i: int| 0 <= i < rest.len() implies !is_root_node(
                (#[trigger] rest[i]).1,
            ) by {
                assert(rest[i] == entries[i]);
            }
            assert(!is_root_node(entries[entries.len() - 1].1));
        }
        if consolidated(entries).page_tree_root is None {
            assert forall|i: int| 0 <= i < entries.len() implies !is_page_tree_root(
                (#[trigger] entries[i]).1,
            ) by {
                if i < rest.len() {
                    assert(rest[i] == entries[i]);
                }
            }
        }
        if consolidated(entries).root_node is None {
            assert forall|i: int| 0 <= i < entries.len() implies !is_root_node(
                (#[trigger] entries[i]).1,
            ) by {
                if i < rest.len() {
                    assert(rest[i] == entries[i]);
                }
            }
        }
    }
}

/// A table with its pages is plain where it holds one root node and one page-tree root, both
/// dictionaries, no navigation objects, and as objects of type `Page` exactly its pages, all
/// of them dictionaries. `root` and `tree` are the places of the two roots in the table.
pub open spec fn plain(entries: Seq<Entry>, pages: Seq<Entry>, root: int, tree: int) -> bool {
    &&& ascending(entries)
    &&& 0 <= root < entries.len()
    &&& 0 <= tree < entries.len()
    &&& fields_of(entries[root].1) is Some
    &&& fields_of(entries[tree].1) is Some
    &&& forall|i: int|
        0 <= i < entries.len() ==> (class_of((#[trigger] entries[i]).1) == ObjectClass::RootNode
            <==> i == root)
    &&& forall|i: int|
        0 <= i < entries.len() ==> (class_of((#[trigger] entries[i]).1)
            == ObjectClass::PageTreeRoot <==> i == tree)
    &&& forall|i: int|
        0 <= i < entries.len() ==> class_of((#[trigger] entries[i]).1)
            != ObjectClass::NavigationRoot && class_of(entries[i].1)
            != ObjectClass::NavigationItem
    &&& forall|i: int|
        0 <= i < entries.len() && class_of((#[trigger] entries[i]).1) == ObjectClass::Page
            ==> pages.contains(entries[i])
    &&& forall|j: int|
        0 <= j < pages.len() ==> entries.contains(#[trigger] pages[j]) && class_of(pages[j].1)
            == ObjectClass::Page && fields_of(pages[j].1) is Some
}

/// The objects that pass through consolidation are those of the table that are neither roots,
/// nor pages, nor navigation objects.
pub proof fn lemma_others_pass_through(entries: Seq<Entry>)
    ensures
        forall|k: int|
            0 <= k < consolidated(entries).others.len() ==> entries.contains(
                #[trigger] consolidated(entries).others[k],
            ) && class_of(consolidated(entries).others[k].1) == ObjectClass::Other,
        forall|i: int|
            0 <= i < entries.len() && class_of((#[trigger] entries[i]).1) == ObjectClass::Other
                ==> consolidated(entries).others.contains(entries[i]),
    decreases entries.len(),
{
    if entries.len() > 0 {
        let rest = entries.drop_last();
        let last = entries.last();
        let before = consolidated(rest).others;
        let after = consolidated(entries).others;
        lemma_others_pass_through(rest);
        assert forall|i: int| 0 <= i < rest.len() implies #[trigger] rest[i] == entries[i] by {}
        assert forall|k: int| 0 <= k < after.len() implies entries.contains(#[trigger] after[k])
            && class_of(after[k].1) == ObjectClass::Other by {
            if k < before.len() {
                assert(after[k] == before[k]);
                let i = choose|i: int| 0 <= i < rest.len() && rest[i] == before[k];
                assert(entries[i] == after[k]);
            } else {
                assert(after[k] == last);
                assert(entries[entries.len() - 1] == last);
            }
        }
        assert forall|i: int|
            0 <= i < entries.len() && class_of((#[trigger] entries[i]).1)
                == ObjectClass::Other implies after.contains(entries[i]) by {
            if i < rest.len() {
                assert(rest[i] == entries[i]);
                let k = choose|k: int| 0 <= k < before.len() && before[k] == rest[i];
                assert(after[k] == entries[i]);
            } else {
                assert(after[after.len() - 1] == entries[i]);
            }
        }
    }
}

/// Of a plain table consolidation keeps the one root node and the one page-tree root as they
/// are.
pub proof fn lemma_plain_roots(entries: Seq<Entry>, pages: Seq<Entry>, root: int, tree: int, n: int)
    requires
        plain(entries, pages, root, tree),
        0 <= n <= entries.len(),
    ensures
        consolidated(entries.take(n)).root_node == if root < n {
            Some(entries[root])
        } else {
            None
        },
        consolidated(entries.take(n)).page_tree_root == if tree < n {
            Some((entries[tree].0, fields_of(entries[tree].1).unwrap()))
        } else {
            None
        },
    decreases n,
{
    if n > 0 {
        lemma_plain_roots(entries, pages, root, tree, n - 1);
        assert(entries.take(n).drop_last() == entries.take(n - 1));
        assert(entries.take(n).last() == entries[n - 1]);
    }
}

/// An identifier that a list of entries holds is found under one of them.
pub proof fn lemma_lookup_is_an_entry(list: Seq<Entry>, id: ObjectId)
    requires
        present(list, id),
    ensures
        exists|k: int|
            0 <= k < list.len() && (#[trigger] list[k]).0 == id && lookup(list, id) == Some(
                list[k].1,
            ),
    decreases list.len(),
{
    if list.last().0 == id {
        assert(list[list.len() - 1].0 == id);
    } else {
        let rest = list.drop_last();
        let i = choose|i: int| 0 <= i < list.len() && #[trigger] list[i].0 == id;
        assert(rest[i].0 == id);
        lemma_lookup_is_an_entry(rest, id);
        let k = choose|k: int|
            0 <= k < rest.len() && (#[trigger] rest[k]).0 == id && lookup(rest, id) == Some(
                rest[k].1,
            );
        assert(list[k] == rest[k]);
    }
}

/// Idempotence before renumbering: the composite of a single plain document holds as many
/// objects as the document, under the same identifiers. An object that is neither root
/// nor page is the same as in the document. A page has its entries, with `Parent` referring to
/// the page-tree root; the page-tree root has its entries, with `Count` and `Kids` set for the
/// pages; the root node has its entries, with `Pages` referring to the page-tree root and
/// without `Outlines`.
pub proof fn law_single_document_is_kept(
    document: lopdf::Document,
    list: Seq<Entry>,
    kept_root: ObjectId,
    root: int,
    tree: int,
)
    requires
        plain(objects_upto(seq![document], 1), pages_upto(seq![document], 1), root, tree),
        assembled(
            list,
            kept_root,
            pages_upto(seq![document], 1),
            consolidated(objects_upto(seq![document], 1)),
        ),
    ensures
        ({
            let entries = objects_upto(seq![document], 1);
            let pages = pages_upto(seq![document], 1);
            let table = table_of(list);
            &&& table.len() == entries.len()
            &&& forall|i: int| 0 <= i < entries.len() ==> (#[trigger] table[i]).0 == entries[i].0
            &&& forall|i: int|
                0 <= i < entries.len() && class_of((#[trigger] entries[i]).1)
                    == ObjectClass::Other ==> lookup(table, entries[i].0) == Some(entries[i].1)
            &&& forall|i: int|
                0 <= i < entries.len() && class_of((#[trigger] entries[i]).1)
                    == ObjectClass::Page ==> lookup(table, entries[i].0) is Some && fields_of(
                    lookup(table, entries[i].0).unwrap(),
                ) == Some(page_fields(fields_of(entries[i].1).unwrap(), entries[tree].0))
            &&& lookup(table, entries[tree].0) is Some
            &&& fields_of(lookup(table, entries[tree].0).unwrap()) == Some(
                tree_fields(fields_of(entries[tree].1).unwrap(), pages),
            )
            &&& lookup(table, entries[root].0) is Some
            &&& fields_of(lookup(table, entries[root].0).unwrap()) == Some(
                root_fields(fields_of(entries[root].1).unwrap(), entries[tree].0),
            )
        }),
{
    let entries = objects_upto(seq![document], 1);
    let pages = pages_upto(seq![document], 1);
    let kept = consolidated(entries);
    let table = table_of(list);
    let passed = kept.others.len() as int;
    let hung = passed + pages.len();
    lemma_table_of(list);
    lemma_others_pass_through(entries);
    lemma_plain_roots(entries, pages, root, tree, entries.len() as int);
    assert(entries.take(entries.len() as int) == entries);
    assert(kept.root_node == Some(entries[root]));
    assert(kept.page_tree_root == Some((entries[tree].0, fields_of(entries[tree].1).unwrap())));
    assert(list.len() == hung + 2);
    // Where each entry of the list comes from.
    assert forall|k: int| 0 <= k < list.len() implies stands_for(
        entries,
        pages,
        root,
        tree,
        #[trigger] list[k],
    ) by {
        if k < passed {
            assert(list[k] == kept.others[k]);
            let i = choose|i: int| 0 <= i < entries.len() && entries[i] == kept.others[k];
            assert(entries[i].0 == list[k].0 && origin(entries, pages, root, tree, list[k], i));
        } else if k < hung {
            let j = k - passed;
            assert(list[passed + j].0 == pages[j].0);
            let i = choose|i: int| 0 <= i < entries.len() && entries[i] == pages[j];
            assert(entries[i].0 == list[k].0 && origin(entries, pages, root, tree, list[k], i));
        } else if k == hung {
            assert(entries[tree].0 == list[k].0 && origin(entries, pages, root, tree, list[k], tree));
        } else {
            assert(entries[root].0 == list[k].0 && origin(entries, pages, root, tree, list[k], root));
        }
    }
    // Every identifier of the table is in the list.
    assert forall|i: int| 0 <= i < entries.len() implies present(list, (#[trigger] entries[i]).0) by {
        match class_of(entries[i].1) {
            ObjectClass::Other => {
                let k = choose|k: int| 0 <= k < kept.others.len() && kept.others[k] == entries[i];
                assert(list[k] == kept.others[k]);
                assert(list[k].0 == entries[i].0);
            },
            ObjectClass::Page => {
                let j = choose|j: int| 0 <= j < pages.len() && pages[j] == entries[i];
                assert(list[passed + j].0 == entries[i].0);
            },
            ObjectClass::PageTreeRoot => {
                assert(list[hung].0 == entries[i].0);
            },
            ObjectClass::RootNode => {
                assert(list[hung + 1].0 == entries[i].0);
            },
            _ => {},
        }
    }
    assert forall|id: ObjectId| #[trigger] present(table, id) <==> present(entries, id) by {
        if present(list, id) {
            let k = choose|k: int| 0 <= k < list.len() && #[trigger] list[k].0 == id;
            assert(stands_for(entries, pages, root, tree, list[k]));
            let i = choose|i: int|
                0 <= i < entries.len() && (#[trigger] entries[i]).0 == list[k].0 && origin(
                    entries,
                    pages,
                    root,
                    tree,
                    list[k],
                    i,
                );
            assert(entries[i].0 == id);
        }
        if present(entries, id) {
            let i = choose|i: int| 0 <= i < entries.len() && #[trigger] entries[i].0 == id;
            assert(present(list, entries[i].0));
        }
    }
    lemma_same_identifiers(table, entries);
    // What is found under the identifier of each entry of the table.
    assert forall|i: int| 0 <= i < entries.len() implies found(
        entries,
        pages,
        root,
        tree,
        lookup(table, (#[trigger] entries[i]).0),
        i,
    ) by {
        let id = entries[i].0;
        assert(present(list, id));
        lemma_lookup_is_an_entry(list, id);
        let k = choose|k: int|
            0 <= k < list.len() && (#[trigger] list[k]).0 == id && lookup(list, id) == Some(
                list[k].1,
            );
        assert(stands_for(entries, pages, root, tree, list[k]));
        let from = choose|from: int|
            0 <= from < entries.len() && (#[trigger] entries[from]).0 == list[k].0 && origin(
                entries,
                pages,
                root,
                tree,
                list[k],
                from,
            );
        lemma_ascending_is_unique(entries, i, from);
    }
    assert forall|i: int|
        0 <= i < entries.len() && class_of((#[trigger] entries[i]).1)
            == ObjectClass::Other implies lookup(table, entries[i].0) == Some(entries[i].1) by {
        assert(found(entries, pages, root, tree, lookup(table, entries[i].0), i));
    }
    assert forall|i: int|
        0 <= i < entries.len() && class_of((#[trigger] entries[i]).1)
            == ObjectClass::Page implies lookup(table, entries[i].0) is Some && fields_of(
        lookup(table, entries[i].0).unwrap(),
    ) == Some(page_fields(fields_of(entries[i].1).unwrap(), entries[tree].0)) by {
        assert(found(entries, pages, root, tree, lookup(table, entries[i].0), i));
    }
    assert(found(entries, pages, root, tree, lookup(table, entries[tree].0), tree));
    assert(found(entries, pages, root, tree, lookup(table, entries[root].0), root));
}

/// `entry` is what a composite stores for some object of a plain table, under its identifier.
pub open spec fn stands_for(
    entries: Seq<Entry>,
    pages: Seq<Entry>,
    root: int,
    tree: int,
    entry: Entry,
) -> bool {
    exists|i: int|
        0 <= i < entries.len() && (#[trigger] entries[i]).0 == entry.0 && origin(
            entries,
            pages,
            root,
            tree,
            entry,
            i,
        )
}

/// `entry` is what a composite stores for the `i`-th object of a plain table.
pub open spec fn origin(
    entries: Seq<Entry>,
    pages: Seq<Entry>,
    root: int,
    tree: int,
    entry: Entry,
    i: int,
) -> bool {
    found(entries, pages, root, tree, Some(entry.1), i)
}

/// `object` is what a composite holds in place of the `i`-th object of a plain table.
pub open spec fn found(
    entries: Seq<Entry>,
    pages: Seq<Entry>,
    root: int,
    tree: int,
    object: Option<lopdf::Object>,
    i: int,
) -> bool {
    &&& object is Some
    &&& match class_of(entries[i].1) {
        ObjectClass::Other => object == Some(entries[i].1),
        ObjectClass::Page => fields_of(object.unwrap()) == Some(
            page_fields(fields_of(entries[i].1).unwrap(), entries[tree].0),
        ),
        ObjectClass::PageTreeRoot => fields_of(object.unwrap()) == Some(
            tree_fields(fields_of(entries[tree].1).unwrap(), pages),
        ),
        ObjectClass::RootNode => fields_of(object.unwrap()) == Some(
            root_fields(fields_of(entries[root].1).unwrap(), entries[tree].0),
        ),
        _ => false,
    }
}

} // verus!
