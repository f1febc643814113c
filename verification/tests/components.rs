use lopdf::{Dictionary, Document, Object, ObjectId};
use pdf_merge::collect::{note_first_page, Bookmark};
use pdf_merge::identifiers::{compact, renumber_from};
use pdf_merge::pages::walk;

fn of_type(name: &str) -> Dictionary {
    let mut dictionary = Dictionary::new();
    dictionary.set("Type", name);
    dictionary
}

fn sparse_document() -> Document {
    let mut document = Document::with_version("1.5");
    let mut first = of_type("Page");
    first.set("Parent", (20, 0));
    first.set("Index", 0);
    let mut second = of_type("Page");
    second.set("Parent", (20, 0));
    second.set("Index", 1);
    let mut tree = of_type("Pages");
    tree.set("Kids", vec![Object::Reference((30, 0)), Object::Reference((40, 0))]);
    tree.set("Count", 2);
    let mut catalog = of_type("Catalog");
    catalog.set("Pages", (20, 0));
    document.objects.insert((10, 0), Object::Dictionary(catalog));
    document.objects.insert((20, 0), Object::Dictionary(tree));
    document.objects.insert((30, 0), Object::Dictionary(first));
    document.objects.insert((40, 0), Object::Dictionary(second));
    document.trailer.set("Root", (10, 0));
    document.max_id = 40;
    document
}

fn ids_of(document: &Document) -> Vec<ObjectId> {
    document.objects.keys().cloned().collect()
}

#[test]
fn renumbering_counts_up_from_the_start() {
    let (shifted, last) = renumber_from(&sparse_document(), 7).unwrap();
    assert_eq!(ids_of(&shifted), vec![(7, 0), (8, 0), (9, 0), (10, 0)]);
    assert_eq!(last, 10);
    assert_eq!(shifted.max_id, 10);
}

#[test]
fn renumbering_takes_the_references_along() {
    let (shifted, _) = renumber_from(&sparse_document(), 7).unwrap();
    assert_eq!(shifted.trailer.get(b"Root").unwrap(), &Object::Reference((7, 0)));
    let catalog = shifted.objects.get(&(7, 0)).unwrap().as_dict().unwrap();
    assert_eq!(catalog.get(b"Pages").unwrap(), &Object::Reference((8, 0)));
    let tree = shifted.objects.get(&(8, 0)).unwrap().as_dict().unwrap();
    let kids = vec![Object::Reference((9, 0)), Object::Reference((10, 0))];
    assert_eq!(tree.get(b"Kids").unwrap(), &Object::Array(kids));
    let page = shifted.objects.get(&(10, 0)).unwrap().as_dict().unwrap();
    assert_eq!(page.get(b"Parent").unwrap(), &Object::Reference((8, 0)));
    assert_eq!(page.get(b"Index").unwrap(), &Object::Integer(1));
}

#[test]
fn renumbering_leaves_the_given_document_alone() {
    let document = sparse_document();
    let before = ids_of(&document);
    assert!(renumber_from(&document, 100).is_some());
    assert_eq!(ids_of(&document), before);
    assert_eq!(document.max_id, 40);
}

#[test]
fn renumbering_an_empty_document_declares_the_number_before_the_start() {
    let (shifted, last) = renumber_from(&Document::with_version("1.5"), 5).unwrap();
    assert!(shifted.objects.is_empty());
    assert_eq!(last, 4);
}

#[test]
fn renumbering_refuses_a_start_of_zero() {
    assert!(renumber_from(&sparse_document(), 0).is_none());
}

#[test]
fn renumbering_refuses_numbers_beyond_32_bits() {
    assert!(renumber_from(&sparse_document(), u32::MAX - 3).is_none());
    let (shifted, last) = renumber_from(&sparse_document(), u32::MAX - 4).unwrap();
    assert_eq!(last, u32::MAX - 1);
    assert_eq!(ids_of(&shifted)[3], (u32::MAX - 1, 0));
}

#[test]
fn compacting_closes_the_gaps() {
    let dense = compact(&sparse_document()).unwrap();
    assert_eq!(ids_of(&dense), vec![(1, 0), (2, 0), (3, 0), (4, 0)]);
    assert_eq!(dense.max_id, 4);
    assert_eq!(dense.trailer.get(b"Root").unwrap(), &Object::Reference((1, 0)));
}

#[test]
fn walking_gives_the_pages_in_page_order() {
    let mut document = sparse_document();
    let mut tree = document.objects.get(&(20, 0)).unwrap().as_dict().unwrap().clone();
    tree.set("Kids", vec![Object::Reference((40, 0)), Object::Reference((30, 0))]);
    document.objects.insert((20, 0), Object::Dictionary(tree));
    let pages = walk(&document);
    let ids: Vec<ObjectId> = pages.iter().map(|page| page.0).collect();
    assert_eq!(ids, vec![(40, 0), (30, 0)]);
    assert_eq!(&pages[0].1, document.objects.get(&(40, 0)).unwrap());
    assert_eq!(&pages[1].1, document.objects.get(&(30, 0)).unwrap());
}

#[test]
fn walking_descends_into_inner_nodes() {
    let mut document = sparse_document();
    let mut inner = of_type("Pages");
    inner.set("Kids", vec![Object::Reference((40, 0))]);
    inner.set("Parent", (20, 0));
    document.objects.insert((50, 0), Object::Dictionary(inner));
    let mut tree = document.objects.get(&(20, 0)).unwrap().as_dict().unwrap().clone();
    tree.set("Kids", vec![Object::Reference((50, 0)), Object::Reference((30, 0))]);
    document.objects.insert((20, 0), Object::Dictionary(tree));
    let ids: Vec<ObjectId> = walk(&document).iter().map(|page| page.0).collect();
    assert_eq!(ids, vec![(40, 0), (30, 0)]);
}

#[test]
fn walking_follows_a_reference_to_a_page() {
    let mut document = sparse_document();
    document.objects.insert((35, 0), Object::Reference((30, 0)));
    let mut tree = document.objects.get(&(20, 0)).unwrap().as_dict().unwrap().clone();
    tree.set("Kids", vec![Object::Reference((35, 0))]);
    document.objects.insert((20, 0), Object::Dictionary(tree));
    let pages = walk(&document);
    assert_eq!(pages.len(), 1);
    assert_eq!(pages[0].0, (35, 0));
    assert_eq!(&pages[0].1, document.objects.get(&(30, 0)).unwrap());
}

#[test]
fn walking_passes_over_children_that_are_no_pages() {
    let mut document = sparse_document();
    document.objects.insert((60, 0), Object::Dictionary(of_type("Font")));
    let mut tree = document.objects.get(&(20, 0)).unwrap().as_dict().unwrap().clone();
    let kids = vec![
        Object::Reference((60, 0)),
        Object::Reference((30, 0)),
        Object::Reference((99, 0)),
        Object::Integer(3),
    ];
    tree.set("Kids", kids);
    document.objects.insert((20, 0), Object::Dictionary(tree));
    let ids: Vec<ObjectId> = walk(&document).iter().map(|page| page.0).collect();
    assert_eq!(ids, vec![(30, 0)]);
}

#[test]
fn walking_a_document_without_a_page_tree_finds_nothing() {
    assert!(walk(&Document::with_version("1.5")).is_empty());
    let mut document = sparse_document();
    document.trailer.remove(b"Root");
    assert!(walk(&document).is_empty());
}

#[test]
fn a_first_page_gets_the_next_bookmark() {
    let mut bookmarks = Vec::new();
    note_first_page(&mut bookmarks, Some((4, 0)));
    note_first_page(&mut bookmarks, None);
    note_first_page(&mut bookmarks, Some((9, 1)));
    assert_eq!(bookmarks.len(), 2);
    assert_eq!(bookmarks[0].title, "Page_1");
    assert_eq!(bookmarks[0].page, (4, 0));
    assert_eq!(bookmarks[1].title, "Page_2");
    assert_eq!(bookmarks[1].page, (9, 1));
}

#[test]
fn no_first_page_changes_no_bookmark() {
    let mut bookmarks = vec![Bookmark { title: String::from("Page_1"), page: (4, 0) }];
    note_first_page(&mut bookmarks, None);
    assert_eq!(bookmarks.len(), 1);
    assert_eq!(bookmarks[0].title, "Page_1");
    assert_eq!(bookmarks[0].page, (4, 0));
}
