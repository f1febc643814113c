use lopdf::{Dictionary, Document, Object, ObjectId, Stream, StringFormat};
use pdf_merge::assemble::{assemble, Composite};
use pdf_merge::classify::{classify, ObjectClass};
use pdf_merge::collect::{collect, Bookmark};
use pdf_merge::consolidate::{adopt_root_node, consolidate, join_page_tree_root, Consolidated};
use pdf_merge::error::MergeError;
use pdf_merge::finish::finish;
use pdf_merge::names;
use pdf_merge::shrink::shrink;

fn typed(name: &str) -> Dictionary {
    let mut dictionary = Dictionary::new();
    dictionary.set("Type", name);
    dictionary
}

fn small_document(pages: usize, extra: usize) -> Document {
    let mut document = Document::with_version("1.5");
    for index in 0..extra {
        document.add_object(Object::Integer(index as i64));
    }
    let tree_id = document.new_object_id();
    let mut kids = Vec::new();
    for index in 0..pages {
        let mut page = typed("Page");
        page.set("Parent", tree_id);
        page.set("Index", index as i64);
        kids.push(Object::Reference(document.add_object(page)));
    }
    let mut tree = typed("Pages");
    tree.set("Kids", kids);
    tree.set("Count", pages as i64);
    document.objects.insert(tree_id, Object::Dictionary(tree));
    let mut catalog = typed("Catalog");
    catalog.set("Pages", tree_id);
    let catalog_id = document.add_object(catalog);
    document.trailer.set("Root", catalog_id);
    document
}

fn numbers(entries: &[(ObjectId, Object)]) -> Vec<u32> {
    entries.iter().map(|entry| entry.0 .0).collect()
}

#[test]
fn the_names_are_spelled_as_in_a_file() {
    assert_eq!(names::catalog_name(), b"Catalog".to_vec());
    assert_eq!(names::pages_name(), b"Pages".to_vec());
    assert_eq!(names::page_name(), b"Page".to_vec());
    assert_eq!(names::outlines_name(), b"Outlines".to_vec());
    assert_eq!(names::outline_name(), b"Outline".to_vec());
    assert_eq!(names::parent_name(), b"Parent".to_vec());
    assert_eq!(names::count_name(), b"Count".to_vec());
    assert_eq!(names::kids_name(), b"Kids".to_vec());
    assert_eq!(names::root_name(), b"Root".to_vec());
}

#[test]
fn objects_are_classified_by_their_type() {
    assert_eq!(classify(&Object::Dictionary(typed("Catalog"))), ObjectClass::RootNode);
    assert_eq!(classify(&Object::Dictionary(typed("Pages"))), ObjectClass::PageTreeRoot);
    assert_eq!(classify(&Object::Dictionary(typed("Page"))), ObjectClass::Page);
    assert_eq!(classify(&Object::Dictionary(typed("Outlines"))), ObjectClass::NavigationRoot);
    assert_eq!(classify(&Object::Dictionary(typed("Outline"))), ObjectClass::NavigationItem);
    assert_eq!(classify(&Object::Dictionary(typed("Font"))), ObjectClass::Other);
    assert_eq!(classify(&Object::Dictionary(Dictionary::new())), ObjectClass::Other);
}

#[test]
fn a_stream_is_classified_by_its_dictionary() {
    let stream = Stream::new(typed("Page"), b"content".to_vec());
    assert_eq!(classify(&Object::Stream(stream)), ObjectClass::Page);
    let plain = Stream::new(Dictionary::new(), b"content".to_vec());
    assert_eq!(classify(&Object::Stream(plain)), ObjectClass::Other);
}

#[test]
fn an_object_without_a_dictionary_has_no_type() {
    assert_eq!(classify(&Object::Null), ObjectClass::Other);
    assert_eq!(classify(&Object::Integer(7)), ObjectClass::Other);
    assert_eq!(classify(&Object::Name(b"Catalog".to_vec())), ObjectClass::Other);
    assert_eq!(classify(&Object::Reference((1, 0))), ObjectClass::Other);
    let text = Object::String(b"Pages".to_vec(), StringFormat::Literal);
    assert_eq!(classify(&text), ObjectClass::Other);
}

#[test]
fn a_type_that_is_no_name_does_not_count() {
    let mut dictionary = Dictionary::new();
    dictionary.set("Type", Object::string_literal("Catalog"));
    assert_eq!(classify(&Object::Dictionary(dictionary)), ObjectClass::Other);
}

#[test]
fn collecting_numbers_each_document_behind_the_one_before() {
    let collected = collect(&vec![small_document(2, 1), small_document(1, 0)]).unwrap();
    assert_eq!(numbers(&collected.objects), vec![1, 2, 3, 4, 5, 6, 7, 8]);
    assert_eq!(numbers(&collected.pages), vec![3, 4, 7]);
    let indices: Vec<i64> = collected
        .pages
        .iter()
        .map(|page| page.1.as_dict().unwrap().get(b"Index").unwrap().as_i64().unwrap())
        .collect();
    assert_eq!(indices, vec![0, 1, 0]);
}

#[test]
fn collecting_rewrites_the_references_of_a_document() {
    let collected = collect(&vec![small_document(1, 0), small_document(1, 0)]).unwrap();
    let second_page = collected.pages[1].1.as_dict().unwrap();
    assert_eq!(second_page.get(b"Parent").unwrap().as_reference().unwrap(), (4, 0));
    let second_tree = collected.objects[3].1.as_dict().unwrap();
    let kids = second_tree.get(b"Kids").unwrap().as_array().unwrap();
    assert_eq!(kids[0].as_reference().unwrap(), collected.pages[1].0);
}

#[test]
fn collecting_makes_a_bookmark_for_the_first_page_of_each_document() {
    let inputs = vec![small_document(0, 2), small_document(2, 0), small_document(3, 0)];
    let collected = collect(&inputs).unwrap();
    assert_eq!(collected.bookmarks.len(), 2);
    assert_eq!(collected.bookmarks[0].title, "Page_1");
    assert_eq!(collected.bookmarks[0].page, collected.pages[0].0);
    assert_eq!(collected.bookmarks[1].title, "Page_2");
    assert_eq!(collected.bookmarks[1].page, collected.pages[2].0);
}

#[test]
fn collecting_nothing_gathers_nothing() {
    let collected = collect(&Vec::new()).unwrap();
    assert!(collected.objects.is_empty());
    assert!(collected.pages.is_empty());
    assert!(collected.bookmarks.is_empty());
}

#[test]
fn collecting_orders_the_pages_of_a_document_whose_numbers_do_not() {
    let mut document = Document::with_version("1.5");
    let late = document.new_object_id();
    let tree_id = document.new_object_id();
    let mut first = typed("Page");
    first.set("Index", 0);
    let first_id = document.add_object(first);
    let mut second = typed("Page");
    second.set("Index", 1);
    document.objects.insert(late, Object::Dictionary(second));
    let mut tree = typed("Pages");
    tree.set("Kids", vec![Object::Reference(first_id), Object::Reference(late)]);
    document.objects.insert(tree_id, Object::Dictionary(tree));
    let mut catalog = typed("Catalog");
    catalog.set("Pages", tree_id);
    let catalog_id = document.add_object(catalog);
    document.trailer.set("Root", catalog_id);
    let collected = collect(&vec![document]).unwrap();
    let indices: Vec<i64> = collected
        .pages
        .iter()
        .map(|page| page.1.as_dict().unwrap().get(b"Index").unwrap().as_i64().unwrap())
        .collect();
    assert_eq!(indices, vec![0, 1]);
    assert!(collected.pages[0].0 < collected.pages[1].0);
}

#[test]
fn the_first_root_node_gives_the_identifier() {
    let first = Object::Dictionary(typed("Catalog"));
    let mut later = typed("Catalog");
    later.set("Lang", Object::string_literal("en"));
    let later = Object::Dictionary(later);
    let kept = adopt_root_node(None, (3, 0), &first);
    assert_eq!(kept, Some(((3, 0), first)));
    let kept = adopt_root_node(kept, (9, 0), &later);
    assert_eq!(kept, Some(((3, 0), later)));
}

#[test]
fn the_page_tree_root_met_first_wins_each_entry() {
    let mut first = typed("Pages");
    first.set("Rotate", 90);
    first.set("OnlyFirst", 1);
    let mut second = typed("Pages");
    second.set("Rotate", 180);
    second.set("OnlySecond", 2);
    let mut third = typed("Pages");
    third.set("Rotate", 270);
    third.set("OnlySecond", 3);
    third.set("OnlyThird", 4);
    let kept = join_page_tree_root(None, (2, 0), &Object::Dictionary(first));
    let kept = join_page_tree_root(kept, (5, 0), &Object::Dictionary(second));
    let kept = join_page_tree_root(kept, (8, 0), &Object::Dictionary(third));
    let (id, object) = kept.unwrap();
    let merged = object.as_dict().unwrap();
    assert_eq!(id, (2, 0));
    assert_eq!(merged.len(), 5);
    assert_eq!(merged.get(b"Rotate").unwrap().as_i64().unwrap(), 90);
    assert_eq!(merged.get(b"OnlyFirst").unwrap().as_i64().unwrap(), 1);
    assert_eq!(merged.get(b"OnlySecond").unwrap().as_i64().unwrap(), 2);
    assert_eq!(merged.get(b"OnlyThird").unwrap().as_i64().unwrap(), 4);
    assert!(merged.type_is(b"Pages"));
}

#[test]
fn a_page_tree_root_that_is_no_dictionary_is_passed_over() {
    let stream = Object::Stream(Stream::new(typed("Pages"), Vec::new()));
    assert_eq!(join_page_tree_root(None, (2, 0), &stream), None);
    let first = Object::Dictionary(typed("Pages"));
    let kept = join_page_tree_root(None, (2, 0), &first);
    let kept = join_page_tree_root(kept, (4, 0), &stream);
    assert_eq!(kept, Some(((2, 0), first)));
}

#[test]
fn consolidating_sorts_the_objects_by_class() {
    let mut late_root = typed("Catalog");
    late_root.set("Lang", Object::string_literal("late"));
    let objects = vec![
        ((1, 0), Object::Integer(1)),
        ((2, 0), Object::Dictionary(typed("Catalog"))),
        ((3, 0), Object::Dictionary(typed("Pages"))),
        ((4, 0), Object::Dictionary(typed("Page"))),
        ((5, 0), Object::Dictionary(typed("Outlines"))),
        ((6, 0), Object::Dictionary(typed("Outline"))),
        ((7, 0), Object::Dictionary(typed("Font"))),
        ((8, 0), Object::Dictionary(late_root.clone())),
        ((9, 0), Object::Stream(Stream::new(typed("Pages"), Vec::new()))),
    ];
    let kept = consolidate(&objects);
    assert_eq!(kept.root_node, Some(((2, 0), Object::Dictionary(late_root))));
    assert_eq!(kept.page_tree_root, Some(((3, 0), Object::Dictionary(typed("Pages")))));
    assert_eq!(numbers(&kept.others), vec![1, 7]);
    assert_eq!(kept.others[0].1, Object::Integer(1));
    assert_eq!(kept.others[1].1, Object::Dictionary(typed("Font")));
}

#[test]
fn consolidating_nothing_finds_no_roots() {
    let kept = consolidate(&Vec::new());
    assert_eq!(kept.root_node, None);
    assert_eq!(kept.page_tree_root, None);
    assert!(kept.others.is_empty());
}

fn roots_and_two_pages() -> (Vec<(ObjectId, Object)>, Consolidated) {
    let mut first = typed("Page");
    first.set("Parent", (30, 0));
    let mut root = typed("Catalog");
    root.set("Outlines", (40, 0));
    root.set("Pages", (31, 0));
    let mut tree = typed("Pages");
    tree.set("Count", 17);
    tree.set("Rotate", 90);
    let pages = vec![((5, 0), Object::Dictionary(first)), ((9, 0), Object::Dictionary(typed("Page")))];
    let kept = Consolidated {
        root_node: Some(((2, 0), Object::Dictionary(root))),
        page_tree_root: Some(((3, 0), Object::Dictionary(tree))),
        others: vec![((1, 0), Object::Integer(1)), ((7, 0), Object::Null)],
    };
    (pages, kept)
}

#[test]
fn assembling_lines_up_what_the_composite_holds() {
    let (pages, kept) = roots_and_two_pages();
    let composite = assemble(&pages, kept).unwrap();
    assert_eq!(composite.root, (2, 0));
    assert_eq!(numbers(&composite.insertions), vec![1, 7, 5, 9, 3, 2]);
    assert_eq!(composite.insertions[0].1, Object::Integer(1));
    assert_eq!(composite.insertions[1].1, Object::Null);
}

#[test]
fn assembling_hangs_the_pages_under_the_page_tree_root() {
    let (pages, kept) = roots_and_two_pages();
    let composite = assemble(&pages, kept).unwrap();
    for index in 2..4 {
        let page = composite.insertions[index].1.as_dict().unwrap();
        assert_eq!(page.get(b"Parent").unwrap().as_reference().unwrap(), (3, 0));
        assert!(page.type_is(b"Page"));
        assert_eq!(page.len(), 2);
    }
}

#[test]
fn assembling_counts_and_lists_the_pages() {
    let (pages, kept) = roots_and_two_pages();
    let composite = assemble(&pages, kept).unwrap();
    let tree = composite.insertions[4].1.as_dict().unwrap();
    assert_eq!(tree.get(b"Count").unwrap(), &Object::Integer(2));
    let kids = vec![Object::Reference((5, 0)), Object::Reference((9, 0))];
    assert_eq!(tree.get(b"Kids").unwrap(), &Object::Array(kids));
    assert_eq!(tree.get(b"Rotate").unwrap(), &Object::Integer(90));
    assert_eq!(tree.len(), 4);
}

#[test]
fn assembling_points_the_root_node_at_the_page_tree_root() {
    let (pages, kept) = roots_and_two_pages();
    let composite = assemble(&pages, kept).unwrap();
    let root = composite.insertions[5].1.as_dict().unwrap();
    assert_eq!(root.get(b"Pages").unwrap(), &Object::Reference((3, 0)));
    assert!(root.get(b"Outlines").is_err());
    assert_eq!(root.len(), 2);
}

#[test]
fn assembling_without_pages_gives_an_empty_page_tree_root() {
    let (_, kept) = roots_and_two_pages();
    let composite = assemble(&Vec::new(), kept).unwrap();
    assert_eq!(numbers(&composite.insertions), vec![1, 7, 3, 2]);
    let tree = composite.insertions[2].1.as_dict().unwrap();
    assert_eq!(tree.get(b"Count").unwrap(), &Object::Integer(0));
    assert_eq!(tree.get(b"Kids").unwrap(), &Object::Array(Vec::new()));
}

#[test]
fn assembling_leaves_out_a_root_node_that_is_no_dictionary() {
    let (pages, mut kept) = roots_and_two_pages();
    let stream = Object::Stream(Stream::new(typed("Catalog"), Vec::new()));
    kept.root_node = Some(((2, 0), stream));
    let composite = assemble(&pages, kept).unwrap();
    assert_eq!(composite.root, (2, 0));
    assert_eq!(numbers(&composite.insertions), vec![1, 7, 5, 9, 3]);
}

#[test]
fn assembling_needs_a_page_tree_root_first() {
    let (pages, mut kept) = roots_and_two_pages();
    kept.page_tree_root = None;
    kept.root_node = None;
    assert!(matches!(assemble(&pages, kept), Err(MergeError::NoPageTreeRoot)));
    let (pages, mut kept) = roots_and_two_pages();
    kept.page_tree_root = None;
    assert!(matches!(assemble(&pages, kept), Err(MergeError::NoPageTreeRoot)));
}

#[test]
fn assembling_needs_a_root_node() {
    let (pages, mut kept) = roots_and_two_pages();
    kept.root_node = None;
    assert!(matches!(assemble(&pages, kept), Err(MergeError::NoRootNode)));
}

fn composite_of_three() -> Composite {
    let mut root = typed("Catalog");
    root.set("Pages", (20, 0));
    let mut tree = typed("Pages");
    tree.set("Kids", vec![Object::Reference((12, 0))]);
    tree.set("Count", 1);
    let mut page = typed("Page");
    page.set("Parent", (20, 0));
    Composite {
        insertions: vec![
            ((30, 0), Object::Integer(5)),
            ((12, 0), Object::Integer(6)),
            ((12, 0), Object::Dictionary(page)),
            ((20, 0), Object::Dictionary(tree)),
            ((7, 0), Object::Dictionary(root)),
        ],
        root: (7, 0),
    }
}

#[test]
fn finishing_numbers_the_objects_from_one() {
    let document = finish(&composite_of_three(), &Vec::new()).unwrap();
    let ids: Vec<ObjectId> = document.objects.keys().cloned().collect();
    assert_eq!(ids, vec![(1, 0), (2, 0), (3, 0), (4, 0)]);
    assert_eq!(document.max_id, 4);
    assert_eq!(document.version, "1.5");
    assert_eq!(document.trailer.get(b"Root").unwrap(), &Object::Reference((1, 0)));
    let root = document.objects.get(&(1, 0)).unwrap().as_dict().unwrap();
    assert_eq!(root.get(b"Pages").unwrap(), &Object::Reference((3, 0)));
    assert!(root.get(b"Outlines").is_err());
    let tree = document.objects.get(&(3, 0)).unwrap().as_dict().unwrap();
    assert_eq!(tree.get(b"Kids").unwrap(), &Object::Array(vec![Object::Reference((2, 0))]));
    let page = document.objects.get(&(2, 0)).unwrap().as_dict().unwrap();
    assert_eq!(page.get(b"Parent").unwrap(), &Object::Reference((3, 0)));
    assert_eq!(document.objects.get(&(4, 0)).unwrap(), &Object::Integer(5));
}

#[test]
fn finishing_builds_the_outline_behind_the_objects() {
    let bookmarks = vec![
        Bookmark { title: String::from("Page_1"), page: (12, 0) },
        Bookmark { title: String::from("Page_2"), page: (12, 0) },
    ];
    let document = finish(&composite_of_three(), &bookmarks).unwrap();
    let numbers: Vec<u32> = document.objects.keys().map(|id| id.0).collect();
    assert_eq!(numbers, vec![1, 2, 3, 4, 5, 6, 7, 8, 9]);
    assert_eq!(document.max_id, 9);
    let root = document.objects.get(&(1, 0)).unwrap().as_dict().unwrap();
    assert_eq!(root.get(b"Outlines").unwrap(), &Object::Reference((5, 0)));
    let outline = document.objects.get(&(5, 0)).unwrap().as_dict().unwrap();
    assert_eq!(outline.get(b"Count").unwrap(), &Object::Integer(2));
    assert_eq!(outline.get(b"First").unwrap(), &Object::Reference((6, 0)));
    assert_eq!(outline.get(b"Last").unwrap(), &Object::Reference((8, 0)));
    assert_eq!(document.bookmarks.len(), 2);
    let first = document.bookmark_table.get(&document.bookmarks[0]).unwrap();
    assert_eq!(first.title, "Page_1");
    assert_eq!(first.page, (2, 0));
    assert_eq!(first.color, [0.0, 0.0, 1.0]);
    assert_eq!(first.format, 0);
}

#[test]
fn finishing_without_a_stored_root_node_links_nothing() {
    let mut composite = composite_of_three();
    composite.insertions.pop();
    let bookmarks = vec![Bookmark { title: String::from("Page_1"), page: (12, 0) }];
    let document = finish(&composite, &bookmarks).unwrap();
    assert_eq!(document.objects.len(), 3 + 1 + 2);
    for object in document.objects.values() {
        if let Ok(dictionary) = object.as_dict() {
            assert!(dictionary.get(b"Outlines").is_err());
        }
    }
}

#[test]
fn shrinking_compresses_streams_and_keeps_the_rest() {
    let mut document = small_document(1, 1);
    let text = vec![b'x'; 5000];
    let stream_id = document.add_object(Stream::new(Dictionary::new(), text));
    let before = document.clone();
    shrink(&mut document);
    let stream = document.objects.get(&stream_id).unwrap().as_stream().unwrap();
    assert!(stream.content.len() < 5000);
    assert_eq!(stream.dict.get(b"Filter").unwrap(), &Object::Name(b"FlateDecode".to_vec()));
    assert_eq!(document.objects.len(), before.objects.len());
    assert_eq!(document.max_id, before.max_id);
    assert_eq!(document.trailer, before.trailer);
    for (id, object) in before.objects.iter() {
        if *id != stream_id {
            assert_eq!(document.objects.get(id).unwrap(), object);
        }
    }
}
