//! The second pass of a merge: of the root nodes and page-tree roots that the inputs bring,
//! one of each is kept. The two are chosen by opposite rules, each written out here.

use crate::classify::{class_of, classify, ObjectClass};
use crate::object::{clone_object, fields, fields_of, lists, set_field, Entry, ObjectId};
use vstd::prelude::*;

verus! {

/// The entries of a dictionary, by key.
pub type Fields = Map<Seq<u8>, lopdf::Object>;

/// What the second pass makes of a table: the model of [`Consolidated`].
pub struct Roots {
    /// The root node: under the identifier of the first one, the content of the last one.
    pub root_node: Option<Entry>,
    /// The page-tree root: the identifier of the first one, and the entries of all of them.
    pub page_tree_root: Option<(ObjectId, Fields)>,
    /// The objects that pass through, in their order.
    pub others: Seq<Entry>,
}

/// What the second pass makes of a table.
#[derive(Debug)]
pub struct Consolidated {
    /// The root node, if the table holds one.
    pub root_node: Option<Entry>,
    /// The page-tree root, if the table holds one: always a dictionary.
    pub page_tree_root: Option<Entry>,
    /// The objects that pass through, in their order.
    pub others: Vec<Entry>,
}

impl Consolidated {
    /// A page-tree root is a dictionary.
    pub open spec fn wf(&self) -> bool {
        self.page_tree_root is Some ==> fields_of(self.page_tree_root.unwrap().1) is Some
    }
}

impl View for Consolidated {
    type V = Roots;

    open spec fn view(&self) -> Roots {
        Roots {
            root_node: self.root_node,
            page_tree_root: match self.page_tree_root {
                Some(tree) => Some((tree.0, fields_of(tree.1).unwrap())),
                None => None,
            },
            others: self.others@,
        }
    }
}

/// The rule for root nodes: the first one met gives the identifier, the last one the content.
pub open spec fn adopted(current: Option<Entry>, id: ObjectId, object: lopdf::Object) -> Option<
    Entry,
> {
    match current {
        Some(first) => Some((first.0, object)),
        None => Some((id, object)),
    }
}

/// The rule for page-tree roots: the first one met gives the identifier, and of two values
/// under one key the one met earlier stays.
pub open spec fn joined(current: Option<(ObjectId, Fields)>, id: ObjectId, entries: Fields) -> Option<
    (ObjectId, Fields),
> {
    match current {
        Some(first) => Some((first.0, entries.union_prefer_right(first.1))),
        None => Some((id, entries)),
    }
}

/// The roots and other objects of a table, met in its order.
pub open spec fn consolidated(entries: Seq<Entry>) -> Roots
    decreases entries.len(),
{
    if entries.len() == 0 {
        Roots { root_node: None, page_tree_root: None, others: Seq::empty() }
    } else {
        let before = consolidated(entries.drop_last());
        let (id, object) = entries.last();
        match class_of(object) {
            ObjectClass::RootNode => Roots {
                root_node: adopted(before.root_node, id, object),
                ..before
            },
            ObjectClass::PageTreeRoot => match fields_of(object) {
                Some(fields) => Roots {
                    page_tree_root: joined(before.page_tree_root, id, fields),
                    ..before
                },
                None => before,
            },
            ObjectClass::Page | ObjectClass::NavigationRoot | ObjectClass::NavigationItem => before,
            ObjectClass::Other => Roots { others: before.others.push((id, object)), ..before },
        }
    }
}

/// `entries` with each entry of `list` set in turn.
pub open spec fn overlaid(entries: Fields, list: Seq<(Vec<u8>, lopdf::Object)>) -> Fields
    decreases list.len(),
{
    if list.len() == 0 {
        entries
    } else {
        overlaid(entries, list.drop_last()).insert(list.last().0@, list.last().1)
    }
}

/// Some entry among the first `n` of `list` has the key `key`.
spec fn among(list: Seq<(Vec<u8>, lopdf::Object)>, n: int, key: Seq<u8>) -> bool {
    exists|i: int| 0 <= i < n && #[trigger] list[i].0@ == key
}

proof fn lemma_overlaid_prefix(
    later: Fields,
    list: Seq<(Vec<u8>, lopdf::Object)>,
    earlier: Fields,
    n: int,
)
    requires
        lists(list, earlier),
        0 <= n <= list.len(),
    ensures
        forall|key: Seq<u8>| #[trigger]
            overlaid(later, list.take(n)).contains_key(key) <==> later.contains_key(key) || among(
                list,
                n,
                key,
            ),
        forall|key: Seq<u8>|
            among(list, n, key) ==> #[trigger] overlaid(later, list.take(n))[key] == earlier[key],
        forall|key: Seq<u8>|
            later.contains_key(key) && !among(list, n, key) ==> #[trigger] overlaid(
                later,
                list.take(n),
            )[key] == later[key],
    decreases n,
{
    if n == 0 {
        assert(list.take(0).len() == 0);
    } else {
        lemma_overlaid_prefix(later, list, earlier, n - 1);
        let prefix = list.take(n);
        assert(prefix.drop_last() == list.take(n - 1));
        assert(prefix.last() == list[n - 1]);
        let last_key = list[n - 1].0@;
        assert(earlier.contains_key(last_key) && earlier[last_key] == list[n - 1].1);
        assert forall|key: Seq<u8>| among(list, n, key) <==> key == last_key || among(
            list,
            n - 1,
            key,
        ) by {
            if among(list, n, key) {
                let i = choose|i: int| 0 <= i < n && #[trigger] list[i].0@ == key;
                if i < n - 1 {
                    assert(among(list, n - 1, key));
                }
            }
            if among(list, n - 1, key) {
                let i = choose|i: int| 0 <= i < n - 1 && #[trigger] list[i].0@ == key;
                assert(0 <= i < n && list[i].0@ == key);
            }
            if key == last_key {
                assert(list[n - 1].0@ == key);
            }
        }
        let before = overlaid(later, list.take(n - 1));
        let after = overlaid(later, list.take(n));
        assert(after == before.insert(last_key, list[n - 1].1));
        assert forall|key: Seq<u8>| #[trigger]
            after.contains_key(key) <==> later.contains_key(key) || among(list, n, key) by {
            assert(before.contains_key(key) <==> later.contains_key(key) || among(list, n - 1, key));
        }
        assert forall|key: Seq<u8>| among(list, n, key) implies #[trigger] after[key]
            == earlier[key] by {
            if key != last_key {
                assert(among(list, n - 1, key));
                assert(before[key] == earlier[key]);
            }
        }
        assert forall|key: Seq<u8>| later.contains_key(key) && !among(list, n, key) implies #[trigger]
            after[key] == later[key] by {
            assert(key != last_key);
            assert(!among(list, n - 1, key));
            assert(before[key] == later[key]);
        }
    }
}

/// Setting every entry of the dictionary met earlier over a copy of the one met later gives
/// their union in which the earlier value stays.
pub proof fn lemma_overlaid(later: Fields, list: Seq<(Vec<u8>, lopdf::Object)>, earlier: Fields)
    requires
        lists(list, earlier),
    ensures
        overlaid(later, list) == later.union_prefer_right(earlier),
{
    lemma_overlaid_prefix(later, list, earlier, list.len() as int);
    assert(list.take(list.len() as int) == list);
    let result = overlaid(later, list);
    let union = later.union_prefer_right(earlier);
    assert forall|key: Seq<u8>| among(list, list.len() as int, key) <==> earlier.contains_key(
        key,
    ) by {
        if among(list, list.len() as int, key) {
            let i = choose|i: int| 0 <= i < list.len() && #[trigger] list[i].0@ == key;
            assert(earlier.contains_key(list[i].0@));
        }
        if earlier.contains_key(key) {
            let i = choose|i: int| 0 <= i < list.len() && #[trigger] list[i].0@ == key;
            assert(0 <= i < list.len() && list[i].0@ == key);
        }
    }
    assert forall|key: Seq<u8>| result.contains_key(key) <==> union.contains_key(key) by {}
    assert forall|key: Seq<u8>| result.contains_key(key) implies result[key] == union[key] by {
        if earlier.contains_key(key) {
            assert(among(list, list.len() as int, key));
        } else {
            assert(!among(list, list.len() as int, key));
        }
    }
    assert(result =~= union);
}

/// Applies the rule for root nodes.
pub fn adopt_root_node(current: Option<Entry>, id: ObjectId, object: &lopdf::Object) -> (kept: Option<
    Entry,
>)
    ensures
        kept == adopted(current, id, *object),
{
    match current {
        Some(first) => Some((first.0, clone_object(object))),
        None => Some((id, clone_object(object))),
    }
}

/// Applies the rule for page-tree roots to a dictionary met after those in `current`. An
/// object that is no dictionary changes nothing.
pub fn join_page_tree_root(current: Option<Entry>, id: ObjectId, object: &lopdf::Object) -> (kept:
    Option<Entry>)
    requires
        current is Some ==> fields_of(current.unwrap().1) is Some,
    ensures
        fields_of(*object) is None ==> kept == current,
        fields_of(*object) is Some && current is None ==> kept == Some((id, *object)),
        fields_of(*object) is Some ==> kept is Some && fields_of(kept.unwrap().1) is Some && Some(
            (kept.unwrap().0, fields_of(kept.unwrap().1).unwrap()),
        ) == joined(
            match current {
                Some(first) => Some((first.0, fields_of(first.1)->0)),
                None => None,
            },
            id,
            fields_of(*object)->0,
        ),
{
    if fields(object).is_none() {
        return current;
    }
    match current {
        None => Some((id, clone_object(object))),
        Some(first) => {
            let mut merged = clone_object(object);
            let list = fields(&first.1).unwrap();
            let ghost later = fields_of(*object)->0;
            let mut j: usize = 0;
            while j < list.len()
                invariant
                    j <= list.len(),
                    fields_of(merged) == Some(overlaid(later, list@.take(j as int))),
                decreases list.len() - j,
            {
                let value = clone_object(&list[j].1);
                set_field(&mut merged, &list[j].0, value);
                proof {
                    assert(list@.take(j + 1).drop_last() == list@.take(j as int));
                    assert(list@.take(j + 1).last() == list@[j as int]);
                }
                j += 1;
            }
            proof {
                assert(list@.take(j as int) == list@);
                lemma_overlaid(later, list@, fields_of(first.1)->0);
            }
            Some((first.0, merged))
        },
    }
}

/// The second pass over a table, in its order.
pub fn consolidate(objects: &Vec<Entry>) -> (kept: Consolidated)
    ensures
        kept.wf(),
        kept@ == consolidated(objects@),
{
    let mut root_node: Option<Entry> = None;
    let mut page_tree_root: Option<Entry> = None;
    let mut others: Vec<Entry> = Vec::new();
    let mut i: usize = 0;
    assert(objects@.take(0).len() == 0);
    while i < objects.len()
        invariant
            i <= objects.len(),
            (Consolidated { root_node, page_tree_root, others }).wf(),
            (Consolidated { root_node, page_tree_root, others })@ == consolidated(
                objects@.take(i as int),
            ),
        decreases objects.len() - i,
    {
        let id = objects[i].0;
        let object = &objects[i].1;
        proof {
            assert(objects@.take(i + 1).drop_last() == objects@.take(i as int));
            assert(objects@.take(i + 1).last() == objects@[i as int]);
        }
        match classify(object) {
            ObjectClass::RootNode => {
                root_node = adopt_root_node(root_node, id, object);
            },
            ObjectClass::PageTreeRoot => {
                page_tree_root = join_page_tree_root(page_tree_root, id, object);
            },
            ObjectClass::Page | ObjectClass::NavigationRoot | ObjectClass::NavigationItem => {},
            ObjectClass::Other => {
                others.push((id, clone_object(object)));
            },
        }
        i += 1;
    }
    assert(objects@.take(i as int) == objects@);
    Consolidated { root_node, page_tree_root, others }
}

} // verus!
