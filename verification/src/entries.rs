//! Sequences of stored objects, kept in ascending order of identifier: the model of the object
//! table of a document.

use crate::object::{Entry, ObjectId};
use vstd::prelude::*;

verus! {

/// The order of identifiers: by object number, then by generation number.
pub open spec fn precedes(a: ObjectId, b: ObjectId) -> bool {
    a.0 < b.0 || (a.0 == b.0 && a.1 < b.1)
}

/// Every entry stands before all the entries with a greater identifier, and no identifier
/// occurs twice.
pub open spec fn ascending(entries: Seq<Entry>) -> bool {
    forall|i: int, j: int|
        0 <= i < j < entries.len() ==> precedes(#[trigger] entries[i].0, #[trigger] entries[j].0)
}

/// Some entry is stored under `id`.
pub open spec fn present(entries: Seq<Entry>, id: ObjectId) -> bool {
    exists|i: int| 0 <= i < entries.len() && #[trigger] entries[i].0 == id
}

/// The object stored under `id`: that of the last entry with this identifier.
pub open spec fn lookup(entries: Seq<Entry>, id: ObjectId) -> Option<lopdf::Object>
    decreases entries.len(),
{
    if entries.len() == 0 {
        None
    } else if entries.last().0 == id {
        Some(entries.last().1)
    } else {
        lookup(entries.drop_last(), id)
    }
}

/// The table after `object` is stored under `id`: it takes the place of an entry with the same
/// identifier, or else its place in the order.
pub open spec fn inserted(entries: Seq<Entry>, id: ObjectId, object: lopdf::Object) -> Seq<Entry>
    decreases entries.len(),
{
    if entries.len() == 0 {
        seq![(id, object)]
    } else if entries.last().0 == id {
        entries.drop_last().push((id, object))
    } else if precedes(entries.last().0, id) {
        entries.push((id, object))
    } else {
        inserted(entries.drop_last(), id, object).push(entries.last())
    }
}

/// The table after each of `added` is stored in turn.
pub open spec fn inserted_all(entries: Seq<Entry>, added: Seq<Entry>) -> Seq<Entry>
    decreases added.len(),
{
    if added.len() == 0 {
        entries
    } else {
        inserted(inserted_all(entries, added.drop_last()), added.last().0, added.last().1)
    }
}

/// The object table that storing the entries of `list` in turn leaves, starting from an empty
/// one.
pub open spec fn table_of(list: Seq<Entry>) -> Seq<Entry> {
    inserted_all(Seq::empty(), list)
}

/// Storing an object keeps an ascending table ascending; afterwards the object is found under
/// its identifier, and every other identifier holds what it held.
pub proof fn lemma_inserted(entries: Seq<Entry>, id: ObjectId, object: lopdf::Object)
    requires
        ascending(entries),
    ensures
        ascending(inserted(entries, id, object)),
        lookup(inserted(entries, id, object), id) == Some(object),
        forall|other: ObjectId|
            other != id ==> #[trigger] lookup(inserted(entries, id, object), other) == lookup(
                entries,
                other,
            ),
        forall|other: ObjectId| #[trigger]
            present(inserted(entries, id, object), other) <==> other == id || present(entries, other),
        inserted(entries, id, object).len() == if present(entries, id) {
            entries.len()
        } else {
            entries.len() + 1
        },
    decreases entries.len(),
{
    let result = inserted(entries, id, object);
    if entries.len() == 0 {
        assert(result[0].0 == id);
        assert(result.drop_last() == entries);
        assert forall|other: ObjectId| #[trigger] present(result, other) <==> other == id || present(
            entries,
            other,
        ) by {
            if other == id {
                assert(result[0].0 == other);
            }
        }
    } else {
        let rest = entries.drop_last();
        let last = entries.last();
        assert forall|a: int, b: int| 0 <= a < b < rest.len() implies precedes(
            #[trigger] rest[a].0,
            #[trigger] rest[b].0,
        ) by {
            assert(rest[a] == entries[a] && rest[b] == entries[b]);
        }
        assert forall|a: int| 0 <= a < rest.len() implies precedes(#[trigger] rest[a].0, last.0) by {
            assert(rest[a] == entries[a]);
            assert(last == entries[entries.len() - 1]);
        }
        if last.0 == id {
            assert(result.drop_last() == rest);
            assert forall|a: int, b: int| 0 <= a < b < result.len() implies precedes(
                #[trigger] result[a].0,
                #[trigger] result[b].0,
            ) by {
                if b < rest.len() {
                    assert(result[a] == rest[a] && result[b] == rest[b]);
                } else {
                    assert(result[a] == rest[a]);
                }
            }
            assert forall|other: ObjectId| #[trigger] present(result, other) <==> other == id || present(
                entries,
                other,
            ) by {
                lemma_present_push(rest, (id, object), other);
                lemma_present_push(rest, last, other);
                assert(entries == rest.push(last));
            }
            assert(present(entries, id)) by {
                assert(entries[entries.len() - 1].0 == id);
            }
            assert forall|other: ObjectId| other != id implies #[trigger] lookup(result, other)
                == lookup(entries, other) by {
                assert(result.last().0 == id);
            }
        } else if precedes(last.0, id) {
            assert(result.drop_last() == entries);
            assert forall|a: int, b: int| 0 <= a < b < result.len() implies precedes(
                #[trigger] result[a].0,
                #[trigger] result[b].0,
            ) by {
                if b < entries.len() {
                    assert(result[a] == entries[a] && result[b] == entries[b]);
                } else {
                    assert(result[a] == entries[a]);
                    if a < rest.len() {
                        assert(rest[a] == entries[a]);
                    }
                }
            }
            assert forall|other: ObjectId| #[trigger] present(result, other) <==> other == id || present(
                entries,
                other,
            ) by {
                lemma_present_push(entries, (id, object), other);
            }
            assert(!present(entries, id)) by {
                if present(entries, id) {
                    let i = choose|i: int| 0 <= i < entries.len() && #[trigger] entries[i].0 == id;
                    if i < rest.len() {
                        assert(rest[i] == entries[i]);
                    }
                }
            }
        } else {
            lemma_inserted(rest, id, object);
            let inner = inserted(rest, id, object);
            assert(result.drop_last() == inner);
            assert(precedes(id, last.0));
            assert forall|a: int| 0 <= a < inner.len() implies precedes(#[trigger] inner[a].0, last.0) by {
                assert(present(inner, inner[a].0));
                if inner[a].0 != id {
                    let i = choose|i: int| 0 <= i < rest.len() && #[trigger] rest[i].0 == inner[a].0;
                }
            }
            assert forall|a: int, b: int| 0 <= a < b < result.len() implies precedes(
                #[trigger] result[a].0,
                #[trigger] result[b].0,
            ) by {
                if b < inner.len() {
                    assert(result[a] == inner[a] && result[b] == inner[b]);
                } else {
                    assert(result[a] == inner[a]);
                }
            }
            assert forall|other: ObjectId| #[trigger] present(result, other) <==> other == id || present(
                entries,
                other,
            ) by {
                lemma_present_push(inner, last, other);
                lemma_present_push(rest, last, other);
                assert(entries == rest.push(last));
            }
            assert(present(entries, id) <==> present(rest, id)) by {
                lemma_present_push(rest, last, id);
                assert(entries == rest.push(last));
            }
            assert(result.last() == last);
            assert forall|other: ObjectId| other != id implies #[trigger] lookup(result, other)
                == lookup(entries, other) by {
                if last.0 != other {
                    assert(lookup(inner, other) == lookup(rest, other));
                }
            }
        }
    }
}

/// Storing an object under the identifier of an entry of an ascending table puts it in that
/// entry's place.
pub proof fn lemma_inserted_at(entries: Seq<Entry>, i: int, object: lopdf::Object)
    requires
        ascending(entries),
        0 <= i < entries.len(),
    ensures
        inserted(entries, entries[i].0, object) == entries.update(i, (entries[i].0, object)),
    decreases entries.len(),
{
    let id = entries[i].0;
    let rest = entries.drop_last();
    if i == entries.len() - 1 {
        assert(rest.push((id, object)) =~= entries.update(i, (id, object)));
    } else {
        assert(precedes(entries[i].0, entries[entries.len() - 1].0));
        assert forall|a: int, b: int| 0 <= a < b < rest.len() implies precedes(
            #[trigger] rest[a].0,
            #[trigger] rest[b].0,
        ) by {
            assert(rest[a] == entries[a] && rest[b] == entries[b]);
        }
        lemma_inserted_at(rest, i, object);
        assert(rest[i] == entries[i]);
        assert(rest.update(i, (id, object)).push(entries.last()) =~= entries.update(
            i,
            (id, object),
        ));
    }
}

/// An entry added at the end is found, and nothing else changes.
pub proof fn lemma_present_push(entries: Seq<Entry>, entry: Entry, id: ObjectId)
    ensures
        present(entries.push(entry), id) <==> entry.0 == id || present(entries, id),
{
    let longer = entries.push(entry);
    if entry.0 == id {
        assert(longer[entries.len() as int].0 == id);
    }
    if present(entries, id) {
        let i = choose|i: int| 0 <= i < entries.len() && #[trigger] entries[i].0 == id;
        assert(longer[i].0 == id);
    }
    if present(longer, id) && entry.0 != id {
        let i = choose|i: int| 0 <= i < longer.len() && #[trigger] longer[i].0 == id;
        assert(entries[i].0 == id);
    }
}

/// A table built by storing entries one by one is ascending. It holds an identifier exactly
/// where one of the entries has it, and under it the object of the last such entry.
pub proof fn lemma_table_of(list: Seq<Entry>)
    ensures
        ascending(table_of(list)),
        forall|id: ObjectId| #[trigger] lookup(table_of(list), id) == lookup(list, id),
        forall|id: ObjectId| #[trigger] present(table_of(list), id) <==> present(list, id),
    decreases list.len(),
{
    if list.len() == 0 {
        assert forall|id: ObjectId| #[trigger]
            present(table_of(list), id) <==> present(list, id) by {}
    } else {
        let rest = list.drop_last();
        let last = list.last();
        lemma_table_of(rest);
        lemma_inserted(table_of(rest), last.0, last.1);
        assert forall|id: ObjectId| #[trigger]
            present(table_of(list), id) <==> present(list, id) by {
            lemma_present_push(rest, last, id);
            assert(list == rest.push(last));
        }
        assert forall|id: ObjectId| #[trigger] lookup(table_of(list), id) == lookup(list, id) by {
            if id != last.0 {
                assert(lookup(table_of(rest), id) == lookup(rest, id));
            }
        }
    }
}

/// No two entries of an ascending table share an identifier.
pub proof fn lemma_ascending_is_unique(entries: Seq<Entry>, i: int, j: int)
    requires
        ascending(entries),
        0 <= i < entries.len(),
        0 <= j < entries.len(),
        entries[i].0 == entries[j].0,
    ensures
        i == j,
{
    if i < j {
        assert(precedes(entries[i].0, entries[j].0));
    }
    if j < i {
        assert(precedes(entries[j].0, entries[i].0));
    }
}

/// Two ascending tables that hold the same identifiers hold them in the same places.
pub proof fn lemma_same_identifiers(one: Seq<Entry>, other: Seq<Entry>)
    requires
        ascending(one),
        ascending(other),
        forall|id: ObjectId| #[trigger] present(one, id) <==> present(other, id),
    ensures
        one.len() == other.len(),
        forall|k: int| 0 <= k < one.len() ==> (#[trigger] one[k]).0 == other[k].0,
    decreases one.len(),
{
    if one.len() == 0 {
        if other.len() > 0 {
            let id = other[0].0;
            assert(present(other, id));
            assert(present(one, id));
            let i = choose|i: int| 0 <= i < one.len() && #[trigger] one[i].0 == id;
            assert(false);
        }
    } else {
        let last = one[one.len() - 1].0;
        assert(present(one, last));
        assert(present(other, last));
        let j = choose|j: int| 0 <= j < other.len() && #[trigger] other[j].0 == last;
        let end = other[other.len() - 1].0;
        assert(present(other, end)) by {
            assert(other[other.len() - 1].0 == end);
        }
        assert(present(one, end));
        let i = choose|i: int| 0 <= i < one.len() && #[trigger] one[i].0 == end;
        if j < other.len() - 1 {
            assert(precedes(other[j].0, other[other.len() - 1].0));
            if i < one.len() - 1 {
                assert(precedes(one[i].0, one[one.len() - 1].0));
            }
        }
        assert(last == end);
        let shorter = one.drop_last();
        let rest = other.drop_last();
        assert forall|a: int, b: int| 0 <= a < b < shorter.len() implies precedes(
            #[trigger] shorter[a].0,
            #[trigger] shorter[b].0,
        ) by {
            assert(shorter[a] == one[a] && shorter[b] == one[b]);
        }
        assert forall|a: int, b: int| 0 <= a < b < rest.len() implies precedes(
            #[trigger] rest[a].0,
            #[trigger] rest[b].0,
        ) by {
            assert(rest[a] == other[a] && rest[b] == other[b]);
        }
        assert forall|id: ObjectId| #[trigger] present(shorter, id) <==> present(rest, id) by {
            lemma_present_without_last(one, id);
            lemma_present_without_last(other, id);
        }
        lemma_same_identifiers(shorter, rest);
        assert forall|k: int| 0 <= k < one.len() implies (#[trigger] one[k]).0 == other[k].0 by {
            if k < shorter.len() {
                assert(shorter[k] == one[k] && rest[k] == other[k]);
            }
        }
    }
}

/// An ascending table without its last entry holds every identifier but that entry's.
pub proof fn lemma_present_without_last(entries: Seq<Entry>, id: ObjectId)
    requires
        ascending(entries),
        entries.len() > 0,
    ensures
        present(entries.drop_last(), id) <==> present(entries, id) && id != entries.last().0,
{
    let rest = entries.drop_last();
    if present(rest, id) {
        let i = choose|i: int| 0 <= i < rest.len() && #[trigger] rest[i].0 == id;
        assert(entries[i].0 == id);
        assert(precedes(entries[i].0, entries[entries.len() - 1].0));
    }
    if present(entries, id) && id != entries.last().0 {
        let i = choose|i: int| 0 <= i < entries.len() && #[trigger] entries[i].0 == id;
        assert(rest[i].0 == id);
    }
}

} // verus!
