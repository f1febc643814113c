//! PDF objects as `lopdf` holds them. An object is opaque to the verifier: what this library
//! reads of one, and what it builds, goes through the few calls declared here, and the
//! contracts of those calls are taken on trust from `lopdf`'s source.

use vstd::prelude::*;

verus! {

/// An object identifier: the object number, then the generation number.
pub type ObjectId = (u32, u16);

/// An object together with the identifier it is stored under.
pub type Entry = (ObjectId, lopdf::Object);

#[verifier::external_type_specification]
#[verifier::external_body]
pub struct ExObject(lopdf::Object);

/// Whether a dictionary, or the dictionary of a stream, names `name` as its type: what
/// `Dictionary::type_is` answers for it. No other object has a type.
pub uninterp spec fn typed_as(object: lopdf::Object, name: Seq<u8>) -> bool;

/// The entries of a dictionary object, by key; `None` for an object that `Object::as_dict`
/// does not accept as a dictionary.
pub uninterp spec fn fields_of(object: lopdf::Object) -> Option<Map<Seq<u8>, lopdf::Object>>;

/// The identifier that a reference points at, as `Object::as_reference` reads it; `None` for
/// an object that is no reference.
pub uninterp spec fn reference_of(object: lopdf::Object) -> Option<ObjectId>;

/// The object `Object::Reference(id)`.
pub uninterp spec fn reference_to(id: ObjectId) -> lopdf::Object;

/// The object `Object::Integer(value)`.
pub uninterp spec fn integer_value(value: i64) -> lopdf::Object;

/// The object `Object::Array(items)`.
pub uninterp spec fn array_of(items: Seq<lopdf::Object>) -> lopdf::Object;

/// The entries of `list` are what `fields` holds, key by key.
pub open spec fn lists(list: Seq<(Vec<u8>, lopdf::Object)>, fields: Map<Seq<u8>, lopdf::Object>) -> bool {
    &&& forall|i: int|
        0 <= i < list.len() ==> fields.contains_key(#[trigger] list[i].0@) && fields[list[i].0@]
            == list[i].1
    &&& forall|key: Seq<u8>| #[trigger]
        fields.contains_key(key) ==> exists|i: int| 0 <= i < list.len() && #[trigger] list[i].0@ == key
}

/// `Clone::clone` of an object: the copy is the same object.
#[verifier::external_body]
pub(crate) fn clone_object(object: &lopdf::Object) -> (copy: lopdf::Object)
    ensures
        copy == *object,
{
    object.clone()
}

/// `Dictionary::type_is`, on a dictionary object or on the dictionary of a stream: whether its
/// `Type` entry is the name `name`. Any other object has no type.
#[verifier::external_body]
pub(crate) fn has_type(object: &lopdf::Object, name: &Vec<u8>) -> (typed: bool)
    ensures
        typed == typed_as(*object, name@),
{
    match object {
        lopdf::Object::Dictionary(dictionary) => dictionary.type_is(name),
        lopdf::Object::Stream(stream) => stream.dict.type_is(name),
        _ => false,
    }
}

/// `Object::as_dict`, then `Dictionary::iter`: a copy of every entry of a dictionary object,
/// `None` for any other object.
#[verifier::external_body]
pub(crate) fn fields(object: &lopdf::Object) -> (list: Option<Vec<(Vec<u8>, lopdf::Object)>>)
    ensures
        match list {
            Some(entries) => fields_of(*object) is Some && lists(entries@, fields_of(*object)->0),
            None => fields_of(*object) is None,
        },
{
    let dictionary = object.as_dict().ok()?;
    Some(dictionary.iter().map(|(key, value)| (key.clone(), value.clone())).collect())
}

/// `Object::as_dict_mut`, then `Dictionary::set`: on a dictionary object the entry under `key`
/// becomes `value`, added if it was not there; any other object is left as it is.
#[verifier::external_body]
pub(crate) fn set_field(object: &mut lopdf::Object, key: &Vec<u8>, value: lopdf::Object)
    ensures
        fields_of(*final(object)) == match fields_of(*old(object)) {
            Some(entries) => Some(entries.insert(key@, value)),
            None => None,
        },
        fields_of(*old(object)) is None ==> *final(object) == *old(object),
{
    if let Ok(dictionary) = object.as_dict_mut() {
        dictionary.set(key.clone(), value);
    }
}

/// `Object::as_dict_mut`, then `Dictionary::remove`: on a dictionary object the entry under
/// `key` is gone; any other object is left as it is.
#[verifier::external_body]
pub(crate) fn remove_field(object: &mut lopdf::Object, key: &Vec<u8>)
    ensures
        fields_of(*final(object)) == match fields_of(*old(object)) {
            Some(entries) => Some(entries.remove(key@)),
            None => None,
        },
        fields_of(*old(object)) is None ==> *final(object) == *old(object),
{
    if let Ok(dictionary) = object.as_dict_mut() {
        dictionary.remove(key);
    }
}

/// `Object::Reference`: the reference to `id`, which `Object::as_reference` reads back.
#[verifier::external_body]
pub(crate) fn reference(id: ObjectId) -> (object: lopdf::Object)
    ensures
        object == reference_to(id),
        reference_of(object) == Some(id),
        fields_of(object) is None,
{
    lopdf::Object::Reference(id)
}

/// `Object::Integer`: the integer `value`.
#[verifier::external_body]
pub(crate) fn integer(value: i64) -> (object: lopdf::Object)
    ensures
        object == integer_value(value),
{
    lopdf::Object::Integer(value)
}

/// `Object::Array`: the array of `items`, in their order.
#[verifier::external_body]
pub(crate) fn array(items: Vec<lopdf::Object>) -> (object: lopdf::Object)
    ensures
        object == array_of(items@),
{
    lopdf::Object::Array(items)
}

} // verus!
