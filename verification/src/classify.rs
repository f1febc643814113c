//! The classes of objects that a merge tells apart, by the type that an object names.

use crate::names;
use crate::object::{has_type, typed_as};
use vstd::prelude::*;

verus! {

/// What an object is to a merge.
#[derive(Debug, Clone, Copy, PartialEq, Eq, Structural)]
pub enum ObjectClass {
    /// A root node, of type `Catalog`.
    RootNode,
    /// A page-tree root or an inner node of a page tree, of type `Pages`.
    PageTreeRoot,
    /// A page node, of type `Page`.
    Page,
    /// A navigation root, of type `Outlines`.
    NavigationRoot,
    /// A navigation item, of type `Outline`.
    NavigationItem,
    /// Anything else, with or without a type: it passes through as it is.
    Other,
}

/// The class of an object.
pub open spec fn class_of(object: lopdf::Object) -> ObjectClass {
    if typed_as(object, names::catalog()) {
        ObjectClass::RootNode
    } else if typed_as(object, names::pages()) {
        ObjectClass::PageTreeRoot
    } else if typed_as(object, names::page()) {
        ObjectClass::Page
    } else if typed_as(object, names::outlines()) {
        ObjectClass::NavigationRoot
    } else if typed_as(object, names::outline()) {
        ObjectClass::NavigationItem
    } else {
        ObjectClass::Other
    }
}

/// Finds the class of an object.
pub fn classify(object: &lopdf::Object) -> (class: ObjectClass)
    ensures
        class == class_of(*object),
{
    if has_type(object, &names::catalog_name()) {
        ObjectClass::RootNode
    } else if has_type(object, &names::pages_name()) {
        ObjectClass::PageTreeRoot
    } else if has_type(object, &names::page_name()) {
        ObjectClass::Page
    } else if has_type(object, &names::outlines_name()) {
        ObjectClass::NavigationRoot
    } else if has_type(object, &names::outline_name()) {
        ObjectClass::NavigationItem
    } else {
        ObjectClass::Other
    }
}

} // verus!
