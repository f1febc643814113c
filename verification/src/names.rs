//! The PDF names this library reads and writes: dictionary keys and object types, as the bytes
//! that stand in a file.

use vstd::prelude::*;

verus! {

/// `Catalog`, the type of a root node.
pub open spec fn catalog() -> Seq<u8> {
    seq![0x43u8, 0x61u8, 0x74u8, 0x61u8, 0x6cu8, 0x6fu8, 0x67u8]
}

/// `Pages`: the type of a page-tree root, and the key under which a root node refers to one.
pub open spec fn pages() -> Seq<u8> {
    seq![0x50u8, 0x61u8, 0x67u8, 0x65u8, 0x73u8]
}

/// `Page`, the type of a page node.
pub open spec fn page() -> Seq<u8> {
    seq![0x50u8, 0x61u8, 0x67u8, 0x65u8]
}

/// `Outlines`: the type of a navigation root, and the key under which a root node refers to
/// one.
pub open spec fn outlines() -> Seq<u8> {
    seq![0x4fu8, 0x75u8, 0x74u8, 0x6cu8, 0x69u8, 0x6eu8, 0x65u8, 0x73u8]
}

/// `Outline`, the type of a navigation item.
pub open spec fn outline() -> Seq<u8> {
    seq![0x4fu8, 0x75u8, 0x74u8, 0x6cu8, 0x69u8, 0x6eu8, 0x65u8]
}

/// `Parent`, the key under which a page node refers to its page-tree node.
pub open spec fn parent() -> Seq<u8> {
    seq![0x50u8, 0x61u8, 0x72u8, 0x65u8, 0x6eu8, 0x74u8]
}

/// `Count`, the key of a page-tree root's number of pages.
pub open spec fn count() -> Seq<u8> {
    seq![0x43u8, 0x6fu8, 0x75u8, 0x6eu8, 0x74u8]
}

/// `Kids`, the key of a page-tree root's array of children.
pub open spec fn kids() -> Seq<u8> {
    seq![0x4bu8, 0x69u8, 0x64u8, 0x73u8]
}

/// `Root`, the key under which the trailer refers to the root node.
pub open spec fn root() -> Seq<u8> {
    seq![0x52u8, 0x6fu8, 0x6fu8, 0x74u8]
}

pub fn catalog_name() -> (name: Vec<u8>)
    ensures
        name@ == catalog(),
{
    let name: Vec<u8> = vec![0x43u8, 0x61u8, 0x74u8, 0x61u8, 0x6cu8, 0x6fu8, 0x67u8];
    assert(name@ =~= catalog());
    name
}

pub fn pages_name() -> (name: Vec<u8>)
    ensures
        name@ == pages(),
{
    let name: Vec<u8> = vec![0x50u8, 0x61u8, 0x67u8, 0x65u8, 0x73u8];
    assert(name@ =~= pages());
    name
}

pub fn page_name() -> (name: Vec<u8>)
    ensures
        name@ == page(),
{
    let name: Vec<u8> = vec![0x50u8, 0x61u8, 0x67u8, 0x65u8];
    assert(name@ =~= page());
    name
}

pub fn outlines_name() -> (name: Vec<u8>)
    ensures
        name@ == outlines(),
{
    let name: Vec<u8> = vec![0x4fu8, 0x75u8, 0x74u8, 0x6cu8, 0x69u8, 0x6eu8, 0x65u8, 0x73u8];
    assert(name@ =~= outlines());
    name
}

pub fn outline_name() -> (name: Vec<u8>)
    ensures
        name@ == outline(),
{
    let name: Vec<u8> = vec![0x4fu8, 0x75u8, 0x74u8, 0x6cu8, 0x69u8, 0x6eu8, 0x65u8];
    assert(name@ =~= outline());
    name
}

pub fn parent_name() -> (name: Vec<u8>)
    ensures
        name@ == parent(),
{
    let name: Vec<u8> = vec![0x50u8, 0x61u8, 0x72u8, 0x65u8, 0x6eu8, 0x74u8];
    assert(name@ =~= parent());
    name
}

pub fn count_name() -> (name: Vec<u8>)
    ensures
        name@ == count(),
{
    let name: Vec<u8> = vec![0x43u8, 0x6fu8, 0x75u8, 0x6eu8, 0x74u8];
    assert(name@ =~= count());
    name
}

pub fn kids_name() -> (name: Vec<u8>)
    ensures
        name@ == kids(),
{
    let name: Vec<u8> = vec![0x4bu8, 0x69u8, 0x64u8, 0x73u8];
    assert(name@ =~= kids());
    name
}

pub fn root_name() -> (name: Vec<u8>)
    ensures
        name@ == root(),
{
    let name: Vec<u8> = vec![0x52u8, 0x6fu8, 0x6fu8, 0x74u8];
    assert(name@ =~= root());
    name
}

} // verus!
