//! Why a merge produced no document.

use vstd::prelude::*;

verus! {

/// The reasons for which a merge ends without a document.
#[derive(Debug, Clone, Copy, PartialEq, Eq, Structural)]
pub enum MergeError {
    /// No input holds a page-tree root.
    NoPageTreeRoot,
    /// No input holds a root node.
    NoRootNode,
    /// The objects, pages or bookmarks are more than 32-bit numbering can hold.
    TooLarge,
}

} // verus!
