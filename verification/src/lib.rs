//! Merging PDF documents into one, and the file names the tool works with.
//!
//! A merge runs in four passes. [`collect`] renumbers each input behind the one before,
//! walks its pages and makes a bookmark for its first page. [`consolidate`] keeps one root
//! node and one page-tree root out of all that the inputs bring. [`assemble`] hangs the pages
//! under that page-tree root and finishes the two roots. [`finish`] builds the composite
//! document, renumbers it without gaps, and turns the bookmarks into an outline. [`merge`]
//! runs the four in turn, and [`laws`] holds what is proved of every merge.
//!
//! The documents and their objects are those of `lopdf`, which also renumbers, walks page
//! trees, builds outlines and compresses streams; [`document`] and [`object`] declare these
//! calls and what this library takes them to do.

pub mod assemble;
pub mod classify;
pub mod collect;
pub mod consolidate;
pub mod document;
pub mod entries;
pub mod error;
pub mod filenames;
pub mod finish;
pub mod identifiers;
pub mod label;
pub mod laws;
pub mod merge;
pub mod names;
pub mod object;
pub mod pages;
pub mod shrink;
