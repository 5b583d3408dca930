//! dsz — directory size: computes the total size of a filesystem subtree
//! (bytes and file count) and renders a depth-bounded, sorted, filtered
//! tree view of it.
//!
//! The filesystem itself is observed by the surrounding binary, which hands
//! the library a snapshot of the subtree as plain data; everything the tool
//! decides or computes — size aggregation with memoization, sibling
//! ordering, hidden-entry pruning, branch-glyph selection, size formatting,
//! and depth validation — lives here, with contracts.

use vstd::prelude::*;

pub mod decimal;
pub mod entry;
pub mod compare;
pub mod format;
pub mod options;
pub mod size;
pub mod sort;
pub mod tree;
pub mod validate;

verus! {

} // verus!
