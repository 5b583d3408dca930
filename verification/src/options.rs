//! Request types: what the caller asks of the tool.

use vstd::prelude::*;

verus! {

/// The sorting key for sibling entries in a tree view.
#[derive(Debug, Clone, Copy, PartialEq, Eq, Structural)]
pub enum SortType {
    Name,
    Size,
    ModifiedDate,
    CreatedDate,
}

impl Default for SortType {
    fn default() -> (r: Self)
        ensures
            r == SortType::Name,
    {
        Self::Name
    }
}

/// Options for one tree render. `depth` is the number of directory levels
/// below the root that are expanded; it is always at least 1 (a render of
/// the root line alone is not a representable request).
#[derive(Debug, Clone, Copy, PartialEq, Eq, Structural)]
pub struct TreeArgs {
    pub depth: usize,
    pub no_hidden: bool,
    pub show_size: bool,
    pub sort_type: SortType,
    pub reverse_sort: bool,
}

/// A whole invocation: the canonical path to measure, whether to also print
/// the raw byte count, and optionally a subcommand.
#[derive(Debug)]
pub struct Args {
    pub path: String,
    pub show_bytes: bool,
    pub command: Option<Commands>,
}

/// The subcommands: only the tree view.
#[derive(Debug)]
pub enum Commands {
    Tree(TreeArgs),
}

} // verus!
