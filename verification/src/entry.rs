//! The filesystem snapshot model.
//!
//! The walk of the real filesystem happens outside this library; what the
//! library computes on is a snapshot of the subtree, one [`FsNode`] per
//! observed entry. Metadata that could not be read is recorded as absent
//! (`meta_ok == false`, `modified`/`created == None`) rather than as an
//! error: permission failures and platform gaps are expected outcomes.
//!
//! Symlinked directories are never descended into (a symlink node has no
//! children), so a cycle through a symlink cannot occur in a snapshot.

use vstd::prelude::*;

verus! {

/// The file-type tag of an observed entry.
#[derive(Debug, Clone, Copy, PartialEq, Eq, Structural)]
pub enum EntryKind {
    File,
    Directory,
    Symlink,
    Other,
}

/// One observed node of the subtree, with its children.
///
/// `path` is the canonical absolute path (the stable cache key), `name` the
/// final path component. `hidden` is the platform's judgment of the entry,
/// recorded by the observer: the dedicated hidden attribute where the
/// system has one, otherwise the name rule of [`file_is_hidden`]. `len` is
/// the metadata length, meaningful for regular files. `modified` and
/// `created` are timestamps in nanoseconds since the unix epoch.
/// `time_display` is a rendered form of the timestamp used for date-sorted
/// tree views; it is filled by [`crate::tree::resolve_time_displays`].
#[derive(Debug)]
pub struct FsNode {
    pub path: String,
    pub name: String,
    pub kind: EntryKind,
    pub hidden: bool,
    pub meta_ok: bool,
    pub len: u64,
    pub modified: Option<i64>,
    pub created: Option<i64>,
    pub time_display: Option<String>,
    pub children: Vec<FsNode>,
}

impl FsNode {
    /// What this node itself adds to the aggregate: a readable regular file
    /// adds its length and a count of one; directories, symlinks, unreadable
    /// entries and anything else add nothing of their own.
    pub open spec fn own_bytes(self) -> int {
        if self.kind == EntryKind::File && self.meta_ok {
            self.len as int
        } else {
            0
        }
    }

    pub open spec fn own_files(self) -> int {
        if self.kind == EntryKind::File && self.meta_ok {
            1
        } else {
            0
        }
    }

    /// Total size in bytes of the subtree rooted here: the sum of the
    /// lengths of all readable regular files in it.
    pub open spec fn subtree_bytes(self) -> int
        decreases self,
    {
        self.own_bytes() + seq_bytes(self.children@)
    }

    /// Number of readable regular files in the subtree rooted here.
    pub open spec fn subtree_files(self) -> int
        decreases self,
    {
        self.own_files() + seq_files(self.children@)
    }
}

pub open spec fn seq_bytes(s: Seq<FsNode>) -> int
    decreases s,
{
    if s.len() == 0 {
        0
    } else {
        s[0].subtree_bytes() + seq_bytes(s.drop_first())
    }
}

pub open spec fn seq_files(s: Seq<FsNode>) -> int
    decreases s,
{
    if s.len() == 0 {
        0
    } else {
        s[0].subtree_files() + seq_files(s.drop_first())
    }
}

/// `n` is a node of the subtree rooted at `t` (possibly `t` itself).
pub open spec fn in_tree(n: FsNode, t: FsNode) -> bool
    decreases t,
{
    n == t || exists|i: int|
        0 <= i < t.children@.len() && in_tree(n, #[trigger] t.children@[i])
}

/// No two distinct nodes of the subtree share a canonical path. This is
/// what makes the path a sound memoization key.
pub open spec fn paths_unique(t: FsNode) -> bool {
    forall|a: FsNode, b: FsNode|
        in_tree(a, t) && in_tree(b, t) && a.path@ == b.path@ ==> a == b
}

/// The fallback definition of hidden, for systems without a dedicated
/// hidden attribute: the final path component begins with a period.
pub open spec fn is_hidden_name(s: Seq<char>) -> bool {
    s.len() > 0 && s[0] == '.'
}

/// Checks if a file is hidden by its name: the final path component starts
/// with a period. The snapshot observer records this in [`FsNode::hidden`]
/// on systems that expose no dedicated hidden attribute; where one exists,
/// it consults that attribute instead.
pub fn file_is_hidden(name: &str) -> (r: bool)
    ensures
        r == is_hidden_name(name@),
{
    let n = name.unicode_len();
    n > 0 && name.get_char(0) == '.'
}

/// Membership in a subtree is transitive: everything in a child's subtree
/// is in the parent's.
pub proof fn lemma_in_tree_trans(a: FsNode, b: FsNode, c: FsNode)
    requires
        in_tree(a, b),
        in_tree(b, c),
    ensures
        in_tree(a, c),
    decreases c,
{
    if b == c {
    } else {
        let i = choose|i: int|
            0 <= i < c.children@.len() && in_tree(b, #[trigger] c.children@[i]);
        lemma_in_tree_trans(a, b, c.children@[i]);
    }
}

} // verus!
