//! Filtering and ordering of a sibling group.
//!
//! A directory's children are pruned by the hidden-entry filter and then
//! stably sorted by the sibling comparator. The executable sort works on
//! indices into the children vector, so the snapshot itself is never moved
//! or copied; its result is pinned to a specification-level insertion sort,
//! which also fixes how entries that compare equal keep their snapshot
//! order.

use vstd::prelude::*;

use crate::compare::{compare_entries, entry_cmp};
use crate::entry::{FsNode, in_tree, paths_unique};
use crate::options::SortType;
use crate::size::SizeCache;
use core::cmp::Ordering;

verus! {

/// Whether a sibling survives the hidden-entry filter.
pub open spec fn kept(c: FsNode, no_hidden: bool) -> bool {
    !no_hidden || !c.hidden
}

/// The siblings that survive the filter, in snapshot order.
pub open spec fn visible(s: Seq<FsNode>, no_hidden: bool) -> Seq<FsNode>
    decreases s,
{
    if s.len() == 0 {
        Seq::<FsNode>::empty()
    } else {
        visible(s.drop_last(), no_hidden) + (if kept(s.last(), no_hidden) {
            seq![s.last()]
        } else {
            Seq::<FsNode>::empty()
        })
    }
}

/// Inserts `x` behind every already-placed sibling it does not strictly
/// precede — the stable insertion position.
pub open spec fn insert_sorted(
    x: FsNode,
    s: Seq<FsNode>,
    mode: SortType,
    rev: bool,
) -> Seq<FsNode>
    decreases s,
{
    if s.len() == 0 {
        seq![x]
    } else if entry_cmp(mode, rev, x, s[0]) == Ordering::Less {
        seq![x] + s
    } else {
        seq![s[0]] + insert_sorted(x, s.drop_first(), mode, rev)
    }
}

/// Stable insertion sort of a sibling group under the complete ordering.
pub open spec fn sort_seq(s: Seq<FsNode>, mode: SortType, rev: bool) -> Seq<FsNode>
    decreases s,
{
    if s.len() == 0 {
        Seq::<FsNode>::empty()
    } else {
        insert_sorted(s.last(), sort_seq(s.drop_last(), mode, rev), mode, rev)
    }
}

/// The children a tree view shows for a node, in the order it shows them.
pub open spec fn ordered_children(t: FsNode, mode: SortType, rev: bool, no_hidden: bool) -> Seq<
    FsNode,
> {
    sort_seq(visible(t.children@, no_hidden), mode, rev)
}

/// Where the scan stops is where the recursive insertion lands.
proof fn lemma_insert_sorted_at(x: FsNode, s: Seq<FsNode>, mode: SortType, rev: bool, j: int)
    requires
        0 <= j <= s.len(),
        forall|k: int| 0 <= k < j ==> entry_cmp(mode, rev, x, #[trigger] s[k]) != Ordering::Less,
        j < s.len() ==> entry_cmp(mode, rev, x, s[j]) == Ordering::Less,
    ensures
        insert_sorted(x, s, mode, rev) == s.take(j) + seq![x] + s.skip(j),
    decreases j,
{
    if j == 0 {
        assert(insert_sorted(x, s, mode, rev) =~= s.take(0) + seq![x] + s.skip(0));
    } else {
        lemma_insert_sorted_at(x, s.drop_first(), mode, rev, j - 1);
        assert(forall|k: int|
            0 <= k < j - 1 ==> s.drop_first()[k] == s[k + 1]);
        assert(insert_sorted(x, s, mode, rev) == seq![s[0]] + insert_sorted(
            x,
            s.drop_first(),
            mode,
            rev,
        ));
        assert(seq![s[0]] + (s.drop_first().take(j - 1) + seq![x] + s.drop_first().skip(j - 1))
            =~= s.take(j) + seq![x] + s.skip(j));
    }
}

/// The nodes selected by an index list.
pub open spec fn nodes_at(s: Seq<FsNode>, idxs: Seq<usize>) -> Seq<FsNode> {
    idxs.map_values(|i: usize| s[i as int])
}

/// The stable insertion position of child `i` among the already-ordered
/// children selected by `r`: behind everything it does not strictly precede.
fn find_insert_pos(
    t: &FsNode,
    i: usize,
    r: &Vec<usize>,
    mode: SortType,
    rev: bool,
    cache: &mut SizeCache,
) -> (j: usize)
    requires
        old(cache).ok(),
        in_tree(*t, old(cache).tree()),
        paths_unique(old(cache).tree()),
        old(cache).tree().subtree_bytes() <= u64::MAX,
        old(cache).tree().subtree_files() <= u64::MAX,
        i < t.children@.len(),
        forall|k: int| 0 <= k < r@.len() ==> (#[trigger] r@[k]) < t.children@.len(),
    ensures
        final(cache).ok(),
        final(cache).tree() == old(cache).tree(),
        j <= r@.len(),
        forall|k: int|
            0 <= k < j ==> entry_cmp(
                mode,
                rev,
                t.children@[i as int],
                #[trigger] nodes_at(t.children@, r@)[k],
            ) != Ordering::Less,
        j < r@.len() ==> entry_cmp(
            mode,
            rev,
            t.children@[i as int],
            nodes_at(t.children@, r@)[j as int],
        ) == Ordering::Less,
{
    let ghost root = old(cache).tree();
    let m = r.len();
    let mut j: usize = 0;
    while j < m
        invariant
            j <= m,
            m == r@.len(),
            cache.ok(),
            root == old(cache).tree(),
            cache.tree() == root,
            in_tree(*t, root),
            paths_unique(root),
            root.subtree_bytes() <= u64::MAX,
            root.subtree_files() <= u64::MAX,
            i < t.children@.len(),
            forall|k: int| 0 <= k < r@.len() ==> (#[trigger] r@[k]) < t.children@.len(),
            forall|k: int|
                0 <= k < j ==> entry_cmp(
                    mode,
                    rev,
                    t.children@[i as int],
                    #[trigger] nodes_at(t.children@, r@)[k],
                ) != Ordering::Less,
        decreases m - j,
    {
        proof {
            crate::size::lemma_child_in_tree(*t, i as int, root);
            crate::size::lemma_child_in_tree(*t, r@[j as int] as int, root);
        }
        let c = compare_entries(mode, rev, &t.children[i], &t.children[r[j]], cache);
        if matches!(c, Ordering::Less) {
            return j;
        }
        j = j + 1;
    }
    j
}

/// Produces the indices of the children a tree view shows, in view order:
/// hidden entries pruned when asked, the rest stably sorted under the
/// complete sibling ordering.
pub fn sorted_visible_indices(
    t: &FsNode,
    mode: SortType,
    rev: bool,
    no_hidden: bool,
    cache: &mut SizeCache,
) -> (r: Vec<usize>)
    requires
        old(cache).ok(),
        in_tree(*t, old(cache).tree()),
        paths_unique(old(cache).tree()),
        old(cache).tree().subtree_bytes() <= u64::MAX,
        old(cache).tree().subtree_files() <= u64::MAX,
    ensures
        final(cache).ok(),
        final(cache).tree() == old(cache).tree(),
        forall|j: int| 0 <= j < r@.len() ==> (#[trigger] r@[j]) < t.children@.len(),
        nodes_at(t.children@, r@) == ordered_children(*t, mode, rev, no_hidden),
{
    let ghost root = old(cache).tree();
    let n = t.children.len();
    let mut r: Vec<usize> = Vec::new();
    proof {
        assert(t.children@.take(0) =~= Seq::<FsNode>::empty());
        assert(nodes_at(t.children@, r@) =~= Seq::<FsNode>::empty());
    }
    let mut i: usize = 0;
    while i < n
        invariant
            i <= n,
            n == t.children@.len(),
            cache.ok(),
            cache.tree() == root,
            in_tree(*t, root),
            paths_unique(root),
            root.subtree_bytes() <= u64::MAX,
            root.subtree_files() <= u64::MAX,
            forall|j: int| 0 <= j < r@.len() ==> (#[trigger] r@[j]) < n,
            nodes_at(t.children@, r@) == sort_seq(
                visible(t.children@.take(i as int), no_hidden),
                mode,
                rev,
            ),
        decreases n - i,
    {
        proof {
            assert(t.children@.take(i as int + 1).drop_last() =~= t.children@.take(i as int));
            assert(t.children@.take(i as int + 1).last() == t.children@[i as int]);
        }
        if no_hidden && t.children[i].hidden {
            i = i + 1;
            continue;
        }
        let ghost before = nodes_at(t.children@, r@);
        let j = find_insert_pos(t, i, &r, mode, rev, cache);
        proof {
            lemma_insert_sorted_at(t.children@[i as int], before, mode, rev, j as int);
            assert((visible(t.children@.take(i as int), no_hidden) + seq![
                t.children@[i as int],
            ]).drop_last() =~= visible(t.children@.take(i as int), no_hidden));
        }
        r.insert(j, i);
        proof {
            assert(nodes_at(t.children@, r@) =~= before.take(j as int) + seq![
                t.children@[i as int],
            ] + before.skip(j as int));
        }
        i = i + 1;
    }
    proof {
        assert(t.children@.take(n as int) =~= t.children@);
    }
    r
}

} // verus!
