//! Aggregate size of a subtree, memoized by canonical path.
//!
//! `size_of` answers in bytes and file count; for a directory that is the
//! recursive sum over all readable regular files below it. The memoization
//! map is an explicitly owned [`SizeCache`], constructed per invocation for
//! one snapshot and passed by reference wherever sizes are needed; a key,
//! once populated, is never mutated. The cache is keyed by the canonical
//! path string, which is sound because snapshot paths are unique.
//!
//! Unreadable entries contribute zero bytes and zero files; only a root
//! whose own metadata could not be read is reported as an error. Whether
//! hidden entries count is the caller's choice of snapshot: the whole-tree
//! total is computed over everything the snapshot holds, unfiltered — the
//! hidden-entry filter applies to tree views only.

use vstd::prelude::*;

use crate::entry::{
    FsNode, in_tree, lemma_in_tree_trans, paths_unique, seq_bytes,
    seq_files,
};

verus! {

/// Why a size query can fail: the root of the query itself was unreadable.
/// (Failures below the root degrade to zero contributions instead.)
#[derive(Debug, Clone, Copy, PartialEq, Eq, Structural)]
pub enum SizeError {
    RootUnreadable,
}

struct CacheSlot {
    path: String,
    bytes: u64,
    files: u64,
}

/// A slot is truthful when some node of the snapshot carries its path and
/// its recorded sizes are that node's aggregate.
pub open spec fn slot_good(path: Seq<char>, bytes: u64, files: u64, t: FsNode) -> bool {
    exists|n: FsNode|
        in_tree(n, t) && n.path@ == path && bytes == n.subtree_bytes() && files
            == n.subtree_files()
}

/// The memoization map for one snapshot: canonical path -> (bytes, files).
pub struct SizeCache {
    slots: Vec<CacheSlot>,
    tree: Ghost<FsNode>,
}

impl SizeCache {
    /// The snapshot this cache was built for.
    pub closed spec fn tree(self) -> FsNode {
        self.tree@
    }

    /// Every populated entry is truthful for the snapshot.
    pub closed spec fn ok(self) -> bool {
        forall|i: int|
            0 <= i < self.slots@.len() ==> slot_good(
                (#[trigger] self.slots@[i]).path@,
                self.slots@[i].bytes,
                self.slots@[i].files,
                self.tree@,
            )
    }

    /// A fresh, empty cache for one snapshot.
    pub fn new(root: &FsNode) -> (c: Self)
        ensures
            c.tree() == *root,
            c.ok(),
    {
        SizeCache { slots: Vec::new(), tree: Ghost(*root) }
    }

    /// Looks a path up; anything returned is a truthful recorded aggregate.
    fn get(&self, path: &String) -> (r: Option<(u64, u64)>)
        requires
            self.ok(),
        ensures
            r matches Some(v) ==> slot_good(path@, v.0, v.1, self.tree()),
    {
        let n = self.slots.len();
        let mut i: usize = 0;
        while i < n
            invariant
                n == self.slots@.len(),
                i <= n,
                self.ok(),
            decreases n - i,
        {
            if self.slots[i].path.eq(path) {
                return Some((self.slots[i].bytes, self.slots[i].files));
            }
            i = i + 1;
        }
        None
    }

    /// Records a truthful aggregate for a path. Existing keys are never
    /// overwritten: callers populate a key at most once.
    fn put(&mut self, path: String, bytes: u64, files: u64)
        requires
            old(self).ok(),
            slot_good(path@, bytes, files, old(self).tree()),
        ensures
            final(self).ok(),
            final(self).tree() == old(self).tree(),
    {
        self.slots.push(CacheSlot { path, bytes, files });
    }
}

/// `subtree_bytes` and `subtree_files` are sums of non-negative
/// contributions.
pub proof fn lemma_sizes_nonneg(t: FsNode)
    ensures
        t.subtree_bytes() >= 0,
        t.subtree_files() >= 0,
    decreases t,
{
    lemma_seq_sizes_nonneg(t.children@);
}

pub proof fn lemma_seq_sizes_nonneg(s: Seq<FsNode>)
    ensures
        seq_bytes(s) >= 0,
        seq_files(s) >= 0,
    decreases s,
{
    if s.len() > 0 {
        lemma_sizes_nonneg(s[0]);
        lemma_seq_sizes_nonneg(s.drop_first());
    }
}

/// A sibling sequence splits anywhere into prefix and suffix sums.
pub proof fn lemma_seq_sizes_split(s: Seq<FsNode>, i: int)
    requires
        0 <= i <= s.len(),
    ensures
        seq_bytes(s) == seq_bytes(s.take(i)) + seq_bytes(s.skip(i)),
        seq_files(s) == seq_files(s.take(i)) + seq_files(s.skip(i)),
    decreases i,
{
    if i == 0 {
        assert(s.take(0) =~= Seq::<FsNode>::empty());
        assert(s.skip(0) =~= s);
    } else {
        lemma_seq_sizes_split(s.drop_first(), i - 1);
        assert(s.take(i).drop_first() =~= s.drop_first().take(i - 1));
        assert(s.skip(i) =~= s.drop_first().skip(i - 1));
        assert(s.take(i)[0] == s[0]);
    }
}

/// A node's aggregate never exceeds that of a subtree containing it.
pub proof fn lemma_sizes_mono(n: FsNode, t: FsNode)
    requires
        in_tree(n, t),
    ensures
        n.subtree_bytes() <= t.subtree_bytes(),
        n.subtree_files() <= t.subtree_files(),
    decreases t,
{
    if n == t {
    } else {
        let i = choose|i: int|
            0 <= i < t.children@.len() && in_tree(n, #[trigger] t.children@[i]);
        lemma_sizes_mono(n, t.children@[i]);
        lemma_seq_sizes_split(t.children@, i);
        lemma_seq_sizes_nonneg(t.children@.take(i));
        lemma_seq_sizes_nonneg(t.children@.skip(i).drop_first());
        assert(t.children@.skip(i)[0] == t.children@[i]);
    }
}

/// Every direct child is in the subtree, and so in any tree holding it.
pub proof fn lemma_child_in_tree(t: FsNode, i: int, root: FsNode)
    requires
        0 <= i < t.children@.len(),
        in_tree(t, root),
    ensures
        in_tree(t.children@[i], root),
{
    assert(in_tree(t.children@[i], t.children@[i]));
    assert(in_tree(t.children@[i], t));
    lemma_in_tree_trans(t.children@[i], t, root);
}

/// The readable regular files of the subtree, in snapshot order.
pub open spec fn files_of(t: FsNode) -> Seq<FsNode>
    decreases t,
{
    (if t.kind == crate::entry::EntryKind::File && t.meta_ok {
        seq![t]
    } else {
        Seq::<FsNode>::empty()
    }) + files_of_seq(t.children@)
}

pub open spec fn files_of_seq(s: Seq<FsNode>) -> Seq<FsNode>
    decreases s,
{
    if s.len() == 0 {
        Seq::<FsNode>::empty()
    } else {
        files_of(s[0]) + files_of_seq(s.drop_first())
    }
}

/// The sum of the metadata lengths of a sequence of nodes.
pub open spec fn sum_lens(s: Seq<FsNode>) -> int
    decreases s,
{
    if s.len() == 0 {
        0
    } else {
        s[0].len + sum_lens(s.drop_first())
    }
}

proof fn lemma_sum_lens_concat(a: Seq<FsNode>, b: Seq<FsNode>)
    ensures
        sum_lens(a + b) == sum_lens(a) + sum_lens(b),
    decreases a,
{
    if a.len() == 0 {
        assert(a + b =~= b);
    } else {
        lemma_sum_lens_concat(a.drop_first(), b);
        assert((a + b).drop_first() =~= a.drop_first() + b);
        assert((a + b)[0] == a[0]);
    }
}

/// The law behind `size_of`: for any subtree with readable regular files
/// f1..fn below it, the aggregate byte count is the sum of their lengths
/// and the file count is n.
pub proof fn lemma_size_is_file_sum(t: FsNode)
    ensures
        t.subtree_bytes() == sum_lens(files_of(t)),
        t.subtree_files() == files_of(t).len(),
    decreases t,
{
    lemma_seq_size_is_file_sum(t.children@);
    let own = if t.kind == crate::entry::EntryKind::File && t.meta_ok {
        seq![t]
    } else {
        Seq::<FsNode>::empty()
    };
    lemma_sum_lens_concat(own, files_of_seq(t.children@));
    if t.kind == crate::entry::EntryKind::File && t.meta_ok {
        assert(own.drop_first() =~= Seq::<FsNode>::empty());
        assert(own[0] == t);
        assert(sum_lens(Seq::<FsNode>::empty()) == 0);
        assert(sum_lens(own) == t.len);
    }
}

proof fn lemma_seq_size_is_file_sum(s: Seq<FsNode>)
    ensures
        seq_bytes(s) == sum_lens(files_of_seq(s)),
        seq_files(s) == files_of_seq(s).len(),
    decreases s,
{
    if s.len() > 0 {
        lemma_size_is_file_sum(s[0]);
        lemma_seq_size_is_file_sum(s.drop_first());
        lemma_sum_lens_concat(files_of(s[0]), files_of_seq(s.drop_first()));
    }
}

/// Computes the aggregate of one node of the snapshot, consulting and
/// populating the cache. The result is the node's aggregate no matter what
/// the cache held: memoization changes cost, never the answer.
fn compute_size(t: &FsNode, cache: &mut SizeCache) -> (r: (u64, u64))
    requires
        old(cache).ok(),
        in_tree(*t, old(cache).tree()),
        paths_unique(old(cache).tree()),
        old(cache).tree().subtree_bytes() <= u64::MAX,
        old(cache).tree().subtree_files() <= u64::MAX,
    ensures
        final(cache).ok(),
        final(cache).tree() == old(cache).tree(),
        r.0 == t.subtree_bytes(),
        r.1 == t.subtree_files(),
    decreases *t,
{
    if let Some(v) = cache.get(&t.path) {
        proof {
            let n = choose|n: FsNode|
                in_tree(n, cache.tree()) && n.path@ == t.path@ && v.0 == n.subtree_bytes()
                    && v.1 == n.subtree_files();
            assert(n == *t);
        }
        return v;
    }
    let ghost root = cache.tree();
    proof {
        lemma_sizes_mono(*t, root);
        lemma_sizes_nonneg(*t);
    }
    let own: u64 = if t.kind == crate::entry::EntryKind::File && t.meta_ok {
        t.len
    } else {
        0
    };
    let mut bytes: u64 = own;
    let mut files: u64 = if t.kind == crate::entry::EntryKind::File && t.meta_ok {
        1
    } else {
        0
    };
    let count = t.children.len();
    let mut i: usize = 0;
    while i < count
        invariant
            count == t.children@.len(),
            i <= count,
            cache.ok(),
            cache.tree() == root,
            in_tree(*t, root),
            paths_unique(root),
            root.subtree_bytes() <= u64::MAX,
            root.subtree_files() <= u64::MAX,
            bytes == t.own_bytes() + seq_bytes(t.children@.take(i as int)),
            files == t.own_files() + seq_files(t.children@.take(i as int)),
        decreases count - i,
    {
        proof {
            lemma_child_in_tree(*t, i as int, root);
            lemma_sizes_mono(*t, root);
            lemma_seq_sizes_split(t.children@, i as int);
            lemma_seq_sizes_nonneg(t.children@.skip(i as int).drop_first());
            assert(t.children@.skip(i as int)[0] == t.children@[i as int]);
            lemma_sizes_nonneg(t.children@[i as int]);
            lemma_seq_sizes_nonneg(t.children@.take(i as int));
        }
        let (cb, cf) = compute_size(&t.children[i], cache);
        proof {
            assert(t.children@.take(i as int + 1).drop_last() =~= t.children@.take(i as int));
            lemma_seq_sizes_split(t.children@.take(i as int + 1), i as int);
            assert(t.children@.take(i as int + 1).take(i as int) =~= t.children@.take(i as int));
            assert(t.children@.take(i as int + 1).skip(i as int) =~= seq![t.children@[i as int]]);
            assert(seq![t.children@[i as int]].drop_first() =~= Seq::<FsNode>::empty());
            assert(seq![t.children@[i as int]][0] == t.children@[i as int]);
            assert(seq_bytes(Seq::<FsNode>::empty()) == 0);
            assert(seq_files(Seq::<FsNode>::empty()) == 0);
            assert(seq_bytes(seq![t.children@[i as int]]) == t.children@[i as int].subtree_bytes());
            assert(seq_files(seq![t.children@[i as int]]) == t.children@[i as int].subtree_files());
        }
        bytes = bytes + cb;
        files = files + cf;
        i = i + 1;
    }
    proof {
        assert(t.children@.take(count as int) =~= t.children@);
    }
    cache.put(t.path.clone(), bytes, files);
    (bytes, files)
}

/// `size_of` is idempotent: its contract pins the answer by the queried
/// node alone, whatever the cache held, so any two results it can return
/// for the same node — a fresh computation and a cache hit alike — are the
/// same pair.
pub proof fn lemma_size_of_idempotent(t: FsNode, r1: (u64, u64), r2: (u64, u64))
    requires
        r1.0 == t.subtree_bytes() && r1.1 == t.subtree_files(),
        r2.0 == t.subtree_bytes() && r2.1 == t.subtree_files(),
    ensures
        r1 == r2,
{
}

/// Computes the size of a node of the snapshot, returning the size in bytes
/// and the number of readable regular files below it. Results are memoized
/// in `cache` by canonical path, so repeated queries for the same path
/// within one invocation return the recorded result — which the contract
/// pins to the same value a fresh computation would give.
///
/// # Errors
///
/// `SizeError::RootUnreadable` exactly when the queried node's own metadata
/// was unreadable; unreadable entries further down merely contribute zero.
pub fn size_of(t: &FsNode, cache: &mut SizeCache) -> (r: Result<(u64, u64), SizeError>)
    requires
        old(cache).ok(),
        in_tree(*t, old(cache).tree()),
        paths_unique(old(cache).tree()),
        old(cache).tree().subtree_bytes() <= u64::MAX,
        old(cache).tree().subtree_files() <= u64::MAX,
    ensures
        final(cache).ok(),
        final(cache).tree() == old(cache).tree(),
        t.meta_ok ==> (r matches Ok(v) && v.0 == t.subtree_bytes() && v.1 == t.subtree_files()),
        !t.meta_ok ==> r == Err::<(u64, u64), SizeError>(SizeError::RootUnreadable),
{
    if t.meta_ok {
        Ok(compute_size(t, cache))
    } else {
        Err(SizeError::RootUnreadable)
    }
}

} // verus!
