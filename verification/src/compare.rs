//! Ordering of sibling entries.
//!
//! The order has two tiers. The primary key always puts directories before
//! non-directories and is never reversed. The secondary key is chosen by
//! the sort mode — name ascending, size descending, or timestamp descending
//! (newest first) — and is inverted as a whole when a reversed sort is
//! requested. An entry whose metadata is unavailable never fails the sort:
//! it degrades to the end of its sibling group (the start, under reversal).

use core::cmp::Ordering;
use vstd::prelude::*;

use crate::entry::{EntryKind, FsNode, in_tree, paths_unique};
use crate::options::SortType;
use crate::size::SizeCache;

verus! {

/// Lexicographic comparison of two character sequences by code point.
pub open spec fn lex_cmp(a: Seq<char>, b: Seq<char>) -> Ordering
    decreases a.len(),
{
    if a.len() == 0 && b.len() == 0 {
        Ordering::Equal
    } else if a.len() == 0 {
        Ordering::Less
    } else if b.len() == 0 {
        Ordering::Greater
    } else if (a[0] as u32) < (b[0] as u32) {
        Ordering::Less
    } else if (a[0] as u32) > (b[0] as u32) {
        Ordering::Greater
    } else {
        lex_cmp(a.drop_first(), b.drop_first())
    }
}

/// The size that sorting sees for an entry: the recursive aggregate for a
/// directory, the metadata length otherwise; nothing when the metadata was
/// unreadable.
pub open spec fn size_key(t: FsNode) -> Option<int> {
    if !t.meta_ok {
        None
    } else if t.kind == EntryKind::Directory {
        Some(t.subtree_bytes())
    } else {
        Some(t.len as int)
    }
}

/// The timestamp that sorting sees for an entry under a date mode.
pub open spec fn time_key(t: FsNode, mode: SortType) -> Option<int> {
    if !t.meta_ok {
        None
    } else {
        match mode {
            SortType::ModifiedDate => match t.modified {
                Some(m) => Some(m as int),
                None => None,
            },
            SortType::CreatedDate => match t.created {
                Some(c) => Some(c as int),
                None => None,
            },
            _ => None,
        }
    }
}

/// Descending comparison of optional keys: larger values first, entries
/// without a key last.
pub open spec fn cmp_desc(a: Option<int>, b: Option<int>) -> Ordering {
    match (a, b) {
        (Option::None, Option::None) => Ordering::Equal,
        (Option::None, Option::Some(_)) => Ordering::Greater,
        (Option::Some(_), Option::None) => Ordering::Less,
        (Option::Some(x), Option::Some(y)) => if x > y {
            Ordering::Less
        } else if x < y {
            Ordering::Greater
        } else {
            Ordering::Equal
        },
    }
}

/// The secondary ordering of two sibling entries under a sort mode.
pub open spec fn secondary_cmp(mode: SortType, a: FsNode, b: FsNode) -> Ordering {
    match mode {
        SortType::Name => lex_cmp(a.name@, b.name@),
        SortType::Size => cmp_desc(size_key(a), size_key(b)),
        SortType::ModifiedDate => cmp_desc(time_key(a, mode), time_key(b, mode)),
        SortType::CreatedDate => cmp_desc(time_key(a, mode), time_key(b, mode)),
    }
}

pub open spec fn reverse_ord(o: Ordering) -> Ordering {
    match o {
        Ordering::Less => Ordering::Greater,
        Ordering::Equal => Ordering::Equal,
        Ordering::Greater => Ordering::Less,
    }
}

/// The complete sibling ordering: directories first, then the secondary
/// key, the latter inverted when a reversed sort was requested.
pub open spec fn entry_cmp(mode: SortType, rev: bool, a: FsNode, b: FsNode) -> Ordering {
    let da = a.kind == EntryKind::Directory;
    let db = b.kind == EntryKind::Directory;
    if da && !db {
        Ordering::Less
    } else if !da && db {
        Ordering::Greater
    } else {
        let s = secondary_cmp(mode, a, b);
        if rev {
            reverse_ord(s)
        } else {
            s
        }
    }
}

/// `a` sorts no later than `b`.
pub open spec fn entry_le(mode: SortType, rev: bool, a: FsNode, b: FsNode) -> bool {
    entry_cmp(mode, rev, a, b) != Ordering::Greater
}

/// Lexicographic comparison of two strings, by code point.
pub fn str_lex_cmp(a: &str, b: &str) -> (r: Ordering)
    ensures
        r == lex_cmp(a@, b@),
{
    let na = a.unicode_len();
    let nb = b.unicode_len();
    proof {
        assert(a@.skip(0) =~= a@);
        assert(b@.skip(0) =~= b@);
    }
    let mut i: usize = 0;
    while i < na && i < nb
        invariant
            i <= na,
            i <= nb,
            na == a@.len(),
            nb == b@.len(),
            lex_cmp(a@, b@) == lex_cmp(a@.skip(i as int), b@.skip(i as int)),
        decreases na - i,
    {
        let ca = a.get_char(i) as u32;
        let cb = b.get_char(i) as u32;
        proof {
            assert(a@.skip(i as int)[0] == a@[i as int]);
            assert(b@.skip(i as int)[0] == b@[i as int]);
        }
        if ca < cb {
            return Ordering::Less;
        }
        if ca > cb {
            return Ordering::Greater;
        }
        proof {
            assert(a@.skip(i as int).drop_first() =~= a@.skip(i as int + 1));
            assert(b@.skip(i as int).drop_first() =~= b@.skip(i as int + 1));
        }
        i = i + 1;
    }
    proof {
        if na <= nb {
            assert(a@.skip(na as int).len() == 0);
        }
        if nb <= na {
            assert(b@.skip(nb as int).len() == 0);
        }
    }
    if na < nb {
        Ordering::Less
    } else if na > nb {
        Ordering::Greater
    } else {
        Ordering::Equal
    }
}

/// The size of an entry as sorting sees it: for a directory the memoized
/// recursive aggregate, otherwise the metadata length; nothing when the
/// metadata was unreadable.
pub fn dir_entry_size(t: &FsNode, cache: &mut SizeCache) -> (r: Option<u64>)
    requires
        old(cache).ok(),
        in_tree(*t, old(cache).tree()),
        paths_unique(old(cache).tree()),
        old(cache).tree().subtree_bytes() <= u64::MAX,
        old(cache).tree().subtree_files() <= u64::MAX,
    ensures
        final(cache).ok(),
        final(cache).tree() == old(cache).tree(),
        match r {
            Some(v) => size_key(*t) == Some(v as int),
            None => size_key(*t) is None,
        },
{
    if !t.meta_ok {
        return None;
    }
    if t.kind == EntryKind::Directory {
        match crate::size::size_of(t, cache) {
            Ok(v) => Some(v.0),
            Err(_) => None,
        }
    } else {
        Some(t.len)
    }
}

fn cmp_desc_u64(a: Option<u64>, b: Option<u64>) -> (r: Ordering)
    ensures
        r == cmp_desc(
            match a {
                Some(x) => Some(x as int),
                None => None,
            },
            match b {
                Some(y) => Some(y as int),
                None => None,
            },
        ),
{
    match (a, b) {
        (None, None) => Ordering::Equal,
        (None, Some(_)) => Ordering::Greater,
        (Some(_), None) => Ordering::Less,
        (Some(x), Some(y)) => if x > y {
            Ordering::Less
        } else if x < y {
            Ordering::Greater
        } else {
            Ordering::Equal
        },
    }
}

fn cmp_desc_i64(a: Option<i64>, b: Option<i64>) -> (r: Ordering)
    ensures
        r == cmp_desc(
            match a {
                Some(x) => Some(x as int),
                None => None,
            },
            match b {
                Some(y) => Some(y as int),
                None => None,
            },
        ),
{
    match (a, b) {
        (None, None) => Ordering::Equal,
        (None, Some(_)) => Ordering::Greater,
        (Some(_), None) => Ordering::Less,
        (Some(x), Some(y)) => if x > y {
            Ordering::Less
        } else if x < y {
            Ordering::Greater
        } else {
            Ordering::Equal
        },
    }
}

/// Compares two sibling entries under the secondary key of a sort mode:
/// name ascending, or size/timestamp descending. Metadata that is missing
/// never fails the comparison; the affected entry orders toward the end.
pub fn sort_entries(sort_type: SortType, a: &FsNode, b: &FsNode, cache: &mut SizeCache) -> (r:
    Ordering)
    requires
        old(cache).ok(),
        in_tree(*a, old(cache).tree()),
        in_tree(*b, old(cache).tree()),
        paths_unique(old(cache).tree()),
        old(cache).tree().subtree_bytes() <= u64::MAX,
        old(cache).tree().subtree_files() <= u64::MAX,
    ensures
        final(cache).ok(),
        final(cache).tree() == old(cache).tree(),
        r == secondary_cmp(sort_type, *a, *b),
{
    match sort_type {
        SortType::Name => str_lex_cmp(a.name.as_str(), b.name.as_str()),
        SortType::Size => {
            let ka = dir_entry_size(a, cache);
            let kb = dir_entry_size(b, cache);
            cmp_desc_u64(ka, kb)
        },
        SortType::ModifiedDate => {
            let ka = if a.meta_ok {
                a.modified
            } else {
                None
            };
            let kb = if b.meta_ok {
                b.modified
            } else {
                None
            };
            cmp_desc_i64(ka, kb)
        },
        SortType::CreatedDate => {
            let ka = if a.meta_ok {
                a.created
            } else {
                None
            };
            let kb = if b.meta_ok {
                b.created
            } else {
                None
            };
            cmp_desc_i64(ka, kb)
        },
    }
}

/// The complete sibling comparison used by the tree walk: directories
/// first, then the secondary key, inverted when a reversed sort was
/// requested.
pub fn compare_entries(
    sort_type: SortType,
    reverse_sort: bool,
    a: &FsNode,
    b: &FsNode,
    cache: &mut SizeCache,
) -> (r: Ordering)
    requires
        old(cache).ok(),
        in_tree(*a, old(cache).tree()),
        in_tree(*b, old(cache).tree()),
        paths_unique(old(cache).tree()),
        old(cache).tree().subtree_bytes() <= u64::MAX,
        old(cache).tree().subtree_files() <= u64::MAX,
    ensures
        final(cache).ok(),
        final(cache).tree() == old(cache).tree(),
        r == entry_cmp(sort_type, reverse_sort, *a, *b),
{
    let da = a.kind == EntryKind::Directory;
    let db = b.kind == EntryKind::Directory;
    if da && !db {
        Ordering::Less
    } else if !da && db {
        Ordering::Greater
    } else {
        let s = sort_entries(sort_type, a, b, cache);
        if reverse_sort {
            match s {
                Ordering::Less => Ordering::Greater,
                Ordering::Equal => Ordering::Equal,
                Ordering::Greater => Ordering::Less,
            }
        } else {
            s
        }
    }
}

/// Two character sequences that compare equal are the same sequence.
pub proof fn lemma_lex_cmp_eq(a: Seq<char>, b: Seq<char>)
    requires
        lex_cmp(a, b) == Ordering::Equal,
    ensures
        a == b,
    decreases a.len(),
{
    if a.len() == 0 && b.len() == 0 {
        assert(a =~= b);
    } else {
        lemma_lex_cmp_eq(a.drop_first(), b.drop_first());
        assert(a =~= seq![a[0]] + a.drop_first());
        assert(b =~= seq![b[0]] + b.drop_first());
        assert(a[0] == b[0]) by {
            vstd::utf8::char_u32_cast(a[0], a[0] as u32);
            vstd::utf8::char_u32_cast(b[0], b[0] as u32);
        }
    }
}

/// Sorting by name is a strict total order on siblings: two entries that
/// compare equal have the same directory flag and the very same name.
pub proof fn lemma_name_order_strict(rev: bool, a: FsNode, b: FsNode)
    requires
        entry_cmp(SortType::Name, rev, a, b) == Ordering::Equal,
    ensures
        (a.kind == EntryKind::Directory) == (b.kind == EntryKind::Directory),
        a.name@ == b.name@,
{
    lemma_lex_cmp_eq(a.name@, b.name@);
}

/// The comparison is antisymmetric: swapping the operands reverses it.
pub proof fn lemma_lex_cmp_antisym(a: Seq<char>, b: Seq<char>)
    ensures
        lex_cmp(b, a) == reverse_ord(lex_cmp(a, b)),
    decreases a.len(),
{
    if a.len() > 0 && b.len() > 0 && (a[0] as u32) == (b[0] as u32) {
        lemma_lex_cmp_antisym(a.drop_first(), b.drop_first());
    }
}

/// So is the whole sibling ordering, for every mode and direction.
pub proof fn lemma_entry_cmp_antisym(mode: SortType, rev: bool, a: FsNode, b: FsNode)
    ensures
        entry_cmp(mode, rev, b, a) == reverse_ord(entry_cmp(mode, rev, a, b)),
{
    lemma_lex_cmp_antisym(a.name@, b.name@);
}

/// The comparison is transitive, and strictly so on its strict part.
pub proof fn lemma_lex_cmp_trans(a: Seq<char>, b: Seq<char>, c: Seq<char>)
    requires
        lex_cmp(a, b) != Ordering::Greater,
        lex_cmp(b, c) != Ordering::Greater,
    ensures
        lex_cmp(a, c) != Ordering::Greater,
        lex_cmp(a, b) == Ordering::Less || lex_cmp(b, c) == Ordering::Less ==> lex_cmp(a, c)
            == Ordering::Less,
    decreases a.len(),
{
    if a.len() == 0 {
    } else {
        // a is non-empty, so b and c are too, and the head codes ascend
        if (a[0] as u32) == (b[0] as u32) && (b[0] as u32) == (c[0] as u32) {
            lemma_lex_cmp_trans(a.drop_first(), b.drop_first(), c.drop_first());
        }
    }
}

/// Sorting by name is transitive over the whole two-tier ordering, in both
/// directions.
pub proof fn lemma_name_order_trans(rev: bool, a: FsNode, b: FsNode, c: FsNode)
    requires
        entry_le(SortType::Name, rev, a, b),
        entry_le(SortType::Name, rev, b, c),
    ensures
        entry_le(SortType::Name, rev, a, c),
{
    let da = a.kind == EntryKind::Directory;
    let db = b.kind == EntryKind::Directory;
    let dc = c.kind == EntryKind::Directory;
    if da == db && db == dc {
        if rev {
            lemma_lex_cmp_antisym(a.name@, b.name@);
            lemma_lex_cmp_antisym(b.name@, c.name@);
            lemma_lex_cmp_antisym(a.name@, c.name@);
            lemma_lex_cmp_trans(c.name@, b.name@, a.name@);
        } else {
            lemma_lex_cmp_trans(a.name@, b.name@, c.name@);
        }
    }
}

} // verus!
