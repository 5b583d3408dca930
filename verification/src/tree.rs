//! The tree view: a depth-bounded, sorted, filtered walk of the snapshot,
//! rendered as indented lines.
//!
//! The walk is pre-order: each entry is emitted before its children, which
//! are enumerated only while the depth bound has not been reached. The
//! branch glyph of an entry is chosen by one-entry lookahead, exactly as a
//! streaming renderer would: an entry takes the terminal glyph precisely
//! when the next emitted entry is shallower than it, or there is no next
//! entry at all. The root line is the root's path, unindented, never
//! filtered and never depth-limited.
//!
//! Size and timestamp annotations are attached only to regular files and
//! to directories exactly at the depth bound (whose children are collapsed
//! instead of shown) — for those directories the size is the full recursive
//! aggregate, via the memoizing cache. Symlinks and other entries are
//! listed but never annotated.

use core::cmp::Ordering;
use vstd::prelude::*;
use vstd::string::StringExecFns;

use crate::entry::{EntryKind, FsNode, in_tree, paths_unique};
use crate::format::{pretty_size, size_in_bytes_pretty_string};
use crate::options::{SortType, TreeArgs};
use crate::size::{SizeCache, lemma_child_in_tree, lemma_sizes_mono, lemma_sizes_nonneg, size_of};
use crate::sort::{nodes_at, ordered_children, sorted_visible_indices};

verus! {

/// The walk below one sibling group: each sibling at depth `d`, followed by
/// the walk of its own ordered children while `d` is below the bound.
pub open spec fn walk_list(
    cs: Seq<FsNode>,
    mode: SortType,
    rev: bool,
    no_hidden: bool,
    max: int,
    d: int,
) -> Seq<(int, FsNode)>
    decreases max - d, cs.len(),
{
    if cs.len() == 0 || d > max {
        Seq::<(int, FsNode)>::empty()
    } else {
        seq![(d, cs[0])] + (if d < max {
            walk_list(ordered_children(cs[0], mode, rev, no_hidden), mode, rev, no_hidden, max, d + 1)
        } else {
            Seq::<(int, FsNode)>::empty()
        }) + walk_list(cs.drop_first(), mode, rev, no_hidden, max, d)
    }
}

/// All entries a tree view walks below the root, in emission order, paired
/// with their depth (direct children of the root are at depth 1).
pub open spec fn spec_walk(t: FsNode, opts: TreeArgs) -> Seq<(int, FsNode)> {
    walk_list(
        ordered_children(t, opts.sort_type, opts.reverse_sort, opts.no_hidden),
        opts.sort_type,
        opts.reverse_sort,
        opts.no_hidden,
        opts.depth as int,
        1,
    )
}

/// The size a displayed entry is annotated with: the recursive aggregate
/// for a directory, the metadata length otherwise.
pub open spec fn display_size(n: FsNode) -> u64 {
    if n.kind == EntryKind::Directory {
        n.subtree_bytes() as u64
    } else {
        n.len
    }
}

/// Whether an entry at depth `d` carries annotations: regular files always
/// do, directories only when they sit exactly at the depth bound (their
/// children collapsed instead of shown). Symlinks and other entries are
/// never annotated.
pub open spec fn annotated(n: FsNode, d: int, max: int) -> bool {
    n.kind == EntryKind::File || (n.kind == EntryKind::Directory && d == max)
}

/// The size suffix of a line, when requested and applicable; an entry whose
/// metadata was unreadable gets the fallback marker.
pub open spec fn size_annot(n: FsNode, d: int, max: int, show_size: bool) -> Seq<char> {
    if show_size && annotated(n, d, max) {
        " - "@ + (if n.meta_ok {
            pretty_size(display_size(n))
        } else {
            "???"@
        })
    } else {
        Seq::<char>::empty()
    }
}

/// The timestamp suffix of a line: only under a date sort mode, only for
/// annotated entries with readable metadata; a missing or unrendered
/// timestamp gets the fallback marker.
pub open spec fn time_annot(n: FsNode, d: int, max: int, mode: SortType) -> Seq<char> {
    if annotated(n, d, max) && (mode == SortType::ModifiedDate || mode == SortType::CreatedDate)
        && n.meta_ok {
        match n.time_display {
            Some(s) => " ("@ + s@ + ")"@,
            None => " (???)"@,
        }
    } else {
        Seq::<char>::empty()
    }
}

/// Everything of a line after the branch glyph: the spacer (an exclamation
/// mark flags unreadable metadata), a slash for directories, the entry
/// name, and the annotations.
pub open spec fn tail_of(n: FsNode, d: int, max: int, show_size: bool, mode: SortType) -> Seq<
    char,
> {
    (if n.meta_ok {
        " "@
    } else {
        "!"@
    }) + (if n.kind == EntryKind::Directory {
        "/"@
    } else {
        Seq::<char>::empty()
    }) + n.name@ + size_annot(n, d, max, show_size) + time_annot(n, d, max, mode)
}

/// The depth-and-tail of every walked entry.
pub open spec fn spec_tails(w: Seq<(int, FsNode)>, max: int, show_size: bool, mode: SortType) -> Seq<
    (int, Seq<char>),
> {
    w.map_values(|p: (int, FsNode)| (p.0, tail_of(p.1, p.0, max, show_size, mode)))
}

/// The indentation unit, repeated once per ancestor level.
pub open spec fn repeat_seq(u: Seq<char>, k: int) -> Seq<char>
    decreases k,
{
    if k <= 0 {
        Seq::<char>::empty()
    } else {
        repeat_seq(u, k - 1) + u
    }
}

/// One rendered line: indentation, branch glyph (terminal for a last
/// sibling), and the tail.
pub open spec fn line_of(d: int, tail: Seq<char>, last: bool) -> Seq<char> {
    repeat_seq("│   "@, d - 1) + (if last {
        "└───"@
    } else {
        "├───"@
    }) + tail
}

/// The rendered lines of the walked entries. An entry takes the terminal
/// glyph exactly when the next entry is shallower or absent — the one-step
/// lookahead rule.
pub open spec fn render_tails(ts: Seq<(int, Seq<char>)>) -> Seq<Seq<char>> {
    Seq::new(ts.len(), |i: int| line_of(ts[i].0, ts[i].1, i == ts.len() - 1 || ts[i + 1].0 < ts[i].0))
}

/// Every line of the tree view: the root's path first, then the walk.
pub open spec fn spec_render_lines(t: FsNode, opts: TreeArgs) -> Seq<Seq<char>> {
    seq![t.path@] + render_tails(
        spec_tails(spec_walk(t, opts), opts.depth as int, opts.show_size, opts.sort_type),
    )
}

/// The lines joined by a newline separator.
pub open spec fn joined(ls: Seq<Seq<char>>) -> Seq<char>
    decreases ls.len(),
{
    if ls.len() == 0 {
        Seq::<char>::empty()
    } else if ls.len() == 1 {
        ls[0]
    } else {
        joined(ls.drop_last()) + "\n"@ + ls.last()
    }
}

/// The whole tree view of a snapshot, as one block of text.
pub open spec fn spec_rendered(t: FsNode, opts: TreeArgs) -> Seq<char> {
    joined(spec_render_lines(t, opts))
}

/// The walk of a sibling group splits around any boundary.
proof fn lemma_walk_concat(
    a: Seq<FsNode>,
    b: Seq<FsNode>,
    mode: SortType,
    rev: bool,
    no_hidden: bool,
    max: int,
    d: int,
)
    requires
        d <= max,
    ensures
        walk_list(a + b, mode, rev, no_hidden, max, d) == walk_list(a, mode, rev, no_hidden, max, d)
            + walk_list(b, mode, rev, no_hidden, max, d),
    decreases a.len(),
{
    if a.len() == 0 {
        assert(a + b =~= b);
        assert(walk_list(a, mode, rev, no_hidden, max, d) =~= Seq::<(int, FsNode)>::empty());
    } else {
        lemma_walk_concat(a.drop_first(), b, mode, rev, no_hidden, max, d);
        assert((a + b)[0] == a[0]);
        assert((a + b).drop_first() =~= a.drop_first() + b);
        let deeper = if d < max {
            walk_list(ordered_children(a[0], mode, rev, no_hidden), mode, rev, no_hidden, max, d + 1)
        } else {
            Seq::<(int, FsNode)>::empty()
        };
        assert(seq![(d, a[0])] + deeper + (walk_list(a.drop_first(), mode, rev, no_hidden, max, d)
            + walk_list(b, mode, rev, no_hidden, max, d)) =~= (seq![(d, a[0])] + deeper
            + walk_list(a.drop_first(), mode, rev, no_hidden, max, d)) + walk_list(
            b,
            mode,
            rev,
            no_hidden,
            max,
            d,
        ));
    }
}

/// The ghost content of the emitted items: depth and tail text.
pub open spec fn items_view(s: Seq<(usize, String)>) -> Seq<(int, Seq<char>)> {
    s.map_values(|p: (usize, String)| (p.0 as int, p.1@))
}

/// Emits the walk below one node: its ordered visible children, each
/// followed by its own subtree while the depth bound allows.
fn emit_children(
    t: &FsNode,
    mode: SortType,
    rev: bool,
    no_hidden: bool,
    show_size: bool,
    max: usize,
    d: usize,
    cache: &mut SizeCache,
    out: &mut Vec<(usize, String)>,
)
    requires
        old(cache).ok(),
        in_tree(*t, old(cache).tree()),
        paths_unique(old(cache).tree()),
        old(cache).tree().subtree_bytes() <= u64::MAX,
        old(cache).tree().subtree_files() <= u64::MAX,
        1 <= d <= max,
    ensures
        final(cache).ok(),
        final(cache).tree() == old(cache).tree(),
        items_view(final(out)@) == items_view(old(out)@) + spec_tails(
            walk_list(
                ordered_children(*t, mode, rev, no_hidden),
                mode,
                rev,
                no_hidden,
                max as int,
                d as int,
            ),
            max as int,
            show_size,
            mode,
        ),
    decreases max - d,
{
    let ghost root = old(cache).tree();
    let ghost oc = ordered_children(*t, mode, rev, no_hidden);
    let idxs = sorted_visible_indices(t, mode, rev, no_hidden, cache);
    let m = idxs.len();
    proof {
        assert(oc.take(0) =~= Seq::<FsNode>::empty());
        assert(items_view(out@) + spec_tails(
            walk_list(oc.take(0), mode, rev, no_hidden, max as int, d as int),
            max as int,
            show_size,
            mode,
        ) =~= items_view(out@));
    }
    let ghost out0 = out@;
    let mut j: usize = 0;
    while j < m
        invariant
            j <= m,
            m == idxs@.len(),
            cache.ok(),
            root == old(cache).tree(),
            cache.tree() == root,
            in_tree(*t, root),
            paths_unique(root),
            root.subtree_bytes() <= u64::MAX,
            root.subtree_files() <= u64::MAX,
            1 <= d <= max,
            forall|k: int| 0 <= k < idxs@.len() ==> (#[trigger] idxs@[k]) < t.children@.len(),
            nodes_at(t.children@, idxs@) == oc,
            oc == ordered_children(*t, mode, rev, no_hidden),
            items_view(out@) == items_view(out0) + spec_tails(
                walk_list(oc.take(j as int), mode, rev, no_hidden, max as int, d as int),
                max as int,
                show_size,
                mode,
            ),
        decreases m - j,
    {
        let ghost out_before = out@;
        proof {
            lemma_child_in_tree(*t, idxs@[j as int] as int, root);
            assert(oc[j as int] == t.children@[idxs@[j as int] as int]);
        }
        let c = &t.children[idxs[j]];
        let tail = make_tail(c, d, max, show_size, mode, cache);
        out.push((d, tail));
        let ghost out_mid = out@;
        proof {
            assert(items_view(out_mid) =~= items_view(out_before) + seq![
                (d as int, tail_of(oc[j as int], d as int, max as int, show_size, mode)),
            ]);
        }
        if d < max {
            emit_children(c, mode, rev, no_hidden, show_size, max, d + 1, cache, out);
        }
        proof {
            let deeper = if (d as int) < max as int {
                walk_list(
                    ordered_children(oc[j as int], mode, rev, no_hidden),
                    mode,
                    rev,
                    no_hidden,
                    max as int,
                    d as int + 1,
                )
            } else {
                Seq::<(int, FsNode)>::empty()
            };
            if (d as int) < max as int {
                assert(items_view(out@) == items_view(out_mid) + spec_tails(
                    deeper,
                    max as int,
                    show_size,
                    mode,
                ));
            } else {
                assert(out@ == out_mid);
                assert(spec_tails(deeper, max as int, show_size, mode) =~= Seq::<(
                    int,
                    Seq<char>,
                )>::empty());
                assert(items_view(out@) =~= items_view(out_mid) + spec_tails(
                    deeper,
                    max as int,
                    show_size,
                    mode,
                ));
            }
            // the walk of the first j+1 children is the walk of the first j,
            // then this child and its subtree
            assert(oc.take(j as int + 1) =~= oc.take(j as int) + seq![oc[j as int]]);
            lemma_walk_concat(
                oc.take(j as int),
                seq![oc[j as int]],
                mode,
                rev,
                no_hidden,
                max as int,
                d as int,
            );
            assert(seq![oc[j as int]].drop_first() =~= Seq::<FsNode>::empty());
            assert(seq![oc[j as int]][0] == oc[j as int]);
            assert(walk_list(Seq::<FsNode>::empty(), mode, rev, no_hidden, max as int, d as int)
                =~= Seq::<(int, FsNode)>::empty());
            assert(walk_list(seq![oc[j as int]], mode, rev, no_hidden, max as int, d as int)
                =~= seq![(d as int, oc[j as int])] + deeper);
            let w_j = walk_list(oc.take(j as int), mode, rev, no_hidden, max as int, d as int);
            let w_j1 = walk_list(
                oc.take(j as int + 1),
                mode,
                rev,
                no_hidden,
                max as int,
                d as int,
            );
            assert(w_j1 =~= w_j + (seq![(d as int, oc[j as int])] + deeper));
            assert(spec_tails(w_j1, max as int, show_size, mode) =~= spec_tails(
                w_j,
                max as int,
                show_size,
                mode,
            ) + seq![(d as int, tail_of(oc[j as int], d as int, max as int, show_size, mode))]
                + spec_tails(deeper, max as int, show_size, mode));
            assert(items_view(out@) =~= items_view(out0) + spec_tails(
                w_j1,
                max as int,
                show_size,
                mode,
            ));
        }
        j = j + 1;
    }
    proof {
        assert(oc.take(m as int) =~= oc);
    }
}

/// Builds the tail of one entry's line, computing the size annotation
/// through the memoizing cache where one is due.
fn make_tail(
    n: &FsNode,
    d: usize,
    max: usize,
    show_size: bool,
    mode: SortType,
    cache: &mut SizeCache,
) -> (r: String)
    requires
        old(cache).ok(),
        in_tree(*n, old(cache).tree()),
        paths_unique(old(cache).tree()),
        old(cache).tree().subtree_bytes() <= u64::MAX,
        old(cache).tree().subtree_files() <= u64::MAX,
    ensures
        final(cache).ok(),
        final(cache).tree() == old(cache).tree(),
        r@ == tail_of(*n, d as int, max as int, show_size, mode),
{
    let mut s = String::new();
    if n.meta_ok {
        s.append(" ");
    } else {
        s.append("!");
    }
    let is_dir = n.kind == EntryKind::Directory;
    if is_dir {
        s.append("/");
    }
    s.append(n.name.as_str());
    let annot = n.kind == EntryKind::File || (is_dir && d == max);
    if show_size && annot {
        s.append(" - ");
        if n.meta_ok {
            let v: u64 = if is_dir {
                proof {
                    lemma_sizes_mono(*n, cache.tree());
                    lemma_sizes_nonneg(*n);
                }
                match size_of(n, cache) {
                    Ok(p) => p.0,
                    Err(_) => {
                        proof {
                            assert(false);
                        }
                        0
                    },
                }
            } else {
                n.len
            };
            let pretty = size_in_bytes_pretty_string(v);
            s.append(pretty.as_str());
        } else {
            s.append("???");
        }
    }
    let date_mode = mode == SortType::ModifiedDate || mode == SortType::CreatedDate;
    if annot && date_mode && n.meta_ok {
        match &n.time_display {
            Some(ts) => {
                s.append(" (");
                s.append(ts.as_str());
                s.append(")");
            },
            None => {
                s.append(" (???)");
            },
        }
    }
    s
}

/// Renders each emitted item into its line: indentation from its depth, the
/// glyph from one-step lookahead, then the tail.
fn render_items(items: &Vec<(usize, String)>) -> (r: Vec<String>)
    ensures
        r@.map_values(|s: String| s@) == render_tails(items_view(items@)),
{
    let ghost ts = items_view(items@);
    let n = items.len();
    let mut r: Vec<String> = Vec::new();
    let mut i: usize = 0;
    while i < n
        invariant
            i <= n,
            n == items@.len(),
            ts == items_view(items@),
            r@.len() == i,
            forall|k: int| 0 <= k < i ==> (#[trigger] r@[k])@ == render_tails(ts)[k],
        decreases n - i,
    {
        let d = items[i].0;
        let mut line = String::new();
        let mut k: usize = 1;
        while k < d
            invariant
                1 <= k,
                k <= d || k == 1,
                line@ == repeat_seq("│   "@, k - 1),
            decreases d - k,
        {
            line.append("│   ");
            k = k + 1;
        }
        proof {
            if d == 0 {
                assert(line@ =~= repeat_seq("│   "@, d - 1));
            }
        }
        let last = i + 1 == n || items[i + 1].0 < items[i].0;
        if last {
            line.append("└───");
        } else {
            line.append("├───");
        }
        line.append(items[i].1.as_str());
        proof {
            assert(ts[i as int].0 == items@[i as int].0 as int);
            assert(ts[i as int].1 == items@[i as int].1@);
            assert(line@ == line_of(ts[i as int].0, ts[i as int].1, last));
        }
        r.push(line);
        i = i + 1;
    }
    proof {
        assert(r@.map_values(|s: String| s@) =~= render_tails(ts));
    }
    r
}

/// Generates the tree view of the snapshot rooted at `t`, up to the depth
/// in `args`, as one newline-joined block of text. The first line is the
/// root's path; every walked entry follows in pre-order, its siblings
/// filtered and ordered as requested. Sizes of collapsed directories come
/// from the memoizing cache.
pub fn generate_tree_string(t: &FsNode, args: TreeArgs, cache: &mut SizeCache) -> (r: String)
    requires
        old(cache).ok(),
        in_tree(*t, old(cache).tree()),
        paths_unique(old(cache).tree()),
        old(cache).tree().subtree_bytes() <= u64::MAX,
        old(cache).tree().subtree_files() <= u64::MAX,
        args.depth >= 1,
    ensures
        final(cache).ok(),
        final(cache).tree() == old(cache).tree(),
        r@ == spec_rendered(*t, args),
{
    let mut items: Vec<(usize, String)> = Vec::new();
    proof {
        assert(items_view(items@) =~= Seq::<(int, Seq<char>)>::empty());
    }
    emit_children(
        t,
        args.sort_type,
        args.reverse_sort,
        args.no_hidden,
        args.show_size,
        args.depth,
        1,
        cache,
        &mut items,
    );
    proof {
        assert(items_view(items@) =~= spec_tails(
            spec_walk(*t, args),
            args.depth as int,
            args.show_size,
            args.sort_type,
        ));
    }
    let lines = render_items(&items);
    let ghost all = spec_render_lines(*t, args);
    let mut s = t.path.clone();
    proof {
        assert(all.take(1) =~= seq![t.path@]);
        assert(joined(all.take(1)) == t.path@);
    }
    let n = lines.len();
    let mut i: usize = 0;
    while i < n
        invariant
            i <= n,
            n == lines@.len(),
            all == spec_render_lines(*t, args),
            all.len() == n + 1,
            forall|k: int| 0 <= k < n ==> (#[trigger] lines@[k])@ == all[k + 1],
            s@ == joined(all.take(i as int + 1)),
        decreases n - i,
    {
        s.append("\n");
        s.append(lines[i].as_str());
        proof {
            assert(all.take(i as int + 2).drop_last() =~= all.take(i as int + 1));
            assert(all.take(i as int + 2).last() == all[i as int + 1]);
        }
        i = i + 1;
    }
    proof {
        assert(all.take(n as int + 1) =~= all);
    }
    s
}

/// The timestamp a sort mode displays.
pub open spec fn time_field(t: FsNode, mode: SortType) -> Option<i64> {
    match mode {
        SortType::ModifiedDate => t.modified,
        SortType::CreatedDate => t.created,
        _ => None,
    }
}

/// `b` is `a` with possibly different rendered timestamps: every other
/// field agrees, recursively.
pub open spec fn same_but_time(a: FsNode, b: FsNode) -> bool
    decreases a,
{
    &&& a.path@ == b.path@
    &&& a.name@ == b.name@
    &&& a.kind == b.kind
    &&& a.hidden == b.hidden
    &&& a.meta_ok == b.meta_ok
    &&& a.len == b.len
    &&& a.modified == b.modified
    &&& a.created == b.created
    &&& a.children@.len() == b.children@.len()
    &&& forall|i: int|
        0 <= i < a.children@.len() ==> same_but_time(
            #[trigger] a.children@[i],
            b.children@[i],
        )
}

/// Every node carries a rendered timestamp exactly when its metadata was
/// readable and the mode's timestamp is present.
pub open spec fn times_resolved(t: FsNode, mode: SortType) -> bool
    decreases t,
{
    &&& ((t.time_display is Some) <==> (t.meta_ok && time_field(t, mode) is Some))
    &&& forall|i: int| 0 <= i < t.children@.len() ==> times_resolved(#[trigger] t.children@[i], mode)
}

/// Relies on chrono: `DateTime::from_timestamp` (UTC from unix seconds;
/// `None` exactly on an out-of-range count), `DateTime::with_timezone` with
/// `Local`, and `DateTime::format` with "%Y-%m-%d %H:%M:%S". The text
/// depends on the machine's time zone, so nothing is stated about it.
#[verifier::external_body]
fn local_time_display(secs: i64) -> (r: Option<String>) {
    match chrono::DateTime::from_timestamp(secs, 0) {
        Some(utc) => Some(
            utc.with_timezone(&chrono::Local).format("%Y-%m-%d %H:%M:%S").to_string(),
        ),
        None => None,
    }
}

/// The whole seconds of a timestamp in nanoseconds since the epoch, rounded
/// toward the past.
fn floor_secs(nanos: i64) -> (r: i64)
    ensures
        r == nanos as int / 1_000_000_000,
{
    if nanos >= 0 {
        ((nanos as u64) / 1_000_000_000) as i64
    } else {
        // the magnitude, computed without overflowing at the lower bound
        let m: u64 = ((-(nanos + 1)) as u64) + 1;
        let q: u64 = (m + 999_999_999) / 1_000_000_000;
        proof {
            lemma_neg_div_is_neg_ceil(nanos as int, m as int, 1_000_000_000);
        }
        -(q as i64)
    }
}

/// Floor division of a negative value is the negated ceiling division of
/// its magnitude.
proof fn lemma_neg_div_is_neg_ceil(n: int, m: int, g: int)
    requires
        n < 0,
        m == -n,
        g >= 2,
    ensures
        n / g == -((m + g - 1) / g),
{
    let a = m / g;
    let b = m % g;
    vstd::arithmetic::div_mod::lemma_fundamental_div_mod(m, g);
    vstd::arithmetic::div_mod::lemma_mod_bound(m, g);
    if b == 0 {
        assert(m + g - 1 == a * g + (g - 1) && n == (-a) * g + 0) by (nonlinear_arith)
            requires
                m == g * a + b,
                b == 0,
                n == -m,
        ;
        assert((m + g - 1) / g == a) by {
            vstd::arithmetic::div_mod::lemma_fundamental_div_mod_converse(
                m + g - 1,
                g,
                a,
                g - 1,
            );
        }
        assert(n / g == -a) by {
            vstd::arithmetic::div_mod::lemma_fundamental_div_mod_converse(n, g, -a, 0);
        }
    } else {
        assert(m + g - 1 == (a + 1) * g + (b - 1) && n == (-a - 1) * g + (g - b)) by (
        nonlinear_arith)
            requires
                m == g * a + b,
                n == -m,
        ;
        assert((m + g - 1) / g == a + 1) by {
            vstd::arithmetic::div_mod::lemma_fundamental_div_mod_converse(
                m + g - 1,
                g,
                a + 1,
                b - 1,
            );
        }
        assert(n / g == -a - 1) by {
            vstd::arithmetic::div_mod::lemma_fundamental_div_mod_converse(n, g, -a - 1, g - b);
        }
    }
}

/// Fills in the rendered timestamp of every node for the given sort mode,
/// leaving everything else of the snapshot as it was. A timestamp the
/// calendar library cannot express falls back to the unreadable marker.
pub fn resolve_time_displays(t: FsNode, mode: SortType) -> (r: FsNode)
    ensures
        same_but_time(t, r),
        times_resolved(r, mode),
    decreases t,
{
    let ghost orig = t;
    let FsNode { path, name, kind, hidden, meta_ok, len, modified, created, time_display: _, children } =
        t;
    let field: Option<i64> = if meta_ok {
        match mode {
            SortType::ModifiedDate => modified,
            SortType::CreatedDate => created,
            _ => None,
        }
    } else {
        None
    };
    let td: Option<String> = match field {
        Some(nanos) => match local_time_display(floor_secs(nanos)) {
            Some(s) => Some(s),
            None => Some("???".to_owned()),
        },
        None => None,
    };
    let mut rest = children;
    let mut new_children: Vec<FsNode> = Vec::new();
    let ghost cs0 = orig.children@;
    proof {
        assert(rest@ =~= cs0.skip(0));
    }
    #[verifier::loop_isolation(false)]
    while rest.len() > 0
        invariant
            new_children@.len() + rest@.len() == cs0.len(),
            rest@ == cs0.skip(new_children@.len() as int),
            forall|i: int|
                0 <= i < new_children@.len() ==> same_but_time(
                    cs0[i],
                    #[trigger] new_children@[i],
                ) && times_resolved(new_children@[i], mode),
            cs0 == orig.children@,
        decreases rest@.len(),
    {
        let ghost k = new_children@.len();
        let c = rest.remove(0);
        proof {
            assert(c == cs0[k as int]);
            assert(rest@ =~= cs0.skip(k as int + 1));
            assert(decreases_to!(orig => orig.children));
            assert(decreases_to!(orig.children => c));
        }
        let rc = resolve_time_displays(c, mode);
        new_children.push(rc);
    }
    proof {
        assert(new_children@.len() == cs0.len());
    }
    FsNode {
        path,
        name,
        kind,
        hidden,
        meta_ok,
        len,
        modified,
        created,
        time_display: td,
        children: new_children,
    }
}

/// With a depth bound of 1, a sibling group's walk is exactly the group
/// itself, each entry at that depth: no deeper descendant appears.
proof fn lemma_walk_flat(cs: Seq<FsNode>, mode: SortType, rev: bool, no_hidden: bool, d: int)
    requires
        d >= 1,
    ensures
        walk_list(cs, mode, rev, no_hidden, d, d) == Seq::new(cs.len(), |i: int| (d, cs[i])),
    decreases cs.len(),
{
    if cs.len() == 0 {
        assert(walk_list(cs, mode, rev, no_hidden, d, d) =~= Seq::new(cs.len(), |i: int| (d, cs[i])));
    } else {
        lemma_walk_flat(cs.drop_first(), mode, rev, no_hidden, d);
        assert(walk_list(cs, mode, rev, no_hidden, d, d) =~= Seq::new(
            cs.len(),
            |i: int| (d, cs[i]),
        ));
    }
}

/// Every walked entry sits between the sibling group's level and the depth
/// bound: the walk never descends past the bound.
pub proof fn lemma_walk_depth_bounds(
    cs: Seq<FsNode>,
    mode: SortType,
    rev: bool,
    no_hidden: bool,
    max: int,
    d: int,
)
    requires
        1 <= d <= max,
    ensures
        forall|i: int|
            0 <= i < walk_list(cs, mode, rev, no_hidden, max, d).len() ==> d <= (
            #[trigger] walk_list(cs, mode, rev, no_hidden, max, d)[i]).0 <= max,
    decreases max - d, cs.len(),
{
    if cs.len() > 0 {
        let deeper = if d < max {
            walk_list(ordered_children(cs[0], mode, rev, no_hidden), mode, rev, no_hidden, max, d + 1)
        } else {
            Seq::<(int, FsNode)>::empty()
        };
        if d < max {
            lemma_walk_depth_bounds(
                ordered_children(cs[0], mode, rev, no_hidden),
                mode,
                rev,
                no_hidden,
                max,
                d + 1,
            );
        }
        lemma_walk_depth_bounds(cs.drop_first(), mode, rev, no_hidden, max, d);
        let w = walk_list(cs, mode, rev, no_hidden, max, d);
        let rest = walk_list(cs.drop_first(), mode, rev, no_hidden, max, d);
        assert forall|i: int| 0 <= i < w.len() implies d <= (#[trigger] w[i]).0 <= max by {
            if i == 0 {
                assert(w[i] == (d, cs[0]));
            } else if i < 1 + deeper.len() {
                assert(w[i] == deeper[i - 1]);
            } else {
                assert(w[i] == rest[i - 1 - deeper.len()]);
            }
        }
    }
}

/// A render bounded at depth 1 shows exactly the root line plus one line
/// per immediate (visible, ordered) child, and nothing deeper.
pub proof fn lemma_depth_one_render(t: FsNode, opts: TreeArgs)
    requires
        opts.depth == 1,
    ensures
        spec_walk(t, opts) == Seq::new(
            ordered_children(t, opts.sort_type, opts.reverse_sort, opts.no_hidden).len(),
            |i: int| (1int, ordered_children(t, opts.sort_type, opts.reverse_sort, opts.no_hidden)[i]),
        ),
        spec_render_lines(t, opts).len() == 1 + ordered_children(
            t,
            opts.sort_type,
            opts.reverse_sort,
            opts.no_hidden,
        ).len(),
{
    lemma_walk_flat(
        ordered_children(t, opts.sort_type, opts.reverse_sort, opts.no_hidden),
        opts.sort_type,
        opts.reverse_sort,
        opts.no_hidden,
        1,
    );
}

} // verus!
