//! Where the Items of a Scan lie to each other: never one inside another.

use crate::model::ItemView;
use crate::order;
use crate::path;
use crate::ruleset::RuleView;
use crate::tree;
use crate::tree::Tree;
use crate::walk;
use vstd::prelude::*;

verus! {

/// Whether `path` is `dir` itself or something below it.
pub open spec fn at_or_below(path: Seq<u8>, dir: Seq<u8>) -> bool {
    path == dir || exists|rel: Seq<u8>|
        rel.len() > 0 && rel[0] != 47u8 && path == #[trigger] path::joined(dir, rel)
}

/// Whether `name` can be the name of an entry of a directory.
pub open spec fn is_name(name: Seq<u8>) -> bool {
    name.len() > 0 && !name.contains(47u8)
}

/// Whether `path` is that of an entry of the directory `dir`.
pub open spec fn is_entry_of(path: Seq<u8>, dir: Seq<u8>) -> bool {
    exists|name: Seq<u8>| is_name(name) && path == #[trigger] path::joined(dir, name)
}

/// Whether the paths in a tree nest as the tree does: each entry lies in the
/// directory that holds it, and no two entries of a directory share a path.
pub open spec fn paths_nest(t: Tree) -> bool
    decreases t,
{
    &&& forall|k: int|
        0 <= k < t.below.len() ==> paths_nest(#[trigger] t.below[k]) && is_entry_of(
            t.below[k].entry.path,
            t.entry.path,
        )
    &&& forall|j: int, k: int|
        0 <= j < k < t.below.len() ==> (#[trigger] t.below[j]).entry.path != (
        #[trigger] t.below[k]).entry.path
}

/// Whether no Item lies at or below another.
pub open spec fn apart(items: Seq<ItemView>) -> bool {
    forall|i: int, j: int|
        0 <= i < items.len() && 0 <= j < items.len() && i != j ==> !at_or_below(
            (#[trigger] items[i]).path,
            (#[trigger] items[j]).path,
        )
}

/// Whether the last component of a path names something.
spec fn ends_in_name(path: Seq<u8>) -> bool {
    path.len() > 0 && path.last() != 47u8
}

/// Whether `path` begins with all components of `dir`.
spec fn starts(path: Seq<u8>, dir: Seq<u8>) -> bool {
    &&& path.len() >= dir.len()
    &&& path.take(dir.len() as int) == dir
    &&& path.len() == dir.len() || path[dir.len() as int] == 47u8
}

proof fn lemma_below_starts(path: Seq<u8>, dir: Seq<u8>)
    requires
        ends_in_name(dir),
        at_or_below(path, dir),
    ensures
        starts(path, dir),
{
    if path == dir {
        assert(path.take(dir.len() as int) =~= dir);
    } else {
        let rel = choose|rel: Seq<u8>|
            rel.len() > 0 && rel[0] != 47u8 && path == #[trigger] path::joined(dir, rel);
        assert(path == dir.push(47u8) + rel);
        assert(path.take(dir.len() as int) =~= dir);
    }
}

proof fn lemma_starts_transitive(a: Seq<u8>, b: Seq<u8>, c: Seq<u8>)
    requires
        starts(a, b),
        starts(b, c),
    ensures
        starts(a, c),
{
    let n = c.len() as int;
    assert(a.take(n) =~= a.take(b.len() as int).take(n));
    if b.len() > n {
        assert(a.take(b.len() as int)[n] == a[n]);
    }
}

/// What is before the name of an entry of `dir`.
spec fn stem(dir: Seq<u8>) -> Seq<u8> {
    path::joined(dir, Seq::empty())
}

proof fn lemma_entry(path: Seq<u8>, dir: Seq<u8>) -> (name: Seq<u8>)
    requires
        is_entry_of(path, dir),
    ensures
        is_name(name),
        path == stem(dir) + name,
        ends_in_name(path),
        ends_in_name(dir) ==> starts(path, dir),
{
    let name = choose|name: Seq<u8>| is_name(name) && path == #[trigger] path::joined(dir, name);
    assert(name.contains(name[0]) && name.contains(name.last()));
    assert(path =~= stem(dir) + name);
    assert(path.last() == name.last());
    if ends_in_name(dir) {
        assert(path.take(dir.len() as int) =~= dir);
    }
    name
}

/// Nothing lies in two entries of one directory.
proof fn lemma_siblings_are_apart(path: Seq<u8>, a: Seq<u8>, b: Seq<u8>, dir: Seq<u8>)
    requires
        is_entry_of(a, dir),
        is_entry_of(b, dir),
        a != b,
        starts(path, a),
    ensures
        !starts(path, b),
{
    if starts(path, b) {
        let n = lemma_entry(a, dir);
        let m = lemma_entry(b, dir);
        if a.len() == b.len() {
            assert(a == b);
        } else if a.len() < b.len() {
            lemma_shorter_sibling(path, a, b, dir, m);
        } else {
            lemma_shorter_sibling(path, b, a, dir, n);
        }
    }
}

proof fn lemma_shorter_sibling(path: Seq<u8>, a: Seq<u8>, b: Seq<u8>, dir: Seq<u8>, name: Seq<u8>)
    requires
        is_entry_of(a, dir),
        is_name(name),
        b == stem(dir) + name,
        a.len() < b.len(),
        starts(path, a),
    ensures
        !starts(path, b),
{
    if starts(path, b) {
        let own = lemma_entry(a, dir);
        let at = a.len() as int;
        assert(path[at] == path.take(b.len() as int)[at]);
        assert(b[at] == name[at - stem(dir).len()]);
        assert(name.contains(47u8));
    }
}

/// Whether no Item begins with the components of another.
spec fn separate(items: Seq<ItemView>) -> bool {
    forall|i: int, j: int|
        0 <= i < items.len() && 0 <= j < items.len() && i != j ==> !starts(
            (#[trigger] items[i]).path,
            (#[trigger] items[j]).path,
        )
}

/// Whether no Item of one list begins with the components of one of the other.
spec fn foreign(a: Seq<ItemView>, b: Seq<ItemView>) -> bool {
    forall|i: int, j: int|
        0 <= i < a.len() && 0 <= j < b.len() ==> !starts(
            (#[trigger] a[i]).path,
            (#[trigger] b[j]).path,
        ) && !starts(b[j].path, a[i].path)
}

/// Two lists that are separate, and foreign to each other, stay separate when they
/// are interleaved.
proof fn lemma_merged(
    a: Seq<ItemView>,
    more_a: Seq<ItemView>,
    b: Seq<ItemView>,
    more_b: Seq<ItemView>,
)
    requires
        separate(a + b),
        separate(more_a + more_b),
        foreign(a + b, more_a + more_b),
    ensures
        separate((a + more_a) + (b + more_b)),
{
    let all = (a + more_a) + (b + more_b);
    let old_items = a + b;
    let new_items = more_a + more_b;
    let front = (a + more_a).len() as int;
    assert forall|i: int, j: int|
        0 <= i < all.len() && 0 <= j < all.len() && i != j implies !starts(
        (#[trigger] all[i]).path,
        (#[trigger] all[j]).path,
    ) by {
        let from = |k: int|
            if k < a.len() {
                k
            } else if k < front {
                k - a.len()
            } else if k - front < b.len() {
                a.len() + (k - front)
            } else {
                more_a.len() + (k - front - b.len())
            };
        let is_old = |k: int| k < a.len() || (front <= k && k - front < b.len());
        let x = from(i);
        let y = from(j);
        if is_old(i) {
            assert(all[i] == old_items[x]);
        } else {
            assert(all[i] == new_items[x]);
        }
        if is_old(j) {
            assert(all[j] == old_items[y]);
        } else {
            assert(all[j] == new_items[y]);
        }
    }
}

/// Whether trees are entries of one directory, with different paths, and nest.
spec fn are_entries(ts: Seq<Tree>, dir: Seq<u8>) -> bool {
    &&& forall|k: int|
        0 <= k < ts.len() ==> paths_nest(#[trigger] ts[k]) && is_entry_of(ts[k].entry.path, dir)
    &&& forall|j: int, k: int|
        0 <= j < k < ts.len() ==> (#[trigger] ts[j]).entry.path != (#[trigger] ts[k]).entry.path
}

/// Whether each Item lies in one of the trees.
spec fn lie_in(items: Seq<ItemView>, ts: Seq<Tree>) -> bool {
    forall|i: int|
        0 <= i < items.len() ==> ends_in_name((#[trigger] items[i]).path) && exists|k: int|
            0 <= k < ts.len() && starts(items[i].path, (#[trigger] ts[k]).entry.path)
}

proof fn lemma_tree_separate(t: Tree, rules: Seq<RuleView>, min: nat)
    requires
        paths_nest(t),
        ends_in_name(t.entry.path),
    ensures
        separate(tree::surfaced(t, rules, min)),
        lie_in(tree::surfaced(t, rules, min), seq![t]),
    decreases t,
{
    let items = tree::surfaced(t, rules, min);
    let alone = seq![t];
    if t.entry.rule is None && tree::any_match(t.below) {
        lemma_trees_separate(t.below, t.entry.path, rules, min);
        assert forall|i: int| 0 <= i < items.len() implies ends_in_name((#[trigger] items[i]).path)
            && exists|k: int|
            0 <= k < alone.len() && starts(items[i].path, (#[trigger] alone[k]).entry.path) by {
            let k = choose|k: int|
                0 <= k < t.below.len() && starts(
                    items[i].path,
                    (#[trigger] t.below[k]).entry.path,
                );
            let name = lemma_entry(t.below[k].entry.path, t.entry.path);
            lemma_starts_transitive(items[i].path, t.below[k].entry.path, t.entry.path);
            assert(alone[0] == t);
        }
    } else {
        assert(alone[0] == t);
        assert(t.entry.path.take(t.entry.path.len() as int) =~= t.entry.path);
    }
}

proof fn lemma_trees_separate(ts: Seq<Tree>, dir: Seq<u8>, rules: Seq<RuleView>, min: nat)
    requires
        are_entries(ts, dir),
    ensures
        separate(tree::surfaced_all(ts, rules, min) + tree::unknowns(ts, min)),
        lie_in(tree::surfaced_all(ts, rules, min) + tree::unknowns(ts, min), ts),
    decreases ts,
{
    if ts.len() > 0 {
        let front = ts.drop_last();
        let t = ts.last();
        assert(t == ts[ts.len() - 1]);
        assert(are_entries(front, dir)) by {
            assert forall|k: int| 0 <= k < front.len() implies front[k] == ts[k] by {}
        }
        lemma_trees_separate(front, dir, rules, min);
        let name = lemma_entry(t.entry.path, dir);
        lemma_tree_separate(t, rules, min);
        let a = tree::surfaced_all(front, rules, min);
        let b = tree::unknowns(front, min);
        let more_a = tree::surfaced(t, rules, min);
        let unknown = t.entry.is_dir && !tree::has_match(t) && tree::total(t) >= min;
        let more_b = if unknown {
            seq![tree::unknown_item(t.entry.path, tree::total(t))]
        } else {
            Seq::<ItemView>::empty()
        };
        assert(tree::unknowns(ts, min) =~= b + more_b);
        let own = more_a + more_b;
        assert(t.entry.path.take(t.entry.path.len() as int) =~= t.entry.path);
        if unknown {
            assert(more_a.len() == 0);
            assert(own =~= more_b);
        } else {
            assert(own =~= more_a);
        }
        assert forall|i: int| 0 <= i < own.len() implies ends_in_name((#[trigger] own[i]).path)
            && starts(own[i].path, t.entry.path) by {
            if !unknown {
                let alone = seq![t];
                let k = choose|k: int|
                    0 <= k < alone.len() && starts(own[i].path, (#[trigger] alone[k]).entry.path);
                assert(alone[k] == t);
            }
        }
        let before = a + b;
        assert forall|i: int, j: int| 0 <= i < before.len() && 0 <= j < own.len() implies !starts(
            (#[trigger] before[i]).path,
            (#[trigger] own[j]).path,
        ) && !starts(own[j].path, before[i].path) by {
            let k = choose|k: int|
                0 <= k < front.len() && starts(before[i].path, (#[trigger] front[k]).entry.path);
            let sibling = front[k].entry.path;
            assert(front[k] == ts[k]);
            if starts(before[i].path, own[j].path) {
                lemma_starts_transitive(before[i].path, own[j].path, t.entry.path);
                lemma_siblings_are_apart(before[i].path, sibling, t.entry.path, dir);
            }
            if starts(own[j].path, before[i].path) {
                lemma_starts_transitive(own[j].path, before[i].path, sibling);
                lemma_siblings_are_apart(own[j].path, sibling, t.entry.path, dir);
            }
        }
        lemma_merged(a, more_a, b, more_b);
        let all = (a + more_a) + (b + more_b);
        assert(all == tree::surfaced_all(ts, rules, min) + tree::unknowns(ts, min));
        assert forall|i: int| 0 <= i < all.len() implies ends_in_name((#[trigger] all[i]).path)
            && exists|k: int|
            0 <= k < ts.len() && starts(all[i].path, (#[trigger] ts[k]).entry.path) by {
            let back = i - (a + more_a).len();
            if i < a.len() || 0 <= back < b.len() {
                let x = if i < a.len() {
                    i
                } else {
                    a.len() + back
                };
                assert(all[i] == before[x]);
                let k = choose|k: int|
                    0 <= k < front.len() && starts(
                        before[x].path,
                        (#[trigger] front[k]).entry.path,
                    );
                assert(front[k] == ts[k]);
            } else {
                let x = if back < 0 {
                    i - a.len()
                } else {
                    more_a.len() + (back - b.len())
                };
                assert(all[i] == own[x]);
                assert(starts(all[i].path, ts[ts.len() - 1].entry.path));
            }
        }
    }
}

/// The Items of a Scan never overlap: no Item lies at or below another, and so no
/// two have the same path.
pub proof fn law_items_lie_apart(root: Tree, rules: Seq<RuleView>, min: nat)
    requires
        paths_nest(root),
    ensures
        apart(tree::found_items(root, rules, min)),
{
    let items = tree::found_items(root, rules, min);
    if !root.entry.is_dir && root.entry.rule is Some {
        assert(items.len() == 1);
    } else {
        lemma_trees_separate(root.below, root.entry.path, rules, min);
        assert forall|i: int, j: int|
            0 <= i < items.len() && 0 <= j < items.len() && i != j implies !at_or_below(
            (#[trigger] items[i]).path,
            (#[trigger] items[j]).path,
        ) by {
            if at_or_below(items[i].path, items[j].path) {
                lemma_below_starts(items[i].path, items[j].path);
            }
        }
    }
}

/// Putting the largest Items first does not bring them closer: those of a whole
/// Scan lie apart as well.
pub proof fn law_scanned_items_lie_apart(
    root: Tree,
    rules: Seq<RuleView>,
    min: nat,
    sorted: Seq<ItemView>,
)
    requires
        paths_nest(root),
        walk::largest_first(tree::found_items(root, rules, min), sorted),
    ensures
        apart(sorted),
{
    let found = tree::found_items(root, rules, min);
    law_items_lie_apart(root, rules, min);
    let places = choose|places: Seq<usize>| #[trigger]
        walk::is_size_order(found, places) && sorted == order::gathered(found, places);
    assert forall|i: int, j: int|
        0 <= i < sorted.len() && 0 <= j < sorted.len() && i != j implies !at_or_below(
        (#[trigger] sorted[i]).path,
        (#[trigger] sorted[j]).path,
    ) by {
        assert(places[i] < found.len() && places[j] < found.len() && places[i] != places[j]);
        assert(sorted[i] == found[places[i] as int] && sorted[j] == found[places[j] as int]);
    }
}

} // verus!
