//! What every Scan promises, whatever tree was walked.

use crate::groups;
use crate::model;
use crate::model::ItemView;
use crate::model::RecoveryView;
use crate::model::SafetyClass;
use crate::order;
use crate::ruleset::RuleView;
use crate::tree;
use crate::tree::EntryView;
use crate::tree::Step;
use crate::tree::Tree;
use crate::walk;
use vstd::prelude::*;

verus! {

/// Whether `sub` lies in the tree `t`, nothing above it in the tree having
/// matched a Rule.
pub open spec fn reached(t: Tree, sub: Tree) -> bool
    decreases t,
{
    ||| sub == t
    ||| t.entry.rule is None && exists|k: int|
        0 <= k < t.below.len() && reached(#[trigger] t.below[k], sub)
}

/// The Items that a directory surfaces once it is not surfaced whole.
pub open spec fn opened(t: Tree, rules: Seq<RuleView>, min: nat) -> Seq<ItemView> {
    tree::surfaced_all(t.below, rules, min) + tree::unknowns(t.below, min)
}

/// Whether a tree is large enough to be surfaced whole, and nothing in it matched.
pub open spec fn large_unknown(t: Tree, min: nat) -> bool {
    t.entry.is_dir && !tree::has_match(t) && tree::total(t) >= min
}

proof fn lemma_total_size_concat(a: Seq<ItemView>, b: Seq<ItemView>)
    ensures
        model::total_size(a + b) == model::total_size(a) + model::total_size(b),
    decreases b.len(),
{
    if b.len() == 0 {
        assert(a + b =~= a);
    } else {
        lemma_total_size_concat(a, b.drop_last());
        assert((a + b).drop_last() =~= a + b.drop_last());
    }
}

proof fn lemma_surfaced_size(t: Tree, rules: Seq<RuleView>, min: nat)
    ensures
        model::total_size(tree::surfaced(t, rules, min)) <= tree::total(t),
        !tree::has_match(t) ==> tree::surfaced(t, rules, min).len() == 0,
    decreases t,
{
    match t.entry.rule {
        Some(i) => {
            let one = tree::surfaced(t, rules, min);
            assert(one.drop_last() =~= Seq::empty());
            assert(model::total_size(one.drop_last()) == 0);
        },
        None => {
            lemma_opened_size(t.below, rules, min);
            assert(model::total_size(Seq::empty()) == 0);
        },
    }
}

proof fn lemma_opened_size(ts: Seq<Tree>, rules: Seq<RuleView>, min: nat)
    ensures
        model::total_size(tree::surfaced_all(ts, rules, min) + tree::unknowns(ts, min))
            <= tree::total_all(ts),
    decreases ts,
{
    lemma_total_size_concat(tree::surfaced_all(ts, rules, min), tree::unknowns(ts, min));
    if ts.len() == 0 {
        assert(model::total_size(Seq::empty()) == 0);
    } else {
        let t = ts.last();
        lemma_opened_size(ts.drop_last(), rules, min);
        lemma_surfaced_size(t, rules, min);
        lemma_total_size_concat(
            tree::surfaced_all(ts.drop_last(), rules, min),
            tree::unknowns(ts.drop_last(), min),
        );
        lemma_total_size_concat(
            tree::surfaced_all(ts.drop_last(), rules, min),
            tree::surfaced(t, rules, min),
        );
        if large_unknown(t, min) {
            assert(tree::unknowns(ts, min).drop_last() =~= tree::unknowns(ts.drop_last(), min));
            assert(model::total_size(tree::surfaced(t, rules, min)) == 0);
        }
    }
}

/// No byte is counted twice: the Items of a Scan together are no larger than the
/// tree that was walked.
pub proof fn law_items_fit_the_tree(root: Tree, rules: Seq<RuleView>, min: nat)
    ensures
        model::total_size(tree::found_items(root, rules, min)) <= tree::total(root),
{
    lemma_surfaced_size(root, rules, min);
    lemma_opened_size(root.below, rules, min);
    assert(model::total_size(Seq::empty()) == 0);
}

proof fn lemma_surfaced_all_holds(
    ts: Seq<Tree>,
    k: int,
    item: ItemView,
    rules: Seq<RuleView>,
    min: nat,
)
    requires
        0 <= k < ts.len(),
        tree::surfaced(ts[k], rules, min).contains(item),
    ensures
        tree::surfaced_all(ts, rules, min).contains(item),
    decreases ts.len(),
{
    let front = tree::surfaced_all(ts.drop_last(), rules, min);
    let back = tree::surfaced(ts.last(), rules, min);
    if k < ts.len() - 1 {
        lemma_surfaced_all_holds(ts.drop_last(), k, item, rules, min);
        let j = choose|j: int| 0 <= j < front.len() && front[j] == item;
        assert((front + back)[j] == item);
    } else {
        let j = choose|j: int| 0 <= j < back.len() && back[j] == item;
        assert((front + back)[front.len() + j] == item);
    }
}

proof fn lemma_unknowns_hold(ts: Seq<Tree>, k: int, min: nat)
    requires
        0 <= k < ts.len(),
        large_unknown(ts[k], min),
    ensures
        tree::unknowns(ts, min).contains(
            tree::unknown_item(ts[k].entry.path, tree::total(ts[k])),
        ),
    decreases ts.len(),
{
    let item = tree::unknown_item(ts[k].entry.path, tree::total(ts[k]));
    let front = tree::unknowns(ts.drop_last(), min);
    if k < ts.len() - 1 {
        lemma_unknowns_hold(ts.drop_last(), k, min);
        let j = choose|j: int| 0 <= j < front.len() && front[j] == item;
        assert(tree::unknowns(ts, min)[j] == item);
    } else {
        assert(tree::unknowns(ts, min)[front.len() as int] == item);
    }
}

proof fn lemma_in_either(a: Seq<ItemView>, b: Seq<ItemView>, item: ItemView)
    ensures
        (a + b).contains(item) <==> a.contains(item) || b.contains(item),
{
    if a.contains(item) {
        let j = choose|j: int| 0 <= j < a.len() && a[j] == item;
        assert((a + b)[j] == item);
    }
    if b.contains(item) {
        let j = choose|j: int| 0 <= j < b.len() && b[j] == item;
        assert((a + b)[a.len() + j] == item);
    }
    if (a + b).contains(item) {
        let j = choose|j: int| 0 <= j < (a + b).len() && (a + b)[j] == item;
        if j < a.len() {
            assert(a[j] == item);
        } else {
            assert(b[j - a.len()] == item);
        }
    }
}

proof fn lemma_any_match(ts: Seq<Tree>, k: int)
    requires
        0 <= k < ts.len(),
        tree::has_match(ts[k]),
    ensures
        tree::any_match(ts),
    decreases ts.len(),
{
    if k < ts.len() - 1 {
        lemma_any_match(ts.drop_last(), k);
    }
}

proof fn lemma_reached_match(t: Tree, sub: Tree)
    requires
        reached(t, sub),
        tree::has_match(sub),
    ensures
        tree::has_match(t),
    decreases t,
{
    if sub != t {
        let k = choose|k: int| 0 <= k < t.below.len() && reached(#[trigger] t.below[k], sub);
        lemma_reached_match(t.below[k], sub);
        lemma_any_match(t.below, k);
    }
}

proof fn lemma_match_surfaced(t: Tree, sub: Tree, rules: Seq<RuleView>, min: nat)
    requires
        reached(t, sub),
        sub.entry.rule is Some,
    ensures
        tree::surfaced(t, rules, min).contains(
            tree::rule_item(
                rules[sub.entry.rule->0 as int],
                sub.entry.path,
                tree::total(sub),
            ),
        ),
    decreases t,
{
    let item = tree::rule_item(
        rules[sub.entry.rule->0 as int],
        sub.entry.path,
        tree::total(sub),
    );
    if sub == t {
        assert(tree::surfaced(t, rules, min)[0] == item);
    } else {
        let k = choose|k: int| 0 <= k < t.below.len() && reached(#[trigger] t.below[k], sub);
        lemma_match_surfaced(t.below[k], sub, rules, min);
        lemma_reached_match(t.below[k], sub);
        lemma_any_match(t.below, k);
        lemma_surfaced_all_holds(t.below, k, item, rules, min);
        lemma_in_either(
            tree::surfaced_all(t.below, rules, min),
            tree::unknowns(t.below, min),
            item,
        );
    }
}

/// Every outermost match below the root is one Item, with the class and evidence
/// of its Rule and the size of its whole subtree, whatever lies inside it.
pub proof fn law_outermost_match_is_one_item(
    root: Tree,
    sub: Tree,
    rules: Seq<RuleView>,
    min: nat,
)
    requires
        root.entry.is_dir,
        reached(root, sub),
        sub != root,
        sub.entry.rule is Some,
    ensures
        tree::found_items(root, rules, min).contains(
            tree::rule_item(
                rules[sub.entry.rule->0 as int],
                sub.entry.path,
                tree::total(sub),
            ),
        ),
{
    lemma_match_surfaced(root, sub, rules, min);
    let k = choose|k: int| 0 <= k < root.below.len() && reached(#[trigger] root.below[k], sub);
    lemma_reached_match(root.below[k], sub);
    lemma_any_match(root.below, k);
}

/// Whether `item` stands for the subtree `sub`: a match that its Rule vouches for,
/// or a large directory in which nothing matched.
pub open spec fn stands_for(
    item: ItemView,
    sub: Tree,
    rules: Seq<RuleView>,
    min: nat,
) -> bool {
    match sub.entry.rule {
        Some(i) => item == tree::rule_item(rules[i as int], sub.entry.path, tree::total(sub)),
        None => large_unknown(sub, min) && item == tree::unknown_item(
            sub.entry.path,
            tree::total(sub),
        ),
    }
}

/// Whether `sub` lies directly in `parent`.
pub open spec fn lies_in(parent: Tree, sub: Tree) -> bool {
    exists|k: int| 0 <= k < parent.below.len() && #[trigger] parent.below[k] == sub
}

/// Whether `sub` is as large as it can be, seen from `t`: a match, or something
/// that lies in an unmatched directory which cannot be surfaced whole, because
/// something in it matched.
pub open spec fn is_outermost(t: Tree, sub: Tree) -> bool {
    sub.entry.rule is Some || exists|parent: Tree| #[trigger]
        reached(t, parent) && parent.entry.rule is None && lies_in(parent, sub)
            && tree::any_match(parent.below)
}

/// Whether `sub` is as large as it can be in a whole Scan: the root is never
/// surfaced either.
pub open spec fn is_topmost(root: Tree, sub: Tree) -> bool {
    is_outermost(root, sub) || lies_in(root, sub)
}

proof fn lemma_outermost_lifts(t: Tree, k: int, sub: Tree)
    requires
        0 <= k < t.below.len(),
        t.entry.rule is None,
        is_outermost(t.below[k], sub),
    ensures
        is_outermost(t, sub),
{
    if sub.entry.rule is None {
        let parent = choose|parent: Tree| #[trigger]
            reached(t.below[k], parent) && parent.entry.rule is None && lies_in(parent, sub)
                && tree::any_match(parent.below);
        assert(reached(t.below[k], parent));
        assert(reached(t, parent));
    }
}

proof fn lemma_surfaced_origin(t: Tree, item: ItemView, rules: Seq<RuleView>, min: nat)
    requires
        tree::surfaced(t, rules, min).contains(item),
    ensures
        exists|sub: Tree| #[trigger]
            reached(t, sub) && stands_for(item, sub, rules, min) && is_outermost(t, sub),
    decreases t,
{
    match t.entry.rule {
        Some(i) => {
            assert(reached(t, t) && stands_for(item, t, rules, min) && is_outermost(t, t));
        },
        None => {
            let k = lemma_opened_origin(t.below, item, rules, min);
            let sub = choose|sub: Tree| #[trigger]
                reached(t.below[k], sub) && stands_for(item, sub, rules, min) && (sub
                    == t.below[k] || is_outermost(t.below[k], sub));
            assert(reached(t.below[k], sub));
            assert(reached(t, sub));
            if sub == t.below[k] {
                assert(lies_in(t, sub));
                assert(reached(t, t) && tree::any_match(t.below));
            } else {
                lemma_outermost_lifts(t, k, sub);
            }
            assert(is_outermost(t, sub));
        },
    }
}

proof fn lemma_opened_origin(
    ts: Seq<Tree>,
    item: ItemView,
    rules: Seq<RuleView>,
    min: nat,
) -> (k: int)
    requires
        (tree::surfaced_all(ts, rules, min) + tree::unknowns(ts, min)).contains(item),
    ensures
        0 <= k < ts.len(),
        exists|sub: Tree| #[trigger]
            reached(ts[k], sub) && stands_for(item, sub, rules, min) && (sub == ts[k]
                || is_outermost(ts[k], sub)),
    decreases ts,
{
    lemma_in_either(tree::surfaced_all(ts, rules, min), tree::unknowns(ts, min), item);
    let front = ts.drop_last();
    let t = ts.last();
    lemma_in_either(
        tree::surfaced_all(front, rules, min),
        tree::unknowns(front, min),
        item,
    );
    lemma_in_either(tree::surfaced_all(front, rules, min), tree::surfaced(t, rules, min), item);
    if tree::surfaced_all(front, rules, min).contains(item) || tree::unknowns(
        front,
        min,
    ).contains(item) {
        let k = lemma_opened_origin(front, item, rules, min);
        assert(front[k] == ts[k]);
        k
    } else if tree::surfaced(t, rules, min).contains(item) {
        lemma_surfaced_origin(t, item, rules, min);
        ts.len() - 1
    } else {
        let all = tree::unknowns(ts, min);
        let before = tree::unknowns(front, min);
        let j = choose|j: int| 0 <= j < all.len() && all[j] == item;
        if j < before.len() {
            assert(before[j] == item);
        }
        assert(large_unknown(t, min));
        assert(reached(t, t) && stands_for(item, t, rules, min));
        ts.len() - 1
    }
}

/// A Scan never guesses: each Item is either an outermost match, labelled as its
/// Rule says, or the topmost large directory in which nothing matched, labelled
/// Unclassified.
pub proof fn law_every_item_has_its_reason(
    root: Tree,
    item: ItemView,
    rules: Seq<RuleView>,
    min: nat,
)
    requires
        tree::found_items(root, rules, min).contains(item),
    ensures
        exists|sub: Tree| #[trigger]
            reached(root, sub) && stands_for(item, sub, rules, min) && is_topmost(root, sub),
{
    if !root.entry.is_dir {
        lemma_surfaced_origin(root, item, rules, min);
    } else {
        let k = lemma_opened_origin(root.below, item, rules, min);
        let sub = choose|sub: Tree| #[trigger]
            reached(root.below[k], sub) && stands_for(item, sub, rules, min) && (sub
                == root.below[k] || is_outermost(root.below[k], sub));
        assert(reached(root.below[k], sub));
        assert(reached(root, sub));
        if sub == root.below[k] {
            assert(lies_in(root, sub));
        } else {
            lemma_outermost_lifts(root, k, sub);
        }
        assert(is_topmost(root, sub));
    }
}

/// What may be reclaimed right after a Scan was matched by a Rule of a reclaimable
/// class: nothing is overridden, and nothing unmatched is offered.
pub proof fn law_only_matched_items_are_offered(
    root: Tree,
    item: ItemView,
    rules: Seq<RuleView>,
    min: nat,
)
    requires
        tree::found_items(root, rules, min).contains(item),
    ensures
        !item.overridden,
        item.may_reclaim() ==> exists|sub: Tree| #[trigger]
            reached(root, sub) && sub.entry.rule is Some && item == tree::rule_item(
                rules[sub.entry.rule->0 as int],
                sub.entry.path,
                tree::total(sub),
            ) && model::reclaimable_class(rules[sub.entry.rule->0 as int].class),
{
    law_every_item_has_its_reason(root, item, rules, min);
}

/// Where no Rule matches anything, every Item is Unclassified and none may be
/// reclaimed.
pub proof fn law_unmatched_tree_offers_nothing(
    root: Tree,
    item: ItemView,
    rules: Seq<RuleView>,
    min: nat,
)
    requires
        !tree::has_match(root),
        tree::found_items(root, rules, min).contains(item),
    ensures
        item.class == SafetyClass::Unclassified,
        !item.may_reclaim(),
{
    law_every_item_has_its_reason(root, item, rules, min);
    let sub = choose|sub: Tree| #[trigger]
        reached(root, sub) && stands_for(item, sub, rules, min);
    if sub.entry.rule is Some {
        lemma_reached_match(root, sub);
    }
}

/// Each reclaimable class implies exactly one Recovery Method: rebuilding,
/// reinstalling, an automatic refill, or the surviving copy. What a Rule calls
/// Irreplaceable has none, and neither has what it calls Unclassified.
pub proof fn law_class_implies_its_recovery(rule: RuleView)
    ensures
        model::fits_class(tree::recovery_of(rule), rule.class),
        model::reclaimable_class(rule.class) ==> !(tree::recovery_of(rule) is NoRecovery),
{
}

/// Every Item of a Scan has the Recovery Method that its class implies.
pub proof fn law_every_item_has_the_recovery_of_its_class(
    root: Tree,
    item: ItemView,
    rules: Seq<RuleView>,
    min: nat,
)
    requires
        tree::found_items(root, rules, min).contains(item),
    ensures
        model::fits_class(item.recovery, item.class),
        item.may_reclaim() ==> !(item.recovery is NoRecovery),
{
    law_every_item_has_its_reason(root, item, rules, min);
}

proof fn lemma_total_all_holds(ts: Seq<Tree>, k: int)
    requires
        0 <= k < ts.len(),
    ensures
        tree::total(ts[k]) <= tree::total_all(ts),
    decreases ts.len(),
{
    if k < ts.len() - 1 {
        lemma_total_all_holds(ts.drop_last(), k);
    }
}

proof fn lemma_all_well_formed(ts: Seq<Tree>, k: int)
    requires
        0 <= k < ts.len(),
        tree::all_well_formed(ts),
    ensures
        tree::well_formed(ts[k]),
    decreases ts.len(),
{
    if k < ts.len() - 1 {
        lemma_all_well_formed(ts.drop_last(), k);
    }
}

proof fn lemma_reached_total(t: Tree, sub: Tree)
    requires
        reached(t, sub),
    ensures
        tree::total(sub) <= tree::total(t),
    decreases t,
{
    if sub != t {
        let k = choose|k: int| 0 <= k < t.below.len() && reached(#[trigger] t.below[k], sub);
        lemma_reached_total(t.below[k], sub);
        lemma_total_all_holds(t.below, k);
    }
}

proof fn lemma_unknown_opened(
    t: Tree,
    sub: Tree,
    rules: Seq<RuleView>,
    min: nat,
) -> (whole: Tree)
    requires
        tree::well_formed(t),
        t.entry.rule is None,
        reached(t, sub),
        sub != t,
        large_unknown(sub, min),
    ensures
        reached(t, whole),
        reached(whole, sub),
        large_unknown(whole, min),
        opened(t, rules, min).contains(
            tree::unknown_item(whole.entry.path, tree::total(whole)),
        ),
    decreases t,
{
    let k = choose|k: int| 0 <= k < t.below.len() && reached(#[trigger] t.below[k], sub);
    let c = t.below[k];
    lemma_all_well_formed(t.below, k);
    lemma_reached_total(c, sub);
    assert(reached(c, c));
    assert(reached(t.below[k], c));
    if !tree::has_match(c) {
        let item = tree::unknown_item(c.entry.path, tree::total(c));
        lemma_unknowns_hold(t.below, k, min);
        lemma_in_either(
            tree::surfaced_all(t.below, rules, min),
            tree::unknowns(t.below, min),
            item,
        );
        c
    } else {
        let whole = lemma_unknown_opened(c, sub, rules, min);
        let item = tree::unknown_item(whole.entry.path, tree::total(whole));
        assert(reached(t.below[k], whole));
        lemma_surfaced_all_holds(t.below, k, item, rules, min);
        lemma_in_either(
            tree::surfaced_all(t.below, rules, min),
            tree::unknowns(t.below, min),
            item,
        );
        whole
    }
}

/// Nothing large is skipped because it lacks a Rule, and a clean directory beside
/// a match is never hidden: every large directory outside all matches is, or lies
/// in, a match-free directory that is surfaced whole as Unclassified.
pub proof fn law_large_unknowns_are_surfaced(
    root: Tree,
    sub: Tree,
    rules: Seq<RuleView>,
    min: nat,
)
    requires
        tree::well_formed(root),
        root.entry.rule is None,
        reached(root, sub),
        sub != root,
        large_unknown(sub, min),
    ensures
        exists|whole: Tree| #[trigger]
            reached(whole, sub) && reached(root, whole) && large_unknown(
                whole,
                min,
            ) && tree::found_items(
                root,
                rules,
                min,
            ).contains(tree::unknown_item(whole.entry.path, tree::total(whole))),
{
    let whole = lemma_unknown_opened(root, sub, rules, min);
}

/// The Items of a Scan come largest first, and they are those that were found,
/// each as often as it was found.
pub proof fn law_largest_first(found: Seq<ItemView>, sorted: Seq<ItemView>)
    requires
        walk::largest_first(found, sorted),
    ensures
        sorted.to_multiset() == found.to_multiset(),
        forall|a: int, b: int|
            0 <= a <= b < sorted.len() ==> (#[trigger] sorted[a]).size >= (#[trigger] sorted[b]).size,
{
    let places = choose|places: Seq<usize>| #[trigger]
        walk::is_size_order(found, places) && sorted == order::gathered(found, places);
    assert forall|a: int, b: int| 0 <= a <= b < sorted.len() implies (#[trigger] sorted[a]).size
        >= (#[trigger] sorted[b]).size by {
        if a < b {
            assert(places[a] < found.len() && places[b] < found.len());
        }
    }
    order::law_sorting_keeps_everything(
        found,
        |i: int, j: int| found[i].size >= found[j].size,
        places,
    );
}

proof fn lemma_total_size_remove(items: Seq<ItemView>, i: int)
    requires
        0 <= i < items.len(),
    ensures
        model::total_size(items) == model::total_size(items.remove(i)) + items[i].size,
    decreases items.len(),
{
    if i == items.len() - 1 {
        assert(items.remove(i) =~= items.drop_last());
    } else {
        lemma_total_size_remove(items.drop_last(), i);
        assert(items.remove(i).drop_last() =~= items.drop_last().remove(i));
        assert(items.remove(i).last() == items.last());
    }
}

proof fn lemma_total_size_order(a: Seq<ItemView>, b: Seq<ItemView>)
    requires
        a.to_multiset() == b.to_multiset(),
    ensures
        model::total_size(a) == model::total_size(b),
    decreases a.len(),
{
    broadcast use vstd::seq_lib::group_to_multiset_ensures;

    if a.len() == 0 {
        assert(b.len() == b.to_multiset().len());
        assert(b =~= a);
    } else {
        let x = a.last();
        assert(a.to_multiset().count(x) > 0);
        assert(b.contains(x));
        let j = choose|j: int| 0 <= j < b.len() && b[j] == x;
        let shorter = a.remove(a.len() - 1);
        assert(shorter =~= a.drop_last());
        assert(shorter.to_multiset() == b.remove(j).to_multiset());
        lemma_total_size_order(shorter, b.remove(j));
        lemma_total_size_remove(b, j);
    }
}

proof fn lemma_walked_concat(a: Seq<Step>, b: Seq<Step>)
    ensures
        walk::walked_bytes(a + b) == walk::walked_bytes(a) + walk::walked_bytes(b),
    decreases b.len(),
{
    if b.len() == 0 {
        assert(a + b =~= a);
    } else {
        lemma_walked_concat(a, b.drop_last());
        assert((a + b).drop_last() =~= a + b.drop_last());
    }
}

proof fn lemma_walked_total(t: Tree, depth: nat)
    ensures
        walk::walked_bytes(tree::preorder(t, depth)) == tree::total(t),
    decreases t,
{
    let own = seq![Step { entry: t.entry, depth }];
    lemma_walked_all_total(t.below, depth + 1);
    lemma_walked_concat(own, tree::preorder_all(t.below, depth + 1));
    assert(own.drop_last() =~= Seq::empty());
    assert(walk::walked_bytes(own.drop_last()) == 0);
}

proof fn lemma_walked_all_total(ts: Seq<Tree>, depth: nat)
    ensures
        walk::walked_bytes(tree::preorder_all(ts, depth)) == tree::total_all(ts),
    decreases ts,
{
    if ts.len() > 0 {
        lemma_walked_all_total(ts.drop_last(), depth);
        lemma_walked_total(ts.last(), depth);
        lemma_walked_concat(
            tree::preorder_all(ts.drop_last(), depth),
            tree::preorder(ts.last(), depth),
        );
    }
}

/// A Scan never overstates what it found: its Items together, and so what is
/// reclaimable of them, are no larger than everything that was walked.
pub proof fn law_scan_never_overstates(
    root: Tree,
    rules: Seq<RuleView>,
    min: nat,
    sorted: Seq<ItemView>,
)
    requires
        walk::largest_first(tree::found_items(root, rules, min), sorted),
    ensures
        model::total_size(sorted) <= tree::total(root),
        model::reclaimable_size(sorted) <= tree::total(root),
        tree::total(root) == walk::walked_bytes(tree::preorder(root, 0)),
{
    let found = tree::found_items(root, rules, min);
    law_largest_first(found, sorted);
    lemma_total_size_order(sorted, found);
    law_items_fit_the_tree(root, rules, min);
    groups::lemma_filter_size(sorted, |item: ItemView| item.may_reclaim());
    lemma_walked_total(root, 0);
}

/// A tree as a walk sees it that does not look into matched directories, but
/// measures each of them whole.
pub open spec fn pruned(t: Tree) -> Tree
    decreases t,
{
    if t.entry.rule is Some {
        Tree {
            entry: EntryView { bytes: tree::total(t), ..t.entry },
            below: Seq::empty(),
        }
    } else {
        Tree { entry: t.entry, below: pruned_all(t.below) }
    }
}

/// Trees as such a walk sees them.
pub open spec fn pruned_all(ts: Seq<Tree>) -> Seq<Tree>
    decreases ts,
{
    if ts.len() == 0 {
        Seq::empty()
    } else {
        pruned_all(ts.drop_last()).push(pruned(ts.last()))
    }
}

proof fn lemma_pruned(t: Tree, rules: Seq<RuleView>, min: nat)
    ensures
        tree::total(pruned(t)) == tree::total(t),
        tree::has_match(pruned(t)) == tree::has_match(t),
        tree::surfaced(pruned(t), rules, min) == tree::surfaced(t, rules, min),
        pruned(t).entry.path == t.entry.path,
        pruned(t).entry.is_dir == t.entry.is_dir,
    decreases t,
{
    if t.entry.rule is Some {
        assert(tree::total_all(Seq::empty()) == 0);
    } else {
        lemma_pruned_all(t.below, rules, min);
    }
}

proof fn lemma_pruned_all(ts: Seq<Tree>, rules: Seq<RuleView>, min: nat)
    ensures
        tree::total_all(pruned_all(ts)) == tree::total_all(ts),
        tree::any_match(pruned_all(ts)) == tree::any_match(ts),
        tree::surfaced_all(pruned_all(ts), rules, min) == tree::surfaced_all(ts, rules, min),
        tree::unknowns(pruned_all(ts), min) == tree::unknowns(ts, min),
    decreases ts,
{
    if ts.len() > 0 {
        lemma_pruned_all(ts.drop_last(), rules, min);
        lemma_pruned(ts.last(), rules, min);
        let front = pruned_all(ts.drop_last());
        assert(front.push(pruned(ts.last())).drop_last() =~= front);
    }
}

/// Skipping the walk of matched directories changes nothing: measuring each of
/// them whole finds the same Items as looking at everything in them.
pub proof fn law_pruning_changes_nothing(root: Tree, rules: Seq<RuleView>, min: nat)
    ensures
        tree::found_items(
            (Tree { entry: root.entry, below: pruned_all(root.below) }),
            rules,
            min,
        ) == tree::found_items(root, rules, min),
{
    lemma_pruned_all(root.below, rules, min);
}

/// How an Item comes back is what its Rule says of it: the command of a Rebuild or a
/// Reinstall is the Rule's recover command, whatever its clean command is. The Item
/// carries the class and the evidence of the Rule, the path it was found at and the
/// bytes that were measured, and is not overridden.
pub proof fn law_the_rule_says_how_an_item_comes_back(
    rule: RuleView,
    path: Seq<u8>,
    bytes: nat,
    command: Seq<char>,
)
    requires
        rule.recover_command == Some(command),
    ensures
        ({
            let item = tree::rule_item(rule, path, bytes);
            &&& item.path == path && item.size == bytes && !item.overridden
            &&& item.class == rule.class && item.evidence == rule.evidence
            &&& rule.class == SafetyClass::Regenerable ==> item.recovery == (
            RecoveryView::Rebuild { command })
            &&& rule.class == SafetyClass::Reinstallable ==> item.recovery == (
            RecoveryView::Reinstall { command })
            &&& rule.class == SafetyClass::Cache || rule.class == SafetyClass::BrowserCache
                ==> item.recovery == RecoveryView::AutoRefill
            &&& rule.class == SafetyClass::RedundantCopy ==> item.recovery is SurvivingCopy
            &&& rule.class == SafetyClass::Irreplaceable || rule.class
                == SafetyClass::Unclassified ==> item.recovery == RecoveryView::NoRecovery
        }),
{
}

/// Two Rules that differ in their name, their condition or their clean command make
/// the same Item of a path.
pub proof fn law_cleaning_is_no_part_of_an_item(
    a: RuleView,
    b: RuleView,
    path: Seq<u8>,
    bytes: nat,
)
    requires
        a.class == b.class,
        a.recover_command == b.recover_command,
        a.evidence == b.evidence,
    ensures
        tree::rule_item(a, path, bytes) == tree::rule_item(b, path, bytes),
{
}

/// What no Rule matched is labelled as unknown: Unclassified, with no way back and
/// nothing overridden, at the path and with the bytes that were measured.
pub proof fn law_an_unknown_is_labelled_as_such(path: Seq<u8>, bytes: nat)
    ensures
        ({
            let item = tree::unknown_item(path, bytes);
            &&& item.path == path && item.size == bytes && !item.overridden
            &&& item.class == SafetyClass::Unclassified
            &&& item.recovery == RecoveryView::NoRecovery
            &&& item.evidence == "Large, but no Rule matched — inspect before deleting."@
        }),
{
}

/// The bytes of a tree are its own and those of everything in it: a tree put into a
/// directory adds its bytes to those of the directory.
pub proof fn law_bytes_add_up(entry: EntryView, below: Seq<Tree>, t: Tree)
    ensures
        tree::total(Tree { entry, below: Seq::empty() }) == entry.bytes,
        tree::total(Tree { entry, below: below.push(t) }) == tree::total(Tree { entry, below })
            + tree::total(t),
{
    assert(below.push(t).drop_last() =~= below);
    assert(tree::total_all(Seq::empty()) == 0);
}

/// A tree holds a match exactly if an entry of its walk has one.
pub proof fn law_a_match_is_an_entry_with_a_rule(t: Tree, depth: nat)
    ensures
        tree::has_match(t) <==> exists|k: int|
            0 <= k < tree::preorder(t, depth).len() && (#[trigger] tree::preorder(
                t,
                depth,
            )[k]).entry.rule is Some,
    decreases t,
{
    let own = seq![Step { entry: t.entry, depth }];
    let rest = tree::preorder_all(t.below, depth + 1);
    let all = tree::preorder(t, depth);
    lemma_any_match_is_an_entry(t.below, depth + 1);
    if t.entry.rule is Some {
        assert(all[0].entry.rule is Some);
    }
    if tree::any_match(t.below) {
        let k = choose|k: int| 0 <= k < rest.len() && (#[trigger] rest[k]).entry.rule is Some;
        assert(all[k + 1] == rest[k]);
    }
    assert forall|k: int| 0 <= k < all.len() && (#[trigger] all[k]).entry.rule is Some implies
        tree::has_match(t) by {
        if k > 0 {
            assert(rest[k - 1] == all[k]);
        }
    }
}

proof fn lemma_any_match_is_an_entry(ts: Seq<Tree>, depth: nat)
    ensures
        tree::any_match(ts) <==> exists|k: int|
            0 <= k < tree::preorder_all(ts, depth).len() && (#[trigger] tree::preorder_all(
                ts,
                depth,
            )[k]).entry.rule is Some,
    decreases ts,
{
    if ts.len() > 0 {
        let front = tree::preorder_all(ts.drop_last(), depth);
        let back = tree::preorder(ts.last(), depth);
        let all = tree::preorder_all(ts, depth);
        lemma_any_match_is_an_entry(ts.drop_last(), depth);
        law_a_match_is_an_entry_with_a_rule(ts.last(), depth);
        if tree::any_match(ts.drop_last()) {
            let k = choose|k: int| 0 <= k < front.len() && (#[trigger] front[k]).entry.rule is Some;
            assert(all[k] == front[k]);
        }
        if tree::has_match(ts.last()) {
            let k = choose|k: int| 0 <= k < back.len() && (#[trigger] back[k]).entry.rule is Some;
            assert(all[front.len() + k] == back[k]);
        }
        assert forall|k: int| 0 <= k < all.len() && (#[trigger] all[k]).entry.rule is Some implies
            tree::any_match(ts) by {
            if k < front.len() {
                assert(front[k] == all[k]);
            } else {
                assert(back[k - front.len()] == all[k]);
            }
        }
    }
}

/// A walk lists a directory before what it holds, one level deeper, and the entries
/// of a directory one after the other, each with all of its own.
pub proof fn law_a_walk_goes_down_first(entry: EntryView, below: Seq<Tree>, t: Tree, depth: nat)
    ensures
        tree::preorder(Tree { entry, below: Seq::empty() }, depth) == seq![Step { entry, depth }],
        tree::preorder(Tree { entry, below: below.push(t) }, depth) == tree::preorder(
            Tree { entry, below },
            depth,
        ) + tree::preorder(t, depth + 1),
{
    assert(below.push(t).drop_last() =~= below);
    assert(tree::preorder_all(Seq::empty(), depth + 1) =~= Seq::empty());
    assert(tree::preorder(Tree { entry, below: Seq::empty() }, depth) =~= seq![
        Step { entry, depth },
    ]);
    assert(tree::preorder(Tree { entry, below: below.push(t) }, depth) =~= tree::preorder(
        Tree { entry, below },
        depth,
    ) + tree::preorder(t, depth + 1));
}

/// The Items of one size stay in the order in which they were found.
pub proof fn law_equal_sizes_keep_their_order(found: Seq<ItemView>, places: Seq<usize>, a: int, b: int)
    requires
        walk::is_size_order(found, places),
        0 <= a < b < places.len(),
    ensures
        places.len() == found.len(),
        places[a] < found.len() && places[b] < found.len() && places[a] != places[b],
        found[places[a] as int].size >= found[places[b] as int].size,
        found[places[a] as int].size == found[places[b] as int].size ==> places[a] < places[b],
        forall|i: usize| i < found.len() ==> #[trigger] places.contains(i),
{
    let le = |i: int, j: int| found[i].size >= found[j].size;
    assert(order::is_stable_order(found.len(), le, places));
    assert(order::stands_before(le, places[a] as int, places[b] as int));
}

/// The root is the scope of a Scan and never an Item itself: a root directory that a
/// Rule matches surfaces nothing, and a root that is a file surfaces at most itself.
pub proof fn law_the_root_is_never_opened_by_a_rule(root: Tree, rules: Seq<RuleView>, min: nat)
    ensures
        root.entry.is_dir && root.entry.rule is Some ==> tree::found_items(root, rules, min).len()
            == 0,
        !root.entry.is_dir && root.entry.rule is Some ==> tree::found_items(root, rules, min)
            == seq![
            tree::rule_item(
                rules[root.entry.rule->0 as int],
                root.entry.path,
                tree::total(root),
            ),
        ],
        !root.entry.is_dir && root.below.len() == 0 && root.entry.rule is None
            ==> tree::found_items(root, rules, min).len() == 0,
{
}

/// A tree is well-formed exactly if only directories hold anything, all the way down.
pub proof fn law_only_directories_hold_anything(t: Tree)
    ensures
        tree::well_formed(t) <==> (t.entry.is_dir || t.below.len() == 0) && forall|k: int|
            0 <= k < t.below.len() ==> tree::well_formed(#[trigger] t.below[k]),
{
    lemma_each_well_formed(t.below);
}

proof fn lemma_each_well_formed(ts: Seq<Tree>)
    ensures
        tree::all_well_formed(ts) <==> forall|k: int|
            0 <= k < ts.len() ==> tree::well_formed(#[trigger] ts[k]),
    decreases ts.len(),
{
    if ts.len() > 0 {
        let front = ts.drop_last();
        lemma_each_well_formed(front);
        assert(ts.last() == ts[ts.len() - 1]);
        if tree::all_well_formed(ts) {
            assert forall|k: int| 0 <= k < ts.len() implies tree::well_formed(
                #[trigger] ts[k],
            ) by {
                if k < front.len() {
                    assert(front[k] == ts[k]);
                }
            }
        }
        if forall|k: int| 0 <= k < ts.len() ==> tree::well_formed(#[trigger] ts[k]) {
            assert forall|k: int| 0 <= k < front.len() implies tree::well_formed(
                #[trigger] front[k],
            ) by {
                assert(front[k] == ts[k]);
            }
        }
    }
}

/// What a walk has measured is taken as it was measured, and all of it is counted.
pub proof fn law_a_walk_is_taken_as_measured(
    entries: Seq<walk::WalkEntry>,
    i: int,
    walked: Seq<Step>,
    step: Step,
)
    requires
        0 <= i < entries.len(),
    ensures
        walk::steps(entries).len() == entries.len(),
        walk::steps(entries)[i].depth == entries[i].depth,
        walk::steps(entries)[i].entry.path == entries[i].path@,
        walk::steps(entries)[i].entry.is_dir == entries[i].is_dir,
        walk::steps(entries)[i].entry.bytes == entries[i].bytes,
        walk::steps(entries)[i].entry.rule == entries[i].rule_idx,
        walk::walked_bytes(Seq::empty()) == 0,
        walk::walked_bytes(walked.push(step)) == walk::walked_bytes(walked) + step.entry.bytes,
{
    assert(walked.push(step).drop_last() =~= walked);
}

/// Before they are sorted, what is found stands in the order of the walk: child by
/// child, and the large unknown children of a directory behind what was found in them.
pub proof fn law_found_items_follow_the_walk(
    root: Tree,
    ts: Seq<Tree>,
    t: Tree,
    rules: Seq<RuleView>,
    min: nat,
)
    requires
        root.entry.is_dir,
        root.entry.rule is None,
    ensures
        tree::surfaced_all(Seq::empty(), rules, min).len() == 0,
        tree::surfaced_all(ts.push(t), rules, min) == tree::surfaced_all(ts, rules, min)
            + tree::surfaced(t, rules, min),
        tree::unknowns(Seq::empty(), min).len() == 0,
        tree::unknowns(ts.push(t), min) == tree::unknowns(ts, min) + if t.entry.is_dir
            && !tree::has_match(t) && tree::total(t) >= min {
            seq![tree::unknown_item(t.entry.path, tree::total(t))]
        } else {
            Seq::empty()
        },
        tree::found_items(root, rules, min) == tree::surfaced_all(root.below, rules, min)
            + tree::unknowns(root.below, min),
        t.entry.rule is None && t.below.len() > 0 && tree::any_match(t.below) ==> tree::surfaced(
            t,
            rules,
            min,
        ) == tree::surfaced_all(t.below, rules, min) + tree::unknowns(t.below, min),
{
    assert(ts.push(t).drop_last() =~= ts);
}

} // verus!
