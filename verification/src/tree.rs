//! What a walked directory tree surfaces: the definition that a Scan is held to.

use crate::model::ItemView;
use crate::model::RecoveryView;
use crate::model::SafetyClass;
use crate::ruleset::RuleView;
use vstd::prelude::*;

verus! {

/// One measured file or directory: its own bytes and the place of the first Rule
/// that matches it.
pub struct EntryView {
    pub path: Seq<u8>,
    pub is_dir: bool,
    pub bytes: nat,
    pub rule: Option<usize>,
}

/// A measured directory tree.
pub struct Tree {
    pub entry: EntryView,
    pub below: Seq<Tree>,
}

/// One entry of a walk, with its distance from the root.
pub struct Step {
    pub entry: EntryView,
    pub depth: nat,
}

/// The tree in strict depth-first order, its own entry first.
pub open spec fn preorder(t: Tree, depth: nat) -> Seq<Step>
    decreases t,
{
    seq![Step { entry: t.entry, depth }] + preorder_all(t.below, depth + 1)
}

/// The trees in strict depth-first order, one after the other.
pub open spec fn preorder_all(ts: Seq<Tree>, depth: nat) -> Seq<Step>
    decreases ts,
{
    if ts.len() == 0 {
        Seq::empty()
    } else {
        preorder_all(ts.drop_last(), depth) + preorder(ts.last(), depth)
    }
}

/// Only directories hold anything.
pub open spec fn well_formed(t: Tree) -> bool
    decreases t,
{
    (!t.entry.is_dir ==> t.below.len() == 0) && all_well_formed(t.below)
}

/// Only directories hold anything, in each of the trees.
pub open spec fn all_well_formed(ts: Seq<Tree>) -> bool
    decreases ts,
{
    ts.len() > 0 ==> all_well_formed(ts.drop_last()) && well_formed(ts.last())
}

/// The bytes of a whole tree.
pub open spec fn total(t: Tree) -> nat
    decreases t,
{
    t.entry.bytes + total_all(t.below)
}

/// The bytes of all the trees.
pub open spec fn total_all(ts: Seq<Tree>) -> nat
    decreases ts,
{
    if ts.len() == 0 {
        0
    } else {
        total_all(ts.drop_last()) + total(ts.last())
    }
}

/// Whether a Rule matches anything in the tree.
pub open spec fn has_match(t: Tree) -> bool
    decreases t,
{
    t.entry.rule is Some || any_match(t.below)
}

/// Whether a Rule matches anything in any of the trees.
pub open spec fn any_match(ts: Seq<Tree>) -> bool
    decreases ts,
{
    ts.len() > 0 && (any_match(ts.drop_last()) || has_match(ts.last()))
}

/// The Recovery Method of an Item that a Rule classified. A Rule that calls
/// something a Redundant Copy does not say where the original lies, so the path of
/// the surviving copy is empty.
pub open spec fn recovery_of(rule: RuleView) -> RecoveryView {
    let command = match rule.recover_command {
        Some(text) => text,
        None => Seq::empty(),
    };
    match rule.class {
        SafetyClass::Regenerable => RecoveryView::Rebuild { command },
        SafetyClass::Reinstallable => RecoveryView::Reinstall { command },
        SafetyClass::Cache => RecoveryView::AutoRefill,
        SafetyClass::BrowserCache => RecoveryView::AutoRefill,
        SafetyClass::RedundantCopy => RecoveryView::SurvivingCopy { original: Seq::empty() },
        _ => RecoveryView::NoRecovery,
    }
}

/// The Item that a Rule makes of a path.
pub open spec fn rule_item(rule: RuleView, path: Seq<u8>, bytes: nat) -> ItemView {
    ItemView {
        path,
        size: bytes,
        class: rule.class,
        recovery: recovery_of(rule),
        evidence: rule.evidence,
        overridden: false,
    }
}

/// The Item that a large path becomes when no Rule matched.
pub open spec fn unknown_item(path: Seq<u8>, bytes: nat) -> ItemView {
    ItemView {
        path,
        size: bytes,
        class: SafetyClass::Unclassified,
        recovery: RecoveryView::NoRecovery,
        evidence: "Large, but no Rule matched — inspect before deleting."@,
        overridden: false,
    }
}

/// The match-free directories among the trees that are large enough, each as one
/// Unclassified Item.
pub open spec fn unknowns(ts: Seq<Tree>, min: nat) -> Seq<ItemView>
    decreases ts.len(),
{
    if ts.len() == 0 {
        Seq::empty()
    } else {
        let before = unknowns(ts.drop_last(), min);
        let t = ts.last();
        if t.entry.is_dir && !has_match(t) && total(t) >= min {
            before.push(unknown_item(t.entry.path, total(t)))
        } else {
            before
        }
    }
}

/// The Items that a tree below the root surfaces, none of its ancestors having
/// matched. A match owns its whole subtree as one Item. An unmatched directory
/// surfaces what its children do; if something in it matched, it is not surfaced
/// whole, so its large match-free children are.
pub open spec fn surfaced(t: Tree, rules: Seq<RuleView>, min: nat) -> Seq<ItemView>
    decreases t,
{
    match t.entry.rule {
        Some(i) => seq![rule_item(rules[i as int], t.entry.path, total(t))],
        None => if any_match(t.below) {
            surfaced_all(t.below, rules, min) + unknowns(t.below, min)
        } else {
            Seq::empty()
        },
    }
}

/// The Items that the trees surface, one after the other.
pub open spec fn surfaced_all(ts: Seq<Tree>, rules: Seq<RuleView>, min: nat) -> Seq<ItemView>
    decreases ts,
{
    if ts.len() == 0 {
        Seq::empty()
    } else {
        surfaced_all(ts.drop_last(), rules, min) + surfaced(ts.last(), rules, min)
    }
}

/// The Items that a walk of the whole tree finds. A root directory is the scope
/// of the Scan and never an Item. One that a Rule matches owns everything in it;
/// any other surfaces what its children do and its large match-free children. A
/// root that is a file is an Item if a Rule matches it.
pub open spec fn found_items(root: Tree, rules: Seq<RuleView>, min: nat) -> Seq<ItemView> {
    if !root.entry.is_dir {
        surfaced(root, rules, min)
    } else if root.entry.rule is Some {
        Seq::empty()
    } else {
        surfaced_all(root.below, rules, min) + unknowns(root.below, min)
    }
}

} // verus!
