//! Turns the entries of a directory walk into a [`Scan`]. Anything large that no
//! Rule matches becomes `Unclassified` rather than being guessed at.

use crate::fold;
use crate::fold::FoldState;
use crate::fold::FrameView;
use crate::model;
use crate::model::Evidence;
use crate::model::Item;
use crate::model::ItemView;
use crate::model::RecoveryMethod;
use crate::model::SafetyClass;
use crate::model::Scan;
use crate::order;
use crate::order::Ranking;
use crate::path::DiskPath;
use crate::ruleset;
use crate::ruleset::Rule;
use crate::ruleset::Ruleset;
use crate::tree;
use crate::tree::EntryView;
use crate::tree::Step;
use crate::tree::Tree;
use vstd::prelude::*;

verus! {

/// A measured Item candidate in strict depth-first order: own on-disk bytes,
/// file type, and the first matching Rule.
#[derive(Debug)]
pub struct WalkEntry {
    pub path: DiskPath,
    pub depth: usize,
    pub is_dir: bool,
    pub bytes: u64,
    pub rule_idx: Option<usize>,
}

impl View for WalkEntry {
    type V = Step;

    open spec fn view(&self) -> Step {
        Step {
            entry: EntryView {
                path: self.path@,
                is_dir: self.is_dir,
                bytes: self.bytes as nat,
                rule: self.rule_idx,
            },
            depth: self.depth as nat,
        }
    }
}

/// The steps of a walk.
pub open spec fn steps(entries: Seq<WalkEntry>) -> Seq<Step> {
    Seq::new(entries.len(), |i: int| entries[i]@)
}

/// The bytes of all the steps.
pub open spec fn walked_bytes(walked: Seq<Step>) -> nat
    decreases walked.len(),
{
    if walked.len() == 0 {
        0
    } else {
        walked_bytes(walked.drop_last()) + walked.last().entry.bytes
    }
}

/// Every Rule that an entry refers to exists.
pub open spec fn rules_exist(walked: Seq<Step>, count: nat) -> bool {
    forall|i: int|
        0 <= i < walked.len() ==> ((#[trigger] walked[i]).entry.rule matches Some(rule) ==> rule
            < count)
}

/// Whether `places` lists the places of `found`, largest Item first, Items of one
/// size in the order they were found.
pub open spec fn is_size_order(found: Seq<ItemView>, places: Seq<usize>) -> bool {
    order::is_stable_order(
        found.len(),
        |i: int, j: int| found[i].size >= found[j].size,
        places,
    )
}

/// Whether `sorted` holds the Items of `found`, largest first, Items of one size
/// in the order they were found.
pub open spec fn largest_first(found: Seq<ItemView>, sorted: Seq<ItemView>) -> bool {
    exists|places: Seq<usize>| #[trigger]
        is_size_order(found, places) && sorted == order::gathered(found, places)
}

/// The Items that a walk has found once every directory is settled.
pub open spec fn walk_items(
    walked: Seq<Step>,
    rules: Seq<ruleset::RuleView>,
    min: nat,
) -> Seq<ItemView> {
    fold::settle(fold::fold(fold::nothing(), walked, rules, min), 0, rules, min).items
}

fn recovery_for(rule: &Rule) -> (r: RecoveryMethod)
    ensures
        r@ == tree::recovery_of(rule@),
{
    match rule.class {
        SafetyClass::Regenerable => RecoveryMethod::Rebuild {
            command: command_or_empty(&rule.recover_command),
        },
        SafetyClass::Reinstallable => RecoveryMethod::Reinstall {
            command: command_or_empty(&rule.recover_command),
        },
        SafetyClass::Cache | SafetyClass::BrowserCache => RecoveryMethod::AutoRefill,
        SafetyClass::RedundantCopy => RecoveryMethod::SurvivingCopy {
            original: DiskPath::from_bytes(Vec::new()),
        },
        _ => RecoveryMethod::NoRecovery,
    }
}

fn command_or_empty(command: &Option<String>) -> (r: String)
    ensures
        r@ == (match ruleset::command_view(*command) {
            Some(text) => text,
            None => Seq::empty(),
        }),
{
    match command {
        Some(text) => text.clone(),
        None => String::new(),
    }
}

fn make_item(path: DiskPath, size_on_disk: u64, rule: &Rule) -> (r: Item)
    ensures
        r@ == tree::rule_item(rule@, path@, size_on_disk as nat),
{
    Item {
        size_on_disk,
        class: rule.class,
        recovery: recovery_for(rule),
        evidence: Evidence { summary: rule.evidence.clone() },
        override_reclaim: false,
        path,
    }
}

fn unclassified_item(path: DiskPath, size_on_disk: u64) -> (r: Item)
    ensures
        r@ == tree::unknown_item(path@, size_on_disk as nat),
{
    Item {
        size_on_disk,
        class: SafetyClass::Unclassified,
        recovery: RecoveryMethod::NoRecovery,
        evidence: Evidence {
            summary: "Large, but no Rule matched — inspect before deleting.".to_owned(),
        },
        override_reclaim: false,
        path,
    }
}

/// A match-free subtree held as an `Unclassified` candidate.
struct Candidate {
    path: DiskPath,
    bytes: u64,
}

/// One open directory in the depth-first fold. The walk yields entries in strict
/// depth-first order, so at most one frame per live depth sits on the stack; a
/// frame settles (is popped) the instant an entry at its depth or shallower
/// arrives, or when the stream ends.
struct DirFrame {
    path: DiskPath,
    depth: usize,
    /// Running on-disk total for this subtree: own blocks plus every descendant
    /// streamed so far. A completed child folds its total in when it pops.
    bytes: u64,
    /// First Rule this directory itself matched: it then owns its whole subtree
    /// as a single Item.
    rule_idx: Option<usize>,
    /// True when an ancestor already matched: this directory is part of that
    /// Item and is never emitted on its own.
    owned: bool,
    /// True once anything at or below here matched a Rule. Such a directory
    /// can't be surfaced whole; its match-free children are surfaced instead.
    has_match_below: bool,
    /// Match-free child subtrees held as `Unclassified` candidates. They surface
    /// only if this directory turns out to contain a match; otherwise the whole
    /// directory is one candidate and these are subsumed.
    clean_children: Vec<Candidate>,
}

spec fn clean_view(clean: Seq<Candidate>) -> Seq<(Seq<u8>, nat)> {
    Seq::new(clean.len(), |i: int| (clean[i].path@, clean[i].bytes as nat))
}

spec fn frame_view(f: DirFrame) -> FrameView {
    FrameView {
        path: f.path@,
        depth: f.depth as nat,
        bytes: f.bytes as nat,
        rule: f.rule_idx,
        owned: f.owned,
        has_match: f.has_match_below,
        clean: clean_view(f.clean_children@),
    }
}

spec fn state_view(stack: Seq<DirFrame>, items: Seq<Item>) -> FoldState {
    FoldState {
        stack: Seq::new(stack.len(), |i: int| frame_view(stack[i])),
        items: model::item_views(items),
    }
}

/// The bytes held by all open directories.
spec fn held_bytes(stack: Seq<DirFrame>) -> nat
    decreases stack.len(),
{
    if stack.len() == 0 {
        0
    } else {
        held_bytes(stack.drop_last()) + stack.last().bytes as nat
    }
}

spec fn frames_ok(stack: Seq<DirFrame>, count: nat) -> bool {
    forall|i: int|
        0 <= i < stack.len() ==> ((#[trigger] stack[i]).rule_idx matches Some(rule) ==> rule
            < count)
}

/// Surfaces the candidates that clear the threshold.
fn surface(clean: Vec<Candidate>, items: &mut Vec<Item>, min_unclassified: u64)
    ensures
        model::item_views(final(items)@) == model::item_views(old(items)@) + fold::candidates(
            clean_view(clean@),
            min_unclassified as nat,
        ),
{
    let ghost before = model::item_views(items@);
    let ghost all = clean_view(clean@);
    let mut i: usize = 0;
    assert(before + fold::candidates(all.take(0), min_unclassified as nat) =~= before);
    while i < clean.len()
        invariant
            i <= clean@.len(),
            all == clean_view(clean@),
            model::item_views(items@) == before + fold::candidates(
                all.take(i as int),
                min_unclassified as nat,
            ),
        decreases clean@.len() - i,
    {
        let ghost now = items@;
        assert(all.take(i + 1).drop_last() == all.take(i as int));
        assert(all.take(i + 1).last() == (clean@[i as int].path@, clean@[i as int].bytes as nat));
        if clean[i].bytes >= min_unclassified {
            items.push(unclassified_item(clean[i].path.clone(), clean[i].bytes));
            assert(model::item_views(items@) =~= model::item_views(now).push(items@.last()@));
        }
        i = i + 1;
    }
    assert(all.take(all.len() as int) == all);
}

/// Settle a popped directory: fold its bytes into its parent and decide what it
/// contributes: a matched Item, a set of surfaced `Unclassified` children, or a
/// single clean candidate handed up to its parent.
fn finish_frame(
    frame: DirFrame,
    stack: &mut Vec<DirFrame>,
    items: &mut Vec<Item>,
    ruleset: &Ruleset,
    min_unclassified: u64,
)
    requires
        held_bytes(old(stack)@) + frame.bytes <= u64::MAX,
        frames_ok(old(stack)@, ruleset@.len()),
        frame.rule_idx matches Some(rule) ==> rule < ruleset@.len(),
    ensures
        state_view(final(stack)@, final(items)@) == fold::finish(
            frame_view(frame),
            state_view(old(stack)@, old(items)@),
            ruleset@,
            min_unclassified as nat,
        ),
        held_bytes(final(stack)@) <= held_bytes(old(stack)@) + frame.bytes,
        frames_ok(final(stack)@, ruleset@.len()),
        final(stack)@.len() == old(stack)@.len(),
{
    let ghost before = state_view(stack@, items@);
    let ghost f = frame_view(frame);
    let ghost want = fold::finish(f, before, ruleset@, min_unclassified as nat);
    // `stack` now holds the ancestors; empty means this frame is the root.
    let depth: usize = stack.len();
    let is_root: bool = depth == 0;
    if !is_root {
        let top: &mut DirFrame = &mut stack[depth - 1];
        top.bytes = top.bytes + frame.bytes;
        if frame.has_match_below {
            top.has_match_below = true;
        }
        assert(stack@.drop_last() =~= old(stack)@.drop_last());
        assert(state_view(stack@, items@).stack =~= before.stack.drop_last().push(
            fold::credited(f, before.stack.last()),
        ));
    }
    if let Some(ri) = frame.rule_idx {
        // A matched directory owns its subtree; only the outermost match becomes
        // an Item (nested ones are pruned), and its children are part of it.
        if !frame.owned && !is_root {
            let ghost now = items@;
            items.push(make_item(frame.path, frame.bytes, &ruleset.rules[ri]));
            assert(model::item_views(items@) =~= model::item_views(now).push(items@.last()@));
        }
        assert(state_view(stack@, items@).stack =~= want.stack);
        return;
    }
    if frame.owned {
        // Inside a matched Item: not surfaced; its bytes already folded upward.
        assert(state_view(stack@, items@).stack =~= want.stack);
        return;
    }
    if is_root || frame.has_match_below {
        // A descend point: surface the match-free child subtrees that clear the
        // threshold as the unknowns nested beside matched data.
        surface(frame.clean_children, items, min_unclassified);
        assert(state_view(stack@, items@).stack =~= want.stack);
    } else {
        // Wholly match-free: hand the whole directory up as one candidate,
        // subsuming its own children so nested unknowns aren't double-counted.
        let ghost now = stack@;
        let top: &mut DirFrame = &mut stack[depth - 1];
        top.clean_children.push(Candidate { path: frame.path, bytes: frame.bytes });
        assert(stack@.drop_last() =~= now.drop_last());
        assert(clean_view(stack@.last().clean_children@) =~= clean_view(
            now.last().clean_children@,
        ).push((f.path, f.bytes)));
        assert(state_view(stack@, items@).stack =~= want.stack);
    }
}

/// Settles every open directory at `depth` or deeper.
fn settle_to(
    depth: usize,
    stack: &mut Vec<DirFrame>,
    items: &mut Vec<Item>,
    ruleset: &Ruleset,
    min_unclassified: u64,
)
    requires
        held_bytes(old(stack)@) <= u64::MAX,
        frames_ok(old(stack)@, ruleset@.len()),
    ensures
        state_view(final(stack)@, final(items)@) == fold::settle(
            state_view(old(stack)@, old(items)@),
            depth as nat,
            ruleset@,
            min_unclassified as nat,
        ),
        held_bytes(final(stack)@) <= held_bytes(old(stack)@),
        frames_ok(final(stack)@, ruleset@.len()),
{
    let ghost start = state_view(stack@, items@);
    let ghost bytes = held_bytes(stack@);
    while stack.len() > 0 && stack[stack.len() - 1].depth >= depth
        invariant
            bytes <= u64::MAX,
            held_bytes(stack@) <= bytes,
            frames_ok(stack@, ruleset@.len()),
            fold::settle(
                state_view(stack@, items@),
                depth as nat,
                ruleset@,
                min_unclassified as nat,
            ) == fold::settle(start, depth as nat, ruleset@, min_unclassified as nat),
        decreases stack@.len(),
    {
        let ghost open = stack@;
        let ghost st = state_view(stack@, items@);
        if let Some(frame) = stack.pop() {
            assert(stack@ == open.drop_last());
            assert(open.last() == frame);
            assert(state_view(stack@, items@).stack =~= st.stack.drop_last());
            assert(st.stack.last() == frame_view(frame));
            proof {
                fold::lemma_finish_shrinks(
                    frame_view(frame),
                    state_view(stack@, items@),
                    ruleset@,
                    min_unclassified as nat,
                );
            }
            finish_frame(frame, stack, items, ruleset, min_unclassified);
        }
    }
}

/// Takes in one entry, all directories that it lies outside of being settled.
fn enter_entry(
    entry: &WalkEntry,
    stack: &mut Vec<DirFrame>,
    items: &mut Vec<Item>,
    ruleset: &Ruleset,
)
    requires
        held_bytes(old(stack)@) + entry.bytes <= u64::MAX,
        frames_ok(old(stack)@, ruleset@.len()),
        entry.rule_idx matches Some(rule) ==> rule < ruleset@.len(),
    ensures
        state_view(final(stack)@, final(items)@) == fold::enter(
            state_view(old(stack)@, old(items)@),
            entry@,
            ruleset@,
        ),
        held_bytes(final(stack)@) <= held_bytes(old(stack)@) + entry.bytes,
        frames_ok(final(stack)@, ruleset@.len()),
{
    let ghost before = state_view(stack@, items@);
    let ghost want = fold::enter(before, entry@, ruleset@);
    let ghost open = stack@;
    let depth: usize = stack.len();
    // The innermost open directory already belongs to a matched Item?
    let covered: bool = depth > 0 && (stack[depth - 1].owned || stack[depth
        - 1].rule_idx.is_some());
    if entry.is_dir {
        // A directory settles when its subtree is left: keep it open.
        stack.push(
            DirFrame {
                path: entry.path.clone(),
                depth: entry.depth,
                bytes: entry.bytes,
                rule_idx: entry.rule_idx,
                owned: covered,
                has_match_below: entry.rule_idx.is_some(),
                clean_children: Vec::new(),
            },
        );
        assert(stack@.drop_last() =~= open);
        assert(clean_view(stack@.last().clean_children@) =~= Seq::empty());
        assert(state_view(stack@, items@).stack =~= want.stack);
    } else {
        // A file or symlink contributes only its own bytes. A matched one is an
        // Item of its own unless an ancestor owns it.
        let mut matched: bool = false;
        if let Some(ri) = entry.rule_idx {
            if !covered {
                let ghost now = items@;
                items.push(make_item(entry.path.clone(), entry.bytes, &ruleset.rules[ri]));
                assert(model::item_views(items@) =~= model::item_views(now).push(
                    items@.last()@,
                ));
                matched = true;
            }
        }
        if depth > 0 {
            let top: &mut DirFrame = &mut stack[depth - 1];
            top.bytes = top.bytes + entry.bytes;
            if matched {
                top.has_match_below = true;
            }
            assert(stack@.drop_last() =~= open.drop_last());
        }
        assert(state_view(stack@, items@).stack =~= want.stack);
    }
}

struct BySize<'a> {
    items: &'a Vec<Item>,
}

impl<'a> Ranking for BySize<'a> {
    closed spec fn count(&self) -> nat {
        self.items@.len()
    }

    closed spec fn le(&self, i: int, j: int) -> bool {
        model::item_views(self.items@)[i].size >= model::item_views(self.items@)[j].size
    }

    proof fn le_total(&self, i: int, j: int) {
    }

    proof fn le_transitive(&self, i: int, j: int, k: int) {
    }

    fn at_most(&self, i: usize, j: usize) -> (r: bool) {
        self.items[i].size_on_disk >= self.items[j].size_on_disk
    }
}

/// The Items largest first, Items of one size in their order.
fn sorted_by_size(items: &Vec<Item>) -> (r: Vec<Item>)
    ensures
        largest_first(model::item_views(items@), model::item_views(r@)),
{
    let ranking: BySize = BySize { items };
    let places: Vec<usize> = order::stable_order(&ranking, items.len());
    let ghost found = model::item_views(items@);
    assert(is_size_order(found, places@)) by {
        assert((|i: int, j: int| ranking.le(i, j)) =~= (|i: int, j: int|
            found[i].size >= found[j].size));
    }
    let mut sorted: Vec<Item> = Vec::new();
    let mut k: usize = 0;
    while k < places.len()
        invariant
            k <= places@.len(),
            found == model::item_views(items@),
            is_size_order(found, places@),
            model::item_views(sorted@) == order::gathered(found, places@).take(k as int),
        decreases places@.len() - k,
    {
        let ghost now = sorted@;
        sorted.push(items[places[k]].clone());
        assert(model::item_views(sorted@) =~= model::item_views(now).push(sorted@.last()@));
        assert(order::gathered(found, places@).take(k + 1) =~= order::gathered(found, places@).take(
            k as int,
        ).push(found[places@[k as int] as int]));
        k = k + 1;
    }
    assert(order::gathered(found, places@).take(places@.len() as int) =~= order::gathered(found, places@));
    sorted
}

pub proof fn lemma_walked_prefix(walked: Seq<Step>, n: int)
    requires
        0 <= n <= walked.len(),
    ensures
        walked_bytes(walked.take(n)) <= walked_bytes(walked),
    decreases walked.len() - n,
{
    if n < walked.len() {
        lemma_walked_prefix(walked, n + 1);
        assert(walked.take(n + 1).drop_last() == walked.take(n));
    } else {
        assert(walked.take(n) == walked);
    }
}

/// Classify the walked entries of `root` in one pass and sort the Items largest
/// first. A matched directory is one Item, sized over its whole subtree.
/// Otherwise the fail-safe sweep surfaces every large unknown: the topmost
/// subtree that contains no match, so a clean directory nested under a matched
/// sibling is never hidden, and nothing large is skipped just because it lacks a
/// Rule. The sweep never inspects content, so it can only report "we don't know";
/// it never mislabels.
///
/// Every byte of a walk is counted, so all of them together must fit the count.
pub fn run(
    root: &DiskPath,
    entries: &Vec<WalkEntry>,
    ruleset: &Ruleset,
    min_unclassified: u64,
) -> (r: Scan)
    requires
        walked_bytes(steps(entries@)) <= u64::MAX,
        rules_exist(steps(entries@), ruleset@.len()),
    ensures
        r.root@ == root@,
        largest_first(
            walk_items(steps(entries@), ruleset@, min_unclassified as nat),
            r.items_view(),
        ),
        forall|t: Tree| #[trigger]
            tree::well_formed(t) && tree::preorder(t, 0) == steps(entries@) ==> largest_first(
                tree::found_items(t, ruleset@, min_unclassified as nat),
                r.items_view(),
            ),
{
    let ghost walked = steps(entries@);
    let ghost rules = ruleset@;
    let ghost min = min_unclassified as nat;
    let mut stack: Vec<DirFrame> = Vec::new();
    let mut items: Vec<Item> = Vec::new();
    let mut i: usize = 0;
    assert(state_view(stack@, items@).stack =~= fold::nothing().stack);
    assert(state_view(stack@, items@).items =~= fold::nothing().items);
    assert(walked.take(0) =~= Seq::empty());
    while i < entries.len()
        invariant
            i <= entries@.len(),
            walked == steps(entries@),
            rules == ruleset@,
            min == min_unclassified,
            walked_bytes(walked) <= u64::MAX,
            rules_exist(walked, rules.len()),
            state_view(stack@, items@) == fold::fold(
                fold::nothing(),
                walked.take(i as int),
                rules,
                min,
            ),
            held_bytes(stack@) <= walked_bytes(walked.take(i as int)),
            frames_ok(stack@, rules.len()),
        decreases entries@.len() - i,
    {
        proof {
            lemma_walked_prefix(walked, i + 1);
            assert(walked.take(i + 1).drop_last() == walked.take(i as int));
            assert(walked.take(i + 1).last() == entries@[i as int]@);
            assert(walked[i as int] == entries@[i as int]@);
        }
        settle_to(entries[i].depth, &mut stack, &mut items, ruleset, min_unclassified);
        enter_entry(&entries[i], &mut stack, &mut items, ruleset);
        i = i + 1;
    }
    assert(walked.take(walked.len() as int) =~= walked);
    settle_to(0, &mut stack, &mut items, ruleset, min_unclassified);
    proof {
        assert forall|t: Tree| #[trigger]
            tree::well_formed(t) && tree::preorder(t, 0) == walked implies tree::found_items(
            t,
            rules,
            min,
        ) == walk_items(walked, rules, min) by {
            fold::lemma_fold_finds_items(t, rules, min);
        }
    }
    Scan { root: root.clone(), items: sorted_by_size(&items) }
}

} // verus!
