//! The one-pass fold that turns a depth-first walk into Items: at most one open
//! directory per depth is held, and each settles the moment the walk leaves it.

use crate::model::ItemView;
use crate::ruleset::RuleView;
use crate::tree;
use crate::tree::Step;
use crate::tree::Tree;
use vstd::prelude::*;

verus! {

/// An open directory in the fold.
pub struct FrameView {
    pub path: Seq<u8>,
    pub depth: nat,
    pub bytes: nat,
    pub rule: Option<usize>,
    pub owned: bool,
    pub has_match: bool,
    pub clean: Seq<(Seq<u8>, nat)>,
}

/// What the fold knows part way through a walk.
pub struct FoldState {
    pub stack: Seq<FrameView>,
    pub items: Seq<ItemView>,
}

/// The Items for candidates that are large enough.
pub open spec fn candidates(clean: Seq<(Seq<u8>, nat)>, min: nat) -> Seq<ItemView>
    decreases clean.len(),
{
    if clean.len() == 0 {
        Seq::empty()
    } else {
        let before = candidates(clean.drop_last(), min);
        let c = clean.last();
        if c.1 >= min {
            before.push(tree::unknown_item(c.0, c.1))
        } else {
            before
        }
    }
}

/// The innermost open directory, with what a settled child adds to it.
pub open spec fn credited(f: FrameView, parent: FrameView) -> FrameView {
    FrameView {
        bytes: parent.bytes + f.bytes,
        has_match: parent.has_match || f.has_match,
        ..parent
    }
}

/// Settles the directory `f` that was just taken off the stack of `st`.
pub open spec fn finish(
    f: FrameView,
    st: FoldState,
    rules: Seq<RuleView>,
    min: nat,
) -> FoldState {
    let is_root = st.stack.len() == 0;
    let stack = if is_root {
        st.stack
    } else {
        st.stack.drop_last().push(credited(f, st.stack.last()))
    };
    if f.rule is Some {
        if !f.owned && !is_root {
            FoldState {
                stack,
                items: st.items.push(
                    tree::rule_item(rules[f.rule->0 as int], f.path, f.bytes),
                ),
            }
        } else {
            FoldState { stack, items: st.items }
        }
    } else if f.owned {
        FoldState { stack, items: st.items }
    } else if is_root || f.has_match {
        FoldState { stack, items: st.items + candidates(f.clean, min) }
    } else {
        let top = stack.last();
        FoldState {
            stack: stack.drop_last().push(
                FrameView { clean: top.clean.push((f.path, f.bytes)), ..top },
            ),
            items: st.items,
        }
    }
}

/// Settles every open directory at `depth` or deeper.
pub open spec fn settle(st: FoldState, depth: nat, rules: Seq<RuleView>, min: nat) -> FoldState
    decreases st.stack.len(),
{
    if st.stack.len() > 0 && st.stack.last().depth >= depth {
        let next = finish(
            st.stack.last(),
            FoldState { stack: st.stack.drop_last(), items: st.items },
            rules,
            min,
        );
        if next.stack.len() < st.stack.len() {
            settle(next, depth, rules, min)
        } else {
            next
        }
    } else {
        st
    }
}

/// Whether what comes next belongs to an Item already: an open directory
/// matched.
pub open spec fn covers(stack: Seq<FrameView>) -> bool {
    stack.len() > 0 && (stack.last().owned || stack.last().rule is Some)
}

/// Takes in one entry, all directories that it lies outside of being settled.
pub open spec fn enter(st: FoldState, s: Step, rules: Seq<RuleView>) -> FoldState {
    let covered = covers(st.stack);
    if s.entry.is_dir {
        FoldState {
            stack: st.stack.push(
                FrameView {
                    path: s.entry.path,
                    depth: s.depth,
                    bytes: s.entry.bytes,
                    rule: s.entry.rule,
                    owned: covered,
                    has_match: s.entry.rule is Some,
                    clean: Seq::empty(),
                },
            ),
            items: st.items,
        }
    } else {
        let matched = s.entry.rule is Some && !covered;
        FoldState {
            stack: if st.stack.len() == 0 {
                st.stack
            } else {
                let top = st.stack.last();
                st.stack.drop_last().push(
                    FrameView {
                        bytes: top.bytes + s.entry.bytes,
                        has_match: top.has_match || matched,
                        ..top
                    },
                )
            },
            items: if matched {
                st.items.push(
                    tree::rule_item(
                        rules[s.entry.rule->0 as int],
                        s.entry.path,
                        s.entry.bytes,
                    ),
                )
            } else {
                st.items
            },
        }
    }
}

/// Takes in a stretch of a walk.
pub open spec fn fold(st: FoldState, steps: Seq<Step>, rules: Seq<RuleView>, min: nat) -> FoldState
    decreases steps.len(),
{
    if steps.len() == 0 {
        st
    } else {
        let before = fold(st, steps.drop_last(), rules, min);
        enter(settle(before, steps.last().depth, rules, min), steps.last(), rules)
    }
}

/// The fold before anything was walked.
pub open spec fn nothing() -> FoldState {
    FoldState { stack: Seq::empty(), items: Seq::empty() }
}

/// Every open directory lies above `depth`.
spec fn above(stack: Seq<FrameView>, depth: nat) -> bool {
    forall|i: int| 0 <= i < stack.len() ==> (#[trigger] stack[i]).depth < depth
}

/// Whether a settled tree marks the directory that holds it as one with a match.
spec fn marks(t: Tree, covered: bool) -> bool
    decreases t,
{
    if t.entry.is_dir {
        t.entry.rule is Some || any_marks(t.below, covered)
    } else {
        t.entry.rule is Some && !covered
    }
}

spec fn any_marks(ts: Seq<Tree>, covered: bool) -> bool
    decreases ts,
{
    ts.len() > 0 && (any_marks(ts.drop_last(), covered) || marks(ts.last(), covered))
}

/// The match-free directories among the trees, with their bytes.
spec fn clean_of(ts: Seq<Tree>) -> Seq<(Seq<u8>, nat)>
    decreases ts.len(),
{
    if ts.len() == 0 {
        Seq::empty()
    } else {
        let t = ts.last();
        if t.entry.is_dir && !tree::has_match(t) {
            clean_of(ts.drop_last()).push((t.entry.path, tree::total(t)))
        } else {
            clean_of(ts.drop_last())
        }
    }
}

/// The fold after a whole tree below the innermost open directory was taken in
/// and settled.
spec fn absorb(st: FoldState, t: Tree, rules: Seq<RuleView>, min: nat) -> FoldState {
    let covered = covers(st.stack);
    let top = st.stack.last();
    FoldState {
        stack: st.stack.drop_last().push(
            FrameView {
                bytes: top.bytes + tree::total(t),
                has_match: top.has_match || marks(t, covered),
                clean: if !covered && t.entry.is_dir && !tree::has_match(t) {
                    top.clean.push((t.entry.path, tree::total(t)))
                } else {
                    top.clean
                },
                ..top
            },
        ),
        items: if covered {
            st.items
        } else {
            st.items + tree::surfaced(t, rules, min)
        },
    }
}

spec fn absorb_all(st: FoldState, ts: Seq<Tree>, rules: Seq<RuleView>, min: nat) -> FoldState
    decreases ts.len(),
{
    if ts.len() == 0 {
        st
    } else {
        absorb(absorb_all(st, ts.drop_last(), rules, min), ts.last(), rules, min)
    }
}

proof fn lemma_marks_uncovered(t: Tree)
    requires
        tree::well_formed(t),
    ensures
        marks(t, false) == tree::has_match(t),
    decreases t,
{
    lemma_any_marks_uncovered(t.below);
}

proof fn lemma_any_marks_uncovered(ts: Seq<Tree>)
    requires
        tree::all_well_formed(ts),
    ensures
        any_marks(ts, false) == tree::any_match(ts),
    decreases ts,
{
    if ts.len() > 0 {
        lemma_any_marks_uncovered(ts.drop_last());
        lemma_marks_uncovered(ts.last());
    }
}

proof fn lemma_no_match_surfaces_nothing(ts: Seq<Tree>, rules: Seq<RuleView>, min: nat)
    requires
        !tree::any_match(ts),
    ensures
        tree::surfaced_all(ts, rules, min) == Seq::<ItemView>::empty(),
    decreases ts,
{
    if ts.len() > 0 {
        lemma_no_match_surfaces_nothing(ts.drop_last(), rules, min);
        assert(!tree::has_match(ts.last()));
        assert(tree::surfaced(ts.last(), rules, min) == Seq::<ItemView>::empty());
    }
}

proof fn lemma_candidates(ts: Seq<Tree>, min: nat)
    ensures
        candidates(clean_of(ts), min) == tree::unknowns(ts, min),
    decreases ts.len(),
{
    if ts.len() > 0 {
        lemma_candidates(ts.drop_last(), min);
        let t = ts.last();
        if t.entry.is_dir && !tree::has_match(t) {
            let c = (t.entry.path, tree::total(t));
            assert(clean_of(ts).drop_last() == clean_of(ts.drop_last()));
            assert(clean_of(ts).last() == c);
        }
    }
}

/// What taking in several trees does to the innermost open directory.
proof fn lemma_absorb_all(st: FoldState, ts: Seq<Tree>, rules: Seq<RuleView>, min: nat)
    requires
        st.stack.len() > 0,
    ensures
        ({
            let covered = covers(st.stack);
            let top = st.stack.last();
            absorb_all(st, ts, rules, min) == FoldState {
                stack: st.stack.drop_last().push(
                    FrameView {
                        bytes: top.bytes + tree::total_all(ts),
                        has_match: top.has_match || any_marks(ts, covered),
                        clean: if covered {
                            top.clean
                        } else {
                            top.clean + clean_of(ts)
                        },
                        ..top
                    },
                ),
                items: if covered {
                    st.items
                } else {
                    st.items + tree::surfaced_all(ts, rules, min)
                },
            }
        }),
    decreases ts.len(),
{
    let covered = covers(st.stack);
    let top = st.stack.last();
    let got = absorb_all(st, ts, rules, min);
    if ts.len() == 0 {
        assert(st.stack.drop_last().push(top) =~= st.stack);
        assert(top.clean + clean_of(ts) =~= top.clean);
        assert(st.items + tree::surfaced_all(ts, rules, min) =~= st.items);
    } else {
        lemma_absorb_all(st, ts.drop_last(), rules, min);
        let mid = absorb_all(st, ts.drop_last(), rules, min);
        assert(mid.stack.last().rule == top.rule && mid.stack.last().owned == top.owned);
        assert(mid.stack.drop_last() =~= st.stack.drop_last());
        if !covered {
            assert(st.items + tree::surfaced_all(ts, rules, min) =~= mid.items + tree::surfaced(
                ts.last(),
                rules,
                min,
            ));
            assert(got.stack.last().clean =~= top.clean + clean_of(ts));
        }
    }
}

proof fn lemma_fold_concat(
    st: FoldState,
    a: Seq<Step>,
    b: Seq<Step>,
    rules: Seq<RuleView>,
    min: nat,
)
    ensures
        fold(st, a + b, rules, min) == fold(fold(st, a, rules, min), b, rules, min),
    decreases b.len(),
{
    if b.len() == 0 {
        assert(a + b =~= a);
    } else {
        lemma_fold_concat(st, a, b.drop_last(), rules, min);
        assert((a + b).drop_last() =~= a + b.drop_last());
        assert((a + b).last() == b.last());
    }
}

pub proof fn lemma_finish_shrinks(f: FrameView, st: FoldState, rules: Seq<RuleView>, min: nat)
    ensures
        finish(f, st, rules, min).stack.len() == st.stack.len(),
        forall|i: int|
            0 <= i < st.stack.len() ==> (#[trigger] finish(f, st, rules, min).stack[i]).depth
                == st.stack[i].depth,
{
}

/// Settling deep directories first changes nothing.
proof fn lemma_settle_twice(
    st: FoldState,
    deep: nat,
    depth: nat,
    rules: Seq<RuleView>,
    min: nat,
)
    requires
        depth <= deep,
    ensures
        settle(settle(st, deep, rules, min), depth, rules, min) == settle(st, depth, rules, min),
    decreases st.stack.len(),
{
    if st.stack.len() > 0 && st.stack.last().depth >= deep {
        let rest = FoldState { stack: st.stack.drop_last(), items: st.items };
        lemma_finish_shrinks(st.stack.last(), rest, rules, min);
        lemma_settle_twice(
            finish(st.stack.last(), rest, rules, min),
            deep,
            depth,
            rules,
            min,
        );
    }
}

/// The next entry settles what it lies outside of, so settling that before makes
/// no difference.
proof fn lemma_fold_settled(
    st: FoldState,
    steps: Seq<Step>,
    rules: Seq<RuleView>,
    min: nat,
)
    requires
        steps.len() > 0,
    ensures
        fold(settle(st, steps[0].depth, rules, min), steps, rules, min) == fold(
            st,
            steps,
            rules,
            min,
        ),
    decreases steps.len(),
{
    if steps.len() == 1 {
        let settled = settle(st, steps[0].depth, rules, min);
        assert(fold(st, steps.drop_last(), rules, min) == st);
        assert(fold(settled, steps.drop_last(), rules, min) == settled);
        lemma_settle_twice(st, steps[0].depth, steps[0].depth, rules, min);
    } else {
        lemma_fold_settled(st, steps.drop_last(), rules, min);
    }
}

proof fn lemma_walk_tree(t: Tree, depth: nat, st: FoldState, rules: Seq<RuleView>, min: nat)
    requires
        tree::well_formed(t),
        st.stack.len() > 0,
        above(st.stack, depth),
    ensures
        settle(fold(st, tree::preorder(t, depth), rules, min), depth, rules, min) == absorb(
            st,
            t,
            rules,
            min,
        ),
    decreases t,
{
    let s = Step { entry: t.entry, depth };
    let one = seq![s];
    let rest = tree::preorder_all(t.below, depth + 1);
    lemma_fold_concat(st, one, rest, rules, min);
    assert(one.drop_last().len() == 0);
    assert(one.last() == s);
    let after = enter(st, s, rules);
    assert(st.stack.last().depth < depth);
    assert(fold(st, one.drop_last(), rules, min) == st);
    assert(fold(st, one, rules, min) == after);
    let covered = covers(st.stack);
    lemma_marks_uncovered(t);
    if !t.entry.is_dir {
        assert(rest.len() == 0);
        assert(tree::total(t) == t.entry.bytes);
        assert(after.stack.last().depth < depth);
        assert(settle(after, depth, rules, min) == after);
        if !covered {
            if t.entry.rule is Some {
                assert(after.items =~= st.items + tree::surfaced(t, rules, min));
            } else {
                assert(!tree::any_match(t.below));
                assert(after.items =~= st.items + tree::surfaced(t, rules, min));
            }
        }
    } else {
        assert(above(after.stack, depth + 1));
        lemma_walk_all(t.below, depth + 1, after, rules, min);
        lemma_absorb_all(after, t.below, rules, min);
        lemma_settle_twice(
            fold(after, rest, rules, min),
            depth + 1,
            depth,
            rules,
            min,
        );
        let all = absorb_all(after, t.below, rules, min);
        let f = all.stack.last();
        let below = FoldState { stack: all.stack.drop_last(), items: all.items };
        assert(below.stack =~= st.stack);
        lemma_finish_shrinks(f, below, rules, min);
        let done = finish(f, below, rules, min);
        assert(f.depth == depth);
        assert(done.stack.last().depth < depth);
        assert(settle(done, depth, rules, min) == done);
        assert(settle(all, depth, rules, min) == done);
        assert(f.bytes == tree::total(t));
        assert(f.rule == t.entry.rule && f.owned == covered);
        assert(covers(after.stack) == (covered || t.entry.rule is Some));
        let want = absorb(st, t, rules, min);
        if t.entry.rule is Some {
            assert(done.stack =~= want.stack);
            if covered {
                assert(done.items == want.items);
            } else {
                assert(done.items =~= want.items);
            }
        } else if covered {
            assert(done.stack =~= want.stack);
        } else {
            lemma_any_marks_uncovered(t.below);
            lemma_candidates(t.below, min);
            assert(f.clean =~= clean_of(t.below));
            if tree::any_match(t.below) {
                assert(done.items =~= want.items);
                assert(done.stack =~= want.stack);
            } else {
                lemma_no_match_surfaces_nothing(t.below, rules, min);
                assert(done.items =~= want.items);
                assert(done.stack =~= want.stack);
            }
        }
    }
}

proof fn lemma_walk_all(
    ts: Seq<Tree>,
    depth: nat,
    st: FoldState,
    rules: Seq<RuleView>,
    min: nat,
)
    requires
        tree::all_well_formed(ts),
        st.stack.len() > 0,
        above(st.stack, depth),
    ensures
        settle(fold(st, tree::preorder_all(ts, depth), rules, min), depth, rules, min)
            == absorb_all(st, ts, rules, min),
    decreases ts,
{
    if ts.len() > 0 {
        let a = tree::preorder_all(ts.drop_last(), depth);
        let b = tree::preorder(ts.last(), depth);
        lemma_walk_all(ts.drop_last(), depth, st, rules, min);
        lemma_absorb_all(st, ts.drop_last(), rules, min);
        lemma_fold_concat(st, a, b, rules, min);
        let x = fold(st, a, rules, min);
        assert(b[0].depth == depth);
        lemma_fold_settled(x, b, rules, min);
        lemma_walk_tree(
            ts.last(),
            depth,
            absorb_all(st, ts.drop_last(), rules, min),
            rules,
            min,
        );
    } else {
        assert(st.stack.last().depth < depth);
    }
}

/// The fold over a walk of a whole tree, once everything is settled, has found
/// exactly the Items of that tree.
pub proof fn lemma_fold_finds_items(root: Tree, rules: Seq<RuleView>, min: nat)
    requires
        tree::well_formed(root),
    ensures
        settle(fold(nothing(), tree::preorder(root, 0), rules, min), 0, rules, min).items
            == tree::found_items(root, rules, min),
{
    let s = Step { entry: root.entry, depth: 0 };
    let one = seq![s];
    let rest = tree::preorder_all(root.below, 1);
    let st = nothing();
    lemma_fold_concat(st, one, rest, rules, min);
    assert(one.drop_last().len() == 0);
    assert(one.last() == s);
    assert(fold(st, one.drop_last(), rules, min) == st);
    let after = enter(st, s, rules);
    assert(fold(st, one, rules, min) == after);
    if !root.entry.is_dir {
        assert(rest.len() == 0);
        assert(tree::total(root) == root.entry.bytes);
        assert(!tree::any_match(root.below));
        assert(settle(after, 0, rules, min) == after);
        assert(after.items =~= tree::found_items(root, rules, min));
    } else {
        assert(above(after.stack, 1));
        lemma_walk_all(root.below, 1, after, rules, min);
        lemma_absorb_all(after, root.below, rules, min);
        lemma_settle_twice(fold(after, rest, rules, min), 1, 0, rules, min);
        let all = absorb_all(after, root.below, rules, min);
        let f = all.stack.last();
        let below = FoldState { stack: all.stack.drop_last(), items: all.items };
        assert(below.stack =~= st.stack);
        let done = finish(f, below, rules, min);
        assert(settle(done, 0, rules, min) == done);
        assert(settle(all, 0, rules, min) == done);
        if root.entry.rule is None {
            lemma_candidates(root.below, min);
            assert(f.clean =~= clean_of(root.below));
            assert(done.items =~= tree::found_items(root, rules, min));
        } else {
            assert(done.items =~= tree::found_items(root, rules, min));
        }
    }
}

} // verus!
