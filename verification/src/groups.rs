//! Items grouped by Safety Class, the way they are browsed.

use crate::model;
use crate::model::ItemView;
use crate::model::SafetyClass;
use crate::model::Scan;
use vstd::prelude::*;

verus! {

/// The classes in the order their groups are shown.
pub open spec fn class_order() -> Seq<SafetyClass> {
    seq![
        SafetyClass::Regenerable,
        SafetyClass::Reinstallable,
        SafetyClass::Cache,
        SafetyClass::RedundantCopy,
        SafetyClass::BrowserCache,
        SafetyClass::Unclassified,
        SafetyClass::Irreplaceable,
    ]
}

/// The classes in the order their groups are shown.
pub fn class_list() -> (r: Vec<SafetyClass>)
    ensures
        r@ == class_order(),
{
    vec![
        SafetyClass::Regenerable,
        SafetyClass::Reinstallable,
        SafetyClass::Cache,
        SafetyClass::RedundantCopy,
        SafetyClass::BrowserCache,
        SafetyClass::Unclassified,
        SafetyClass::Irreplaceable,
    ]
}

/// The Items of one class, summed up.
#[derive(Debug, Clone, Copy, PartialEq, Eq, Structural)]
pub struct GroupSummary {
    pub class: SafetyClass,
    pub count: usize,
    pub total_bytes: u64,
    pub reclaimable_count: usize,
    pub reclaimable_bytes: u64,
}

/// What a [`GroupSummary`] says.
pub struct GroupView {
    pub class: SafetyClass,
    pub count: nat,
    pub total_bytes: nat,
    pub reclaimable_count: nat,
    pub reclaimable_bytes: nat,
}

impl View for GroupSummary {
    type V = GroupView;

    open spec fn view(&self) -> GroupView {
        GroupView {
            class: self.class,
            count: self.count as nat,
            total_bytes: self.total_bytes as nat,
            reclaimable_count: self.reclaimable_count as nat,
            reclaimable_bytes: self.reclaimable_bytes as nat,
        }
    }
}

/// The Items of a class.
pub open spec fn members(items: Seq<ItemView>, class: SafetyClass) -> Seq<ItemView> {
    items.filter(|item: ItemView| item.class == class)
}

/// The Items of a class that may be reclaimed.
pub open spec fn reclaimable_members(items: Seq<ItemView>, class: SafetyClass) -> Seq<ItemView> {
    items.filter(|item: ItemView| item.class == class && item.may_reclaim())
}

/// The Items of a class, summed up.
pub open spec fn group_of(items: Seq<ItemView>, class: SafetyClass) -> GroupView {
    GroupView {
        class,
        count: members(items, class).len(),
        total_bytes: model::total_size(members(items, class)),
        reclaimable_count: reclaimable_members(items, class).len(),
        reclaimable_bytes: model::total_size(reclaimable_members(items, class)),
    }
}

/// The groups of the classes listed that have Items.
pub open spec fn groups_among(
    items: Seq<ItemView>,
    classes: Seq<SafetyClass>,
) -> Seq<GroupView>
    decreases classes.len(),
{
    if classes.len() == 0 {
        Seq::empty()
    } else {
        let before = groups_among(items, classes.drop_last());
        let group = group_of(items, classes.last());
        if group.count > 0 {
            before.push(group)
        } else {
            before
        }
    }
}

/// The groups that have Items, in the order they are shown.
pub open spec fn groups(items: Seq<ItemView>) -> Seq<GroupView> {
    groups_among(items, class_order())
}

/// What group summaries say.
pub open spec fn group_views(list: Seq<GroupSummary>) -> Seq<GroupView> {
    Seq::new(list.len(), |i: int| list[i]@)
}

/// Keeping some Items never adds to their size.
pub proof fn lemma_filter_size(items: Seq<ItemView>, keep: spec_fn(ItemView) -> bool)
    ensures
        model::total_size(items.filter(keep)) <= model::total_size(items),
        items.filter(keep).len() <= items.len(),
    decreases items.len(),
{
    reveal(Seq::filter);
    if items.len() > 0 {
        lemma_filter_size(items.drop_last(), keep);
        let kept = items.drop_last().filter(keep);
        assert(kept.push(items.last()).drop_last() =~= kept);
    }
}

/// The first Items are never larger than all of them.
pub proof fn lemma_size_prefix(items: Seq<ItemView>, n: int)
    requires
        0 <= n <= items.len(),
    ensures
        model::total_size(items.take(n)) <= model::total_size(items),
    decreases items.len() - n,
{
    if n < items.len() {
        lemma_size_prefix(items, n + 1);
        assert(items.take(n + 1).drop_last() =~= items.take(n));
    } else {
        assert(items.take(n) =~= items);
    }
}

/// Sums up the Items of a class.
pub fn summary_of(scan: &Scan, class: SafetyClass) -> (r: GroupSummary)
    requires
        model::total_size(scan.items_view()) <= u64::MAX,
    ensures
        r@ == group_of(scan.items_view(), class),
{
    let mut summary: GroupSummary = GroupSummary {
        class,
        count: 0,
        total_bytes: 0,
        reclaimable_count: 0,
        reclaimable_bytes: 0,
    };
    let ghost items = scan.items_view();
    let ghost of_class = |item: ItemView| item.class == class;
    let ghost offered = |item: ItemView| item.class == class && item.may_reclaim();
    let mut i: usize = 0;
    proof {
        reveal(Seq::filter);
        assert(items.take(0).filter(of_class) =~= Seq::empty());
        assert(items.take(0).filter(offered) =~= Seq::empty());
    }
    while i < scan.items.len()
        invariant
            i <= scan.items.len(),
            items == scan.items_view(),
            model::total_size(items) <= u64::MAX,
            of_class == (|item: ItemView| item.class == class),
            offered == (|item: ItemView| item.class == class && item.may_reclaim()),
            summary.class == class,
            summary.count == items.take(i as int).filter(of_class).len(),
            summary.total_bytes == model::total_size(items.take(i as int).filter(of_class)),
            summary.reclaimable_count == items.take(i as int).filter(offered).len(),
            summary.reclaimable_bytes == model::total_size(
                items.take(i as int).filter(offered),
            ),
        decreases scan.items@.len() - i,
    {
        proof {
            reveal(Seq::filter);
            let next = items.take(i + 1);
            assert(next.drop_last() =~= items.take(i as int));
            assert(next.last() == scan.items@[i as int]@);
            let a = items.take(i as int).filter(of_class);
            let b = items.take(i as int).filter(offered);
            assert(a.push(next.last()).drop_last() =~= a);
            assert(b.push(next.last()).drop_last() =~= b);
            lemma_filter_size(next, of_class);
            lemma_filter_size(next, offered);
            lemma_size_prefix(items, i + 1);
        }
        if scan.items[i].class == class {
            summary.count = summary.count + 1;
            summary.total_bytes = summary.total_bytes + scan.items[i].size_on_disk;
            if scan.items[i].may_reclaim() {
                summary.reclaimable_count = summary.reclaimable_count + 1;
                summary.reclaimable_bytes = summary.reclaimable_bytes
                    + scan.items[i].size_on_disk;
            }
        }
        i = i + 1;
    }
    assert(items.take(items.len() as int) =~= items);
    summary
}

/// Sums up the groups that have Items, in the order they are shown.
pub fn group_summaries(scan: &Scan) -> (r: Vec<GroupSummary>)
    requires
        model::total_size(scan.items_view()) <= u64::MAX,
    ensures
        group_views(r@) == groups(scan.items_view()),
{
    let classes: Vec<SafetyClass> = class_list();
    let ghost items = scan.items_view();
    let mut out: Vec<GroupSummary> = Vec::new();
    let mut k: usize = 0;
    while k < classes.len()
        invariant
            k <= classes@.len(),
            items == scan.items_view(),
            model::total_size(items) <= u64::MAX,
            group_views(out@) == groups_among(items, classes@.take(k as int)),
        decreases classes@.len() - k,
    {
        let summary: GroupSummary = summary_of(scan, classes[k]);
        let ghost before = out@;
        assert(classes@.take(k + 1).drop_last() =~= classes@.take(k as int));
        if summary.count > 0 {
            out.push(summary);
            assert(group_views(out@) =~= group_views(before).push(summary@));
        }
        k = k + 1;
    }
    assert(classes@.take(classes@.len() as int) =~= class_order());
    out
}

/// The places of the Items of a class, in ascending order.
pub open spec fn places_of(items: Seq<ItemView>, class: SafetyClass) -> Seq<int>
    decreases items.len(),
{
    if items.len() == 0 {
        Seq::empty()
    } else {
        let before = places_of(items.drop_last(), class);
        if items.last().class == class {
            before.push(items.len() - 1)
        } else {
            before
        }
    }
}

/// The places of the Items of a class.
pub fn item_indices_for_class(scan: &Scan, class: SafetyClass) -> (r: Vec<usize>)
    ensures
        r@.map_values(|i: usize| i as int) == places_of(scan.items_view(), class),
{
    let ghost items = scan.items_view();
    let ghost to_int = |i: usize| i as int;
    let mut out: Vec<usize> = Vec::new();
    let mut i: usize = 0;
    assert(out@.map_values(to_int) =~= places_of(items.take(0), class));
    while i < scan.items.len()
        invariant
            i <= scan.items@.len(),
            items == scan.items_view(),
            to_int == (|i: usize| i as int),
            out@.map_values(to_int) == places_of(items.take(i as int), class),
        decreases scan.items@.len() - i,
    {
        let ghost before = out@;
        assert(items.take(i + 1).drop_last() =~= items.take(i as int));
        assert(items.take(i + 1).last() == scan.items@[i as int]@);
        if scan.items[i].class == class {
            out.push(i);
            assert(out@.map_values(to_int) =~= before.map_values(to_int).push(i as int));
        }
        i = i + 1;
    }
    assert(items.take(items.len() as int) =~= items);
    out
}

/// The places of a class are places of Items of that class, in ascending order,
/// and all of them.
pub proof fn law_places_of_a_class(items: Seq<ItemView>, class: SafetyClass)
    ensures
        places_of(items, class).len() == group_of(items, class).count,
        forall|k: int|
            0 <= k < places_of(items, class).len() ==> {
                let i = #[trigger] places_of(items, class)[k];
                0 <= i < items.len() && items[i].class == class
            },
        forall|k: int, l: int|
            0 <= k < l < places_of(items, class).len() ==> #[trigger] places_of(items, class)[k]
                < #[trigger] places_of(items, class)[l],
        forall|i: int|
            0 <= i < items.len() && (#[trigger] items[i]).class == class ==> places_of(
                items,
                class,
            ).contains(i),
    decreases items.len(),
{
    reveal(Seq::filter);
    if items.len() > 0 {
        let front = items.drop_last();
        law_places_of_a_class(front, class);
        let before = places_of(front, class);
        let all = places_of(items, class);
        assert forall|i: int| 0 <= i < items.len() && (#[trigger] items[i]).class
            == class implies all.contains(i) by {
            if i < front.len() {
                assert(front[i] == items[i]);
                assert(before.contains(i));
                let k = choose|k: int| 0 <= k < before.len() && before[k] == i;
                assert(all[k] == i);
            } else {
                assert(all[all.len() - 1] == i);
            }
        }
        assert forall|k: int| 0 <= k < all.len() implies {
            let i = #[trigger] all[k];
            0 <= i < items.len() && items[i].class == class
        } by {
            if k < before.len() {
                assert(before[k] == all[k]);
                assert(front[before[k]] == items[before[k]]);
            }
        }
    }
}

/// The Items in all of some groups.
pub open spec fn counted(list: Seq<GroupView>) -> nat
    decreases list.len(),
{
    if list.len() == 0 {
        0
    } else {
        counted(list.drop_last()) + list.last().count
    }
}

/// The bytes in all of some groups.
pub open spec fn summed(list: Seq<GroupView>) -> nat
    decreases list.len(),
{
    if list.len() == 0 {
        0
    } else {
        summed(list.drop_last()) + list.last().total_bytes
    }
}

/// The Items in all of some groups that may be reclaimed.
pub open spec fn offered_count(list: Seq<GroupView>) -> nat
    decreases list.len(),
{
    if list.len() == 0 {
        0
    } else {
        offered_count(list.drop_last()) + list.last().reclaimable_count
    }
}

/// The bytes in all of some groups that may be reclaimed.
pub open spec fn offered_bytes(list: Seq<GroupView>) -> nat
    decreases list.len(),
{
    if list.len() == 0 {
        0
    } else {
        offered_bytes(list.drop_last()) + list.last().reclaimable_bytes
    }
}

spec fn is_of(item: ItemView, class: SafetyClass) -> nat {
    if item.class == class {
        1
    } else {
        0
    }
}

spec fn times_listed(item: ItemView, classes: Seq<SafetyClass>) -> nat
    decreases classes.len(),
{
    if classes.len() == 0 {
        0
    } else {
        times_listed(item, classes.drop_last()) + is_of(item, classes.last())
    }
}

proof fn lemma_offered_members(items: Seq<ItemView>, class: SafetyClass)
    ensures
        reclaimable_members(items, class).len() <= members(items, class).len(),
    decreases items.len(),
{
    reveal(Seq::filter);
    if items.len() > 0 {
        lemma_offered_members(items.drop_last(), class);
    }
}

proof fn lemma_groups_grow(items: Seq<ItemView>, item: ItemView, classes: Seq<SafetyClass>)
    requires
        times_listed(item, classes) <= 1,
    ensures
        counted(groups_among(items.push(item), classes)) == counted(groups_among(items, classes))
            + times_listed(item, classes),
        summed(groups_among(items.push(item), classes)) == summed(groups_among(items, classes))
            + (if times_listed(item, classes) == 1 {
            item.size
        } else {
            0
        }),
        offered_count(groups_among(items.push(item), classes)) == offered_count(
            groups_among(items, classes),
        ) + (if item.may_reclaim() {
            times_listed(item, classes)
        } else {
            0
        }),
        offered_bytes(groups_among(items.push(item), classes)) == offered_bytes(
            groups_among(items, classes),
        ) + (if item.may_reclaim() && times_listed(item, classes) == 1 {
            item.size
        } else {
            0
        }),
    decreases classes.len(),
{
    reveal(Seq::filter);
    if classes.len() > 0 {
        let front = classes.drop_last();
        let class = classes.last();
        lemma_groups_grow(items, item, front);
        let more = items.push(item);
        assert(more.drop_last() =~= items);
        let was = members(items, class);
        if item.class == class {
            assert(members(more, class) == was.push(item));
            assert(was.push(item).drop_last() =~= was);
        } else {
            assert(members(more, class) == was);
        }
        let offered = reclaimable_members(items, class);
        lemma_offered_members(items, class);
        if item.class == class && item.may_reclaim() {
            assert(reclaimable_members(more, class) == offered.push(item));
            assert(offered.push(item).drop_last() =~= offered);
        } else {
            assert(reclaimable_members(more, class) == offered);
        }
        if was.len() == 0 {
            assert(was =~= Seq::empty());
            assert(model::total_size(was) == 0);
            assert(offered =~= Seq::empty());
            assert(model::total_size(offered) == 0);
        }
        let a = groups_among(items, front);
        let b = groups_among(more, front);
        assert(a.push(group_of(items, class)).drop_last() =~= a);
        assert(b.push(group_of(more, class)).drop_last() =~= b);
    }
}

proof fn lemma_no_groups(classes: Seq<SafetyClass>)
    ensures
        groups_among(Seq::empty(), classes).len() == 0,
    decreases classes.len(),
{
    reveal(Seq::filter);
    if classes.len() > 0 {
        lemma_no_groups(classes.drop_last());
    }
}

/// Nothing is hidden and nothing is shown twice: the groups together hold all
/// Items and all of their bytes, and offer exactly what the Scan offers.
pub proof fn law_groups_hold_everything(items: Seq<ItemView>)
    ensures
        counted(groups(items)) == items.len(),
        summed(groups(items)) == model::total_size(items),
        offered_count(groups(items)) == items.filter(|item: ItemView| item.may_reclaim()).len(),
        offered_bytes(groups(items)) == model::reclaimable_size(items),
    decreases items.len(),
{
    reveal(Seq::filter);
    let may = |item: ItemView| item.may_reclaim();
    if items.len() == 0 {
        lemma_no_groups(class_order());
        assert(items =~= Seq::empty());
        assert(items.filter(may) =~= Seq::empty());
    } else {
        let front = items.drop_last();
        let item = items.last();
        law_groups_hold_everything(front);
        assert(times_listed(item, class_order()) == 1) by {
            reveal_with_fuel(times_listed, 8);
            let all = class_order();
            assert(all.drop_last().drop_last().drop_last().drop_last().drop_last().drop_last().drop_last().len()
                == 0);
        }
        lemma_groups_grow(front, item, class_order());
        assert(front.push(item) =~= items);
        let kept = front.filter(may);
        assert(kept.push(item).drop_last() =~= kept);
    }
}

/// The place of a class in the order in which groups are shown.
pub open spec fn rank(class: SafetyClass) -> int {
    class_order().index_of(class)
}

proof fn lemma_groups_among(items: Seq<ItemView>, classes: Seq<SafetyClass>)
    ensures
        forall|k: int|
            0 <= k < groups_among(items, classes).len() ==> {
                let group = #[trigger] groups_among(items, classes)[k];
                &&& group == group_of(items, group.class)
                &&& group.count > 0
                &&& classes.contains(group.class)
            },
        forall|c: int|
            0 <= c < classes.len() && members(items, #[trigger] classes[c]).len() > 0 ==> exists|
                k: int,
            |
                0 <= k < groups_among(items, classes).len() && (#[trigger] groups_among(
                    items,
                    classes,
                )[k]).class == classes[c],
    decreases classes.len(),
{
    if classes.len() > 0 {
        let front = classes.drop_last();
        lemma_groups_among(items, front);
        let before = groups_among(items, front);
        let all = groups_among(items, classes);
        assert forall|k: int| 0 <= k < all.len() implies {
            let group = #[trigger] all[k];
            &&& group == group_of(items, group.class)
            &&& group.count > 0
            &&& classes.contains(group.class)
        } by {
            if k < before.len() {
                assert(all[k] == before[k]);
                let c = choose|c: int| 0 <= c < front.len() && front[c] == before[k].class;
                assert(classes[c] == all[k].class);
            } else {
                assert(classes[classes.len() - 1] == all[k].class);
            }
        }
        assert forall|c: int|
            0 <= c < classes.len() && members(items, #[trigger] classes[c]).len() > 0 implies exists|
            k: int,
        |
            0 <= k < all.len() && (#[trigger] all[k]).class == classes[c] by {
            if c < front.len() {
                assert(front[c] == classes[c]);
                let k = choose|k: int|
                    0 <= k < before.len() && (#[trigger] before[k]).class == front[c];
                assert(all[k] == before[k]);
            } else {
                assert(all[all.len() - 1].class == classes[c]);
            }
        }
    }
}

proof fn lemma_groups_ordered(items: Seq<ItemView>, n: int)
    requires
        0 <= n <= class_order().len(),
    ensures
        forall|a: int, b: int|
            0 <= a < b < groups_among(items, class_order().take(n)).len() ==> rank(
                (#[trigger] groups_among(items, class_order().take(n))[a]).class,
            ) < rank((#[trigger] groups_among(items, class_order().take(n))[b]).class),
        forall|a: int|
            0 <= a < groups_among(items, class_order().take(n)).len() ==> rank(
                (#[trigger] groups_among(items, class_order().take(n))[a]).class,
            ) < n,
    decreases n,
{
    if n > 0 {
        lemma_groups_ordered(items, n - 1);
        let classes = class_order().take(n);
        assert(classes.drop_last() =~= class_order().take(n - 1));
        lemma_rank(n - 1);
        let before = groups_among(items, class_order().take(n - 1));
        let all = groups_among(items, classes);
        assert(forall|a: int| 0 <= a < before.len() ==> all[a] == #[trigger] before[a]);
    }
}

proof fn lemma_rank(c: int)
    requires
        0 <= c < class_order().len(),
    ensures
        rank(class_order()[c]) == c,
{
    let all = class_order();
    let r = rank(all[c]);
    assert(all.contains(all[c]));
    assert(all[r] == all[c]);
}

/// A class has a group exactly if some Item has it, and then only one, which sums
/// up all of them. Groups come in the order of their classes.
pub proof fn law_one_group_for_each_class(items: Seq<ItemView>)
    ensures
        forall|k: int|
            0 <= k < groups(items).len() ==> {
                let group = #[trigger] groups(items)[k];
                group == group_of(items, group.class) && group.count > 0
            },
        forall|i: int|
            0 <= i < items.len() ==> exists|k: int|
                0 <= k < groups(items).len() && (#[trigger] groups(items)[k]).class == (
                #[trigger] items[i]).class,
        forall|a: int, b: int|
            0 <= a < b < groups(items).len() ==> rank((#[trigger] groups(items)[a]).class) < rank(
                (#[trigger] groups(items)[b]).class,
            ),
{
    let n = class_order().len() as int;
    assert(class_order().take(n) =~= class_order());
    lemma_groups_among(items, class_order());
    lemma_groups_ordered(items, n);
    assert forall|i: int| 0 <= i < items.len() implies exists|k: int|
        0 <= k < groups(items).len() && (#[trigger] groups(items)[k]).class == (
        #[trigger] items[i]).class by {
        let class = items[i].class;
        let own = |item: ItemView| item.class == class;
        items.lemma_filter_contains(own, i);
        assert(members(items, class).contains(items[i]));
        lemma_every_class_listed(class);
        let c = choose|c: int| 0 <= c < n && class_order()[c] == class;
        assert(members(items, class_order()[c]).len() > 0);
    }
}

proof fn lemma_every_class_listed(class: SafetyClass)
    ensures
        class_order().contains(class),
{
    let all = class_order();
    assert(all[0] == class || all[1] == class || all[2] == class || all[3] == class || all[4]
        == class || all[5] == class || all[6] == class);
}

/// One more Item counts in the group of its class, with its size, and there as
/// reclaimable exactly if it may be reclaimed; every other group stays as it is.
/// Without Items a group counts nothing.
pub proof fn law_an_item_counts_in_its_group(
    items: Seq<ItemView>,
    item: ItemView,
    class: SafetyClass,
)
    ensures
        ({
            let before = group_of(items, class);
            let after = group_of(items.push(item), class);
            let counts = item.class == class;
            let offered = counts && item.may_reclaim();
            &&& before.class == class && after.class == class
            &&& after.count == before.count + if counts {
                1nat
            } else {
                0
            }
            &&& after.total_bytes == before.total_bytes + if counts {
                item.size
            } else {
                0
            }
            &&& after.reclaimable_count == before.reclaimable_count + if offered {
                1nat
            } else {
                0
            }
            &&& after.reclaimable_bytes == before.reclaimable_bytes + if offered {
                item.size
            } else {
                0
            }
        }),
        group_of(Seq::empty(), class).count == 0,
        group_of(Seq::empty(), class).total_bytes == 0,
        group_of(Seq::empty(), class).reclaimable_count == 0,
        group_of(Seq::empty(), class).reclaimable_bytes == 0,
{
    reveal(Seq::filter);
    let more = items.push(item);
    assert(more.drop_last() =~= items);
    let was = members(items, class);
    assert(was.push(item).drop_last() =~= was);
    let offered = reclaimable_members(items, class);
    assert(offered.push(item).drop_last() =~= offered);
    assert(members(Seq::empty(), class) =~= Seq::empty());
    assert(reclaimable_members(Seq::empty(), class) =~= Seq::empty());
}

/// A group has something to reclaim exactly if one of its Items may be reclaimed.
pub proof fn law_a_group_offers_what_its_items_do(items: Seq<ItemView>, class: SafetyClass)
    ensures
        group_of(items, class).reclaimable_count > 0 <==> exists|i: int|
            0 <= i < items.len() && (#[trigger] items[i]).class == class && items[i].may_reclaim(),
    decreases items.len(),
{
    if items.len() > 0 {
        let front = items.drop_last();
        law_a_group_offers_what_its_items_do(front, class);
        law_an_item_counts_in_its_group(front, items.last(), class);
        assert(front.push(items.last()) =~= items);
        if group_of(front, class).reclaimable_count > 0 {
            let i = choose|i: int|
                0 <= i < front.len() && (#[trigger] front[i]).class == class
                    && front[i].may_reclaim();
            assert(items[i] == front[i]);
        }
        assert forall|i: int|
            0 <= i < items.len() && (#[trigger] items[i]).class == class
                && items[i].may_reclaim() implies group_of(items, class).reclaimable_count > 0 by {
            if i < front.len() {
                assert(front[i] == items[i]);
            }
        }
    } else {
        reveal(Seq::filter);
    }
}

/// Groups come in this order: what is rebuilt, what is reinstalled, caches, copies,
/// what waits for an override, and last what is Protected.
pub proof fn law_the_order_of_groups()
    ensures
        rank(SafetyClass::Regenerable) < rank(SafetyClass::Reinstallable) < rank(
            SafetyClass::Cache,
        ) < rank(SafetyClass::RedundantCopy) < rank(SafetyClass::BrowserCache) < rank(
            SafetyClass::Unclassified,
        ) < rank(SafetyClass::Irreplaceable),
{
    lemma_rank(0);
    lemma_rank(1);
    lemma_rank(2);
    lemma_rank(3);
    lemma_rank(4);
    lemma_rank(5);
    lemma_rank(6);
}

} // verus!
