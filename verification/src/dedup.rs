//! Redundant Copy detection, a second pass over a finished Scan: duplication is a
//! relationship *between* Items, not a property of one.
//!
//! On-disk size is the cheap pre-filter, only Items of exactly equal size can be
//! byte-identical, and a content fingerprint confirms equality, so an Item that
//! has no size-peer is never fingerprinted.

use crate::model;
use crate::model::Evidence;
use crate::model::Item;
use crate::model::ItemView;
use crate::model::RecoveryMethod;
use crate::model::RecoveryView;
use crate::model::SafetyClass;
use crate::model::Scan;
use crate::order;
use crate::path;
use crate::text;
use vstd::prelude::*;

verus! {

/// Whether an Item takes part in the comparison. Empty Items would all collide,
/// and a Reclaimable one is already offered.
pub open spec fn compared(item: ItemView) -> bool {
    item.size > 0 && !model::reclaimable_class(item.class)
}

/// Whether another Item that is compared has the same size as the one at `i`.
pub open spec fn has_size_peer(items: Seq<ItemView>, i: int) -> bool {
    compared(items[i]) && exists|j: int|
        0 <= j < items.len() && j != i && compared(#[trigger] items[j]) && items[j].size
            == items[i].size
}

fn is_compared(item: &Item) -> (r: bool)
    ensures
        r == compared(item@),
{
    item.size_on_disk > 0 && !item.class.is_reclaimable()
}

/// The places of the Items whose content is worth a fingerprint.
pub fn size_peers(scan: &Scan) -> (r: Vec<usize>)
    ensures
        order::lists_places(
            r@,
            scan.items@.len(),
            |i: int| has_size_peer(scan.items_view(), i),
        ),
{
    let mut peers: Vec<usize> = Vec::new();
    let mut i: usize = 0;
    let ghost items = scan.items_view();
    let ghost keep = |i: int| has_size_peer(items, i);
    while i < scan.items.len()
        invariant
            i <= scan.items.len(),
            items == scan.items_view(),
            keep == (|i: int| has_size_peer(items, i)),
            order::lists_places(peers@, i as nat, keep),
        decreases scan.items@.len() - i,
    {
        let ghost before = peers@;
        if is_compared(&scan.items[i]) && shares_size(scan, i) {
            peers.push(i);
            assert(peers@[before.len() as int] == i);
        }
        assert forall|x: usize| x < i + 1 && keep(x as int) implies #[trigger] peers@.contains(
            x,
        ) by {
            if x < i {
                assert(before.contains(x));
                let a = choose|a: int| 0 <= a < before.len() && before[a] == x;
                assert(peers@[a] == x);
            }
        }
        i = i + 1;
    }
    peers
}

fn shares_size(scan: &Scan, i: usize) -> (r: bool)
    requires
        i < scan.items@.len(),
        compared(scan.items@[i as int]@),
    ensures
        r == has_size_peer(scan.items_view(), i as int),
{
    let ghost items = scan.items_view();
    let mut j: usize = 0;
    while j < scan.items.len()
        invariant
            j <= scan.items@.len(),
            i < scan.items@.len(),
            items == scan.items_view(),
            compared(items[i as int]),
            forall|k: int|
                0 <= k < j && k != i && compared(#[trigger] items[k]) ==> items[k].size
                    != items[i as int].size,
        decreases scan.items@.len() - j,
    {
        assert(items[j as int] == scan.items@[j as int]@);
        assert(items[i as int] == scan.items@[i as int]@);
        if j != i && is_compared(&scan.items[j]) && scan.items[j].size_on_disk
            == scan.items[i].size_on_disk {
            return true;
        }
        j = j + 1;
    }
    false
}

/// The fingerprints of all Items; none for an Item that was not, or could not be,
/// fingerprinted.
pub open spec fn prints_view(prints: Seq<Option<[u8; 32]>>) -> Seq<Option<Seq<u8>>> {
    Seq::new(
        prints.len(),
        |i: int|
            match prints[i] {
                Some(print) => Some(print@),
                None => None,
            },
    )
}

/// Whether the Items at `i` and `j` hold the same bytes, as far as their sizes and
/// fingerprints tell.
pub open spec fn alike(
    items: Seq<ItemView>,
    prints: Seq<Option<Seq<u8>>>,
    i: int,
    j: int,
) -> bool {
    &&& compared(items[i])
    &&& compared(items[j])
    &&& items[i].size == items[j].size
    &&& prints[i] is Some
    &&& prints[i] == prints[j]
}

/// Whether the Item at `i` is more worth keeping than its copy at `j`: a Protected
/// one first, so the guardrail is never the Item that becomes reclaimable; then
/// the shortest path, a `-backup` sibling being longer than its original; then
/// the first path in lexicographic order, and of one path the first Item.
pub open spec fn preferred(items: Seq<ItemView>, i: int, j: int) -> bool {
    let a = items[i];
    let b = items[j];
    let a_protected = a.class == SafetyClass::Irreplaceable;
    let b_protected = b.class == SafetyClass::Irreplaceable;
    if a_protected != b_protected {
        a_protected
    } else if a.path.len() != b.path.len() {
        a.path.len() < b.path.len()
    } else if a.path != b.path {
        path::bytes_le(a.path, b.path)
    } else {
        i < j
    }
}

/// Whether the Item at `s` survives: it is preferred to every copy of it.
pub open spec fn survives(items: Seq<ItemView>, prints: Seq<Option<Seq<u8>>>, s: int) -> bool {
    forall|j: int|
        0 <= j < items.len() && j != s && #[trigger] alike(items, prints, s, j) ==> preferred(
            items,
            s,
            j,
        )
}

/// The Item that a copy becomes, `original` being the path of the survivor.
pub open spec fn redundant(item: ItemView, original: Seq<u8>) -> ItemView {
    ItemView {
        class: SafetyClass::RedundantCopy,
        recovery: RecoveryView::SurvivingCopy { original },
        evidence: "byte-identical to "@ + text::lossy_utf8(original),
        overridden: false,
        ..item
    }
}

/// Whether the Item at `i` came out as it must: a survivor, or one without a
/// copy, as it was; a copy as a Redundant Copy of the survivor.
pub open spec fn resolved(
    items: Seq<ItemView>,
    prints: Seq<Option<Seq<u8>>>,
    i: int,
    result: ItemView,
) -> bool {
    if survives(items, prints, i) {
        result == items[i]
    } else {
        exists|s: int|
            0 <= s < items.len() && #[trigger] alike(items, prints, i, s) && survives(
                items,
                prints,
                s,
            ) && result == redundant(items[i], items[s].path)
    }
}

/// Whether all Items came out as they must.
pub open spec fn deduplicated(
    items: Seq<ItemView>,
    prints: Seq<Option<Seq<u8>>>,
    result: Seq<ItemView>,
) -> bool {
    &&& result.len() == items.len()
    &&& forall|i: int|
        0 <= i < items.len() ==> resolved(items, prints, i, #[trigger] result[i])
}

proof fn lemma_preferred_transitive(items: Seq<ItemView>, i: int, j: int, k: int)
    requires
        preferred(items, i, j),
        preferred(items, j, k),
    ensures
        preferred(items, i, k),
{
    let a = items[i].path;
    let b = items[j].path;
    let c = items[k].path;
    if a.len() == b.len() && b.len() == c.len() && path::bytes_le(a, b) && path::bytes_le(b, c) {
        path::bytes_le_transitive(a, b, c);
        if a == c {
            path::bytes_le_antisymmetric(a, b);
        }
    }
}

proof fn lemma_preferred_total(items: Seq<ItemView>, i: int, j: int)
    requires
        i != j,
    ensures
        preferred(items, i, j) != preferred(items, j, i),
{
    let a = items[i].path;
    let b = items[j].path;
    path::bytes_le_total(a, b);
    if path::bytes_le(a, b) && path::bytes_le(b, a) {
        path::bytes_le_antisymmetric(a, b);
    }
}

fn is_preferred(items: &Vec<Item>, i: usize, j: usize) -> (r: bool)
    requires
        i < items@.len(),
        j < items@.len(),
    ensures
        r == preferred(model::item_views(items@), i as int, j as int),
{
    let a: &Item = &items[i];
    let b: &Item = &items[j];
    let ghost views = model::item_views(items@);
    assert(views[i as int] == a@ && views[j as int] == b@);
    if a.class.is_protected() != b.class.is_protected() {
        return a.class.is_protected();
    }
    if a.path.bytes.len() != b.path.bytes.len() {
        return a.path.bytes.len() < b.path.bytes.len();
    }
    if !a.path.same(&b.path) {
        return path::at_or_before(&a.path.bytes, &b.path.bytes);
    }
    i < j
}

fn same_digest(x: &[u8; 32], y: &[u8; 32]) -> (r: bool)
    ensures
        r == (x@ == y@),
{
    let mut i: usize = 0;
    while i < 32
        invariant
            i <= 32,
            forall|k: int| 0 <= k < i ==> x@[k] == y@[k],
        decreases 32 - i,
    {
        if x[i] != y[i] {
            assert(x@[i as int] != y@[i as int]);
            return false;
        }
        i = i + 1;
    }
    assert(x@ =~= y@);
    true
}

fn same_print(a: &Option<[u8; 32]>, b: &Option<[u8; 32]>) -> (r: bool)
    ensures
        r == (match (*a, *b) {
            (Some(x), Some(y)) => x@ == y@,
            _ => false,
        }),
{
    match (a, b) {
        (Some(x), Some(y)) => same_digest(x, y),
        _ => false,
    }
}

fn are_alike(items: &Vec<Item>, prints: &Vec<Option<[u8; 32]>>, i: usize, j: usize) -> (r: bool)
    requires
        i < items@.len(),
        j < items@.len(),
        items@.len() == prints@.len(),
    ensures
        r == alike(model::item_views(items@), prints_view(prints@), i as int, j as int),
{
    let ghost views = model::item_views(items@);
    assert(views[i as int] == items@[i as int]@ && views[j as int] == items@[j as int]@);
    is_compared(&items[i]) && is_compared(&items[j]) && items[i].size_on_disk
        == items[j].size_on_disk && same_print(&prints[i], &prints[j])
}

/// The survivor among the copies of the Item at `i`.
fn survivor_of(items: &Vec<Item>, prints: &Vec<Option<[u8; 32]>>, i: usize) -> (r: usize)
    requires
        i < items@.len(),
        items@.len() == prints@.len(),
    ensures
        r < items@.len(),
        survives(model::item_views(items@), prints_view(prints@), r as int),
        r == i || alike(
            model::item_views(items@),
            prints_view(prints@),
            i as int,
            r as int,
        ) && preferred(model::item_views(items@), r as int, i as int),
{
    let ghost views = model::item_views(items@);
    let ghost seen = prints_view(prints@);
    let mut best: usize = i;
    let mut j: usize = 0;
    while j < items.len()
        invariant
            j <= items@.len(),
            i < items@.len(),
            best < items@.len(),
            items@.len() == prints@.len(),
            views == model::item_views(items@),
            seen == prints_view(prints@),
            best == i || alike(views, seen, i as int, best as int) && preferred(
                views,
                best as int,
                i as int,
            ),
            forall|k: int|
                0 <= k < j && k != best && #[trigger] alike(views, seen, best as int, k)
                    ==> preferred(views, best as int, k),
        decreases items@.len() - j,
    {
        let better: bool = j != best && are_alike(items, prints, i, j) && is_preferred(
            items,
            j,
            best,
        );
        if better {
            proof {
                assert forall|k: int|
                    0 <= k < j + 1 && k != j && #[trigger] alike(
                        views,
                        seen,
                        j as int,
                        k,
                    ) implies preferred(views, j as int, k) by {
                    if k != best {
                        assert(alike(views, seen, best as int, k));
                        lemma_preferred_transitive(views, j as int, best as int, k);
                    }
                }
                if best != i {
                    lemma_preferred_transitive(views, j as int, best as int, i as int);
                }
            }
            best = j;
        } else {
            proof {
                if j != best {
                    lemma_preferred_total(views, j as int, best as int);
                    if alike(views, seen, best as int, j as int) {
                        assert(alike(views, seen, i as int, j as int));
                    }
                }
            }
        }
        j = j + 1;
    }
    best
}

/// Relabel all but one of each group of byte-identical Items as Redundant Copy,
/// pointing at the surviving original. The survivor keeps its own class,
/// including `Irreplaceable`, so a Protected original is never the Item that is
/// offered for deletion.
pub fn analyze(scan: &mut Scan, prints: &Vec<Option<[u8; 32]>>)
    requires
        prints@.len() == old(scan).items@.len(),
    ensures
        final(scan).root@ == old(scan).root@,
        deduplicated(
            old(scan).items_view(),
            prints_view(prints@),
            final(scan).items_view(),
        ),
{
    let ghost before = scan.items_view();
    let ghost seen = prints_view(prints@);
    let mut survivors: Vec<usize> = Vec::new();
    let mut i: usize = 0;
    while i < scan.items.len()
        invariant
            i <= scan.items@.len(),
            prints@.len() == scan.items@.len(),
            before == scan.items_view(),
            seen == prints_view(prints@),
            survivors@.len() == i,
            forall|k: int|
                0 <= k < i ==> {
                    let s = #[trigger] survivors@[k] as int;
                    &&& s < before.len()
                    &&& survives(before, seen, s)
                    &&& s == k || alike(before, seen, k, s) && preferred(before, s, k)
                },
        decreases scan.items@.len() - i,
    {
        survivors.push(survivor_of(&scan.items, prints, i));
        i = i + 1;
    }
    let mut result: Vec<Item> = Vec::new();
    i = 0;
    while i < scan.items.len()
        invariant
            i <= scan.items@.len(),
            before == scan.items_view(),
            survivors@.len() == before.len(),
            result@.len() == i,
            forall|k: int|
                0 <= k < before.len() ==> {
                    let s = #[trigger] survivors@[k] as int;
                    &&& s < before.len()
                    &&& survives(before, seen, s)
                    &&& s == k || alike(before, seen, k, s) && preferred(before, s, k)
                },
            forall|k: int| 0 <= k < i ==> resolved(before, seen, k, (#[trigger] result@[k])@),
        decreases scan.items@.len() - i,
    {
        let s: usize = survivors[i];
        assert(before[i as int] == scan.items@[i as int]@);
        assert(before[s as int] == scan.items@[s as int]@);
        let mut item: Item = scan.items[i].clone();
        if s != i {
            mark_redundant(&mut item, &scan.items[s]);
            proof {
                assert(alike(before, seen, i as int, s as int));
                assert(alike(before, seen, s as int, i as int));
                lemma_preferred_total(before, s as int, i as int);
                assert(!survives(before, seen, i as int));
            }
        }
        result.push(item);
        i = i + 1;
    }
    scan.items = result;
}

/// Makes `item` a Redundant Copy of `original`.
fn mark_redundant(item: &mut Item, original: &Item)
    ensures
        final(item)@ == redundant(old(item)@, original.path@),
{
    item.class = SafetyClass::RedundantCopy;
    item.recovery = RecoveryMethod::SurvivingCopy { original: original.path.clone() };
    item.evidence = Evidence {
        summary: "byte-identical to ".to_owned().concat(original.path.display().as_str()),
    };
    // A relabel cannot inherit a stale override.
    item.override_reclaim = false;
}

/// Deleting every Redundant Copy loses nothing: for each Item that was relabelled
/// there is another of the same size and fingerprint that stays as it is, and the
/// copy says where.
pub proof fn law_an_original_survives(
    items: Seq<ItemView>,
    prints: Seq<Option<Seq<u8>>>,
    result: Seq<ItemView>,
    i: int,
)
    requires
        deduplicated(items, prints, result),
        0 <= i < items.len(),
        result[i] != items[i],
    ensures
        result[i].class == SafetyClass::RedundantCopy,
        exists|s: int|
            0 <= s < items.len() && s != i && #[trigger] alike(items, prints, i, s) && result[s]
                == items[s] && result[i].recovery == (RecoveryView::SurvivingCopy {
                original: items[s].path,
            }),
{
    assert(resolved(items, prints, i, result[i]));
    let s = choose|s: int|
        0 <= s < items.len() && #[trigger] alike(items, prints, i, s) && survives(items, prints, s)
            && result[i] == redundant(items[i], items[s].path);
    assert(resolved(items, prints, s, result[s]));
}

/// A Protected Item is relabelled only where a Protected copy of it survives.
pub proof fn law_a_protected_original_survives(
    items: Seq<ItemView>,
    prints: Seq<Option<Seq<u8>>>,
    result: Seq<ItemView>,
    i: int,
)
    requires
        deduplicated(items, prints, result),
        0 <= i < items.len(),
        items[i].class == SafetyClass::Irreplaceable,
        result[i] != items[i],
    ensures
        exists|s: int|
            0 <= s < items.len() && s != i && #[trigger] alike(items, prints, i, s) && result[s]
                == items[s] && items[s].class == SafetyClass::Irreplaceable,
{
    assert(resolved(items, prints, i, result[i]));
    let s = choose|s: int|
        0 <= s < items.len() && #[trigger] alike(items, prints, i, s) && survives(items, prints, s)
            && result[i] == redundant(items[i], items[s].path);
    assert(resolved(items, prints, s, result[s]));
    assert(alike(items, prints, s, i));
}

/// Detection moves, resizes, adds and drops nothing, and leaves alone what is
/// empty, already Reclaimable, or without a fingerprint.
pub proof fn law_detection_only_relabels(
    items: Seq<ItemView>,
    prints: Seq<Option<Seq<u8>>>,
    result: Seq<ItemView>,
    i: int,
)
    requires
        deduplicated(items, prints, result),
        0 <= i < items.len(),
    ensures
        result[i].path == items[i].path,
        result[i].size == items[i].size,
        !compared(items[i]) || prints[i] is None ==> result[i] == items[i],
{
    assert(resolved(items, prints, i, result[i]));
}

/// Whether two lists of fingerprints are the same where it matters.
spec fn agree_on_peers(
    items: Seq<ItemView>,
    prints: Seq<Option<Seq<u8>>>,
    few: Seq<Option<Seq<u8>>>,
) -> bool {
    forall|i: int|
        #![trigger prints[i]]
        #![trigger few[i]]
        0 <= i < items.len() && has_size_peer(items, i) ==> few[i] == prints[i]
}

proof fn lemma_alike_among_peers(
    items: Seq<ItemView>,
    prints: Seq<Option<Seq<u8>>>,
    few: Seq<Option<Seq<u8>>>,
    i: int,
    j: int,
)
    requires
        0 <= i < items.len(),
        0 <= j < items.len(),
        i != j,
        agree_on_peers(items, prints, few),
    ensures
        alike(items, prints, i, j) == alike(items, few, i, j),
{
    if compared(items[i]) && compared(items[j]) && items[i].size == items[j].size {
        assert(has_size_peer(items, i) && has_size_peer(items, j));
        assert(few[i] == prints[i] && few[j] == prints[j]);
    }
}

proof fn lemma_survives_among_peers(
    items: Seq<ItemView>,
    prints: Seq<Option<Seq<u8>>>,
    few: Seq<Option<Seq<u8>>>,
    s: int,
)
    requires
        0 <= s < items.len(),
        agree_on_peers(items, prints, few),
    ensures
        survives(items, prints, s) ==> survives(items, few, s),
{
    if survives(items, prints, s) {
        assert forall|j: int|
            0 <= j < items.len() && j != s && #[trigger] alike(items, few, s, j) implies preferred(
            items,
            s,
            j,
        ) by {
            lemma_alike_among_peers(items, prints, few, s, j);
            assert(alike(items, prints, s, j));
        }
    }
}

proof fn lemma_resolved_among_peers(
    items: Seq<ItemView>,
    prints: Seq<Option<Seq<u8>>>,
    few: Seq<Option<Seq<u8>>>,
    i: int,
    result: ItemView,
)
    requires
        0 <= i < items.len(),
        agree_on_peers(items, prints, few),
        resolved(items, prints, i, result),
    ensures
        resolved(items, few, i, result),
{
    lemma_survives_among_peers(items, prints, few, i);
    lemma_survives_among_peers(items, few, prints, i);
    if !survives(items, prints, i) {
        let s = choose|s: int|
            0 <= s < items.len() && #[trigger] alike(items, prints, i, s) && survives(
                items,
                prints,
                s,
            ) && result == redundant(items[i], items[s].path);
        lemma_survives_among_peers(items, prints, few, s);
        lemma_alike_among_peers(items, prints, few, i, s);
        assert(alike(items, few, i, s));
    }
}

/// Only Items that share their size with another need a fingerprint: leaving out
/// the others, or handing over anything in their place, changes nothing.
pub proof fn law_only_size_peers_matter(
    items: Seq<ItemView>,
    prints: Seq<Option<Seq<u8>>>,
    few: Seq<Option<Seq<u8>>>,
    result: Seq<ItemView>,
)
    requires
        prints.len() == items.len(),
        few.len() == items.len(),
        forall|i: int|
            0 <= i < items.len() && has_size_peer(items, i) ==> few[i] == #[trigger] prints[i],
    ensures
        deduplicated(items, prints, result) <==> deduplicated(items, few, result),
{
    assert(agree_on_peers(items, prints, few));
    if deduplicated(items, prints, result) {
        assert forall|i: int| 0 <= i < items.len() implies resolved(
            items,
            few,
            i,
            #[trigger] result[i],
        ) by {
            lemma_resolved_among_peers(items, prints, few, i, result[i]);
        }
    }
    if deduplicated(items, few, result) {
        assert forall|i: int| 0 <= i < items.len() implies resolved(
            items,
            prints,
            i,
            #[trigger] result[i],
        ) by {
            lemma_resolved_among_peers(items, few, prints, i, result[i]);
        }
    }
}

/// What detection relabels has the Recovery Method of its new class, so every Item
/// still has the one that its class implies.
pub proof fn law_detection_keeps_the_way_back(
    items: Seq<ItemView>,
    prints: Seq<Option<Seq<u8>>>,
    result: Seq<ItemView>,
    i: int,
)
    requires
        deduplicated(items, prints, result),
        0 <= i < items.len(),
        model::fits_class(items[i].recovery, items[i].class),
    ensures
        model::fits_class(result[i].recovery, result[i].class),
{
    assert(resolved(items, prints, i, result[i]));
}

/// Detection changes no total: what was counted before is counted after.
pub proof fn law_detection_keeps_the_total(
    items: Seq<ItemView>,
    prints: Seq<Option<Seq<u8>>>,
    result: Seq<ItemView>,
)
    requires
        deduplicated(items, prints, result),
    ensures
        model::total_size(result) == model::total_size(items),
{
    assert forall|i: int| 0 <= i < items.len() implies (#[trigger] result[i]).size
        == items[i].size by {
        law_detection_only_relabels(items, prints, result, i);
    }
    lemma_same_sizes(items, result);
}

proof fn lemma_same_sizes(a: Seq<ItemView>, b: Seq<ItemView>)
    requires
        a.len() == b.len(),
        forall|i: int| 0 <= i < a.len() ==> (#[trigger] b[i]).size == a[i].size,
    ensures
        model::total_size(a) == model::total_size(b),
    decreases a.len(),
{
    if a.len() > 0 {
        lemma_same_sizes(a.drop_last(), b.drop_last());
        assert(b[b.len() - 1].size == a[a.len() - 1].size);
    }
}

/// Detection is complete: of two Items that hold the same bytes, at most one is
/// left as it was.
pub proof fn law_no_duplicate_is_left(
    items: Seq<ItemView>,
    prints: Seq<Option<Seq<u8>>>,
    result: Seq<ItemView>,
    i: int,
    j: int,
)
    requires
        deduplicated(items, prints, result),
        0 <= i < items.len(),
        0 <= j < items.len(),
        i != j,
        alike(items, prints, i, j),
    ensures
        result[i].class == SafetyClass::RedundantCopy || result[j].class
            == SafetyClass::RedundantCopy,
{
    assert(resolved(items, prints, i, result[i]));
    assert(resolved(items, prints, j, result[j]));
    assert(alike(items, prints, j, i));
    lemma_preferred_total(items, i, j);
}

/// A second pass with the same fingerprints changes nothing.
pub proof fn law_detection_is_idempotent(
    items: Seq<ItemView>,
    prints: Seq<Option<Seq<u8>>>,
    result: Seq<ItemView>,
    again: Seq<ItemView>,
)
    requires
        deduplicated(items, prints, result),
        deduplicated(result, prints, again),
    ensures
        again == result,
{
    assert forall|i: int| 0 <= i < result.len() implies again[i] == result[i] by {
        assert(resolved(result, prints, i, again[i]));
        assert(survives(result, prints, i)) by {
            assert forall|j: int|
                0 <= j < result.len() && j != i && #[trigger] alike(
                    result,
                    prints,
                    i,
                    j,
                ) implies preferred(result, i, j) by {
                assert(resolved(items, prints, i, result[i]));
                assert(resolved(items, prints, j, result[j]));
                assert(alike(items, prints, i, j));
                law_no_duplicate_is_left(items, prints, result, i, j);
            }
        }
    }
    assert(again =~= result);
}

/// What detection relabels is a copy of something that stays: another Item, of the
/// same positive size and with the same fingerprint, comes out as it was, and the
/// copy names it. Only Items that were not offered before are compared, and a
/// Protected Item gives way to a Protected one alone.
pub proof fn law_a_copy_has_the_fingerprint_of_its_original(
    items: Seq<ItemView>,
    prints: Seq<Option<Seq<u8>>>,
    result: Seq<ItemView>,
    i: int,
)
    requires
        deduplicated(items, prints, result),
        0 <= i < items.len(),
        result[i] != items[i],
    ensures
        exists|s: int|
            {
                &&& 0 <= s < items.len() && s != i
                &&& prints[i] is Some && prints[s] == prints[i]
                &&& items[i].size > 0 && items[s].size == items[i].size
                &&& #[trigger] result[s] == items[s]
                &&& result[i] == (ItemView {
                    path: items[i].path,
                    size: items[i].size,
                    class: SafetyClass::RedundantCopy,
                    recovery: RecoveryView::SurvivingCopy { original: items[s].path },
                    evidence: "byte-identical to "@ + text::lossy_utf8(items[s].path),
                    overridden: false,
                })
                &&& items[i].class == SafetyClass::Irreplaceable ==> items[s].class
                    == SafetyClass::Irreplaceable
                &&& items[s].class == SafetyClass::Irreplaceable || items[s].class
                    == SafetyClass::Unclassified || items[s].class == SafetyClass::BrowserCache
            },
        items[i].class == SafetyClass::Irreplaceable || items[i].class
            == SafetyClass::Unclassified || items[i].class == SafetyClass::BrowserCache,
{
    assert(resolved(items, prints, i, result[i]));
    let s = choose|s: int|
        0 <= s < items.len() && #[trigger] alike(items, prints, i, s) && survives(
            items,
            prints,
            s,
        ) && result[i] == redundant(items[i], items[s].path);
    assert(s != i);
    assert(alike(items, prints, s, i));
    assert(resolved(items, prints, s, result[s]));
    assert(result[s] == items[s]);
}

/// An Item whose fingerprint no other Item shares comes out as it was, whatever
/// sizes the others have.
pub proof fn law_a_fingerprint_of_its_own_protects(
    items: Seq<ItemView>,
    prints: Seq<Option<Seq<u8>>>,
    result: Seq<ItemView>,
    i: int,
)
    requires
        deduplicated(items, prints, result),
        0 <= i < items.len(),
        prints[i] is None || forall|j: int|
            0 <= j < items.len() && j != i ==> #[trigger] prints[j] != prints[i],
    ensures
        result[i] == items[i],
{
    if result[i] != items[i] {
        law_a_copy_has_the_fingerprint_of_its_original(items, prints, result, i);
    }
}

/// Of two Items with the same fingerprint and the same positive size, neither of
/// them offered before, the better original is the one that stays, or neither
/// does: a Protected one before any other, then the shorter path, then the path
/// whose first differing byte is the lower one, then the first of the two. So one
/// of them is always relabelled.
pub proof fn law_the_better_original_stays(
    items: Seq<ItemView>,
    prints: Seq<Option<Seq<u8>>>,
    result: Seq<ItemView>,
    i: int,
    j: int,
)
    requires
        deduplicated(items, prints, result),
        0 <= i < items.len(),
        0 <= j < items.len(),
        i != j,
        prints[i] is Some,
        prints[j] == prints[i],
        items[i].size > 0,
        items[j].size == items[i].size,
        items[i].class == SafetyClass::Irreplaceable || items[i].class
            == SafetyClass::Unclassified || items[i].class == SafetyClass::BrowserCache,
        items[j].class == SafetyClass::Irreplaceable || items[j].class
            == SafetyClass::Unclassified || items[j].class == SafetyClass::BrowserCache,
    ensures
        result[i].class == SafetyClass::RedundantCopy || result[j].class
            == SafetyClass::RedundantCopy,
        items[i].class == SafetyClass::Irreplaceable && items[j].class
            != SafetyClass::Irreplaceable ==> result[j].class == SafetyClass::RedundantCopy,
        (items[i].class == SafetyClass::Irreplaceable) == (items[j].class
            == SafetyClass::Irreplaceable) && items[i].path.len() < items[j].path.len()
            ==> result[j].class == SafetyClass::RedundantCopy,
        (items[i].class == SafetyClass::Irreplaceable) == (items[j].class
            == SafetyClass::Irreplaceable) && items[i].path.len() == items[j].path.len() && (
        exists|k: int|
            0 <= k < items[i].path.len() && (#[trigger] items[i].path[k]) < items[j].path[k] && (
            forall|l: int| 0 <= l < k ==> #[trigger] items[i].path[l] == items[j].path[l]))
            ==> result[j].class == SafetyClass::RedundantCopy,
        (items[i].class == SafetyClass::Irreplaceable) == (items[j].class
            == SafetyClass::Irreplaceable) && items[i].path == items[j].path && i < j
            ==> result[j].class == SafetyClass::RedundantCopy,
{
    assert(alike(items, prints, i, j) && alike(items, prints, j, i));
    law_no_duplicate_is_left(items, prints, result, i, j);
    assert(resolved(items, prints, j, result[j]));
    let a = items[i].path;
    let b = items[j].path;
    if a.len() == b.len() && exists|k: int|
        0 <= k < a.len() && (#[trigger] a[k]) < b[k] && (forall|l: int|
            0 <= l < k ==> #[trigger] a[l] == b[l]) {
        let k = choose|k: int|
            0 <= k < a.len() && (#[trigger] a[k]) < b[k] && (forall|l: int|
                0 <= l < k ==> #[trigger] a[l] == b[l]);
        path::law_first_difference_decides(a, b, k);
        assert forall|l: int| 0 <= l < k implies #[trigger] b[l] == a[l] by {
            assert(a[l] == b[l]);
        }
        path::law_first_difference_decides(b, a, k);
        assert(a != b);
    }
    if preferred(items, i, j) && !preferred(items, j, i) {
        assert(!survives(items, prints, j));
    }
}

/// The Items worth a fingerprint are those that could be a copy: not empty, not
/// offered yet, and of the size of another such Item.
pub proof fn law_only_possible_copies_are_fingerprinted(
    items: Seq<ItemView>,
    peers: Seq<usize>,
    i: int,
)
    requires
        order::lists_places(peers, items.len(), |i: int| has_size_peer(items, i)),
        0 <= i < items.len() <= usize::MAX,
    ensures
        peers.contains(i as usize) <==> {
            &&& items[i].size > 0
            &&& items[i].class == SafetyClass::Irreplaceable || items[i].class
                == SafetyClass::Unclassified || items[i].class == SafetyClass::BrowserCache
            &&& exists|j: int|
                0 <= j < items.len() && j != i && (#[trigger] items[j]).size == items[i].size && (
                items[j].class == SafetyClass::Irreplaceable || items[j].class
                    == SafetyClass::Unclassified || items[j].class == SafetyClass::BrowserCache)
        },
{
    let keep = |i: int| has_size_peer(items, i);
    if peers.contains(i as usize) {
        let a = choose|a: int| 0 <= a < peers.len() && peers[a] == i as usize;
        assert(keep(peers[a] as int));
    }
    if exists|j: int|
        0 <= j < items.len() && j != i && (#[trigger] items[j]).size == items[i].size && (
        items[j].class == SafetyClass::Irreplaceable || items[j].class
            == SafetyClass::Unclassified || items[j].class == SafetyClass::BrowserCache) {
        let j = choose|j: int|
            0 <= j < items.len() && j != i && (#[trigger] items[j]).size == items[i].size && (
            items[j].class == SafetyClass::Irreplaceable || items[j].class
                == SafetyClass::Unclassified || items[j].class == SafetyClass::BrowserCache);
        if items[i].size > 0 && (items[i].class == SafetyClass::Irreplaceable || items[i].class
            == SafetyClass::Unclassified || items[i].class == SafetyClass::BrowserCache) {
            assert(compared(items[j]) && has_size_peer(items, i));
            assert(keep((i as usize) as int));
        }
    }
}

/// Fingerprints are compared as they were taken.
pub proof fn law_fingerprints_are_compared_as_taken(
    prints: Seq<Option<[u8; 32]>>,
    i: int,
    j: int,
)
    requires
        0 <= i < prints.len(),
        0 <= j < prints.len(),
    ensures
        prints_view(prints).len() == prints.len(),
        prints_view(prints)[i] is Some <==> prints[i] is Some,
        prints[i] is Some && prints[j] is Some ==> (prints_view(prints)[i] == prints_view(prints)[j]
            <==> prints[i]->0@ == prints[j]->0@),
{
}

} // verus!
