//! Core domain types: what a Scan surfaces, how each Item is labelled, and what
//! that label allows.

use crate::path::DiskPath;
use crate::text;
use vstd::prelude::*;

verus! {

/// The label assigned to each [`Item`], describing what it is and the cost of
/// deleting it.
///
/// Four classes are reclaimable. `Irreplaceable` is Protected. `BrowserCache`
/// and `Unclassified` are surfaced but never offered until the user overrides
/// the Item.
#[derive(Debug, Clone, Copy, PartialEq, Eq, Structural)]
pub enum SafetyClass {
    /// Build output a build command recreates. Recovered by *rebuilding*.
    Regenerable,
    /// Dependencies a package manager restores. Recovered by *reinstalling*.
    Reinstallable,
    /// Data automatically refilled on next use. Recovered by *doing nothing*.
    Cache,
    /// A byte-identical duplicate. Recovered by the *surviving copy*.
    RedundantCopy,
    /// A browser's on-disk cache: rebuilt on next use, at a cost the user feels.
    BrowserCache,
    /// Real, non-recoverable data. Protected: never offered for deletion.
    Irreplaceable,
    /// A large Item no Rule matched.
    Unclassified,
}

/// The four classes the app may offer for deletion.
pub open spec fn reclaimable_class(class: SafetyClass) -> bool {
    ||| class == SafetyClass::Regenerable
    ||| class == SafetyClass::Reinstallable
    ||| class == SafetyClass::Cache
    ||| class == SafetyClass::RedundantCopy
}

/// The classes an Item of which may be reclaimed only after an override.
pub open spec fn override_class(class: SafetyClass) -> bool {
    class == SafetyClass::Unclassified || class == SafetyClass::BrowserCache
}

/// The name of a class, as shown to the user.
pub open spec fn class_label(class: SafetyClass) -> Seq<char> {
    match class {
        SafetyClass::Regenerable => "Regenerable"@,
        SafetyClass::Reinstallable => "Reinstallable"@,
        SafetyClass::Cache => "Cache"@,
        SafetyClass::RedundantCopy => "Redundant Copy"@,
        SafetyClass::BrowserCache => "BrowserCache"@,
        SafetyClass::Irreplaceable => "Irreplaceable"@,
        SafetyClass::Unclassified => "Unclassified"@,
    }
}

impl SafetyClass {
    /// Whether the app may *offer* an Item of this class for deletion.
    pub fn is_reclaimable(self) -> (r: bool)
        ensures
            r == reclaimable_class(self),
    {
        matches!(
            self,
            SafetyClass::Regenerable | SafetyClass::Reinstallable | SafetyClass::Cache
                | SafetyClass::RedundantCopy
        )
    }

    /// The guardrail state of an Irreplaceable Item.
    pub fn is_protected(self) -> (r: bool)
        ensures
            r == (self == SafetyClass::Irreplaceable),
    {
        matches!(self, SafetyClass::Irreplaceable)
    }

    /// Whether an Item of this class needs an override before it is offered.
    pub fn needs_override(self) -> (r: bool)
        ensures
            r == override_class(self),
    {
        matches!(self, SafetyClass::Unclassified | SafetyClass::BrowserCache)
    }

    /// The name of the class, as shown to the user.
    pub fn label(self) -> (r: &'static str)
        ensures
            r@ == class_label(self),
    {
        match self {
            SafetyClass::Regenerable => "Regenerable",
            SafetyClass::Reinstallable => "Reinstallable",
            SafetyClass::Cache => "Cache",
            SafetyClass::RedundantCopy => "Redundant Copy",
            SafetyClass::BrowserCache => "BrowserCache",
            SafetyClass::Irreplaceable => "Irreplaceable",
            SafetyClass::Unclassified => "Unclassified",
        }
    }
}

/// Every class is in exactly one of three states: reclaimable, Protected, or
/// waiting for an override.
pub proof fn law_class_states_are_exclusive(class: SafetyClass)
    ensures
        reclaimable_class(class) ==> class != SafetyClass::Irreplaceable && !override_class(class),
        override_class(class) ==> class != SafetyClass::Irreplaceable,
        reclaimable_class(class) || class == SafetyClass::Irreplaceable || override_class(class),
{
}

/// How a deleted Reclaimable Item is restored. Each reclaimable class implies
/// exactly one.
#[derive(Debug, PartialEq, Eq)]
pub enum RecoveryMethod {
    /// Run a build tool, e.g. `cargo build`.
    Rebuild { command: String },
    /// Run a package manager, e.g. `npm install`.
    Reinstall { command: String },
    /// Nothing: the tool refills the cache on next use.
    AutoRefill,
    /// Nothing: another copy survives at this path, which is empty where it is not
    /// known.
    SurvivingCopy { original: DiskPath },
    /// Not recoverable (Irreplaceable) or unknown (Unclassified).
    NoRecovery,
}

/// What a [`RecoveryMethod`] says.
pub enum RecoveryView {
    Rebuild { command: Seq<char> },
    Reinstall { command: Seq<char> },
    AutoRefill,
    SurvivingCopy { original: Seq<u8> },
    NoRecovery,
}

/// Whether a Recovery Method is the one that a class implies.
pub open spec fn fits_class(recovery: RecoveryView, class: SafetyClass) -> bool {
    match class {
        SafetyClass::Regenerable => recovery is Rebuild,
        SafetyClass::Reinstallable => recovery is Reinstall,
        SafetyClass::Cache | SafetyClass::BrowserCache => recovery is AutoRefill,
        SafetyClass::RedundantCopy => recovery is SurvivingCopy,
        SafetyClass::Irreplaceable | SafetyClass::Unclassified => recovery is NoRecovery,
    }
}

impl View for RecoveryMethod {
    type V = RecoveryView;

    open spec fn view(&self) -> RecoveryView {
        match self {
            RecoveryMethod::Rebuild { command } => RecoveryView::Rebuild { command: command@ },
            RecoveryMethod::Reinstall { command } => RecoveryView::Reinstall { command: command@ },
            RecoveryMethod::AutoRefill => RecoveryView::AutoRefill,
            RecoveryMethod::SurvivingCopy { original } => RecoveryView::SurvivingCopy {
                original: original@,
            },
            RecoveryMethod::NoRecovery => RecoveryView::NoRecovery,
        }
    }
}

impl RecoveryView {
    /// The sentence that tells the user how the Item comes back.
    pub open spec fn sentence(self) -> Seq<char> {
        match self {
            RecoveryView::Rebuild { command } => "rebuild via `"@ + command + "`"@,
            RecoveryView::Reinstall { command } => "reinstall via `"@ + command + "`"@,
            RecoveryView::AutoRefill => "refills automatically on next use"@,
            RecoveryView::SurvivingCopy { original } => if original.len() == 0 {
                "the surviving copy"@
            } else {
                "the surviving copy at "@ + text::lossy_utf8(original)
            },
            RecoveryView::NoRecovery => "not recoverable"@,
        }
    }
}

impl RecoveryMethod {
    /// A short human sentence describing how a reclaimed Item is restored. For
    /// the Trash safety net of an overridden Unclassified Item see
    /// [`Item::recovery_line`].
    pub fn describe(&self) -> (r: String)
        ensures
            r@ == self@.sentence(),
    {
        match self {
            RecoveryMethod::Rebuild { command } => "rebuild via `".to_owned().concat(
                command.as_str(),
            ).concat("`"),
            RecoveryMethod::Reinstall { command } => "reinstall via `".to_owned().concat(
                command.as_str(),
            ).concat("`"),
            RecoveryMethod::AutoRefill => "refills automatically on next use".to_owned(),
            RecoveryMethod::SurvivingCopy { original } => if original.bytes.len() == 0 {
                "the surviving copy".to_owned()
            } else {
                "the surviving copy at ".to_owned().concat(original.display().as_str())
            },
            RecoveryMethod::NoRecovery => "not recoverable".to_owned(),
        }
    }
}

impl Clone for RecoveryMethod {
    fn clone(&self) -> (r: RecoveryMethod)
        ensures
            r@ == self@,
    {
        match self {
            RecoveryMethod::Rebuild { command } => RecoveryMethod::Rebuild {
                command: command.clone(),
            },
            RecoveryMethod::Reinstall { command } => RecoveryMethod::Reinstall {
                command: command.clone(),
            },
            RecoveryMethod::AutoRefill => RecoveryMethod::AutoRefill,
            RecoveryMethod::SurvivingCopy { original } => RecoveryMethod::SurvivingCopy {
                original: original.clone(),
            },
            RecoveryMethod::NoRecovery => RecoveryMethod::NoRecovery,
        }
    }
}

/// The concrete proof the Scan used to assign a Safety Class. Always shown
/// alongside the class so the user can trust or override it.
#[derive(Debug)]
pub struct Evidence {
    /// Short human sentence, e.g. "Cargo.toml sits beside this target/ dir".
    pub summary: String,
}

impl Clone for Evidence {
    fn clone(&self) -> (r: Evidence)
        ensures
            r.summary@ == self.summary@,
    {
        Evidence { summary: self.summary.clone() }
    }
}

/// A file or directory the Scan surfaces as a single actionable unit.
#[derive(Debug)]
pub struct Item {
    pub path: DiskPath,
    /// Actual on-disk size in bytes (allocated blocks), not apparent length.
    pub size_on_disk: u64,
    pub class: SafetyClass,
    pub recovery: RecoveryMethod,
    pub evidence: Evidence,
    /// Set only after the user manually overrides an Item whose class needs it.
    pub override_reclaim: bool,
}

/// What an [`Item`] says.
pub struct ItemView {
    pub path: Seq<u8>,
    pub size: nat,
    pub class: SafetyClass,
    pub recovery: RecoveryView,
    pub evidence: Seq<char>,
    pub overridden: bool,
}

impl View for Item {
    type V = ItemView;

    open spec fn view(&self) -> ItemView {
        ItemView {
            path: self.path@,
            size: self.size_on_disk as nat,
            class: self.class,
            recovery: self.recovery@,
            evidence: self.evidence.summary@,
            overridden: self.override_reclaim,
        }
    }
}

impl ItemView {
    /// Whether reclaiming this Item is currently permitted.
    pub open spec fn may_reclaim(self) -> bool {
        reclaimable_class(self.class) || (override_class(self.class) && self.overridden)
    }

    /// How the user gets this Item back.
    pub open spec fn recovery_line(self) -> Seq<char> {
        if self.class == SafetyClass::Unclassified {
            "moved to Trash on Reclaim — restorable from there"@
        } else {
            self.recovery.sentence()
        }
    }
}

impl Item {
    /// Whether a reclaim action is currently permitted on this Item.
    pub fn may_reclaim(&self) -> (r: bool)
        ensures
            r == self@.may_reclaim(),
    {
        self.class.is_reclaimable() || (self.class.needs_override() && self.override_reclaim)
    }

    /// One-line "how you get it back" shown for the highlighted Item and quoted
    /// in the Confirm prompt. An overridden `Unclassified` Item has no Recovery
    /// Method of its own but goes to the Trash, recoverable from there, so
    /// describe that destination rather than its own method.
    pub fn recovery_line(&self) -> (r: String)
        ensures
            r@ == self@.recovery_line(),
    {
        if self.class == SafetyClass::Unclassified {
            return "moved to Trash on Reclaim — restorable from there".to_owned();
        }
        self.recovery.describe()
    }
}

impl Clone for Item {
    fn clone(&self) -> (r: Item)
        ensures
            r@ == self@,
    {
        Item {
            path: self.path.clone(),
            size_on_disk: self.size_on_disk,
            class: self.class,
            recovery: self.recovery.clone(),
            evidence: self.evidence.clone(),
            override_reclaim: self.override_reclaim,
        }
    }
}

/// A Protected Item may never be reclaimed, whatever the user overrides.
pub proof fn law_protected_is_never_reclaimable(item: ItemView)
    requires
        item.class == SafetyClass::Irreplaceable,
    ensures
        !item.may_reclaim(),
{
}

/// An Item no class vouches for may be reclaimed exactly when it was overridden.
pub proof fn law_override_decides_unvouched_items(item: ItemView)
    requires
        override_class(item.class),
    ensures
        item.may_reclaim() <==> item.overridden,
{
}

/// The views of a list of Items.
pub open spec fn item_views(items: Seq<Item>) -> Seq<ItemView> {
    Seq::new(items.len(), |i: int| items[i]@)
}

/// The total size of Items.
pub open spec fn total_size(items: Seq<ItemView>) -> nat
    decreases items.len(),
{
    if items.len() == 0 {
        0
    } else {
        total_size(items.drop_last()) + items.last().size
    }
}

/// The total size of the Items that may be reclaimed.
pub open spec fn reclaimable_size(items: Seq<ItemView>) -> nat {
    total_size(items.filter(|item: ItemView| item.may_reclaim()))
}

/// A whole Scan result: the classified Items plus the root that was walked.
#[derive(Debug, Default)]
pub struct Scan {
    pub root: DiskPath,
    pub items: Vec<Item>,
}

impl Scan {
    /// The Items of the Scan.
    pub open spec fn items_view(self) -> Seq<ItemView> {
        item_views(self.items@)
    }

    /// Total bytes reclaimable right now: neither Protected Items nor Items that
    /// still need an override count.
    pub fn reclaimable_bytes(&self) -> (r: u64)
        requires
            reclaimable_size(self.items_view()) <= u64::MAX,
        ensures
            r == reclaimable_size(self.items_view()),
    {
        let mut sum: u64 = 0;
        let mut i: usize = 0;
        let ghost all = self.items_view();
        let ghost may = |item: ItemView| item.may_reclaim();
        proof {
            reveal(Seq::filter);
        }
        while i < self.items.len()
            invariant
                i <= self.items@.len(),
                all == self.items_view(),
                may == (|item: ItemView| item.may_reclaim()),
                sum == total_size(all.take(i as int).filter(may)),
                total_size(all.filter(may)) <= u64::MAX,
            decreases self.items@.len() - i,
        {
            proof {
                reveal(Seq::filter);
                assert(all.take(i + 1).drop_last() == all.take(i as int));
                assert(all.take(i + 1).last() == self.items@[i as int]@);
                let kept = all.take(i as int).filter(may);
                if may(all[i as int]) {
                    assert(kept.push(all[i as int]).drop_last() == kept);
                    lemma_prefix_size(all, may, i + 1);
                }
            }
            if self.items[i].may_reclaim() {
                sum = sum + self.items[i].size_on_disk;
            }
            i = i + 1;
        }
        assert(all.take(all.len() as int) == all);
        sum
    }
}

proof fn lemma_prefix_size(items: Seq<ItemView>, keep: spec_fn(ItemView) -> bool, n: int)
    requires
        0 <= n <= items.len(),
    ensures
        total_size(items.take(n).filter(keep)) <= total_size(items.filter(keep)),
    decreases items.len() - n,
{
    reveal(Seq::filter);
    if n < items.len() {
        lemma_prefix_size(items, keep, n + 1);
        let kept = items.take(n).filter(keep);
        assert(items.take(n + 1).drop_last() == items.take(n));
        assert(kept.push(items[n]).drop_last() == kept);
    } else {
        assert(items.take(n) == items);
    }
}

/// What may be reclaimed is told by the class and the override alone: the four
/// classes that come back always, the two that the user must vouch for only with an
/// override, and what is Irreplaceable never.
pub proof fn law_what_may_be_reclaimed(item: ItemView)
    ensures
        item.class == SafetyClass::Regenerable || item.class == SafetyClass::Reinstallable
            || item.class == SafetyClass::Cache || item.class == SafetyClass::RedundantCopy
            ==> item.may_reclaim(),
        item.class == SafetyClass::Unclassified || item.class == SafetyClass::BrowserCache ==> (
        item.may_reclaim() <==> item.overridden),
        item.class == SafetyClass::Irreplaceable ==> !item.may_reclaim(),
{
}

/// One more Item adds its size to the total, and to what is reclaimable exactly if
/// it may be reclaimed. Nothing adds up to nothing.
pub proof fn law_sizes_add_up(items: Seq<ItemView>, item: ItemView)
    ensures
        total_size(Seq::empty()) == 0,
        reclaimable_size(Seq::empty()) == 0,
        total_size(items.push(item)) == total_size(items) + item.size,
        reclaimable_size(items.push(item)) == reclaimable_size(items) + if item.may_reclaim() {
            item.size
        } else {
            0
        },
{
    reveal(Seq::filter);
    let may = |item: ItemView| item.may_reclaim();
    let more = items.push(item);
    assert(more.drop_last() =~= items);
    let kept = items.filter(may);
    assert(kept.push(item).drop_last() =~= kept);
    assert(Seq::<ItemView>::empty().filter(may) =~= Seq::empty());
}

/// The user is told the very command that brings an Item back, or where the copy
/// lies that survives; and of an Unclassified Item, that it goes to the Trash.
pub proof fn law_the_way_back_is_told(item: ItemView)
    ensures
        item.class == SafetyClass::Unclassified ==> item.recovery_line()
            == "moved to Trash on Reclaim — restorable from there"@,
        item.class != SafetyClass::Unclassified ==> match item.recovery {
            RecoveryView::Rebuild { command } => item.recovery_line() == "rebuild via `"@ + command
                + "`"@,
            RecoveryView::Reinstall { command } => item.recovery_line() == "reinstall via `"@
                + command + "`"@,
            RecoveryView::AutoRefill => item.recovery_line()
                == "refills automatically on next use"@,
            RecoveryView::SurvivingCopy { original } => original.len() > 0 ==> item.recovery_line()
                == "the surviving copy at "@ + text::lossy_utf8(original),
            RecoveryView::NoRecovery => item.recovery_line() == "not recoverable"@,
        },
{
}

/// An Item is seen as it is: by its path, its size on disk, its class, its evidence,
/// how it comes back and whether it was overridden; and a Scan as its Items in their
/// order.
pub proof fn law_an_item_is_seen_as_it_is(scan: Scan, i: int)
    requires
        0 <= i < scan.items@.len(),
    ensures
        scan.items_view().len() == scan.items@.len(),
        ({
            let item = scan.items@[i];
            let seen = scan.items_view()[i];
            &&& seen == item@
            &&& seen.path == item.path.bytes@ && seen.size == item.size_on_disk
            &&& seen.class == item.class && seen.evidence == item.evidence.summary@
            &&& seen.overridden == item.override_reclaim
            &&& match item.recovery {
                RecoveryMethod::Rebuild { command } => seen.recovery == (RecoveryView::Rebuild {
                    command: command@,
                }),
                RecoveryMethod::Reinstall { command } => seen.recovery == (
                RecoveryView::Reinstall { command: command@ }),
                RecoveryMethod::AutoRefill => seen.recovery == RecoveryView::AutoRefill,
                RecoveryMethod::SurvivingCopy { original } => seen.recovery == (
                RecoveryView::SurvivingCopy { original: original.bytes@ }),
                RecoveryMethod::NoRecovery => seen.recovery == RecoveryView::NoRecovery,
            }
        }),
{
}

/// The name of a class is its own: no two classes are shown alike.
pub proof fn law_labels_tell_classes_apart(a: SafetyClass, b: SafetyClass)
    ensures
        class_label(a) == class_label(b) <==> a == b,
        class_label(SafetyClass::Regenerable) == "Regenerable"@,
        class_label(SafetyClass::Reinstallable) == "Reinstallable"@,
        class_label(SafetyClass::Cache) == "Cache"@,
        class_label(SafetyClass::RedundantCopy) == "Redundant Copy"@,
        class_label(SafetyClass::BrowserCache) == "BrowserCache"@,
        class_label(SafetyClass::Irreplaceable) == "Irreplaceable"@,
        class_label(SafetyClass::Unclassified) == "Unclassified"@,
{
    reveal_strlit("Regenerable");
    reveal_strlit("Reinstallable");
    reveal_strlit("Cache");
    reveal_strlit("Redundant Copy");
    reveal_strlit("BrowserCache");
    reveal_strlit("Irreplaceable");
    reveal_strlit("Unclassified");
    assert("Regenerable"@[2] == 'g' && "Reinstallable"@[2] == 'i' && "Cache"@[2] == 'c');
    assert("Redundant Copy"@[2] == 'd' && "BrowserCache"@[2] == 'o');
    assert("Irreplaceable"@[2] == 'r' && "Unclassified"@[0] == 'U' && "Cache"@[0] == 'C');
}

} // verus!
