//! The keys of the app at work: each is carried out as [`crate::state`] says.

use crate::groups;
use crate::groups::GroupSummary;
use crate::guarantees;
use crate::job;
use crate::job::QueuedItem;
use crate::job::ReclaimJob;
use crate::job::ReclaimMessage;
use crate::model;
use crate::model::Item;
use crate::model::ItemView;
use crate::model::SafetyClass;
use crate::model::Scan;
use crate::state;
use crate::state::AppState;
use crate::state::ConfirmTarget;
use crate::state::Key;
use crate::state::Mode;
use crate::state::Screen;
use crate::state::StateView;
use crate::text;
use vstd::prelude::*;

verus! {

/// "Item" or "Items".
pub fn item_word(count: usize) -> (r: &'static str)
    ensures
        r@ == state::item_word_text(count as nat),
{
    if count == 1 {
        "Item"
    } else {
        "Items"
    }
}

/// What the user is told of recovering a class.
pub fn class_recovery_hint(class: SafetyClass) -> (r: &'static str)
    ensures
        r@ == state::recovery_hint(class),
{
    match class {
        SafetyClass::Regenerable => "Recovery: rebuild after Reclaim",
        SafetyClass::Reinstallable => "Recovery: reinstall dependencies after Reclaim",
        SafetyClass::Cache => "Recovery: cache refills automatically",
        SafetyClass::RedundantCopy => "Recovery: the surviving copy remains",
        SafetyClass::BrowserCache => "Open group and override individual Items before Reclaim",
        SafetyClass::Unclassified => "Open group and override individual Items before Reclaim",
        SafetyClass::Irreplaceable => "Protected: not offered for Reclaim",
    }
}

/// Whether a key quits while the Scan is still running.
pub fn loading_quits(key: Key) -> (r: bool)
    ensures
        r == (key == Key::Char('q') || key == Key::Esc),
{
    matches!(key, Key::Char('q') | Key::Esc)
}

/// The group to highlight at the start.
pub fn select_default_group(scan: &Scan) -> (r: Option<usize>)
    requires
        model::total_size(scan.items_view()) <= u64::MAX,
    ensures
        state::is_default_group(groups::groups(scan.items_view()), r),
{
    let all: Vec<GroupSummary> = groups::group_summaries(scan);
    let ghost views = groups::group_views(all@);
    if all.len() == 0 {
        return None;
    }
    let mut best: usize = 0;
    let mut g: usize = 1;
    while g < all.len()
        invariant
            1 <= g <= all@.len(),
            best < g,
            views == groups::group_views(all@),
            forall|h: int|
                0 <= h < g ==> (#[trigger] views[h]).reclaimable_bytes
                    <= views[best as int].reclaimable_bytes,
            forall|h: int|
                best < h < g ==> (#[trigger] views[h]).reclaimable_bytes
                    < views[best as int].reclaimable_bytes || views[h].reclaimable_bytes == 0,
            views[best as int].reclaimable_bytes == 0 ==> best == 0,
        decreases all@.len() - g,
    {
        assert(views[g as int] == all@[g as int]@ && views[best as int] == all@[best as int]@);
        if all[g].reclaimable_bytes > 0 && all[g].reclaimable_bytes
            >= all[best].reclaimable_bytes {
            best = g;
        }
        g = g + 1;
    }
    Some(best)
}

/// Brings a highlight into a list of `len` rows.
fn clamp_list_selection(list: Option<usize>, len: usize) -> (r: Option<usize>)
    ensures
        r == state::clamped(list, len as nat),
{
    if len == 0 {
        None
    } else {
        match list {
            None => Some(0),
            Some(i) => if i >= len {
                Some(len - 1)
            } else {
                Some(i)
            },
        }
    }
}

/// `cur + delta`, going round at `len`.
fn wrapped(cur: usize, delta: i32, len: usize) -> (r: usize)
    requires
        len > 0,
    ensures
        r == (cur + delta) % (len as int),
        r < len,
{
    let m: u128 = len as u128;
    let sum: i128 = (cur as i128) + (delta as i128);
    if sum >= 0 {
        ((sum as u128) % m) as usize
    } else {
        let back: u128 = ((0 - sum) as u128) % m;
        let ghost q = ((0 - sum) as int) / (m as int);
        proof {
            vstd::arithmetic::div_mod::lemma_fundamental_div_mod((0 - sum) as int, m as int);
            assert(m * (-q - 1) == -(m * q) - m && m * (-q) == -(m * q)) by (nonlinear_arith);
        }
        if back == 0 {
            proof {
                vstd::arithmetic::div_mod::lemma_fundamental_div_mod_converse(
                    sum as int,
                    m as int,
                    -q,
                    0,
                );
            }
            0
        } else {
            proof {
                vstd::arithmetic::div_mod::lemma_fundamental_div_mod_converse(
                    sum as int,
                    m as int,
                    -q - 1,
                    m - back,
                );
            }
            (m - back) as usize
        }
    }
}

fn names_place(gone: &Vec<usize>, i: usize) -> (r: bool)
    ensures
        r == gone@.contains(i),
{
    let mut k: usize = 0;
    while k < gone.len()
        invariant
            k <= gone@.len(),
            forall|j: int| 0 <= j < k ==> gone@[j] != i,
        decreases gone@.len() - k,
    {
        if gone[k] == i {
            return true;
        }
        k = k + 1;
    }
    false
}

fn items_without(items: &Vec<Item>, gone: &Vec<usize>) -> (r: Vec<Item>)
    ensures
        model::item_views(r@) == state::without(model::item_views(items@), gone@),
{
    let ghost views = model::item_views(items@);
    let mut out: Vec<Item> = Vec::new();
    let mut i: usize = 0;
    assert(model::item_views(out@) =~= state::without(views.take(0), gone@));
    while i < items.len()
        invariant
            i <= items.len(),
            views == model::item_views(items@),
            model::item_views(out@) == state::without(views.take(i as int), gone@),
        decreases items@.len() - i,
    {
        let ghost before = out@;
        assert(views.take(i + 1).drop_last() =~= views.take(i as int));
        assert(views.take(i + 1).last() == items@[i as int]@);
        if !names_place(gone, i) {
            out.push(items[i].clone());
            assert(model::item_views(out@) =~= model::item_views(before).push(out@.last()@));
        }
        i = i + 1;
    }
    assert(views.take(views.len() as int) =~= views);
    out
}

fn ticks_without(ticked: &Vec<bool>, gone: &Vec<usize>) -> (r: Vec<bool>)
    ensures
        r@ == state::without(ticked@, gone@),
{
    let mut out: Vec<bool> = Vec::new();
    let mut i: usize = 0;
    assert(out@ =~= state::without(ticked@.take(0), gone@));
    while i < ticked.len()
        invariant
            i <= ticked.len(),
            out@ == state::without(ticked@.take(i as int), gone@),
        decreases ticked@.len() - i,
    {
        assert(ticked@.take(i + 1).drop_last() =~= ticked@.take(i as int));
        assert(ticked@.take(i + 1).last() == ticked@[i as int]);
        if !names_place(gone, i) {
            out.push(ticked[i]);
        }
        i = i + 1;
    }
    assert(ticked@.take(ticked@.len() as int) =~= ticked@);
    out
}

pub(crate) fn count_ticks(ticked: &Vec<bool>) -> (r: usize)
    ensures
        r == state::tick_count(ticked@),
{
    let mut count: usize = 0;
    let mut i: usize = 0;
    assert(state::tick_count(ticked@.take(0)) == 0);
    while i < ticked.len()
        invariant
            i <= ticked.len(),
            count <= i,
            count == state::tick_count(ticked@.take(i as int)),
        decreases ticked@.len() - i,
    {
        assert(ticked@.take(i + 1).drop_last() =~= ticked@.take(i as int));
        if ticked[i] {
            count = count + 1;
        }
        i = i + 1;
    }
    assert(ticked@.take(ticked@.len() as int) =~= ticked@);
    count
}

fn selection_text(ticked: &Vec<bool>) -> (r: String)
    ensures
        r@ == state::selection_status(ticked@),
{
    let count: usize = count_ticks(ticked);
    if count == 0 {
        "Selection cleared.".to_owned()
    } else {
        text::count_text(count).concat(" ").concat(item_word(count)).concat(
            " selected · c Confirm selection.",
        )
    }
}

fn group_refusal_text(class: SafetyClass) -> (r: String)
    ensures
        r@ == state::group_refusal(class),
{
    match class {
        SafetyClass::Unclassified =>
            "Unclassified is not offered. Open the group and press o on Items to override.".to_owned(),
        SafetyClass::BrowserCache =>
            "BrowserCache is not offered. Open the group and press o on Items to override.".to_owned(),
        SafetyClass::Irreplaceable => "Irreplaceable is Protected. Not reclaimable.".to_owned(),
        _ => class.label().to_owned().concat(" group has nothing reclaimable."),
    }
}

fn not_reclaimable_text(item: &Item) -> (r: String)
    ensures
        r@ == state::item_not_reclaimable(item@),
{
    item.path.display().concat(" is ").concat(item.class.label()).concat(". Not reclaimable.")
}

fn item_refusal_text(item: &Item) -> (r: String)
    ensures
        r@ == state::item_refusal(item@),
{
    if item.class.needs_override() {
        item.path.display().concat(" is ").concat(item.class.label()).concat(
            ". Press o to override before Reclaim.",
        )
    } else {
        not_reclaimable_text(item)
    }
}

fn override_text(item: &Item) -> (r: String)
    ensures
        r@ == state::override_status(item@),
{
    if !item.override_reclaim {
        "Override cleared.".to_owned()
    } else if item.class == SafetyClass::Unclassified {
        "Overridden → will Trash on Confirm: ".to_owned().concat(item.path.display().as_str())
    } else {
        "Overridden → will delete on Confirm: ".to_owned().concat(item.path.display().as_str())
    }
}

proof fn lemma_queue_congruent(
    items: Seq<ItemView>,
    a: spec_fn(int) -> bool,
    b: spec_fn(int) -> bool,
)
    requires
        forall|i: int| 0 <= i < items.len() ==> #[trigger] a(i) == b(i),
    ensures
        state::queue_of(items, a) == state::queue_of(items, b),
    decreases items.len(),
{
    if items.len() > 0 {
        lemma_queue_congruent(items.drop_last(), a, b);
        assert(a(items.len() - 1) == b(items.len() - 1));
    }
}

/// The Items that are flagged, each with its place.
fn queue_flagged(scan: &Scan, flags: &Vec<bool>) -> (r: Vec<QueuedItem>)
    requires
        flags@.len() == scan.items@.len(),
    ensures
        job::queue_view(r@) == state::queue_of(scan.items_view(), |i: int| flags@[i]),
{
    let ghost items = scan.items_view();
    let ghost chosen = |i: int| flags@[i];
    let mut out: Vec<QueuedItem> = Vec::new();
    let mut i: usize = 0;
    assert(job::queue_view(out@) =~= state::queue_of(items.take(0), chosen));
    while i < scan.items.len()
        invariant
            i <= scan.items.len(),
            flags@.len() == scan.items@.len(),
            items == scan.items_view(),
            chosen == (|i: int| flags@[i]),
            job::queue_view(out@) == state::queue_of(items.take(i as int), chosen),
        decreases scan.items@.len() - i,
    {
        let ghost before = out@;
        assert(items.take(i + 1).drop_last() =~= items.take(i as int));
        assert(items.take(i + 1).last() == scan.items@[i as int]@);
        if flags[i] {
            out.push(QueuedItem { index: i, item: scan.items[i].clone() });
            assert(job::queue_view(out@) =~= job::queue_view(before).push(
                (i, scan.items@[i as int]@),
            ));
        }
        i = i + 1;
    }
    assert(items.take(items.len() as int) =~= items);
    out
}

/// The Items that may be reclaimed, of one class or of all.
spec fn chosen_by(class: Option<SafetyClass>) -> spec_fn(ItemView) -> bool {
    match class {
        Some(class) => state::offered_of(class),
        None => state::offered(),
    }
}

fn flag_offered(scan: &Scan, class: Option<SafetyClass>) -> (r: Vec<bool>)
    ensures
        r@.len() == scan.items@.len(),
        forall|i: int|
            0 <= i < r@.len() ==> #[trigger] r@[i] == chosen_by(class)(scan.items_view()[i]),
{
    let mut out: Vec<bool> = Vec::new();
    let mut i: usize = 0;
    while i < scan.items.len()
        invariant
            i <= scan.items@.len(),
            out@.len() == i,
            forall|k: int|
                0 <= k < i ==> #[trigger] out@[k] == chosen_by(class)(scan.items_view()[k]),
        decreases scan.items@.len() - i,
    {
        let of_class: bool = match class {
            Some(class) => scan.items[i].class == class,
            None => true,
        };
        assert(scan.items_view()[i as int] == scan.items@[i as int]@);
        out.push(of_class && scan.items[i].may_reclaim());
        i = i + 1;
    }
    out
}

impl AppState {
    /// The app over a finished Scan.
    pub fn new(scan: Scan) -> (r: AppState)
        requires
            model::total_size(scan.items_view()) <= u64::MAX,
        ensures
            r@.valid(),
            r@.root == scan.root@,
            r@.items == scan.items_view(),
            r@.screen == Screen::Groups,
            state::is_default_group(groups::groups(scan.items_view()), r@.group_list),
            r@.item_list is None,
            forall|i: int| 0 <= i < r@.ticked.len() ==> !#[trigger] r@.ticked[i],
            r@.mode == Mode::Browse,
            r@.job is None,
            r@.status
                == "↑/↓ move · Enter open group · c Confirm group · t overview · q quit"@,
            !r@.show_overview,
    {
        let group_list: Option<usize> = select_default_group(&scan);
        let mut ticked: Vec<bool> = Vec::new();
        while ticked.len() < scan.items.len()
            invariant
                ticked@.len() <= scan.items@.len(),
                forall|i: int| 0 <= i < ticked@.len() ==> !#[trigger] ticked@[i],
            decreases scan.items@.len() - ticked@.len(),
        {
            ticked.push(false);
        }
        AppState {
            scan,
            screen: Screen::Groups,
            group_list,
            item_list: None,
            ticked,
            mode: Mode::Browse,
            reclaim_job: None,
            status:
                "↑/↓ move · Enter open group · c Confirm group · t overview · q quit".to_owned(),
            show_overview: false,
        }
    }

    /// The highlighted group.
    pub fn selected_group_summary(&self) -> (r: Option<GroupSummary>)
        requires
            self@.valid(),
        ensures
            match r {
                Some(group) => self@.group() == Some(group@),
                None => self@.group() is None,
            },
    {
        let all: Vec<GroupSummary> = groups::group_summaries(&self.scan);
        assert(groups::group_views(all@).len() == all@.len());
        match self.group_list {
            Some(i) => if i < all.len() {
                assert(groups::group_views(all@)[i as int] == all@[i as int]@);
                Some(all[i])
            } else {
                None
            },
            None => None,
        }
    }

    /// The place of the highlighted Item.
    pub fn selected_item_index(&self) -> (r: Option<usize>)
        ensures
            match r {
                Some(i) => self@.item_place() == Some(i as int) && i < self.scan.items@.len(),
                None => self@.item_place() is None,
            },
    {
        match self.screen {
            Screen::Items { class } => {
                let places: Vec<usize> = groups::item_indices_for_class(&self.scan, class);
                proof {
                    groups::law_places_of_a_class(self.scan.items_view(), class);
                }
                let ghost seen = places@.map_values(|i: usize| i as int);
                assert(seen.len() == places@.len());
                match self.item_list {
                    Some(k) => if k < places.len() {
                        assert(seen[k as int] == places@[k as int]);
                        Some(places[k])
                    } else {
                        None
                    },
                    None => None,
                }
            },
            Screen::Groups => None,
        }
    }

    /// Brings both highlights into their lists after Items have changed.
    pub fn sync_selection_after_items_changed(&mut self)
        requires
            model::total_size(old(self)@.items) <= u64::MAX,
        ensures
            final(self)@ == state::synced(old(self)@),
    {
        let ghost before = self@;
        if let Screen::Items { class } = self.screen {
            let places: Vec<usize> = groups::item_indices_for_class(&self.scan, class);
            assert(places@.map_values(|i: usize| i as int).len() == places@.len());
            let count: usize = places.len();
            if count == 0 {
                self.screen = Screen::Groups;
                self.item_list = None;
            } else {
                self.item_list = clamp_list_selection(self.item_list, count);
            }
        }
        let all: Vec<GroupSummary> = groups::group_summaries(&self.scan);
        assert(groups::group_views(all@).len() == all@.len());
        self.group_list = clamp_list_selection(self.group_list, all.len());
        assert(self@ =~= state::synced(before));
    }

    /// Moves the highlight by `delta` rows, going round at the ends.
    pub fn move_sel(&mut self, delta: i32)
        requires
            old(self)@.valid(),
        ensures
            final(self)@ == state::with_move(old(self)@, delta as int),
    {
        let ghost before = self@;
        match self.screen {
            Screen::Groups => {
                let all: Vec<GroupSummary> = groups::group_summaries(&self.scan);
                assert(groups::group_views(all@).len() == all@.len());
                if all.len() > 0 {
                    let cur: usize = match self.group_list {
                        Some(i) => i,
                        None => 0,
                    };
                    self.group_list = Some(wrapped(cur, delta, all.len()));
                }
            },
            Screen::Items { class } => {
                let places: Vec<usize> = groups::item_indices_for_class(&self.scan, class);
                assert(places@.map_values(|i: usize| i as int).len() == places@.len());
                if places.len() > 0 {
                    let cur: usize = match self.item_list {
                        Some(i) => i,
                        None => 0,
                    };
                    self.item_list = Some(wrapped(cur, delta, places.len()));
                }
            },
        }
        assert(self@ =~= state::with_move(before, delta as int));
    }

    /// Opens the highlighted group.
    pub fn open_selected_group(&mut self)
        requires
            old(self)@.valid(),
        ensures
            final(self)@ == state::with_group_open(old(self)@),
    {
        let ghost before = self@;
        if self.screen == Screen::Groups {
            if let Some(group) = self.selected_group_summary() {
                self.screen = Screen::Items { class: group.class };
                self.item_list = Some(0);
                self.status = group.class.label().to_owned().concat(" group open · ").concat(
                    text::count_text(group.count).as_str(),
                ).concat(" ").concat(item_word(group.count)).concat(" · ").concat(
                    class_recovery_hint(group.class),
                );
            }
        }
        assert(self@ =~= state::with_group_open(before));
    }

    /// Leaves the open group.
    pub fn back_to_groups(&mut self)
        ensures
            final(self)@ == state::with_groups_shown(old(self)@),
    {
        let ghost before = self@;
        if self.screen != Screen::Groups {
            self.screen = Screen::Groups;
            self.item_list = None;
            self.status = "Group view · Enter open group · c Confirm group · q quit.".to_owned();
        }
        assert(self@ =~= state::with_groups_shown(before));
    }

    /// Sets or clears the override of the highlighted Item.
    pub fn toggle_override(&mut self)
        requires
            old(self)@.valid(),
        ensures
            final(self)@ == state::with_override_toggled(old(self)@),
    {
        let ghost before = self@;
        match self.selected_item_index() {
            None => {
                self.status = "Open Unclassified to override individual Items.".to_owned();
                assert(self@ =~= state::with_override_toggled(before));
            },
            Some(i) => {
                assert(before.items[i as int] == self.scan.items@[i as int]@);
                if self.scan.items[i].class.needs_override() {
                    let overridden: bool = !self.scan.items[i].override_reclaim;
                    self.scan.items[i].override_reclaim = overridden;
                    if !overridden {
                        self.ticked[i] = false;
                    }
                    self.status = override_text(&self.scan.items[i]);
                    proof {
                        let next = state::overridden_as(before.items[i as int], overridden);
                        assert(self.scan.items_view() =~= before.items.update(i as int, next));
                        guarantees::lemma_update_size(before.items, i as int, next);
                        assert(self@ =~= (StateView {
                            items: before.items.update(i as int, next),
                            ticked: if overridden {
                                before.ticked
                            } else {
                                before.ticked.update(i as int, false)
                            },
                            status: state::override_status(next),
                            ..before
                        }));
                    }
                    self.sync_selection_after_items_changed();
                } else {
                    self.status = self.scan.items[i].class.label().to_owned().concat(
                        " cannot be overridden.",
                    );
                    assert(self@ =~= state::with_override_toggled(before));
                }
            },
        }
    }

    /// Shows or hides the overview.
    pub fn toggle_overview(&mut self)
        ensures
            final(self)@ == state::with_overview_toggled(old(self)@),
    {
        let ghost before = self@;
        self.show_overview = !self.show_overview;
        self.status = if self.show_overview {
            "Overview pane on · bars scaled by on-disk size (t to hide).".to_owned()
        } else {
            "Overview pane off.".to_owned()
        };
        assert(self@ =~= state::with_overview_toggled(before));
    }

    /// Whether a selection is built.
    pub fn has_selection(&self) -> (r: bool)
        ensures
            r == self@.has_selection(),
    {
        let mut i: usize = 0;
        while i < self.ticked.len()
            invariant
                i <= self.ticked@.len(),
                forall|k: int| 0 <= k < i ==> !#[trigger] self.ticked@[k],
            decreases self.ticked@.len() - i,
        {
            if self.ticked[i] {
                assert(self@.ticked[i as int]);
                return true;
            }
            i = i + 1;
        }
        assert(!self@.has_selection());
        false
    }

    /// First step of a Reclaim: if the selection, or the highlighted group or
    /// Item, may be reclaimed, open the Confirm modal; otherwise explain why it
    /// can't and stay in Browse. Nothing is deleted here.
    pub fn request_confirm(&mut self)
        requires
            old(self)@.valid(),
        ensures
            final(self)@ == state::with_confirm(old(self)@),
    {
        let ghost before = self@;
        if self.has_selection() {
            self.mode = Mode::Confirm { target: ConfirmTarget::Selection };
            assert(self@ =~= state::with_confirm(before));
        } else {
            match self.screen {
                Screen::Groups => self.request_group_confirm(),
                Screen::Items { .. } => self.request_item_confirm(),
            }
        }
    }

    /// Asks for a Confirm of the highlighted group.
    pub fn request_group_confirm(&mut self)
        requires
            old(self)@.valid(),
        ensures
            final(self)@ == state::with_group_confirm(old(self)@),
    {
        let ghost before = self@;
        if let Some(group) = self.selected_group_summary() {
            if group.reclaimable_count == 0 {
                self.status = group_refusal_text(group.class);
            } else {
                self.mode = Mode::Confirm {
                    target: ConfirmTarget::Group { class: group.class },
                };
            }
        }
        assert(self@ =~= state::with_group_confirm(before));
    }

    /// Asks for a Confirm of the highlighted Item.
    pub fn request_item_confirm(&mut self)
        requires
            old(self)@.valid(),
        ensures
            final(self)@ == state::with_item_confirm(old(self)@),
    {
        let ghost before = self@;
        if let Some(i) = self.selected_item_index() {
            assert(before.items[i as int] == self.scan.items@[i as int]@);
            if !self.scan.items[i].may_reclaim() {
                self.status = item_refusal_text(&self.scan.items[i]);
            } else {
                self.mode = Mode::Confirm { target: ConfirmTarget::Item { index: i } };
            }
        }
        assert(self@ =~= state::with_item_confirm(before));
    }

    fn toggle_ticks(&mut self, class: Option<SafetyClass>)
        requires
            old(self)@.valid(),
        ensures
            final(self)@ == state::with_ticks_toggled(old(self)@, chosen_by(class)),
    {
        let ghost before = self@;
        let ghost chosen = chosen_by(class);
        let flags: Vec<bool> = flag_offered(&self.scan, class);
        let mut all: bool = true;
        let mut i: usize = 0;
        while i < flags.len()
            invariant
                i <= flags@.len(),
                flags@.len() == self.ticked@.len(),
                all == forall|k: int| 0 <= k < i && #[trigger] flags@[k] ==> self.ticked@[k],
            decreases flags@.len() - i,
        {
            if flags[i] && !self.ticked[i] {
                all = false;
            }
            i = i + 1;
        }
        assert(all == state::all_ticked(before, chosen)) by {
            if all {
                assert forall|k: int|
                    0 <= k < before.items.len() && chosen(
                        #[trigger] before.items[k],
                    ) implies before.ticked[k] by {
                    assert(flags@[k]);
                }
            } else {
                let k = choose|k: int| 0 <= k < i && #[trigger] flags@[k] && !before.ticked[k];
                assert(chosen(before.items[k]));
            }
        }
        let ghost want = state::ticks_set(before, chosen, !all);
        let mut ticked: Vec<bool> = Vec::new();
        i = 0;
        while i < flags.len()
            invariant
                i <= flags@.len(),
                flags@.len() == self.ticked@.len(),
                flags@.len() == before.items.len(),
                before == self@,
                want == state::ticks_set(before, chosen, !all),
                forall|k: int| 0 <= k < flags@.len() ==> #[trigger] flags@[k] == chosen(before.items[k]),
                ticked@ == want.take(i as int),
            decreases flags@.len() - i,
        {
            ticked.push(
                if flags[i] {
                    !all
                } else {
                    self.ticked[i]
                },
            );
            assert(want.take(i + 1) =~= want.take(i as int).push(want[i as int]));
            i = i + 1;
        }
        assert(want.take(want.len() as int) =~= want);
        self.status = selection_text(&ticked);
        self.ticked = ticked;
        assert(self@ =~= state::with_ticks_toggled(before, chosen));
    }

    /// Ticks the highlighted Item or group into the selection, or out of it.
    pub fn toggle_tick(&mut self)
        requires
            old(self)@.valid(),
        ensures
            final(self)@ == state::with_tick(old(self)@),
    {
        let ghost before = self@;
        match self.screen {
            Screen::Groups => {
                if let Some(group) = self.selected_group_summary() {
                    if group.reclaimable_count == 0 {
                        self.status = group_refusal_text(group.class);
                        assert(self@ =~= state::with_tick(before));
                    } else {
                        self.toggle_ticks(Some(group.class));
                    }
                }
            },
            Screen::Items { .. } => {
                if let Some(i) = self.selected_item_index() {
                    assert(before.items[i as int] == self.scan.items@[i as int]@);
                    if !self.scan.items[i].may_reclaim() {
                        self.status = item_refusal_text(&self.scan.items[i]);
                    } else {
                        let ticked: bool = !self.ticked[i];
                        self.ticked[i] = ticked;
                        self.status = selection_text(&self.ticked);
                    }
                    assert(self@ =~= state::with_tick(before));
                }
            },
        }
    }

    /// Ticks everything that may be reclaimed, scan-wide, or clears the selection
    /// where all of it is ticked.
    pub fn toggle_all(&mut self)
        requires
            old(self)@.valid(),
        ensures
            final(self)@ == state::with_all_ticked(old(self)@),
    {
        let ghost before = self@;
        let mut any: bool = false;
        let mut i: usize = 0;
        while i < self.scan.items.len()
            invariant
                i <= self.scan.items@.len(),
                before == self@,
                any == exists|k: int| 0 <= k < i && (#[trigger] before.items[k]).may_reclaim(),
            decreases self.scan.items@.len() - i,
        {
            assert(before.items[i as int] == self.scan.items@[i as int]@);
            if self.scan.items[i].may_reclaim() {
                any = true;
            }
            i = i + 1;
        }
        if any {
            self.toggle_ticks(None);
        } else {
            self.status = "Nothing reclaimable to select.".to_owned();
            assert(self@ =~= state::with_all_ticked(before));
        }
    }

    fn begin_job(&mut self, queue: Vec<QueuedItem>, title: String, target_label: String)
        ensures
            final(self)@ == state::with_job(
                old(self)@,
                job::queue_view(queue@),
                title@,
                target_label@,
            ),
    {
        let ghost before = self@;
        self.reclaim_job = Some(job::start_job(queue, title, target_label));
        self.mode = Mode::Reclaiming;
        self.status = "Reclaim running. Only stop-after-current is available.".to_owned();
        assert(self@ =~= state::with_job(before, job::queue_view(queue@), title@, target_label@));
    }

    /// Starts the Reclaim that was confirmed.
    pub fn start_reclaim_job(&mut self, target: ConfirmTarget)
        requires
            old(self)@.valid(),
        ensures
            final(self)@ == state::with_job_started(old(self)@, target),
    {
        let ghost before = self@;
        match target {
            ConfirmTarget::Item { index } => {
                if index >= self.scan.items.len() {
                    self.status = "Item is no longer available.".to_owned();
                    assert(self@ =~= state::with_job_started(before, target));
                } else if !self.scan.items[index].may_reclaim() {
                    assert(before.items[index as int] == self.scan.items@[index as int]@);
                    self.status = not_reclaimable_text(&self.scan.items[index]);
                    assert(self@ =~= state::with_job_started(before, target));
                } else {
                    assert(before.items[index as int] == self.scan.items@[index as int]@);
                    let queue: Vec<QueuedItem> = vec![
                        QueuedItem { index, item: self.scan.items[index].clone() },
                    ];
                    assert(job::queue_view(queue@) =~= seq![(index, before.items[index as int])]);
                    self.begin_job(queue, "Reclaiming Item".to_owned(), "Item".to_owned());
                }
            },
            ConfirmTarget::Group { class } => {
                let flags: Vec<bool> = flag_offered(&self.scan, Some(class));
                let queue: Vec<QueuedItem> = queue_flagged(&self.scan, &flags);
                proof {
                    lemma_queue_congruent(
                        before.items,
                        |i: int| flags@[i],
                        |i: int|
                            before.items[i].class == class && before.items[i].may_reclaim(),
                    );
                    assert(job::queue_view(queue@).len() == queue@.len());
                }
                if queue.len() == 0 {
                    self.status = class.label().to_owned().concat(
                        " group has nothing reclaimable.",
                    );
                    assert(self@ =~= state::with_job_started(before, target));
                } else {
                    self.begin_job(
                        queue,
                        "Reclaiming ".to_owned().concat(class.label()).concat(" group"),
                        class.label().to_owned().concat(" Items"),
                    );
                }
            },
            ConfirmTarget::Selection => {
                let queue: Vec<QueuedItem> = queue_flagged(&self.scan, &self.ticked);
                assert(job::queue_view(queue@).len() == queue@.len());
                if queue.len() == 0 {
                    self.status = "Nothing is selected.".to_owned();
                    assert(self@ =~= state::with_job_started(before, target));
                } else {
                    self.begin_job(
                        queue,
                        "Reclaiming selection".to_owned(),
                        "selected Items".to_owned(),
                    );
                }
            },
        }
    }

    /// Asks the running Reclaim to stop before its next Item.
    pub fn request_stop_after_current(&mut self)
        ensures
            final(self)@ == state::with_stop_requested(old(self)@),
    {
        let ghost before = self@;
        match &mut self.reclaim_job {
            None => {},
            Some(running) => {
                if running.progress.total <= 1 {
                    self.status = "Current Item is already running; wait for completion.".to_owned();
                } else {
                    running.progress.stop_requested = true;
                    self.status =
                        "Stop requested. Current Item will finish; remaining Items will not start.".to_owned();
                }
            },
        }
        assert(self@ =~= state::with_stop_requested(before));
    }

    /// Apply one key press to the state. Returns `true` when the app should quit.
    pub fn handle_key(&mut self, key: Key) -> (r: bool)
        requires
            old(self)@.valid(),
        ensures
            final(self)@ == state::pressed(old(self)@, key),
            r == state::quits(old(self)@, key),
            final(self)@.valid(),
    {
        let ghost before = self@;
        proof {
            guarantees::law_keys_keep_the_app_valid(before, key);
        }
        match self.mode {
            Mode::Reclaiming => {
                match key {
                    Key::Char('s') | Key::Char('S') | Key::Esc => {
                        self.request_stop_after_current();
                    },
                    _ => {},
                }
                return false;
            },
            Mode::Confirm { target } => {
                // Only `y` reclaims; anything else cancels untouched.
                self.mode = Mode::Browse;
                assert(self@ =~= (StateView { mode: Mode::Browse, ..before }));
                match key {
                    Key::Char('y') | Key::Char('Y') => {
                        self.start_reclaim_job(target);
                    },
                    _ => {
                        self.status = "Reclaim cancelled. Nothing deleted.".to_owned();
                        assert(self@ =~= state::pressed(before, key));
                    },
                }
                return false;
            },
            Mode::Browse => {},
        }
        match key {
            Key::Char('q') => {
                return true;
            },
            Key::Esc => {
                if self.screen == Screen::Groups {
                    return true;
                }
                self.back_to_groups();
            },
            Key::Down | Key::Char('j') => {
                self.move_sel(1);
            },
            Key::Up | Key::Char('k') => {
                self.move_sel(-1);
            },
            Key::Left | Key::Backspace | Key::Char('b') => {
                self.back_to_groups();
            },
            Key::Right => {
                self.open_selected_group();
            },
            Key::Char('o') => {
                self.toggle_override();
            },
            Key::Char('t') => {
                self.toggle_overview();
            },
            Key::Char('c') => {
                self.request_confirm();
            },
            Key::Char(' ') => {
                self.toggle_tick();
            },
            Key::Char('a') => {
                self.toggle_all();
            },
            Key::Enter => match self.screen {
                Screen::Groups => {
                    self.open_selected_group();
                },
                Screen::Items { .. } => {
                    self.request_confirm();
                },
            },
            _ => {},
        }
        false
    }

    /// Ends a Reclaim: what was reclaimed leaves the Scan.
    pub fn finish_reclaim_job(&mut self)
        requires
            old(self)@.valid(),
        ensures
            final(self)@ == state::with_job_finished(old(self)@),
            final(self)@.valid(),
    {
        let ghost before = self@;
        let mut taken: Option<ReclaimJob> = None;
        std::mem::swap(&mut taken, &mut self.reclaim_job);
        if let Some(running) = taken {
            proof {
                guarantees::law_finishing_keeps_the_app_valid(before);
                guarantees::lemma_without_size(before.items, running.successful_indices@);
            }
            self.scan.items = items_without(&self.scan.items, &running.successful_indices);
            self.ticked = ticks_without(&self.ticked, &running.successful_indices);
            self.status = job::reclaim_finished_status(&running.progress, &running.last_success);
            self.mode = Mode::Browse;
            assert(self@ =~= (StateView {
                items: state::without(before.items, running@.successes),
                ticked: state::without(before.ticked, running@.successes),
                job: None,
                mode: Mode::Browse,
                status: job::finished_status(running@.progress, running@.last_success),
                ..before
            }));
            self.sync_selection_after_items_changed();
        } else {
            assert(self@ =~= before);
        }
    }

    /// Takes in one report of the worker.
    pub fn receive(&mut self, message: ReclaimMessage)
        requires
            old(self)@.valid(),
            old(self)@.job matches Some(running) ==> job::counts_fit(running.progress, message),
        ensures
            final(self)@ == state::received(old(self)@, message),
            final(self)@.valid(),
    {
        let ghost before = self@;
        let last: bool = match &message {
            ReclaimMessage::Finished { .. } | ReclaimMessage::Disconnected => true,
            _ => false,
        };
        let mut taken: Option<ReclaimJob> = None;
        std::mem::swap(&mut taken, &mut self.reclaim_job);
        if let Some(running) = taken {
            let mut running = running;
            running.advance(message);
            self.reclaim_job = Some(running);
            assert(self@ =~= (StateView {
                job: Some(job::advanced(before.job->0, message)),
                ..before
            }));
            assert(self@.valid());
            if last {
                self.finish_reclaim_job();
            }
        } else {
            assert(self@ =~= before);
        }
    }

    /// Whether the counters can take in all of the reports.
    pub fn can_drain(&self, messages: &Vec<ReclaimMessage>) -> (r: bool)
        ensures
            r == state::all_fit(self@, messages@),
    {
        match &self.reclaim_job {
            Some(running) => {
                let n: usize = messages.len();
                let mut bytes: u64 = running.progress.reclaimed_bytes;
                let mut i: usize = 0;
                assert(state::reported_bytes(messages@.take(0)) == 0);
                while i < messages.len()
                    invariant
                        i <= messages@.len(),
                        n == messages@.len(),
                        self.reclaim_job == Some(*running),
                        bytes == running.progress.reclaimed_bytes + state::reported_bytes(
                            messages@.take(i as int),
                        ),
                    decreases messages@.len() - i,
                {
                    proof {
                        assert(messages@.take(i + 1).drop_last() =~= messages@.take(i as int));
                        lemma_reported_prefix(messages@, i + 1);
                    }
                    if let ReclaimMessage::ItemFinished { bytes: more, .. } = &messages[i] {
                        match bytes.checked_add(*more) {
                            Some(sum) => {
                                bytes = sum;
                            },
                            None => {
                                return false;
                            },
                        }
                    }
                    i = i + 1;
                }
                assert(messages@.take(messages@.len() as int) =~= messages@);
                running.progress.completed <= usize::MAX - n && running.progress.reclaimed_count
                    <= usize::MAX - n && running.progress.failed_count <= usize::MAX - n
            },
            None => true,
        }
    }

    /// Takes in what the worker has reported, in order.
    pub fn drain_reclaim_messages(&mut self, messages: Vec<ReclaimMessage>)
        requires
            old(self)@.valid(),
            state::all_fit(old(self)@, messages@),
        ensures
            final(self)@ == state::drained(old(self)@, messages@),
            final(self)@.valid(),
    {
        let ghost before = self@;
        let mut rest: Vec<ReclaimMessage> = messages;
        let mut waiting: Vec<ReclaimMessage> = Vec::new();
        // Turned round, so that the first report is the last of the list.
        while rest.len() > 0
            invariant
                rest@.len() <= messages@.len(),
                rest@ == messages@.take(rest@.len() as int),
                waiting@ == messages@.skip(rest@.len() as int).reverse(),
            decreases rest@.len(),
        {
            let ghost held = rest@;
            if let Some(message) = rest.pop() {
                assert(message == messages@[held.len() - 1]);
                waiting.push(message);
                assert(messages@.skip(held.len() - 1).reverse() =~= messages@.skip(
                    held.len() as int,
                ).reverse().push(message));
                assert(rest@ =~= messages@.take(rest@.len() as int));
            }
        }
        assert(messages@.skip(0) =~= messages@);
        let ghost mut done: int = 0;
        assert(messages@.take(0) =~= Seq::empty());
        while waiting.len() > 0
            invariant
                0 <= done <= messages@.len(),
                waiting@ == messages@.skip(done).reverse(),
                before.valid(),
                state::all_fit(before, messages@),
                self@ == state::drained(before, messages@.take(done)),
                self@.valid(),
            decreases waiting@.len(),
        {
            if let Some(message) = waiting.pop() {
                assert(message == messages@[done]);
                proof {
                    assert(messages@.take(done + 1).drop_last() =~= messages@.take(done));
                    assert(messages@.take(done + 1).last() == message);
                    lemma_drained_counts(before, messages@.take(done));
                    lemma_reported_prefix(messages@, done + 1);
                    assert(waiting@ =~= messages@.skip(done + 1).reverse());
                }
                self.receive(message);
                proof {
                    done = done + 1;
                }
            }
        }
        assert(messages@.take(done) =~= messages@);
    }
}

proof fn lemma_reported_prefix(messages: Seq<ReclaimMessage>, n: int)
    requires
        0 <= n <= messages.len(),
    ensures
        state::reported_bytes(messages.take(n)) <= state::reported_bytes(messages),
    decreases messages.len() - n,
{
    if n < messages.len() {
        lemma_reported_prefix(messages, n + 1);
        assert(messages.take(n + 1).drop_last() =~= messages.take(n));
    } else {
        assert(messages.take(n) =~= messages);
    }
}

proof fn lemma_drained_counts(st: StateView, messages: Seq<ReclaimMessage>)
    ensures
        match state::drained(st, messages).job {
            Some(after) => {
                &&& st.job is Some
                &&& after.progress.completed <= st.job->0.progress.completed + messages.len()
                &&& after.progress.reclaimed_count <= st.job->0.progress.reclaimed_count
                    + messages.len()
                &&& after.progress.failed_count <= st.job->0.progress.failed_count
                    + messages.len()
                &&& after.progress.reclaimed_bytes <= st.job->0.progress.reclaimed_bytes
                    + state::reported_bytes(messages)
            },
            None => true,
        },
    decreases messages.len(),
{
    if messages.len() > 0 {
        lemma_drained_counts(st, messages.drop_last());
    }
}

} // verus!
