//! What the app shows and what a key does to it: a grouped view by Safety Class
//! with drill-down into Items. Deletion happens only through a deliberate
//! Confirm; there is no single-key path from Scan to deletion.

use crate::groups;
use crate::groups::GroupView;
use crate::job;
use crate::job::JobView;
use crate::job::ReclaimJob;
use crate::job::ReclaimMessage;
use crate::model;
use crate::model::Item;
use crate::model::ItemView;
use crate::model::SafetyClass;
use crate::model::Scan;
use crate::text;
use vstd::prelude::*;

verus! {

/// What the list shows.
#[derive(Debug, Clone, Copy, PartialEq, Eq, Structural)]
pub enum Screen {
    Groups,
    Items { class: SafetyClass },
}

/// What a Confirm is about.
#[derive(Debug, Clone, Copy, PartialEq, Eq, Structural)]
pub enum ConfirmTarget {
    Item { index: usize },
    Group { class: SafetyClass },
    /// The Items that are ticked.
    Selection,
}

/// What the app is doing. Reclaim is a two-step: a reclaim key in `Browse` opens
/// the `Confirm` modal, and only a `y` there deletes anything.
#[derive(Debug, Clone, Copy, PartialEq, Eq, Structural)]
pub enum Mode {
    Browse,
    Confirm { target: ConfirmTarget },
    Reclaiming,
}

/// A key.
#[derive(Debug, Clone, Copy, PartialEq, Eq, Structural)]
pub enum Key {
    Char(char),
    Up,
    Down,
    Left,
    Right,
    Enter,
    Esc,
    Backspace,
    Other,
}

/// Everything the app shows.
#[derive(Debug)]
pub struct AppState {
    pub scan: Scan,
    pub screen: Screen,
    /// The highlighted group.
    pub group_list: Option<usize>,
    /// The highlighted Item of the open group.
    pub item_list: Option<usize>,
    /// Which Items are in the selection.
    pub ticked: Vec<bool>,
    pub mode: Mode,
    pub reclaim_job: Option<ReclaimJob>,
    pub status: String,
    /// Whether the proportional on-disk-usage overview pane is shown to the left
    /// of the action list. Off by default.
    pub show_overview: bool,
}

/// What an [`AppState`] says.
#[verifier::ext_equal]
pub struct StateView {
    pub root: Seq<u8>,
    pub items: Seq<ItemView>,
    pub screen: Screen,
    pub group_list: Option<usize>,
    pub item_list: Option<usize>,
    pub ticked: Seq<bool>,
    pub mode: Mode,
    pub job: Option<JobView>,
    pub status: Seq<char>,
    pub show_overview: bool,
}

/// What an optional Reclaim says.
pub open spec fn job_view(reclaim_job: Option<ReclaimJob>) -> Option<JobView> {
    match reclaim_job {
        Some(running) => Some(running@),
        None => None,
    }
}

impl View for AppState {
    type V = StateView;

    open spec fn view(&self) -> StateView {
        StateView {
            root: self.scan.root@,
            items: self.scan.items_view(),
            screen: self.screen,
            group_list: self.group_list,
            item_list: self.item_list,
            ticked: self.ticked@,
            mode: self.mode,
            job: job_view(self.reclaim_job),
            status: self.status@,
            show_overview: self.show_overview,
        }
    }
}

/// Whether the Item at `i` waits in the queue under its own place, and may be
/// reclaimed.
pub open spec fn queued_right(items: Seq<ItemView>, queued: (usize, ItemView)) -> bool {
    queued.0 < items.len() && queued.1 == items[queued.0 as int] && queued.1.may_reclaim()
}

impl StateView {
    /// What always holds of the app: all Items and their sizes can be counted; only what
    /// may be reclaimed is ticked or queued; a Reclaim runs exactly while the mode
    /// says so.
    pub open spec fn valid(self) -> bool {
        &&& self.items.len() <= usize::MAX
        &&& model::total_size(self.items) <= u64::MAX
        &&& self.ticked.len() == self.items.len()
        &&& forall|i: int|
            0 <= i < self.items.len() && #[trigger] self.ticked[i] ==> self.items[i].may_reclaim()
        &&& self.mode == Mode::Reclaiming <==> self.job is Some
        &&& match self.job {
            Some(running) => running.queue.len() > 0 && forall|q: int|
                0 <= q < running.queue.len() ==> queued_right(
                    self.items,
                    #[trigger] running.queue[q],
                ),
            None => true,
        }
    }

    /// The highlighted group.
    pub open spec fn group(self) -> Option<GroupView> {
        let all = groups::groups(self.items);
        match self.group_list {
            Some(i) => if i < all.len() {
                Some(all[i as int])
            } else {
                None
            },
            None => None,
        }
    }

    /// The place of the highlighted Item.
    pub open spec fn item_place(self) -> Option<int> {
        match self.screen {
            Screen::Items { class } => {
                let places = groups::places_of(self.items, class);
                match self.item_list {
                    Some(k) => if k < places.len() {
                        Some(places[k as int])
                    } else {
                        None
                    },
                    None => None,
                }
            },
            Screen::Groups => None,
        }
    }

    /// How many rows the list has.
    pub open spec fn rows(self) -> nat {
        match self.screen {
            Screen::Groups => groups::groups(self.items).len(),
            Screen::Items { class } => groups::places_of(self.items, class).len(),
        }
    }

    /// Whether some Item is ticked.
    pub open spec fn has_selection(self) -> bool {
        exists|i: int| 0 <= i < self.ticked.len() && #[trigger] self.ticked[i]
    }
}

/// A highlight brought into a list of `len` rows: none in an empty list, the
/// first where there was none, the last where it lay beyond.
pub open spec fn clamped(selected: Option<usize>, len: nat) -> Option<usize> {
    if len == 0 {
        None
    } else {
        match selected {
            None => Some(0),
            Some(i) => if i >= len {
                Some((len - 1) as usize)
            } else {
                Some(i)
            },
        }
    }
}

/// Both highlights brought into their lists. A group that has become empty is
/// left.
pub open spec fn synced(st: StateView) -> StateView {
    let group_list = clamped(st.group_list, groups::groups(st.items).len());
    match st.screen {
        Screen::Items { class } => {
            let len = groups::places_of(st.items, class).len();
            if len == 0 {
                StateView { screen: Screen::Groups, item_list: None, group_list, ..st }
            } else {
                StateView { item_list: clamped(st.item_list, len), group_list, ..st }
            }
        },
        Screen::Groups => StateView { group_list, ..st },
    }
}

/// Whether the group at `g` is highlighted at the start: the one with the most
/// reclaimable bytes, the last of several, or the first group where nothing is
/// reclaimable.
pub open spec fn is_default_group(all: Seq<GroupView>, selected: Option<usize>) -> bool {
    match selected {
        None => all.len() == 0,
        Some(g) => {
            &&& g < all.len()
            &&& if all[g as int].reclaimable_bytes > 0 {
                &&& forall|h: int|
                    0 <= h < all.len() ==> (#[trigger] all[h]).reclaimable_bytes
                        <= all[g as int].reclaimable_bytes
                &&& forall|h: int|
                    g < h < all.len() ==> (#[trigger] all[h]).reclaimable_bytes
                        < all[g as int].reclaimable_bytes
            } else {
                g == 0 && forall|h: int|
                    0 <= h < all.len() ==> (#[trigger] all[h]).reclaimable_bytes == 0
            }
        },
    }
}

/// "Item" or "Items".
pub open spec fn item_word_text(count: nat) -> Seq<char> {
    if count == 1 {
        "Item"@
    } else {
        "Items"@
    }
}

/// What the user is told of recovering a class.
pub open spec fn recovery_hint(class: SafetyClass) -> Seq<char> {
    match class {
        SafetyClass::Regenerable => "Recovery: rebuild after Reclaim"@,
        SafetyClass::Reinstallable => "Recovery: reinstall dependencies after Reclaim"@,
        SafetyClass::Cache => "Recovery: cache refills automatically"@,
        SafetyClass::RedundantCopy => "Recovery: the surviving copy remains"@,
        SafetyClass::BrowserCache => "Open group and override individual Items before Reclaim"@,
        SafetyClass::Unclassified => "Open group and override individual Items before Reclaim"@,
        SafetyClass::Irreplaceable => "Protected: not offered for Reclaim"@,
    }
}

/// The highlight one row further, or one back, going round at the ends.
pub open spec fn moved(selected: Option<usize>, delta: int, len: nat) -> Option<usize> {
    let cur = match selected {
        Some(i) => i as int,
        None => 0,
    };
    Some(((cur + delta) % (len as int)) as usize)
}

/// Moves the highlight.
pub open spec fn with_move(st: StateView, delta: int) -> StateView {
    if st.rows() == 0 {
        st
    } else {
        match st.screen {
            Screen::Groups => StateView { group_list: moved(st.group_list, delta, st.rows()), ..st },
            Screen::Items { .. } => StateView {
                item_list: moved(st.item_list, delta, st.rows()),
                ..st
            },
        }
    }
}

/// Opens the highlighted group.
pub open spec fn with_group_open(st: StateView) -> StateView {
    if st.screen != Screen::Groups {
        st
    } else {
        match st.group() {
            Some(group) => StateView {
                screen: Screen::Items { class: group.class },
                item_list: Some(0),
                status: model::class_label(group.class) + " group open · "@ + text::decimal(
                    group.count,
                ) + " "@ + item_word_text(group.count) + " · "@ + recovery_hint(group.class),
                ..st
            },
            None => st,
        }
    }
}

/// Leaves the open group.
pub open spec fn with_groups_shown(st: StateView) -> StateView {
    if st.screen == Screen::Groups {
        st
    } else {
        StateView {
            screen: Screen::Groups,
            item_list: None,
            status: "Group view · Enter open group · c Confirm group · q quit."@,
            ..st
        }
    }
}

/// An Item with its override set or cleared.
pub open spec fn overridden_as(item: ItemView, overridden: bool) -> ItemView {
    ItemView { overridden, ..item }
}

/// What the user is told of an override.
pub open spec fn override_status(item: ItemView) -> Seq<char> {
    if !item.overridden {
        "Override cleared."@
    } else if item.class == SafetyClass::Unclassified {
        "Overridden → will Trash on Confirm: "@ + text::lossy_utf8(item.path)
    } else {
        "Overridden → will delete on Confirm: "@ + text::lossy_utf8(item.path)
    }
}

/// Sets or clears the override of the highlighted Item. An Item whose override is
/// cleared leaves the selection.
pub open spec fn with_override_toggled(st: StateView) -> StateView {
    match st.item_place() {
        None => StateView { status: "Open Unclassified to override individual Items."@, ..st },
        Some(i) => {
            let item = st.items[i];
            if model::override_class(item.class) {
                let next = overridden_as(item, !item.overridden);
                synced(
                    StateView {
                        items: st.items.update(i, next),
                        ticked: if next.overridden {
                            st.ticked
                        } else {
                            st.ticked.update(i, false)
                        },
                        status: override_status(next),
                        ..st
                    },
                )
            } else {
                StateView {
                    status: model::class_label(item.class) + " cannot be overridden."@,
                    ..st
                }
            }
        },
    }
}

/// Shows or hides the overview.
pub open spec fn with_overview_toggled(st: StateView) -> StateView {
    StateView {
        show_overview: !st.show_overview,
        status: if !st.show_overview {
            "Overview pane on · bars scaled by on-disk size (t to hide)."@
        } else {
            "Overview pane off."@
        },
        ..st
    }
}

/// Why nothing of a group may be reclaimed.
pub open spec fn group_refusal(class: SafetyClass) -> Seq<char> {
    match class {
        SafetyClass::Unclassified =>
            "Unclassified is not offered. Open the group and press o on Items to override."@,
        SafetyClass::BrowserCache =>
            "BrowserCache is not offered. Open the group and press o on Items to override."@,
        SafetyClass::Irreplaceable => "Irreplaceable is Protected. Not reclaimable."@,
        _ => model::class_label(class) + " group has nothing reclaimable."@,
    }
}

/// Why an Item may not be reclaimed.
pub open spec fn item_refusal(item: ItemView) -> Seq<char> {
    if model::override_class(item.class) {
        text::lossy_utf8(item.path) + " is "@ + model::class_label(item.class)
            + ". Press o to override before Reclaim."@
    } else {
        item_not_reclaimable(item)
    }
}

/// That an Item is not reclaimable.
pub open spec fn item_not_reclaimable(item: ItemView) -> Seq<char> {
    text::lossy_utf8(item.path) + " is "@ + model::class_label(item.class)
        + ". Not reclaimable."@
}

/// Asks for a Confirm of the highlighted group.
pub open spec fn with_group_confirm(st: StateView) -> StateView {
    match st.group() {
        None => st,
        Some(group) => if group.reclaimable_count == 0 {
            StateView { status: group_refusal(group.class), ..st }
        } else {
            StateView {
                mode: Mode::Confirm { target: ConfirmTarget::Group { class: group.class } },
                ..st
            }
        },
    }
}

/// Asks for a Confirm of the highlighted Item.
pub open spec fn with_item_confirm(st: StateView) -> StateView {
    match st.item_place() {
        None => st,
        Some(i) => if !st.items[i].may_reclaim() {
            StateView { status: item_refusal(st.items[i]), ..st }
        } else {
            StateView {
                mode: Mode::Confirm { target: ConfirmTarget::Item { index: i as usize } },
                ..st
            }
        },
    }
}

/// Asks for a Confirm: of the selection if one is built, else of what is
/// highlighted. Nothing is deleted here.
pub open spec fn with_confirm(st: StateView) -> StateView {
    if st.has_selection() {
        StateView { mode: Mode::Confirm { target: ConfirmTarget::Selection }, ..st }
    } else {
        match st.screen {
            Screen::Groups => with_group_confirm(st),
            Screen::Items { .. } => with_item_confirm(st),
        }
    }
}

/// The ticks once all Items that `chosen` picks are ticked, or all cleared.
pub open spec fn ticks_set(
    st: StateView,
    chosen: spec_fn(ItemView) -> bool,
    tick: bool,
) -> Seq<bool> {
    Seq::new(
        st.ticked.len(),
        |i: int|
            if chosen(st.items[i]) {
                tick
            } else {
                st.ticked[i]
            },
    )
}

/// Whether every Item that `chosen` picks is ticked.
pub open spec fn all_ticked(st: StateView, chosen: spec_fn(ItemView) -> bool) -> bool {
    forall|i: int|
        0 <= i < st.items.len() && chosen(#[trigger] st.items[i]) ==> st.ticked[i]
}

/// How many Items are ticked.
pub open spec fn tick_count(ticked: Seq<bool>) -> nat
    decreases ticked.len(),
{
    if ticked.len() == 0 {
        0
    } else {
        tick_count(ticked.drop_last()) + if ticked.last() {
            1nat
        } else {
            0nat
        }
    }
}

/// What the user is told of the selection.
pub open spec fn selection_status(ticked: Seq<bool>) -> Seq<char> {
    let count = tick_count(ticked);
    if count == 0 {
        "Selection cleared."@
    } else {
        text::decimal(count) + " "@ + item_word_text(count) + " selected · c Confirm selection."@
    }
}

/// Ticks all Items that `chosen` picks, or clears them where all are ticked.
pub open spec fn with_ticks_toggled(
    st: StateView,
    chosen: spec_fn(ItemView) -> bool,
) -> StateView {
    let ticked = ticks_set(st, chosen, !all_ticked(st, chosen));
    StateView { ticked, status: selection_status(ticked), ..st }
}

/// The Items of a class that may be reclaimed.
pub open spec fn offered_of(class: SafetyClass) -> spec_fn(ItemView) -> bool {
    |item: ItemView| item.class == class && item.may_reclaim()
}

/// All Items that may be reclaimed.
pub open spec fn offered() -> spec_fn(ItemView) -> bool {
    |item: ItemView| item.may_reclaim()
}

/// Ticks the highlighted Item, or all of the highlighted group that may be
/// reclaimed, into the selection, or out of it.
pub open spec fn with_tick(st: StateView) -> StateView {
    match st.screen {
        Screen::Groups => match st.group() {
            None => st,
            Some(group) => if group.reclaimable_count == 0 {
                StateView { status: group_refusal(group.class), ..st }
            } else {
                with_ticks_toggled(st, offered_of(group.class))
            },
        },
        Screen::Items { .. } => match st.item_place() {
            None => st,
            Some(i) => if !st.items[i].may_reclaim() {
                StateView { status: item_refusal(st.items[i]), ..st }
            } else {
                let ticked = st.ticked.update(i, !st.ticked[i]);
                StateView { ticked, status: selection_status(ticked), ..st }
            },
        },
    }
}

/// Ticks everything that may be reclaimed, scan-wide, or clears the selection
/// where all of it is ticked.
pub open spec fn with_all_ticked(st: StateView) -> StateView {
    if exists|i: int| 0 <= i < st.items.len() && (#[trigger] st.items[i]).may_reclaim() {
        with_ticks_toggled(st, offered())
    } else {
        StateView { status: "Nothing reclaimable to select."@, ..st }
    }
}

/// The Items that `chosen` picks by place, each with its place.
pub open spec fn queue_of(items: Seq<ItemView>, chosen: spec_fn(int) -> bool) -> Seq<
    (usize, ItemView),
>
    decreases items.len(),
{
    if items.len() == 0 {
        Seq::empty()
    } else {
        let before = queue_of(items.drop_last(), chosen);
        let i = items.len() - 1;
        if chosen(i) {
            before.push((i as usize, items[i]))
        } else {
            before
        }
    }
}

/// Starts a Reclaim of a queue.
pub open spec fn with_job(
    st: StateView,
    queue: Seq<(usize, ItemView)>,
    title: Seq<char>,
    target_label: Seq<char>,
) -> StateView {
    StateView {
        job: Some(job::new_job(queue, title, target_label)),
        mode: Mode::Reclaiming,
        status: "Reclaim running. Only stop-after-current is available."@,
        ..st
    }
}

/// Starts the Reclaim that was confirmed, unless there is nothing left of it.
pub open spec fn with_job_started(st: StateView, target: ConfirmTarget) -> StateView {
    match target {
        ConfirmTarget::Item { index } => if index >= st.items.len() {
            StateView { status: "Item is no longer available."@, ..st }
        } else if !st.items[index as int].may_reclaim() {
            StateView { status: item_not_reclaimable(st.items[index as int]), ..st }
        } else {
            with_job(
                st,
                seq![(index, st.items[index as int])],
                "Reclaiming Item"@,
                "Item"@,
            )
        },
        ConfirmTarget::Group { class } => {
            let queue = queue_of(
                st.items,
                |i: int| st.items[i].class == class && st.items[i].may_reclaim(),
            );
            if queue.len() == 0 {
                StateView {
                    status: model::class_label(class) + " group has nothing reclaimable."@,
                    ..st
                }
            } else {
                with_job(
                    st,
                    queue,
                    "Reclaiming "@ + model::class_label(class) + " group"@,
                    model::class_label(class) + " Items"@,
                )
            }
        },
        ConfirmTarget::Selection => {
            let queue = queue_of(st.items, |i: int| st.ticked[i]);
            if queue.len() == 0 {
                StateView { status: "Nothing is selected."@, ..st }
            } else {
                with_job(st, queue, "Reclaiming selection"@, "selected Items"@)
            }
        },
    }
}

/// Asks the running Reclaim to stop before its next Item.
pub open spec fn with_stop_requested(st: StateView) -> StateView {
    match st.job {
        None => st,
        Some(running) => if running.progress.total <= 1 {
            StateView { status: "Current Item is already running; wait for completion."@, ..st }
        } else {
            StateView {
                job: Some(
                    JobView {
                        progress: job::ProgressView { stop_requested: true, ..running.progress },
                        ..running
                    },
                ),
                status:
                    "Stop requested. Current Item will finish; remaining Items will not start."@,
                ..st
            }
        },
    }
}

/// Whether a key asks a running Reclaim to stop.
pub open spec fn is_stop_key(key: Key) -> bool {
    key == Key::Char('s') || key == Key::Char('S') || key == Key::Esc
}

/// Whether a key confirms.
pub open spec fn is_yes_key(key: Key) -> bool {
    key == Key::Char('y') || key == Key::Char('Y')
}

/// What a key does while browsing.
pub open spec fn browsed(st: StateView, key: Key) -> StateView {
    match key {
        Key::Char('q') => st,
        Key::Esc => with_groups_shown(st),
        Key::Down => with_move(st, 1),
        Key::Char('j') => with_move(st, 1),
        Key::Up => with_move(st, -1),
        Key::Char('k') => with_move(st, -1),
        Key::Left => with_groups_shown(st),
        Key::Backspace => with_groups_shown(st),
        Key::Char('b') => with_groups_shown(st),
        Key::Right => with_group_open(st),
        Key::Char('o') => with_override_toggled(st),
        Key::Char('t') => with_overview_toggled(st),
        Key::Char('c') => with_confirm(st),
        Key::Char(' ') => with_tick(st),
        Key::Char('a') => with_all_ticked(st),
        Key::Enter => match st.screen {
            Screen::Groups => with_group_open(st),
            Screen::Items { .. } => with_confirm(st),
        },
        _ => st,
    }
}

/// What a key does. While a Reclaim runs only a stop can be asked for; in the
/// Confirm modal only `y` reclaims, and anything else cancels.
pub open spec fn pressed(st: StateView, key: Key) -> StateView {
    match st.mode {
        Mode::Reclaiming => if is_stop_key(key) {
            with_stop_requested(st)
        } else {
            st
        },
        Mode::Confirm { target } => if is_yes_key(key) {
            with_job_started(StateView { mode: Mode::Browse, ..st }, target)
        } else {
            StateView {
                mode: Mode::Browse,
                status: "Reclaim cancelled. Nothing deleted."@,
                ..st
            }
        },
        Mode::Browse => browsed(st, key),
    }
}

/// Whether a key quits the app.
pub open spec fn quits(st: StateView, key: Key) -> bool {
    st.mode == Mode::Browse && (key == Key::Char('q') || (key == Key::Esc && st.screen
        == Screen::Groups))
}

/// The entries of a list without those at the places `gone`.
pub open spec fn without<T>(s: Seq<T>, gone: Seq<usize>) -> Seq<T>
    decreases s.len(),
{
    if s.len() == 0 {
        Seq::empty()
    } else {
        let before = without(s.drop_last(), gone);
        if gone.contains((s.len() - 1) as usize) {
            before
        } else {
            before.push(s.last())
        }
    }
}

/// Ends a Reclaim: what was reclaimed leaves the Scan.
pub open spec fn with_job_finished(st: StateView) -> StateView {
    match st.job {
        None => st,
        Some(running) => synced(
            StateView {
                items: without(st.items, running.successes),
                ticked: without(st.ticked, running.successes),
                job: None,
                mode: Mode::Browse,
                status: job::finished_status(running.progress, running.last_success),
                ..st
            },
        ),
    }
}

/// What a report of the worker does.
pub open spec fn received(st: StateView, message: ReclaimMessage) -> StateView {
    match st.job {
        None => st,
        Some(running) => {
            let next = StateView { job: Some(job::advanced(running, message)), ..st };
            if job::ends(message) {
                with_job_finished(next)
            } else {
                next
            }
        },
    }
}

/// What several reports do, one after the other. Once a Reclaim has ended, the
/// rest of them do nothing.
pub open spec fn drained(st: StateView, messages: Seq<ReclaimMessage>) -> StateView
    decreases messages.len(),
{
    if messages.len() == 0 {
        st
    } else {
        received(drained(st, messages.drop_last()), messages.last())
    }
}

/// The bytes that reports count.
pub open spec fn reported_bytes(messages: Seq<ReclaimMessage>) -> nat
    decreases messages.len(),
{
    if messages.len() == 0 {
        0
    } else {
        reported_bytes(messages.drop_last()) + match messages.last() {
            ReclaimMessage::ItemFinished { bytes, .. } => bytes as nat,
            _ => 0,
        }
    }
}

/// Whether the counters can take in all of the reports.
pub open spec fn all_fit(st: StateView, messages: Seq<ReclaimMessage>) -> bool {
    match st.job {
        Some(running) => {
            &&& running.progress.completed + messages.len() <= usize::MAX
            &&& running.progress.reclaimed_count + messages.len() <= usize::MAX
            &&& running.progress.failed_count + messages.len() <= usize::MAX
            &&& running.progress.reclaimed_bytes + reported_bytes(messages) <= u64::MAX
        },
        None => true,
    }
}

} // verus!
