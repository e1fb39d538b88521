//! What holds of the app whatever keys are pressed and whatever its worker reports.

use crate::groups;
use crate::job;
use crate::job::ReclaimMessage;
use crate::modal;
use crate::model;
use crate::model::ItemView;
use crate::model::SafetyClass;
use crate::state;
use crate::state::ConfirmTarget;
use crate::state::Key;
use crate::state::Mode;
use crate::state::Screen;
use crate::state::StateView;
use vstd::prelude::*;

verus! {

/// Changing an Item without resizing it keeps the total.
pub proof fn lemma_update_size(items: Seq<ItemView>, i: int, item: ItemView)
    requires
        0 <= i < items.len(),
        item.size == items[i].size,
    ensures
        model::total_size(items.update(i, item)) == model::total_size(items),
    decreases items.len(),
{
    if i < items.len() - 1 {
        lemma_update_size(items.drop_last(), i, item);
        assert(items.update(i, item).drop_last() =~= items.drop_last().update(i, item));
    } else {
        assert(items.update(i, item).drop_last() =~= items.drop_last());
    }
}

/// Removing places does not add to the sizes.
pub proof fn lemma_without_size(items: Seq<ItemView>, gone: Seq<usize>)
    ensures
        model::total_size(state::without(items, gone)) <= model::total_size(items),
    decreases items.len(),
{
    if items.len() > 0 {
        lemma_without_size(items.drop_last(), gone);
        let before = state::without(items.drop_last(), gone);
        assert(before.push(items.last()).drop_last() =~= before);
    }
}

proof fn lemma_without_pairs(items: Seq<ItemView>, ticked: Seq<bool>, gone: Seq<usize>)
    requires
        items.len() == ticked.len(),
        forall|i: int| 0 <= i < items.len() && #[trigger] ticked[i] ==> items[i].may_reclaim(),
    ensures
        state::without(items, gone).len() == state::without(ticked, gone).len(),
        state::without(items, gone).len() <= items.len(),
        forall|i: int|
            0 <= i < state::without(items, gone).len() && #[trigger] state::without(
                ticked,
                gone,
            )[i] ==> state::without(items, gone)[i].may_reclaim(),
    decreases items.len(),
{
    if items.len() > 0 {
        assert forall|i: int|
            0 <= i < items.len() - 1 && #[trigger] ticked.drop_last()[i] implies items.drop_last()[i].may_reclaim() by {
            assert(ticked[i]);
        }
        lemma_without_pairs(items.drop_last(), ticked.drop_last(), gone);
        assert(ticked.last() == ticked[ticked.len() - 1]);
    }
}

/// Whether the entry at `q` of a queue is an Item that was chosen, under its own
/// place.
proof fn lemma_queue_right(items: Seq<ItemView>, chosen: spec_fn(int) -> bool)
    requires
        items.len() <= usize::MAX,
        forall|i: int| 0 <= i < items.len() && #[trigger] chosen(i) ==> items[i].may_reclaim(),
    ensures
        forall|q: int|
            0 <= q < state::queue_of(items, chosen).len() ==> state::queued_right(
                items,
                #[trigger] state::queue_of(items, chosen)[q],
            ) && chosen(state::queue_of(items, chosen)[q].0 as int),
    decreases items.len(),
{
    if items.len() > 0 {
        let front = items.drop_last();
        assert forall|i: int| 0 <= i < front.len() && #[trigger] chosen(i) implies front[i].may_reclaim() by {
            assert(items[i] == front[i]);
        }
        lemma_queue_right(front, chosen);
        let before = state::queue_of(front, chosen);
        let all = state::queue_of(items, chosen);
        assert forall|q: int| 0 <= q < all.len() implies state::queued_right(
            items,
            #[trigger] all[q],
        ) && chosen(all[q].0 as int) by {
            if q < before.len() {
                assert(all[q] == before[q]);
                assert(state::queued_right(front, before[q]));
            } else {
                assert(chosen(items.len() - 1));
            }
        }
    }
}

proof fn lemma_override_keeps_valid(st: StateView)
    requires
        st.valid(),
        st.mode == Mode::Browse,
    ensures
        state::with_override_toggled(st).valid(),
        state::with_override_toggled(st).mode == Mode::Browse,
{
    match st.item_place() {
        None => {},
        Some(i) => {
            groups::law_places_of_a_class(st.items, st.screen->class);
            let item = st.items[i];
            if model::override_class(item.class) {
                let next = state::overridden_as(item, !item.overridden);
                lemma_update_size(st.items, i, next);
            }
        },
    }
}

proof fn lemma_job_keeps_valid(st: StateView, target: ConfirmTarget)
    requires
        st.valid(),
        st.mode == Mode::Browse,
    ensures
        state::with_job_started(st, target).valid(),
{
    match target {
        ConfirmTarget::Item { index } => {},
        ConfirmTarget::Group { class } => {
            lemma_queue_right(
                st.items,
                |i: int| st.items[i].class == class && st.items[i].may_reclaim(),
            );
        },
        ConfirmTarget::Selection => {
            lemma_queue_right(st.items, |i: int| st.ticked[i]);
        },
    }
}

/// Every key keeps the app valid.
pub proof fn law_keys_keep_the_app_valid(st: StateView, key: Key)
    requires
        st.valid(),
    ensures
        state::pressed(st, key).valid(),
{
    match st.mode {
        Mode::Reclaiming => {
            let running = st.job->0;
            let next = state::with_stop_requested(st).job->0;
            assert(next.queue == running.queue);
            assert forall|q: int| 0 <= q < next.queue.len() implies state::queued_right(
                st.items,
                #[trigger] next.queue[q],
            ) by {
                assert(state::queued_right(st.items, running.queue[q]));
            }
        },
        Mode::Confirm { target } => {
            let cleared = StateView { mode: Mode::Browse, ..st };
            lemma_job_keeps_valid(cleared, target);
        },
        Mode::Browse => {
            lemma_override_keeps_valid(st);
            if st.screen is Items {
                groups::law_places_of_a_class(st.items, st.screen->class);
            }
            assert(state::with_tick(st).valid());
        },
    }
}

/// The end of a Reclaim keeps the app valid.
pub proof fn law_finishing_keeps_the_app_valid(st: StateView)
    requires
        st.valid(),
    ensures
        state::with_job_finished(st).valid(),
{
    if let Some(running) = st.job {
        lemma_without_size(st.items, running.successes);
        lemma_without_pairs(st.items, st.ticked, running.successes);
    }
}

/// Every report keeps the app valid.
pub proof fn law_reports_keep_the_app_valid(st: StateView, message: ReclaimMessage)
    requires
        st.valid(),
    ensures
        state::received(st, message).valid(),
{
    if let Some(running) = st.job {
        let next = StateView { job: Some(job::advanced(running, message)), ..st };
        assert(next.job->0.queue == running.queue);
        assert(next.valid());
        law_finishing_keeps_the_app_valid(next);
    }
}

/// Nothing that the worker reports starts a Reclaim.
pub proof fn law_reports_start_nothing(st: StateView, messages: Seq<ReclaimMessage>)
    requires
        st.job is None,
    ensures
        state::drained(st, messages) == st,
    decreases messages.len(),
{
    if messages.len() > 0 {
        law_reports_start_nothing(st, messages.drop_last());
    }
}

/// There is no path to deletion that skips the Confirm: a Reclaim starts only by
/// a `y` in the Confirm modal.
pub proof fn law_nothing_is_reclaimed_without_confirm(st: StateView, key: Key)
    requires
        st.valid(),
        st.job is None,
        state::pressed(st, key).job is Some,
    ensures
        st.mode is Confirm,
        state::is_yes_key(key),
{
}

/// What happens to the app.
pub enum Happening {
    Pressed(Key),
    Reported(ReclaimMessage),
}

/// The app after something has happened.
pub open spec fn after(st: StateView, what: Happening) -> StateView {
    match what {
        Happening::Pressed(key) => state::pressed(st, key),
        Happening::Reported(message) => state::received(st, message),
    }
}

/// The app after several things have happened.
pub open spec fn after_all(st: StateView, history: Seq<Happening>) -> StateView
    decreases history.len(),
{
    if history.len() == 0 {
        st
    } else {
        after(after_all(st, history.drop_last()), history.last())
    }
}

/// Whatever happens, the app stays valid: nothing that may not be reclaimed is
/// ever ticked or queued.
pub proof fn law_the_app_stays_valid(st: StateView, history: Seq<Happening>)
    requires
        st.valid(),
    ensures
        after_all(st, history).valid(),
    decreases history.len(),
{
    if history.len() > 0 {
        law_the_app_stays_valid(st, history.drop_last());
        let before = after_all(st, history.drop_last());
        match history.last() {
            Happening::Pressed(key) => law_keys_keep_the_app_valid(before, key),
            Happening::Reported(message) => law_reports_keep_the_app_valid(before, message),
        }
    }
}

/// Whatever else happens, nothing is reclaimed until the user presses `y`: no
/// Reclaim starts, and no Item leaves the Scan.
pub proof fn law_without_a_yes_nothing_is_reclaimed(st: StateView, history: Seq<Happening>)
    requires
        st.valid(),
        st.job is None,
        forall|i: int|
            0 <= i < history.len() ==> (#[trigger] history[i] matches Happening::Pressed(key)
                ==> !state::is_yes_key(key)),
    ensures
        after_all(st, history).job is None,
        after_all(st, history).items.len() == st.items.len(),
        forall|i: int|
            0 <= i < st.items.len() ==> (#[trigger] after_all(st, history).items[i]).path
                == st.items[i].path,
    decreases history.len(),
{
    if history.len() > 0 {
        let front = history.drop_last();
        assert forall|i: int| 0 <= i < front.len() implies (#[trigger] front[i] matches Happening::Pressed(key) ==> !state::is_yes_key(key)) by {
            assert(front[i] == history[i]);
        }
        law_without_a_yes_nothing_is_reclaimed(st, front);
        law_the_app_stays_valid(st, front);
        let before = after_all(st, front);
        assert(history.last() == history[history.len() - 1]);
        match history.last() {
            Happening::Pressed(key) => {
                if st.items.len() > 0 {
                    law_keys_only_override(before, key, 0);
                } else {
                    lemma_no_items_stay_none(before, key);
                }
                assert forall|i: int| 0 <= i < st.items.len() implies (
                #[trigger] after_all(st, history).items[i]).path == st.items[i].path by {
                    law_keys_only_override(before, key, i);
                    assert(before.items[i].path == st.items[i].path);
                }
            },
            Happening::Reported(message) => {},
        }
    }
}

proof fn lemma_no_items_stay_none(st: StateView, key: Key)
    requires
        st.valid(),
        st.items.len() == 0,
    ensures
        state::pressed(st, key).items.len() == 0,
{
    if st.screen is Items {
        groups::law_places_of_a_class(st.items, st.screen->class);
    }
}

/// A Protected Item stays whatever is reclaimed: where the worker reports success
/// only for what was queued, no Protected Item leaves the Scan.
pub proof fn law_protected_items_stay(st: StateView, i: int)
    requires
        st.valid(),
        st.job is Some,
        forall|s: int|
            0 <= s < st.job->0.successes.len() ==> exists|q: int|
                0 <= q < st.job->0.queue.len() && (#[trigger] st.job->0.queue[q]).0
                    == #[trigger] st.job->0.successes[s],
        0 <= i < st.items.len(),
        st.items[i].class == SafetyClass::Irreplaceable,
    ensures
        state::with_job_finished(st).items.contains(st.items[i]),
{
    let running = st.job->0;
    if running.successes.contains(i as usize) {
        let s = choose|s: int| 0 <= s < running.successes.len() && running.successes[s] == i as usize;
        let q = choose|q: int|
            0 <= q < running.queue.len() && (#[trigger] running.queue[q]).0
                == running.successes[s];
        assert(state::queued_right(st.items, running.queue[q]));
    }
    law_only_reclaimed_items_leave(st.items, running.successes);
}

/// No single key both asks for a Confirm and gives it: from browsing, a key leads
/// to browsing or to the Confirm modal.
pub proof fn law_browsing_never_reclaims(st: StateView, key: Key)
    requires
        st.valid(),
        st.mode == Mode::Browse,
    ensures
        state::pressed(st, key).mode != Mode::Reclaiming,
        state::pressed(st, key).job is None,
{
}

/// Everything that a Reclaim has queued may be reclaimed: nothing Protected, and
/// nothing that still needs an override.
pub proof fn law_only_permitted_items_are_queued(st: StateView, q: int)
    requires
        st.valid(),
        st.job is Some,
        0 <= q < st.job->0.queue.len(),
    ensures
        st.job->0.queue[q].1.may_reclaim(),
        st.job->0.queue[q].1.class != SafetyClass::Irreplaceable,
        model::override_class(st.job->0.queue[q].1.class) ==> st.job->0.queue[q].1.overridden,
{
    assert(state::queued_right(st.items, st.job->0.queue[q]));
}

/// A Reclaim of a group queues Items of that group alone.
pub proof fn law_a_group_reclaim_stays_in_its_group(st: StateView, class: SafetyClass, q: int)
    requires
        st.valid(),
        st.mode == Mode::Browse,
        state::with_job_started(st, ConfirmTarget::Group { class }).job is Some,
        0 <= q < state::with_job_started(st, ConfirmTarget::Group { class }).job->0.queue.len(),
    ensures
        state::with_job_started(st, ConfirmTarget::Group { class }).job->0.queue[q].1.class
            == class,
{
    let chosen = |i: int| st.items[i].class == class && st.items[i].may_reclaim();
    lemma_queue_right(st.items, chosen);
    let queued = state::queue_of(st.items, chosen)[q];
    assert(state::queued_right(st.items, queued) && chosen(queued.0 as int));
}

/// A Reclaim of the selection queues ticked Items alone.
pub proof fn law_a_selection_reclaim_stays_in_the_selection(st: StateView, q: int)
    requires
        st.valid(),
        st.mode == Mode::Browse,
        state::with_job_started(st, ConfirmTarget::Selection).job is Some,
        0 <= q < state::with_job_started(st, ConfirmTarget::Selection).job->0.queue.len(),
    ensures
        ({
            let queued = state::with_job_started(st, ConfirmTarget::Selection).job->0.queue[q];
            queued.0 < st.items.len() && st.ticked[queued.0 as int]
        }),
{
    let chosen = |i: int| st.ticked[i];
    lemma_queue_right(st.items, chosen);
    let queued = state::queue_of(st.items, chosen)[q];
    assert(state::queued_right(st.items, queued) && chosen(queued.0 as int));
}

proof fn lemma_queue_length(
    items: Seq<ItemView>,
    chosen: spec_fn(int) -> bool,
    keep: spec_fn(ItemView) -> bool,
)
    requires
        forall|i: int| 0 <= i < items.len() ==> #[trigger] chosen(i) == keep(items[i]),
    ensures
        state::queue_of(items, chosen).len() == items.filter(keep).len(),
    decreases items.len(),
{
    reveal(Seq::filter);
    if items.len() > 0 {
        let front = items.drop_last();
        assert forall|i: int| 0 <= i < front.len() implies #[trigger] chosen(i) == keep(
            front[i],
        ) by {
            assert(front[i] == items[i]);
        }
        lemma_queue_length(front, chosen, keep);
        assert(chosen(items.len() - 1) == keep(items.last()));
    }
}

proof fn lemma_ticked_is_queued(items: Seq<ItemView>, chosen: spec_fn(int) -> bool, i: int)
    requires
        0 <= i < items.len(),
        chosen(i),
    ensures
        state::queue_of(items, chosen).len() > 0,
    decreases items.len(),
{
    if i < items.len() - 1 {
        lemma_ticked_is_queued(items.drop_last(), chosen, i);
    }
}

/// The Confirm modal never offers nothing: where it opens, a `y` starts a
/// Reclaim.
pub proof fn law_a_confirm_can_be_given(st: StateView, key: Key)
    requires
        st.valid(),
        st.mode == Mode::Browse,
        state::pressed(st, key).mode is Confirm,
    ensures
        state::pressed(state::pressed(st, key), Key::Char('y')).mode == Mode::Reclaiming,
{
    if st.has_selection() {
        let i = choose|i: int| 0 <= i < st.ticked.len() && #[trigger] st.ticked[i];
        lemma_ticked_is_queued(st.items, |i: int| st.ticked[i], i);
    } else {
        match st.screen {
            Screen::Groups => {
                lemma_group_has_items(st.items, groups::class_order(), st.group_list->0 as int);
                let class = st.group()->0.class;
                lemma_queue_length(
                    st.items,
                    |i: int| st.items[i].class == class && st.items[i].may_reclaim(),
                    |item: ItemView| item.class == class && item.may_reclaim(),
                );
            },
            Screen::Items { class } => {
                groups::law_places_of_a_class(st.items, class);
            },
        }
    }
}

/// A Protected Item is never offered: with it highlighted, and nothing selected,
/// no key opens the Confirm modal.
pub proof fn law_a_protected_item_never_reaches_confirm(st: StateView, key: Key, i: int)
    requires
        st.valid(),
        st.mode == Mode::Browse,
        !st.has_selection(),
        st.item_place() == Some(i),
        0 <= i < st.items.len(),
        st.items[i].class == SafetyClass::Irreplaceable,
    ensures
        !(state::pressed(st, key).mode is Confirm),
{
}

/// Nor does the group of the Protected Items open it.
pub proof fn law_the_protected_group_never_reaches_confirm(st: StateView, key: Key)
    requires
        st.valid(),
        st.mode == Mode::Browse,
        !st.has_selection(),
        st.screen == Screen::Groups,
        st.group() is Some,
        st.group()->0.class == SafetyClass::Irreplaceable,
    ensures
        !(state::pressed(st, key).mode is Confirm),
{
    lemma_group_has_items(st.items, groups::class_order(), st.group_list->0 as int);
    lemma_no_protected_offered(st.items);
}

proof fn lemma_no_protected_offered(items: Seq<ItemView>)
    ensures
        groups::reclaimable_members(items, SafetyClass::Irreplaceable).len() == 0,
    decreases items.len(),
{
    reveal(Seq::filter);
    if items.len() > 0 {
        lemma_no_protected_offered(items.drop_last());
    }
}

/// Pressing the override key twice leaves every Item as it was.
pub proof fn law_override_toggles_back(st: StateView)
    requires
        st.valid(),
        st.mode == Mode::Browse,
        highlights_fit(st),
    ensures
        state::pressed(state::pressed(st, Key::Char('o')), Key::Char('o')).items == st.items,
{
    if st.item_place() is Some {
        let class = st.screen->class;
        let i = st.item_place()->0;
        groups::law_places_of_a_class(st.items, class);
        if model::override_class(st.items[i].class) {
            let next = state::overridden_as(st.items[i], !st.items[i].overridden);
            let changed = st.items.update(i, next);
            lemma_places_keep(st.items, i, next, class);
            groups::law_places_of_a_class(changed, class);
            assert(changed.update(i, state::overridden_as(next, !next.overridden)) =~= st.items);
        }
    }
}

pub proof fn lemma_places_keep(items: Seq<ItemView>, i: int, item: ItemView, class: SafetyClass)
    requires
        0 <= i < items.len(),
        item.class == items[i].class,
    ensures
        groups::places_of(items.update(i, item), class) == groups::places_of(items, class),
    decreases items.len(),
{
    let changed = items.update(i, item);
    if i < items.len() - 1 {
        lemma_places_keep(items.drop_last(), i, item, class);
        assert(changed.drop_last() =~= items.drop_last().update(i, item));
    } else {
        assert(changed.drop_last() =~= items.drop_last());
    }
}

/// `a` selects exactly what may be reclaimed, scan-wide, and once all of that is
/// selected clears it.
pub proof fn law_select_all_selects_what_may_be_reclaimed(st: StateView)
    requires
        st.valid(),
        st.mode == Mode::Browse,
    ensures
        ({
            let once = state::pressed(st, Key::Char('a'));
            let full = state::all_ticked(st, state::offered());
            &&& forall|i: int|
                0 <= i < st.items.len() ==> #[trigger] once.ticked[i] == (
                st.items[i].may_reclaim() && !full)
            &&& !full ==> forall|i: int|
                0 <= i < st.items.len() ==> !#[trigger] state::pressed(
                    once,
                    Key::Char('a'),
                ).ticked[i]
        }),
{
    let once = state::pressed(st, Key::Char('a'));
    let keep = state::offered();
    assert forall|i: int| 0 <= i < st.items.len() implies #[trigger] once.ticked[i] == (
    st.items[i].may_reclaim() && !state::all_ticked(st, keep)) by {
        assert(st.items[i] == st.items[i]);
        if st.ticked[i] {
            assert(st.items[i].may_reclaim());
        }
    }
    if !state::all_ticked(st, keep) {
        assert(state::all_ticked(once, keep)) by {
            assert forall|i: int|
                0 <= i < once.items.len() && keep(#[trigger] once.items[i]) implies once.ticked[i] by {
                assert(once.ticked[i] == st.items[i].may_reclaim());
            }
        }
        let twice = state::pressed(once, Key::Char('a'));
        assert forall|i: int| 0 <= i < st.items.len() implies !#[trigger] twice.ticked[i] by {
            assert(once.ticked[i] == st.items[i].may_reclaim());
        }
    }
}

/// Ticking an Item twice leaves the selection as it was.
pub proof fn law_tick_toggles_back(st: StateView)
    requires
        st.valid(),
        st.mode == Mode::Browse,
        st.screen is Items,
    ensures
        state::pressed(state::pressed(st, Key::Char(' ')), Key::Char(' ')).ticked == st.ticked,
{
    groups::law_places_of_a_class(st.items, st.screen->class);
    if st.item_place() is Some {
        let i = st.item_place()->0;
        assert(st.ticked.update(i, !st.ticked[i]).update(i, st.ticked[i]) =~= st.ticked);
    }
}

/// Cancelling a Confirm changes nothing but what is said about it.
pub proof fn law_cancelling_changes_nothing(st: StateView, key: Key)
    requires
        st.mode is Confirm,
        !state::is_yes_key(key),
    ensures
        state::pressed(st, key) == (StateView {
            mode: Mode::Browse,
            status: "Reclaim cancelled. Nothing deleted."@,
            ..st
        }),
{
}

/// No key adds, drops, moves, resizes or relabels an Item. All that a key may
/// change of one is its override, and only where the class of the Item needs one.
pub proof fn law_keys_only_override(st: StateView, key: Key, i: int)
    requires
        st.valid(),
        0 <= i < st.items.len(),
    ensures
        state::pressed(st, key).items.len() == st.items.len(),
        state::pressed(st, key).items[i] == state::overridden_as(
            st.items[i],
            state::pressed(st, key).items[i].overridden,
        ),
        state::pressed(st, key).items[i] != st.items[i] ==> model::override_class(
            st.items[i].class,
        ) && key == Key::Char('o') && st.mode == Mode::Browse && st.item_place() == Some(i),
{
    if st.mode == Mode::Browse && key == Key::Char('o') && st.item_place() is Some {
        groups::law_places_of_a_class(st.items, st.screen->class);
    }
}

/// While a Reclaim runs a key can do nothing but ask it to stop.
pub proof fn law_a_running_reclaim_is_locked(st: StateView, key: Key)
    requires
        st.valid(),
        st.mode == Mode::Reclaiming,
    ensures
        state::pressed(st, key).items == st.items,
        state::pressed(st, key).mode == Mode::Reclaiming,
        state::pressed(st, key).job->0.queue == st.job->0.queue,
        !state::is_stop_key(key) ==> state::pressed(st, key) == st,
        !state::quits(st, key),
{
}

/// Both highlights point at rows that are there.
pub open spec fn highlights_fit(st: StateView) -> bool {
    &&& match st.group_list {
        Some(g) => g < groups::groups(st.items).len(),
        None => groups::groups(st.items).len() == 0,
    }
    &&& match st.screen {
        Screen::Items { class } => match st.item_list {
            Some(k) => k < groups::places_of(st.items, class).len(),
            None => false,
        },
        Screen::Groups => true,
    }
}

/// After Items have changed the highlights point at rows that are there, whatever
/// they pointed at before.
pub proof fn law_synced_highlights_fit(st: StateView)
    ensures
        highlights_fit(state::synced(st)),
{
    if st.screen is Items {
        let len = groups::places_of(st.items, st.screen->class).len();
        lemma_clamped_fits(st.item_list, len);
    }
    lemma_clamped_fits(st.group_list, groups::groups(st.items).len());
}

proof fn lemma_clamped_fits(selected: Option<usize>, len: nat)
    ensures
        match state::clamped(selected, len) {
            Some(i) => i < len,
            None => len == 0,
        },
{
}

proof fn lemma_group_has_items(items: Seq<ItemView>, classes: Seq<SafetyClass>, g: int)
    requires
        0 <= g < groups::groups_among(items, classes).len(),
    ensures
        groups::groups_among(items, classes)[g].count > 0,
        groups::groups_among(items, classes)[g] == groups::group_of(
            items,
            groups::groups_among(items, classes)[g].class,
        ),
        classes.contains(groups::groups_among(items, classes)[g].class),
    decreases classes.len(),
{
    if classes.len() > 0 {
        let before = groups::groups_among(items, classes.drop_last());
        if g < before.len() {
            lemma_group_has_items(items, classes.drop_last(), g);
            let k = choose|k: int|
                0 <= k < classes.len() - 1 && classes.drop_last()[k] == before[g].class;
            assert(classes[k] == before[g].class);
        } else {
            assert(classes[classes.len() - 1] == classes.last());
        }
    }
}

/// Every key leaves the highlights on rows that are there.
pub proof fn law_highlights_stay_in_range(st: StateView, key: Key)
    requires
        st.valid(),
        highlights_fit(st),
    ensures
        highlights_fit(state::pressed(st, key)),
{
    if st.mode == Mode::Browse {
        match st.group() {
            Some(group) => {
                lemma_group_has_items(st.items, groups::class_order(), st.group_list->0 as int);
                groups::law_places_of_a_class(st.items, group.class);
            },
            None => {},
        }
        lemma_groups_bound(st.items, groups::class_order());
        if st.screen is Items {
            groups::law_places_of_a_class(st.items, st.screen->class);
            assert(groups::places_of(st.items, st.screen->class).len() <= st.items.len()) by {
                groups::lemma_filter_size(
                    st.items,
                    |item: ItemView| item.class == st.screen->class,
                );
            }
        }
        if st.rows() > 0 {
            lemma_moved_fits(st.group_list, 1, st.rows());
            lemma_moved_fits(st.item_list, 1, st.rows());
            lemma_moved_fits(st.group_list, -1, st.rows());
            lemma_moved_fits(st.item_list, -1, st.rows());
        }
        if key == Key::Char('o') && st.item_place() is Some {
            let i = st.item_place()->0;
            let next = state::overridden_as(st.items[i], !st.items[i].overridden);
            law_synced_highlights_fit(
                StateView {
                    items: st.items.update(i, next),
                    ticked: if next.overridden {
                        st.ticked
                    } else {
                        st.ticked.update(i, false)
                    },
                    status: state::override_status(next),
                    ..st
                },
            );
        }
    }
}

proof fn lemma_groups_bound(items: Seq<ItemView>, classes: Seq<SafetyClass>)
    ensures
        groups::groups_among(items, classes).len() <= classes.len(),
    decreases classes.len(),
{
    if classes.len() > 0 {
        lemma_groups_bound(items, classes.drop_last());
    }
}

proof fn lemma_moved_fits(selected: Option<usize>, delta: int, len: nat)
    requires
        0 < len <= usize::MAX,
    ensures
        state::moved(selected, delta, len) is Some,
        state::moved(selected, delta, len)->0 < len,
{
}

/// The highlight goes back where it was: one row down and one up, or one up and
/// one down.
pub proof fn law_moves_undo_each_other(i: usize, len: nat)
    requires
        i < len <= usize::MAX,
    ensures
        state::moved(state::moved(Some(i), 1, len), -1, len) == Some(i),
        state::moved(state::moved(Some(i), -1, len), 1, len) == Some(i),
{
    let n = len as int;
    assert((i + 1) % n == if i + 1 == n { 0 } else { i + 1 }) by (nonlinear_arith)
        requires
            0 <= i < n,
    ;
    assert((i - 1) % n == if i == 0 { n - 1 } else { i - 1 }) by (nonlinear_arith)
        requires
            0 <= i < n,
    ;
    assert(((0 - 1) as int) % n == n - 1 && n % n == 0) by (nonlinear_arith)
        requires
            n > 0,
    ;
    assert(i as int % n == i) by (nonlinear_arith)
        requires
            0 <= i < n,
    ;
}

/// Showing and hiding the overview are opposites.
pub proof fn law_overview_toggles_back(st: StateView)
    requires
        st.mode == Mode::Browse,
    ensures
        state::pressed(state::pressed(st, Key::Char('t')), Key::Char('t')).show_overview
            == st.show_overview,
        state::pressed(st, Key::Char('t')).show_overview != st.show_overview,
{
}

/// The places below `n` that are not among `gone`, in order.
pub open spec fn kept_places(n: nat, gone: Seq<usize>) -> Seq<int>
    decreases n,
{
    if n == 0 {
        Seq::empty()
    } else {
        let before = kept_places((n - 1) as nat, gone);
        if gone.contains((n - 1) as usize) {
            before
        } else {
            before.push(n - 1)
        }
    }
}

/// What was reclaimed leaves the Scan, and nothing else does: an Item stays
/// exactly if its place is not among the successes, and the rest keep their
/// order.
pub proof fn law_only_reclaimed_items_leave<T>(s: Seq<T>, gone: Seq<usize>)
    requires
        s.len() <= usize::MAX,
    ensures
        forall|i: int| #[trigger]
            kept_places(s.len(), gone).contains(i) <==> 0 <= i < s.len() && !gone.contains(
                i as usize,
            ),
        forall|a: int, b: int|
            0 <= a < b < kept_places(s.len(), gone).len() ==> #[trigger] kept_places(
                s.len(),
                gone,
            )[a] < #[trigger] kept_places(s.len(), gone)[b],
        state::without(s, gone) == Seq::new(
            kept_places(s.len(), gone).len(),
            |k: int| s[kept_places(s.len(), gone)[k]],
        ),
        forall|i: int|
            0 <= i < s.len() && !gone.contains(i as usize) ==> state::without(s, gone).contains(
                #[trigger] s[i],
            ),
    decreases s.len(),
{
    if s.len() > 0 {
        let n = s.len();
        let front = s.drop_last();
        law_only_reclaimed_items_leave(front, gone);
        let before = kept_places(front.len(), gone);
        let all = kept_places(n, gone);
        assert(front.len() == (n - 1) as nat);
        assert forall|k: int| 0 <= k < before.len() implies 0 <= #[trigger] before[k] < n - 1 by {
            assert(before.contains(before[k]));
        }
        assert forall|i: int| #[trigger] all.contains(i) <==> 0 <= i < n && !gone.contains(
            i as usize,
        ) by {
            if before.contains(i) {
                let k = choose|k: int| 0 <= k < before.len() && before[k] == i;
                assert(all[k] == i);
            }
            if i == n - 1 && !gone.contains(i as usize) {
                assert(all[all.len() - 1] == i);
            }
            if all.contains(i) && i != n - 1 {
                let k = choose|k: int| 0 <= k < all.len() && all[k] == i;
                assert(before[k] == i);
            }
        }
        let left = state::without(s, gone);
        assert(left =~= Seq::new(all.len(), |k: int| s[all[k]]));
        assert forall|i: int| 0 <= i < n && !gone.contains(i as usize) implies left.contains(
            #[trigger] s[i],
        ) by {
            assert(all.contains(i));
            let k = choose|k: int| 0 <= k < all.len() && all[k] == i;
            assert(left[k] == s[i]);
        }
    } else {
        assert(state::without(s, gone) =~= Seq::empty());
    }
}

/// A Reclaim that stops before anything was reclaimed leaves every Item as it
/// was.
pub proof fn law_nothing_reclaimed_nothing_gone<T>(s: Seq<T>)
    ensures
        state::without(s, Seq::empty()) == s,
    decreases s.len(),
{
    if s.len() > 0 {
        law_nothing_reclaimed_nothing_gone(s.drop_last());
        assert(s.drop_last().push(s.last()) =~= s);
    } else {
        assert(state::without(s, Seq::empty()) =~= s);
    }
}

/// The total size of a queue.
pub open spec fn queued_size(queue: Seq<(usize, ItemView)>) -> nat
    decreases queue.len(),
{
    if queue.len() == 0 {
        0
    } else {
        queued_size(queue.drop_last()) + queue.last().1.size
    }
}

proof fn lemma_queue_size(
    items: Seq<ItemView>,
    chosen: spec_fn(int) -> bool,
    keep: spec_fn(ItemView) -> bool,
)
    requires
        forall|i: int| 0 <= i < items.len() ==> #[trigger] chosen(i) == keep(items[i]),
    ensures
        queued_size(state::queue_of(items, chosen)) == model::total_size(items.filter(keep)),
    decreases items.len(),
{
    reveal(Seq::filter);
    if items.len() > 0 {
        let front = items.drop_last();
        assert forall|i: int| 0 <= i < front.len() implies #[trigger] chosen(i) == keep(
            front[i],
        ) by {
            assert(front[i] == items[i]);
        }
        lemma_queue_size(front, chosen, keep);
        assert(chosen(items.len() - 1) == keep(items.last()));
        let before = state::queue_of(front, chosen);
        let queued = ((items.len() - 1) as usize, items.last());
        let kept = front.filter(keep);
        assert(before.push(queued).drop_last() =~= before);
        assert(kept.push(items.last()).drop_last() =~= kept);
    }
}

/// The Confirm prompt of a group says what will be reclaimed: as many Items, and
/// as many bytes, as a `y` then queues.
pub proof fn law_the_group_prompt_quotes_the_queue(st: StateView, class: SafetyClass)
    requires
        groups::group_of(st.items, class).reclaimable_count > 0,
    ensures
        ({
            let started = state::with_job_started(st, ConfirmTarget::Group { class });
            let group = groups::group_of(st.items, class);
            &&& started.job is Some
            &&& started.job->0.queue.len() == group.reclaimable_count
            &&& queued_size(started.job->0.queue) == group.reclaimable_bytes
        }),
{
    let chosen = |i: int| st.items[i].class == class && st.items[i].may_reclaim();
    let keep = |item: ItemView| item.class == class && item.may_reclaim();
    lemma_queue_length(st.items, chosen, keep);
    lemma_queue_size(st.items, chosen, keep);
}

proof fn lemma_selection_queue(items: Seq<ItemView>, ticked: Seq<bool>, all: Seq<bool>)
    requires
        items.len() == ticked.len(),
        ticked.len() <= all.len(),
        ticked == all.take(ticked.len() as int),
    ensures
        state::queue_of(items, |i: int| all[i]).len() == state::tick_count(ticked),
        queued_size(state::queue_of(items, |i: int| all[i])) == modal::ticked_size(items, all),
    decreases items.len(),
{
    let chosen = |i: int| all[i];
    if items.len() > 0 {
        let front = items.drop_last();
        assert(ticked.drop_last() =~= all.take(ticked.len() - 1));
        lemma_selection_queue(front, ticked.drop_last(), all);
        assert(ticked.last() == all[items.len() - 1]);
        let before = state::queue_of(front, chosen);
        let queued = ((items.len() - 1) as usize, items.last());
        assert(before.push(queued).drop_last() =~= before);
    }
}

/// The Confirm prompt of the selection says what will be reclaimed, too.
pub proof fn law_the_selection_prompt_quotes_the_queue(st: StateView)
    requires
        st.valid(),
        st.has_selection(),
    ensures
        ({
            let started = state::with_job_started(st, ConfirmTarget::Selection);
            &&& started.job is Some
            &&& started.job->0.queue.len() == state::tick_count(st.ticked)
            &&& queued_size(started.job->0.queue) == modal::ticked_size(st.items, st.ticked)
        }),
{
    let i = choose|i: int| 0 <= i < st.ticked.len() && #[trigger] st.ticked[i];
    lemma_ticked_is_queued(st.items, |i: int| st.ticked[i], i);
    assert(st.ticked.take(st.ticked.len() as int) =~= st.ticked);
    lemma_selection_queue(st.items, st.ticked, st.ticked);
}

} // verus!
