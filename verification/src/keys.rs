//! What each key is for, told by what the user sees before and after it.

use crate::groups;
use crate::groups::GroupView;
use crate::guarantees;
use crate::job;
use crate::job::JobView;
use crate::job::ReclaimMessage;
use crate::model;
use crate::model::ItemView;
use crate::model::SafetyClass;
use crate::state;
use crate::state::ConfirmTarget;
use crate::state::Key;
use crate::state::Mode;
use crate::state::Screen;
use crate::state::StateView;
use crate::text;
use vstd::prelude::*;

verus! {

/// Whether two states show the same Items of the same root, in the same mode and
/// with the same Reclaim.
pub open spec fn same_items_and_mode(a: StateView, b: StateView) -> bool {
    a.root == b.root && a.items == b.items && a.mode == b.mode && a.job == b.job
}

/// Down goes one row down and Up one row up, and both go round at the ends. `j` and
/// `k` do the same. Nothing but the highlight changes.
pub proof fn law_arrows_move_the_highlight(st: StateView, row: usize, rows: nat)
    requires
        st.mode == Mode::Browse,
        row < rows <= usize::MAX,
        match st.screen {
            Screen::Groups => st.group_list == Some(row) && rows == groups::groups(st.items).len(),
            Screen::Items { class } => st.item_list == Some(row) && rows == groups::group_of(
                st.items,
                class,
            ).count,
        },
    ensures
        ({
            let down = if row + 1 == rows {
                0
            } else {
                (row + 1) as usize
            };
            let up = if row == 0 {
                (rows - 1) as usize
            } else {
                (row - 1) as usize
            };
            let at = |place: usize|
                match st.screen {
                    Screen::Groups => StateView { group_list: Some(place), ..st },
                    Screen::Items { .. } => StateView { item_list: Some(place), ..st },
                };
            &&& state::pressed(st, Key::Down) == at(down)
            &&& state::pressed(st, Key::Char('j')) == at(down)
            &&& state::pressed(st, Key::Up) == at(up)
            &&& state::pressed(st, Key::Char('k')) == at(up)
        }),
{
    if let Screen::Items { class } = st.screen {
        groups::law_places_of_a_class(st.items, class);
    }
    let n = rows as int;
    assert((row + 1) % n == if row + 1 == n { 0 } else { row + 1 }) by (nonlinear_arith)
        requires
            0 <= row < n,
    ;
    assert((row - 1) % n == if row == 0 { n - 1 } else { row - 1 }) by (nonlinear_arith)
        requires
            0 <= row < n,
    ;
}

/// Enter, and Right, on a highlighted group shows the Items of that group, the first
/// of them highlighted.
pub proof fn law_enter_opens_the_highlighted_group(st: StateView, row: usize)
    requires
        st.mode == Mode::Browse,
        st.screen == Screen::Groups,
        st.group_list == Some(row),
        row < groups::groups(st.items).len(),
    ensures
        ({
            let open = state::pressed(st, Key::Enter);
            &&& open.screen == (Screen::Items { class: groups::groups(st.items)[row as int].class })
            &&& open.item_list == Some(0usize)
            &&& open.group_list == st.group_list
            &&& same_items_and_mode(open, st)
            &&& open.ticked == st.ticked && open.show_overview == st.show_overview
            &&& state::pressed(st, Key::Right) == open
        }),
{
}

/// Esc, Left, Backspace and `b` go back from the Items of a group to the groups, the
/// same group highlighted; among the groups they change nothing.
pub proof fn law_back_shows_the_groups(st: StateView, key: Key)
    requires
        st.mode == Mode::Browse,
        key == Key::Esc || key == Key::Left || key == Key::Backspace || key == Key::Char('b'),
    ensures
        ({
            let back = state::pressed(st, key);
            &&& back.screen == Screen::Groups
            &&& back.group_list == st.group_list
            &&& st.screen is Items ==> back.item_list is None
            &&& same_items_and_mode(back, st)
            &&& back.ticked == st.ticked && back.show_overview == st.show_overview
            &&& st.screen == Screen::Groups ==> back == st
        }),
{
}

/// The app is left by `q` while browsing, and by Esc among the groups; at no other
/// time and by no other key.
pub proof fn law_how_the_app_is_left(st: StateView, key: Key)
    ensures
        state::quits(st, key) ==> st.mode == Mode::Browse && state::pressed(st, key) == st,
        st.mode == Mode::Browse ==> state::quits(st, Key::Char('q')),
        st.mode == Mode::Browse && st.screen == Screen::Groups ==> state::quits(st, Key::Esc),
        st.screen is Items ==> !state::quits(st, Key::Esc),
        key != Key::Char('q') && key != Key::Esc ==> !state::quits(st, key),
{
}

/// Keys that mean nothing do nothing.
pub proof fn law_other_keys_do_nothing(st: StateView, key: Key)
    requires
        st.mode == Mode::Browse,
        key != Key::Esc && key != Key::Down && key != Key::Up && key != Key::Left && key
            != Key::Right && key != Key::Enter && key != Key::Backspace,
        key != Key::Char('j') && key != Key::Char('k') && key != Key::Char('b') && key
            != Key::Char('o') && key != Key::Char('t') && key != Key::Char('c') && key
            != Key::Char(' ') && key != Key::Char('a'),
    ensures
        state::pressed(st, key) == st,
{
}

/// `o` turns the override of the highlighted Item over where its class waits for
/// one, and that Item only; what is no longer overridden is no longer selected. Of
/// any other class nothing changes.
pub proof fn law_o_overrides_the_highlighted_item(st: StateView, i: int, j: int)
    requires
        st.valid(),
        st.mode == Mode::Browse,
        st.item_place() == Some(i),
        0 <= j < st.items.len(),
    ensures
        ({
            let after = state::pressed(st, Key::Char('o'));
            let waits = st.items[i].class == SafetyClass::Unclassified || st.items[i].class
                == SafetyClass::BrowserCache;
            &&& 0 <= i < st.items.len()
            &&& after.items.len() == st.items.len() && after.ticked.len() == st.ticked.len()
            &&& after.mode == Mode::Browse && after.job is None
            &&& after.items[j].overridden == (if j == i && waits {
                !st.items[i].overridden
            } else {
                st.items[j].overridden
            })
            &&& after.items[j].path == st.items[j].path && after.items[j].size == st.items[j].size
            &&& after.items[j].class == st.items[j].class && after.items[j].recovery
                == st.items[j].recovery && after.items[j].evidence == st.items[j].evidence
            &&& after.ticked[j] == (st.ticked[j] && !(j == i && waits && st.items[i].overridden))
        }),
{
    groups::law_places_of_a_class(st.items, st.screen->class);
    let places = groups::places_of(st.items, st.screen->class);
    assert(i == places[st.item_list->0 as int]);
}

/// Space on an Item puts it into the selection, or takes it out, if it may be
/// reclaimed; no other Item is touched.
pub proof fn law_space_ticks_the_highlighted_item(st: StateView, i: int, j: int)
    requires
        st.valid(),
        st.mode == Mode::Browse,
        st.item_place() == Some(i),
        0 <= j < st.items.len(),
    ensures
        ({
            let after = state::pressed(st, Key::Char(' '));
            &&& after.items == st.items && after.mode == Mode::Browse && after.job is None
            &&& after.ticked[j] == (if j == i && st.items[i].may_reclaim() {
                !st.ticked[i]
            } else {
                st.ticked[j]
            })
        }),
{
    groups::law_places_of_a_class(st.items, st.screen->class);
    let places = groups::places_of(st.items, st.screen->class);
    assert(i == places[st.item_list->0 as int]);
}

/// Space on a group puts everything of it that may be reclaimed into the selection,
/// or takes all of it out if all of it was in; Items of other groups are not
/// touched.
pub proof fn law_space_ticks_the_highlighted_group(st: StateView, row: usize, j: int)
    requires
        st.valid(),
        st.mode == Mode::Browse,
        st.screen == Screen::Groups,
        st.group_list == Some(row),
        row < groups::groups(st.items).len(),
        0 <= j < st.items.len(),
    ensures
        ({
            let class = groups::groups(st.items)[row as int].class;
            let after = state::pressed(st, Key::Char(' '));
            let all_in = forall|i: int|
                0 <= i < st.items.len() && (#[trigger] st.items[i]).class == class
                    && st.items[i].may_reclaim() ==> st.ticked[i];
            &&& after.items == st.items && after.mode == Mode::Browse && after.job is None
            &&& after.ticked[j] == (if st.items[j].class == class && st.items[j].may_reclaim() {
                !all_in
            } else {
                st.ticked[j]
            })
        }),
{
    let class = groups::groups(st.items)[row as int].class;
    groups::law_one_group_for_each_class(st.items);
    groups::law_a_group_offers_what_its_items_do(st.items, class);
    let chosen = state::offered_of(class);
    assert forall|i: int| 0 <= i < st.items.len() implies chosen(#[trigger] st.items[i]) == (
    st.items[i].class == class && st.items[i].may_reclaim()) by {}
    let all_in = forall|i: int|
        0 <= i < st.items.len() && (#[trigger] st.items[i]).class == class
            && st.items[i].may_reclaim() ==> st.ticked[i];
    assert(state::all_ticked(st, chosen) == all_in);
}

/// `a` selects everything that may be reclaimed, or clears the selection if all of
/// that was selected.
pub proof fn law_a_selects_everything_or_clears(st: StateView, j: int)
    requires
        st.valid(),
        st.mode == Mode::Browse,
        0 <= j < st.items.len(),
    ensures
        ({
            let after = state::pressed(st, Key::Char('a'));
            let all_in = forall|i: int|
                0 <= i < st.items.len() && (#[trigger] st.items[i]).may_reclaim()
                    ==> st.ticked[i];
            &&& after.items == st.items && after.mode == Mode::Browse && after.job is None
            &&& after.ticked[j] == (st.items[j].may_reclaim() && !all_in)
        }),
{
    guarantees::law_select_all_selects_what_may_be_reclaimed(st);
    let chosen = state::offered();
    assert forall|i: int| 0 <= i < st.items.len() implies chosen(#[trigger] st.items[i])
        == st.items[i].may_reclaim() by {}
    let all_in = forall|i: int|
        0 <= i < st.items.len() && (#[trigger] st.items[i]).may_reclaim() ==> st.ticked[i];
    assert(state::all_ticked(st, chosen) == all_in);
    assert(state::pressed(st, Key::Char('a')).ticked[j] == (st.items[j].may_reclaim()
        && !all_in));
}

/// `c` asks for a Confirm of the selection if anything is selected. Nothing but the
/// mode changes.
pub proof fn law_c_asks_about_the_selection_first(st: StateView, i: int)
    requires
        st.mode == Mode::Browse,
        0 <= i < st.ticked.len(),
        st.ticked[i],
    ensures
        state::pressed(st, Key::Char('c')) == (StateView {
            mode: Mode::Confirm { target: ConfirmTarget::Selection },
            ..st
        }),
{
}

/// With nothing selected, `c` among the groups asks about the highlighted group,
/// exactly if something of it may be reclaimed.
pub proof fn law_c_asks_about_the_highlighted_group(st: StateView, row: usize)
    requires
        st.mode == Mode::Browse,
        forall|i: int| 0 <= i < st.ticked.len() ==> !#[trigger] st.ticked[i],
        st.screen == Screen::Groups,
        st.group_list == Some(row),
        row < groups::groups(st.items).len(),
    ensures
        ({
            let class = groups::groups(st.items)[row as int].class;
            let after = state::pressed(st, Key::Char('c'));
            let some = exists|i: int|
                0 <= i < st.items.len() && (#[trigger] st.items[i]).class == class
                    && st.items[i].may_reclaim();
            &&& some ==> after == (StateView {
                mode: Mode::Confirm { target: ConfirmTarget::Group { class } },
                ..st
            })
            &&& !some ==> same_items_and_mode(after, st) && after.ticked == st.ticked
        }),
{
    let class = groups::groups(st.items)[row as int].class;
    groups::law_one_group_for_each_class(st.items);
    groups::law_a_group_offers_what_its_items_do(st.items, class);
}

/// With nothing selected, `c` in a group, and Enter, asks about the highlighted Item,
/// exactly if it may be reclaimed.
pub proof fn law_c_asks_about_the_highlighted_item(st: StateView, i: int)
    requires
        st.mode == Mode::Browse,
        forall|k: int| 0 <= k < st.ticked.len() ==> !#[trigger] st.ticked[k],
        st.item_place() == Some(i),
    ensures
        ({
            let after = state::pressed(st, Key::Char('c'));
            &&& st.items[i].may_reclaim() ==> after == (StateView {
                mode: Mode::Confirm { target: ConfirmTarget::Item { index: i as usize } },
                ..st
            })
            &&& !st.items[i].may_reclaim() ==> same_items_and_mode(after, st) && after.ticked
                == st.ticked
            &&& state::pressed(st, Key::Enter) == after
        }),
{
}

/// The highlighted Item is the one in the highlighted row of the list, which shows
/// the Items of the open group in their order: as many Items of that class stand
/// before it as rows.
pub proof fn law_the_highlighted_item_is_in_its_row(st: StateView, class: SafetyClass, row: usize)
    requires
        st.screen == (Screen::Items { class }),
        st.item_list == Some(row),
        row < groups::group_of(st.items, class).count,
    ensures
        st.item_place() is Some,
        0 <= st.item_place()->0 < st.items.len(),
        st.items[st.item_place()->0].class == class,
        groups::group_of(st.items.take(st.item_place()->0), class).count == row,
{
    groups::law_places_of_a_class(st.items, class);
    lemma_places_before(st.items, class, row as int);
}

proof fn lemma_places_before(items: Seq<ItemView>, class: SafetyClass, k: int)
    requires
        0 <= k < groups::places_of(items, class).len(),
    ensures
        0 <= groups::places_of(items, class)[k] < items.len(),
        groups::group_of(items.take(groups::places_of(items, class)[k]), class).count == k,
    decreases items.len(),
{
    groups::law_places_of_a_class(items, class);
    let front = items.drop_last();
    let before = groups::places_of(front, class);
    let place = groups::places_of(items, class)[k];
    if k < before.len() {
        lemma_places_before(front, class, k);
        assert(before[k] == place);
        assert(items.take(place) =~= front.take(place));
    } else {
        groups::law_places_of_a_class(front, class);
        assert(items.take(place) =~= front);
    }
}

/// A Confirm is given by `y` or `Y` and by nothing else: any other key ends it with
/// nothing queued and nothing changed.
pub proof fn law_only_y_confirms(st: StateView, key: Key)
    requires
        st.mode is Confirm,
        st.job is None,
        key != Key::Char('y') && key != Key::Char('Y'),
    ensures
        ({
            let after = state::pressed(st, key);
            &&& after.mode == Mode::Browse && after.job is None
            &&& after.items == st.items && after.ticked == st.ticked
            &&& after.screen == st.screen && after.group_list == st.group_list && after.item_list
                == st.item_list
        }),
{
}

/// Whether `queue` holds exactly the Items that `chosen` picks by their place, each
/// once, as it stands in the list and under its place, in the order of the list.
pub open spec fn queues_exactly(
    items: Seq<ItemView>,
    chosen: spec_fn(int) -> bool,
    queue: Seq<(usize, ItemView)>,
) -> bool {
    &&& forall|q: int|
        0 <= q < queue.len() ==> (#[trigger] queue[q]).0 < items.len() && chosen(
            queue[q].0 as int,
        ) && queue[q].1 == items[queue[q].0 as int]
    &&& forall|q: int, r: int|
        0 <= q < r < queue.len() ==> (#[trigger] queue[q]).0 < (#[trigger] queue[r]).0
    &&& forall|i: int|
        0 <= i < items.len() && #[trigger] chosen(i) ==> exists|q: int|
            0 <= q < queue.len() && (#[trigger] queue[q]).0 == i
}

proof fn lemma_queue_is_exact(items: Seq<ItemView>, chosen: spec_fn(int) -> bool)
    requires
        items.len() <= usize::MAX,
    ensures
        queues_exactly(items, chosen, state::queue_of(items, chosen)),
    decreases items.len(),
{
    let queue = state::queue_of(items, chosen);
    if items.len() > 0 {
        let front = items.drop_last();
        let last = items.len() - 1;
        let before = state::queue_of(front, chosen);
        lemma_queue_is_exact(front, chosen);
        assert forall|q: int| 0 <= q < queue.len() implies (#[trigger] queue[q]).0 < items.len()
            && chosen(queue[q].0 as int) && queue[q].1 == items[queue[q].0 as int] by {
            if q < before.len() {
                assert(queue[q] == before[q]);
                assert(front[before[q].0 as int] == items[before[q].0 as int]);
            }
        }
        assert forall|q: int, r: int| 0 <= q < r < queue.len() implies (#[trigger] queue[q]).0 < (
        #[trigger] queue[r]).0 by {
            assert(queue[q] == before[q]);
            if r < before.len() {
                assert(queue[r] == before[r]);
            }
        }
        assert forall|i: int| 0 <= i < items.len() && #[trigger] chosen(i) implies exists|q: int|
            0 <= q < queue.len() && (#[trigger] queue[q]).0 == i by {
            if i < last {
                let q = choose|q: int| 0 <= q < before.len() && (#[trigger] before[q]).0 == i;
                assert(queue[q] == before[q]);
            } else {
                assert(queue[queue.len() - 1].0 == i);
            }
        }
    }
}

/// A `y` queues exactly what was confirmed: the one Item; all Items of the group that
/// may be reclaimed; or all that are selected. Each is queued once, in the order of
/// the list, and nothing leaves the list yet.
pub proof fn law_yes_queues_exactly_what_was_confirmed(st: StateView, target: ConfirmTarget)
    requires
        st.valid(),
        st.mode == (Mode::Confirm { target }),
    ensures
        ({
            let after = state::pressed(st, Key::Char('y'));
            let queue = after.job->0.queue;
            &&& state::pressed(st, Key::Char('Y')) == after
            &&& after.items == st.items && after.ticked == st.ticked
            &&& after.mode == (if after.job is Some {
                Mode::Reclaiming
            } else {
                Mode::Browse
            })
            &&& after.job is Some ==> after.job->0.progress.total == queue.len()
                && after.job->0.successes.len() == 0 && after.job->0.progress.completed == 0
                && !after.job->0.progress.stop_requested
            &&& match target {
                ConfirmTarget::Item { index } => if index < st.items.len()
                    && st.items[index as int].may_reclaim() {
                    after.job is Some && queue == seq![(index, st.items[index as int])]
                } else {
                    after.job is None
                },
                ConfirmTarget::Group { class } => {
                    &&& after.job is Some ==> queues_exactly(
                        st.items,
                        |i: int| st.items[i].class == class && st.items[i].may_reclaim(),
                        queue,
                    )
                    &&& after.job is None ==> forall|i: int|
                        0 <= i < st.items.len() ==> !((#[trigger] st.items[i]).class == class
                            && st.items[i].may_reclaim())
                },
                ConfirmTarget::Selection => {
                    &&& after.job is Some ==> queues_exactly(
                        st.items,
                        |i: int| st.ticked[i],
                        queue,
                    )
                    &&& after.job is None ==> forall|i: int|
                        0 <= i < st.ticked.len() ==> !#[trigger] st.ticked[i]
                },
            }
        }),
{
    match target {
        ConfirmTarget::Item { index } => {},
        ConfirmTarget::Group { class } => {
            let chosen = |i: int| st.items[i].class == class && st.items[i].may_reclaim();
            lemma_queue_is_exact(st.items, chosen);
            let queue = state::queue_of(st.items, chosen);
            assert forall|i: int| queue.len() == 0 && 0 <= i < st.items.len() implies !((
            #[trigger] st.items[i]).class == class && st.items[i].may_reclaim()) by {
                if chosen(i) {
                    let q = choose|q: int| 0 <= q < queue.len() && (#[trigger] queue[q]).0 == i;
                    assert(queue[q].0 == i);
                }
            }
        },
        ConfirmTarget::Selection => {
            let chosen = |i: int| st.ticked[i];
            lemma_queue_is_exact(st.items, chosen);
            let queue = state::queue_of(st.items, chosen);
            assert forall|i: int| queue.len() == 0 && 0 <= i < st.ticked.len() implies !(
            #[trigger] st.ticked[i]) by {
                if chosen(i) {
                    let q = choose|q: int| 0 <= q < queue.len() && (#[trigger] queue[q]).0 == i;
                    assert(queue[q].0 == i);
                }
            }
        },
    }
}

/// While a Reclaim of several Items runs, `s`, `S` and Esc ask it to stop, and any
/// other key does nothing. What is queued and what was done stay as they are.
pub proof fn law_the_stop_keys(st: StateView, key: Key)
    requires
        st.mode == Mode::Reclaiming,
        st.job is Some,
    ensures
        ({
            let after = state::pressed(st, key);
            let stops = key == Key::Char('s') || key == Key::Char('S') || key == Key::Esc;
            &&& after.mode == Mode::Reclaiming && after.items == st.items && after.ticked
                == st.ticked
            &&& after.job is Some && after.job->0.queue == st.job->0.queue
                && after.job->0.successes == st.job->0.successes
            &&& after.job->0.progress.stop_requested == (st.job->0.progress.stop_requested || (
            stops && st.job->0.progress.total > 1))
            &&& after.job->0.progress.completed == st.job->0.progress.completed
            &&& !stops ==> after == st
        }),
{
}

/// A report about an Item changes the progress alone; the end of a Reclaim takes what
/// was reclaimed out of the list and out of the selection, and nothing else, and
/// goes back to browsing.
pub proof fn law_items_leave_at_the_end(st: StateView, message: ReclaimMessage)
    requires
        st.job is Some,
    ensures
        ({
            let after = state::received(st, message);
            match message {
                ReclaimMessage::ItemStarted { .. } => after == (StateView {
                    job: Some(job::advanced(st.job->0, message)),
                    ..st
                }),
                ReclaimMessage::ItemFinished { .. } => after == (StateView {
                    job: Some(job::advanced(st.job->0, message)),
                    ..st
                }),
                _ => {
                    &&& after.mode == Mode::Browse && after.job is None
                    &&& after.items == state::without(st.items, st.job->0.successes)
                    &&& after.ticked == state::without(st.ticked, st.job->0.successes)
                    &&& after.root == st.root && after.show_overview == st.show_overview
                },
            }
        }),
{
}

/// Reports are taken in one by one, in their order.
pub proof fn law_reports_are_taken_in_order(
    st: StateView,
    messages: Seq<ReclaimMessage>,
    message: ReclaimMessage,
)
    ensures
        state::drained(st, Seq::empty()) == st,
        state::drained(st, messages.push(message)) == state::received(
            state::drained(st, messages),
            message,
        ),
{
    assert(messages.push(message).drop_last() =~= messages);
}

/// What was reported as reclaimed, and only that, is gone once the Reclaim has ended:
/// an Item whose success was reported leaves, and an Item whose failure was reported,
/// or of which nothing was reported, stays.
pub proof fn law_success_takes_an_item_out(st: StateView, running: JobView, i: usize)
    requires
        st.job == Some(running),
        st.items.len() <= usize::MAX,
        i < st.items.len(),
        forall|k: int|
            0 <= k < st.items.len() && k != i ==> (#[trigger] st.items[k]).path
                != st.items[i as int].path,
    ensures
        running.successes.contains(i) ==> forall|k: int|
            0 <= k < state::with_job_finished(st).items.len() ==> (
            #[trigger] state::with_job_finished(st).items[k]).path != st.items[i as int].path,
        !running.successes.contains(i) ==> state::with_job_finished(st).items.contains(
            st.items[i as int],
        ),
{
    let gone = running.successes;
    let kept = guarantees::kept_places(st.items.len(), gone);
    guarantees::law_only_reclaimed_items_leave(st.items, gone);
    let after = state::with_job_finished(st).items;
    assert(after == state::without(st.items, gone));
    assert forall|k: int| gone.contains(i) && 0 <= k < after.len() implies (
    #[trigger] after[k]).path != st.items[i as int].path by {
        assert(after[k] == st.items[kept[k]]);
        assert(kept.contains(kept[k]));
        assert(kept[k] != i);
    }
}

/// A highlight that points at a row stays there when the list changes, and one that
/// points behind the end moves to the last row.
pub proof fn law_a_highlight_stays_where_it_can(selected: Option<usize>, len: nat)
    requires
        len <= usize::MAX,
    ensures
        len == 0 ==> state::clamped(selected, len) is None,
        len > 0 && selected is None ==> state::clamped(selected, len) == Some(0usize),
        len > 0 && selected is Some && selected->0 < len ==> state::clamped(selected, len)
            == selected,
        len > 0 && selected is Some && selected->0 >= len ==> state::clamped(selected, len)
            == Some((len - 1) as usize),
{
}

/// At the start the group with the most to reclaim is highlighted, the last of
/// several; the first group where there is nothing to reclaim.
pub proof fn law_the_default_group_offers_most(
    all: Seq<groups::GroupView>,
    selected: Option<usize>,
    other: int,
)
    requires
        state::is_default_group(all, selected),
        0 <= other < all.len(),
    ensures
        selected is Some && selected->0 < all.len(),
        all[other].reclaimable_bytes <= all[selected->0 as int].reclaimable_bytes,
        other > selected->0 && all[other].reclaimable_bytes > 0 ==> all[other].reclaimable_bytes
            < all[selected->0 as int].reclaimable_bytes,
        all[selected->0 as int].reclaimable_bytes == 0 ==> selected == Some(0usize),
{
}

/// `t` shows or hides the overview and changes nothing else but the status line.
pub proof fn law_t_shows_or_hides_the_overview(st: StateView)
    requires
        st.mode == Mode::Browse,
    ensures
        ({
            let after = state::pressed(st, Key::Char('t'));
            &&& after.show_overview == !st.show_overview
            &&& same_items_and_mode(after, st) && after.ticked == st.ticked
            &&& after.screen == st.screen && after.group_list == st.group_list && after.item_list
                == st.item_list
        }),
{
}

/// Overriding an Item leaves the list where it is: the same group stays open and the
/// same row highlighted.
pub proof fn law_overriding_keeps_the_place(st: StateView, class: SafetyClass, row: usize)
    requires
        st.valid(),
        st.mode == Mode::Browse,
        st.screen == (Screen::Items { class }),
        st.item_list == Some(row),
        row < groups::group_of(st.items, class).count,
    ensures
        state::pressed(st, Key::Char('o')).screen == st.screen,
        state::pressed(st, Key::Char('o')).item_list == st.item_list,
{
    groups::law_places_of_a_class(st.items, class);
    let i = groups::places_of(st.items, class)[row as int];
    let next = state::overridden_as(st.items[i], !st.items[i].overridden);
    guarantees::lemma_places_keep(st.items, i, next, class);
}

/// After a Reclaim the open group stays open while it has Items left, and the groups
/// are shown once it has none.
pub proof fn law_an_emptied_group_is_left(st: StateView, class: SafetyClass)
    requires
        st.job is Some,
        st.screen == (Screen::Items { class }),
    ensures
        ({
            let after = state::with_job_finished(st);
            let left = groups::group_of(after.items, class).count;
            &&& left > 0 ==> after.screen == st.screen && after.item_list == state::clamped(
                st.item_list,
                left,
            )
            &&& left == 0 ==> after.screen == Screen::Groups && after.item_list is None
            &&& after.group_list == state::clamped(
                st.group_list,
                groups::groups(after.items).len(),
            )
        }),
{
    groups::law_places_of_a_class(
        state::without(st.items, st.job->0.successes),
        class,
    );
}

/// A Reclaim says what it is about.
pub proof fn law_a_reclaim_says_what_it_is_about(st: StateView, target: ConfirmTarget)
    requires
        st.job is None,
        state::with_job_started(st, target).job is Some,
    ensures
        ({
            let progress = state::with_job_started(st, target).job->0.progress;
            match target {
                ConfirmTarget::Item { .. } => progress.title == "Reclaiming Item"@
                    && progress.target_label == "Item"@,
                ConfirmTarget::Group { class } => progress.title == "Reclaiming "@
                    + model::class_label(class) + " group"@ && progress.target_label
                    == model::class_label(class) + " Items"@,
                ConfirmTarget::Selection => progress.title == "Reclaiming selection"@
                    && progress.target_label == "selected Items"@,
            }
        }),
{
}

/// Why nothing is asked: an Item that waits for an override is said to, and anything
/// else that may not be reclaimed is called so, by its path and class.
pub proof fn law_a_refusal_says_why(item: ItemView)
    ensures
        item.class == SafetyClass::Unclassified || item.class == SafetyClass::BrowserCache
            ==> state::item_refusal(item) == text::lossy_utf8(item.path) + " is "@
            + model::class_label(item.class) + ". Press o to override before Reclaim."@,
        item.class == SafetyClass::Irreplaceable ==> state::item_refusal(item)
            == text::lossy_utf8(item.path) + " is "@ + model::class_label(item.class)
            + ". Not reclaimable."@,
        state::group_refusal(SafetyClass::Irreplaceable)
            == "Irreplaceable is Protected. Not reclaimable."@,
        state::group_refusal(SafetyClass::Unclassified)
            == "Unclassified is not offered. Open the group and press o on Items to override."@,
        state::group_refusal(SafetyClass::BrowserCache)
            == "BrowserCache is not offered. Open the group and press o on Items to override."@,
{
}

/// An override says where the Item will go: to the Trash if no Rule knows it, and
/// away for good if it is the cache of a browser.
pub proof fn law_an_override_says_where_the_item_goes(item: ItemView)
    ensures
        item.overridden && item.class == SafetyClass::Unclassified ==> state::override_status(item)
            == "Overridden → will Trash on Confirm: "@ + text::lossy_utf8(item.path),
        item.overridden && item.class == SafetyClass::BrowserCache ==> state::override_status(item)
            == "Overridden → will delete on Confirm: "@ + text::lossy_utf8(item.path),
        !item.overridden ==> state::override_status(item) == "Override cleared."@,
{
}

/// What the user is told of a class says how it comes back, and of what is not
/// offered that it is not.
pub proof fn law_a_hint_fits_its_class()
    ensures
        state::recovery_hint(SafetyClass::Regenerable) == "Recovery: rebuild after Reclaim"@,
        state::recovery_hint(SafetyClass::Reinstallable)
            == "Recovery: reinstall dependencies after Reclaim"@,
        state::recovery_hint(SafetyClass::Cache) == "Recovery: cache refills automatically"@,
        state::recovery_hint(SafetyClass::RedundantCopy) == "Recovery: the surviving copy remains"@,
        state::recovery_hint(SafetyClass::Unclassified)
            == "Open group and override individual Items before Reclaim"@,
        state::recovery_hint(SafetyClass::BrowserCache)
            == "Open group and override individual Items before Reclaim"@,
        state::recovery_hint(SafetyClass::Irreplaceable) == "Protected: not offered for Reclaim"@,
{
}

/// The bytes that reports speak of are those of the Items that were dealt with.
pub proof fn law_reported_bytes_add_up(messages: Seq<ReclaimMessage>, message: ReclaimMessage)
    ensures
        state::reported_bytes(Seq::empty()) == 0,
        state::reported_bytes(messages.push(message)) == state::reported_bytes(messages) + (
        match message {
            ReclaimMessage::ItemFinished { bytes, .. } => bytes as nat,
            _ => 0,
        }),
{
    assert(messages.push(message).drop_last() =~= messages);
}

/// Opening a group says which, how many Items it has and how they come back; leaving
/// it says what can be done with groups.
pub proof fn law_opening_a_group_is_announced(st: StateView, group: GroupView)
    requires
        st.mode == Mode::Browse,
        st.screen == Screen::Groups,
        st.group() == Some(group),
    ensures
        state::pressed(st, Key::Enter).status == model::class_label(group.class)
            + " group open · "@ + text::decimal(group.count) + " "@ + state::item_word_text(
            group.count,
        ) + " · "@ + state::recovery_hint(group.class),
        state::pressed(state::pressed(st, Key::Enter), Key::Left).status
            == "Group view · Enter open group · c Confirm group · q quit."@,
        state::item_word_text(1) == "Item"@,
        forall|n: nat| n != 1 ==> #[trigger] state::item_word_text(n) == "Items"@,
{
}

/// A selection is announced by the number of its Items, and when it is empty it is
/// said to be.
pub proof fn law_a_selection_is_announced(st: StateView, key: Key)
    requires
        st.mode == Mode::Browse,
        key == Key::Char(' ') || key == Key::Char('a'),
        state::pressed(st, key).ticked != st.ticked,
    ensures
        ({
            let after = state::pressed(st, key);
            let count = state::tick_count(after.ticked);
            &&& count == 0 ==> after.status == "Selection cleared."@
            &&& count > 0 ==> after.status == text::decimal(count) + " "@ + state::item_word_text(
                count,
            ) + " selected · c Confirm selection."@
        }),
{
}

/// Where there is nothing to select, the user is told so and nothing else happens.
pub proof fn law_nothing_to_select_is_said(st: StateView)
    requires
        st.mode == Mode::Browse,
        forall|i: int| 0 <= i < st.items.len() ==> !(#[trigger] st.items[i]).may_reclaim(),
    ensures
        state::pressed(st, Key::Char('a')) == (StateView {
            status: "Nothing reclaimable to select."@,
            ..st
        }),
{
}

/// Any other key than yes takes a question back, says that nothing was deleted, and
/// changes nothing else.
pub proof fn law_a_cancelled_reclaim_says_so(st: StateView, key: Key)
    requires
        st.mode is Confirm,
        key != Key::Char('y'),
        key != Key::Char('Y'),
    ensures
        state::pressed(st, key) == (StateView {
            mode: Mode::Browse,
            status: "Reclaim cancelled. Nothing deleted."@,
            ..st
        }),
{
}

/// What cannot be overridden is said to be so, and nothing else happens.
pub proof fn law_what_cannot_be_overridden_is_said(st: StateView)
    requires
        st.mode == Mode::Browse,
    ensures
        st.item_place() is None ==> state::pressed(st, Key::Char('o')) == (StateView {
            status: "Open Unclassified to override individual Items."@,
            ..st
        }),
        st.item_place() is Some ==> ({
            let item = st.items[st.item_place()->0];
            item.class != SafetyClass::Unclassified && item.class != SafetyClass::BrowserCache
                ==> state::pressed(st, Key::Char('o')) == (StateView {
                status: model::class_label(item.class) + " cannot be overridden."@,
                ..st
            })
        }),
{
}

/// The status after a Reclaim is the summary of what it did, and while one runs the
/// status says what can be done about it.
pub proof fn law_a_reclaim_is_summed_up(st: StateView, target: ConfirmTarget)
    ensures
        st.job is Some ==> state::with_job_finished(st).status == job::finished_status(
            st.job->0.progress,
            st.job->0.last_success,
        ),
        st.job is None && state::with_job_started(st, target).job is Some
            ==> state::with_job_started(st, target).status
            == "Reclaim running. Only stop-after-current is available."@,
        st.mode == Mode::Reclaiming && st.job is Some ==> state::pressed(st, Key::Esc).status
            == if st.job->0.progress.total <= 1 {
            "Current Item is already running; wait for completion."@
        } else {
            "Stop requested. Current Item will finish; remaining Items will not start."@
        },
{
}

/// Where a Reclaim that was confirmed has nothing to do, none starts and the user is
/// told why.
pub proof fn law_a_reclaim_of_nothing_says_so(st: StateView, target: ConfirmTarget)
    requires
        st.job is None,
        state::with_job_started(st, target).job is None,
    ensures
        state::with_job_started(st, target) == (StateView {
            status: match target {
                ConfirmTarget::Item { index } => if index < st.items.len() {
                    text::lossy_utf8(st.items[index as int].path) + " is "@ + model::class_label(
                        st.items[index as int].class,
                    ) + ". Not reclaimable."@
                } else {
                    "Item is no longer available."@
                },
                ConfirmTarget::Group { class } => model::class_label(class)
                    + " group has nothing reclaimable."@,
                ConfirmTarget::Selection => "Nothing is selected."@,
            },
            ..st
        }),
{
}

/// Showing and hiding the overview is announced.
pub proof fn law_the_overview_is_announced(st: StateView)
    requires
        st.mode == Mode::Browse,
    ensures
        state::pressed(st, Key::Char('t')).status == if st.show_overview {
            "Overview pane off."@
        } else {
            "Overview pane on · bars scaled by on-disk size (t to hide)."@
        },
{
}

} // verus!
