use macclean::browse::loading_quits;
use macclean::groups::{group_summaries, item_indices_for_class};
use macclean::job::ReclaimMessage;
use macclean::model::{Evidence, Item, RecoveryMethod, SafetyClass, Scan};
use macclean::path::DiskPath;
use macclean::state::{AppState, ConfirmTarget, Key, Mode, Screen};

fn state_with(items: Vec<Item>) -> AppState {
    let mut state = AppState::new(Scan { root: DiskPath::new("/tmp"), items });
    state.status.clear();
    state
}

fn node_modules_item(path: &str) -> Item {
    Item {
        path: DiskPath::new(path),
        size_on_disk: 4096,
        class: SafetyClass::Reinstallable,
        recovery: RecoveryMethod::Reinstall { command: "npm install".into() },
        evidence: Evidence { summary: "node_modules".into() },
        override_reclaim: false,
    }
}

fn cache_item(path: &str, size_on_disk: u64) -> Item {
    Item {
        path: DiskPath::new(path),
        size_on_disk,
        class: SafetyClass::Cache,
        recovery: RecoveryMethod::AutoRefill,
        evidence: Evidence { summary: "cache".into() },
        override_reclaim: false,
    }
}

fn protected_item(path: &str, size_on_disk: u64) -> Item {
    Item {
        path: DiskPath::new(path),
        size_on_disk,
        class: SafetyClass::Irreplaceable,
        recovery: RecoveryMethod::NoRecovery,
        evidence: Evidence { summary: "VM image".into() },
        override_reclaim: false,
    }
}

fn unclassified_item(path: &str, override_reclaim: bool) -> Item {
    Item {
        path: DiskPath::new(path),
        size_on_disk: 4096,
        class: SafetyClass::Unclassified,
        recovery: RecoveryMethod::NoRecovery,
        evidence: Evidence { summary: "unknown".into() },
        override_reclaim,
    }
}

fn slow_regenerable_item(path: &str) -> Item {
    Item {
        path: DiskPath::new(path),
        size_on_disk: 4096,
        class: SafetyClass::Regenerable,
        recovery: RecoveryMethod::Rebuild { command: "make".into() },
        evidence: Evidence { summary: "fixture build output".into() },
        override_reclaim: false,
    }
}

fn browser_item(path: &str) -> Item {
    Item {
        path: DiskPath::new(path),
        size_on_disk: 4096,
        class: SafetyClass::BrowserCache,
        recovery: RecoveryMethod::AutoRefill,
        evidence: Evidence { summary: "browser".into() },
        override_reclaim: false,
    }
}

fn select_group(state: &mut AppState, class: SafetyClass) {
    let idx = group_summaries(&state.scan)
        .iter()
        .position(|group| group.class == class)
        .expect("group exists");
    state.group_list = Some(idx);
}

fn done(index: usize, bytes: u64) -> ReclaimMessage {
    ReclaimMessage::ItemFinished { index, bytes, result: Ok("removed".into()) }
}

fn failed(index: usize, error: &str) -> ReclaimMessage {
    ReclaimMessage::ItemFinished { index, bytes: 0, result: Err(error.into()) }
}

#[test]
fn default_selection_is_largest_reclaimable_group() {
    let state = state_with(vec![
        node_modules_item("/tmp/node_modules"),
        cache_item("/tmp/.npm", 16 * 1024),
        protected_item("/tmp/disk.img.raw", 64 * 1024),
    ]);
    let selected = state.selected_group_summary().expect("a group is selected");
    assert_eq!(selected.class, SafetyClass::Cache);
    assert_eq!(selected.reclaimable_bytes, 16 * 1024);
}

#[test]
fn default_selection_of_equals_and_of_nothing_reclaimable() {
    let equal =
        state_with(vec![node_modules_item("/tmp/node_modules"), cache_item("/tmp/.npm", 4096)]);
    assert_eq!(equal.selected_group_summary().unwrap().class, SafetyClass::Cache);
    let none =
        state_with(vec![unclassified_item("/tmp/x", false), protected_item("/tmp/y.vdi", 9)]);
    assert_eq!(none.group_list, Some(0));
    assert_eq!(none.selected_group_summary().unwrap().class, SafetyClass::Unclassified);
}

#[test]
fn enter_opens_selected_group() {
    let mut state = state_with(vec![node_modules_item("/tmp/node_modules")]);
    state.handle_key(Key::Enter);
    assert_eq!(state.screen, Screen::Items { class: SafetyClass::Reinstallable });
    assert_eq!(state.item_list, Some(0));
    assert_eq!(
        state.status,
        "Reinstallable group open · 1 Item · Recovery: reinstall dependencies after Reclaim"
    );
}

#[test]
fn item_reclaim_inside_group_still_opens_confirm_first() {
    let mut state = state_with(vec![node_modules_item("/tmp/node_modules")]);
    state.handle_key(Key::Enter);
    state.handle_key(Key::Char('c'));
    assert!(matches!(
        state.mode,
        Mode::Confirm { target: ConfirmTarget::Item { index: 0 } }
    ));
    assert!(state.reclaim_job.is_none(), "nothing is deleted before item Confirm");
}

#[test]
fn unclassified_group_requires_item_override_before_confirm() {
    let mut state = state_with(vec![unclassified_item("/tmp/mystery", false)]);

    state.handle_key(Key::Char('c'));
    assert!(matches!(state.mode, Mode::Browse));
    assert_eq!(
        state.status,
        "Unclassified is not offered. Open the group and press o on Items to override."
    );

    state.handle_key(Key::Enter);
    state.handle_key(Key::Char('o'));
    assert!(state.scan.items[0].override_reclaim);
    assert_eq!(state.status, "Overridden → will Trash on Confirm: /tmp/mystery");

    state.handle_key(Key::Esc);
    state.handle_key(Key::Char('c'));
    assert!(matches!(
        state.mode,
        Mode::Confirm { target: ConfirmTarget::Group { class: SafetyClass::Unclassified } }
    ));
}

#[test]
fn browser_cache_requires_an_override_too() {
    let mut state = state_with(vec![browser_item("/tmp/Safari")]);
    state.handle_key(Key::Char('c'));
    assert!(matches!(state.mode, Mode::Browse));
    state.handle_key(Key::Right);
    state.handle_key(Key::Char('c'));
    assert_eq!(
        state.status,
        "/tmp/Safari is BrowserCache. Press o to override before Reclaim."
    );
    state.handle_key(Key::Char('o'));
    assert_eq!(state.status, "Overridden → will delete on Confirm: /tmp/Safari");
    state.handle_key(Key::Char('c'));
    assert!(matches!(state.mode, Mode::Confirm { .. }));
    state.handle_key(Key::Esc);
    state.handle_key(Key::Char('o'));
    assert!(!state.scan.items[0].override_reclaim);
    assert_eq!(state.status, "Override cleared.");
}

#[test]
fn group_reclaim_key_opens_confirm_and_deletes_nothing() {
    let mut state = state_with(vec![node_modules_item("/tmp/node_modules")]);
    let quit = state.handle_key(Key::Char('c'));
    assert!(!quit);
    assert!(matches!(
        state.mode,
        Mode::Confirm { target: ConfirmTarget::Group { class: SafetyClass::Reinstallable } }
    ));
    assert!(state.reclaim_job.is_none(), "nothing is deleted before the y confirm");
    assert_eq!(state.scan.items.len(), 1);
}

#[test]
fn confirm_cancel_leaves_item_intact() {
    for key in [Key::Char('n'), Key::Enter, Key::Char('q'), Key::Esc, Key::Other] {
        let mut state = state_with(vec![node_modules_item("/tmp/node_modules")]);
        state.handle_key(Key::Char('c'));
        assert!(!state.handle_key(key));
        assert!(matches!(state.mode, Mode::Browse));
        assert!(state.reclaim_job.is_none());
        assert_eq!(state.scan.items.len(), 1);
        assert_eq!(state.status, "Reclaim cancelled. Nothing deleted.");
    }
}

#[test]
fn confirm_y_reclaims_the_group() {
    let mut state = state_with(vec![
        node_modules_item("/tmp/node_modules"),
        node_modules_item("/tmp/app/node_modules"),
        cache_item("/tmp/.npm", 1024),
    ]);
    select_group(&mut state, SafetyClass::Reinstallable);
    state.handle_key(Key::Char('c'));
    state.handle_key(Key::Char('y'));
    assert!(matches!(state.mode, Mode::Reclaiming));
    let job = state.reclaim_job.as_ref().unwrap();
    let queued: Vec<usize> = job.queue.iter().map(|q| q.index).collect();
    assert_eq!(queued, vec![0, 1], "other groups are left alone");
    assert_eq!(job.progress.title, "Reclaiming Reinstallable group");

    for index in queued {
        state.receive(done(index, 4096));
    }
    state.receive(ReclaimMessage::Finished { stopped: false });
    assert!(matches!(state.mode, Mode::Browse));
    assert_eq!(state.scan.items.len(), 1);
    assert_eq!(state.scan.items[0].path, DiskPath::new("/tmp/.npm"));
    assert_eq!(state.status, "Reclaimed 2 Reinstallable Items, 8.0K.");
}

#[test]
fn stop_after_current_leaves_remaining_group_items_untouched() {
    let mut state = state_with(vec![
        slow_regenerable_item("/tmp/one/buildcache"),
        slow_regenerable_item("/tmp/two/buildcache"),
    ]);
    select_group(&mut state, SafetyClass::Regenerable);
    state.handle_key(Key::Char('c'));
    state.handle_key(Key::Char('y'));
    state.receive(ReclaimMessage::ItemStarted {
        ordinal: 1,
        path: DiskPath::new("/tmp/one/buildcache"),
        action: "Running `sleep 0.2`".into(),
    });
    assert!(!state.handle_key(Key::Char('q')), "a running Reclaim cannot be quit");
    assert!(!state.handle_key(Key::Char('s')));
    assert!(state.reclaim_job.as_ref().unwrap().progress.stop_requested);
    state.receive(done(0, 4096));
    state.receive(ReclaimMessage::Finished { stopped: true });

    assert!(matches!(state.mode, Mode::Browse));
    assert_eq!(state.scan.items.len(), 1, "one Item was not touched");
    assert!(state.status.contains("Stopped after current Item"));
    assert!(state.status.contains("1 not touched"));
    assert_eq!(
        state.status,
        "Stopped after current Item. Reclaimed 1/2 Regenerable Items, 4.0K. 1 not touched."
    );
}

#[test]
fn a_single_item_cannot_be_stopped() {
    let mut state = state_with(vec![node_modules_item("/tmp/node_modules")]);
    state.handle_key(Key::Enter);
    state.handle_key(Key::Enter);
    state.handle_key(Key::Char('y'));
    assert_eq!(state.status, "Reclaim running. Only stop-after-current is available.");
    state.handle_key(Key::Esc);
    assert_eq!(state.status, "Current Item is already running; wait for completion.");
    state.receive(done(0, 4096));
    state.receive(ReclaimMessage::Finished { stopped: false });
    assert_eq!(state.status, "Reclaimed 4.0K (removed).");
}

#[test]
fn failures_are_counted_and_the_first_is_kept() {
    let items = || {
        vec![node_modules_item("/a"), node_modules_item("/b"), node_modules_item("/c")]
    };
    let mut state = state_with(items());
    state.handle_key(Key::Char('c'));
    state.handle_key(Key::Char('y'));
    state.receive(failed(0, "/a: removing /a"));
    state.receive(done(1, 4096));
    state.receive(failed(2, "/c: removing /c"));
    state.receive(ReclaimMessage::Finished { stopped: false });
    assert_eq!(
        state.status,
        "Reclaimed 1/3 Reinstallable Items, 4.0K. First failure: /a: removing /a"
    );
    // What was not reclaimed stays, in its order.
    let left: Vec<String> = state.scan.items.iter().map(|i| i.path.display()).collect();
    assert_eq!(left, ["/a", "/c"]);

    let mut state = state_with(items());
    state.handle_key(Key::Char('c'));
    state.handle_key(Key::Char('y'));
    state.receive(failed(0, "/a: removing /a"));
    state.receive(ReclaimMessage::Finished { stopped: true });
    assert_eq!(
        state.status,
        "Stopped after current Item. Reclaimed 0/3 Reinstallable Items, 0B. 2 not touched. \
         First failure: /a: removing /a"
    );
}

#[test]
fn a_lost_worker_ends_the_reclaim() {
    let mut state = state_with(vec![node_modules_item("/a"), node_modules_item("/b")]);
    state.handle_key(Key::Char('c'));
    state.handle_key(Key::Char('y'));
    assert!(state.reclaim_job.as_ref().unwrap().can_take(&ReclaimMessage::Disconnected));
    state.receive(ReclaimMessage::Disconnected);
    assert!(matches!(state.mode, Mode::Browse));
    assert_eq!(state.scan.items.len(), 2);
    assert_eq!(
        state.status,
        "Reclaimed 0/2 Reinstallable Items, 0B. First failure: reclaim worker stopped"
    );
    // A report without a Reclaim changes nothing.
    state.receive(done(0, 1));
    assert_eq!(state.scan.items.len(), 2);
}

#[test]
fn reports_are_taken_in_order_up_to_the_end() {
    let mut state = state_with(vec![node_modules_item("/a"), node_modules_item("/b")]);
    state.handle_key(Key::Char('c'));
    state.handle_key(Key::Char('y'));
    let reports = vec![
        failed(0, "/a: no"),
        done(1, 4096),
        ReclaimMessage::Finished { stopped: false },
        done(0, 4096),
    ];
    assert!(state.can_drain(&reports));
    assert!(!state.can_drain(&vec![done(0, u64::MAX), done(1, 1)]));
    state.drain_reclaim_messages(reports);
    assert!(matches!(state.mode, Mode::Browse));
    assert_eq!(state.scan.items.len(), 1);
    assert_eq!(state.scan.items[0].path, DiskPath::new("/a"));
    assert_eq!(state.status, "Reclaimed 1/2 Reinstallable Items, 4.0K. First failure: /a: no");
    assert!(loading_quits(Key::Esc) && loading_quits(Key::Char('q')));
    assert!(!loading_quits(Key::Enter));
}

#[test]
fn protected_item_never_reaches_confirm() {
    let mut state = state_with(vec![protected_item("/tmp/orbstack.img.raw", 4096)]);
    state.handle_key(Key::Char('c'));
    assert!(matches!(state.mode, Mode::Browse));
    assert_eq!(state.status, "Irreplaceable is Protected. Not reclaimable.");
    state.handle_key(Key::Enter);
    for key in [Key::Char('c'), Key::Enter, Key::Char(' '), Key::Char('o'), Key::Char('a')] {
        state.handle_key(key);
        assert!(matches!(state.mode, Mode::Browse));
        assert!(!state.has_selection());
    }
    state.handle_key(Key::Char('o'));
    assert_eq!(state.status, "Irreplaceable cannot be overridden.");
    state.handle_key(Key::Char('c'));
    assert_eq!(state.status, "/tmp/orbstack.img.raw is Irreplaceable. Not reclaimable.");
}

#[test]
fn empty_list_keys_are_safe_noops() {
    let mut state = state_with(vec![]);
    assert_eq!(state.group_list, None);
    for code in [
        Key::Down,
        Key::Up,
        Key::Char('o'),
        Key::Char('c'),
        Key::Enter,
        Key::Char(' '),
        Key::Char('a'),
    ] {
        assert!(!state.handle_key(code));
        assert!(matches!(state.mode, Mode::Browse));
        assert_eq!(state.group_list, None, "nothing to select in an empty group list");
    }
}

#[test]
fn reclaiming_last_item_clears_selection() {
    let mut state = state_with(vec![node_modules_item("/tmp/node_modules")]);
    state.screen = Screen::Items { class: SafetyClass::Reinstallable };
    state.item_list = Some(0);
    state.start_reclaim_job(ConfirmTarget::Item { index: 0 });
    state.receive(done(0, 4096));
    state.receive(ReclaimMessage::Finished { stopped: false });

    assert!(state.scan.items.is_empty());
    assert_eq!(state.item_list, None);
    assert_eq!(state.group_list, None);
    assert_eq!(state.screen, Screen::Groups);
}

#[test]
fn reclaiming_tail_item_keeps_selection_in_range() {
    let items: Vec<Item> = (0..3).map(|n| node_modules_item(&format!("/tmp/nm{n}"))).collect();
    let mut state = state_with(items);
    state.screen = Screen::Items { class: SafetyClass::Reinstallable };
    state.item_list = Some(2); // highlight the tail
    state.start_reclaim_job(ConfirmTarget::Item { index: 2 });
    state.receive(done(2, 4096));
    state.receive(ReclaimMessage::Finished { stopped: false });

    assert_eq!(state.scan.items.len(), 2);
    let sel = state.item_list.expect("selection survives");
    assert!(sel < state.scan.items.len(), "selection stays in range");
}

#[test]
fn what_is_gone_or_refused_starts_nothing() {
    let mut state = state_with(vec![protected_item("/p.vdi", 1)]);
    state.start_reclaim_job(ConfirmTarget::Item { index: 5 });
    assert_eq!(state.status, "Item is no longer available.");
    state.start_reclaim_job(ConfirmTarget::Item { index: 0 });
    assert_eq!(state.status, "/p.vdi is Irreplaceable. Not reclaimable.");
    state.start_reclaim_job(ConfirmTarget::Group { class: SafetyClass::Cache });
    assert_eq!(state.status, "Cache group has nothing reclaimable.");
    state.start_reclaim_job(ConfirmTarget::Selection);
    assert_eq!(state.status, "Nothing is selected.");
    assert!(matches!(state.mode, Mode::Browse));
    assert!(state.reclaim_job.is_none());
}

#[test]
fn move_sel_wraps_around() {
    let items: Vec<Item> = (0..3).map(|n| node_modules_item(&format!("/tmp/nm{n}"))).collect();
    let mut state = state_with(items);
    state.screen = Screen::Items { class: SafetyClass::Reinstallable };
    state.item_list = Some(0);

    state.move_sel(-1); // wrap from 0 back to the tail
    assert_eq!(state.item_list, Some(2));
    state.move_sel(1); // wrap from tail back to head
    assert_eq!(state.item_list, Some(0));
    state.move_sel(-7);
    assert_eq!(state.item_list, Some(2));
    state.move_sel(i32::MIN);
    assert_eq!(state.item_list, Some((2i64 - 2147483648).rem_euclid(3) as usize));
}

#[test]
fn overview_toggles_with_t() {
    let mut state = state_with(vec![node_modules_item("/tmp/node_modules")]);
    assert!(!state.show_overview, "overview starts hidden");
    state.handle_key(Key::Char('t'));
    assert!(state.show_overview, "t shows the overview");
    state.handle_key(Key::Char('t'));
    assert!(!state.show_overview, "t hides it again");
}

#[test]
fn groups_come_in_class_order_with_their_sums() {
    let state = state_with(vec![
        protected_item("/p.vdi", 5),
        unclassified_item("/u", true),
        unclassified_item("/v", false),
        cache_item("/c", 7),
    ]);
    let all = group_summaries(&state.scan);
    let classes: Vec<SafetyClass> = all.iter().map(|g| g.class).collect();
    assert_eq!(
        classes,
        vec![SafetyClass::Cache, SafetyClass::Unclassified, SafetyClass::Irreplaceable]
    );
    assert_eq!((all[1].count, all[1].total_bytes), (2, 8192));
    assert_eq!((all[1].reclaimable_count, all[1].reclaimable_bytes), (1, 4096));
    assert_eq!(item_indices_for_class(&state.scan, SafetyClass::Unclassified), vec![1, 2]);
}

#[test]
fn space_ticks_and_c_confirms_the_selection() {
    let mut state = state_with(vec![
        node_modules_item("/n"),
        cache_item("/c", 7),
        unclassified_item("/u", false),
    ]);
    select_group(&mut state, SafetyClass::Cache);
    state.handle_key(Key::Char(' '));
    assert_eq!(state.ticked, vec![false, true, false]);
    assert_eq!(state.status, "1 Item selected · c Confirm selection.");
    select_group(&mut state, SafetyClass::Unclassified);
    state.handle_key(Key::Char(' '));
    assert_eq!(state.ticked, vec![false, true, false]);
    // The selection is confirmed, not the highlighted group.
    state.handle_key(Key::Char('c'));
    assert!(matches!(state.mode, Mode::Confirm { target: ConfirmTarget::Selection }));
    state.handle_key(Key::Char('y'));
    let job = state.reclaim_job.as_ref().unwrap();
    assert_eq!(job.queue.len(), 1);
    assert_eq!(job.queue[0].item.path, DiskPath::new("/c"));
    state.receive(done(1, 7));
    state.receive(ReclaimMessage::Finished { stopped: false });
    assert_eq!(state.ticked, vec![false, false]);
    assert_eq!(state.status, "Reclaimed 7B (removed).");
}

#[test]
fn a_selects_and_clears_all_reclaimable() {
    let mut state = state_with(vec![
        node_modules_item("/n"),
        cache_item("/c", 7),
        unclassified_item("/u", true),
        unclassified_item("/v", false),
        protected_item("/p.vdi", 9),
    ]);
    state.handle_key(Key::Char('a'));
    assert_eq!(state.ticked, vec![true, true, true, false, false]);
    assert_eq!(state.status, "3 Items selected · c Confirm selection.");
    // Clearing an override takes the Item out of the selection.
    select_group(&mut state, SafetyClass::Unclassified);
    state.handle_key(Key::Enter);
    state.handle_key(Key::Char('o'));
    assert_eq!(state.ticked, vec![true, true, false, false, false]);
    state.handle_key(Key::Char('a'));
    assert!(!state.has_selection());
    assert_eq!(state.status, "Selection cleared.");
    // Ticking one Item twice.
    state.handle_key(Key::Char('o'));
    state.handle_key(Key::Char(' '));
    assert_eq!(state.ticked, vec![false, false, true, false, false]);
    state.handle_key(Key::Char(' '));
    assert!(!state.has_selection());
    // Nothing to select.
    let mut none = state_with(vec![protected_item("/p.vdi", 9)]);
    none.handle_key(Key::Char('a'));
    assert_eq!(none.status, "Nothing reclaimable to select.");
}

#[test]
fn keys_move_between_the_views() {
    let mut state = state_with(vec![node_modules_item("/n"), cache_item("/c", 9000)]);
    assert_eq!(state.group_list, Some(1));
    state.handle_key(Key::Char('j'));
    assert_eq!(state.group_list, Some(0));
    state.handle_key(Key::Char('k'));
    assert_eq!(state.group_list, Some(1));
    state.handle_key(Key::Right);
    assert_eq!(state.screen, Screen::Items { class: SafetyClass::Cache });
    for back in [Key::Left, Key::Backspace, Key::Char('b'), Key::Esc] {
        state.handle_key(back);
        assert_eq!(state.screen, Screen::Groups);
        assert_eq!(state.item_list, None);
        assert_eq!(state.status, "Group view · Enter open group · c Confirm group · q quit.");
        state.handle_key(Key::Right);
    }
    state.handle_key(Key::Left);
    assert!(state.handle_key(Key::Esc), "Esc in the group view quits");
    assert!(state.handle_key(Key::Char('q')));
    assert!(!state.handle_key(Key::Char('x')));
}

#[test]
fn overriding_needs_a_highlighted_item() {
    let mut state = state_with(vec![unclassified_item("/u", false)]);
    state.handle_key(Key::Char('o'));
    assert_eq!(state.status, "Open Unclassified to override individual Items.");
    assert!(!state.scan.items[0].override_reclaim);
}

#[test]
fn an_upper_case_y_confirms_too() {
    let mut state = state_with(vec![node_modules_item("/tmp/node_modules")]);
    state.handle_key(Key::Char('c'));
    state.handle_key(Key::Char('Y'));
    assert!(matches!(state.mode, Mode::Reclaiming));
}
