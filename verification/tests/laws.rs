use macclean::bars::bar_cells;
use macclean::browse::class_recovery_hint;
use macclean::classify::{match_rule_index, matches_path, wanted_markers, Markers};
use macclean::groups::group_summaries;
use macclean::job::ReclaimMessage;
use macclean::model::{Evidence, Item, RecoveryMethod, SafetyClass, Scan};
use macclean::path::DiskPath;
use macclean::ruleset::{Match, Rule, Ruleset};
use macclean::state::{AppState, Key, Mode};
use macclean::update::{parse_tag, Version};
use macclean::walk::{run, WalkEntry};

fn item(path: &str, size_on_disk: u64, class: SafetyClass) -> Item {
    Item {
        path: DiskPath::new(path),
        size_on_disk,
        class,
        recovery: RecoveryMethod::NoRecovery,
        evidence: Evidence { summary: "fixture".into() },
        override_reclaim: false,
    }
}

fn one_of_each() -> Vec<Item> {
    vec![
        item("/regenerable", 1, SafetyClass::Regenerable),
        item("/reinstallable", 2, SafetyClass::Reinstallable),
        item("/cache", 4, SafetyClass::Cache),
        item("/copy", 8, SafetyClass::RedundantCopy),
        item("/browser", 16, SafetyClass::BrowserCache),
        item("/unclassified", 32, SafetyClass::Unclassified),
        item("/irreplaceable", 64, SafetyClass::Irreplaceable),
    ]
}

fn app() -> AppState {
    AppState::new(Scan { root: DiskPath::new("/"), items: one_of_each() })
}

const KEYS: [Key; 18] = [
    Key::Char('q'),
    Key::Char('j'),
    Key::Char('k'),
    Key::Char('b'),
    Key::Char('o'),
    Key::Char('t'),
    Key::Char('c'),
    Key::Char(' '),
    Key::Char('a'),
    Key::Char('x'),
    Key::Up,
    Key::Down,
    Key::Left,
    Key::Right,
    Key::Enter,
    Key::Esc,
    Key::Backspace,
    Key::Other,
];

#[test]
fn without_a_yes_nothing_is_ever_reclaimed() {
    let mut state = app();
    let mut seed: usize = 12345;
    for _ in 0..5000 {
        seed = (seed * 1103515245 + 12345) % 2147483648;
        state.handle_key(KEYS[(seed / 65536) % KEYS.len()]);
        assert!(state.reclaim_job.is_none());
        assert_ne!(state.mode, Mode::Reclaiming);
        assert_eq!(state.scan.items.len(), 7);
        assert!(!state.scan.items[6].override_reclaim);
        assert!(!state.ticked[6], "a Protected Item is never selected");
        if let Some(g) = state.group_list {
            assert!(g < group_summaries(&state.scan).len());
        }
    }
}

#[test]
fn whatever_is_pressed_only_permitted_items_are_queued() {
    let mut state = app();
    let mut seed: usize = 99;
    let mut jobs = 0;
    for _ in 0..5000 {
        seed = (seed * 1103515245 + 12345) % 2147483648;
        let k = (seed / 65536) % (KEYS.len() + 1);
        state.handle_key(if k < KEYS.len() { KEYS[k] } else { Key::Char('y') });
        if let Some(job) = &state.reclaim_job {
            jobs += 1;
            assert!(!job.queue.is_empty());
            for queued in &job.queue {
                assert!(queued.item.may_reclaim());
                assert_ne!(queued.item.class, SafetyClass::Irreplaceable);
                assert_eq!(queued.item.path, state.scan.items[queued.index].path);
            }
            state.receive(ReclaimMessage::Finished { stopped: true });
            assert_eq!(state.scan.items.len(), 7, "nothing was reported as reclaimed");
        }
    }
    assert!(jobs > 0);
}

#[test]
fn a_confirm_can_always_be_given() {
    for class in 0..7 {
        for open in [false, true] {
            for overridden in [false, true] {
                let mut state = app();
                state.group_list = Some(class);
                if open {
                    state.handle_key(Key::Enter);
                    if overridden {
                        state.handle_key(Key::Char('o'));
                    }
                }
                state.handle_key(Key::Char('c'));
                if let Mode::Confirm { .. } = state.mode {
                    state.handle_key(Key::Char('y'));
                    assert_eq!(state.mode, Mode::Reclaiming);
                }
            }
        }
    }
}

#[test]
fn groups_hold_every_item_once() {
    let state = app();
    let groups = group_summaries(&state.scan);
    assert_eq!(groups.len(), 7);
    assert_eq!(groups.iter().map(|g| g.count).sum::<usize>(), 7);
    assert_eq!(groups.iter().map(|g| g.total_bytes).sum::<u64>(), 127);
    assert_eq!(groups.iter().map(|g| g.reclaimable_bytes).sum::<u64>(), 15);
    for group in groups {
        assert!(!class_recovery_hint(group.class).is_empty());
    }
}

#[test]
fn bars_grow_with_size() {
    let sizes = [1u64, 2, 3, 1000, 1001, 1 << 40, (1 << 53) + 1, (1 << 60) + 7, u64::MAX];
    for max in sizes {
        for width in [1u16, 7, 80, 65535] {
            let bars: Vec<u16> = sizes.iter().map(|&s| bar_cells(s, max, width)).collect();
            assert!(bars.windows(2).all(|w| w[0] <= w[1]));
            assert!(bars.iter().all(|&b| 1 <= b && b <= width));
            assert_eq!(bar_cells(max, max, width), width);
        }
    }
}

#[test]
fn items_are_never_larger_than_what_was_walked() {
    let entry = |path: &str, depth, is_dir, bytes, rule_idx| WalkEntry {
        path: DiskPath::new(path),
        depth,
        is_dir,
        bytes,
        rule_idx,
    };
    let rules = Ruleset::defaults();
    let entries = vec![
        entry("/r", 0, true, 10, None),
        entry("/r/a", 1, true, 20, None),
        entry("/r/a/node_modules", 2, true, 30, Some(3)),
        entry("/r/a/big", 2, true, 40, None),
        entry("/r/a/big/disk.vdi", 3, false, 50, Some(9)),
        entry("/r/a/big/deep", 3, true, 60, None),
        entry("/r/b", 1, true, 70, None),
    ];
    let scan = run(&DiskPath::new("/r"), &entries, &rules, 1);
    let sum: u64 = scan.items.iter().map(|i| i.size_on_disk).sum();
    let sizes: Vec<u64> = scan.items.iter().map(|i| i.size_on_disk).collect();
    assert_eq!(sizes, vec![70, 60, 50, 30]);
    assert!(sum <= 280);
    assert!(scan.reclaimable_bytes() <= sum);
    assert!(scan.items.iter().all(|i| !i.override_reclaim));
}

#[test]
fn asking_for_more_markers_changes_nothing() {
    let rules = Ruleset::defaults();
    for name in ["/p/target", "/p/build", "/p/.next", "/p/data"] {
        let path = DiskPath::new(name);
        let there = ["Cargo.toml", "package.json", "README.md"];
        let all = Markers {
            siblings: there.iter().map(|s| s.to_string()).collect(),
            children: vec!["PG_VERSION".into(), "src".into()],
        };
        let wanted = wanted_markers(&rules, &path, true);
        let kept = |asked: Vec<String>, there: &Vec<String>| {
            asked.into_iter().filter(|m| there.contains(m)).collect()
        };
        let few = Markers {
            siblings: kept(wanted.siblings, &all.siblings),
            children: kept(wanted.children, &all.children),
        };
        assert_eq!(
            match_rule_index(&rules, &path, true, &all),
            match_rule_index(&rules, &path, true, &few)
        );
    }
}

#[test]
fn sorting_is_stable_and_loses_nothing() {
    let sizes: Vec<u64> = (0..500).map(|i| 1 + (i * 7919) % 101).collect();
    let mut entries = vec![WalkEntry {
        path: DiskPath::new("/r"),
        depth: 0,
        is_dir: true,
        bytes: 0,
        rule_idx: None,
    }];
    for (i, bytes) in sizes.iter().enumerate() {
        entries.push(WalkEntry {
            path: DiskPath::new(&format!("/r/{i}")),
            depth: 1,
            is_dir: true,
            bytes: *bytes,
            rule_idx: None,
        });
    }
    let scan = run(&DiskPath::new("/r"), &entries, &Ruleset { rules: vec![] }, 1);
    let mut want: Vec<(usize, u64)> = sizes.into_iter().enumerate().collect();
    want.sort_by(|a, b| b.1.cmp(&a.1));
    let got: Vec<(usize, u64)> =
        scan.items.iter().map(|i| (i.path.name().parse().unwrap(), i.size_on_disk)).collect();
    assert_eq!(got, want);
}

#[test]
fn tags_read_back() {
    for (major, minor, patch) in [(0, 0, 0), (1, 20, 300), (u32::MAX, u32::MAX, 9)] {
        let version = Version { major, minor, patch };
        assert_eq!(parse_tag(&version.tag()), Some(version));
        assert_eq!(parse_tag(&format!("{}-rc1", version.tag())), None);
    }
}

#[test]
fn regenerable_defaults_carry_their_commands() {
    let mut seen = Vec::new();
    for rule in &Ruleset::defaults().rules {
        if rule.class == SafetyClass::Regenerable {
            assert!(rule.recover_command.is_some(), "{}", rule.name);
            seen.push((rule.name.clone(), rule.clean_command.clone().unwrap()));
        }
    }
    let want = [
        ("rust-target", "cargo clean"),
        ("flutter-build", "flutter clean"),
        ("next-build", "rm -rf .next"),
        ("treehouse-workspaces", "rm -rf .treehouse"),
    ];
    let want: Vec<(String, String)> =
        want.iter().map(|(name, clean)| (name.to_string(), clean.to_string())).collect();
    assert_eq!(seen, want);
}

#[test]
fn every_reclaimable_class_has_a_way_back() {
    let classes = [
        (SafetyClass::Regenerable, "rebuild via `make`"),
        (SafetyClass::Reinstallable, "reinstall via `make`"),
        (SafetyClass::Cache, "refills automatically on next use"),
        (SafetyClass::RedundantCopy, "the surviving copy"),
        (SafetyClass::Irreplaceable, "not recoverable"),
    ];
    for (class, want) in classes {
        let rules = Ruleset {
            rules: vec![Rule {
                name: "archive".into(),
                matches: Match::Any { of: vec![Match::NameGlob { pattern: "*.zst".into() }] },
                class,
                clean_command: None,
                recover_command: Some("make".into()),
                evidence: "A zstd archive recognized by extension.".into(),
            }],
        };
        let rules = rules.clone();
        let root = DiskPath::new("/r");
        let file = DiskPath::new("/r/a.zst");
        let none = Markers { siblings: vec![], children: vec![] };
        let entry = |path: &DiskPath, depth: usize, is_dir: bool| WalkEntry {
            path: path.clone(),
            depth,
            is_dir,
            bytes: 5,
            rule_idx: match_rule_index(&rules, path, is_dir, &none),
        };
        let entries = vec![entry(&root, 0, true), entry(&file, 1, false)];
        let scan = run(&root, &entries, &rules, 1);
        assert_eq!(scan.items.len(), 1);
        assert_eq!(scan.items[0].class, class);
        assert_eq!(scan.items[0].recovery_line(), want);
    }
}

#[test]
fn no_item_lies_in_another() {
    let paths = ["/r", "/r/a", "/r/a/node_modules", "/r/a/node_modules/x", "/r/a/big", "/r/ab"];
    let rules = Ruleset::defaults();
    let none = Markers { siblings: vec![], children: vec![] };
    let entries: Vec<WalkEntry> = paths
        .iter()
        .map(|p| WalkEntry {
            path: DiskPath::new(p),
            depth: p.matches('/').count() - 1,
            is_dir: true,
            bytes: 10,
            rule_idx: match_rule_index(&rules, &DiskPath::new(p), true, &none),
        })
        .collect();
    let scan = run(&DiskPath::new("/r"), &entries, &rules, 1);
    let found: Vec<String> = scan.items.iter().map(|i| i.path.display()).collect();
    assert_eq!(found, ["/r/a/node_modules", "/r/a/big", "/r/ab"]);
    for a in &found {
        for b in &found {
            assert!(a == b || !a.starts_with(&format!("{b}/")));
        }
    }
}

#[test]
fn the_arrangement_of_conditions_does_not_matter() {
    let named = |dir: &str| Match::DirNamed { dir: dir.into() };
    let glob = |pattern: &str| Match::NameGlob { pattern: pattern.into() };
    let holds = |matches: &Match, path: &str| {
        let none = Markers { siblings: vec![], children: vec![] };
        matches_path(matches, &DiskPath::new(path), true, &none)
    };
    let a = Match::All { of: vec![Match::Any { of: vec![named("x"), named("y")] }, glob("?")] };
    let b = Match::All {
        of: vec![
            glob("?"),
            Match::Any { of: vec![named("y"), named("x"), named("y")] },
            glob("?"),
        ],
    };
    for path in ["/x", "/y", "/z", "/xy", "/"] {
        assert_eq!(holds(&a, path), holds(&b, path), "{path}");
        assert!(holds(&Match::All { of: vec![] }, path));
        assert!(!holds(&Match::Any { of: vec![] }, path));
    }
    assert!(holds(&a, "/x") && !holds(&a, "/z"));
}

#[test]
fn groups_add_up_to_the_scan() {
    let item = |path: &str, size_on_disk: u64, class: SafetyClass, override_reclaim: bool| Item {
        path: DiskPath::new(path),
        size_on_disk,
        class,
        recovery: RecoveryMethod::NoRecovery,
        evidence: Evidence { summary: "fixture".into() },
        override_reclaim,
    };
    let scan = Scan {
        root: DiskPath::new("/"),
        items: vec![
            item("/a", 1, SafetyClass::Irreplaceable, false),
            item("/b", 20, SafetyClass::Unclassified, true),
            item("/c", 300, SafetyClass::Unclassified, false),
            item("/d", 4000, SafetyClass::Cache, false),
        ],
    };
    let groups = group_summaries(&scan);
    let classes: Vec<SafetyClass> = groups.iter().map(|g| g.class).collect();
    let want = [SafetyClass::Cache, SafetyClass::Unclassified, SafetyClass::Irreplaceable];
    assert_eq!(classes, want);
    assert_eq!(groups.iter().map(|g| g.count).sum::<usize>(), 4);
    assert_eq!(groups.iter().map(|g| g.total_bytes).sum::<u64>(), 4321);
    assert_eq!(groups.iter().map(|g| g.reclaimable_count).sum::<usize>(), 2);
    let offered: u64 = groups.iter().map(|g| g.reclaimable_bytes).sum();
    assert_eq!(offered, 4020);
    assert_eq!(offered, scan.reclaimable_bytes());
}
