use macclean::classify::{wanted_markers, Markers};
use macclean::measure::{
    attribute_value, child_marker, entry_on_disk_bytes, is_entry_name, joined, mode_is_dir, mode_is_reg,
    plan_child, private_size, total_size, tree_bytes, walk_entry, walked_total, with_below, ChildPlan,
};
use macclean::model::{Item, RecoveryMethod, SafetyClass, Scan};
use macclean::path::DiskPath;
use macclean::ruleset::{Match, Rule, Ruleset};
use macclean::walk::{run, WalkEntry};

/// A directory tree in memory.
struct Node {
    name: String,
    dir: bool,
    bytes: u64,
    below: Vec<Node>,
}

fn file(name: &str, bytes: u64) -> Node {
    Node { name: name.into(), dir: false, bytes, below: vec![] }
}

fn dir(name: &str, below: Vec<Node>) -> Node {
    Node { name: name.into(), dir: true, bytes: 0, below }
}

fn total(node: &Node) -> u64 {
    node.bytes + node.below.iter().map(total).sum::<u64>()
}

fn walk(
    node: &Node,
    path: DiskPath,
    depth: usize,
    siblings: &[Node],
    ruleset: &Ruleset,
    prune: bool,
) -> Vec<WalkEntry> {
    let wanted = wanted_markers(ruleset, &path, node.dir);
    let markers = Markers {
        siblings: wanted
            .siblings
            .into_iter()
            .filter(|m| siblings.iter().any(|n| &n.name == m))
            .collect(),
        children: wanted
            .children
            .into_iter()
            .filter(|m| node.below.iter().any(|n| &n.name == m))
            .collect(),
    };
    let below_path = path.clone();
    let mut entry = walk_entry(ruleset, path, depth, node.dir, node.bytes, &markers);
    match plan_child(&entry) {
        ChildPlan::Leaf => vec![entry],
        ChildPlan::MeasureWhole if prune && depth > 0 => {
            entry.bytes = total(node);
            vec![entry]
        }
        _ => {
            let subtrees = node
                .below
                .iter()
                .map(|child| {
                    let child_path = below_path.join(&DiskPath::new(&child.name));
                    walk(child, child_path, depth + 1, &node.below, ruleset, prune)
                })
                .collect();
            with_below(entry, joined(subtrees))
        }
    }
}

fn scan(below: Vec<Node>, ruleset: &Ruleset, min: u64) -> Scan {
    let root = dir("root", below);
    let path = DiskPath::new("/root");
    let entries = walk(&root, path.clone(), 0, &[], ruleset, true);
    assert!(walked_total(&entries).is_some());
    let found = run(&path, &entries, ruleset, min);
    // Looking into matched directories finds the same.
    let all = walk(&root, path.clone(), 0, &[], ruleset, false);
    assert!(all.len() >= entries.len());
    let again = run(&path, &all, ruleset, min);
    let shown = |s: &Scan| -> Vec<(String, u64, SafetyClass)> {
        s.items.iter().map(|i| (i.path.display(), i.size_on_disk, i.class)).collect()
    };
    assert_eq!(shown(&found), shown(&again));
    found
}

fn item_for<'a>(scan: &'a Scan, name: &str) -> &'a Item {
    scan.items
        .iter()
        .find(|i| i.path.name() == name)
        .unwrap_or_else(|| panic!("no Item named {name} in scan"))
}

fn absent(scan: &Scan, name: &str) -> bool {
    scan.items.iter().all(|i| i.path.name() != name)
}

#[test]
fn deep_tree_scan_matches_sibling_and_child_marker_rules() {
    let mut deep = vec![
        dir(
            "project",
            vec![file("Cargo.toml", 512), dir("target", vec![file("artifact", 4096)])],
        ),
        dir("pgdata", vec![file("PG_VERSION", 512), file("relation", 4096)]),
    ];
    for i in (0..32).rev() {
        deep = vec![dir(&format!("{i:02x}"), deep)];
    }
    let s = scan(deep, &Ruleset::defaults(), 1024 * 1024 * 1024);
    assert_eq!(item_for(&s, "target").class, SafetyClass::Regenerable);
    assert_eq!(item_for(&s, "pgdata").class, SafetyClass::Irreplaceable);
    assert_eq!(s.items.len(), 2);
}

#[test]
fn vm_image_and_postgres_dir_are_irreplaceable_and_not_reclaimable() {
    let s = scan(
        vec![
            file("orbstack.img.raw", 4096),
            dir(
                "pgdata",
                vec![file("PG_VERSION", 512), dir("base", vec![file("1247", 4096)])],
            ),
            dir("node_modules", vec![file("index.js", 4096)]),
        ],
        &Ruleset::defaults(),
        1024 * 1024 * 1024,
    );

    let vm = item_for(&s, "orbstack.img.raw");
    assert_eq!(vm.class, SafetyClass::Irreplaceable);
    assert!(vm.class.is_protected());
    assert!(!vm.may_reclaim());

    let pgdata = item_for(&s, "pgdata");
    assert_eq!(pgdata.class, SafetyClass::Irreplaceable);
    assert!(!pgdata.may_reclaim());
    assert!(absent(&s, "base"), "matched Postgres dir should prune its children");

    let node_modules = item_for(&s, "node_modules");
    assert!(node_modules.may_reclaim());
    assert_eq!(s.reclaimable_bytes(), node_modules.size_on_disk);
}

#[test]
fn matched_and_unknown_split_into_reclaimable_and_unclassified() {
    let s = scan(
        vec![
            dir("proj", vec![dir("node_modules", vec![file("index.js", 128 * 1024)])]),
            dir("mystery", vec![file("blob", 256 * 1024)]),
        ],
        &Ruleset::defaults(),
        64 * 1024,
    );
    let node_modules = item_for(&s, "node_modules");
    assert_eq!(node_modules.class, SafetyClass::Reinstallable);
    assert!(node_modules.may_reclaim());
    assert_eq!(
        node_modules.recovery,
        RecoveryMethod::Reinstall { command: "npm install".into() }
    );

    let mystery = item_for(&s, "mystery");
    assert_eq!(mystery.class, SafetyClass::Unclassified);
    assert!(!mystery.may_reclaim(), "Unclassified is surfaced but not offered");
    assert_eq!(
        mystery.evidence.summary,
        "Large, but no Rule matched — inspect before deleting."
    );
    assert_eq!(s.reclaimable_bytes(), node_modules.size_on_disk);
    // Largest first.
    assert_eq!(s.items[0].path.name(), "mystery");
}

#[test]
fn nested_unknown_under_a_matched_branch_is_surfaced() {
    let s = scan(
        vec![dir(
            "workspace",
            vec![
                dir(
                    "proj",
                    vec![file("Cargo.toml", 512), dir("target", vec![file("blob", 64 * 1024)])],
                ),
                dir("bigdata", vec![dir("nested", vec![file("blob", 256 * 1024)])]),
            ],
        )],
        &Ruleset::defaults(),
        64 * 1024,
    );
    assert_eq!(item_for(&s, "target").class, SafetyClass::Regenerable);
    let unclassified: Vec<&Item> =
        s.items.iter().filter(|i| i.class == SafetyClass::Unclassified).collect();
    assert_eq!(unclassified.len(), 1, "exactly one Unclassified subtree");
    assert_eq!(unclassified[0].path.name(), "bigdata");
    assert!(!unclassified[0].may_reclaim());
}

#[test]
fn matched_dir_size_includes_full_subtree_content() {
    let files = (0..8).map(|i| file(&format!("m{i}.js"), 8 * 1024)).collect();
    let s = scan(
        vec![dir("node_modules", vec![dir("pkg", vec![dir("lib", files)])])],
        &Ruleset::defaults(),
        1,
    );
    let nm = item_for(&s, "node_modules");
    assert_eq!(nm.class, SafetyClass::Reinstallable);
    assert_eq!(nm.size_on_disk, 8 * 8 * 1024);
}

#[test]
fn no_reclaimable_item_below_a_matched_irreplaceable_ancestor() {
    let layer = dir(
        "layer0",
        vec![
            dir("node_modules", vec![file("index.js", 64 * 1024)]),
            dir(
                "app",
                vec![
                    file("Cargo.toml", 512),
                    dir("target", vec![file("build-output", 64 * 1024)]),
                ],
            ),
        ],
    );
    let s = scan(
        vec![dir("OrbStack", vec![dir("docker", vec![dir("containers", vec![layer])])])],
        &Ruleset::defaults(),
        1,
    );
    let docker = item_for(&s, "docker");
    assert_eq!(docker.class, SafetyClass::Irreplaceable);
    assert!(docker.class.is_protected());
    assert!(!docker.may_reclaim());
    for inner in ["node_modules", "target", "layer0", "containers"] {
        assert!(absent(&s, inner), "{inner} below OrbStack/docker must be pruned");
    }
    assert_eq!(s.reclaimable_bytes(), 0);
}

#[test]
fn treehouse_collapses_into_one_reclaimable_item() {
    let envs = (0..3)
        .map(|n| {
            dir(
                &n.to_string(),
                vec![
                    dir("node_modules", vec![file("index.js", 64 * 1024)]),
                    dir("target", vec![file("build-output", 64 * 1024)]),
                    file("Cargo.toml", 512),
                ],
            )
        })
        .collect();
    let s = scan(vec![dir(".treehouse", vec![dir("proj", envs)])], &Ruleset::defaults(), 1);
    let treehouse = item_for(&s, ".treehouse");
    assert_eq!(treehouse.class, SafetyClass::Regenerable);
    assert!(treehouse.may_reclaim());
    assert!(absent(&s, "node_modules"));
    assert_eq!(s.reclaimable_bytes(), treehouse.size_on_disk);
    assert!(treehouse.size_on_disk >= 6 * 64 * 1024);
}

#[test]
fn matched_item_prunes_nested_matches() {
    let s = scan(
        vec![dir(
            "proj",
            vec![
                file("Cargo.toml", 512),
                dir(
                    "target",
                    vec![
                        file("build-output", 64 * 1024),
                        dir("node_modules", vec![file("index.js", 64 * 1024)]),
                    ],
                ),
            ],
        )],
        &Ruleset::defaults(),
        1,
    );
    assert_eq!(item_for(&s, "target").class, SafetyClass::Regenerable);
    assert!(absent(&s, "node_modules"), "nested matches under an Item should be pruned");
}

fn entry(path: &str, depth: usize, is_dir: bool, bytes: u64, rule_idx: Option<usize>) -> WalkEntry {
    WalkEntry { path: DiskPath::new(path), depth, is_dir, bytes, rule_idx }
}

#[test]
fn a_walked_match_owns_everything_below_it() {
    // The same holds where the walk does not prune: node_modules is rule 0 here.
    let rules = Ruleset {
        rules: vec![Rule {
            name: "nm".into(),
            matches: Match::DirNamed { dir: "node_modules".into() },
            class: SafetyClass::Reinstallable,
            clean_command: None,
            recover_command: None,
            evidence: "fixture".into(),
        }],
    };
    let entries = vec![
        entry("/r", 0, true, 1, None),
        entry("/r/node_modules", 1, true, 2, Some(0)),
        entry("/r/node_modules/a", 2, true, 3, None),
        entry("/r/node_modules/a/node_modules", 3, true, 4, Some(0)),
        entry("/r/node_modules/b", 2, false, 5, Some(0)),
        entry("/r/x", 1, true, 6, None),
        entry("/r/x/y", 2, false, 7, None),
        entry("/r/small", 1, true, 1, None),
        entry("/r/top", 1, false, 100, None),
    ];
    let s = run(&DiskPath::new("/r"), &entries, &rules, 10);
    let seen: Vec<(String, u64)> =
        s.items.iter().map(|i| (i.path.display(), i.size_on_disk)).collect();
    assert_eq!(seen, vec![("/r/node_modules".to_string(), 14), ("/r/x".to_string(), 13)]);
    // An empty command where the Rule names none.
    assert_eq!(s.items[0].recovery, RecoveryMethod::Reinstall { command: "".into() });
    assert_eq!(s.root, DiskPath::new("/r"));
}

#[test]
fn equal_sizes_keep_their_walk_order() {
    let entries = vec![
        entry("/r", 0, true, 0, None),
        entry("/r/b", 1, true, 5, None),
        entry("/r/a", 1, true, 5, None),
        entry("/r/c", 1, true, 9, None),
    ];
    let s = run(&DiskPath::new("/r"), &entries, &Ruleset { rules: vec![] }, 1);
    let names: Vec<String> = s.items.iter().map(|i| i.path.name()).collect();
    assert_eq!(names, vec!["c", "b", "a"]);
}

#[test]
fn an_empty_walk_finds_nothing() {
    let s = run(&DiskPath::new("/gone"), &vec![], &Ruleset::defaults(), 1);
    assert!(s.items.is_empty());
}

#[test]
fn a_root_file_is_an_item_only_if_matched() {
    let rules = Ruleset::defaults();
    let path = DiskPath::new("/d/disk.img.raw");
    let none = Markers { siblings: vec![], children: vec![] };
    let entries = vec![walk_entry(&rules, path.clone(), 0, false, 7, &none)];
    let s = run(&path, &entries, &rules, 1);
    assert_eq!(s.items.len(), 1);
    assert_eq!(s.items[0].size_on_disk, 7);
    let plain = vec![entry("/d/plain", 0, false, 7, None)];
    assert!(run(&DiskPath::new("/d/plain"), &plain, &rules, 1).items.is_empty());
}

#[test]
fn modes_and_sizes_of_entries() {
    assert!(mode_is_dir(0o040755));
    assert!(!mode_is_dir(0o100644));
    assert!(mode_is_reg(0o100644));
    assert!(!mode_is_reg(0o120777));
    // A regular file is sized by its private bytes, zero included.
    assert_eq!(entry_on_disk_bytes(0o100644, Some(0), 16), 0);
    assert_eq!(entry_on_disk_bytes(0o100644, Some(10), 16), 10);
    assert_eq!(entry_on_disk_bytes(0o100644, None, 16), 8192);
    assert_eq!(entry_on_disk_bytes(0o040755, Some(10), 16), 8192);
    assert_eq!(tree_bytes(1, &vec![2, 3]), Some(6));
    assert_eq!(tree_bytes(1, &vec![u64::MAX]), None);
    assert_eq!(child_marker(&b"dir".to_vec(), "PG_VERSION"), DiskPath::new("dir/PG_VERSION"));
    assert_eq!(total_size(Some(0)), None);
    assert_eq!(total_size(Some(9)), Some(9));
    assert_eq!(total_size(Some(-9)), None);
    assert_eq!(private_size(Some(0)), Some(0));
    assert_eq!(private_size(Some(-1)), None);
    assert_eq!(private_size(None), None);
    assert!(is_entry_name(&b"a".to_vec()));
    assert!(is_entry_name(&b"...".to_vec()));
    assert!(!is_entry_name(&b".".to_vec()));
    assert!(!is_entry_name(&b"..".to_vec()));
}

#[test]
fn attributes_are_read_out_of_the_buffer() {
    for value in [0i64, 1, 255, 256, -1, i64::MAX, i64::MIN, 0x0102_0304_0506_0708] {
        let mut little = [0u8; 12];
        little[0..4].copy_from_slice(&12u32.to_le_bytes());
        little[4..12].copy_from_slice(&value.to_le_bytes());
        assert_eq!(attribute_value(true, &little, true), Some(value));
        let mut big = [0u8; 12];
        big[0..4].copy_from_slice(&12u32.to_be_bytes());
        big[4..12].copy_from_slice(&value.to_be_bytes());
        assert_eq!(attribute_value(true, &big, false), Some(value));
        assert_eq!(attribute_value(false, &little, true), None);
        // A buffer that holds no value.
        little[0] = 4;
        assert_eq!(attribute_value(true, &little, true), None);
    }
}

#[test]
fn totals_that_do_not_fit_are_noticed() {
    let fits = vec![entry("/a", 0, true, u64::MAX, None)];
    assert_eq!(walked_total(&fits), Some(u64::MAX));
    let over = vec![entry("/a", 0, true, u64::MAX, None), entry("/a/b", 1, false, 1, None)];
    assert_eq!(walked_total(&over), None);
}
