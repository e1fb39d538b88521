use macclean::classify::{Markers, PathFacts};
use macclean::dedup::{analyze, size_peers};
use macclean::fingerprint::{
    content_fingerprint, hex_text, listing_bytes, FileDigest, ListedEntry, ListedKind,
};
use macclean::measure::walk_entry;
use macclean::model::{Evidence, Item, RecoveryMethod, SafetyClass, Scan};
use macclean::path::DiskPath;
use macclean::reclaim::{conclude, reclaim, ReclaimStep, Reclaimed, StepOutcome};
use macclean::ruleset::Ruleset;
use macclean::walk::run;

fn item(path: &str, size: u64, class: SafetyClass) -> Item {
    Item {
        path: DiskPath::new(path),
        size_on_disk: size,
        class,
        recovery: RecoveryMethod::NoRecovery,
        evidence: Evidence { summary: "fixture".into() },
        override_reclaim: false,
    }
}

fn scan(items: Vec<Item>) -> Scan {
    Scan { root: DiskPath::new("/"), items }
}

fn digest_of(bytes: &[u8]) -> ListedKind {
    let mut digest = FileDigest::new();
    assert!(digest.absorb(bytes));
    ListedKind::File { digest: Some(digest.finish()) }
}

#[test]
fn identical_dirs_yield_one_redundant_copy_then_reclaim_deletes_it() {
    // Two byte-identical trees; the `-backup` name is the longer path, so the
    // bare `alpha` is chosen as the surviving original.
    let rules = Ruleset::defaults();
    let none = Markers { siblings: vec![], children: vec![] };
    let entry = |path: &str, depth: usize, is_dir: bool, bytes: u64| {
        walk_entry(&rules, DiskPath::new(path), depth, is_dir, bytes, &none)
    };
    let mut entries = vec![entry("/t", 0, true, 0)];
    for dir in ["/t/alpha", "/t/alpha-backup"] {
        entries.push(entry(dir, 1, true, 0));
        entries.push(entry(&format!("{dir}/a.bin"), 2, false, 8192));
        entries.push(entry(&format!("{dir}/nested"), 2, true, 0));
        entries.push(entry(&format!("{dir}/nested/b.bin"), 3, false, 8192));
    }
    // Low threshold so both unmatched dirs surface as Items to compare.
    let mut s = run(&DiskPath::new("/t"), &entries, &rules, 1);
    assert_eq!(size_peers(&s), vec![0, 1]);
    let listing = || {
        vec![
            listed("", ListedKind::Dir),
            listed("a.bin", digest_of(&vec![7u8; 8192])),
            listed("nested", ListedKind::Dir),
            listed("nested/b.bin", digest_of(&vec![9u8; 8192])),
        ]
    };
    let prints = vec![content_fingerprint(&listing()), content_fingerprint(&listing())];
    analyze(&mut s, &prints);

    let item_for = |name: &str| s.items.iter().find(|i| i.path.name() == name).unwrap();
    let original = item_for("alpha");
    let copy = item_for("alpha-backup");
    assert_eq!(copy.class, SafetyClass::RedundantCopy);
    assert!(copy.may_reclaim());
    assert_eq!(
        copy.recovery,
        RecoveryMethod::SurvivingCopy { original: original.path.clone() }
    );
    assert!(copy.evidence.summary.contains("byte-identical to"));
    assert_eq!(copy.evidence.summary, "byte-identical to /t/alpha");
    // The original is left alone — still just an Unclassified unknown.
    assert_eq!(original.class, SafetyClass::Unclassified);

    // Reclaiming the copy removes it permanently (no Trash for Reclaimables).
    let facts = PathFacts { is_dir: true, markers: none };
    let step = reclaim(copy, &rules, &facts);
    match conclude(step, &copy.path, StepOutcome::Done).unwrap() {
        Reclaimed::Removed => {}
        other => panic!("expected permanent removal, got {other:?}"),
    }
    // The surviving original is not offered.
    assert!(matches!(reclaim(original, &rules, &facts), ReclaimStep::Refuse { .. }));
}

#[test]
fn only_items_of_one_size_need_a_fingerprint() {
    let items = || {
        scan(vec![
            item("/a", 8, SafetyClass::Unclassified),
            item("/alone", 9, SafetyClass::Unclassified),
            item("/b", 8, SafetyClass::Unclassified),
            item("/c", 8, SafetyClass::Cache),
            item("/d", 8, SafetyClass::Unclassified),
        ])
    };
    let same = Some([1; 32]);
    let all = vec![same, same, same, same, Some([2; 32])];
    assert_eq!(size_peers(&items()), vec![0, 2, 4]);
    let mut few = vec![None; 5];
    for i in size_peers(&items()) {
        few[i] = all[i];
    }
    let mut with_all = items();
    let mut with_few = items();
    analyze(&mut with_all, &all);
    analyze(&mut with_few, &few);
    let classes = |s: &Scan| -> Vec<SafetyClass> { s.items.iter().map(|i| i.class).collect() };
    assert_eq!(classes(&with_all), classes(&with_few));
    assert_eq!(with_all.items[2].recovery, with_few.items[2].recovery);
    assert_eq!(with_few.items[2].class, SafetyClass::RedundantCopy);
}

#[test]
fn duplicate_protected_files_keep_one_protected_survivor() {
    let mut s = scan(vec![
        item("/t/disk2.img.raw", 16384, SafetyClass::Irreplaceable),
        item("/t/disk1.img.raw", 16384, SafetyClass::Irreplaceable),
    ]);
    analyze(&mut s, &vec![Some([3; 32]), Some([3; 32])]);
    // Equal protection and equal path length → lexicographic, so disk1 survives.
    let survivor = &s.items[1];
    let copy = &s.items[0];
    assert_eq!(survivor.class, SafetyClass::Irreplaceable);
    assert!(survivor.class.is_protected());
    assert!(!survivor.may_reclaim());
    assert_eq!(copy.class, SafetyClass::RedundantCopy);
    assert!(copy.may_reclaim());
}

#[test]
fn a_protected_copy_survives_a_shorter_path() {
    let mut s = scan(vec![
        item("/a", 10, SafetyClass::Unclassified),
        item("/longer/path", 10, SafetyClass::Irreplaceable),
        item("/b", 10, SafetyClass::BrowserCache),
    ]);
    s.items[0].override_reclaim = true;
    analyze(&mut s, &vec![Some([1; 32]), Some([1; 32]), Some([1; 32])]);
    let classes: Vec<SafetyClass> = s.items.iter().map(|i| i.class).collect();
    assert_eq!(
        classes,
        vec![
            SafetyClass::RedundantCopy,
            SafetyClass::Irreplaceable,
            SafetyClass::RedundantCopy
        ]
    );
    assert!(!s.items[0].override_reclaim, "a relabel clears a stale override");
}

#[test]
fn what_is_empty_reclaimable_or_unread_is_left_alone() {
    let mut s = scan(vec![
        item("/e1", 0, SafetyClass::Unclassified),
        item("/e2", 0, SafetyClass::Unclassified),
        item("/c1", 9, SafetyClass::Cache),
        item("/c2", 9, SafetyClass::Cache),
        item("/u1", 8, SafetyClass::Unclassified),
        item("/u2", 8, SafetyClass::Unclassified),
        item("/v1", 7, SafetyClass::Unclassified),
        item("/v2", 6, SafetyClass::Unclassified),
    ]);
    assert_eq!(size_peers(&s), vec![4, 5]);
    let same = Some([1; 32]);
    analyze(&mut s, &vec![same, same, same, same, same, None, same, same]);
    assert!(s.items.iter().all(|i| i.class != SafetyClass::RedundantCopy));
    // A second pass over its own result changes nothing either.
    let mut t = scan(vec![
        item("/u1", 8, SafetyClass::Unclassified),
        item("/u2", 8, SafetyClass::Unclassified),
    ]);
    analyze(&mut t, &vec![same, same]);
    analyze(&mut t, &vec![same, same]);
    assert_eq!(t.items[0].class, SafetyClass::Unclassified);
    assert_eq!(t.items[1].class, SafetyClass::RedundantCopy);
}

fn listed(rel: &str, kind: ListedKind) -> ListedEntry {
    ListedEntry { rel: DiskPath::new(rel), kind }
}

fn tree() -> Vec<ListedEntry> {
    vec![
        listed("", ListedKind::Dir),
        listed("nested", ListedKind::Dir),
        listed("a.bin", ListedKind::File { digest: Some([0xab; 32]) }),
        listed("link", ListedKind::Other),
    ]
}

#[test]
fn the_listing_is_sorted_lines() {
    let bytes = listing_bytes(&tree()).unwrap();
    let want = format!("D:\nD:nested\nF:a.bin:{}\n", "ab".repeat(32));
    assert_eq!(String::from_utf8(bytes).unwrap(), want);
    assert_eq!(hex_text(&[0x0f; 32]), "0f".repeat(32));
}

#[test]
fn the_fingerprint_is_the_hash_of_the_listing() {
    let want = format!("D:\nD:nested\nF:a.bin:{}\n", "ab".repeat(32));
    assert_eq!(
        content_fingerprint(&tree()).unwrap(),
        *blake3::hash(want.as_bytes()).as_bytes()
    );
    let mut reversed = tree();
    reversed.reverse();
    assert_eq!(content_fingerprint(&reversed), content_fingerprint(&tree()));
    // Incremental hashing of the lines gives the same.
    let mut hasher = blake3::Hasher::new();
    for line in want.lines() {
        hasher.update(line.as_bytes());
        hasher.update(b"\n");
    }
    assert_eq!(content_fingerprint(&tree()).unwrap(), *hasher.finalize().as_bytes());
}

#[test]
fn an_unreadable_file_leaves_no_fingerprint() {
    let mut with_unreadable = tree();
    with_unreadable.push(listed("x", ListedKind::File { digest: None }));
    assert!(content_fingerprint(&with_unreadable).is_none());
    assert!(listing_bytes(&with_unreadable).is_none());
    // An empty listing has the fingerprint of no bytes.
    assert_eq!(content_fingerprint(&vec![]).unwrap(), *blake3::hash(b"").as_bytes());
}

#[test]
fn other_contents_give_another_fingerprint() {
    let mut other = tree();
    other[2].kind = ListedKind::File { digest: Some([0xac; 32]) };
    assert_ne!(content_fingerprint(&other), content_fingerprint(&tree()));
}

#[test]
fn a_file_is_hashed_piece_by_piece() {
    let bytes: Vec<u8> = (0..5000u32).map(|i| (i % 251) as u8).collect();
    let mut digest = FileDigest::new();
    for piece in bytes.chunks(700) {
        assert!(digest.absorb(piece));
    }
    assert_eq!(digest.finish(), *blake3::hash(&bytes).as_bytes());
    // Finishing changes nothing, and more bytes may follow.
    assert_eq!(digest.finish(), *blake3::hash(&bytes).as_bytes());
    assert!(digest.absorb(b"tail"));
    let longer = [bytes.as_slice(), b"tail".as_slice()].concat();
    assert_eq!(digest.finish(), *blake3::hash(&longer).as_bytes());
    assert_eq!(FileDigest::new().finish(), *blake3::hash(b"").as_bytes());
}

#[test]
fn the_fingerprint_of_a_file_is_the_hash_of_its_bytes() {
    let mut digest = FileDigest::new();
    assert!(digest.absorb(b"abc"));
    let file = |rel: &str| listed(rel, ListedKind::File { digest: Some(digest.finish()) });
    assert_eq!(content_fingerprint(&vec![file("")]), Some(*blake3::hash(b"abc").as_bytes()));
    // In a directory it is one line of the listing.
    let dir = vec![listed("", ListedKind::Dir), file("a")];
    let line = format!("D:\nF:a:{}\n", hex_text(&digest.finish()));
    assert_eq!(content_fingerprint(&dir), Some(*blake3::hash(line.as_bytes()).as_bytes()));
    // A file that could not be read has none.
    let unread = vec![listed("", ListedKind::File { digest: None })];
    assert_eq!(content_fingerprint(&unread), None);
}

#[test]
fn cloned_items_are_the_same() {
    let mut s = scan(vec![
        item("/t/a", 5, SafetyClass::Unclassified),
        item("/t/b", 5, SafetyClass::Unclassified),
    ]);
    analyze(&mut s, &vec![Some([7; 32]), Some([7; 32])]);
    for original in &s.items {
        let copy = original.clone();
        assert_eq!(copy.path, original.path);
        assert_eq!(copy.size_on_disk, original.size_on_disk);
        assert_eq!(copy.class, original.class);
        assert_eq!(copy.recovery, original.recovery);
        assert_eq!(copy.evidence.clone().summary, original.evidence.summary);
        assert_eq!(copy.override_reclaim, original.override_reclaim);
    }
}
